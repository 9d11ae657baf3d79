//! The wire format, as functions from the unread input to the decoded value
//! and the number of bytes it took.
//!
//! Every multi-byte number is big-endian. A string is a signed 16-bit count
//! of bytes followed by that many bytes of UTF-8. A value is decoded under a
//! type code that the caller knows: from a header, from a tag byte just before
//! the value, or from the kind of message.

use crate::serialization::model::{map_insert, Entries, SpecValue};
use crate::serialization::type_code::TypeCode;
use vstd::prelude::*;
use vstd::utf8::{decode_utf8, valid_utf8};

verus! {

/// Why a value could not be decoded. Each of these ends the decoding of the
/// frame at hand.
#[derive(Clone, Copy, PartialEq, Eq, Debug, Structural)]
pub enum DecodeError {
    /// The input ends before the value does.
    Truncation,
    /// A length or a count that has to be allocated is below zero.
    NegativeLength,
    /// The byte read where a type code must stand is no type code.
    InvalidTypeCode(u8),
    /// No decoder is registered for this custom type.
    UnknownCustomType(u8),
    /// The bytes of a string are not UTF-8.
    Utf8Error,
}

/// The registered decoders of custom types, as functions on byte strings.
pub type Decoders = Map<u8, spec_fn(Seq<u8>) -> SpecValue>;

/// What a decoding step yields: the decoded thing and the number of bytes
/// that it took from the front of the input.
pub type Step<T> = Result<(T, nat), DecodeError>;

/// The input that follows the first `n` bytes of `s`.
pub open spec fn after(s: Seq<u8>, n: nat) -> Seq<u8> {
    if n <= s.len() {
        s.skip(n as int)
    } else {
        Seq::empty()
    }
}

/// The number that two bytes spell, the first being the high one.
pub open spec fn be16(s: Seq<u8>) -> int {
    s[0] * 0x100 + s[1]
}

/// The number that four bytes spell, the first being the highest.
pub open spec fn be32(s: Seq<u8>) -> int {
    s[0] * 0x100_0000 + s[1] * 0x1_0000 + s[2] * 0x100 + s[3]
}

/// The number that eight bytes spell, the first being the highest.
pub open spec fn be64(s: Seq<u8>) -> int {
    be32(s) * 0x1_0000_0000 + be32(s.skip(4))
}

/// The signed 16-bit number with the two's complement bits of `u`.
pub open spec fn signed16(u: int) -> i16 {
    if u >= 0x8000 {
        (u - 0x1_0000) as i16
    } else {
        u as i16
    }
}

/// The signed 32-bit number with the two's complement bits of `u`.
pub open spec fn signed32(u: int) -> i32 {
    if u >= 0x8000_0000 {
        (u - 0x1_0000_0000) as i32
    } else {
        u as i32
    }
}

/// The signed 64-bit number with the two's complement bits of `u`.
pub open spec fn signed64(u: int) -> i64 {
    if u >= 0x8000_0000_0000_0000 {
        (u - 0x1_0000_0000_0000_0000) as i64
    } else {
        u as i64
    }
}

/// One byte.
pub open spec fn read_byte(s: Seq<u8>) -> Step<u8> {
    if s.len() >= 1 {
        Ok((s[0], 1nat))
    } else {
        Err(DecodeError::Truncation)
    }
}

/// A boolean: one byte, true unless it is zero.
pub open spec fn read_bool(s: Seq<u8>) -> Step<bool> {
    if s.len() >= 1 {
        Ok((s[0] != 0, 1nat))
    } else {
        Err(DecodeError::Truncation)
    }
}

/// A signed 16-bit number.
pub open spec fn read_short(s: Seq<u8>) -> Step<i16> {
    if s.len() >= 2 {
        Ok((signed16(be16(s)), 2nat))
    } else {
        Err(DecodeError::Truncation)
    }
}

/// A signed 32-bit number.
pub open spec fn read_int(s: Seq<u8>) -> Step<i32> {
    if s.len() >= 4 {
        Ok((signed32(be32(s)), 4nat))
    } else {
        Err(DecodeError::Truncation)
    }
}

/// A signed 64-bit number.
pub open spec fn read_long(s: Seq<u8>) -> Step<i64> {
    if s.len() >= 8 {
        Ok((signed64(be64(s)), 8nat))
    } else {
        Err(DecodeError::Truncation)
    }
}

/// The bits of a 32-bit float.
pub open spec fn read_float(s: Seq<u8>) -> Step<u32> {
    if s.len() >= 4 {
        Ok((be32(s) as u32, 4nat))
    } else {
        Err(DecodeError::Truncation)
    }
}

/// The bits of a 64-bit float.
pub open spec fn read_double(s: Seq<u8>) -> Step<u64> {
    if s.len() >= 8 {
        Ok((be64(s) as u64, 8nat))
    } else {
        Err(DecodeError::Truncation)
    }
}

/// A type code: one byte that stands for a type.
pub open spec fn read_type_code(s: Seq<u8>) -> Step<TypeCode> {
    if s.len() < 1 {
        Err(DecodeError::Truncation)
    } else {
        match TypeCode::spec_from_repr(s[0]) {
            Some(t) => Ok((t, 1nat)),
            None => Err(DecodeError::InvalidTypeCode(s[0])),
        }
    }
}

/// The header of a dictionary: the type code of its keys, then that of its
/// values.
pub open spec fn read_dictionary_type(s: Seq<u8>) -> Step<(TypeCode, TypeCode)> {
    if s.len() < 2 {
        Err(DecodeError::Truncation)
    } else {
        match TypeCode::spec_from_repr(s[0]) {
            None => Err(DecodeError::InvalidTypeCode(s[0])),
            Some(k) => match TypeCode::spec_from_repr(s[1]) {
                None => Err(DecodeError::InvalidTypeCode(s[1])),
                Some(v) => Ok(((k, v), 2nat)),
            },
        }
    }
}

/// A counted run of raw bytes whose count `len` was read just before and
/// took `header` bytes.
pub open spec fn read_block(s: Seq<u8>, header: nat, len: int) -> Step<Seq<u8>> {
    if len < 0 {
        Err(DecodeError::NegativeLength)
    } else if s.len() < header + len {
        Err(DecodeError::Truncation)
    } else {
        Ok((s.subrange(header as int, header + len), (header + len) as nat))
    }
}

/// A string: a signed 16-bit count, then that many bytes of UTF-8.
pub open spec fn read_string(s: Seq<u8>) -> Step<Seq<char>> {
    match read_short(s) {
        Err(e) => Err(e),
        Ok((len, _)) => match read_block(s, 2, len as int) {
            Err(e) => Err(e),
            Ok((bytes, used)) => if valid_utf8(bytes) {
                Ok((decode_utf8(bytes), used))
            } else {
                Err(DecodeError::Utf8Error)
            },
        },
    }
}

/// A byte array: a signed 32-bit count, then that many bytes.
pub open spec fn read_byte_array(s: Seq<u8>) -> Step<Seq<u8>> {
    match read_int(s) {
        Err(e) => Err(e),
        Ok((len, _)) => read_block(s, 4, len as int),
    }
}

/// An integer array: a signed 32-bit count, then that many signed 32-bit
/// numbers.
pub open spec fn read_int_array(s: Seq<u8>) -> Step<Seq<i32>> {
    match read_int(s) {
        Err(e) => Err(e),
        Ok((len, _)) => if len < 0 {
            Err(DecodeError::NegativeLength)
        } else if s.len() < 4 + 4 * len {
            Err(DecodeError::Truncation)
        } else {
            Ok(
                (
                    Seq::new(len as nat, |i: int| signed32(be32(s.skip(4 + 4 * i)))),
                    (4 + 4 * len) as nat,
                ),
            )
        },
    }
}

/// The first `n` strings of a run of strings.
pub open spec fn read_strings(s: Seq<u8>, n: nat) -> Step<Seq<Seq<char>>>
    decreases n,
{
    if n == 0 {
        Ok((Seq::empty(), 0nat))
    } else {
        match read_strings(s, (n - 1) as nat) {
            Err(e) => Err(e),
            Ok((items, used)) => match read_string(after(s, used)) {
                Err(e) => Err(e),
                Ok((item, more)) => Ok((items.push(item), used + more)),
            },
        }
    }
}

/// A string array: a signed 16-bit count, then that many strings.
pub open spec fn read_string_array(s: Seq<u8>) -> Step<Seq<Seq<char>>> {
    match read_short(s) {
        Err(e) => Err(e),
        Ok((len, _)) => if len < 0 {
            Err(DecodeError::NegativeLength)
        } else {
            match read_strings(after(s, 2), len as nat) {
                Err(e) => Err(e),
                Ok((items, used)) => Ok((items, 2 + used)),
            }
        },
    }
}

/// The body of a custom value of type `code`: a signed 16-bit count and that
/// many bytes, which the registered decoder turns into a value.
pub open spec fn read_custom(s: Seq<u8>, code: u8, decoders: Decoders) -> Step<SpecValue> {
    match read_short(s) {
        Err(e) => Err(e),
        Ok((len, _)) => if !decoders.contains_key(code) {
            Err(DecodeError::UnknownCustomType(code))
        } else {
            match read_block(s, 2, len as int) {
                Err(e) => Err(e),
                Ok((bytes, used)) => Ok((decoders[code](bytes), used)),
            }
        },
    }
}

/// The first `n` bodies of a run of custom values that share one decoder.
pub open spec fn read_custom_items(
    s: Seq<u8>,
    decoder: spec_fn(Seq<u8>) -> SpecValue,
    n: nat,
) -> Step<Seq<SpecValue>>
    decreases n,
{
    if n == 0 {
        Ok((Seq::empty(), 0nat))
    } else {
        match read_custom_items(s, decoder, (n - 1) as nat) {
            Err(e) => Err(e),
            Ok((items, used)) => match read_short(after(s, used)) {
                Err(e) => Err(e),
                Ok((len, _)) => match read_block(after(s, used), 2, len as int) {
                    Err(e) => Err(e),
                    Ok((bytes, more)) => Ok((items.push(decoder(bytes)), used + more)),
                },
            },
        }
    }
}

/// The value that stands at the front of `s` when its type code is `code`.
///
/// A byte that is no type code, and the codes `Unknown` and `Null`, give
/// `Null` and take nothing from the input.
pub open spec fn decode_value(s: Seq<u8>, code: u8, decoders: Decoders) -> Step<SpecValue>
    decreases s.len(), 1nat, 0nat,
{
    match TypeCode::spec_from_repr(code) {
        None => Ok((SpecValue::Null, 0nat)),
        Some(TypeCode::Unknown) => Ok((SpecValue::Null, 0nat)),
        Some(TypeCode::Null) => Ok((SpecValue::Null, 0nat)),
        Some(TypeCode::Boolean) => match read_bool(s) {
            Err(e) => Err(e),
            Ok((x, used)) => Ok((SpecValue::Bool(x), used)),
        },
        Some(TypeCode::Byte) => match read_byte(s) {
            Err(e) => Err(e),
            Ok((x, used)) => Ok((SpecValue::Byte(x), used)),
        },
        Some(TypeCode::Short) => match read_short(s) {
            Err(e) => Err(e),
            Ok((x, used)) => Ok((SpecValue::Short(x), used)),
        },
        Some(TypeCode::Integer) => match read_int(s) {
            Err(e) => Err(e),
            Ok((x, used)) => Ok((SpecValue::Int(x), used)),
        },
        Some(TypeCode::Long) => match read_long(s) {
            Err(e) => Err(e),
            Ok((x, used)) => Ok((SpecValue::Long(x), used)),
        },
        Some(TypeCode::Float) => match read_float(s) {
            Err(e) => Err(e),
            Ok((x, used)) => Ok((SpecValue::Float(x), used)),
        },
        Some(TypeCode::Double) => match read_double(s) {
            Err(e) => Err(e),
            Ok((x, used)) => Ok((SpecValue::Double(x), used)),
        },
        Some(TypeCode::String) => match read_string(s) {
            Err(e) => Err(e),
            Ok((x, used)) => Ok((SpecValue::String(x), used)),
        },
        Some(TypeCode::StringArray) => match read_string_array(s) {
            Err(e) => Err(e),
            Ok((x, used)) => Ok((SpecValue::StringArray(x), used)),
        },
        Some(TypeCode::IntegerArray) => match read_int_array(s) {
            Err(e) => Err(e),
            Ok((x, used)) => Ok((SpecValue::IntegerArray(x), used)),
        },
        Some(TypeCode::ByteArray) => match read_byte_array(s) {
            Err(e) => Err(e),
            Ok((x, used)) => Ok((SpecValue::ByteArray(x), used)),
        },
        Some(TypeCode::Custom) => match read_byte(s) {
            Err(e) => Err(e),
            Ok((custom_code, _)) => match read_custom(after(s, 1), custom_code, decoders) {
                Err(e) => Err(e),
                Ok((x, used)) => Ok((x, 1 + used)),
            },
        },
        Some(TypeCode::Array) => match decode_array(s, decoders) {
            Err(e) => Err(e),
            Ok((x, used)) => Ok((SpecValue::Array(x), used)),
        },
        Some(TypeCode::ObjectArray) => match decode_object_array(s, decoders) {
            Err(e) => Err(e),
            Ok((x, used)) => Ok((SpecValue::ObjectArray(x), used)),
        },
        Some(TypeCode::Hashtable) => match decode_hashtable(s, decoders) {
            Err(e) => Err(e),
            Ok((x, used)) => Ok((SpecValue::HashTable(x), used)),
        },
        Some(TypeCode::Dictionary) => match decode_dictionary(s, decoders) {
            Err(e) => Err(e),
            Ok((x, used)) => Ok((SpecValue::Dictionary(x), used)),
        },
        Some(TypeCode::EventData) => decode_event_data(s, decoders),
        Some(TypeCode::OperationRequest) => decode_operation_request(s, decoders),
        Some(TypeCode::OperationResponse) => decode_operation_response(s, decoders),
    }
}

/// A value whose type was declared ahead; where the declared type is
/// `Unknown`, a type code stands before the value and decides.
pub open spec fn decode_maybe_typed(s: Seq<u8>, declared: TypeCode, decoders: Decoders) -> Step<
    SpecValue,
>
    decreases s.len(), 2nat, 0nat,
{
    if declared == TypeCode::Unknown {
        match read_type_code(s) {
            Err(e) => Err(e),
            Ok((t, _)) => match decode_value(after(s, 1), t.spec_code(), decoders) {
                Err(e) => Err(e),
                Ok((x, used)) => Ok((x, 1 + used)),
            },
        }
    } else {
        decode_value(s, declared.spec_code(), decoders)
    }
}

/// The first `n` of a run of values that were all declared to be of type
/// `code`.
pub open spec fn decode_items(s: Seq<u8>, code: u8, n: nat, decoders: Decoders) -> Step<
    Seq<SpecValue>,
>
    decreases s.len(), 4nat, n,
{
    if n == 0 {
        Ok((Seq::empty(), 0nat))
    } else {
        match decode_items(s, code, (n - 1) as nat, decoders) {
            Err(e) => Err(e),
            Ok((items, used)) => match decode_value(after(s, used), code, decoders) {
                Err(e) => Err(e),
                Ok((item, more)) => Ok((items.push(item), used + more)),
            },
        }
    }
}

/// The first `n` of a run of values that each follow a type code of their
/// own.
pub open spec fn decode_tagged_items(s: Seq<u8>, n: nat, decoders: Decoders) -> Step<
    Seq<SpecValue>,
>
    decreases s.len(), 4nat, n,
{
    if n == 0 {
        Ok((Seq::empty(), 0nat))
    } else {
        match decode_tagged_items(s, (n - 1) as nat, decoders) {
            Err(e) => Err(e),
            Ok((items, used)) => match decode_maybe_typed(
                after(s, used),
                TypeCode::Unknown,
                decoders,
            ) {
                Err(e) => Err(e),
                Ok((item, more)) => Ok((items.push(item), used + more)),
            },
        }
    }
}

/// One entry of a map: a key declared to be of type `key_type`, then a
/// value declared to be of type `value_type`.
pub open spec fn decode_entry(
    s: Seq<u8>,
    key_type: TypeCode,
    value_type: TypeCode,
    decoders: Decoders,
) -> Step<(SpecValue, SpecValue)>
    decreases s.len(), 3nat, 0nat,
{
    match decode_maybe_typed(s, key_type, decoders) {
        Err(e) => Err(e),
        Ok((key, key_len)) => match decode_maybe_typed(after(s, key_len), value_type, decoders) {
            Err(e) => Err(e),
            Ok((value, value_len)) => Ok(((key, value), key_len + value_len)),
        },
    }
}

/// The map made of the first `n` entries of a run of entries, whose keys
/// were declared to be of type `key_type` and whose values of type
/// `value_type`. A key that comes again replaces the value of the earlier
/// entry.
pub open spec fn decode_entries(
    s: Seq<u8>,
    key_type: TypeCode,
    value_type: TypeCode,
    n: nat,
    decoders: Decoders,
) -> Step<Entries>
    decreases s.len(), 4nat, n,
{
    if n == 0 {
        Ok((Seq::empty(), 0nat))
    } else {
        match decode_entries(s, key_type, value_type, (n - 1) as nat, decoders) {
            Err(e) => Err(e),
            Ok((entries, used)) => match decode_entry(
                after(s, used),
                key_type,
                value_type,
                decoders,
            ) {
                Err(e) => Err(e),
                Ok(((key, value), more)) => Ok((map_insert(entries, key, value), used + more)),
            },
        }
    }
}

/// The first `n` of a run of dictionaries that share their declared types.
/// Each is a signed 16-bit count and that many entries; a count below zero
/// stands for no entries.
pub open spec fn decode_dictionaries(
    s: Seq<u8>,
    key_type: TypeCode,
    value_type: TypeCode,
    n: nat,
    decoders: Decoders,
) -> Step<Seq<SpecValue>>
    decreases s.len(), 4nat, n,
{
    if n == 0 {
        Ok((Seq::empty(), 0nat))
    } else {
        match decode_dictionaries(s, key_type, value_type, (n - 1) as nat, decoders) {
            Err(e) => Err(e),
            Ok((items, used)) => match read_short(after(s, used)) {
                Err(e) => Err(e),
                Ok((count, _)) => match decode_entries(
                    after(s, used + 2),
                    key_type,
                    value_type,
                    if count < 0 {
                        0nat
                    } else {
                        count as nat
                    },
                    decoders,
                ) {
                    Err(e) => Err(e),
                    Ok((entries, more)) => Ok(
                        (items.push(SpecValue::Dictionary(entries)), used + 2 + more),
                    ),
                },
            },
        }
    }
}

/// A run of `n` dictionaries behind the key and value types that they
/// share.
pub open spec fn decode_dictionary_array(s: Seq<u8>, n: nat, decoders: Decoders) -> Step<
    Seq<SpecValue>,
>
    decreases s.len(), 0nat, 0nat,
{
    match read_dictionary_type(s) {
        Err(e) => Err(e),
        Ok(((key_type, value_type), _)) => match decode_dictionaries(
            after(s, 2),
            key_type,
            value_type,
            n,
            decoders,
        ) {
            Err(e) => Err(e),
            Ok((items, used)) => Ok((items, 2 + used)),
        },
    }
}

/// The elements of an array: a signed 16-bit count and the type code of the
/// elements, then the elements.
///
/// Custom elements share one custom code, which follows the header.
/// Dictionary elements share their key and value types, which follow the
/// header. Elements of any other type are decoded one after the other under
/// the declared type.
pub open spec fn decode_array(s: Seq<u8>, decoders: Decoders) -> Step<Seq<SpecValue>>
    decreases s.len(), 0nat, 0nat,
{
    match read_short(s) {
        Err(e) => Err(e),
        Ok((len, _)) => if len < 0 {
            Err(DecodeError::NegativeLength)
        } else {
            match read_type_code(after(s, 2)) {
                Err(e) => Err(e),
                Ok((TypeCode::Custom, _)) => match read_byte(after(s, 3)) {
                    Err(e) => Err(e),
                    Ok((custom_code, _)) => if !decoders.contains_key(custom_code) {
                        Err(DecodeError::UnknownCustomType(custom_code))
                    } else {
                        match read_custom_items(after(s, 4), decoders[custom_code], len as nat) {
                            Err(e) => Err(e),
                            Ok((items, used)) => Ok((items, 4 + used)),
                        }
                    },
                },
                Ok((TypeCode::Dictionary, _)) => match decode_dictionary_array(
                    after(s, 3),
                    len as nat,
                    decoders,
                ) {
                    Err(e) => Err(e),
                    Ok((items, used)) => Ok((items, 3 + used)),
                },
                Ok((item_type, _)) => match decode_items(
                    after(s, 3),
                    item_type.spec_code(),
                    len as nat,
                    decoders,
                ) {
                    Err(e) => Err(e),
                    Ok((items, used)) => Ok((items, 3 + used)),
                },
            }
        },
    }
}

/// The elements of an object array: a signed 16-bit count, then that many
/// values, each after its own type code.
pub open spec fn decode_object_array(s: Seq<u8>, decoders: Decoders) -> Step<Seq<SpecValue>>
    decreases s.len(), 0nat, 0nat,
{
    match read_short(s) {
        Err(e) => Err(e),
        Ok((len, _)) => if len < 0 {
            Err(DecodeError::NegativeLength)
        } else {
            match decode_tagged_items(after(s, 2), len as nat, decoders) {
                Err(e) => Err(e),
                Ok((items, used)) => Ok((items, 2 + used)),
            }
        },
    }
}

/// The entries of a hash table: a signed 16-bit count, then that many
/// entries, in each of which the key and the value follow a type code of
/// their own.
pub open spec fn decode_hashtable(s: Seq<u8>, decoders: Decoders) -> Step<Entries>
    decreases s.len(), 0nat, 0nat,
{
    match read_short(s) {
        Err(e) => Err(e),
        Ok((len, _)) => if len < 0 {
            Err(DecodeError::NegativeLength)
        } else {
            match decode_entries(
                after(s, 2),
                TypeCode::Unknown,
                TypeCode::Unknown,
                len as nat,
                decoders,
            ) {
                Err(e) => Err(e),
                Ok((entries, used)) => Ok((entries, 2 + used)),
            }
        },
    }
}

/// The entries of a dictionary: the type codes of keys and values, a signed
/// 16-bit count, then that many entries.
pub open spec fn decode_dictionary(s: Seq<u8>, decoders: Decoders) -> Step<Entries>
    decreases s.len(), 0nat, 0nat,
{
    match read_dictionary_type(s) {
        Err(e) => Err(e),
        Ok(((key_type, value_type), _)) => match read_short(after(s, 2)) {
            Err(e) => Err(e),
            Ok((len, _)) => if len < 0 {
                Err(DecodeError::NegativeLength)
            } else {
                match decode_entries(after(s, 4), key_type, value_type, len as nat, decoders) {
                    Err(e) => Err(e),
                    Ok((entries, used)) => Ok((entries, 4 + used)),
                }
            },
        },
    }
}

/// The entries of a parameter table: a signed 16-bit count, then that many
/// entries of a one-byte key, a type code and a value of that type.
pub open spec fn decode_parameter_table(s: Seq<u8>, decoders: Decoders) -> Step<Entries>
    decreases s.len(), 0nat, 0nat,
{
    match read_short(s) {
        Err(e) => Err(e),
        Ok((len, _)) => if len < 0 {
            Err(DecodeError::NegativeLength)
        } else {
            match decode_entries(
                after(s, 2),
                TypeCode::Byte,
                TypeCode::Unknown,
                len as nat,
                decoders,
            ) {
                Err(e) => Err(e),
                Ok((entries, used)) => Ok((entries, 2 + used)),
            }
        },
    }
}

/// An event: its code, then its parameter table.
pub open spec fn decode_event_data(s: Seq<u8>, decoders: Decoders) -> Step<SpecValue>
    decreases s.len(), 0nat, 0nat,
{
    match read_byte(s) {
        Err(e) => Err(e),
        Ok((event_code, _)) => match decode_parameter_table(after(s, 1), decoders) {
            Err(e) => Err(e),
            Ok((params, used)) => Ok((SpecValue::EventData { event_code, params }, 1 + used)),
        },
    }
}

/// An operation request: its opcode, then its parameter table.
pub open spec fn decode_operation_request(s: Seq<u8>, decoders: Decoders) -> Step<SpecValue>
    decreases s.len(), 0nat, 0nat,
{
    match read_byte(s) {
        Err(e) => Err(e),
        Ok((opcode, _)) => match decode_parameter_table(after(s, 1), decoders) {
            Err(e) => Err(e),
            Ok((params, used)) => Ok((SpecValue::OperationRequest { opcode, params }, 1 + used)),
        },
    }
}

/// An operation response: its opcode, a signed 16-bit return code, a debug
/// message after its type code, then the parameter table.
pub open spec fn decode_operation_response(s: Seq<u8>, decoders: Decoders) -> Step<SpecValue>
    decreases s.len(), 0nat, 0nat,
{
    match read_byte(s) {
        Err(e) => Err(e),
        Ok((opcode, _)) => match read_short(after(s, 1)) {
            Err(e) => Err(e),
            Ok((return_code, _)) => match decode_maybe_typed(
                after(s, 3),
                TypeCode::Unknown,
                decoders,
            ) {
                Err(e) => Err(e),
                Ok((message, message_len)) => match decode_parameter_table(
                    after(s, 3 + message_len),
                    decoders,
                ) {
                    Err(e) => Err(e),
                    Ok((params, used)) => Ok(
                        (
                            SpecValue::OperationResponse {
                                opcode,
                                return_code,
                                debug_message: Box::new(message),
                                params,
                            },
                            3 + message_len + used,
                        ),
                    ),
                },
            },
        },
    }
}

} // verus!
