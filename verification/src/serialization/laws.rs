//! What holds of the wire format for every input.

use crate::serialization::model::{
    entry_valid, lemma_map_insert_sized, lemma_map_insert_wf, map_valid, seq_valid, string_fits,
    strings_fit, valid, Entries, SpecValue,
};
use crate::serialization::type_code::TypeCode;
use crate::serialization::wire::{
    after, decode_array, decode_dictionaries, decode_dictionary, decode_dictionary_array,
    decode_entries, decode_entry, decode_event_data, decode_hashtable, decode_items,
    decode_maybe_typed, decode_object_array, decode_operation_request,
    decode_operation_response, decode_parameter_table, decode_tagged_items, decode_value,
    read_bool, read_byte, read_byte_array, read_custom, read_custom_items,
    read_double, read_float, read_int, read_int_array, read_long, read_short, read_string,
    read_string_array, read_strings, DecodeError, Decoders,
};
use vstd::prelude::*;
use vstd::utf8::{decode_utf8, encode_utf8, valid_utf8};

verus! {

/// A byte that stands for no type is decoded to `Null`, whatever the input
/// holds, and nothing is taken from the input.
pub proof fn lemma_unknown_code_is_null(s: Seq<u8>, code: u8, decoders: Decoders)
    requires
        TypeCode::spec_from_repr(code) is None,
    ensures
        decode_value(s, code, decoders) == Ok::<(SpecValue, nat), DecodeError>(
            (SpecValue::Null, 0nat),
        ),
{
}

/// A string whose count is zero is the empty string and takes two bytes.
pub proof fn lemma_empty_string(s: Seq<u8>)
    requires
        s.len() >= 2,
        s[0] == 0,
        s[1] == 0,
    ensures
        read_string(s) == Ok::<(Seq<char>, nat), DecodeError>((Seq::empty(), 2nat)),
{
    let bytes = s.subrange(2, 2);
    assert(bytes =~= Seq::<u8>::empty());
    assert(valid_utf8(bytes)) by {
        reveal_with_fuel(valid_utf8, 1);
    }
    assert(decode_utf8(bytes) =~= Seq::<char>::empty()) by {
        reveal_with_fuel(decode_utf8, 1);
    }
}

/// A string array, an object array, a hash table and a parameter table
/// whose count is zero are empty and take two bytes.
pub proof fn lemma_empty_collections(s: Seq<u8>, decoders: Decoders)
    requires
        s.len() >= 2,
        s[0] == 0,
        s[1] == 0,
    ensures
        read_string_array(s) == Ok::<(Seq<Seq<char>>, nat), DecodeError>((Seq::empty(), 2nat)),
        decode_object_array(s, decoders) == Ok::<(Seq<SpecValue>, nat), DecodeError>(
            (Seq::empty(), 2nat),
        ),
        decode_hashtable(s, decoders) == Ok::<(Entries, nat), DecodeError>((Seq::empty(), 2nat)),
        decode_parameter_table(s, decoders) == Ok::<(Entries, nat), DecodeError>(
            (Seq::empty(), 2nat),
        ),
{
    assert(read_strings(after(s, 2), 0) == Ok::<(Seq<Seq<char>>, nat), DecodeError>(
        (Seq::empty(), 0nat),
    ));
    assert(decode_tagged_items(after(s, 2), 0, decoders) == Ok::<
        (Seq<SpecValue>, nat),
        DecodeError,
    >((Seq::empty(), 0nat)));
    assert(decode_entries(after(s, 2), TypeCode::Unknown, TypeCode::Unknown, 0, decoders) == Ok::<
        (Entries, nat),
        DecodeError,
    >((Seq::empty(), 0nat)));
    assert(decode_entries(after(s, 2), TypeCode::Byte, TypeCode::Unknown, 0, decoders) == Ok::<
        (Entries, nat),
        DecodeError,
    >((Seq::empty(), 0nat)));
}

/// An array whose count is zero is empty, whatever the type of its elements:
/// it takes its count and the type code, and what the header of that type
/// takes (one byte more for custom elements, two for dictionaries).
pub proof fn lemma_empty_array(s: Seq<u8>, decoders: Decoders)
    requires
        s.len() >= 3,
        s[0] == 0,
        s[1] == 0,
        TypeCode::spec_from_repr(s[2]) matches Some(t) && t != TypeCode::Custom && t
            != TypeCode::Dictionary,
    ensures
        decode_array(s, decoders) == Ok::<(Seq<SpecValue>, nat), DecodeError>(
            (Seq::empty(), 3nat),
        ),
{
    let t = TypeCode::spec_from_repr(s[2])->Some_0;
    assert(after(s, 2)[0] == s[2]);
    assert(decode_items(after(s, 3), t.spec_code(), 0, decoders) == Ok::<
        (Seq<SpecValue>, nat),
        DecodeError,
    >((Seq::empty(), 0nat)));
}

/// A dictionary whose count is zero is empty and takes four bytes.
pub proof fn lemma_empty_dictionary(s: Seq<u8>, decoders: Decoders)
    requires
        s.len() >= 4,
        TypeCode::spec_from_repr(s[0]) is Some,
        TypeCode::spec_from_repr(s[1]) is Some,
        s[2] == 0,
        s[3] == 0,
    ensures
        decode_dictionary(s, decoders) == Ok::<(Entries, nat), DecodeError>((Seq::empty(), 4nat)),
{
    let k = TypeCode::spec_from_repr(s[0])->Some_0;
    let v = TypeCode::spec_from_repr(s[1])->Some_0;
    assert(after(s, 2)[0] == s[2] && after(s, 2)[1] == s[3]);
    assert(decode_entries(after(s, 4), k, v, 0, decoders) == Ok::<(Entries, nat), DecodeError>(
        (Seq::empty(), 0nat),
    ));
}

/// A byte array of any length that a signed 32-bit count can give is
/// decoded, if the input holds that many bytes behind the count.
pub proof fn lemma_byte_array_of_any_length(s: Seq<u8>, len: i32)
    requires
        len >= 0,
        s.len() >= 4 + len,
        crate::serialization::wire::read_int(s) == Ok::<(i32, nat), DecodeError>((len, 4nat)),
    ensures
        read_byte_array(s) == Ok::<(Seq<u8>, nat), DecodeError>(
            (s.subrange(4, 4 + len), (4 + len) as nat),
        ),
{
}

/// Whether every registered decoder gives valid values only.
pub open spec fn decoders_valid(decoders: Decoders) -> bool {
    forall|code: u8, bytes: Seq<u8>|
        decoders.contains_key(code) ==> valid(#[trigger] decoders[code](bytes))
}

/// A decoded value is valid, and is made of bytes that the input holds.
pub proof fn lemma_decode_value_valid(s: Seq<u8>, code: u8, decoders: Decoders)
    requires
        decoders_valid(decoders),
    ensures
        decode_value(s, code, decoders) matches Ok((v, used)) ==> valid(v) && used <= s.len(),
    decreases s.len(), 1nat, 0nat,
{
    match TypeCode::spec_from_repr(code) {
        Some(TypeCode::String) => {
            lemma_read_string_valid(s);
        },
        Some(TypeCode::StringArray) => {
            lemma_read_string_array_valid(s);
        },
        Some(TypeCode::Custom) => {
            if s.len() >= 1 {
                lemma_read_custom_valid(after(s, 1), s[0], decoders);
            }
        },
        Some(TypeCode::Array) => {
            lemma_decode_array_valid(s, decoders);
        },
        Some(TypeCode::ObjectArray) => {
            lemma_decode_object_array_valid(s, decoders);
        },
        Some(TypeCode::Hashtable) => {
            lemma_decode_hashtable_valid(s, decoders);
        },
        Some(TypeCode::Dictionary) => {
            lemma_decode_dictionary_valid(s, decoders);
        },
        Some(TypeCode::EventData) => {
            lemma_decode_event_data_valid(s, decoders);
        },
        Some(TypeCode::OperationRequest) => {
            lemma_decode_operation_request_valid(s, decoders);
        },
        Some(TypeCode::OperationResponse) => {
            lemma_decode_operation_response_valid(s, decoders);
        },
        _ => {},
    }
}

/// A decoded string fits its count, and is made of bytes that the input
/// holds.
pub proof fn lemma_read_string_valid(s: Seq<u8>)
    ensures
        read_string(s) matches Ok((x, used)) ==> string_fits(x) && used <= s.len(),
{
    broadcast use vstd::utf8::decode_utf8_encode_utf8;

    match read_short(s) {
        Ok((len, _)) => {
            if 0 <= len && s.len() >= 2 + len {
                let bytes = s.subrange(2, 2 + len);
                assert(bytes.len() == len);
                if valid_utf8(bytes) {
                    assert(encode_utf8(decode_utf8(bytes)) == bytes);
                }
            }
        },
        Err(_) => {},
    }
}

/// The strings of a run are as many as were asked for, fit their counts,
/// and are made of bytes that the input holds.
pub proof fn lemma_read_strings_valid(s: Seq<u8>, n: nat)
    ensures
        read_strings(s, n) matches Ok((items, used)) ==> items.len() == n && strings_fit(items)
            && used <= s.len(),
    decreases n,
{
    if n > 0 {
        lemma_read_strings_valid(s, (n - 1) as nat);
        match read_strings(s, (n - 1) as nat) {
            Ok((items, used)) => {
                lemma_read_string_valid(after(s, used));
            },
            Err(_) => {},
        }
    }
}

/// A string array is valid, and is made of bytes that the input holds.
pub proof fn lemma_read_string_array_valid(s: Seq<u8>)
    ensures
        read_string_array(s) matches Ok((items, used)) ==> items.len() <= i16::MAX
            && strings_fit(items) && used <= s.len(),
{
    if s.len() >= 2 {
        match read_short(s) {
            Ok((len, _)) => {
                if len >= 0 {
                    lemma_read_strings_valid(after(s, 2), len as nat);
                }
            },
            Err(_) => {},
        }
    }
}

/// A custom value is valid, and is made of bytes that the input holds.
pub proof fn lemma_read_custom_valid(s: Seq<u8>, code: u8, decoders: Decoders)
    requires
        decoders_valid(decoders),
    ensures
        read_custom(s, code, decoders) matches Ok((v, used)) ==> valid(v) && used <= s.len(),
{
}

/// The custom values of a run are as many as were asked for, are valid, and
/// are made of bytes that the input holds.
pub proof fn lemma_read_custom_items_valid(
    s: Seq<u8>,
    decoders: Decoders,
    code: u8,
    n: nat,
)
    requires
        decoders_valid(decoders),
        decoders.contains_key(code),
    ensures
        read_custom_items(s, decoders[code], n) matches Ok((items, used)) ==> items.len() == n
            && seq_valid(items) && used <= s.len(),
    decreases n,
{
    if n > 0 {
        lemma_read_custom_items_valid(s, decoders, code, (n - 1) as nat);
    }
}

/// A value that follows its declared type or its own tag is valid, and is
/// made of bytes that the input holds.
pub proof fn lemma_decode_maybe_typed_valid(s: Seq<u8>, declared: TypeCode, decoders: Decoders)
    requires
        decoders_valid(decoders),
    ensures
        decode_maybe_typed(s, declared, decoders) matches Ok((v, used)) ==> valid(v) && used
            <= s.len(),
    decreases s.len(), 2nat, 0nat,
{
    if declared == TypeCode::Unknown {
        if s.len() >= 1 {
            match TypeCode::spec_from_repr(s[0]) {
                Some(t) => {
                    lemma_decode_value_valid(after(s, 1), t.spec_code(), decoders);
                },
                None => {},
            }
        }
    } else {
        lemma_decode_value_valid(s, declared.spec_code(), decoders);
    }
}

/// The values of a run are as many as were asked for, are valid, and are
/// made of bytes that the input holds.
pub proof fn lemma_decode_items_valid(s: Seq<u8>, code: u8, n: nat, decoders: Decoders)
    requires
        decoders_valid(decoders),
    ensures
        decode_items(s, code, n, decoders) matches Ok((items, used)) ==> items.len() == n
            && seq_valid(items) && used <= s.len(),
    decreases s.len(), 4nat, n,
{
    if n > 0 {
        lemma_decode_items_valid(s, code, (n - 1) as nat, decoders);
        match decode_items(s, code, (n - 1) as nat, decoders) {
            Ok((items, used)) => {
                lemma_decode_value_valid(after(s, used), code, decoders);
            },
            Err(_) => {},
        }
    }
}

/// The tagged values of a run are as many as were asked for, are valid, and
/// are made of bytes that the input holds.
pub proof fn lemma_decode_tagged_items_valid(s: Seq<u8>, n: nat, decoders: Decoders)
    requires
        decoders_valid(decoders),
    ensures
        decode_tagged_items(s, n, decoders) matches Ok((items, used)) ==> items.len() == n
            && seq_valid(items) && used <= s.len(),
    decreases s.len(), 4nat, n,
{
    if n > 0 {
        lemma_decode_tagged_items_valid(s, (n - 1) as nat, decoders);
        match decode_tagged_items(s, (n - 1) as nat, decoders) {
            Ok((items, used)) => {
                lemma_decode_maybe_typed_valid(after(s, used), TypeCode::Unknown, decoders);
            },
            Err(_) => {},
        }
    }
}

/// The key and the value of an entry are valid, and are made of bytes that
/// the input holds.
pub proof fn lemma_decode_entry_valid(
    s: Seq<u8>,
    key_type: TypeCode,
    value_type: TypeCode,
    decoders: Decoders,
)
    requires
        decoders_valid(decoders),
    ensures
        decode_entry(s, key_type, value_type, decoders) matches Ok((e, used)) ==> entry_valid(e)
            && used <= s.len(),
    decreases s.len(), 3nat, 0nat,
{
    lemma_decode_maybe_typed_valid(s, key_type, decoders);
    match decode_maybe_typed(s, key_type, decoders) {
        Ok((key, key_len)) => {
            lemma_decode_maybe_typed_valid(after(s, key_len), value_type, decoders);
        },
        Err(_) => {},
    }
}

/// The map of a run of entries is valid: it holds no key twice, and no more
/// entries than were read. It is made of bytes that the input holds.
pub proof fn lemma_decode_entries_valid(
    s: Seq<u8>,
    key_type: TypeCode,
    value_type: TypeCode,
    n: nat,
    decoders: Decoders,
)
    requires
        decoders_valid(decoders),
    ensures
        decode_entries(s, key_type, value_type, n, decoders) matches Ok((entries, used))
            ==> entries.len() <= n && map_valid(entries) && used <= s.len(),
    decreases s.len(), 4nat, n,
{
    if n > 0 {
        lemma_decode_entries_valid(s, key_type, value_type, (n - 1) as nat, decoders);
        match decode_entries(s, key_type, value_type, (n - 1) as nat, decoders) {
            Ok((entries, used)) => {
                lemma_decode_entry_valid(after(s, used), key_type, value_type, decoders);
                match decode_entry(after(s, used), key_type, value_type, decoders) {
                    Ok(((key, value), _)) => {
                        lemma_map_insert_wf(entries, key, value);
                        lemma_map_insert_sized(entries, key, value);
                    },
                    Err(_) => {},
                }
            },
            Err(_) => {},
        }
    }
}

/// The dictionaries of a run are as many as were asked for, are valid, and
/// are made of bytes that the input holds.
pub proof fn lemma_decode_dictionaries_valid(
    s: Seq<u8>,
    key_type: TypeCode,
    value_type: TypeCode,
    n: nat,
    decoders: Decoders,
)
    requires
        decoders_valid(decoders),
    ensures
        decode_dictionaries(s, key_type, value_type, n, decoders) matches Ok((items, used))
            ==> items.len() == n && seq_valid(items) && used <= s.len(),
    decreases s.len(), 4nat, n,
{
    if n > 0 {
        lemma_decode_dictionaries_valid(s, key_type, value_type, (n - 1) as nat, decoders);
        match decode_dictionaries(s, key_type, value_type, (n - 1) as nat, decoders) {
            Ok((items, used)) => {
                match read_short(after(s, used)) {
                    Ok((count, _)) => {
                        let wanted = if count < 0 {
                            0nat
                        } else {
                            count as nat
                        };
                        lemma_decode_entries_valid(
                            after(s, used + 2),
                            key_type,
                            value_type,
                            wanted,
                            decoders,
                        );
                    },
                    Err(_) => {},
                }
            },
            Err(_) => {},
        }
    }
}

/// The dictionaries behind shared types are as many as were asked for, are
/// valid, and are made of bytes that the input holds.
pub proof fn lemma_decode_dictionary_array_valid(s: Seq<u8>, n: nat, decoders: Decoders)
    requires
        decoders_valid(decoders),
    ensures
        decode_dictionary_array(s, n, decoders) matches Ok((items, used)) ==> items.len() == n
            && seq_valid(items) && used <= s.len(),
    decreases s.len(), 0nat, 0nat,
{
    if s.len() >= 2 {
        match (TypeCode::spec_from_repr(s[0]), TypeCode::spec_from_repr(s[1])) {
            (Some(k), Some(v)) => {
                lemma_decode_dictionaries_valid(after(s, 2), k, v, n, decoders);
            },
            _ => {},
        }
    }
}

/// The elements of an array fit a signed 16-bit count, are valid, and are
/// made of bytes that the input holds.
pub proof fn lemma_decode_array_valid(s: Seq<u8>, decoders: Decoders)
    requires
        decoders_valid(decoders),
    ensures
        decode_array(s, decoders) matches Ok((items, used)) ==> items.len() <= i16::MAX
            && seq_valid(items) && used <= s.len(),
    decreases s.len(), 0nat, 0nat,
{
    match read_short(s) {
        Ok((len, _)) => {
            if len >= 0 && s.len() >= 3 {
                match TypeCode::spec_from_repr(after(s, 2)[0]) {
                    Some(TypeCode::Custom) => {
                        if s.len() >= 4 {
                            let custom_code = after(s, 3)[0];
                            if decoders.contains_key(custom_code) {
                                lemma_read_custom_items_valid(
                                    after(s, 4),
                                    decoders,
                                    custom_code,
                                    len as nat,
                                );
                            }
                        }
                    },
                    Some(TypeCode::Dictionary) => {
                        lemma_decode_dictionary_array_valid(after(s, 3), len as nat, decoders);
                    },
                    Some(t) => {
                        lemma_decode_items_valid(after(s, 3), t.spec_code(), len as nat, decoders);
                    },
                    None => {},
                }
            }
        },
        Err(_) => {},
    }
}

/// The elements of an object array fit a signed 16-bit count, are valid,
/// and are made of bytes that the input holds.
pub proof fn lemma_decode_object_array_valid(s: Seq<u8>, decoders: Decoders)
    requires
        decoders_valid(decoders),
    ensures
        decode_object_array(s, decoders) matches Ok((items, used)) ==> items.len() <= i16::MAX
            && seq_valid(items) && used <= s.len(),
    decreases s.len(), 0nat, 0nat,
{
    match read_short(s) {
        Ok((len, _)) => {
            if len >= 0 {
                lemma_decode_tagged_items_valid(after(s, 2), len as nat, decoders);
            }
        },
        Err(_) => {},
    }
}

/// A hash table fits a signed 16-bit count, is valid, and is made of bytes
/// that the input holds.
pub proof fn lemma_decode_hashtable_valid(s: Seq<u8>, decoders: Decoders)
    requires
        decoders_valid(decoders),
    ensures
        decode_hashtable(s, decoders) matches Ok((entries, used)) ==> entries.len() <= i16::MAX
            && map_valid(entries) && used <= s.len(),
    decreases s.len(), 0nat, 0nat,
{
    match read_short(s) {
        Ok((len, _)) => {
            if len >= 0 {
                lemma_decode_entries_valid(
                    after(s, 2),
                    TypeCode::Unknown,
                    TypeCode::Unknown,
                    len as nat,
                    decoders,
                );
            }
        },
        Err(_) => {},
    }
}

/// A dictionary fits a signed 16-bit count, is valid, and is made of bytes
/// that the input holds.
pub proof fn lemma_decode_dictionary_valid(s: Seq<u8>, decoders: Decoders)
    requires
        decoders_valid(decoders),
    ensures
        decode_dictionary(s, decoders) matches Ok((entries, used)) ==> entries.len() <= i16::MAX
            && map_valid(entries) && used <= s.len(),
    decreases s.len(), 0nat, 0nat,
{
    if s.len() >= 2 {
        match (TypeCode::spec_from_repr(s[0]), TypeCode::spec_from_repr(s[1])) {
            (Some(k), Some(v)) => {
                match read_short(after(s, 2)) {
                    Ok((len, _)) => {
                        if len >= 0 {
                            lemma_decode_entries_valid(after(s, 4), k, v, len as nat, decoders);
                        }
                    },
                    Err(_) => {},
                }
            },
            _ => {},
        }
    }
}

/// A parameter table fits a signed 16-bit count, is valid, and is made of
/// bytes that the input holds.
pub proof fn lemma_decode_parameter_table_valid(s: Seq<u8>, decoders: Decoders)
    requires
        decoders_valid(decoders),
    ensures
        decode_parameter_table(s, decoders) matches Ok((entries, used)) ==> entries.len()
            <= i16::MAX && map_valid(entries) && used <= s.len(),
    decreases s.len(), 0nat, 0nat,
{
    match read_short(s) {
        Ok((len, _)) => {
            if len >= 0 {
                lemma_decode_entries_valid(
                    after(s, 2),
                    TypeCode::Byte,
                    TypeCode::Unknown,
                    len as nat,
                    decoders,
                );
            }
        },
        Err(_) => {},
    }
}

/// An event is valid, and is made of bytes that the input holds.
pub proof fn lemma_decode_event_data_valid(s: Seq<u8>, decoders: Decoders)
    requires
        decoders_valid(decoders),
    ensures
        decode_event_data(s, decoders) matches Ok((v, used)) ==> valid(v) && used <= s.len(),
    decreases s.len(), 0nat, 0nat,
{
    if s.len() >= 1 {
        lemma_decode_parameter_table_valid(after(s, 1), decoders);
    }
}

/// An operation request is valid, and is made of bytes that the input
/// holds.
pub proof fn lemma_decode_operation_request_valid(s: Seq<u8>, decoders: Decoders)
    requires
        decoders_valid(decoders),
    ensures
        decode_operation_request(s, decoders) matches Ok((v, used)) ==> valid(v) && used
            <= s.len(),
    decreases s.len(), 0nat, 0nat,
{
    if s.len() >= 1 {
        lemma_decode_parameter_table_valid(after(s, 1), decoders);
    }
}

/// An operation response is valid, and is made of bytes that the input
/// holds.
pub proof fn lemma_decode_operation_response_valid(s: Seq<u8>, decoders: Decoders)
    requires
        decoders_valid(decoders),
    ensures
        decode_operation_response(s, decoders) matches Ok((v, used)) ==> valid(v) && used
            <= s.len(),
    decreases s.len(), 0nat, 0nat,
{
    if s.len() >= 3 {
        lemma_decode_maybe_typed_valid(after(s, 3), TypeCode::Unknown, decoders);
        match decode_maybe_typed(after(s, 3), TypeCode::Unknown, decoders) {
            Ok((message, message_len)) => {
                lemma_decode_parameter_table_valid(after(s, 3 + message_len), decoders);
            },
            Err(_) => {},
        }
    }
}

/// The outcome of a step, with what it read wrapped into a value.
pub open spec fn wrapped<T>(
    step: Result<(T, nat), DecodeError>,
    wrap: spec_fn(T) -> SpecValue,
) -> Result<(SpecValue, nat), DecodeError> {
    match step {
        Ok((x, used)) => Ok((wrap(x), used)),
        Err(e) => Err(e),
    }
}

/// Under the declared type `Null` nothing is read and `Null` is the value.
pub proof fn lemma_typed_null(s: Seq<u8>, decoders: Decoders)
    ensures
        decode_maybe_typed(s, TypeCode::Null, decoders) == Ok::<(SpecValue, nat), DecodeError>(
            (SpecValue::Null, 0nat),
        ),
{
    assert(decode_value(s, 42, decoders) == Ok::<(SpecValue, nat), DecodeError>(
        (SpecValue::Null, 0nat),
    ));
}

/// What is read under the declared type `Boolean`.
pub proof fn lemma_typed_bool(s: Seq<u8>, decoders: Decoders)
    ensures
        decode_maybe_typed(s, TypeCode::Boolean, decoders) == wrapped(
            read_bool(s),
            |x| SpecValue::Bool(x),
        ),
{
    assert(decode_value(s, TypeCode::Boolean.spec_code(), decoders) == wrapped(
        read_bool(s),
        |x| SpecValue::Bool(x),
    ));
}

/// What is read under the declared type `Byte`.
pub proof fn lemma_typed_byte(s: Seq<u8>, decoders: Decoders)
    ensures
        decode_maybe_typed(s, TypeCode::Byte, decoders) == wrapped(
            read_byte(s),
            |x| SpecValue::Byte(x),
        ),
{
    assert(decode_value(s, TypeCode::Byte.spec_code(), decoders) == wrapped(
        read_byte(s),
        |x| SpecValue::Byte(x),
    ));
}

/// What is read under the declared type `Short`.
pub proof fn lemma_typed_short(s: Seq<u8>, decoders: Decoders)
    ensures
        decode_maybe_typed(s, TypeCode::Short, decoders) == wrapped(
            read_short(s),
            |x| SpecValue::Short(x),
        ),
{
    assert(decode_value(s, TypeCode::Short.spec_code(), decoders) == wrapped(
        read_short(s),
        |x| SpecValue::Short(x),
    ));
}

/// What is read under the declared type `Integer`.
pub proof fn lemma_typed_int(s: Seq<u8>, decoders: Decoders)
    ensures
        decode_maybe_typed(s, TypeCode::Integer, decoders) == wrapped(
            read_int(s),
            |x| SpecValue::Int(x),
        ),
{
    assert(decode_value(s, TypeCode::Integer.spec_code(), decoders) == wrapped(
        read_int(s),
        |x| SpecValue::Int(x),
    ));
}

/// What is read under the declared type `Long`.
pub proof fn lemma_typed_long(s: Seq<u8>, decoders: Decoders)
    ensures
        decode_maybe_typed(s, TypeCode::Long, decoders) == wrapped(
            read_long(s),
            |x| SpecValue::Long(x),
        ),
{
    assert(decode_value(s, TypeCode::Long.spec_code(), decoders) == wrapped(
        read_long(s),
        |x| SpecValue::Long(x),
    ));
}

/// What is read under the declared type `Float`.
pub proof fn lemma_typed_float(s: Seq<u8>, decoders: Decoders)
    ensures
        decode_maybe_typed(s, TypeCode::Float, decoders) == wrapped(
            read_float(s),
            |x| SpecValue::Float(x),
        ),
{
    assert(decode_value(s, TypeCode::Float.spec_code(), decoders) == wrapped(
        read_float(s),
        |x| SpecValue::Float(x),
    ));
}

/// What is read under the declared type `Double`.
pub proof fn lemma_typed_double(s: Seq<u8>, decoders: Decoders)
    ensures
        decode_maybe_typed(s, TypeCode::Double, decoders) == wrapped(
            read_double(s),
            |x| SpecValue::Double(x),
        ),
{
    assert(decode_value(s, TypeCode::Double.spec_code(), decoders) == wrapped(
        read_double(s),
        |x| SpecValue::Double(x),
    ));
}

/// What is read under the declared type `String`.
pub proof fn lemma_typed_string(s: Seq<u8>, decoders: Decoders)
    ensures
        decode_maybe_typed(s, TypeCode::String, decoders) == wrapped(
            read_string(s),
            |x| SpecValue::String(x),
        ),
{
    assert(decode_value(s, TypeCode::String.spec_code(), decoders) == wrapped(
        read_string(s),
        |x| SpecValue::String(x),
    ));
}

/// What is read under the declared type `StringArray`.
pub proof fn lemma_typed_string_array(s: Seq<u8>, decoders: Decoders)
    ensures
        decode_maybe_typed(s, TypeCode::StringArray, decoders) == wrapped(
            read_string_array(s),
            |x| SpecValue::StringArray(x),
        ),
{
    assert(decode_value(s, TypeCode::StringArray.spec_code(), decoders) == wrapped(
        read_string_array(s),
        |x| SpecValue::StringArray(x),
    ));
}

/// What is read under the declared type `IntegerArray`.
pub proof fn lemma_typed_integer_array(s: Seq<u8>, decoders: Decoders)
    ensures
        decode_maybe_typed(s, TypeCode::IntegerArray, decoders) == wrapped(
            read_int_array(s),
            |x| SpecValue::IntegerArray(x),
        ),
{
    assert(decode_value(s, TypeCode::IntegerArray.spec_code(), decoders) == wrapped(
        read_int_array(s),
        |x| SpecValue::IntegerArray(x),
    ));
}

/// What is read under the declared type `ByteArray`.
pub proof fn lemma_typed_byte_array(s: Seq<u8>, decoders: Decoders)
    ensures
        decode_maybe_typed(s, TypeCode::ByteArray, decoders) == wrapped(
            read_byte_array(s),
            |x| SpecValue::ByteArray(x),
        ),
{
    assert(decode_value(s, TypeCode::ByteArray.spec_code(), decoders) == wrapped(
        read_byte_array(s),
        |x| SpecValue::ByteArray(x),
    ));
}

/// What is read under the declared type `Array`.
pub proof fn lemma_typed_array(s: Seq<u8>, decoders: Decoders)
    ensures
        decode_maybe_typed(s, TypeCode::Array, decoders) == wrapped(
            decode_array(s, decoders),
            |x| SpecValue::Array(x),
        ),
{
    assert(decode_value(s, TypeCode::Array.spec_code(), decoders) == wrapped(
        decode_array(s, decoders),
        |x| SpecValue::Array(x),
    ));
}

/// What is read under the declared type `ObjectArray`.
pub proof fn lemma_typed_object_array(s: Seq<u8>, decoders: Decoders)
    ensures
        decode_maybe_typed(s, TypeCode::ObjectArray, decoders) == wrapped(
            decode_object_array(s, decoders),
            |x| SpecValue::ObjectArray(x),
        ),
{
    assert(decode_value(s, TypeCode::ObjectArray.spec_code(), decoders) == wrapped(
        decode_object_array(s, decoders),
        |x| SpecValue::ObjectArray(x),
    ));
}

/// What is read under the declared type `Hashtable`.
pub proof fn lemma_typed_hashtable(s: Seq<u8>, decoders: Decoders)
    ensures
        decode_maybe_typed(s, TypeCode::Hashtable, decoders) == wrapped(
            decode_hashtable(s, decoders),
            |x| SpecValue::HashTable(x),
        ),
{
    assert(decode_value(s, TypeCode::Hashtable.spec_code(), decoders) == wrapped(
        decode_hashtable(s, decoders),
        |x| SpecValue::HashTable(x),
    ));
}

/// What is read under the declared type `Dictionary`.
pub proof fn lemma_typed_dictionary(s: Seq<u8>, decoders: Decoders)
    ensures
        decode_maybe_typed(s, TypeCode::Dictionary, decoders) == wrapped(
            decode_dictionary(s, decoders),
            |x| SpecValue::Dictionary(x),
        ),
{
    assert(decode_value(s, TypeCode::Dictionary.spec_code(), decoders) == wrapped(
        decode_dictionary(s, decoders),
        |x| SpecValue::Dictionary(x),
    ));
}

/// What is read under the declared type `EventData`.
pub proof fn lemma_typed_event_data(s: Seq<u8>, decoders: Decoders)
    ensures
        decode_maybe_typed(s, TypeCode::EventData, decoders) == decode_event_data(s, decoders),
{
    assert(decode_value(s, TypeCode::EventData.spec_code(), decoders) == decode_event_data(
        s,
        decoders,
    ));
}

/// What is read under the declared type `OperationRequest`.
pub proof fn lemma_typed_operation_request(s: Seq<u8>, decoders: Decoders)
    ensures
        decode_maybe_typed(s, TypeCode::OperationRequest, decoders) == decode_operation_request(
            s,
            decoders,
        ),
{
    assert(decode_value(s, 113, decoders) == decode_operation_request(s, decoders));
}

/// What is read under the declared type `OperationResponse`.
pub proof fn lemma_typed_operation_response(s: Seq<u8>, decoders: Decoders)
    ensures
        decode_maybe_typed(s, TypeCode::OperationResponse, decoders) == decode_operation_response(
            s,
            decoders,
        ),
{
    assert(decode_value(s, 112, decoders) == decode_operation_response(s, decoders));
}

} // verus!
