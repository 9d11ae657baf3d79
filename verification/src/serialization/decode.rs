//! The decoder, as functions from a byte slice and a position to the decoded
//! value and the position after it.
//!
//! Each function is proved to yield exactly what [`crate::serialization::wire`]
//! prescribes for the input from the position on. None of them panics, and
//! none reads outside the slice.

use crate::serialization::custom::{registry_model, registry_wf, CustomType};
use crate::serialization::model::{map_insert, Entries, SpecValue};
use crate::serialization::type_code::TypeCode;
use crate::serialization::value::{
    entries_view, lemma_strings_view_push, lemma_values_view_push, lemma_views_of_nothing,
    strings_view, values_view, EventData, HashTable, ObjectArray, OperationRequest,
    OperationResponse, ParameterTable, Value,
};
use crate::serialization::wire::{
    after, be32, be64, decode_array, decode_dictionaries, decode_dictionary,
    decode_dictionary_array, decode_entries, decode_entry, decode_event_data, decode_hashtable,
    decode_items, decode_maybe_typed, decode_object_array, decode_operation_request,
    decode_operation_response, decode_parameter_table, decode_tagged_items, decode_value,
    read_block, read_bool, read_byte, read_byte_array, read_custom, read_custom_items,
    read_dictionary_type, read_double, read_float, read_int, read_int_array, read_long,
    read_short, read_string, read_string_array, read_strings, read_type_code, signed32,
    DecodeError, Decoders, Step,
};
use crate::util::{HashableDouble, HashableFloat, HashableHashmap};
use std::collections::HashMap;
use vstd::prelude::*;
use vstd::slice::{slice_subrange, slice_to_vec};
use vstd::utf8::{decode_utf8, valid_utf8};

verus! {

/// Whether the outcome `r` of decoding `data` from `pos` on is the one that
/// the wire format prescribes: on success the value with the prescribed model
/// and the position after the bytes it took, and else the prescribed error.
pub open spec fn agrees<T, M>(
    r: Result<(T, usize), DecodeError>,
    data: Seq<u8>,
    pos: usize,
    expected: Step<M>,
    model: spec_fn(T) -> M,
) -> bool {
    match expected {
        Ok((m, used)) => {
            &&& r matches Ok((x, next))
            &&& model(x) == m
            &&& next == pos + used
            &&& next <= data.len()
        },
        Err(e) => r matches Err(f) && f == e,
    }
}

/// Whether the step `step` succeeded with the model `m` and took `used`
/// bytes.
pub open spec fn gave<M>(step: Step<M>, m: M, used: int) -> bool {
    step == Ok::<(M, nat), DecodeError>((m, used as nat))
}

/// Skipping `used` bytes of the input from `pos` on gives the input from
/// `pos + used` on.
pub proof fn lemma_after_skip(data: Seq<u8>, pos: int, used: nat)
    requires
        0 <= pos,
        pos + used <= data.len(),
    ensures
        after(data.skip(pos), used) == data.skip(pos + used),
{
    assert(after(data.skip(pos), used) =~= data.skip(pos + used));
}

/// A slice is no longer than the largest `usize`.
pub proof fn lemma_slice_len_bound(data: &[u8])
    ensures
        data@.len() <= usize::MAX,
{
    let n = vstd::slice::spec_slice_len(data);
}

/// Converts bytes to a string if they are UTF-8.
///
/// Wraps `String::from_utf8` of the standard library, which is documented to
/// succeed exactly on valid UTF-8 and then to give the string that those bytes
/// encode.
#[verifier::external_body]
fn string_from_utf8(bytes: Vec<u8>) -> (r: Option<String>)
    ensures
        r is Some <==> valid_utf8(bytes@),
        r matches Some(s) ==> s@ == decode_utf8(bytes@),
{
    String::from_utf8(bytes).ok()
}

/// The unsigned number that the four bytes at `pos` spell.
fn be32_at(data: &[u8], pos: usize) -> (r: u32)
    requires
        pos + 4 <= data@.len() <= usize::MAX,
    ensures
        r == be32(data@.skip(pos as int)),
{
    let b0: u32 = data[pos] as u32;
    let b1: u32 = data[pos + 1] as u32;
    let b2: u32 = data[pos + 2] as u32;
    let b3: u32 = data[pos + 3] as u32;
    b0 * 0x100_0000 + b1 * 0x1_0000 + b2 * 0x100 + b3
}

/// The unsigned number that the eight bytes at `pos` spell.
fn be64_at(data: &[u8], pos: usize) -> (r: u64)
    requires
        pos + 8 <= data@.len() <= usize::MAX,
    ensures
        r == be64(data@.skip(pos as int)),
{
    let hi: u64 = be32_at(data, pos) as u64;
    let lo: u64 = be32_at(data, pos + 4) as u64;
    assert(data@.skip(pos as int).skip(4) =~= data@.skip(pos + 4));
    hi * 0x1_0000_0000 + lo
}

/// The signed number with the bits of `u`.
fn to_signed32(u: u32) -> (r: i32)
    ensures
        r == signed32(u as int),
{
    if u >= 0x8000_0000 {
        (u as i64 - 0x1_0000_0000) as i32
    } else {
        u as i32
    }
}

/// One byte.
pub fn parse_byte(data: &[u8], pos: usize) -> (r: Result<(u8, usize), DecodeError>)
    requires
        pos <= data@.len(),
    ensures
        agrees(r, data@, pos, read_byte(data@.skip(pos as int)), |x: u8| x),
{
    if data.len() - pos < 1 {
        return Err(DecodeError::Truncation);
    }
    Ok((data[pos], pos + 1))
}

/// A boolean: one byte, true unless it is zero.
pub fn parse_bool(data: &[u8], pos: usize) -> (r: Result<(bool, usize), DecodeError>)
    requires
        pos <= data@.len(),
    ensures
        agrees(r, data@, pos, read_bool(data@.skip(pos as int)), |x: bool| x),
{
    if data.len() - pos < 1 {
        return Err(DecodeError::Truncation);
    }
    Ok((data[pos] != 0, pos + 1))
}

/// A signed 16-bit number, big-endian.
pub fn parse_short(data: &[u8], pos: usize) -> (r: Result<(i16, usize), DecodeError>)
    requires
        pos <= data@.len(),
    ensures
        agrees(r, data@, pos, read_short(data@.skip(pos as int)), |x: i16| x),
{
    if data.len() - pos < 2 {
        return Err(DecodeError::Truncation);
    }
    let u: i32 = (data[pos] as i32) * 0x100 + (data[pos + 1] as i32);
    let x: i16 = if u >= 0x8000 {
        (u - 0x1_0000) as i16
    } else {
        u as i16
    };
    Ok((x, pos + 2))
}

/// A signed 32-bit number, big-endian.
pub fn parse_int(data: &[u8], pos: usize) -> (r: Result<(i32, usize), DecodeError>)
    requires
        pos <= data@.len(),
    ensures
        agrees(r, data@, pos, read_int(data@.skip(pos as int)), |x: i32| x),
{
    if data.len() - pos < 4 {
        return Err(DecodeError::Truncation);
    }
    Ok((to_signed32(be32_at(data, pos)), pos + 4))
}

/// A signed 64-bit number, big-endian.
pub fn parse_long(data: &[u8], pos: usize) -> (r: Result<(i64, usize), DecodeError>)
    requires
        pos <= data@.len(),
    ensures
        agrees(r, data@, pos, read_long(data@.skip(pos as int)), |x: i64| x),
{
    if data.len() - pos < 8 {
        return Err(DecodeError::Truncation);
    }
    let u: u64 = be64_at(data, pos);
    let x: i64 = if u >= 0x8000_0000_0000_0000 {
        (u as i128 - 0x1_0000_0000_0000_0000) as i64
    } else {
        u as i64
    };
    Ok((x, pos + 8))
}

/// A 32-bit float, as its bits.
pub fn parse_float(data: &[u8], pos: usize) -> (r: Result<(HashableFloat, usize), DecodeError>)
    requires
        pos <= data@.len(),
    ensures
        agrees(r, data@, pos, read_float(data@.skip(pos as int)), |x: HashableFloat| x.0),
{
    if data.len() - pos < 4 {
        return Err(DecodeError::Truncation);
    }
    Ok((HashableFloat(be32_at(data, pos)), pos + 4))
}

/// A 64-bit float, as its bits.
pub fn parse_double(data: &[u8], pos: usize) -> (r: Result<(HashableDouble, usize), DecodeError>)
    requires
        pos <= data@.len(),
    ensures
        agrees(r, data@, pos, read_double(data@.skip(pos as int)), |x: HashableDouble| x.0),
{
    if data.len() - pos < 8 {
        return Err(DecodeError::Truncation);
    }
    Ok((HashableDouble(be64_at(data, pos)), pos + 8))
}

/// A type code; a byte that stands for no type is an error.
pub fn parse_type_code(data: &[u8], pos: usize) -> (r: Result<(TypeCode, usize), DecodeError>)
    requires
        pos <= data@.len(),
    ensures
        agrees(r, data@, pos, read_type_code(data@.skip(pos as int)), |x: TypeCode| x),
{
    if data.len() - pos < 1 {
        return Err(DecodeError::Truncation);
    }
    match TypeCode::from_repr(data[pos]) {
        Some(t) => Ok((t, pos + 1)),
        None => Err(DecodeError::InvalidTypeCode(data[pos])),
    }
}

/// The two type codes at the head of a dictionary.
pub fn parse_dictionary_type(data: &[u8], pos: usize) -> (r: Result<
    ((TypeCode, TypeCode), usize),
    DecodeError,
>)
    requires
        pos <= data@.len(),
    ensures
        agrees(
            r,
            data@,
            pos,
            read_dictionary_type(data@.skip(pos as int)),
            |x: (TypeCode, TypeCode)| x,
        ),
{
    if data.len() - pos < 2 {
        return Err(DecodeError::Truncation);
    }
    match TypeCode::from_repr(data[pos]) {
        None => Err(DecodeError::InvalidTypeCode(data[pos])),
        Some(k) => match TypeCode::from_repr(data[pos + 1]) {
            None => Err(DecodeError::InvalidTypeCode(data[pos + 1])),
            Some(v) => Ok(((k, v), pos + 2)),
        },
    }
}

/// The `len` raw bytes that follow a count which began at `pos` and took
/// `header` bytes.
fn parse_block(data: &[u8], pos: usize, header: usize, len: i32) -> (r: Result<
    (Vec<u8>, usize),
    DecodeError,
>)
    requires
        pos + header <= data@.len() <= usize::MAX,
    ensures
        agrees(
            r,
            data@,
            pos,
            read_block(data@.skip(pos as int), header as nat, len as int),
            |x: Vec<u8>| x@,
        ),
{
    if len < 0 {
        return Err(DecodeError::NegativeLength);
    }
    let n: usize = len as usize;
    let start: usize = pos + header;
    if data.len() - start < n {
        return Err(DecodeError::Truncation);
    }
    let bytes = slice_to_vec(slice_subrange(data, start, start + n));
    assert(bytes@ =~= data@.skip(pos as int).subrange(header as int, header + len));
    Ok((bytes, start + n))
}

/// A string: a signed 16-bit count, then that many bytes of UTF-8.
pub fn parse_string(data: &[u8], pos: usize) -> (r: Result<(String, usize), DecodeError>)
    requires
        pos <= data@.len(),
    ensures
        agrees(r, data@, pos, read_string(data@.skip(pos as int)), |x: String| x@),
{
    let len: i16 = match parse_short(data, pos) {
        Ok((len, _)) => len,
        Err(e) => {
            return Err(e);
        },
    };
    proof {
        lemma_slice_len_bound(data);
    }
    match parse_block(data, pos, 2, len as i32) {
        Err(e) => Err(e),
        Ok((bytes, next)) => match string_from_utf8(bytes) {
            Some(s) => Ok((s, next)),
            None => Err(DecodeError::Utf8Error),
        },
    }
}

/// A byte array: a signed 32-bit count, then that many bytes.
pub fn parse_byte_array(data: &[u8], pos: usize) -> (r: Result<(Vec<u8>, usize), DecodeError>)
    requires
        pos <= data@.len(),
    ensures
        agrees(r, data@, pos, read_byte_array(data@.skip(pos as int)), |x: Vec<u8>| x@),
{
    let len: i32 = match parse_int(data, pos) {
        Ok((len, _)) => len,
        Err(e) => {
            return Err(e);
        },
    };
    proof {
        lemma_slice_len_bound(data);
    }
    parse_block(data, pos, 4, len)
}

/// An integer array: a signed 32-bit count, then that many signed 32-bit
/// numbers.
pub fn parse_int_array(data: &[u8], pos: usize) -> (r: Result<(Vec<i32>, usize), DecodeError>)
    requires
        pos <= data@.len(),
    ensures
        agrees(r, data@, pos, read_int_array(data@.skip(pos as int)), |x: Vec<i32>| x@),
{
    let ghost s = data@.skip(pos as int);
    let len: i32 = match parse_int(data, pos) {
        Ok((len, _)) => len,
        Err(e) => {
            return Err(e);
        },
    };
    if len < 0 {
        return Err(DecodeError::NegativeLength);
    }
    let n: usize = len as usize;
    let start: usize = pos + 4;
    if (data.len() - start) / 4 < n {
        return Err(DecodeError::Truncation);
    }
    let mut items: Vec<i32> = Vec::new();
    let mut i: usize = 0;
    while i < n
        invariant
            i <= n,
            n == len,
            start == pos + 4,
            start + 4 * n <= data@.len() <= usize::MAX,
            s == data@.skip(pos as int),
            items@.len() == i,
            forall|k: int| 0 <= k < i ==> items@[k] == signed32(be32(s.skip(4 + 4 * k))),
        decreases n - i,
    {
        let at: usize = start + 4 * i;
        assert(s.skip(4 + 4 * i) =~= data@.skip(at as int));
        items.push(to_signed32(be32_at(data, at)));
        i += 1;
    }
    assert(items@ =~= Seq::new(len as nat, |k: int| signed32(be32(s.skip(4 + 4 * k)))));
    Ok((items, start + 4 * n))
}

/// A failure among the first strings of a run is the failure of the run.
pub proof fn lemma_read_strings_error(s: Seq<u8>, n1: nat, n2: nat)
    requires
        n1 <= n2,
        read_strings(s, n1) is Err,
    ensures
        read_strings(s, n2) == read_strings(s, n1),
    decreases n2,
{
    if n1 < n2 {
        lemma_read_strings_error(s, n1, (n2 - 1) as nat);
    }
}

/// A string array: a signed 16-bit count, then that many strings.
#[verifier::loop_isolation(false)]
pub fn parse_string_array(data: &[u8], pos: usize) -> (r: Result<
    (Vec<String>, usize),
    DecodeError,
>)
    requires
        pos <= data@.len(),
    ensures
        agrees(
            r,
            data@,
            pos,
            read_string_array(data@.skip(pos as int)),
            |x: Vec<String>| strings_view(x@),
        ),
{
    let ghost s = data@.skip(pos as int);
    let len: i16 = match parse_short(data, pos) {
        Ok((len, _)) => len,
        Err(e) => {
            return Err(e);
        },
    };
    if len < 0 {
        return Err(DecodeError::NegativeLength);
    }
    let n: usize = len as usize;
    let start: usize = pos + 2;
    let ghost body = after(s, 2);
    proof {
        lemma_after_skip(data@, pos as int, 2);
    }
    let mut items: Vec<String> = Vec::new();
    let mut at: usize = start;
    let mut i: usize = 0;
    proof {
        lemma_views_of_nothing();
    }
    while i < n
        invariant
            i <= n,
            start <= at <= data@.len(),
            read_strings(body, i as nat) == Ok::<(Seq<Seq<char>>, nat), DecodeError>(
                (strings_view(items@), (at - start) as nat),
            ),
        decreases n - i,
    {
        proof {
            lemma_after_skip(data@, start as int, (at - start) as nat);
        }
        match parse_string(data, at) {
            Err(e) => {
                proof {
                    lemma_read_strings_error(body, (i + 1) as nat, n as nat);
                }
                return Err(e);
            },
            Ok((item, next)) => {
                proof {
                    lemma_strings_view_push(items@, item);
                }
                items.push(item);
                at = next;
            },
        }
        i += 1;
    }
    Ok((items, at))
}

/// A failure among the first values of a run is the failure of the run.
pub proof fn lemma_decode_items_error(s: Seq<u8>, code: u8, n1: nat, n2: nat, decoders: Decoders)
    requires
        n1 <= n2,
        decode_items(s, code, n1, decoders) is Err,
    ensures
        decode_items(s, code, n2, decoders) == decode_items(s, code, n1, decoders),
    decreases n2,
{
    if n1 < n2 {
        lemma_decode_items_error(s, code, n1, (n2 - 1) as nat, decoders);
    }
}

/// A failure among the first tagged values of a run is the failure of the
/// run.
pub proof fn lemma_decode_tagged_items_error(s: Seq<u8>, n1: nat, n2: nat, decoders: Decoders)
    requires
        n1 <= n2,
        decode_tagged_items(s, n1, decoders) is Err,
    ensures
        decode_tagged_items(s, n2, decoders) == decode_tagged_items(s, n1, decoders),
    decreases n2,
{
    if n1 < n2 {
        lemma_decode_tagged_items_error(s, n1, (n2 - 1) as nat, decoders);
    }
}

/// A failure among the first entries of a run is the failure of the run.
pub proof fn lemma_decode_entries_error(
    s: Seq<u8>,
    key_type: TypeCode,
    value_type: TypeCode,
    n1: nat,
    n2: nat,
    decoders: Decoders,
)
    requires
        n1 <= n2,
        decode_entries(s, key_type, value_type, n1, decoders) is Err,
    ensures
        decode_entries(s, key_type, value_type, n2, decoders) == decode_entries(
            s,
            key_type,
            value_type,
            n1,
            decoders,
        ),
    decreases n2,
{
    if n1 < n2 {
        lemma_decode_entries_error(s, key_type, value_type, n1, (n2 - 1) as nat, decoders);
    }
}

/// A failure among the first dictionaries of a run is the failure of the
/// run.
pub proof fn lemma_decode_dictionaries_error(
    s: Seq<u8>,
    key_type: TypeCode,
    value_type: TypeCode,
    n1: nat,
    n2: nat,
    decoders: Decoders,
)
    requires
        n1 <= n2,
        decode_dictionaries(s, key_type, value_type, n1, decoders) is Err,
    ensures
        decode_dictionaries(s, key_type, value_type, n2, decoders) == decode_dictionaries(
            s,
            key_type,
            value_type,
            n1,
            decoders,
        ),
    decreases n2,
{
    if n1 < n2 {
        lemma_decode_dictionaries_error(s, key_type, value_type, n1, (n2 - 1) as nat, decoders);
    }
}

/// A failure among the first custom values of a run is the failure of the
/// run.
pub proof fn lemma_read_custom_items_error(
    s: Seq<u8>,
    decoder: spec_fn(Seq<u8>) -> SpecValue,
    n1: nat,
    n2: nat,
)
    requires
        n1 <= n2,
        read_custom_items(s, decoder, n1) is Err,
    ensures
        read_custom_items(s, decoder, n2) == read_custom_items(s, decoder, n1),
    decreases n2,
{
    if n1 < n2 {
        lemma_read_custom_items_error(s, decoder, n1, (n2 - 1) as nat);
    }
}

/// A key that was declared to be a byte is that byte.
pub proof fn lemma_byte_key(s: Seq<u8>, decoders: Decoders)
    ensures
        decode_maybe_typed(s, TypeCode::Byte, decoders) == match read_byte(s) {
            Ok((k, used)) => Ok::<(SpecValue, nat), DecodeError>((SpecValue::Byte(k), used)),
            Err(e) => Err::<(SpecValue, nat), DecodeError>(e),
        },
{
    assert(decode_value(s, 98, decoders) == match read_byte(s) {
        Ok((k, used)) => Ok::<(SpecValue, nat), DecodeError>((SpecValue::Byte(k), used)),
        Err(e) => Err::<(SpecValue, nat), DecodeError>(e),
    });
}

/// The body of a custom value of type `code`, which starts at `pos`: a
/// signed 16-bit count and that many bytes, handed to the registered decoder.
pub fn parse_custom<F: Fn(&[u8]) -> Value>(
    data: &[u8],
    pos: usize,
    code: u8,
    registry: &HashMap<u8, CustomType<F>>,
) -> (r: Result<(Value, usize), DecodeError>)
    requires
        pos <= data@.len(),
        registry_wf(registry@),
    ensures
        agrees(
            r,
            data@,
            pos,
            read_custom(data@.skip(pos as int), code, registry_model(registry@)),
            |x: Value| x@,
        ),
{
    broadcast use vstd::std_specs::hash::group_hash_axioms;

    let len: i16 = match parse_short(data, pos) {
        Ok((len, _)) => len,
        Err(e) => {
            return Err(e);
        },
    };
    let decoder = match registry.get(&code) {
        Some(decoder) => decoder,
        None => {
            return Err(DecodeError::UnknownCustomType(code));
        },
    };
    proof {
        lemma_slice_len_bound(data);
    }
    match parse_block(data, pos, 2, len as i32) {
        Err(e) => Err(e),
        Ok((bytes, next)) => Ok((decoder.decode(bytes.as_slice()), next)),
    }
}

/// The value at `pos` when its type code is `code`.
///
/// A byte that is no type code, and the codes `Unknown` and `Null`, give
/// `Null` and leave the position where it was.
pub fn parse_value<F: Fn(&[u8]) -> Value>(
    data: &[u8],
    pos: usize,
    code: u8,
    registry: &HashMap<u8, CustomType<F>>,
) -> (r: Result<(Value, usize), DecodeError>)
    requires
        pos <= data@.len(),
        registry_wf(registry@),
    ensures
        agrees(
            r,
            data@,
            pos,
            decode_value(data@.skip(pos as int), code, registry_model(registry@)),
            |x: Value| x@,
        ),
    decreases data@.len() - pos, 1nat,
{
    let tag = match TypeCode::from_repr(code) {
        Some(tag) => tag,
        None => {
            return Ok((Value::Null(()), pos));
        },
    };
    match tag {
        TypeCode::Unknown => Ok((Value::Null(()), pos)),
        TypeCode::Null => Ok((Value::Null(()), pos)),
        TypeCode::Boolean => match parse_bool(data, pos) {
            Ok((x, next)) => Ok((Value::Bool(x), next)),
            Err(e) => Err(e),
        },
        TypeCode::Byte => match parse_byte(data, pos) {
            Ok((x, next)) => Ok((Value::Byte(x), next)),
            Err(e) => Err(e),
        },
        TypeCode::Short => match parse_short(data, pos) {
            Ok((x, next)) => Ok((Value::Short(x), next)),
            Err(e) => Err(e),
        },
        TypeCode::Integer => match parse_int(data, pos) {
            Ok((x, next)) => Ok((Value::Int(x), next)),
            Err(e) => Err(e),
        },
        TypeCode::Long => match parse_long(data, pos) {
            Ok((x, next)) => Ok((Value::Long(x), next)),
            Err(e) => Err(e),
        },
        TypeCode::Float => match parse_float(data, pos) {
            Ok((x, next)) => Ok((Value::Float(x), next)),
            Err(e) => Err(e),
        },
        TypeCode::Double => match parse_double(data, pos) {
            Ok((x, next)) => Ok((Value::Double(x), next)),
            Err(e) => Err(e),
        },
        TypeCode::String => match parse_string(data, pos) {
            Ok((x, next)) => Ok((Value::String(x), next)),
            Err(e) => Err(e),
        },
        TypeCode::StringArray => match parse_string_array(data, pos) {
            Ok((x, next)) => Ok((Value::StringArray(x), next)),
            Err(e) => Err(e),
        },
        TypeCode::IntegerArray => match parse_int_array(data, pos) {
            Ok((x, next)) => Ok((Value::IntegerArray(x), next)),
            Err(e) => Err(e),
        },
        TypeCode::ByteArray => match parse_byte_array(data, pos) {
            Ok((x, next)) => Ok((Value::ByteArray(x), next)),
            Err(e) => Err(e),
        },
        TypeCode::Custom => match parse_byte(data, pos) {
            Ok((custom_code, next)) => {
                proof {
                    lemma_after_skip(data@, pos as int, 1);
                }
                parse_custom(data, next, custom_code, registry)
            },
            Err(e) => Err(e),
        },
        TypeCode::Array => match parse_array(data, pos, registry) {
            Ok((x, next)) => Ok((Value::Array(x), next)),
            Err(e) => Err(e),
        },
        TypeCode::ObjectArray => match parse_object_array(data, pos, registry) {
            Ok((x, next)) => Ok((Value::ObjectArray(x), next)),
            Err(e) => Err(e),
        },
        TypeCode::Hashtable => match parse_hashtable(data, pos, registry) {
            Ok((x, next)) => Ok((Value::HashTable(x), next)),
            Err(e) => Err(e),
        },
        TypeCode::Dictionary => match parse_dictionary(data, pos, registry) {
            Ok((x, next)) => Ok((Value::Dictionary(x), next)),
            Err(e) => Err(e),
        },
        TypeCode::EventData => match parse_event_data(data, pos, registry) {
            Ok((x, next)) => Ok((Value::EventData(x), next)),
            Err(e) => Err(e),
        },
        TypeCode::OperationRequest => match parse_operation_request(data, pos, registry) {
            Ok((x, next)) => Ok((Value::OperationRequest(x), next)),
            Err(e) => Err(e),
        },
        TypeCode::OperationResponse => match parse_operation_response(data, pos, registry) {
            Ok((x, next)) => Ok((Value::OperationResponse(x), next)),
            Err(e) => Err(e),
        },
    }
}

/// A value whose type was declared ahead; where the declared type is
/// `Unknown`, the type code that stands before the value decides.
pub fn parse_maybe_typed<F: Fn(&[u8]) -> Value>(
    data: &[u8],
    pos: usize,
    declared: TypeCode,
    registry: &HashMap<u8, CustomType<F>>,
) -> (r: Result<(Value, usize), DecodeError>)
    requires
        pos <= data@.len(),
        registry_wf(registry@),
    ensures
        agrees(
            r,
            data@,
            pos,
            decode_maybe_typed(data@.skip(pos as int), declared, registry_model(registry@)),
            |x: Value| x@,
        ),
    decreases data@.len() - pos, 2nat,
{
    match declared {
        TypeCode::Unknown => match parse_type_code(data, pos) {
            Err(e) => Err(e),
            Ok((tag, next)) => {
                proof {
                    lemma_after_skip(data@, pos as int, 1);
                }
                parse_value(data, next, tag.code(), registry)
            },
        },
        _ => parse_value(data, pos, declared.code(), registry),
    }
}

/// A run of `n` values that were all declared to be of type `code`.
#[verifier::loop_isolation(false)]
pub fn parse_items<F: Fn(&[u8]) -> Value>(
    data: &[u8],
    pos: usize,
    code: u8,
    n: usize,
    registry: &HashMap<u8, CustomType<F>>,
) -> (r: Result<(Vec<Value>, usize), DecodeError>)
    requires
        pos <= data@.len(),
        registry_wf(registry@),
    ensures
        agrees(
            r,
            data@,
            pos,
            decode_items(data@.skip(pos as int), code, n as nat, registry_model(registry@)),
            |x: Vec<Value>| values_view(x@),
        ),
    decreases data@.len() - pos, 4nat,
{
    let ghost s = data@.skip(pos as int);
    let ghost decoders = registry_model(registry@);
    let mut items: Vec<Value> = Vec::new();
    let mut at: usize = pos;
    let mut i: usize = 0;
    proof {
        lemma_views_of_nothing();
    }
    while i < n
        invariant
            i <= n,
            pos <= at <= data@.len(),
            decode_items(s, code, i as nat, decoders) == Ok::<(Seq<SpecValue>, nat), DecodeError>(
                (values_view(items@), (at - pos) as nat),
            ),
        decreases n - i,
    {
        proof {
            lemma_after_skip(data@, pos as int, (at - pos) as nat);
        }
        match parse_value(data, at, code, registry) {
            Err(e) => {
                proof {
                    lemma_decode_items_error(s, code, (i + 1) as nat, n as nat, decoders);
                }
                return Err(e);
            },
            Ok((item, next)) => {
                proof {
                    lemma_values_view_push(items@, item);
                }
                items.push(item);
                at = next;
            },
        }
        i += 1;
    }
    Ok((items, at))
}

/// A run of `n` values that each follow a type code of their own.
#[verifier::loop_isolation(false)]
pub fn parse_tagged_items<F: Fn(&[u8]) -> Value>(
    data: &[u8],
    pos: usize,
    n: usize,
    registry: &HashMap<u8, CustomType<F>>,
) -> (r: Result<(Vec<Value>, usize), DecodeError>)
    requires
        pos <= data@.len(),
        registry_wf(registry@),
    ensures
        agrees(
            r,
            data@,
            pos,
            decode_tagged_items(data@.skip(pos as int), n as nat, registry_model(registry@)),
            |x: Vec<Value>| values_view(x@),
        ),
    decreases data@.len() - pos, 4nat,
{
    let ghost s = data@.skip(pos as int);
    let ghost decoders = registry_model(registry@);
    let mut items: Vec<Value> = Vec::new();
    let mut at: usize = pos;
    let mut i: usize = 0;
    proof {
        lemma_views_of_nothing();
    }
    while i < n
        invariant
            i <= n,
            pos <= at <= data@.len(),
            decode_tagged_items(s, i as nat, decoders) == Ok::<(Seq<SpecValue>, nat), DecodeError>(
                (values_view(items@), (at - pos) as nat),
            ),
        decreases n - i,
    {
        proof {
            lemma_after_skip(data@, pos as int, (at - pos) as nat);
        }
        match parse_maybe_typed(data, at, TypeCode::Unknown, registry) {
            Err(e) => {
                proof {
                    lemma_decode_tagged_items_error(s, (i + 1) as nat, n as nat, decoders);
                }
                return Err(e);
            },
            Ok((item, next)) => {
                proof {
                    lemma_values_view_push(items@, item);
                }
                items.push(item);
                at = next;
            },
        }
        i += 1;
    }
    Ok((items, at))
}

/// A run of no entries is the empty map and takes no byte.
pub proof fn lemma_decode_entries_none(
    s: Seq<u8>,
    key_type: TypeCode,
    value_type: TypeCode,
    decoders: Decoders,
)
    ensures
        decode_entries(s, key_type, value_type, 0, decoders) == Ok::<(Entries, nat), DecodeError>(
            (Seq::empty(), 0nat),
        ),
{
}

/// One more entry after the first `i` of a run extends their map by it.
pub proof fn lemma_decode_entries_step(
    s: Seq<u8>,
    key_type: TypeCode,
    value_type: TypeCode,
    i: nat,
    decoders: Decoders,
)
    ensures
        decode_entries(s, key_type, value_type, i + 1, decoders) == match decode_entries(
            s,
            key_type,
            value_type,
            i,
            decoders,
        ) {
            Err(e) => Err::<(Entries, nat), DecodeError>(e),
            Ok((entries, used)) => match decode_entry(
                after(s, used),
                key_type,
                value_type,
                decoders,
            ) {
                Err(e) => Err::<(Entries, nat), DecodeError>(e),
                Ok(((key, value), more)) => Ok::<(Entries, nat), DecodeError>(
                    (map_insert(entries, key, value), used + more),
                ),
            },
        },
{
}

/// One entry of a map: a key declared to be of type `key_type`, then a
/// value declared to be of type `value_type`.
pub fn parse_entry<F: Fn(&[u8]) -> Value>(
    data: &[u8],
    pos: usize,
    key_type: TypeCode,
    value_type: TypeCode,
    registry: &HashMap<u8, CustomType<F>>,
) -> (r: Result<((Value, Value), usize), DecodeError>)
    requires
        pos <= data@.len(),
        registry_wf(registry@),
    ensures
        agrees(
            r,
            data@,
            pos,
            decode_entry(data@.skip(pos as int), key_type, value_type, registry_model(registry@)),
            |x: (Value, Value)| (x.0@, x.1@),
        ),
    decreases data@.len() - pos, 3nat,
{
    let (key, key_end) = match parse_maybe_typed(data, pos, key_type, registry) {
        Err(e) => {
            return Err(e);
        },
        Ok(found) => found,
    };
    proof {
        lemma_after_skip(data@, pos as int, (key_end - pos) as nat);
    }
    match parse_maybe_typed(data, key_end, value_type, registry) {
        Err(e) => Err(e),
        Ok((value, value_end)) => Ok(((key, value), value_end)),
    }
}

/// The map `entries` with one more entry stored.
fn with_entry(entries: HashableHashmap<Value, Value>, key: Value, value: Value) -> (r:
    HashableHashmap<Value, Value>)
    ensures
        entries_view(r@) == map_insert(entries_view(entries@), key@, value@),
{
    let mut entries = entries;
    entries.insert(key, value);
    entries
}

/// The table `table` with one more parameter stored.
fn with_parameter(table: ParameterTable, key: u8, value: Value) -> (r: ParameterTable)
    ensures
        r@ == map_insert(table@, SpecValue::Byte(key), value@),
{
    let mut table = table;
    table.insert(key, value);
    table
}

/// The map made of a run of `n` entries whose keys were declared to be of
/// type `key_type` and whose values of type `value_type`.
#[verifier::rlimit(30)]
pub fn parse_entries<F: Fn(&[u8]) -> Value>(
    data: &[u8],
    pos: usize,
    key_type: TypeCode,
    value_type: TypeCode,
    n: usize,
    registry: &HashMap<u8, CustomType<F>>,
) -> (r: Result<(HashableHashmap<Value, Value>, usize), DecodeError>)
    requires
        pos <= data@.len(),
        registry_wf(registry@),
    ensures
        agrees(
            r,
            data@,
            pos,
            decode_entries(
                data@.skip(pos as int),
                key_type,
                value_type,
                n as nat,
                registry_model(registry@),
            ),
            |x: HashableHashmap<Value, Value>| entries_view(x@),
        ),
    decreases data@.len() - pos, 4nat,
{
    let ghost s = data@.skip(pos as int);
    let ghost decoders = registry_model(registry@);
    let mut entries: HashableHashmap<Value, Value> = HashableHashmap::new();
    let mut at: usize = pos;
    let mut i: usize = 0;
    proof {
        lemma_views_of_nothing();
        lemma_decode_entries_none(s, key_type, value_type, decoders);
    }
    while i < n
        invariant
            i <= n,
            pos <= at <= data@.len(),
            registry_wf(registry@),
            s == data@.skip(pos as int),
            decoders == registry_model(registry@),
            gave(
                decode_entries(s, key_type, value_type, i as nat, decoders),
                entries_view(entries@),
                at - pos,
            ),
        decreases n - i,
    {
        proof {
            lemma_after_skip(data@, pos as int, (at - pos) as nat);
            lemma_decode_entries_step(s, key_type, value_type, i as nat, decoders);
        }
        match parse_entry(data, at, key_type, value_type, registry) {
            Err(e) => {
                proof {
                    lemma_decode_entries_error(
                        s,
                        key_type,
                        value_type,
                        (i + 1) as nat,
                        n as nat,
                        decoders,
                    );
                }
                return Err(e);
            },
            Ok(((key, value), next)) => {
                assert(gave(
                    decode_entry(after(s, (at - pos) as nat), key_type, value_type, decoders),
                    (key@, value@),
                    next - at,
                ));
                entries = with_entry(entries, key, value);
                at = next;
            },
        }
        i += 1;
    }
    Ok((entries, at))
}

/// A run of `n` dictionaries that share their declared types. Each is a
/// signed 16-bit count and that many entries; a count below zero stands for
/// no entries.
#[verifier::loop_isolation(false)]
pub fn parse_dictionaries<F: Fn(&[u8]) -> Value>(
    data: &[u8],
    pos: usize,
    key_type: TypeCode,
    value_type: TypeCode,
    n: usize,
    registry: &HashMap<u8, CustomType<F>>,
) -> (r: Result<(Vec<Value>, usize), DecodeError>)
    requires
        pos <= data@.len(),
        registry_wf(registry@),
    ensures
        agrees(
            r,
            data@,
            pos,
            decode_dictionaries(
                data@.skip(pos as int),
                key_type,
                value_type,
                n as nat,
                registry_model(registry@),
            ),
            |x: Vec<Value>| values_view(x@),
        ),
    decreases data@.len() - pos, 4nat,
{
    let ghost s = data@.skip(pos as int);
    let ghost decoders = registry_model(registry@);
    let mut items: Vec<Value> = Vec::new();
    let mut at: usize = pos;
    let mut i: usize = 0;
    proof {
        lemma_views_of_nothing();
    }
    while i < n
        invariant
            i <= n,
            pos <= at <= data@.len(),
            decode_dictionaries(s, key_type, value_type, i as nat, decoders) == Ok::<
                (Seq<SpecValue>, nat),
                DecodeError,
            >((values_view(items@), (at - pos) as nat)),
        decreases n - i,
    {
        proof {
            lemma_after_skip(data@, pos as int, (at - pos) as nat);
        }
        let count: i16 = match parse_short(data, at) {
            Err(e) => {
                proof {
                    lemma_decode_dictionaries_error(
                        s,
                        key_type,
                        value_type,
                        (i + 1) as nat,
                        n as nat,
                        decoders,
                    );
                }
                return Err(e);
            },
            Ok((count, _)) => count,
        };
        let wanted: usize = if count < 0 {
            0
        } else {
            count as usize
        };
        proof {
            lemma_after_skip(data@, pos as int, (at + 2 - pos) as nat);
        }
        match parse_entries(data, at + 2, key_type, value_type, wanted, registry) {
            Err(e) => {
                proof {
                    lemma_decode_dictionaries_error(
                        s,
                        key_type,
                        value_type,
                        (i + 1) as nat,
                        n as nat,
                        decoders,
                    );
                }
                return Err(e);
            },
            Ok((entries, next)) => {
                let item = Value::Dictionary(entries);
                proof {
                    lemma_values_view_push(items@, item);
                }
                items.push(item);
                at = next;
            },
        }
        i += 1;
    }
    Ok((items, at))
}

/// A run of `n` dictionaries behind the key and value types that they
/// share.
pub fn parse_dictionary_array<F: Fn(&[u8]) -> Value>(
    data: &[u8],
    pos: usize,
    n: usize,
    registry: &HashMap<u8, CustomType<F>>,
) -> (r: Result<(Vec<Value>, usize), DecodeError>)
    requires
        pos <= data@.len(),
        registry_wf(registry@),
    ensures
        agrees(
            r,
            data@,
            pos,
            decode_dictionary_array(data@.skip(pos as int), n as nat, registry_model(registry@)),
            |x: Vec<Value>| values_view(x@),
        ),
    decreases data@.len() - pos, 0nat,
{
    let (key_type, value_type) = match parse_dictionary_type(data, pos) {
        Ok((types, _)) => types,
        Err(e) => {
            return Err(e);
        },
    };
    proof {
        lemma_after_skip(data@, pos as int, 2);
    }
    parse_dictionaries(data, pos + 2, key_type, value_type, n, registry)
}

/// A run of `n` bodies of custom values that share one decoder.
pub fn parse_custom_items<F: Fn(&[u8]) -> Value>(
    data: &[u8],
    pos: usize,
    decoder: &CustomType<F>,
    n: usize,
) -> (r: Result<(Vec<Value>, usize), DecodeError>)
    requires
        pos <= data@.len(),
        decoder.wf(),
    ensures
        agrees(
            r,
            data@,
            pos,
            read_custom_items(data@.skip(pos as int), decoder.model(), n as nat),
            |x: Vec<Value>| values_view(x@),
        ),
{
    let ghost s = data@.skip(pos as int);
    let mut items: Vec<Value> = Vec::new();
    let mut at: usize = pos;
    let mut i: usize = 0;
    proof {
        lemma_views_of_nothing();
        lemma_slice_len_bound(data);
    }
    while i < n
        invariant
            i <= n,
            pos <= at <= data@.len() <= usize::MAX,
            decoder.wf(),
            s == data@.skip(pos as int),
            gave(
                read_custom_items(s, decoder.model(), i as nat),
                values_view(items@),
                at - pos,
            ),
        decreases n - i,
    {
        proof {
            lemma_after_skip(data@, pos as int, (at - pos) as nat);
        }
        let item_len: i16 = match parse_short(data, at) {
            Ok((item_len, _)) => item_len,
            Err(e) => {
                proof {
                    lemma_read_custom_items_error(s, decoder.model(), (i + 1) as nat, n as nat);
                }
                return Err(e);
            },
        };
        match parse_block(data, at, 2, item_len as i32) {
            Err(e) => {
                proof {
                    lemma_read_custom_items_error(s, decoder.model(), (i + 1) as nat, n as nat);
                }
                return Err(e);
            },
            Ok((bytes, next)) => {
                let item = decoder.decode(bytes.as_slice());
                proof {
                    lemma_values_view_push(items@, item);
                }
                items.push(item);
                at = next;
            },
        }
        i += 1;
    }
    Ok((items, at))
}

/// The elements of an array: a signed 16-bit count and the type code of the
/// elements, then the elements. Custom elements share one custom code and
/// dictionary elements share their key and value types, which follow the
/// header; elements of any other type are decoded under the declared type.
pub fn parse_array<F: Fn(&[u8]) -> Value>(
    data: &[u8],
    pos: usize,
    registry: &HashMap<u8, CustomType<F>>,
) -> (r: Result<(Vec<Value>, usize), DecodeError>)
    requires
        pos <= data@.len(),
        registry_wf(registry@),
    ensures
        agrees(
            r,
            data@,
            pos,
            decode_array(data@.skip(pos as int), registry_model(registry@)),
            |x: Vec<Value>| values_view(x@),
        ),
    decreases data@.len() - pos, 0nat,
{
    broadcast use vstd::std_specs::hash::group_hash_axioms;

    let ghost s = data@.skip(pos as int);
    let ghost decoders = registry_model(registry@);
    let len: i16 = match parse_short(data, pos) {
        Ok((len, _)) => len,
        Err(e) => {
            return Err(e);
        },
    };
    if len < 0 {
        return Err(DecodeError::NegativeLength);
    }
    let n: usize = len as usize;
    proof {
        lemma_after_skip(data@, pos as int, 2);
        lemma_slice_len_bound(data);
    }
    let item_type: TypeCode = match parse_type_code(data, pos + 2) {
        Ok((item_type, _)) => item_type,
        Err(e) => {
            return Err(e);
        },
    };
    proof {
        lemma_after_skip(data@, pos as int, 3);
    }
    match item_type {
        TypeCode::Custom => {
            let custom_code: u8 = match parse_byte(data, pos + 3) {
                Ok((custom_code, _)) => custom_code,
                Err(e) => {
                    return Err(e);
                },
            };
            let decoder = match registry.get(&custom_code) {
                Some(decoder) => decoder,
                None => {
                    return Err(DecodeError::UnknownCustomType(custom_code));
                },
            };
            proof {
                lemma_after_skip(data@, pos as int, 4);
            }
            parse_custom_items(data, pos + 4, decoder, n)
        },
        TypeCode::Dictionary => parse_dictionary_array(data, pos + 3, n, registry),
        _ => parse_items(data, pos + 3, item_type.code(), n, registry),
    }
}

/// An object array: a signed 16-bit count, then that many values, each after
/// its own type code.
pub fn parse_object_array<F: Fn(&[u8]) -> Value>(
    data: &[u8],
    pos: usize,
    registry: &HashMap<u8, CustomType<F>>,
) -> (r: Result<(ObjectArray, usize), DecodeError>)
    requires
        pos <= data@.len(),
        registry_wf(registry@),
    ensures
        agrees(
            r,
            data@,
            pos,
            decode_object_array(data@.skip(pos as int), registry_model(registry@)),
            |x: ObjectArray| x@,
        ),
    decreases data@.len() - pos, 0nat,
{
    let len: i16 = match parse_short(data, pos) {
        Ok((len, _)) => len,
        Err(e) => {
            return Err(e);
        },
    };
    if len < 0 {
        return Err(DecodeError::NegativeLength);
    }
    proof {
        lemma_after_skip(data@, pos as int, 2);
    }
    match parse_tagged_items(data, pos + 2, len as usize, registry) {
        Ok((items, next)) => Ok((ObjectArray(items), next)),
        Err(e) => Err(e),
    }
}

/// A hash table: a signed 16-bit count, then that many entries, in each of
/// which the key and the value follow a type code of their own.
pub fn parse_hashtable<F: Fn(&[u8]) -> Value>(
    data: &[u8],
    pos: usize,
    registry: &HashMap<u8, CustomType<F>>,
) -> (r: Result<(HashTable<Value, Value>, usize), DecodeError>)
    requires
        pos <= data@.len(),
        registry_wf(registry@),
    ensures
        agrees(
            r,
            data@,
            pos,
            decode_hashtable(data@.skip(pos as int), registry_model(registry@)),
            |x: HashTable<Value, Value>| x@,
        ),
    decreases data@.len() - pos, 0nat,
{
    let len: i16 = match parse_short(data, pos) {
        Ok((len, _)) => len,
        Err(e) => {
            return Err(e);
        },
    };
    if len < 0 {
        return Err(DecodeError::NegativeLength);
    }
    proof {
        lemma_after_skip(data@, pos as int, 2);
    }
    match parse_entries(
        data,
        pos + 2,
        TypeCode::Unknown,
        TypeCode::Unknown,
        len as usize,
        registry,
    ) {
        Ok((entries, next)) => Ok((HashTable(entries), next)),
        Err(e) => Err(e),
    }
}

/// A dictionary: the type codes of keys and values, a signed 16-bit count,
/// then that many entries.
pub fn parse_dictionary<F: Fn(&[u8]) -> Value>(
    data: &[u8],
    pos: usize,
    registry: &HashMap<u8, CustomType<F>>,
) -> (r: Result<(HashableHashmap<Value, Value>, usize), DecodeError>)
    requires
        pos <= data@.len(),
        registry_wf(registry@),
    ensures
        agrees(
            r,
            data@,
            pos,
            decode_dictionary(data@.skip(pos as int), registry_model(registry@)),
            |x: HashableHashmap<Value, Value>| entries_view(x@),
        ),
    decreases data@.len() - pos, 0nat,
{
    let (key_type, value_type) = match parse_dictionary_type(data, pos) {
        Ok((types, _)) => types,
        Err(e) => {
            return Err(e);
        },
    };
    proof {
        lemma_after_skip(data@, pos as int, 2);
    }
    let len: i16 = match parse_short(data, pos + 2) {
        Ok((len, _)) => len,
        Err(e) => {
            return Err(e);
        },
    };
    if len < 0 {
        return Err(DecodeError::NegativeLength);
    }
    proof {
        lemma_after_skip(data@, pos as int, 4);
    }
    parse_entries(data, pos + 4, key_type, value_type, len as usize, registry)
}

/// One parameter: a one-byte key, a type code and a value of that type.
pub fn parse_parameter<F: Fn(&[u8]) -> Value>(
    data: &[u8],
    pos: usize,
    registry: &HashMap<u8, CustomType<F>>,
) -> (r: Result<((u8, Value), usize), DecodeError>)
    requires
        pos <= data@.len(),
        registry_wf(registry@),
    ensures
        agrees(
            r,
            data@,
            pos,
            decode_entry(
                data@.skip(pos as int),
                TypeCode::Byte,
                TypeCode::Unknown,
                registry_model(registry@),
            ),
            |x: (u8, Value)| (SpecValue::Byte(x.0), x.1@),
        ),
    decreases data@.len() - pos, 3nat,
{
    proof {
        lemma_byte_key(data@.skip(pos as int), registry_model(registry@));
    }
    let (key, key_end) = match parse_byte(data, pos) {
        Err(e) => {
            return Err(e);
        },
        Ok(found) => found,
    };
    proof {
        lemma_after_skip(data@, pos as int, 1);
    }
    match parse_maybe_typed(data, key_end, TypeCode::Unknown, registry) {
        Err(e) => Err(e),
        Ok((value, value_end)) => Ok(((key, value), value_end)),
    }
}

/// A parameter table: a signed 16-bit count, then that many entries of a
/// one-byte key, a type code and a value of that type.
#[verifier::rlimit(30)]
pub fn parse_parameter_table<F: Fn(&[u8]) -> Value>(
    data: &[u8],
    pos: usize,
    registry: &HashMap<u8, CustomType<F>>,
) -> (r: Result<(ParameterTable, usize), DecodeError>)
    requires
        pos <= data@.len(),
        registry_wf(registry@),
    ensures
        agrees(
            r,
            data@,
            pos,
            decode_parameter_table(data@.skip(pos as int), registry_model(registry@)),
            |x: ParameterTable| x@,
        ),
    decreases data@.len() - pos, 0nat,
{
    let ghost s = data@.skip(pos as int);
    let ghost decoders = registry_model(registry@);
    let len: i16 = match parse_short(data, pos) {
        Ok((len, _)) => len,
        Err(e) => {
            return Err(e);
        },
    };
    if len < 0 {
        return Err(DecodeError::NegativeLength);
    }
    let n: usize = len as usize;
    let start: usize = pos + 2;
    let ghost body = after(s, 2);
    proof {
        lemma_after_skip(data@, pos as int, 2);
    }
    let mut table: ParameterTable = ParameterTable::new();
    let mut at: usize = start;
    let mut i: usize = 0;
    proof {
        lemma_decode_entries_none(body, TypeCode::Byte, TypeCode::Unknown, decoders);
    }
    while i < n
        invariant
            i <= n,
            n == len,
            pos + 2 == start <= at <= data@.len(),
            registry_wf(registry@),
            s == data@.skip(pos as int),
            read_short(s) == Ok::<(i16, nat), DecodeError>((len, 2nat)),
            body == after(s, 2),
            body == data@.skip(start as int),
            decoders == registry_model(registry@),
            gave(
                decode_entries(body, TypeCode::Byte, TypeCode::Unknown, i as nat, decoders),
                table@,
                at - start,
            ),
        decreases n - i,
    {
        proof {
            lemma_after_skip(data@, start as int, (at - start) as nat);
            lemma_decode_entries_step(body, TypeCode::Byte, TypeCode::Unknown, i as nat, decoders);
        }
        match parse_parameter(data, at, registry) {
            Err(e) => {
                proof {
                    lemma_decode_entries_error(
                        body,
                        TypeCode::Byte,
                        TypeCode::Unknown,
                        (i + 1) as nat,
                        n as nat,
                        decoders,
                    );
                }
                return Err(e);
            },
            Ok(((key, value), next)) => {
                table = with_parameter(table, key, value);
                at = next;
            },
        }
        i += 1;
    }
    Ok((table, at))
}

/// An event: its code, then its parameter table.
pub fn parse_event_data<F: Fn(&[u8]) -> Value>(
    data: &[u8],
    pos: usize,
    registry: &HashMap<u8, CustomType<F>>,
) -> (r: Result<(EventData, usize), DecodeError>)
    requires
        pos <= data@.len(),
        registry_wf(registry@),
    ensures
        agrees(
            r,
            data@,
            pos,
            decode_event_data(data@.skip(pos as int), registry_model(registry@)),
            |x: EventData| x@,
        ),
    decreases data@.len() - pos, 0nat,
{
    let event_code: u8 = match parse_byte(data, pos) {
        Ok((event_code, _)) => event_code,
        Err(e) => {
            return Err(e);
        },
    };
    proof {
        lemma_after_skip(data@, pos as int, 1);
    }
    match parse_parameter_table(data, pos + 1, registry) {
        Ok((params, next)) => Ok((EventData { params, event_code }, next)),
        Err(e) => Err(e),
    }
}

/// An operation request: its opcode, then its parameter table.
pub fn parse_operation_request<F: Fn(&[u8]) -> Value>(
    data: &[u8],
    pos: usize,
    registry: &HashMap<u8, CustomType<F>>,
) -> (r: Result<(OperationRequest, usize), DecodeError>)
    requires
        pos <= data@.len(),
        registry_wf(registry@),
    ensures
        agrees(
            r,
            data@,
            pos,
            decode_operation_request(data@.skip(pos as int), registry_model(registry@)),
            |x: OperationRequest| x@,
        ),
    decreases data@.len() - pos, 0nat,
{
    let opcode: u8 = match parse_byte(data, pos) {
        Ok((opcode, _)) => opcode,
        Err(e) => {
            return Err(e);
        },
    };
    proof {
        lemma_after_skip(data@, pos as int, 1);
    }
    match parse_parameter_table(data, pos + 1, registry) {
        Ok((parameters, next)) => Ok((OperationRequest { opcode, parameters }, next)),
        Err(e) => Err(e),
    }
}

/// An operation response: its opcode, a signed 16-bit return code, a debug
/// message after its type code, then the parameter table.
pub fn parse_operation_response<F: Fn(&[u8]) -> Value>(
    data: &[u8],
    pos: usize,
    registry: &HashMap<u8, CustomType<F>>,
) -> (r: Result<(OperationResponse, usize), DecodeError>)
    requires
        pos <= data@.len(),
        registry_wf(registry@),
    ensures
        agrees(
            r,
            data@,
            pos,
            decode_operation_response(data@.skip(pos as int), registry_model(registry@)),
            |x: OperationResponse| x@,
        ),
    decreases data@.len() - pos, 0nat,
{
    let opcode: u8 = match parse_byte(data, pos) {
        Ok((opcode, _)) => opcode,
        Err(e) => {
            return Err(e);
        },
    };
    proof {
        lemma_after_skip(data@, pos as int, 1);
    }
    let return_code: i16 = match parse_short(data, pos + 1) {
        Ok((return_code, _)) => return_code,
        Err(e) => {
            return Err(e);
        },
    };
    proof {
        lemma_after_skip(data@, pos as int, 3);
    }
    let (message, message_end) = match parse_maybe_typed(
        data,
        pos + 3,
        TypeCode::Unknown,
        registry,
    ) {
        Ok(found) => found,
        Err(e) => {
            return Err(e);
        },
    };
    proof {
        lemma_after_skip(data@, pos as int, (message_end - pos) as nat);
    }
    match parse_parameter_table(data, message_end, registry) {
        Ok((parameters, next)) => Ok(
            (
                OperationResponse {
                    opcode,
                    return_code,
                    debug_message: Box::new(message),
                    parameters,
                },
                next,
            ),
        ),
        Err(e) => Err(e),
    }
}

} // verus!
