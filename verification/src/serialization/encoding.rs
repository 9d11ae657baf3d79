//! The bytes that stand for a value on the wire, and the proof that the
//! decoder reads them back.
//!
//! The library does not serialise: the encoding exists in proofs only. It
//! picks, among the byte strings that decode to a value, the one in which
//! every element of a map is tagged and every array declares the type of its
//! first element.

use crate::serialization::laws::{
    lemma_typed_array, lemma_typed_bool, lemma_typed_byte, lemma_typed_byte_array,
    lemma_typed_dictionary, lemma_typed_double, lemma_typed_event_data, lemma_typed_float,
    lemma_typed_hashtable, lemma_typed_int, lemma_typed_integer_array, lemma_typed_long,
    lemma_typed_null, lemma_typed_object_array, lemma_typed_operation_request,
    lemma_typed_operation_response, lemma_typed_short, lemma_typed_string,
    lemma_typed_string_array,
};
use crate::serialization::model::{
    equiv, has_key, keys_distinct, map_insert, string_fits, strings_fit, Entries, SpecValue,
};
use crate::serialization::type_code::TypeCode;
use crate::serialization::wire::{
    after, be16, be32, be64, decode_array, decode_dictionaries, decode_dictionary,
    decode_dictionary_array, decode_entries, decode_entry, decode_event_data, decode_hashtable,
    decode_items, decode_maybe_typed, decode_object_array, decode_operation_request,
    decode_operation_response, decode_parameter_table, decode_tagged_items, decode_value,
    read_byte, read_byte_array, read_double,
    read_float, read_int, read_int_array, read_long, read_short, read_string, read_string_array,
    read_strings, signed32, DecodeError, Decoders,
};
use vstd::prelude::*;
use vstd::utf8::encode_utf8;

verus! {

/// The two bytes that spell `u`, the high one first.
pub open spec fn bytes2(u: int) -> Seq<u8> {
    seq![(u / 0x100) as u8, (u % 0x100) as u8]
}

/// The four bytes that spell `u`, the highest first.
#[verifier::opaque]
pub open spec fn bytes4(u: int) -> Seq<u8> {
    bytes2(u / 0x1_0000) + bytes2(u % 0x1_0000)
}

/// The eight bytes that spell `u`, the highest first.
#[verifier::opaque]
pub open spec fn bytes8(u: int) -> Seq<u8> {
    bytes4(u / 0x1_0000_0000) + bytes4(u % 0x1_0000_0000)
}

/// The bytes of a signed 16-bit number.
#[verifier::opaque]
pub open spec fn short_bytes(x: i16) -> Seq<u8> {
    bytes2(
        if x < 0 {
            x + 0x1_0000
        } else {
            x as int
        },
    )
}

/// The bytes of a signed 32-bit number.
#[verifier::opaque]
pub open spec fn int_bytes(x: i32) -> Seq<u8> {
    bytes4(
        if x < 0 {
            x + 0x1_0000_0000
        } else {
            x as int
        },
    )
}

/// The bytes of a signed 64-bit number.
#[verifier::opaque]
pub open spec fn long_bytes(x: i64) -> Seq<u8> {
    bytes8(
        if x < 0 {
            x + 0x1_0000_0000_0000_0000
        } else {
            x as int
        },
    )
}

/// Two bytes spell the number they were made of.
pub proof fn lemma_bytes2(u: int, rest: Seq<u8>)
    requires
        0 <= u < 0x1_0000,
    ensures
        be16(bytes2(u) + rest) == u,
        (bytes2(u) + rest).len() == 2 + rest.len(),
        (bytes2(u) + rest).skip(2) == rest,
{
    let s = bytes2(u) + rest;
    assert(s[0] == (u / 0x100) as u8);
    assert(s[1] == (u % 0x100) as u8);
    assert(s.skip(2) =~= rest);
}

/// Four bytes spell the number they were made of.
pub proof fn lemma_bytes4(u: int, rest: Seq<u8>)
    requires
        0 <= u < 0x1_0000_0000,
    ensures
        be32(bytes4(u) + rest) == u,
        bytes4(u).len() == 4,
        (bytes4(u) + rest).len() == 4 + rest.len(),
        (bytes4(u) + rest).skip(4) == rest,
{
    reveal(bytes4);
    let s = bytes4(u) + rest;
    let hi = u / 0x1_0000;
    let lo = u % 0x1_0000;
    assert(s[0] == (hi / 0x100) as u8);
    assert(s[1] == (hi % 0x100) as u8);
    assert(s[2] == (lo / 0x100) as u8);
    assert(s[3] == (lo % 0x100) as u8);
    assert(s.skip(4) =~= rest);
}

/// Eight bytes spell the number they were made of.
pub proof fn lemma_bytes8(u: int, rest: Seq<u8>)
    requires
        0 <= u < 0x1_0000_0000_0000_0000,
    ensures
        be64(bytes8(u) + rest) == u,
        bytes8(u).len() == 8,
        (bytes8(u) + rest).len() == 8 + rest.len(),
        (bytes8(u) + rest).skip(8) == rest,
{
    reveal(bytes8);
    let s = bytes8(u) + rest;
    let hi = u / 0x1_0000_0000;
    let lo = u % 0x1_0000_0000;
    assert(s =~= bytes4(hi) + (bytes4(lo) + rest));
    lemma_bytes4(hi, bytes4(lo) + rest);
    lemma_bytes4(lo, rest);
    assert(s.skip(4) =~= bytes4(lo) + rest);
    assert(s.skip(8) =~= rest);
}

/// A signed 16-bit number is read back from its bytes.
pub proof fn lemma_short_round_trip(x: i16, rest: Seq<u8>)
    ensures
        read_short(short_bytes(x) + rest) == Ok::<(i16, nat), DecodeError>((x, 2nat)),
        short_bytes(x).len() == 2,
        (short_bytes(x) + rest).len() == 2 + rest.len(),
        after(short_bytes(x) + rest, 2) == rest,
{
    reveal(short_bytes);
    let u = if x < 0 {
        x + 0x1_0000
    } else {
        x as int
    };
    lemma_bytes2(u, rest);
}

/// A signed 32-bit number is read back from its bytes.
pub proof fn lemma_int_round_trip(x: i32, rest: Seq<u8>)
    ensures
        read_int(int_bytes(x) + rest) == Ok::<(i32, nat), DecodeError>((x, 4nat)),
        int_bytes(x).len() == 4,
        (int_bytes(x) + rest).len() == 4 + rest.len(),
        after(int_bytes(x) + rest, 4) == rest,
{
    reveal(int_bytes);
    let u = if x < 0 {
        x + 0x1_0000_0000
    } else {
        x as int
    };
    lemma_bytes4(u, rest);
}

/// A signed 64-bit number is read back from its bytes.
pub proof fn lemma_long_round_trip(x: i64, rest: Seq<u8>)
    ensures
        read_long(long_bytes(x) + rest) == Ok::<(i64, nat), DecodeError>((x, 8nat)),
        long_bytes(x).len() == 8,
        (long_bytes(x) + rest).len() == 8 + rest.len(),
{
    reveal(long_bytes);
    let u = if x < 0 {
        x + 0x1_0000_0000_0000_0000
    } else {
        x as int
    };
    lemma_bytes8(u, rest);
}

/// The bits of a float are read back from their bytes.
pub proof fn lemma_float_round_trip(bits: u32, rest: Seq<u8>)
    ensures
        read_float(bytes4(bits as int) + rest) == Ok::<(u32, nat), DecodeError>((bits, 4nat)),
        bytes4(bits as int).len() == 4,
{
    lemma_bytes4(bits as int, rest);
}

/// The bits of a double are read back from their bytes.
pub proof fn lemma_double_round_trip(bits: u64, rest: Seq<u8>)
    ensures
        read_double(bytes8(bits as int) + rest) == Ok::<(u64, nat), DecodeError>((bits, 8nat)),
        bytes8(bits as int).len() == 8,
{
    lemma_bytes8(bits as int, rest);
}

/// The input after a first part is what follows that part.
pub proof fn lemma_after_concat(a: Seq<u8>, b: Seq<u8>)
    ensures
        after(a + b, a.len()) == b,
        (a + b).len() == a.len() + b.len(),
{
    assert(after(a + b, a.len()) =~= b);
}

/// The type code under which a value is decoded.
pub open spec fn code_of(v: SpecValue) -> TypeCode {
    match v {
        SpecValue::Null => TypeCode::Null,
        SpecValue::Bool(_) => TypeCode::Boolean,
        SpecValue::Byte(_) => TypeCode::Byte,
        SpecValue::Short(_) => TypeCode::Short,
        SpecValue::Int(_) => TypeCode::Integer,
        SpecValue::Long(_) => TypeCode::Long,
        SpecValue::Float(_) => TypeCode::Float,
        SpecValue::Double(_) => TypeCode::Double,
        SpecValue::String(_) => TypeCode::String,
        SpecValue::ByteArray(_) => TypeCode::ByteArray,
        SpecValue::IntegerArray(_) => TypeCode::IntegerArray,
        SpecValue::StringArray(_) => TypeCode::StringArray,
        SpecValue::Array(_) => TypeCode::Array,
        SpecValue::ObjectArray(_) => TypeCode::ObjectArray,
        SpecValue::Dictionary(_) => TypeCode::Dictionary,
        SpecValue::HashTable(_) => TypeCode::Hashtable,
        SpecValue::EventData { .. } => TypeCode::EventData,
        SpecValue::OperationRequest { .. } => TypeCode::OperationRequest,
        SpecValue::OperationResponse { .. } => TypeCode::OperationResponse,
    }
}

/// The bytes of a string: the count of its UTF-8 bytes, then those bytes.
#[verifier::opaque]
pub open spec fn string_bytes(s: Seq<char>) -> Seq<u8> {
    short_bytes(encode_utf8(s).len() as i16) + encode_utf8(s)
}

/// The bytes of the first `n` strings of `x`.
pub open spec fn strings_bytes(x: Seq<Seq<char>>, n: nat) -> Seq<u8>
    decreases n,
{
    if n == 0 || n > x.len() {
        Seq::empty()
    } else {
        strings_bytes(x, (n - 1) as nat) + string_bytes(x[n - 1])
    }
}

/// The bytes of the first `n` numbers of `x`.
pub open spec fn ints_bytes(x: Seq<i32>, n: nat) -> Seq<u8>
    decreases n,
{
    if n == 0 || n > x.len() {
        Seq::empty()
    } else {
        ints_bytes(x, (n - 1) as nat) + int_bytes(x[n - 1])
    }
}

/// A string is read back from its bytes.
pub proof fn lemma_string_round_trip(s: Seq<char>, rest: Seq<u8>)
    requires
        string_fits(s),
    ensures
        read_string(string_bytes(s) + rest) == Ok::<(Seq<char>, nat), DecodeError>(
            (s, string_bytes(s).len()),
        ),
{
    reveal(string_bytes);
    broadcast use {vstd::utf8::encode_utf8_valid_utf8, vstd::utf8::encode_utf8_decode_utf8};

    let body = encode_utf8(s);
    let len = body.len() as i16;
    let all = string_bytes(s) + rest;
    assert(all =~= short_bytes(len) + (body + rest));
    lemma_short_round_trip(len, body + rest);
    lemma_short_round_trip(len, body);
    assert(all.subrange(2, 2 + len) =~= body);
}

/// The first `n` strings of a run are read back from their bytes.
pub proof fn lemma_strings_round_trip(x: Seq<Seq<char>>, n: nat, rest: Seq<u8>)
    requires
        n <= x.len(),
        strings_fit(x),
    ensures
        read_strings(strings_bytes(x, n) + rest, n) == Ok::<(Seq<Seq<char>>, nat), DecodeError>(
            (x.take(n as int), strings_bytes(x, n).len()),
        ),
    decreases n,
{
    if n == 0 {
        assert(x.take(0) =~= Seq::<Seq<char>>::empty());
    } else {
        let head = strings_bytes(x, (n - 1) as nat);
        let last = string_bytes(x[n - 1]);
        let all = strings_bytes(x, n) + rest;
        assert(all =~= head + (last + rest));
        lemma_strings_round_trip(x, (n - 1) as nat, last + rest);
        lemma_after_concat(head, last + rest);
        lemma_string_round_trip(x[n - 1], rest);
        assert(x.take(n - 1).push(x[n - 1]) =~= x.take(n as int));
    }
}

/// The bytes of the first `n` numbers are four bytes each, and spell those
/// numbers.
pub proof fn lemma_ints_bytes(x: Seq<i32>, n: nat, rest: Seq<u8>, i: int)
    requires
        n <= x.len(),
        0 <= i < n,
    ensures
        ints_bytes(x, n).len() == 4 * n,
        signed32(be32((ints_bytes(x, n) + rest).skip(4 * i))) == x[i],
    decreases n,
{
    let head = ints_bytes(x, (n - 1) as nat);
    let last = int_bytes(x[n - 1]);
    let all = ints_bytes(x, n) + rest;
    if n > 1 {
        lemma_ints_bytes(x, (n - 1) as nat, last + rest, 0);
    }
    assert(head.len() == 4 * (n - 1));
    assert(all =~= head + (last + rest));
    if i == n - 1 {
        assert(all.skip(4 * i) =~= last + rest);
        lemma_int_round_trip(x[n - 1], rest);
    } else {
        lemma_ints_bytes(x, (n - 1) as nat, last + rest, i);
    }
    lemma_int_round_trip(x[n - 1], rest);
}

/// An integer array is read back from its bytes.
pub proof fn lemma_int_array_round_trip(x: Seq<i32>, rest: Seq<u8>)
    requires
        x.len() <= i32::MAX,
    ensures
        read_int_array(int_bytes(x.len() as i32) + ints_bytes(x, x.len()) + rest) == Ok::<
            (Seq<i32>, nat),
            DecodeError,
        >((x, (4 + 4 * x.len()) as nat)),
        (int_bytes(x.len() as i32) + ints_bytes(x, x.len())).len() == 4 + 4 * x.len(),
{
    let n = x.len();
    let body = ints_bytes(x, n);
    let all = int_bytes(n as i32) + body + rest;
    assert(all =~= int_bytes(n as i32) + (body + rest));
    lemma_int_round_trip(n as i32, body + rest);
    lemma_int_round_trip(n as i32, body);
    if n > 0 {
        lemma_ints_bytes(x, n, rest, 0);
    }
    let decoded = Seq::new(n as nat, |i: int| signed32(be32(all.skip(4 + 4 * i))));
    assert forall|i: int| 0 <= i < n implies decoded[i] == x[i] by {
        lemma_ints_bytes(x, n, rest, i);
        assert(all.skip(4 + 4 * i) =~= (body + rest).skip(4 * i));
    }
    assert(decoded =~= x);
}

/// Whether all the values of `x` are decoded under the type code of the
/// first.
pub open spec fn same_code(x: Seq<SpecValue>) -> bool {
    forall|i: int| 0 <= i < x.len() ==> code_of(#[trigger] x[i]) == code_of(x[0])
}

/// Whether a value has an encoding: its counts fit their fields, the
/// elements of its arrays are of one kind, and its maps hold no key twice.
/// The keys of its parameter tables are bytes.
pub open spec fn encodable(v: SpecValue) -> bool
    decreases v, 0nat,
{
    match v {
        SpecValue::String(s) => string_fits(s),
        SpecValue::ByteArray(b) => b.len() <= i32::MAX,
        SpecValue::IntegerArray(x) => x.len() <= i32::MAX,
        SpecValue::StringArray(x) => x.len() <= i16::MAX && strings_fit(x),
        SpecValue::Array(x) => x.len() <= i16::MAX && same_code(x) && all_encodable(x),
        SpecValue::ObjectArray(x) => x.len() <= i16::MAX && all_encodable(x),
        SpecValue::Dictionary(m) => map_encodable(m),
        SpecValue::HashTable(m) => map_encodable(m),
        SpecValue::EventData { event_code, params } => params_encodable(params),
        SpecValue::OperationRequest { opcode, params } => params_encodable(params),
        SpecValue::OperationResponse { opcode, return_code, debug_message, params } => encodable(
            *debug_message,
        ) && params_encodable(params),
        _ => true,
    }
}

/// Whether each value of `x` has an encoding.
pub open spec fn all_encodable(x: Seq<SpecValue>) -> bool
    decreases x, 0nat,
{
    forall|i: int| 0 <= i < x.len() ==> encodable(#[trigger] x[i])
}

/// Whether the key and the value of an entry have encodings.
pub open spec fn entry_encodable(e: (SpecValue, SpecValue)) -> bool
    decreases e, 0nat,
{
    encodable(e.0) && encodable(e.1)
}

/// Whether a map has an encoding.
pub open spec fn map_encodable(m: Entries) -> bool
    decreases m, 0nat,
{
    &&& m.len() <= i16::MAX
    &&& keys_distinct(m)
    &&& forall|i: int| 0 <= i < m.len() ==> entry_encodable(#[trigger] m[i])
}

/// Whether a parameter has an encoding: its key is a byte.
pub open spec fn param_encodable(e: (SpecValue, SpecValue)) -> bool
    decreases e, 0nat,
{
    e.0 is Byte && encodable(e.1)
}

/// Whether a parameter table has an encoding.
pub open spec fn params_encodable(m: Entries) -> bool
    decreases m, 0nat,
{
    &&& m.len() <= i16::MAX
    &&& keys_distinct(m)
    &&& forall|i: int| 0 <= i < m.len() ==> param_encodable(#[trigger] m[i])
}

/// The bytes of a byte array: its count, then its bytes.
#[verifier::opaque]
pub open spec fn byte_array_bytes(b: Seq<u8>) -> Seq<u8> {
    int_bytes(b.len() as i32) + b
}

/// The bytes of an integer array: its count, then its numbers.
#[verifier::opaque]
pub open spec fn integer_array_bytes(x: Seq<i32>) -> Seq<u8> {
    int_bytes(x.len() as i32) + ints_bytes(x, x.len())
}

/// The bytes of a string array: its count, then its strings.
#[verifier::opaque]
pub open spec fn string_array_bytes(x: Seq<Seq<char>>) -> Seq<u8> {
    short_bytes(x.len() as i16) + strings_bytes(x, x.len())
}

/// A byte array is read back from its bytes.
pub proof fn lemma_byte_array_round_trip(b: Seq<u8>, rest: Seq<u8>)
    requires
        b.len() <= i32::MAX,
    ensures
        read_byte_array(byte_array_bytes(b) + rest) == Ok::<(Seq<u8>, nat), DecodeError>(
            (b, byte_array_bytes(b).len()),
        ),
{
    reveal(byte_array_bytes);
    let all = byte_array_bytes(b) + rest;
    let n = b.len() as i32;
    assert(all =~= int_bytes(n) + (b + rest));
    lemma_int_round_trip(n, b + rest);
    assert(all.subrange(4, 4 + n) =~= b);
}

/// An integer array is read back from its bytes.
pub proof fn lemma_integer_array_round_trip(x: Seq<i32>, rest: Seq<u8>)
    requires
        x.len() <= i32::MAX,
    ensures
        read_int_array(integer_array_bytes(x) + rest) == Ok::<(Seq<i32>, nat), DecodeError>(
            (x, integer_array_bytes(x).len()),
        ),
{
    reveal(integer_array_bytes);
    lemma_int_array_round_trip(x, rest);
}

/// A string array is read back from its bytes.
pub proof fn lemma_string_array_round_trip(x: Seq<Seq<char>>, rest: Seq<u8>)
    requires
        x.len() <= i16::MAX,
        strings_fit(x),
    ensures
        read_string_array(string_array_bytes(x) + rest) == Ok::<
            (Seq<Seq<char>>, nat),
            DecodeError,
        >((x, string_array_bytes(x).len())),
{
    reveal(string_array_bytes);
    let all = string_array_bytes(x) + rest;
    let n = x.len() as i16;
    let body = strings_bytes(x, x.len());
    assert(all =~= short_bytes(n) + (body + rest));
    lemma_short_round_trip(n, body + rest);
    lemma_strings_round_trip(x, x.len(), rest);
    assert(x.take(x.len() as int) =~= x);
}


/// The bytes of a value, without its type code.
///
/// This function and those that it is defined with are unfolded on request
/// only: `reveal(encode)` unfolds them all.
#[verifier::opaque]
pub open spec fn encode(v: SpecValue) -> Seq<u8>
    decreases v, 0nat,
{
    match v {
        SpecValue::Null => Seq::empty(),
        SpecValue::Bool(x) => seq![if x { 1u8 } else { 0u8 }],
        SpecValue::Byte(x) => seq![x],
        SpecValue::Short(x) => short_bytes(x),
        SpecValue::Int(x) => int_bytes(x),
        SpecValue::Long(x) => long_bytes(x),
        SpecValue::Float(bits) => bytes4(bits as int),
        SpecValue::Double(bits) => bytes8(bits as int),
        SpecValue::String(s) => string_bytes(s),
        SpecValue::ByteArray(b) => byte_array_bytes(b),
        SpecValue::IntegerArray(x) => integer_array_bytes(x),
        SpecValue::StringArray(x) => string_array_bytes(x),
        SpecValue::Array(x) => array_bytes(x),
        SpecValue::ObjectArray(x) => object_array_bytes(x),
        SpecValue::Dictionary(m) => dictionary_bytes(m),
        SpecValue::HashTable(m) => hashtable_bytes(m),
        SpecValue::EventData { event_code, params } => message_bytes(event_code, params),
        SpecValue::OperationRequest { opcode, params } => message_bytes(opcode, params),
        SpecValue::OperationResponse { opcode, return_code, debug_message, params } => seq![opcode]
            + (short_bytes(return_code) + (encode_tagged(*debug_message) + encode_table(params))),
    }
}

/// The byte of the type code under which a value is decoded.
#[verifier::opaque]
pub open spec fn tag_byte(v: SpecValue) -> u8 {
    code_of(v).spec_code()
}

/// The tag byte of a value is read as its type code, which is never
/// `Unknown`.
pub proof fn lemma_tag_byte(v: SpecValue)
    ensures
        TypeCode::spec_from_repr(tag_byte(v)) == Some(code_of(v)),
        tag_byte(v) == code_of(v).spec_code(),
        code_of(v) != TypeCode::Unknown,
        code_of(v) != TypeCode::Custom,
{
    reveal(tag_byte);
    TypeCode::lemma_code_round_trip(code_of(v), 0);
}

/// The bytes of a value behind its type code.
pub open spec fn encode_tagged(v: SpecValue) -> Seq<u8>
    decreases v, 1nat,
{
    seq![tag_byte(v)] + encode(v)
}

/// The bytes of the first `n` values of `x`, without type codes.
pub open spec fn encode_items(x: Seq<SpecValue>, n: nat) -> Seq<u8>
    decreases x, n,
{
    if n == 0 || n > x.len() {
        Seq::empty()
    } else {
        encode_items(x, (n - 1) as nat) + encode(x[n - 1])
    }
}

/// The bytes of the first `n` values of `x`, each behind its type code.
pub open spec fn encode_tagged_items(x: Seq<SpecValue>, n: nat) -> Seq<u8>
    decreases x, n,
{
    if n == 0 || n > x.len() {
        Seq::empty()
    } else {
        encode_tagged_items(x, (n - 1) as nat) + encode_tagged(x[n - 1])
    }
}

/// The bytes of an entry: its key and its value, each behind its type code.
pub open spec fn encode_entry(e: (SpecValue, SpecValue)) -> Seq<u8>
    decreases e, 2nat,
{
    encode_tagged(e.0) + encode_tagged(e.1)
}

/// The bytes of the first `n` entries of `m`.
pub open spec fn encode_entries(m: Entries, n: nat) -> Seq<u8>
    decreases m, n,
{
    if n == 0 || n > m.len() {
        Seq::empty()
    } else {
        encode_entries(m, (n - 1) as nat) + encode_entry(m[n - 1])
    }
}

/// The bytes of a parameter: its key, then its value behind its type code.
pub open spec fn encode_param(e: (SpecValue, SpecValue)) -> Seq<u8>
    decreases e, 2nat,
{
    seq![e.0->Byte_0] + encode_tagged(e.1)
}

/// The bytes of the first `n` parameters of `m`.
pub open spec fn encode_params(m: Entries, n: nat) -> Seq<u8>
    decreases m, n,
{
    if n == 0 || n > m.len() {
        Seq::empty()
    } else {
        encode_params(m, (n - 1) as nat) + encode_param(m[n - 1])
    }
}

/// The bytes of a parameter table: its count, then its parameters.
pub open spec fn encode_table(m: Entries) -> Seq<u8>
    decreases m, m.len() + 1,
{
    short_bytes(m.len() as i16) + encode_params(m, m.len())
}

/// The bytes of an event or of an operation request: its code, then its
/// parameter table.
pub open spec fn message_bytes(code: u8, params: Entries) -> Seq<u8>
    decreases params, params.len() + 2,
{
    seq![code] + encode_table(params)
}

/// The bytes of a hash table, and of a dictionary inside an array of
/// dictionaries: its count, then its entries.
pub open spec fn hashtable_bytes(m: Entries) -> Seq<u8>
    decreases m, m.len() + 1,
{
    short_bytes(m.len() as i16) + encode_entries(m, m.len())
}

/// The bytes of a dictionary: two type codes `Unknown` for its keys and its
/// values, its count and its entries.
pub open spec fn dictionary_bytes(m: Entries) -> Seq<u8>
    decreases m, m.len() + 2,
{
    seq![0u8, 0u8] + hashtable_bytes(m)
}

/// The bytes of an object array: its count, then its values behind their
/// type codes.
pub open spec fn object_array_bytes(x: Seq<SpecValue>) -> Seq<u8>
    decreases x, x.len() + 1,
{
    short_bytes(x.len() as i16) + encode_tagged_items(x, x.len())
}

/// The bytes of the first `n` dictionaries of `x`, each a count and its
/// entries.
pub open spec fn encode_dictionaries(x: Seq<SpecValue>, n: nat) -> Seq<u8>
    decreases x, n,
{
    if n == 0 || n > x.len() {
        Seq::empty()
    } else {
        encode_dictionaries(x, (n - 1) as nat) + (match x[n - 1] {
            SpecValue::Dictionary(m) => hashtable_bytes(m),
            _ => Seq::empty(),
        })
    }
}

/// The bytes of the dictionaries of an array: two type codes `Unknown` for
/// their keys and their values, then the dictionaries.
pub open spec fn dictionary_run_bytes(x: Seq<SpecValue>) -> Seq<u8>
    decreases x, x.len() + 1,
{
    seq![0u8, 0u8] + encode_dictionaries(x, x.len())
}

/// The bytes of an array: its count and the type code of its elements, then
/// the elements. An empty array declares the type `Unknown`.
pub open spec fn array_bytes(x: Seq<SpecValue>) -> Seq<u8>
    decreases x, x.len() + 2,
{
    short_bytes(x.len() as i16) + (if x.len() == 0 {
        seq![0u8] + Seq::empty()
    } else if x[0] is Dictionary {
        seq![68u8] + dictionary_run_bytes(x)
    } else {
        seq![tag_byte(x[0])] + encode_items(x, x.len())
    })
}

/// Skipping twice is skipping once over both counts.
pub proof fn lemma_after_after(s: Seq<u8>, a: nat, b: nat)
    requires
        a + b <= s.len(),
    ensures
        after(after(s, a), b) == after(s, a + b),
{
    assert(after(after(s, a), b) =~= after(s, a + b));
}

/// Three parts in a row: the last two follow the first.
pub proof fn lemma_split(a: Seq<u8>, b: Seq<u8>, c: Seq<u8>)
    ensures
        (a + b) + c == a + (b + c),
        after((a + b) + c, a.len()) == b + c,
        (a + b).len() == a.len() + b.len(),
        ((a + b) + c).len() == a.len() + b.len() + c.len(),
{
    assert((a + b) + c =~= a + (b + c));
    assert(after((a + b) + c, a.len()) =~= b + c);
}

/// Whether the bytes `bytes`, followed by `rest`, are read as the value `v`
/// under the declared type `code`, and are all taken.
pub open spec fn reads_as(
    bytes: Seq<u8>,
    rest: Seq<u8>,
    code: TypeCode,
    v: SpecValue,
    decoders: Decoders,
) -> bool {
    decode_maybe_typed(bytes + rest, code, decoders) == Ok::<(SpecValue, nat), DecodeError>(
        (v, bytes.len()),
    )
}

/// Whether a value is read back from its bytes when `rest` follows them:
/// decoding under its type code gives the value and takes exactly the bytes
/// of its encoding.
pub open spec fn reads_back(v: SpecValue, rest: Seq<u8>, decoders: Decoders) -> bool {
    reads_as(encode(v), rest, code_of(v), v, decoders)
}

/// One byte before others.
pub proof fn lemma_byte_before(b: u8, body: Seq<u8>, rest: Seq<u8>)
    ensures
        ({
            let all = (seq![b] + body) + rest;
            &&& all.len() == 1 + body.len() + rest.len()
            &&& all[0] == b
            &&& read_byte(all) == Ok::<(u8, nat), DecodeError>((b, 1nat))
            &&& after(all, 1) == body + rest
            &&& (seq![b] + body).len() == 1 + body.len()
        }),
{
    let all = (seq![b] + body) + rest;
    assert(all =~= seq![b] + (body + rest));
    assert(after(all, 1) =~= body + rest);
}

/// A count before others.
pub proof fn lemma_count_before(count: i16, body: Seq<u8>, rest: Seq<u8>)
    ensures
        ({
            let all = (short_bytes(count) + body) + rest;
            &&& read_short(all) == Ok::<(i16, nat), DecodeError>((count, 2nat))
            &&& after(all, 2) == body + rest
            &&& (short_bytes(count) + body).len() == 2 + body.len()
        }),
{
    let all = (short_bytes(count) + body) + rest;
    assert(all =~= short_bytes(count) + (body + rest));
    lemma_short_round_trip(count, body + rest);
    lemma_short_round_trip(count, body);
}

/// Behind its type code, what is read under that type is read without a
/// declared type.
pub proof fn lemma_tag_step(
    all: Seq<u8>,
    code: TypeCode,
    v: SpecValue,
    used: nat,
    decoders: Decoders,
)
    requires
        all.len() >= 1,
        TypeCode::spec_from_repr(all[0]) == Some(code),
        code != TypeCode::Unknown,
        decode_maybe_typed(after(all, 1), code, decoders) == Ok::<(SpecValue, nat), DecodeError>(
            (v, used),
        ),
    ensures
        decode_maybe_typed(all, TypeCode::Unknown, decoders) == Ok::<
            (SpecValue, nat),
            DecodeError,
        >((v, 1 + used)),
{
}

/// A tag byte before bytes that are read under its type makes bytes that are
/// read without a declared type.
pub proof fn lemma_tag_frame(
    tag: u8,
    code: TypeCode,
    body: Seq<u8>,
    rest: Seq<u8>,
    v: SpecValue,
    decoders: Decoders,
)
    requires
        TypeCode::spec_from_repr(tag) == Some(code),
        code != TypeCode::Unknown,
        reads_as(body, rest, code, v, decoders),
    ensures
        reads_as(seq![tag] + body, rest, TypeCode::Unknown, v, decoders),
{
    lemma_byte_before(tag, body, rest);
    lemma_tag_step((seq![tag] + body) + rest, code, v, body.len(), decoders);
}

/// One more value behind the first `n` of a run of values of one declared
/// type.
pub proof fn lemma_items_step(
    all: Seq<u8>,
    code: TypeCode,
    n: nat,
    items: Seq<SpecValue>,
    used: nat,
    item: SpecValue,
    more: nat,
    decoders: Decoders,
)
    requires
        code != TypeCode::Unknown,
        decode_items(all, code.spec_code(), n, decoders) == Ok::<
            (Seq<SpecValue>, nat),
            DecodeError,
        >((items, used)),
        decode_maybe_typed(after(all, used), code, decoders) == Ok::<
            (SpecValue, nat),
            DecodeError,
        >((item, more)),
    ensures
        decode_items(all, code.spec_code(), n + 1, decoders) == Ok::<
            (Seq<SpecValue>, nat),
            DecodeError,
        >((items.push(item), used + more)),
{
}

/// One more value behind a run of values of one declared type.
pub proof fn lemma_items_frame(
    head: Seq<u8>,
    last: Seq<u8>,
    rest: Seq<u8>,
    code: TypeCode,
    n: nat,
    items: Seq<SpecValue>,
    item: SpecValue,
    decoders: Decoders,
)
    requires
        code != TypeCode::Unknown,
        decode_items(head + (last + rest), code.spec_code(), n, decoders) == Ok::<
            (Seq<SpecValue>, nat),
            DecodeError,
        >((items, head.len())),
        reads_as(last, rest, code, item, decoders),
    ensures
        decode_items((head + last) + rest, code.spec_code(), n + 1, decoders) == Ok::<
            (Seq<SpecValue>, nat),
            DecodeError,
        >((items.push(item), (head + last).len())),
{
    lemma_split(head, last, rest);
    lemma_items_step(
        (head + last) + rest,
        code,
        n,
        items,
        head.len(),
        item,
        last.len(),
        decoders,
    );
}

/// One more tagged value behind the first `n` of a run of tagged values.
pub proof fn lemma_tagged_items_step(
    all: Seq<u8>,
    n: nat,
    items: Seq<SpecValue>,
    used: nat,
    item: SpecValue,
    more: nat,
    decoders: Decoders,
)
    requires
        decode_tagged_items(all, n, decoders) == Ok::<(Seq<SpecValue>, nat), DecodeError>(
            (items, used),
        ),
        decode_maybe_typed(after(all, used), TypeCode::Unknown, decoders) == Ok::<
            (SpecValue, nat),
            DecodeError,
        >((item, more)),
    ensures
        decode_tagged_items(all, n + 1, decoders) == Ok::<(Seq<SpecValue>, nat), DecodeError>(
            (items.push(item), used + more),
        ),
{
}

/// One more tagged value behind a run of tagged values.
pub proof fn lemma_tagged_items_frame(
    head: Seq<u8>,
    last: Seq<u8>,
    rest: Seq<u8>,
    n: nat,
    items: Seq<SpecValue>,
    item: SpecValue,
    decoders: Decoders,
)
    requires
        decode_tagged_items(head + (last + rest), n, decoders) == Ok::<
            (Seq<SpecValue>, nat),
            DecodeError,
        >((items, head.len())),
        reads_as(last, rest, TypeCode::Unknown, item, decoders),
    ensures
        decode_tagged_items((head + last) + rest, n + 1, decoders) == Ok::<
            (Seq<SpecValue>, nat),
            DecodeError,
        >((items.push(item), (head + last).len())),
{
    lemma_split(head, last, rest);
    lemma_tagged_items_step(
        (head + last) + rest,
        n,
        items,
        head.len(),
        item,
        last.len(),
        decoders,
    );
}

/// A key and the value behind it make an entry.
pub proof fn lemma_entry_step(
    all: Seq<u8>,
    key_type: TypeCode,
    e: (SpecValue, SpecValue),
    key_len: nat,
    value_len: nat,
    decoders: Decoders,
)
    requires
        decode_maybe_typed(all, key_type, decoders) == Ok::<(SpecValue, nat), DecodeError>(
            (e.0, key_len),
        ),
        decode_maybe_typed(after(all, key_len), TypeCode::Unknown, decoders) == Ok::<
            (SpecValue, nat),
            DecodeError,
        >((e.1, value_len)),
    ensures
        decode_entry(all, key_type, TypeCode::Unknown, decoders) == Ok::<
            ((SpecValue, SpecValue), nat),
            DecodeError,
        >((e, key_len + value_len)),
{
}

/// A key and a value that follow each other make an entry.
pub proof fn lemma_entry_frame(
    key: Seq<u8>,
    value: Seq<u8>,
    rest: Seq<u8>,
    e: (SpecValue, SpecValue),
    key_type: TypeCode,
    decoders: Decoders,
)
    requires
        reads_as(key, value + rest, key_type, e.0, decoders),
        reads_as(value, rest, TypeCode::Unknown, e.1, decoders),
    ensures
        decode_entry((key + value) + rest, key_type, TypeCode::Unknown, decoders) == Ok::<
            ((SpecValue, SpecValue), nat),
            DecodeError,
        >((e, (key + value).len())),
{
    lemma_split(key, value, rest);
    lemma_entry_step((key + value) + rest, key_type, e, key.len(), value.len(), decoders);
}

/// One more entry behind the first `n` of a run extends their map by it.
pub proof fn lemma_entries_step(
    all: Seq<u8>,
    key_type: TypeCode,
    n: nat,
    entries: Entries,
    used: nat,
    e: (SpecValue, SpecValue),
    more: nat,
    decoders: Decoders,
)
    requires
        decode_entries(all, key_type, TypeCode::Unknown, n, decoders) == Ok::<
            (Entries, nat),
            DecodeError,
        >((entries, used)),
        decode_entry(after(all, used), key_type, TypeCode::Unknown, decoders) == Ok::<
            ((SpecValue, SpecValue), nat),
            DecodeError,
        >((e, more)),
    ensures
        decode_entries(all, key_type, TypeCode::Unknown, n + 1, decoders) == Ok::<
            (Entries, nat),
            DecodeError,
        >((map_insert(entries, e.0, e.1), used + more)),
{
}

/// One more entry behind a run of entries.
pub proof fn lemma_entries_frame(
    head: Seq<u8>,
    last: Seq<u8>,
    rest: Seq<u8>,
    key_type: TypeCode,
    n: nat,
    entries: Entries,
    e: (SpecValue, SpecValue),
    decoders: Decoders,
)
    requires
        decode_entries(head + (last + rest), key_type, TypeCode::Unknown, n, decoders) == Ok::<
            (Entries, nat),
            DecodeError,
        >((entries, head.len())),
        decode_entry(last + rest, key_type, TypeCode::Unknown, decoders) == Ok::<
            ((SpecValue, SpecValue), nat),
            DecodeError,
        >((e, last.len())),
    ensures
        decode_entries((head + last) + rest, key_type, TypeCode::Unknown, n + 1, decoders) == Ok::<
            (Entries, nat),
            DecodeError,
        >((map_insert(entries, e.0, e.1), (head + last).len())),
{
    lemma_split(head, last, rest);
    lemma_entries_step(
        (head + last) + rest,
        key_type,
        n,
        entries,
        head.len(),
        e,
        last.len(),
        decoders,
    );
}

/// Behind their count, a run of entries makes a hash table, or a parameter
/// table where the keys are bytes, and a run of tagged values makes an
/// object array.
pub proof fn lemma_counted_step(
    all: Seq<u8>,
    count: i16,
    entries: Entries,
    items: Seq<SpecValue>,
    used: nat,
    decoders: Decoders,
)
    requires
        count >= 0,
        read_short(all) == Ok::<(i16, nat), DecodeError>((count, 2nat)),
    ensures
        decode_entries(
            after(all, 2),
            TypeCode::Unknown,
            TypeCode::Unknown,
            count as nat,
            decoders,
        ) == Ok::<(Entries, nat), DecodeError>((entries, used)) ==> decode_hashtable(
            all,
            decoders,
        ) == Ok::<(Entries, nat), DecodeError>((entries, 2 + used)),
        decode_entries(after(all, 2), TypeCode::Byte, TypeCode::Unknown, count as nat, decoders)
            == Ok::<(Entries, nat), DecodeError>((entries, used)) ==> decode_parameter_table(
            all,
            decoders,
        ) == Ok::<(Entries, nat), DecodeError>((entries, 2 + used)),
        decode_tagged_items(after(all, 2), count as nat, decoders) == Ok::<
            (Seq<SpecValue>, nat),
            DecodeError,
        >((items, used)) ==> decode_object_array(all, decoders) == Ok::<
            (Seq<SpecValue>, nat),
            DecodeError,
        >((items, 2 + used)),
{
}

/// A count before a run of entries makes a hash table, or a parameter
/// table where the keys are bytes.
pub proof fn lemma_counted_entries_frame(
    count: i16,
    body: Seq<u8>,
    rest: Seq<u8>,
    entries: Entries,
    decoders: Decoders,
)
    requires
        count >= 0,
    ensures
        decode_entries(body + rest, TypeCode::Unknown, TypeCode::Unknown, count as nat, decoders)
            == Ok::<(Entries, nat), DecodeError>((entries, body.len())) ==> decode_hashtable(
            (short_bytes(count) + body) + rest,
            decoders,
        ) == Ok::<(Entries, nat), DecodeError>((entries, (short_bytes(count) + body).len())),
        decode_entries(body + rest, TypeCode::Byte, TypeCode::Unknown, count as nat, decoders)
            == Ok::<(Entries, nat), DecodeError>((entries, body.len()))
            ==> decode_parameter_table((short_bytes(count) + body) + rest, decoders) == Ok::<
            (Entries, nat),
            DecodeError,
        >((entries, (short_bytes(count) + body).len())),
{
    lemma_count_before(count, body, rest);
    lemma_counted_step(
        (short_bytes(count) + body) + rest,
        count,
        entries,
        Seq::empty(),
        body.len(),
        decoders,
    );
}

/// Behind two type codes `Unknown`, what makes a hash table makes a
/// dictionary.
pub proof fn lemma_dictionary_step(all: Seq<u8>, entries: Entries, used: nat, decoders: Decoders)
    requires
        all.len() >= 2,
        all[0] == 0,
        all[1] == 0,
        decode_hashtable(after(all, 2), decoders) == Ok::<(Entries, nat), DecodeError>(
            (entries, used),
        ),
    ensures
        decode_dictionary(all, decoders) == Ok::<(Entries, nat), DecodeError>(
            (entries, 2 + used),
        ),
{
    if after(all, 2).len() >= 2 {
        lemma_after_after(all, 2, 2);
    }
}

/// Two bytes before others.
pub proof fn lemma_two_bytes_before(a: u8, b: u8, body: Seq<u8>, rest: Seq<u8>)
    ensures
        ({
            let all = (seq![a, b] + body) + rest;
            &&& all.len() == 2 + body.len() + rest.len()
            &&& all[0] == a
            &&& all[1] == b
            &&& after(all, 2) == body + rest
            &&& (seq![a, b] + body).len() == 2 + body.len()
        }),
{
    let all = (seq![a, b] + body) + rest;
    assert(all =~= seq![a, b] + (body + rest));
    assert(after(all, 2) =~= body + rest);
}

/// Two type codes `Unknown` before a counted run of entries make a
/// dictionary.
pub proof fn lemma_dictionary_frame(
    counted: Seq<u8>,
    rest: Seq<u8>,
    entries: Entries,
    decoders: Decoders,
)
    requires
        decode_hashtable(counted + rest, decoders) == Ok::<(Entries, nat), DecodeError>(
            (entries, counted.len()),
        ),
    ensures
        decode_dictionary((seq![0u8, 0u8] + counted) + rest, decoders) == Ok::<
            (Entries, nat),
            DecodeError,
        >((entries, (seq![0u8, 0u8] + counted).len())),
{
    lemma_two_bytes_before(0, 0, counted, rest);
    lemma_dictionary_step((seq![0u8, 0u8] + counted) + rest, entries, counted.len(), decoders);
}

/// A count before a run of tagged values makes an object array.
pub proof fn lemma_object_array_frame(
    count: i16,
    body: Seq<u8>,
    rest: Seq<u8>,
    items: Seq<SpecValue>,
    decoders: Decoders,
)
    requires
        count >= 0,
        decode_tagged_items(body + rest, count as nat, decoders) == Ok::<
            (Seq<SpecValue>, nat),
            DecodeError,
        >((items, body.len())),
    ensures
        decode_object_array((short_bytes(count) + body) + rest, decoders) == Ok::<
            (Seq<SpecValue>, nat),
            DecodeError,
        >((items, (short_bytes(count) + body).len())),
{
    lemma_count_before(count, body, rest);
    lemma_counted_step(
        (short_bytes(count) + body) + rest,
        count,
        Seq::empty(),
        items,
        body.len(),
        decoders,
    );
}

/// One more dictionary behind the first `n` of a run.
pub proof fn lemma_dictionaries_step(
    all: Seq<u8>,
    n: nat,
    items: Seq<SpecValue>,
    used: nat,
    entries: Entries,
    more: nat,
    decoders: Decoders,
)
    requires
        decode_dictionaries(all, TypeCode::Unknown, TypeCode::Unknown, n, decoders) == Ok::<
            (Seq<SpecValue>, nat),
            DecodeError,
        >((items, used)),
        used <= all.len(),
        decode_hashtable(after(all, used), decoders) == Ok::<(Entries, nat), DecodeError>(
            (entries, more),
        ),
    ensures
        decode_dictionaries(all, TypeCode::Unknown, TypeCode::Unknown, n + 1, decoders) == Ok::<
            (Seq<SpecValue>, nat),
            DecodeError,
        >((items.push(SpecValue::Dictionary(entries)), used + more)),
{
    if after(all, used).len() >= 2 {
        lemma_after_after(all, used, 2);
    }
}

/// One more dictionary behind a run of dictionaries.
pub proof fn lemma_dictionaries_frame(
    head: Seq<u8>,
    last: Seq<u8>,
    rest: Seq<u8>,
    n: nat,
    items: Seq<SpecValue>,
    entries: Entries,
    decoders: Decoders,
)
    requires
        decode_dictionaries(
            head + (last + rest),
            TypeCode::Unknown,
            TypeCode::Unknown,
            n,
            decoders,
        ) == Ok::<(Seq<SpecValue>, nat), DecodeError>((items, head.len())),
        decode_hashtable(last + rest, decoders) == Ok::<(Entries, nat), DecodeError>(
            (entries, last.len()),
        ),
    ensures
        decode_dictionaries(
            (head + last) + rest,
            TypeCode::Unknown,
            TypeCode::Unknown,
            n + 1,
            decoders,
        ) == Ok::<(Seq<SpecValue>, nat), DecodeError>(
            (items.push(SpecValue::Dictionary(entries)), (head + last).len()),
        ),
{
    lemma_split(head, last, rest);
    lemma_dictionaries_step(
        (head + last) + rest,
        n,
        items,
        head.len(),
        entries,
        last.len(),
        decoders,
    );
}

/// The header of an array before the bytes of its elements.
pub proof fn lemma_array_header(count: i16, tag: u8, body: Seq<u8>, rest: Seq<u8>)
    ensures
        ({
            let all = (short_bytes(count) + (seq![tag] + body)) + rest;
            &&& read_short(all) == Ok::<(i16, nat), DecodeError>((count, 2nat))
            &&& all.len() == 3 + body.len() + rest.len()
            &&& after(all, 2)[0] == tag
            &&& after(all, 2).len() >= 1
            &&& after(all, 3) == body + rest
            &&& (short_bytes(count) + (seq![tag] + body)).len() == 3 + body.len()
        }),
{
    let typed = seq![tag] + (body + rest);
    let all = (short_bytes(count) + (seq![tag] + body)) + rest;
    assert(all =~= short_bytes(count) + typed);
    lemma_short_round_trip(count, typed);
    lemma_short_round_trip(count, seq![tag] + body);
    assert(typed[0] == tag);
    lemma_after_concat(seq![tag], body + rest);
    lemma_after_after(all, 2, 1);
}

/// Behind a count of zero and the type `Unknown` stands an empty array.
pub proof fn lemma_empty_array_step(all: Seq<u8>, decoders: Decoders)
    requires
        read_short(all) == Ok::<(i16, nat), DecodeError>((0i16, 2nat)),
        after(all, 2).len() >= 1,
        after(all, 2)[0] == 0,
    ensures
        decode_array(all, decoders) == Ok::<(Seq<SpecValue>, nat), DecodeError>(
            (Seq::empty(), 3nat),
        ),
{
    assert(decode_items(after(all, 3), 0, 0, decoders) == Ok::<
        (Seq<SpecValue>, nat),
        DecodeError,
    >((Seq::empty(), 0nat)));
}

/// Behind a count and a type code, a run of values of that type makes an
/// array.
pub proof fn lemma_plain_array_step(
    all: Seq<u8>,
    count: i16,
    code: TypeCode,
    items: Seq<SpecValue>,
    used: nat,
    decoders: Decoders,
)
    requires
        count >= 0,
        read_short(all) == Ok::<(i16, nat), DecodeError>((count, 2nat)),
        after(all, 2).len() >= 1,
        TypeCode::spec_from_repr(after(all, 2)[0]) == Some(code),
        code != TypeCode::Custom,
        code != TypeCode::Dictionary,
        decode_items(after(all, 3), code.spec_code(), count as nat, decoders) == Ok::<
            (Seq<SpecValue>, nat),
            DecodeError,
        >((items, used)),
    ensures
        decode_array(all, decoders) == Ok::<(Seq<SpecValue>, nat), DecodeError>(
            (items, 3 + used),
        ),
{
}

/// Behind a count and the type code of dictionaries, a run of dictionaries
/// behind their shared types makes an array.
pub proof fn lemma_dictionary_array_step(
    all: Seq<u8>,
    count: i16,
    items: Seq<SpecValue>,
    used: nat,
    decoders: Decoders,
)
    requires
        count >= 0,
        read_short(all) == Ok::<(i16, nat), DecodeError>((count, 2nat)),
        after(all, 2).len() >= 1,
        after(all, 2)[0] == 68,
        decode_dictionary_array(after(all, 3), count as nat, decoders) == Ok::<
            (Seq<SpecValue>, nat),
            DecodeError,
        >((items, used)),
    ensures
        decode_array(all, decoders) == Ok::<(Seq<SpecValue>, nat), DecodeError>(
            (items, 3 + used),
        ),
{
}

/// Behind two type codes `Unknown`, a run of dictionaries is a run of
/// dictionaries behind the types that they share.
pub proof fn lemma_dictionary_run_step(
    inner: Seq<u8>,
    n: nat,
    items: Seq<SpecValue>,
    used: nat,
    decoders: Decoders,
)
    requires
        inner.len() >= 2,
        inner[0] == 0,
        inner[1] == 0,
        decode_dictionaries(after(inner, 2), TypeCode::Unknown, TypeCode::Unknown, n, decoders)
            == Ok::<(Seq<SpecValue>, nat), DecodeError>((items, used)),
    ensures
        decode_dictionary_array(inner, n, decoders) == Ok::<(Seq<SpecValue>, nat), DecodeError>(
            (items, 2 + used),
        ),
{
}

/// A count and the type `Unknown` make an empty array.
pub proof fn lemma_empty_array_frame(rest: Seq<u8>, decoders: Decoders)
    ensures
        decode_array((short_bytes(0) + (seq![0u8] + Seq::empty())) + rest, decoders) == Ok::<
            (Seq<SpecValue>, nat),
            DecodeError,
        >((Seq::empty(), (short_bytes(0) + (seq![0u8] + Seq::empty())).len())),
{
    lemma_array_header(0, 0, Seq::empty(), rest);
    lemma_empty_array_step((short_bytes(0) + (seq![0u8] + Seq::empty())) + rest, decoders);
}

/// A count and a type code before a run of values of that type make an
/// array.
pub proof fn lemma_plain_array_frame(
    count: i16,
    tag: u8,
    code: TypeCode,
    body: Seq<u8>,
    rest: Seq<u8>,
    items: Seq<SpecValue>,
    decoders: Decoders,
)
    requires
        count >= 0,
        TypeCode::spec_from_repr(tag) == Some(code),
        code != TypeCode::Custom,
        code != TypeCode::Dictionary,
        decode_items(body + rest, code.spec_code(), count as nat, decoders) == Ok::<
            (Seq<SpecValue>, nat),
            DecodeError,
        >((items, body.len())),
    ensures
        decode_array((short_bytes(count) + (seq![tag] + body)) + rest, decoders) == Ok::<
            (Seq<SpecValue>, nat),
            DecodeError,
        >((items, (short_bytes(count) + (seq![tag] + body)).len())),
{
    lemma_array_header(count, tag, body, rest);
    lemma_plain_array_step(
        (short_bytes(count) + (seq![tag] + body)) + rest,
        count,
        code,
        items,
        body.len(),
        decoders,
    );
}

/// Two type codes `Unknown` before a run of dictionaries make a run of
/// dictionaries behind their shared types.
pub proof fn lemma_dictionary_run_frame(
    body: Seq<u8>,
    rest: Seq<u8>,
    n: nat,
    items: Seq<SpecValue>,
    decoders: Decoders,
)
    requires
        decode_dictionaries(body + rest, TypeCode::Unknown, TypeCode::Unknown, n, decoders)
            == Ok::<(Seq<SpecValue>, nat), DecodeError>((items, body.len())),
    ensures
        decode_dictionary_array((seq![0u8, 0u8] + body) + rest, n, decoders) == Ok::<
            (Seq<SpecValue>, nat),
            DecodeError,
        >((items, (seq![0u8, 0u8] + body).len())),
{
    lemma_two_bytes_before(0, 0, body, rest);
    lemma_dictionary_run_step((seq![0u8, 0u8] + body) + rest, n, items, body.len(), decoders);
}

/// A count and the type code of dictionaries before a run of dictionaries
/// behind their shared types make an array.
pub proof fn lemma_dictionary_array_frame(
    count: i16,
    run: Seq<u8>,
    rest: Seq<u8>,
    items: Seq<SpecValue>,
    decoders: Decoders,
)
    requires
        count >= 0,
        decode_dictionary_array(run + rest, count as nat, decoders) == Ok::<
            (Seq<SpecValue>, nat),
            DecodeError,
        >((items, run.len())),
    ensures
        decode_array((short_bytes(count) + (seq![68u8] + run)) + rest, decoders) == Ok::<
            (Seq<SpecValue>, nat),
            DecodeError,
        >((items, (short_bytes(count) + (seq![68u8] + run)).len())),
{
    lemma_array_header(count, 68, run, rest);
    lemma_dictionary_array_step(
        (short_bytes(count) + (seq![68u8] + run)) + rest,
        count,
        items,
        run.len(),
        decoders,
    );
}

/// Behind a code, a parameter table makes an event, and an operation
/// request.
pub proof fn lemma_message_step(
    all: Seq<u8>,
    code: u8,
    params: Entries,
    used: nat,
    decoders: Decoders,
)
    requires
        read_byte(all) == Ok::<(u8, nat), DecodeError>((code, 1nat)),
        decode_parameter_table(after(all, 1), decoders) == Ok::<(Entries, nat), DecodeError>(
            (params, used),
        ),
    ensures
        decode_event_data(all, decoders) == Ok::<(SpecValue, nat), DecodeError>(
            (SpecValue::EventData { event_code: code, params }, 1 + used),
        ),
        decode_operation_request(all, decoders) == Ok::<(SpecValue, nat), DecodeError>(
            (SpecValue::OperationRequest { opcode: code, params }, 1 + used),
        ),
{
}

/// A code before a parameter table makes an event, and an operation
/// request.
pub proof fn lemma_message_frame(
    code: u8,
    table: Seq<u8>,
    rest: Seq<u8>,
    params: Entries,
    decoders: Decoders,
)
    requires
        decode_parameter_table(table + rest, decoders) == Ok::<(Entries, nat), DecodeError>(
            (params, table.len()),
        ),
    ensures
        decode_event_data((seq![code] + table) + rest, decoders) == Ok::<
            (SpecValue, nat),
            DecodeError,
        >((SpecValue::EventData { event_code: code, params }, (seq![code] + table).len())),
        decode_operation_request((seq![code] + table) + rest, decoders) == Ok::<
            (SpecValue, nat),
            DecodeError,
        >((SpecValue::OperationRequest { opcode: code, params }, (seq![code] + table).len())),
{
    lemma_byte_before(code, table, rest);
    lemma_message_step((seq![code] + table) + rest, code, params, table.len(), decoders);
}

/// The parts of an operation response in a row.
pub proof fn lemma_response_parts(
    opcode: u8,
    return_code: i16,
    text: Seq<u8>,
    table: Seq<u8>,
    rest: Seq<u8>,
)
    ensures
        ({
            let all = (seq![opcode] + (short_bytes(return_code) + (text + table))) + rest;
            &&& read_byte(all) == Ok::<(u8, nat), DecodeError>((opcode, 1nat))
            &&& read_short(after(all, 1)) == Ok::<(i16, nat), DecodeError>((return_code, 2nat))
            &&& after(all, 3) == text + (table + rest)
            &&& after(all, 3 + text.len()) == table + rest
            &&& (seq![opcode] + (short_bytes(return_code) + (text + table))).len() == 3
                + text.len() + table.len()
        }),
{
    let r3 = table + rest;
    let r2 = text + r3;
    let r1 = short_bytes(return_code) + r2;
    let all = (seq![opcode] + (short_bytes(return_code) + (text + table))) + rest;
    assert(all =~= seq![opcode] + r1);
    assert(all[0] == opcode);
    lemma_short_round_trip(return_code, r2);
    lemma_short_round_trip(return_code, text + table);
    lemma_after_concat(seq![opcode], r1);
    lemma_after_after(all, 1, 2);
    assert(after(all, 3) == r2);
    lemma_after_concat(text, r3);
    lemma_after_after(all, 3, text.len());
}

/// An opcode, a return code, a debug message and a parameter table that
/// are read one after the other make an operation response.
pub proof fn lemma_response_step(
    all: Seq<u8>,
    opcode: u8,
    return_code: i16,
    message: SpecValue,
    message_len: nat,
    params: Entries,
    table_len: nat,
    decoders: Decoders,
)
    requires
        read_byte(all) == Ok::<(u8, nat), DecodeError>((opcode, 1nat)),
        read_short(after(all, 1)) == Ok::<(i16, nat), DecodeError>((return_code, 2nat)),
        decode_maybe_typed(after(all, 3), TypeCode::Unknown, decoders) == Ok::<
            (SpecValue, nat),
            DecodeError,
        >((message, message_len)),
        decode_parameter_table(after(all, 3 + message_len), decoders) == Ok::<
            (Entries, nat),
            DecodeError,
        >((params, table_len)),
    ensures
        decode_operation_response(all, decoders) == Ok::<(SpecValue, nat), DecodeError>(
            (
                SpecValue::OperationResponse {
                    opcode,
                    return_code,
                    debug_message: Box::new(message),
                    params,
                },
                3 + message_len + table_len,
            ),
        ),
{
}

/// An opcode, a return code, a tagged debug message and a parameter table
/// make an operation response.
pub proof fn lemma_response_frame(
    opcode: u8,
    return_code: i16,
    text: Seq<u8>,
    table: Seq<u8>,
    rest: Seq<u8>,
    message: SpecValue,
    params: Entries,
    decoders: Decoders,
)
    requires
        reads_as(text, table + rest, TypeCode::Unknown, message, decoders),
        decode_parameter_table(table + rest, decoders) == Ok::<(Entries, nat), DecodeError>(
            (params, table.len()),
        ),
    ensures
        decode_operation_response(
            (seq![opcode] + (short_bytes(return_code) + (text + table))) + rest,
            decoders,
        ) == Ok::<(SpecValue, nat), DecodeError>(
            (
                SpecValue::OperationResponse {
                    opcode,
                    return_code,
                    debug_message: Box::new(message),
                    params,
                },
                (seq![opcode] + (short_bytes(return_code) + (text + table))).len(),
            ),
        ),
{
    lemma_response_parts(opcode, return_code, text, table, rest);
    lemma_response_step(
        (seq![opcode] + (short_bytes(return_code) + (text + table))) + rest,
        opcode,
        return_code,
        message,
        text.len(),
        params,
        table.len(),
        decoders,
    );
}

/// Every value that has an encoding is read back from it, whatever follows.
pub proof fn lemma_reads_back(v: SpecValue, rest: Seq<u8>, decoders: Decoders)
    requires
        encodable(v),
    ensures
        reads_back(v, rest, decoders),
    decreases v, 1nat,
{
    reveal(encode);
    let all = encode(v) + rest;
    match v {
        SpecValue::Null => {
            lemma_typed_null(all, decoders);
        },
        SpecValue::Bool(x) => {
            assert(all[0] == if x { 1u8 } else { 0u8 });
            lemma_typed_bool(all, decoders);
        },
        SpecValue::Byte(x) => {
            assert(all[0] == x);
            lemma_typed_byte(all, decoders);
        },
        SpecValue::Short(x) => {
            lemma_short_round_trip(x, rest);
            lemma_typed_short(all, decoders);
        },
        SpecValue::Int(x) => {
            lemma_int_round_trip(x, rest);
            lemma_typed_int(all, decoders);
        },
        SpecValue::Long(x) => {
            lemma_long_round_trip(x, rest);
            lemma_typed_long(all, decoders);
        },
        SpecValue::Float(bits) => {
            lemma_float_round_trip(bits, rest);
            lemma_typed_float(all, decoders);
        },
        SpecValue::Double(bits) => {
            lemma_double_round_trip(bits, rest);
            lemma_typed_double(all, decoders);
        },
        SpecValue::String(s) => {
            lemma_string_round_trip(s, rest);
            lemma_typed_string(all, decoders);
        },
        SpecValue::ByteArray(b) => {
            lemma_byte_array_round_trip(b, rest);
            lemma_typed_byte_array(all, decoders);
        },
        SpecValue::IntegerArray(x) => {
            lemma_integer_array_round_trip(x, rest);
            lemma_typed_integer_array(all, decoders);
        },
        SpecValue::StringArray(x) => {
            lemma_string_array_round_trip(x, rest);
            lemma_typed_string_array(all, decoders);
        },
        SpecValue::Array(x) => {
            lemma_array_round_trip(x, rest, decoders);
            lemma_typed_array(all, decoders);
        },
        SpecValue::ObjectArray(x) => {
            lemma_object_array_round_trip(x, rest, decoders);
            lemma_typed_object_array(all, decoders);
        },
        SpecValue::Dictionary(m) => {
            lemma_dictionary_round_trip(m, rest, decoders);
            lemma_typed_dictionary(all, decoders);
        },
        SpecValue::HashTable(m) => {
            lemma_hashtable_round_trip(m, rest, decoders);
            lemma_typed_hashtable(all, decoders);
        },
        SpecValue::EventData { event_code, params } => {
            lemma_table_round_trip(params, rest, decoders);
            lemma_message_frame(event_code, encode_table(params), rest, params, decoders);
            lemma_typed_event_data(all, decoders);
        },
        SpecValue::OperationRequest { opcode, params } => {
            lemma_table_round_trip(params, rest, decoders);
            lemma_message_frame(opcode, encode_table(params), rest, params, decoders);
            lemma_typed_operation_request(all, decoders);
        },
        SpecValue::OperationResponse { opcode, return_code, debug_message, params } => {
            let text = encode_tagged(*debug_message);
            let table = encode_table(params);
            lemma_tagged_round_trip(*debug_message, table + rest, decoders);
            lemma_table_round_trip(params, rest, decoders);
            lemma_response_frame(
                opcode,
                return_code,
                text,
                table,
                rest,
                *debug_message,
                params,
                decoders,
            );
            lemma_typed_operation_response(all, decoders);
        },
    }
}

/// A value behind its type code is read back.
pub proof fn lemma_tagged_round_trip(v: SpecValue, rest: Seq<u8>, decoders: Decoders)
    requires
        encodable(v),
    ensures
        reads_as(encode_tagged(v), rest, TypeCode::Unknown, v, decoders),
    decreases v, 2nat,
{
    reveal(encode);
    lemma_reads_back(v, rest, decoders);
    lemma_tag_byte(v);
    lemma_tag_frame(tag_byte(v), code_of(v), encode(v), rest, v, decoders);
}

/// The first `n` values of a run of values of one kind are read back.
pub proof fn lemma_items_round_trip(x: Seq<SpecValue>, n: nat, rest: Seq<u8>, decoders: Decoders)
    requires
        n <= x.len(),
        same_code(x),
        all_encodable(x),
    ensures
        decode_items(encode_items(x, n) + rest, code_of(x[0]).spec_code(), n, decoders) == Ok::<
            (Seq<SpecValue>, nat),
            DecodeError,
        >((x.take(n as int), encode_items(x, n).len())),
    decreases x, n,
{
    reveal(encode);
    if n == 0 {
        assert(x.take(0) =~= Seq::<SpecValue>::empty());
    } else {
        let head = encode_items(x, (n - 1) as nat);
        let last = encode(x[n - 1]);
        lemma_items_round_trip(x, (n - 1) as nat, last + rest, decoders);
        assert(encodable(x[n - 1]));
        assert(code_of(x[n - 1]) == code_of(x[0]));
        lemma_reads_back(x[n - 1], rest, decoders);
        lemma_tag_byte(x[0]);
        lemma_items_frame(
            head,
            last,
            rest,
            code_of(x[0]),
            (n - 1) as nat,
            x.take(n - 1),
            x[n - 1],
            decoders,
        );
        assert(x.take(n - 1).push(x[n - 1]) =~= x.take(n as int));
    }
}

/// The first `n` values of a run of tagged values are read back.
pub proof fn lemma_tagged_items_round_trip(
    x: Seq<SpecValue>,
    n: nat,
    rest: Seq<u8>,
    decoders: Decoders,
)
    requires
        n <= x.len(),
        all_encodable(x),
    ensures
        decode_tagged_items(encode_tagged_items(x, n) + rest, n, decoders) == Ok::<
            (Seq<SpecValue>, nat),
            DecodeError,
        >((x.take(n as int), encode_tagged_items(x, n).len())),
    decreases x, n,
{
    reveal(encode);
    if n == 0 {
        assert(x.take(0) =~= Seq::<SpecValue>::empty());
    } else {
        let head = encode_tagged_items(x, (n - 1) as nat);
        let last = encode_tagged(x[n - 1]);
        lemma_tagged_items_round_trip(x, (n - 1) as nat, last + rest, decoders);
        assert(encodable(x[n - 1]));
        lemma_tagged_round_trip(x[n - 1], rest, decoders);
        lemma_tagged_items_frame(
            head,
            last,
            rest,
            (n - 1) as nat,
            x.take(n - 1),
            x[n - 1],
            decoders,
        );
        assert(x.take(n - 1).push(x[n - 1]) =~= x.take(n as int));
    }
}

/// An entry of tagged key and tagged value is read back.
pub proof fn lemma_entry_round_trip(e: (SpecValue, SpecValue), rest: Seq<u8>, decoders: Decoders)
    requires
        entry_encodable(e),
    ensures
        decode_entry(encode_entry(e) + rest, TypeCode::Unknown, TypeCode::Unknown, decoders)
            == Ok::<((SpecValue, SpecValue), nat), DecodeError>((e, encode_entry(e).len())),
    decreases e, 3nat,
{
    reveal(encode);
    let key = encode_tagged(e.0);
    let value = encode_tagged(e.1);
    lemma_tagged_round_trip(e.0, value + rest, decoders);
    lemma_tagged_round_trip(e.1, rest, decoders);
    lemma_entry_frame(key, value, rest, e, TypeCode::Unknown, decoders);
}

/// A parameter of a byte key and a tagged value is read back.
pub proof fn lemma_param_round_trip(e: (SpecValue, SpecValue), rest: Seq<u8>, decoders: Decoders)
    requires
        param_encodable(e),
    ensures
        decode_entry(encode_param(e) + rest, TypeCode::Byte, TypeCode::Unknown, decoders) == Ok::<
            ((SpecValue, SpecValue), nat),
            DecodeError,
        >((e, encode_param(e).len())),
    decreases e, 3nat,
{
    reveal(encode);
    let k = e.0->Byte_0;
    assert(e.0 == SpecValue::Byte(k));
    let key = seq![k];
    let value = encode_tagged(e.1);
    assert((key + (value + rest))[0] == k);
    lemma_typed_byte(key + (value + rest), decoders);
    lemma_tagged_round_trip(e.1, rest, decoders);
    lemma_entry_frame(key, value, rest, e, TypeCode::Byte, decoders);
}

/// A key that differs from all keys of a map is appended to it.
pub proof fn lemma_insert_new_key(m: Entries, n: int)
    requires
        0 < n <= m.len(),
        keys_distinct(m),
    ensures
        map_insert(m.take(n - 1), m[n - 1].0, m[n - 1].1) == m.take(n),
{
    reveal(map_insert);
    let before = m.take(n - 1);
    assert forall|i: int| 0 <= i < before.len() implies !equiv(
        (#[trigger] before[i]).0,
        m[n - 1].0,
    ) by {
        assert(before[i] == m[i]);
        assert(!equiv(m[i].0, m[n - 1].0));
    }
    assert(!has_key(before, m[n - 1].0));
    assert(before.push((m[n - 1].0, m[n - 1].1)) =~= m.take(n));
}

/// The first `n` entries of a run of entries are read back.
pub proof fn lemma_entries_round_trip(m: Entries, n: nat, rest: Seq<u8>, decoders: Decoders)
    requires
        n <= m.len(),
        keys_distinct(m),
        forall|i: int| 0 <= i < m.len() ==> entry_encodable(#[trigger] m[i]),
    ensures
        decode_entries(
            encode_entries(m, n) + rest,
            TypeCode::Unknown,
            TypeCode::Unknown,
            n,
            decoders,
        ) == Ok::<(Entries, nat), DecodeError>((m.take(n as int), encode_entries(m, n).len())),
    decreases m, n,
{
    reveal(encode);
    if n == 0 {
        assert(m.take(0) =~= Seq::<(SpecValue, SpecValue)>::empty());
    } else {
        let head = encode_entries(m, (n - 1) as nat);
        let last = encode_entry(m[n - 1]);
        lemma_entries_round_trip(m, (n - 1) as nat, last + rest, decoders);
        assert(entry_encodable(m[n - 1]));
        lemma_entry_round_trip(m[n - 1], rest, decoders);
        lemma_entries_frame(
            head,
            last,
            rest,
            TypeCode::Unknown,
            (n - 1) as nat,
            m.take(n - 1),
            m[n - 1],
            decoders,
        );
        lemma_insert_new_key(m, n as int);
    }
}

/// The first `n` parameters of a run of parameters are read back.
pub proof fn lemma_params_round_trip(m: Entries, n: nat, rest: Seq<u8>, decoders: Decoders)
    requires
        n <= m.len(),
        keys_distinct(m),
        forall|i: int| 0 <= i < m.len() ==> param_encodable(#[trigger] m[i]),
    ensures
        decode_entries(encode_params(m, n) + rest, TypeCode::Byte, TypeCode::Unknown, n, decoders)
            == Ok::<(Entries, nat), DecodeError>((m.take(n as int), encode_params(m, n).len())),
    decreases m, n,
{
    reveal(encode);
    if n == 0 {
        assert(m.take(0) =~= Seq::<(SpecValue, SpecValue)>::empty());
    } else {
        let head = encode_params(m, (n - 1) as nat);
        let last = encode_param(m[n - 1]);
        lemma_params_round_trip(m, (n - 1) as nat, last + rest, decoders);
        assert(param_encodable(m[n - 1]));
        lemma_param_round_trip(m[n - 1], rest, decoders);
        lemma_entries_frame(
            head,
            last,
            rest,
            TypeCode::Byte,
            (n - 1) as nat,
            m.take(n - 1),
            m[n - 1],
            decoders,
        );
        lemma_insert_new_key(m, n as int);
    }
}

/// A parameter table is read back.
pub proof fn lemma_table_round_trip(m: Entries, rest: Seq<u8>, decoders: Decoders)
    requires
        params_encodable(m),
    ensures
        decode_parameter_table(encode_table(m) + rest, decoders) == Ok::<
            (Entries, nat),
            DecodeError,
        >((m, encode_table(m).len())),
    decreases m, m.len() + 1,
{
    reveal(encode);
    lemma_params_round_trip(m, m.len(), rest, decoders);
    assert(m.take(m.len() as int) =~= m);
    lemma_counted_entries_frame(m.len() as i16, encode_params(m, m.len()), rest, m, decoders);
}

/// The entries of a hash table are read back.
pub proof fn lemma_hashtable_round_trip(m: Entries, rest: Seq<u8>, decoders: Decoders)
    requires
        map_encodable(m),
    ensures
        decode_hashtable(hashtable_bytes(m) + rest, decoders) == Ok::<(Entries, nat), DecodeError>(
            (m, hashtable_bytes(m).len()),
        ),
    decreases m, m.len() + 1,
{
    reveal(encode);
    lemma_entries_round_trip(m, m.len(), rest, decoders);
    assert(m.take(m.len() as int) =~= m);
    lemma_counted_entries_frame(m.len() as i16, encode_entries(m, m.len()), rest, m, decoders);
}

/// The bytes of a dictionary: two zero bytes before those of a hash table.
pub proof fn lemma_dictionary_bytes(m: Entries)
    ensures
        dictionary_bytes(m) == seq![0u8, 0u8] + hashtable_bytes(m),
{
    reveal(encode);
}

/// The entries of a dictionary are read back.
pub proof fn lemma_dictionary_round_trip(m: Entries, rest: Seq<u8>, decoders: Decoders)
    requires
        map_encodable(m),
    ensures
        decode_dictionary(dictionary_bytes(m) + rest, decoders) == Ok::<
            (Entries, nat),
            DecodeError,
        >((m, dictionary_bytes(m).len())),
    decreases m, m.len() + 2,
{
    lemma_dictionary_bytes(m);
    lemma_hashtable_round_trip(m, rest, decoders);
    lemma_dictionary_frame(hashtable_bytes(m), rest, m, decoders);
}

/// The values of an object array are read back.
pub proof fn lemma_object_array_round_trip(x: Seq<SpecValue>, rest: Seq<u8>, decoders: Decoders)
    requires
        x.len() <= i16::MAX,
        all_encodable(x),
    ensures
        decode_object_array(object_array_bytes(x) + rest, decoders) == Ok::<
            (Seq<SpecValue>, nat),
            DecodeError,
        >((x, object_array_bytes(x).len())),
    decreases x, x.len() + 1,
{
    reveal(encode);
    lemma_tagged_items_round_trip(x, x.len(), rest, decoders);
    assert(x.take(x.len() as int) =~= x);
    lemma_object_array_frame(
        x.len() as i16,
        encode_tagged_items(x, x.len()),
        rest,
        x,
        decoders,
    );
}

/// The first `n` dictionaries of a run of dictionaries are read back.
pub proof fn lemma_dictionaries_round_trip(
    x: Seq<SpecValue>,
    n: nat,
    rest: Seq<u8>,
    decoders: Decoders,
)
    requires
        n <= x.len(),
        forall|i: int|
            0 <= i < x.len() ==> (#[trigger] x[i]) is Dictionary && map_encodable(
                x[i]->Dictionary_0,
            ),
    ensures
        decode_dictionaries(
            encode_dictionaries(x, n) + rest,
            TypeCode::Unknown,
            TypeCode::Unknown,
            n,
            decoders,
        ) == Ok::<(Seq<SpecValue>, nat), DecodeError>(
            (x.take(n as int), encode_dictionaries(x, n).len()),
        ),
    decreases x, n,
{
    reveal(encode);
    if n == 0 {
        assert(x.take(0) =~= Seq::<SpecValue>::empty());
    } else {
        let head = encode_dictionaries(x, (n - 1) as nat);
        assert(x[n - 1] is Dictionary);
        let m = x[n - 1]->Dictionary_0;
        let last = hashtable_bytes(m);
        lemma_dictionaries_round_trip(x, (n - 1) as nat, last + rest, decoders);
        lemma_hashtable_round_trip(m, rest, decoders);
        lemma_dictionaries_frame(
            head,
            last,
            rest,
            (n - 1) as nat,
            x.take(n - 1),
            m,
            decoders,
        );
        assert(x.take(n - 1).push(SpecValue::Dictionary(m)) =~= x.take(n as int));
    }
}

/// The elements of an array are read back.
pub proof fn lemma_array_round_trip(x: Seq<SpecValue>, rest: Seq<u8>, decoders: Decoders)
    requires
        x.len() <= i16::MAX,
        same_code(x),
        all_encodable(x),
    ensures
        decode_array(array_bytes(x) + rest, decoders) == Ok::<(Seq<SpecValue>, nat), DecodeError>(
            (x, array_bytes(x).len()),
        ),
    decreases x, x.len() + 2,
{
    reveal(encode);
    let count = x.len() as i16;
    if x.len() == 0 {
        lemma_empty_array_frame(rest, decoders);
        assert(x =~= Seq::<SpecValue>::empty());
    } else if x[0] is Dictionary {
        assert forall|i: int| 0 <= i < x.len() implies (#[trigger] x[i]) is Dictionary
            && map_encodable(x[i]->Dictionary_0) by {
            assert(code_of(x[i]) == code_of(x[0]));
            assert(encodable(x[i]));
        }
        lemma_dictionaries_round_trip(x, x.len(), rest, decoders);
        assert(x.take(x.len() as int) =~= x);
        lemma_dictionary_run_frame(encode_dictionaries(x, x.len()), rest, x.len(), x, decoders);
        lemma_dictionary_array_frame(count, dictionary_run_bytes(x), rest, x, decoders);
    } else {
        lemma_items_round_trip(x, x.len(), rest, decoders);
        assert(x.take(x.len() as int) =~= x);
        lemma_tag_byte(x[0]);
        lemma_plain_array_frame(
            count,
            tag_byte(x[0]),
            code_of(x[0]),
            encode_items(x, x.len()),
            rest,
            x,
            decoders,
        );
    }
}

/// Decoding is the inverse of the encoding: every value that has an encoding
/// is read back from it, under its type code, and nothing of the encoding is
/// left over.
pub proof fn theorem_decode_inverts_encode(v: SpecValue, decoders: Decoders)
    requires
        encodable(v),
    ensures
        decode_value(encode(v), code_of(v).spec_code(), decoders) == Ok::<
            (SpecValue, nat),
            DecodeError,
        >((v, encode(v).len())),
{
    lemma_reads_back(v, Seq::empty(), decoders);
    assert(encode(v) + Seq::<u8>::empty() =~= encode(v));
    lemma_tag_byte(v);
}

} // verus!
