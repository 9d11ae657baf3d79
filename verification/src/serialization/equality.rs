//! Equality and hashing of decoded values, computed on the values in memory
//! and proved to agree with the model.

use crate::serialization::hashing::{
    bytes_hash, entry_hash, hash, ints_hash, map_hash, mix, seq_hash, text_hash, texts_hash,
    HASH_OFFSET,
};
use crate::serialization::model::{
    entry_equiv, equiv, map_equiv, matched_in, matches_some, nth, seq_equiv, SpecValue,
};
use crate::serialization::value::{
    entries_view, params_view, strings_view, values_view, EventData, HashTable, ObjectArray,
    OperationRequest, OperationResponse, Value,
};
use crate::util::HashableHashmap;
use vstd::prelude::*;
use vstd::string::StringSliceAdditionalSpecFns;

verus! {

/// Whether two byte strings are the same.
pub fn bytes_equal(a: &Vec<u8>, b: &Vec<u8>) -> (r: bool)
    ensures
        r == (a@ == b@),
{
    if a.len() != b.len() {
        return false;
    }
    let n = a.len();
    let mut i: usize = 0;
    while i < n
        invariant
            n == a.len(),
            n == b.len(),
            i <= n,
            forall|k: int| 0 <= k < i ==> a@[k] == b@[k],
        decreases n - i,
    {
        if a[i] != b[i] {
            return false;
        }
        i += 1;
    }
    assert(a@ =~= b@);
    true
}

/// Whether two sequences of numbers are the same.
pub fn ints_equal(a: &Vec<i32>, b: &Vec<i32>) -> (r: bool)
    ensures
        r == (a@ == b@),
{
    if a.len() != b.len() {
        return false;
    }
    let n = a.len();
    let mut i: usize = 0;
    while i < n
        invariant
            n == a.len(),
            n == b.len(),
            i <= n,
            forall|k: int| 0 <= k < i ==> a@[k] == b@[k],
        decreases n - i,
    {
        if a[i] != b[i] {
            return false;
        }
        i += 1;
    }
    assert(a@ =~= b@);
    true
}

/// Whether two sequences of strings are the same.
pub fn strings_equal(a: &Vec<String>, b: &Vec<String>) -> (r: bool)
    ensures
        r == (strings_view(a@) == strings_view(b@)),
{
    let ghost x = strings_view(a@);
    let ghost y = strings_view(b@);
    if a.len() != b.len() {
        assert(x.len() != y.len());
        return false;
    }
    let n = a.len();
    let mut i: usize = 0;
    while i < n
        invariant
            n == a.len(),
            n == b.len(),
            i <= n,
            x == strings_view(a@),
            y == strings_view(b@),
            forall|k: int| 0 <= k < i ==> x[k] == y[k],
        decreases n - i,
    {
        if a[i] != b[i] {
            assert(x[i as int] != y[i as int]);
            return false;
        }
        i += 1;
    }
    assert(x =~= y);
    true
}

/// Whether two sequences of values are equal, position by position.
pub fn values_equal(a: &Vec<Value>, b: &Vec<Value>) -> (r: bool)
    ensures
        r == seq_equiv(values_view(a@), values_view(b@)),
    decreases a, 0nat,
{
    let ghost x = values_view(a@);
    let ghost y = values_view(b@);
    if a.len() != b.len() {
        return false;
    }
    let n = a.len();
    let mut i: usize = 0;
    while i < n
        invariant
            n == a.len(),
            n == b.len(),
            i <= n,
            x == values_view(a@),
            y == values_view(b@),
            forall|k: int| 0 <= k < i ==> equiv(#[trigger] x[k], y[k]),
        decreases n - i,
    {
        if !a[i].equals(&b[i]) {
            assert(!equiv(x[i as int], y[i as int]));
            return false;
        }
        i += 1;
    }
    true
}

/// Whether the entry `e` has an equal entry in `b`.
pub fn entry_matched_in(e: &(Value, Value), b: &HashableHashmap<Value, Value>) -> (r: bool)
    ensures
        r == matched_in((e.0@, e.1@), entries_view(b@)),
    decreases e, 0nat,
{
    let ghost y = entries_view(b@);
    let ghost me = (e.0@, e.1@);
    let n = b.0.len();
    let mut j: usize = 0;
    while j < n
        invariant
            n == b@.len(),
            j <= n,
            y == entries_view(b@),
            me == (e.0@, e.1@),
            forall|k: int| 0 <= k < j ==> !entry_equiv(me, #[trigger] y[k]),
        decreases n - j,
    {
        if e.0.equals(&b.0[j].0) && e.1.equals(&b.0[j].1) {
            assert(entry_equiv(me, y[j as int]));
            return true;
        }
        j += 1;
    }
    false
}

/// Whether the entry `f` has an equal entry in `a`.
pub fn entry_matches_some(a: &HashableHashmap<Value, Value>, f: &(Value, Value)) -> (r: bool)
    ensures
        r == matches_some(entries_view(a@), (f.0@, f.1@)),
    decreases a, 0nat,
{
    let ghost x = entries_view(a@);
    let ghost mf = (f.0@, f.1@);
    let n = a.0.len();
    let mut i: usize = 0;
    while i < n
        invariant
            n == a@.len(),
            i <= n,
            x == entries_view(a@),
            mf == (f.0@, f.1@),
            forall|k: int| 0 <= k < i ==> !entry_equiv(#[trigger] x[k], mf),
        decreases n - i,
    {
        if a.0[i].0.equals(&f.0) && a.0[i].1.equals(&f.1) {
            assert(entry_equiv(x[i as int], mf));
            return true;
        }
        i += 1;
    }
    false
}

/// Whether two maps from values to values are equal: as many entries, and
/// each entry of one has an equal entry in the other.
pub fn entries_equal(a: &HashableHashmap<Value, Value>, b: &HashableHashmap<Value, Value>) -> (r:
    bool)
    ensures
        r == map_equiv(entries_view(a@), entries_view(b@)),
    decreases a, 1nat,
{
    let ghost x = entries_view(a@);
    let ghost y = entries_view(b@);
    if a.0.len() != b.0.len() {
        return false;
    }
    let n = a.0.len();
    let mut i: usize = 0;
    while i < n
        invariant
            n == a@.len(),
            i <= n,
            x == entries_view(a@),
            y == entries_view(b@),
            forall|k: int| 0 <= k < i ==> matched_in(#[trigger] nth(x, k), y),
        decreases n - i,
    {
        if !entry_matched_in(&a.0[i], b) {
            assert(!matched_in(nth(x, i as int), y));
            return false;
        }
        i += 1;
    }
    let mut j: usize = 0;
    while j < n
        invariant
            n == a@.len(),
            n == b@.len(),
            j <= n,
            x == entries_view(a@),
            y == entries_view(b@),
            forall|k: int| 0 <= k < n ==> matched_in(#[trigger] nth(x, k), y),
            forall|k: int| 0 <= k < j ==> matches_some(x, #[trigger] nth(y, k)),
        decreases n - j,
    {
        if !entry_matches_some(a, &b.0[j]) {
            assert(!matches_some(x, nth(y, j as int)));
            return false;
        }
        j += 1;
    }
    true
}

/// Whether the parameter `e` has an equal entry in `b`.
pub fn param_matched_in(e: &(u8, Value), b: &HashableHashmap<u8, Value>) -> (r: bool)
    ensures
        r == matched_in((SpecValue::Byte(e.0), e.1@), params_view(b@)),
    decreases e, 0nat,
{
    let ghost y = params_view(b@);
    let ghost me = (SpecValue::Byte(e.0), e.1@);
    let n = b.0.len();
    let mut j: usize = 0;
    while j < n
        invariant
            n == b@.len(),
            j <= n,
            y == params_view(b@),
            me == (SpecValue::Byte(e.0), e.1@),
            forall|k: int| 0 <= k < j ==> !entry_equiv(me, #[trigger] y[k]),
        decreases n - j,
    {
        if e.0 == b.0[j].0 && e.1.equals(&b.0[j].1) {
            assert(entry_equiv(me, y[j as int]));
            return true;
        }
        j += 1;
    }
    false
}

/// Whether the parameter `f` has an equal entry in `a`.
pub fn param_matches_some(a: &HashableHashmap<u8, Value>, f: &(u8, Value)) -> (r: bool)
    ensures
        r == matches_some(params_view(a@), (SpecValue::Byte(f.0), f.1@)),
    decreases a, 0nat,
{
    let ghost x = params_view(a@);
    let ghost mf = (SpecValue::Byte(f.0), f.1@);
    let n = a.0.len();
    let mut i: usize = 0;
    while i < n
        invariant
            n == a@.len(),
            i <= n,
            x == params_view(a@),
            mf == (SpecValue::Byte(f.0), f.1@),
            forall|k: int| 0 <= k < i ==> !entry_equiv(#[trigger] x[k], mf),
        decreases n - i,
    {
        if a.0[i].0 == f.0 && a.0[i].1.equals(&f.1) {
            assert(entry_equiv(x[i as int], mf));
            return true;
        }
        i += 1;
    }
    false
}

/// Whether two parameter tables are equal, whatever the order of their
/// entries.
pub fn params_equal(a: &HashableHashmap<u8, Value>, b: &HashableHashmap<u8, Value>) -> (r: bool)
    ensures
        r == map_equiv(params_view(a@), params_view(b@)),
    decreases a, 1nat,
{
    let ghost x = params_view(a@);
    let ghost y = params_view(b@);
    if a.0.len() != b.0.len() {
        return false;
    }
    let n = a.0.len();
    let mut i: usize = 0;
    while i < n
        invariant
            n == a@.len(),
            i <= n,
            x == params_view(a@),
            y == params_view(b@),
            forall|k: int| 0 <= k < i ==> matched_in(#[trigger] nth(x, k), y),
        decreases n - i,
    {
        if !param_matched_in(&a.0[i], b) {
            assert(!matched_in(nth(x, i as int), y));
            return false;
        }
        i += 1;
    }
    let mut j: usize = 0;
    while j < n
        invariant
            n == a@.len(),
            n == b@.len(),
            j <= n,
            x == params_view(a@),
            y == params_view(b@),
            forall|k: int| 0 <= k < n ==> matched_in(#[trigger] nth(x, k), y),
            forall|k: int| 0 <= k < j ==> matches_some(x, #[trigger] nth(y, k)),
        decreases n - j,
    {
        if !param_matches_some(a, &b.0[j]) {
            assert(!matches_some(x, nth(y, j as int)));
            return false;
        }
        j += 1;
    }
    true
}

impl Value {
    /// Whether this value equals `other`: floats by their bits, maps
    /// whatever the order of their entries.
    pub fn equals(&self, other: &Value) -> (r: bool)
        ensures
            r == equiv(self@, other@),
        decreases self, 0nat,
    {
        match (self, other) {
            (Value::Byte(x), Value::Byte(y)) => *x == *y,
            (Value::Bool(x), Value::Bool(y)) => *x == *y,
            (Value::Short(x), Value::Short(y)) => *x == *y,
            (Value::Int(x), Value::Int(y)) => *x == *y,
            (Value::Long(x), Value::Long(y)) => *x == *y,
            (Value::Float(x), Value::Float(y)) => x.0 == y.0,
            (Value::Double(x), Value::Double(y)) => x.0 == y.0,
            (Value::String(x), Value::String(y)) => *x == *y,
            (Value::Array(x), Value::Array(y)) => values_equal(x, y),
            (Value::ObjectArray(x), Value::ObjectArray(y)) => values_equal(&x.0, &y.0),
            (Value::StringArray(x), Value::StringArray(y)) => strings_equal(x, y),
            (Value::IntegerArray(x), Value::IntegerArray(y)) => ints_equal(x, y),
            (Value::ByteArray(x), Value::ByteArray(y)) => bytes_equal(x, y),
            (Value::Dictionary(x), Value::Dictionary(y)) => entries_equal(x, y),
            (Value::HashTable(x), Value::HashTable(y)) => entries_equal(&x.0, &y.0),
            (Value::EventData(x), Value::EventData(y)) => x.event_code == y.event_code
                && params_equal(&x.params.0, &y.params.0),
            (Value::OperationRequest(x), Value::OperationRequest(y)) => x.opcode == y.opcode
                && params_equal(&x.parameters.0, &y.parameters.0),
            (Value::OperationResponse(x), Value::OperationResponse(y)) => x.opcode == y.opcode
                && x.return_code == y.return_code && x.debug_message.equals(&y.debug_message)
                && params_equal(&x.parameters.0, &y.parameters.0),
            (Value::Null(()), Value::Null(())) => true,
            _ => false,
        }
    }
}

/// Hash of a byte string, taken in order.
pub fn hash_bytes(b: &[u8]) -> (h: u64)
    ensures
        h == bytes_hash(b@, b@.len()),
{
    let n = b.len();
    let mut h: u64 = HASH_OFFSET;
    let mut i: usize = 0;
    while i < n
        invariant
            n == b@.len(),
            i <= n,
            h == bytes_hash(b@, i as nat),
        decreases n - i,
    {
        h = mix(h, b[i] as u64);
        i += 1;
    }
    h
}

/// Hash of a sequence of numbers, taken in order.
pub fn hash_ints(x: &Vec<i32>) -> (h: u64)
    ensures
        h == ints_hash(x@, x@.len()),
{
    let n = x.len();
    let mut h: u64 = HASH_OFFSET;
    let mut i: usize = 0;
    while i < n
        invariant
            n == x@.len(),
            i <= n,
            h == ints_hash(x@, i as nat),
        decreases n - i,
    {
        h = mix(h, (x[i] as i64 + 0x8000_0000) as u64);
        i += 1;
    }
    h
}

/// Hash of a string: that of its UTF-8 bytes.
pub fn hash_text(s: &String) -> (h: u64)
    ensures
        h == text_hash(s@),
{
    hash_bytes(s.as_str().as_bytes())
}

/// Hash of a sequence of strings, taken in order.
pub fn hash_texts(x: &Vec<String>) -> (h: u64)
    ensures
        h == texts_hash(strings_view(x@), x@.len()),
{
    let n = x.len();
    let mut h: u64 = HASH_OFFSET;
    let mut i: usize = 0;
    while i < n
        invariant
            n == x@.len(),
            i <= n,
            h == texts_hash(strings_view(x@), i as nat),
        decreases n - i,
    {
        h = mix(h, hash_text(&x[i]));
        i += 1;
    }
    h
}

/// Hash of a sequence of values, taken in order.
pub fn hash_values(a: &Vec<Value>) -> (h: u64)
    ensures
        h == seq_hash(values_view(a@), a@.len()),
    decreases a, 0nat,
{
    let n = a.len();
    let mut h: u64 = HASH_OFFSET;
    let mut i: usize = 0;
    while i < n
        invariant
            n == a@.len(),
            i <= n,
            h == seq_hash(values_view(a@), i as nat),
        decreases n - i,
    {
        h = mix(h, a[i].hash_code());
        i += 1;
    }
    h
}

/// Hash of a map from values to values: the exclusive or of the hashes of
/// its entries.
pub fn hash_entries(m: &HashableHashmap<Value, Value>) -> (h: u64)
    ensures
        h == map_hash(entries_view(m@), m@.len()),
    decreases m, 0nat,
{
    let n = m.0.len();
    let mut h: u64 = 0;
    let mut i: usize = 0;
    while i < n
        invariant
            n == m@.len(),
            i <= n,
            h == map_hash(entries_view(m@), i as nat),
        decreases n - i,
    {
        let key_hash = m.0[i].0.hash_code();
        let value_hash = m.0[i].1.hash_code();
        assert(entry_hash(entries_view(m@)[i as int]) == mix(key_hash, value_hash));
        h = h ^ mix(key_hash, value_hash);
        i += 1;
    }
    h
}

/// Hash of a parameter table: the exclusive or of the hashes of its
/// entries.
pub fn hash_params(m: &HashableHashmap<u8, Value>) -> (h: u64)
    ensures
        h == map_hash(params_view(m@), m@.len()),
    decreases m, 0nat,
{
    let n = m.0.len();
    let mut h: u64 = 0;
    let mut i: usize = 0;
    while i < n
        invariant
            n == m@.len(),
            i <= n,
            h == map_hash(params_view(m@), i as nat),
        decreases n - i,
    {
        let key_hash = mix(98, m.0[i].0 as u64);
        let value_hash = m.0[i].1.hash_code();
        assert(entry_hash(params_view(m@)[i as int]) == mix(key_hash, value_hash));
        h = h ^ mix(key_hash, value_hash);
        i += 1;
    }
    h
}

impl Value {
    /// The hash of this value. Equal values have equal hashes.
    pub fn hash_code(&self) -> (h: u64)
        ensures
            h == hash(self@),
        decreases self, 0nat,
    {
        match self {
            Value::Byte(x) => mix(98, *x as u64),
            Value::Bool(x) => mix(
                111,
                if *x {
                    1
                } else {
                    0
                },
            ),
            Value::Short(x) => mix(107, (*x as i32 + 0x8000) as u64),
            Value::Int(x) => mix(105, (*x as i64 + 0x8000_0000) as u64),
            Value::Long(x) => mix(108, (*x as i128 + 0x8000_0000_0000_0000) as u64),
            Value::Float(x) => mix(102, x.0 as u64),
            Value::Double(x) => mix(100, x.0),
            Value::String(s) => mix(115, hash_text(s)),
            Value::Array(v) => mix(121, hash_values(v)),
            Value::ObjectArray(a) => mix(122, hash_values(&a.0)),
            Value::StringArray(v) => mix(97, hash_texts(v)),
            Value::IntegerArray(v) => mix(110, hash_ints(v)),
            Value::ByteArray(v) => mix(120, hash_bytes(v.as_slice())),
            Value::Dictionary(m) => mix(68, hash_entries(m)),
            Value::HashTable(t) => mix(104, hash_entries(&t.0)),
            Value::EventData(e) => mix(mix(101, e.event_code as u64), hash_params(&e.params.0)),
            Value::OperationRequest(r) => mix(
                mix(113, r.opcode as u64),
                hash_params(&r.parameters.0),
            ),
            Value::OperationResponse(r) => mix(
                mix(
                    mix(mix(112, r.opcode as u64), (r.return_code as i32 + 0x8000) as u64),
                    r.debug_message.hash_code(),
                ),
                hash_params(&r.parameters.0),
            ),
            Value::Null(()) => mix(42, 0),
        }
    }
}

} // verus!
