//! The mathematical model of a decoded value, and what it means for two
//! values to be equal.
//!
//! A map is modelled by the sequence of its entries. Two maps are equal when
//! they have as many entries and each entry of one has an equal entry in the
//! other, whatever the order; a value is valid when no map inside it holds
//! two equal keys.

use vstd::prelude::*;
use vstd::utf8::encode_utf8;

verus! {

/// The entries of a map, in insertion order.
pub type Entries = Seq<(SpecValue, SpecValue)>;

/// What a decoded value is, apart from how it is held in memory.
///
/// Floating-point numbers are their IEEE-754 bit patterns. The keys of a
/// parameter table are `Byte` values.
pub enum SpecValue {
    Null,
    Bool(bool),
    Byte(u8),
    Short(i16),
    Int(i32),
    Long(i64),
    Float(u32),
    Double(u64),
    String(Seq<char>),
    ByteArray(Seq<u8>),
    IntegerArray(Seq<i32>),
    StringArray(Seq<Seq<char>>),
    Array(Seq<SpecValue>),
    ObjectArray(Seq<SpecValue>),
    Dictionary(Entries),
    HashTable(Entries),
    EventData { event_code: u8, params: Entries },
    OperationRequest { opcode: u8, params: Entries },
    OperationResponse {
        opcode: u8,
        return_code: i16,
        debug_message: Box<SpecValue>,
        params: Entries,
    },
}

/// Equality of values: that of their parts, with maps compared as unordered
/// collections of entries.
pub open spec fn equiv(a: SpecValue, b: SpecValue) -> bool
    decreases a, 0nat,
{
    match a {
        SpecValue::Array(x) => b matches SpecValue::Array(y) && seq_equiv(x, y),
        SpecValue::ObjectArray(x) => b matches SpecValue::ObjectArray(y) && seq_equiv(x, y),
        SpecValue::Dictionary(x) => b matches SpecValue::Dictionary(y) && map_equiv(x, y),
        SpecValue::HashTable(x) => b matches SpecValue::HashTable(y) && map_equiv(x, y),
        SpecValue::EventData { event_code, params } => {
            &&& b matches SpecValue::EventData { event_code: other_code, params: other_params }
            &&& event_code == other_code
            &&& map_equiv(params, other_params)
        },
        SpecValue::OperationRequest { opcode, params } => {
            &&& b matches SpecValue::OperationRequest { opcode: other_code, params: other_params }
            &&& opcode == other_code
            &&& map_equiv(params, other_params)
        },
        SpecValue::OperationResponse { opcode, return_code, debug_message, params } => {
            &&& b matches SpecValue::OperationResponse {
                opcode: other_code,
                return_code: other_return,
                debug_message: other_message,
                params: other_params,
            }
            &&& opcode == other_code
            &&& return_code == other_return
            &&& equiv(*debug_message, *other_message)
            &&& map_equiv(params, other_params)
        },
        _ => a == b,
    }
}

/// Equality of two sequences of values, position by position.
pub open spec fn seq_equiv(x: Seq<SpecValue>, y: Seq<SpecValue>) -> bool
    decreases x, 0nat,
{
    &&& x.len() == y.len()
    &&& forall|i: int| 0 <= i < x.len() ==> equiv(#[trigger] x[i], y[i])
}

/// The entry of `m` at `i`.
///
/// The quantifiers of [`map_equiv`] are instantiated by naming an entry with
/// this function.
pub open spec fn nth(m: Entries, i: int) -> (SpecValue, SpecValue) {
    m[i]
}

/// Equality of two entries: equal keys and equal values.
pub open spec fn entry_equiv(e: (SpecValue, SpecValue), f: (SpecValue, SpecValue)) -> bool
    decreases e, 0nat,
{
    equiv(e.0, f.0) && equiv(e.1, f.1)
}

/// Whether `e` has an equal entry in `y`.
pub open spec fn matched_in(e: (SpecValue, SpecValue), y: Entries) -> bool
    decreases e, 1nat,
{
    exists|j: int| 0 <= j < y.len() && entry_equiv(e, #[trigger] y[j])
}

/// Whether `f` has an equal entry in `x`.
pub open spec fn matches_some(x: Entries, f: (SpecValue, SpecValue)) -> bool
    decreases x, 1nat,
{
    exists|i: int| 0 <= i < x.len() && entry_equiv(#[trigger] x[i], f)
}

/// Equality of two maps: as many entries, and each entry of one has an equal
/// entry in the other.
pub open spec fn map_equiv(x: Entries, y: Entries) -> bool
    decreases x, 2nat,
{
    &&& x.len() == y.len()
    &&& forall|i: int| 0 <= i < x.len() ==> matched_in(#[trigger] nth(x, i), y)
    &&& forall|j: int| 0 <= j < y.len() ==> matches_some(x, #[trigger] nth(y, j))
}

/// No two entries of `m` have equal keys.
pub open spec fn keys_distinct(m: Entries) -> bool {
    forall|i: int, j: int| 0 <= i < j < m.len() ==> !equiv((#[trigger] m[i]).0, (#[trigger] m[j]).0)
}

/// Whether every map inside a value has pairwise different keys.
pub open spec fn wf(v: SpecValue) -> bool
    decreases v,
{
    match v {
        SpecValue::Array(x) => seq_wf(x),
        SpecValue::ObjectArray(x) => seq_wf(x),
        SpecValue::Dictionary(m) => map_wf(m),
        SpecValue::HashTable(m) => map_wf(m),
        SpecValue::EventData { event_code, params } => map_wf(params),
        SpecValue::OperationRequest { opcode, params } => map_wf(params),
        SpecValue::OperationResponse { opcode, return_code, debug_message, params } => wf(
            *debug_message,
        ) && map_wf(params),
        _ => true,
    }
}

/// Whether each value of a sequence is [`wf`].
pub open spec fn seq_wf(x: Seq<SpecValue>) -> bool
    decreases x,
{
    forall|i: int| 0 <= i < x.len() ==> wf(#[trigger] x[i])
}

/// Whether the key and the value of an entry are [`wf`].
pub open spec fn entry_wf(e: (SpecValue, SpecValue)) -> bool
    decreases e,
{
    wf(e.0) && wf(e.1)
}

/// Whether a map holds no key twice and its keys and values are [`wf`].
pub open spec fn map_wf(m: Entries) -> bool
    decreases m,
{
    &&& forall|i: int| 0 <= i < m.len() ==> entry_wf(#[trigger] m[i])
    &&& keys_distinct(m)
}

/// Every value equals itself.
pub proof fn lemma_equiv_reflexive(a: SpecValue)
    ensures
        equiv(a, a),
    decreases a,
{
    match a {
        SpecValue::Array(x) => lemma_seq_equiv_reflexive(x),
        SpecValue::ObjectArray(x) => lemma_seq_equiv_reflexive(x),
        SpecValue::Dictionary(x) => lemma_map_equiv_reflexive(x),
        SpecValue::HashTable(x) => lemma_map_equiv_reflexive(x),
        SpecValue::EventData { event_code, params } => lemma_map_equiv_reflexive(params),
        SpecValue::OperationRequest { opcode, params } => lemma_map_equiv_reflexive(params),
        SpecValue::OperationResponse { opcode, return_code, debug_message, params } => {
            lemma_equiv_reflexive(*debug_message);
            lemma_map_equiv_reflexive(params);
        },
        _ => {},
    }
}

/// Every sequence of values equals itself.
pub proof fn lemma_seq_equiv_reflexive(x: Seq<SpecValue>)
    ensures
        seq_equiv(x, x),
    decreases x,
{
    assert forall|i: int| 0 <= i < x.len() implies equiv(#[trigger] x[i], x[i]) by {
        lemma_equiv_reflexive(x[i]);
    }
}

/// Every map equals itself.
pub proof fn lemma_map_equiv_reflexive(x: Entries)
    ensures
        map_equiv(x, x),
    decreases x,
{
    assert forall|i: int| 0 <= i < x.len() implies matched_in(#[trigger] nth(x, i), x) by {
        lemma_equiv_reflexive(x[i].0);
        lemma_equiv_reflexive(x[i].1);
        assert(entry_equiv(x[i], x[i]));
    }
    assert forall|i: int| 0 <= i < x.len() implies matches_some(x, #[trigger] nth(x, i)) by {
        lemma_equiv_reflexive(x[i].0);
        lemma_equiv_reflexive(x[i].1);
        assert(entry_equiv(x[i], x[i]));
    }
}

/// Equality of values does not depend on the side.
pub proof fn lemma_equiv_symmetric(a: SpecValue, b: SpecValue)
    requires
        equiv(a, b),
    ensures
        equiv(b, a),
    decreases a,
{
    match a {
        SpecValue::Array(x) => {
            lemma_seq_equiv_symmetric(x, b->Array_0);
        },
        SpecValue::ObjectArray(x) => {
            lemma_seq_equiv_symmetric(x, b->ObjectArray_0);
        },
        SpecValue::Dictionary(x) => {
            lemma_map_equiv_symmetric(x, b->Dictionary_0);
        },
        SpecValue::HashTable(x) => {
            lemma_map_equiv_symmetric(x, b->HashTable_0);
        },
        SpecValue::EventData { event_code, params } => {
            lemma_map_equiv_symmetric(params, b->EventData_params);
        },
        SpecValue::OperationRequest { opcode, params } => {
            lemma_map_equiv_symmetric(params, b->OperationRequest_params);
        },
        SpecValue::OperationResponse { opcode, return_code, debug_message, params } => {
            lemma_equiv_symmetric(*debug_message, *b->OperationResponse_debug_message);
            lemma_map_equiv_symmetric(params, b->OperationResponse_params);
        },
        _ => {},
    }
}

/// Equality of sequences does not depend on the side.
pub proof fn lemma_seq_equiv_symmetric(x: Seq<SpecValue>, y: Seq<SpecValue>)
    requires
        seq_equiv(x, y),
    ensures
        seq_equiv(y, x),
    decreases x,
{
    assert forall|i: int| 0 <= i < y.len() implies equiv(#[trigger] y[i], x[i]) by {
        assert(equiv(x[i], y[i]));
        lemma_equiv_symmetric(x[i], y[i]);
    }
}

/// Equality of entries does not depend on the side.
pub proof fn lemma_entry_equiv_symmetric(e: (SpecValue, SpecValue), f: (SpecValue, SpecValue))
    requires
        entry_equiv(e, f),
    ensures
        entry_equiv(f, e),
    decreases e,
{
    lemma_equiv_symmetric(e.0, f.0);
    lemma_equiv_symmetric(e.1, f.1);
}

/// Equality of maps does not depend on the side.
pub proof fn lemma_map_equiv_symmetric(x: Entries, y: Entries)
    requires
        map_equiv(x, y),
    ensures
        map_equiv(y, x),
    decreases x,
{
    assert forall|j: int| 0 <= j < y.len() implies matched_in(#[trigger] nth(y, j), x) by {
        assert(matches_some(x, nth(y, j)));
        let i = choose|i: int| 0 <= i < x.len() && entry_equiv(#[trigger] x[i], y[j]);
        lemma_entry_equiv_symmetric(x[i], y[j]);
    }
    assert forall|i: int| 0 <= i < x.len() implies matches_some(y, #[trigger] nth(x, i)) by {
        assert(matched_in(nth(x, i), y));
        let j = choose|j: int| 0 <= j < y.len() && entry_equiv(x[i], #[trigger] y[j]);
        lemma_entry_equiv_symmetric(x[i], y[j]);
    }
}

/// Two values that equal a third equal each other.
pub proof fn lemma_equiv_transitive(a: SpecValue, b: SpecValue, c: SpecValue)
    requires
        equiv(a, b),
        equiv(b, c),
    ensures
        equiv(a, c),
    decreases a,
{
    match a {
        SpecValue::Array(x) => {
            lemma_seq_equiv_transitive(x, b->Array_0, c->Array_0);
        },
        SpecValue::ObjectArray(x) => {
            lemma_seq_equiv_transitive(x, b->ObjectArray_0, c->ObjectArray_0);
        },
        SpecValue::Dictionary(x) => {
            lemma_map_equiv_transitive(x, b->Dictionary_0, c->Dictionary_0);
        },
        SpecValue::HashTable(x) => {
            lemma_map_equiv_transitive(x, b->HashTable_0, c->HashTable_0);
        },
        SpecValue::EventData { event_code, params } => {
            lemma_map_equiv_transitive(params, b->EventData_params, c->EventData_params);
        },
        SpecValue::OperationRequest { opcode, params } => {
            lemma_map_equiv_transitive(
                params,
                b->OperationRequest_params,
                c->OperationRequest_params,
            );
        },
        SpecValue::OperationResponse { opcode, return_code, debug_message, params } => {
            lemma_equiv_transitive(
                *debug_message,
                *b->OperationResponse_debug_message,
                *c->OperationResponse_debug_message,
            );
            lemma_map_equiv_transitive(
                params,
                b->OperationResponse_params,
                c->OperationResponse_params,
            );
        },
        _ => {},
    }
}

/// Two sequences that equal a third equal each other.
pub proof fn lemma_seq_equiv_transitive(x: Seq<SpecValue>, y: Seq<SpecValue>, z: Seq<SpecValue>)
    requires
        seq_equiv(x, y),
        seq_equiv(y, z),
    ensures
        seq_equiv(x, z),
    decreases x,
{
    assert forall|i: int| 0 <= i < x.len() implies equiv(#[trigger] x[i], z[i]) by {
        assert(equiv(x[i], y[i]));
        assert(equiv(y[i], z[i]));
        lemma_equiv_transitive(x[i], y[i], z[i]);
    }
}

/// Two entries that equal a third equal each other.
pub proof fn lemma_entry_equiv_transitive(
    e: (SpecValue, SpecValue),
    f: (SpecValue, SpecValue),
    g: (SpecValue, SpecValue),
)
    requires
        entry_equiv(e, f),
        entry_equiv(f, g),
    ensures
        entry_equiv(e, g),
    decreases e,
{
    lemma_equiv_transitive(e.0, f.0, g.0);
    lemma_equiv_transitive(e.1, f.1, g.1);
}

/// Two maps that equal a third equal each other.
pub proof fn lemma_map_equiv_transitive(x: Entries, y: Entries, z: Entries)
    requires
        map_equiv(x, y),
        map_equiv(y, z),
    ensures
        map_equiv(x, z),
    decreases x,
{
    assert forall|i: int| 0 <= i < x.len() implies matched_in(#[trigger] nth(x, i), z) by {
        assert(matched_in(nth(x, i), y));
        let j = choose|j: int| 0 <= j < y.len() && entry_equiv(x[i], #[trigger] y[j]);
        assert(matched_in(nth(y, j), z));
        let k = choose|k: int| 0 <= k < z.len() && entry_equiv(y[j], #[trigger] z[k]);
        lemma_entry_equiv_transitive(x[i], y[j], z[k]);
    }
    assert forall|k: int| 0 <= k < z.len() implies matches_some(x, #[trigger] nth(z, k)) by {
        assert(matches_some(y, nth(z, k)));
        let j = choose|j: int| 0 <= j < y.len() && entry_equiv(#[trigger] y[j], z[k]);
        assert(matches_some(x, nth(y, j)));
        let i = choose|i: int| 0 <= i < x.len() && entry_equiv(#[trigger] x[i], y[j]);
        lemma_entry_equiv_transitive(x[i], y[j], z[k]);
    }
}

/// Whether `m` holds a key equal to `k`.
pub open spec fn has_key(m: Entries, k: SpecValue) -> bool {
    exists|i: int| 0 <= i < m.len() && equiv((#[trigger] m[i]).0, k)
}

/// Whether the entry at `i` is the first of `m` whose key equals `k`.
pub open spec fn is_first_match(m: Entries, k: SpecValue, i: int) -> bool {
    &&& 0 <= i < m.len()
    &&& equiv(m[i].0, k)
    &&& forall|j: int| 0 <= j < i ==> !equiv((#[trigger] m[j]).0, k)
}

/// Index of the first entry of `m` whose key equals `k`, where there is one.
pub open spec fn key_index(m: Entries, k: SpecValue) -> int {
    choose|i: int| is_first_match(m, k, i)
}

/// The value that `m` holds under a key equal to `k`.
pub open spec fn map_get(m: Entries, k: SpecValue) -> Option<SpecValue> {
    if has_key(m, k) {
        Some(m[key_index(m, k)].1)
    } else {
        None
    }
}

/// The map `m` after `v` was stored under `k`: a key that `m` holds already
/// keeps its place and gets the new value, another key is appended.
#[verifier::opaque]
pub open spec fn map_insert(m: Entries, k: SpecValue, v: SpecValue) -> Entries {
    if has_key(m, k) {
        m.update(key_index(m, k), (m[key_index(m, k)].0, v))
    } else {
        m.push((k, v))
    }
}

/// There is one first match at most, and [`key_index`] is it.
pub proof fn lemma_first_match_unique(m: Entries, k: SpecValue, i: int)
    requires
        is_first_match(m, k, i),
    ensures
        has_key(m, k),
        key_index(m, k) == i,
{
    let c = key_index(m, k);
    assert(is_first_match(m, k, c));
    if c < i {
        assert(!equiv(m[c].0, k));
    }
    if i < c {
        assert(!equiv(m[i].0, k));
    }
}

/// A map that holds a key has a first entry with it.
pub proof fn lemma_has_key_first_match(m: Entries, k: SpecValue)
    requires
        has_key(m, k),
    ensures
        is_first_match(m, k, key_index(m, k)),
{
    let w = choose|i: int| 0 <= i < m.len() && equiv((#[trigger] m[i]).0, k);
    lemma_first_match_below(m, k, w);
}

/// Below an entry whose key equals `k` there is a first such entry.
proof fn lemma_first_match_below(m: Entries, k: SpecValue, w: int)
    requires
        0 <= w < m.len(),
        equiv(m[w].0, k),
    ensures
        exists|i: int| is_first_match(m, k, i),
    decreases w,
{
    if exists|j: int| 0 <= j < w && equiv((#[trigger] m[j]).0, k) {
        let j = choose|j: int| 0 <= j < w && equiv((#[trigger] m[j]).0, k);
        lemma_first_match_below(m, k, j);
    } else {
        assert(is_first_match(m, k, w));
    }
}

/// Storing a value under a key keeps the keys of a map different.
pub proof fn lemma_map_insert_wf(m: Entries, k: SpecValue, v: SpecValue)
    requires
        map_wf(m),
        wf(k),
        wf(v),
    ensures
        map_wf(map_insert(m, k, v)),
{
    reveal(map_insert);
    let r = map_insert(m, k, v);
    if has_key(m, k) {
        lemma_has_key_first_match(m, k);
        let at = key_index(m, k);
        assert forall|i: int| 0 <= i < r.len() implies entry_wf(#[trigger] r[i]) by {
            assert(entry_wf(m[i]));
        }
        assert forall|i: int, j: int| 0 <= i < j < r.len() implies !equiv(
            (#[trigger] r[i]).0,
            (#[trigger] r[j]).0,
        ) by {
            assert(!equiv(m[i].0, m[j].0));
        }
    } else {
        assert forall|i: int| 0 <= i < r.len() implies entry_wf(#[trigger] r[i]) by {
            if i < m.len() {
                assert(entry_wf(m[i]));
            }
        }
        assert forall|i: int, j: int| 0 <= i < j < r.len() implies !equiv(
            (#[trigger] r[i]).0,
            (#[trigger] r[j]).0,
        ) by {
            if j < m.len() {
                assert(!equiv(m[i].0, m[j].0));
            } else {
                assert(!equiv(m[i].0, k));
            }
        }
    }
}

/// Whether a string is short enough for the signed 16-bit count of its
/// UTF-8 bytes.
pub open spec fn string_fits(s: Seq<char>) -> bool {
    encode_utf8(s).len() <= i16::MAX
}

/// Whether each string of `x` is short enough for its count.
pub open spec fn strings_fit(x: Seq<Seq<char>>) -> bool {
    forall|i: int| 0 <= i < x.len() ==> string_fits(#[trigger] x[i])
}

/// Whether the collections inside a value are no longer than their counts
/// on the wire allow: byte arrays and integer arrays fit a signed 32-bit
/// count, strings, the other arrays and all maps a signed 16-bit count.
pub open spec fn sized(v: SpecValue) -> bool
    decreases v,
{
    match v {
        SpecValue::String(s) => string_fits(s),
        SpecValue::ByteArray(b) => b.len() <= i32::MAX,
        SpecValue::IntegerArray(x) => x.len() <= i32::MAX,
        SpecValue::StringArray(x) => x.len() <= i16::MAX && strings_fit(x),
        SpecValue::Array(x) => x.len() <= i16::MAX && seq_sized(x),
        SpecValue::ObjectArray(x) => x.len() <= i16::MAX && seq_sized(x),
        SpecValue::Dictionary(m) => m.len() <= i16::MAX && map_sized(m),
        SpecValue::HashTable(m) => m.len() <= i16::MAX && map_sized(m),
        SpecValue::EventData { event_code, params } => params.len() <= i16::MAX && map_sized(
            params,
        ),
        SpecValue::OperationRequest { opcode, params } => params.len() <= i16::MAX && map_sized(
            params,
        ),
        SpecValue::OperationResponse { opcode, return_code, debug_message, params } => sized(
            *debug_message,
        ) && params.len() <= i16::MAX && map_sized(params),
        _ => true,
    }
}

/// Whether each value of a sequence is [`sized`].
pub open spec fn seq_sized(x: Seq<SpecValue>) -> bool
    decreases x,
{
    forall|i: int| 0 <= i < x.len() ==> sized(#[trigger] x[i])
}

/// Whether the key and the value of an entry are [`sized`].
pub open spec fn entry_sized(e: (SpecValue, SpecValue)) -> bool
    decreases e,
{
    sized(e.0) && sized(e.1)
}

/// Whether each entry of a map is [`sized`].
pub open spec fn map_sized(m: Entries) -> bool
    decreases m,
{
    forall|i: int| 0 <= i < m.len() ==> entry_sized(#[trigger] m[i])
}

/// Storing an entry makes a map longer by one entry at most, and keeps its
/// entries sized if the new one is.
pub proof fn lemma_map_insert_sized(m: Entries, k: SpecValue, v: SpecValue)
    ensures
        m.len() <= map_insert(m, k, v).len() <= m.len() + 1,
        map_sized(m) && sized(k) && sized(v) ==> map_sized(map_insert(m, k, v)),
{
    reveal(map_insert);
    let r = map_insert(m, k, v);
    if has_key(m, k) {
        lemma_has_key_first_match(m, k);
    }
    if map_sized(m) && sized(k) && sized(v) {
        assert forall|i: int| 0 <= i < r.len() implies entry_sized(#[trigger] r[i]) by {
            if i < m.len() {
                assert(entry_sized(m[i]));
            }
        }
    }
}

/// Validity of a value: no map inside it holds a key twice, and every
/// collection inside it fits its count on the wire.
pub open spec fn valid(v: SpecValue) -> bool {
    wf(v) && sized(v)
}

/// Validity of each value of a sequence.
pub open spec fn seq_valid(x: Seq<SpecValue>) -> bool {
    seq_wf(x) && seq_sized(x)
}

/// Validity of the key and of the value of an entry.
pub open spec fn entry_valid(e: (SpecValue, SpecValue)) -> bool {
    entry_wf(e) && entry_sized(e)
}

/// Validity of the entries of a map, which holds no key twice.
pub open spec fn map_valid(m: Entries) -> bool {
    map_wf(m) && map_sized(m)
}

} // verus!
