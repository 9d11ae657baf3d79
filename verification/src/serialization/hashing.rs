//! The hash of a value, and the proof that equal values hash alike.
//!
//! A sequence is hashed in order. A map is hashed as the exclusive or of the
//! hashes of its entries, so that the order of the entries does not count.

use crate::serialization::model::{
    entry_equiv, entry_wf, equiv, lemma_entry_equiv_symmetric,
    lemma_equiv_symmetric, lemma_equiv_transitive,
    lemma_map_equiv_reflexive, map_equiv, map_wf, matched_in, matches_some, nth, seq_equiv,
    seq_wf, wf, Entries, SpecValue,
};
use vstd::prelude::*;
use vstd::utf8::encode_utf8;

verus! {

/// Multiplier of the mixing step.
pub const HASH_PRIME: u64 = 0x0000_0100_0000_01b3;

/// Hash of an empty sequence.
pub const HASH_OFFSET: u64 = 0xcbf2_9ce4_8422_2325;

/// Folds one more word into a running hash.
#[verifier::opaque]
pub open spec fn spec_mix(seed: u64, word: u64) -> u64 {
    seed.wrapping_mul(HASH_PRIME).wrapping_add(word)
}

/// Folds one more word into a running hash.
#[verifier::when_used_as_spec(spec_mix)]
pub fn mix(seed: u64, word: u64) -> (h: u64)
    ensures
        h == spec_mix(seed, word),
{
    reveal(spec_mix);
    seed.wrapping_mul(HASH_PRIME).wrapping_add(word)
}

/// Hash of the first `n` bytes of `b`, taken in order.
pub open spec fn bytes_hash(b: Seq<u8>, n: nat) -> u64
    decreases n,
{
    if n == 0 || n > b.len() {
        HASH_OFFSET
    } else {
        spec_mix(bytes_hash(b, (n - 1) as nat), b[n - 1] as u64)
    }
}

/// Hash of the first `n` numbers of `x`, taken in order.
pub open spec fn ints_hash(x: Seq<i32>, n: nat) -> u64
    decreases n,
{
    if n == 0 || n > x.len() {
        HASH_OFFSET
    } else {
        spec_mix(ints_hash(x, (n - 1) as nat), (x[n - 1] + 0x8000_0000) as u64)
    }
}

/// Hash of a string: that of its UTF-8 bytes.
pub open spec fn text_hash(s: Seq<char>) -> u64 {
    bytes_hash(encode_utf8(s), encode_utf8(s).len())
}

/// Hash of the first `n` strings of `x`, taken in order.
pub open spec fn texts_hash(x: Seq<Seq<char>>, n: nat) -> u64
    decreases n,
{
    if n == 0 || n > x.len() {
        HASH_OFFSET
    } else {
        spec_mix(texts_hash(x, (n - 1) as nat), text_hash(x[n - 1]))
    }
}

/// Hash of a value.
pub open spec fn hash(v: SpecValue) -> u64
    decreases v, 0nat,
{
    match v {
        SpecValue::Null => spec_mix(42, 0),
        SpecValue::Bool(b) => spec_mix(111, if b { 1 } else { 0 }),
        SpecValue::Byte(x) => spec_mix(98, x as u64),
        SpecValue::Short(x) => spec_mix(107, (x + 0x8000) as u64),
        SpecValue::Int(x) => spec_mix(105, (x + 0x8000_0000) as u64),
        SpecValue::Long(x) => spec_mix(108, (x + 0x8000_0000_0000_0000) as u64),
        SpecValue::Float(bits) => spec_mix(102, bits as u64),
        SpecValue::Double(bits) => spec_mix(100, bits),
        SpecValue::String(s) => spec_mix(115, text_hash(s)),
        SpecValue::ByteArray(b) => spec_mix(120, bytes_hash(b, b.len())),
        SpecValue::IntegerArray(x) => spec_mix(110, ints_hash(x, x.len())),
        SpecValue::StringArray(x) => spec_mix(97, texts_hash(x, x.len())),
        SpecValue::Array(x) => spec_mix(121, seq_hash(x, x.len())),
        SpecValue::ObjectArray(x) => spec_mix(122, seq_hash(x, x.len())),
        SpecValue::Dictionary(m) => spec_mix(68, map_hash(m, m.len())),
        SpecValue::HashTable(m) => spec_mix(104, map_hash(m, m.len())),
        SpecValue::EventData { event_code, params } => spec_mix(
            spec_mix(101, event_code as u64),
            map_hash(params, params.len()),
        ),
        SpecValue::OperationRequest { opcode, params } => spec_mix(
            spec_mix(113, opcode as u64),
            map_hash(params, params.len()),
        ),
        SpecValue::OperationResponse { opcode, return_code, debug_message, params } => spec_mix(
            spec_mix(
                spec_mix(spec_mix(112, opcode as u64), (return_code + 0x8000) as u64),
                hash(*debug_message),
            ),
            map_hash(params, params.len()),
        ),
    }
}

/// Hash of the first `n` values of `x`, taken in order.
pub open spec fn seq_hash(x: Seq<SpecValue>, n: nat) -> u64
    decreases x, n,
{
    if n == 0 || n > x.len() {
        HASH_OFFSET
    } else {
        spec_mix(seq_hash(x, (n - 1) as nat), hash(x[n - 1]))
    }
}

/// Hash of an entry: its key's hash mixed with its value's.
pub open spec fn entry_hash(e: (SpecValue, SpecValue)) -> u64
    decreases e, 0nat,
{
    spec_mix(hash(e.0), hash(e.1))
}

/// Exclusive or of the hashes of the first `n` entries of `m`.
pub open spec fn map_hash(m: Entries, n: nat) -> u64
    decreases m, n,
{
    if n == 0 || n > m.len() {
        0
    } else {
        map_hash(m, (n - 1) as nat) ^ entry_hash(m[n - 1])
    }
}

/// The hash of the first `n` entries depends on those entries alone.
pub proof fn lemma_map_hash_prefix(m1: Entries, m2: Entries, n: nat)
    requires
        n <= m1.len(),
        n <= m2.len(),
        forall|i: int| 0 <= i < n ==> m1[i] == m2[i],
    ensures
        map_hash(m1, n) == map_hash(m2, n),
    decreases n,
{
    if n > 0 {
        lemma_map_hash_prefix(m1, m2, (n - 1) as nat);
    }
}

/// Taking the entry at `j` out of the first `n` entries takes its hash out
/// of theirs.
pub proof fn lemma_map_hash_remove(m: Entries, j: int, n: nat)
    requires
        0 <= j < n <= m.len(),
    ensures
        map_hash(m, n) == map_hash(m.remove(j), (n - 1) as nat) ^ entry_hash(m[j]),
    decreases n,
{
    let rest = m.remove(j);
    if n == j + 1 {
        lemma_map_hash_prefix(m, rest, j as nat);
    } else {
        lemma_map_hash_remove(m, j, (n - 1) as nat);
        let a = map_hash(rest, (n - 2) as nat);
        let b = entry_hash(m[j]);
        let c = entry_hash(m[n - 1]);
        assert(rest[n - 2] == m[n - 1]);
        assert((a ^ b) ^ c == (a ^ c) ^ b) by (bit_vector);
    }
}

/// Equal values have equal hashes.
pub proof fn lemma_hash_respects_equiv(a: SpecValue, b: SpecValue)
    requires
        equiv(a, b),
        wf(a),
        wf(b),
    ensures
        hash(a) == hash(b),
    decreases a, 0nat,
{
    match a {
        SpecValue::Array(x) => {
            lemma_seq_hash_respects_equiv(x, b->Array_0, x.len());
        },
        SpecValue::ObjectArray(x) => {
            lemma_seq_hash_respects_equiv(x, b->ObjectArray_0, x.len());
        },
        SpecValue::Dictionary(x) => {
            lemma_map_hash_respects_equiv(x, b->Dictionary_0);
        },
        SpecValue::HashTable(x) => {
            lemma_map_hash_respects_equiv(x, b->HashTable_0);
        },
        SpecValue::EventData { event_code, params } => {
            lemma_map_hash_respects_equiv(params, b->EventData_params);
        },
        SpecValue::OperationRequest { opcode, params } => {
            lemma_map_hash_respects_equiv(params, b->OperationRequest_params);
        },
        SpecValue::OperationResponse { opcode, return_code, debug_message, params } => {
            lemma_hash_respects_equiv(*debug_message, *b->OperationResponse_debug_message);
            lemma_map_hash_respects_equiv(params, b->OperationResponse_params);
        },
        _ => {},
    }
}

/// Equal sequences have equal hashes, prefix by prefix.
pub proof fn lemma_seq_hash_respects_equiv(x: Seq<SpecValue>, y: Seq<SpecValue>, n: nat)
    requires
        seq_equiv(x, y),
        seq_wf(x),
        seq_wf(y),
        n <= x.len(),
    ensures
        x.len() == y.len(),
        seq_hash(x, n) == seq_hash(y, n),
    decreases x, n,
{
    if n > 0 {
        lemma_seq_hash_respects_equiv(x, y, (n - 1) as nat);
        assert(equiv(x[n - 1], y[n - 1]));
        assert(wf(x[n - 1]) && wf(y[n - 1]));
        lemma_hash_respects_equiv(x[n - 1], y[n - 1]);
    }
}

/// Equal entries have equal hashes.
pub proof fn lemma_entry_hash_respects_equiv(e: (SpecValue, SpecValue), f: (SpecValue, SpecValue))
    requires
        entry_equiv(e, f),
        entry_wf(e),
        entry_wf(f),
    ensures
        entry_hash(e) == entry_hash(f),
    decreases e, 0nat,
{
    lemma_hash_respects_equiv(e.0, f.0);
    lemma_hash_respects_equiv(e.1, f.1);
}

/// Equal maps have equal hashes, whatever the order of their entries.
pub proof fn lemma_map_hash_respects_equiv(x: Entries, y: Entries)
    requires
        map_equiv(x, y),
        map_wf(x),
        map_wf(y),
    ensures
        map_hash(x, x.len()) == map_hash(y, y.len()),
    decreases x, x.len(),
{
    let n = x.len();
    if n > 0 {
        let last = x[n - 1];
        assert(matched_in(nth(x, n - 1), y));
        let j = choose|j: int| 0 <= j < y.len() && entry_equiv(last, #[trigger] y[j]);
        let x1 = x.drop_last();
        let y1 = y.remove(j);
        assert(entry_wf(x[n - 1]) && entry_wf(y[j]));
        lemma_entry_hash_respects_equiv(last, y[j]);
        lemma_entry_equiv_symmetric(last, y[j]);

        assert(map_wf(x1)) by {
            assert forall|i: int| 0 <= i < x1.len() implies entry_wf(#[trigger] x1[i]) by {
                assert(entry_wf(x[i]));
            }
            assert forall|i: int, k: int| 0 <= i < k < x1.len() implies !equiv(
                (#[trigger] x1[i]).0,
                (#[trigger] x1[k]).0,
            ) by {
                assert(!equiv(x[i].0, x[k].0));
            }
        }
        assert(map_wf(y1)) by {
            assert forall|i: int| 0 <= i < y1.len() implies entry_wf(#[trigger] y1[i]) by {
                let src = if i < j { i } else { i + 1 };
                assert(y1[i] == y[src]);
                assert(entry_wf(y[src]));
            }
            assert forall|i: int, k: int| 0 <= i < k < y1.len() implies !equiv(
                (#[trigger] y1[i]).0,
                (#[trigger] y1[k]).0,
            ) by {
                let si = if i < j { i } else { i + 1 };
                let sk = if k < j { k } else { k + 1 };
                assert(y1[i] == y[si] && y1[k] == y[sk]);
                assert(!equiv(y[si].0, y[sk].0));
            }
        }
        assert(map_equiv(x1, y1)) by {
            assert forall|i: int| 0 <= i < x1.len() implies matched_in(
                #[trigger] nth(x1, i),
                y1,
            ) by {
                assert(matched_in(nth(x, i), y));
                let k = choose|k: int| 0 <= k < y.len() && entry_equiv(x[i], #[trigger] y[k]);
                if k == j {
                    lemma_equiv_transitive(x[i].0, y[j].0, last.0);
                    assert(equiv(x[i].0, x[n - 1].0));
                    assert(false);
                }
                let dst = if k < j { k } else { k - 1 };
                assert(y1[dst] == y[k]);
                assert(entry_equiv(x1[i], y1[dst]));
            }
            assert forall|k: int| 0 <= k < y1.len() implies matches_some(
                x1,
                #[trigger] nth(y1, k),
            ) by {
                let src = if k < j { k } else { k + 1 };
                assert(y1[k] == y[src]);
                assert(matches_some(x, nth(y, src)));
                let i = choose|i: int| 0 <= i < x.len() && entry_equiv(#[trigger] x[i], y[src]);
                if i == n - 1 {
                    lemma_equiv_symmetric(last.0, y[src].0);
                    lemma_equiv_transitive(y[src].0, last.0, y[j].0);
                    if src < j {
                        assert(!equiv(y[src].0, y[j].0));
                    } else {
                        lemma_equiv_symmetric(y[src].0, y[j].0);
                        assert(!equiv(y[j].0, y[src].0));
                    }
                    assert(false);
                }
                assert(entry_equiv(x1[i], y1[k]));
            }
        }
        lemma_map_hash_respects_equiv(x1, y1);
        lemma_map_hash_prefix(x, x1, (n - 1) as nat);
        lemma_map_hash_remove(y, j, y.len());
    }
}

/// A map's hash and its equality do not depend on the order of its entries:
/// two valid maps that hold the same entries, each as often as the other, are
/// equal and hash alike.
pub proof fn lemma_map_order_independent(m1: Entries, m2: Entries)
    requires
        map_wf(m1),
        map_wf(m2),
        m1.to_multiset() == m2.to_multiset(),
    ensures
        equiv(SpecValue::Dictionary(m1), SpecValue::Dictionary(m2)),
        hash(SpecValue::Dictionary(m1)) == hash(SpecValue::Dictionary(m2)),
        equiv(SpecValue::HashTable(m1), SpecValue::HashTable(m2)),
        hash(SpecValue::HashTable(m1)) == hash(SpecValue::HashTable(m2)),
{
    m1.to_multiset_ensures();
    m2.to_multiset_ensures();
    lemma_map_equiv_reflexive(m1);
    lemma_map_equiv_reflexive(m2);
    assert forall|i: int| 0 <= i < m1.len() implies matched_in(#[trigger] nth(m1, i), m2) by {
        assert(m1.contains(m1[i]));
        assert(m2.to_multiset().count(m1[i]) > 0);
        assert(m2.contains(m1[i]));
        let j = choose|j: int| 0 <= j < m2.len() && m2[j] == m1[i];
        assert(matched_in(nth(m2, j), m2));
        let k = choose|k: int| 0 <= k < m2.len() && entry_equiv(m2[j], #[trigger] m2[k]);
        assert(entry_equiv(m1[i], m2[k]));
    }
    assert forall|j: int| 0 <= j < m2.len() implies matches_some(m1, #[trigger] nth(m2, j)) by {
        assert(m2.contains(m2[j]));
        assert(m1.to_multiset().count(m2[j]) > 0);
        assert(m1.contains(m2[j]));
        let i = choose|i: int| 0 <= i < m1.len() && m1[i] == m2[j];
        assert(matches_some(m1, nth(m1, i)));
        let k = choose|k: int| 0 <= k < m1.len() && entry_equiv(#[trigger] m1[k], m1[i]);
        assert(entry_equiv(m1[k], m2[j]));
    }
    assert(map_equiv(m1, m2));
    lemma_map_hash_respects_equiv(m1, m2);
}

} // verus!
