//! Wrappers that make floats and maps usable as parts of a hashable value.

use vstd::prelude::*;

verus! {

/// A 32-bit IEEE-754 number, held as its bit pattern.
///
/// Two of them are equal exactly when their bits are: a NaN equals itself,
/// and the two zeros differ.
#[derive(Clone, Copy, PartialEq, Eq, Debug, Structural)]
pub struct HashableFloat(pub u32);

impl HashableFloat {
    /// Wraps a bit pattern.
    pub fn from_bits(bits: u32) -> (r: Self)
        ensures
            r.0 == bits,
    {
        HashableFloat(bits)
    }

    /// The bit pattern.
    pub fn to_bits(&self) -> (bits: u32)
        ensures
            bits == self.0,
    {
        self.0
    }
}

/// A 64-bit IEEE-754 number, held as its bit pattern, with the equality of
/// [`HashableFloat`].
#[derive(Clone, Copy, PartialEq, Eq, Debug, Structural)]
pub struct HashableDouble(pub u64);

impl HashableDouble {
    /// Wraps a bit pattern.
    pub fn from_bits(bits: u64) -> (r: Self)
        ensures
            r.0 == bits,
    {
        HashableDouble(bits)
    }

    /// The bit pattern.
    pub fn to_bits(&self) -> (bits: u64)
        ensures
            bits == self.0,
    {
        self.0
    }
}

/// A map kept as the list of its entries, in the order in which their keys
/// were first inserted.
///
/// The operations that compare keys are defined for the key types that the
/// value model uses, next to that model.
#[derive(Clone, Debug)]
pub struct HashableHashmap<K, V>(pub Vec<(K, V)>);

impl<K, V> View for HashableHashmap<K, V> {
    type V = Seq<(K, V)>;

    open spec fn view(&self) -> Seq<(K, V)> {
        self.0@
    }
}

impl<K, V> HashableHashmap<K, V> {
    /// An empty map.
    pub fn new() -> (m: Self)
        ensures
            m@ == Seq::<(K, V)>::empty(),
    {
        HashableHashmap(Vec::new())
    }

    /// Number of entries.
    pub fn len(&self) -> (n: usize)
        ensures
            n == self@.len(),
    {
        self.0.len()
    }

    /// Whether the map has no entry.
    pub fn is_empty(&self) -> (b: bool)
        ensures
            b == (self@.len() == 0),
    {
        self.0.len() == 0
    }

    /// The key of the entry at `index`, counted in insertion order.
    pub fn key_at(&self, index: usize) -> (k: &K)
        requires
            index < self@.len(),
        ensures
            *k == self@[index as int].0,
    {
        &self.0[index].0
    }

    /// The value of the entry at `index`, counted in insertion order.
    pub fn value_at(&self, index: usize) -> (v: &V)
        requires
            index < self@.len(),
        ensures
            *v == self@[index as int].1,
    {
        &self.0[index].1
    }
}

} // verus!
