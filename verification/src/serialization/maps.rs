//! Lookup and insertion on the maps of the value model.

use crate::serialization::model::{
    equiv, has_key, is_first_match, key_index, lemma_first_match_unique, map_get, map_insert,
    SpecValue,
};
use crate::serialization::value::{entries_view, params_view, HashTable, ParameterTable, Value};
use crate::util::HashableHashmap;
use vstd::prelude::*;

verus! {

impl HashableHashmap<Value, Value> {
    /// Position of the first entry whose key equals `key`.
    pub fn position(&self, key: &Value) -> (r: Option<usize>)
        ensures
            r is Some <==> has_key(entries_view(self@), key@),
            r matches Some(i) ==> i == key_index(entries_view(self@), key@) && i < self@.len(),
    {
        let ghost m = entries_view(self@);
        let n = self.0.len();
        let mut i: usize = 0;
        while i < n
            invariant
                n == self@.len(),
                i <= n,
                m == entries_view(self@),
                forall|j: int| 0 <= j < i ==> !equiv((#[trigger] m[j]).0, key@),
            decreases n - i,
        {
            if self.0[i].0.equals(key) {
                proof {
                    assert(is_first_match(m, key@, i as int));
                    lemma_first_match_unique(m, key@, i as int);
                }
                return Some(i);
            }
            i += 1;
        }
        None
    }

    /// The value stored under a key equal to `key`.
    pub fn get(&self, key: &Value) -> (r: Option<&Value>)
        ensures
            r is Some <==> has_key(entries_view(self@), key@),
            r matches Some(v) ==> Some(v@) == map_get(entries_view(self@), key@),
    {
        match self.position(key) {
            Some(i) => Some(&self.0[i].1),
            None => None,
        }
    }

    /// Whether a key equal to `key` is stored.
    pub fn contains_key(&self, key: &Value) -> (r: bool)
        ensures
            r == has_key(entries_view(self@), key@),
    {
        self.position(key).is_some()
    }

    /// Stores `value` under `key`. Where a key equal to `key` is stored
    /// already, that key stays and its value is replaced and handed back.
    pub fn insert(&mut self, key: Value, value: Value) -> (r: Option<Value>)
        ensures
            entries_view(final(self)@) == map_insert(entries_view(old(self)@), key@, value@),
            r is Some <==> has_key(entries_view(old(self)@), key@),
            r matches Some(v) ==> Some(v@) == map_get(entries_view(old(self)@), key@),
    {
        let ghost before = entries_view(self@);
        reveal(map_insert);
        match self.position(&key) {
            Some(i) => {
                let (stored_key, stored_value) = self.0.remove(i);
                self.0.insert(i, (stored_key, value));
                assert(entries_view(self@) =~= map_insert(before, key@, value@));
                Some(stored_value)
            },
            None => {
                self.0.push((key, value));
                assert(entries_view(self@) =~= map_insert(before, key@, value@));
                None
            },
        }
    }
}

impl HashableHashmap<u8, Value> {
    /// Position of the entry whose key is `key`.
    pub fn position(&self, key: u8) -> (r: Option<usize>)
        ensures
            r is Some <==> has_key(params_view(self@), SpecValue::Byte(key)),
            r matches Some(i) ==> i == key_index(params_view(self@), SpecValue::Byte(key)) && i
                < self@.len(),
    {
        let ghost m = params_view(self@);
        let n = self.0.len();
        let mut i: usize = 0;
        while i < n
            invariant
                n == self@.len(),
                i <= n,
                m == params_view(self@),
                forall|j: int| 0 <= j < i ==> !equiv((#[trigger] m[j]).0, SpecValue::Byte(key)),
            decreases n - i,
        {
            if self.0[i].0 == key {
                proof {
                    assert(is_first_match(m, SpecValue::Byte(key), i as int));
                    lemma_first_match_unique(m, SpecValue::Byte(key), i as int);
                }
                return Some(i);
            }
            i += 1;
        }
        None
    }

    /// The value stored under `key`.
    pub fn get(&self, key: u8) -> (r: Option<&Value>)
        ensures
            r is Some <==> has_key(params_view(self@), SpecValue::Byte(key)),
            r matches Some(v) ==> Some(v@) == map_get(params_view(self@), SpecValue::Byte(key)),
    {
        match self.position(key) {
            Some(i) => Some(&self.0[i].1),
            None => None,
        }
    }

    /// Whether `key` is stored.
    pub fn contains_key(&self, key: u8) -> (r: bool)
        ensures
            r == has_key(params_view(self@), SpecValue::Byte(key)),
    {
        self.position(key).is_some()
    }

    /// Stores `value` under `key`. Where `key` is stored already, its value
    /// is replaced and handed back.
    pub fn insert(&mut self, key: u8, value: Value) -> (r: Option<Value>)
        ensures
            params_view(final(self)@) == map_insert(
                params_view(old(self)@),
                SpecValue::Byte(key),
                value@,
            ),
            r is Some <==> has_key(params_view(old(self)@), SpecValue::Byte(key)),
            r matches Some(v) ==> Some(v@) == map_get(
                params_view(old(self)@),
                SpecValue::Byte(key),
            ),
    {
        let ghost before = params_view(self@);
        reveal(map_insert);
        match self.position(key) {
            Some(i) => {
                let (stored_key, stored_value) = self.0.remove(i);
                self.0.insert(i, (stored_key, value));
                assert(params_view(self@) =~= map_insert(before, SpecValue::Byte(key), value@));
                Some(stored_value)
            },
            None => {
                self.0.push((key, value));
                assert(params_view(self@) =~= map_insert(before, SpecValue::Byte(key), value@));
                None
            },
        }
    }
}

impl ParameterTable {
    /// An empty table.
    pub fn new() -> (t: Self)
        ensures
            t@ == Seq::<(SpecValue, SpecValue)>::empty(),
    {
        let t = ParameterTable(HashableHashmap::new());
        assert(t@ =~= Seq::<(SpecValue, SpecValue)>::empty());
        t
    }

    /// Number of parameters.
    pub fn len(&self) -> (n: usize)
        ensures
            n == self@.len(),
    {
        self.0.len()
    }

    /// The value of the parameter `key`.
    pub fn get(&self, key: u8) -> (r: Option<&Value>)
        ensures
            r is Some <==> has_key(self@, SpecValue::Byte(key)),
            r matches Some(v) ==> Some(v@) == map_get(self@, SpecValue::Byte(key)),
    {
        self.0.get(key)
    }

    /// Sets the parameter `key`, handing back the value it had.
    pub fn insert(&mut self, key: u8, value: Value) -> (r: Option<Value>)
        ensures
            final(self)@ == map_insert(old(self)@, SpecValue::Byte(key), value@),
            r is Some <==> has_key(old(self)@, SpecValue::Byte(key)),
            r matches Some(v) ==> Some(v@) == map_get(old(self)@, SpecValue::Byte(key)),
    {
        self.0.insert(key, value)
    }
}

impl HashTable<Value, Value> {
    /// An empty table.
    pub fn new() -> (t: Self)
        ensures
            t@ == Seq::<(SpecValue, SpecValue)>::empty(),
    {
        let t = HashTable(HashableHashmap::new());
        assert(t@ =~= Seq::<(SpecValue, SpecValue)>::empty());
        t
    }

    /// Number of entries.
    pub fn len(&self) -> (n: usize)
        ensures
            n == self@.len(),
    {
        self.0.len()
    }

    /// The value stored under a key equal to `key`.
    pub fn get(&self, key: &Value) -> (r: Option<&Value>)
        ensures
            r is Some <==> has_key(self@, key@),
            r matches Some(v) ==> Some(v@) == map_get(self@, key@),
    {
        self.0.get(key)
    }

    /// Stores `value` under `key`, handing back the value that a key equal
    /// to `key` had.
    pub fn insert(&mut self, key: Value, value: Value) -> (r: Option<Value>)
        ensures
            final(self)@ == map_insert(old(self)@, key@, value@),
            r is Some <==> has_key(old(self)@, key@),
            r matches Some(v) ==> Some(v@) == map_get(old(self)@, key@),
    {
        self.0.insert(key, value)
    }
}

} // verus!
