//! Copies of decoded values.

use crate::serialization::value::{
    entries_view, lemma_entries_view_push, lemma_params_view_push, lemma_strings_view_push,
    lemma_take_all, lemma_values_view_push, lemma_views_of_nothing, params_view, strings_view,
    values_view, EventData, HashTable, ObjectArray, OperationRequest, OperationResponse,
    ParameterTable, Value,
};
use crate::util::HashableHashmap;
use vstd::prelude::*;
use vstd::slice::slice_to_vec;

verus! {

/// A copy of a sequence of strings.
pub fn copy_strings(v: &Vec<String>) -> (r: Vec<String>)
    ensures
        strings_view(r@) == strings_view(v@),
{
    let n = v.len();
    let mut r: Vec<String> = Vec::new();
    let mut i: usize = 0;
    proof {
        lemma_views_of_nothing();
        assert(v@.take(0) =~= Seq::<String>::empty());
    }
    while i < n
        invariant
            n == v@.len(),
            i <= n,
            strings_view(r@) == strings_view(v@.take(i as int)),
        decreases n - i,
    {
        let item = v[i].clone();
        proof {
            lemma_strings_view_push(r@, item);
            lemma_strings_view_push(v@.take(i as int), v@[i as int]);
            assert(v@.take(i as int).push(v@[i as int]) =~= v@.take(i + 1));
        }
        r.push(item);
        i += 1;
    }
    proof {
        lemma_take_all(v@);
    }
    r
}

/// A copy of a sequence of values.
pub fn copy_values(v: &Vec<Value>) -> (r: Vec<Value>)
    ensures
        values_view(r@) == values_view(v@),
    decreases v, 0nat,
{
    let n = v.len();
    let mut r: Vec<Value> = Vec::new();
    let mut i: usize = 0;
    proof {
        lemma_views_of_nothing();
        assert(v@.take(0) =~= Seq::<Value>::empty());
    }
    while i < n
        invariant
            n == v@.len(),
            i <= n,
            values_view(r@) == values_view(v@.take(i as int)),
        decreases n - i,
    {
        let item = v[i].duplicate();
        proof {
            lemma_values_view_push(r@, item);
            lemma_values_view_push(v@.take(i as int), v@[i as int]);
            assert(v@.take(i as int).push(v@[i as int]) =~= v@.take(i + 1));
        }
        r.push(item);
        i += 1;
    }
    proof {
        lemma_take_all(v@);
    }
    r
}

/// A copy of a map from values to values.
pub fn copy_entries(m: &HashableHashmap<Value, Value>) -> (r: HashableHashmap<Value, Value>)
    ensures
        entries_view(r@) == entries_view(m@),
    decreases m, 0nat,
{
    let n = m.0.len();
    let mut entries: Vec<(Value, Value)> = Vec::new();
    let mut i: usize = 0;
    proof {
        lemma_views_of_nothing();
        assert(m@.take(0) =~= Seq::<(Value, Value)>::empty());
    }
    while i < n
        invariant
            n == m@.len(),
            i <= n,
            entries_view(entries@) == entries_view(m@.take(i as int)),
        decreases n - i,
    {
        let key = m.0[i].0.duplicate();
        let value = m.0[i].1.duplicate();
        proof {
            lemma_entries_view_push(entries@, (key, value));
            lemma_entries_view_push(m@.take(i as int), m@[i as int]);
            assert(m@.take(i as int).push(m@[i as int]) =~= m@.take(i + 1));
        }
        entries.push((key, value));
        i += 1;
    }
    proof {
        lemma_take_all(m@);
    }
    HashableHashmap(entries)
}

/// A copy of a parameter table.
pub fn copy_params(m: &HashableHashmap<u8, Value>) -> (r: HashableHashmap<u8, Value>)
    ensures
        params_view(r@) == params_view(m@),
    decreases m, 0nat,
{
    let n = m.0.len();
    let mut entries: Vec<(u8, Value)> = Vec::new();
    let mut i: usize = 0;
    proof {
        lemma_views_of_nothing();
        assert(m@.take(0) =~= Seq::<(u8, Value)>::empty());
    }
    while i < n
        invariant
            n == m@.len(),
            i <= n,
            params_view(entries@) == params_view(m@.take(i as int)),
        decreases n - i,
    {
        let key = m.0[i].0;
        let value = m.0[i].1.duplicate();
        proof {
            lemma_params_view_push(entries@, (key, value));
            lemma_params_view_push(m@.take(i as int), m@[i as int]);
            assert(m@.take(i as int).push(m@[i as int]) =~= m@.take(i + 1));
        }
        entries.push((key, value));
        i += 1;
    }
    proof {
        lemma_take_all(m@);
    }
    HashableHashmap(entries)
}

impl Value {
    /// A copy of this value, with the same model.
    pub fn duplicate(&self) -> (r: Value)
        ensures
            r@ == self@,
        decreases self, 0nat,
    {
        match self {
            Value::Byte(x) => Value::Byte(*x),
            Value::Bool(x) => Value::Bool(*x),
            Value::Short(x) => Value::Short(*x),
            Value::Int(x) => Value::Int(*x),
            Value::Long(x) => Value::Long(*x),
            Value::Float(x) => Value::Float(*x),
            Value::Double(x) => Value::Double(*x),
            Value::String(s) => Value::String(s.clone()),
            Value::Array(v) => Value::Array(copy_values(v)),
            Value::ObjectArray(a) => Value::ObjectArray(ObjectArray(copy_values(&a.0))),
            Value::StringArray(v) => Value::StringArray(copy_strings(v)),
            Value::IntegerArray(v) => Value::IntegerArray(slice_to_vec(v.as_slice())),
            Value::ByteArray(v) => Value::ByteArray(slice_to_vec(v.as_slice())),
            Value::Dictionary(m) => Value::Dictionary(copy_entries(m)),
            Value::HashTable(t) => Value::HashTable(HashTable(copy_entries(&t.0))),
            Value::EventData(e) => Value::EventData(
                EventData {
                    params: ParameterTable(copy_params(&e.params.0)),
                    event_code: e.event_code,
                },
            ),
            Value::OperationRequest(r) => Value::OperationRequest(
                OperationRequest {
                    opcode: r.opcode,
                    parameters: ParameterTable(copy_params(&r.parameters.0)),
                },
            ),
            Value::OperationResponse(r) => Value::OperationResponse(
                OperationResponse {
                    opcode: r.opcode,
                    return_code: r.return_code,
                    debug_message: Box::new(r.debug_message.duplicate()),
                    parameters: ParameterTable(copy_params(&r.parameters.0)),
                },
            ),
            Value::Null(()) => Value::Null(()),
        }
    }
}

impl Clone for Value {
    fn clone(&self) -> (r: Self)
        ensures
            r@ == self@,
    {
        self.duplicate()
    }
}

impl Clone for ObjectArray {
    fn clone(&self) -> (r: Self)
        ensures
            r@ == self@,
    {
        ObjectArray(copy_values(&self.0))
    }
}

impl Clone for ParameterTable {
    fn clone(&self) -> (r: Self)
        ensures
            r@ == self@,
    {
        ParameterTable(copy_params(&self.0))
    }
}

impl Clone for HashTable<Value, Value> {
    fn clone(&self) -> (r: Self)
        ensures
            r@ == self@,
    {
        HashTable(copy_entries(&self.0))
    }
}

impl Clone for EventData {
    fn clone(&self) -> (r: Self)
        ensures
            r@ == self@,
    {
        EventData {
            params: ParameterTable(copy_params(&self.params.0)),
            event_code: self.event_code,
        }
    }
}

impl Clone for OperationRequest {
    fn clone(&self) -> (r: Self)
        ensures
            r@ == self@,
    {
        OperationRequest {
            opcode: self.opcode,
            parameters: ParameterTable(copy_params(&self.parameters.0)),
        }
    }
}

impl Clone for OperationResponse {
    fn clone(&self) -> (r: Self)
        ensures
            r@ == self@,
    {
        OperationResponse {
            opcode: self.opcode,
            return_code: self.return_code,
            debug_message: Box::new(self.debug_message.duplicate()),
            parameters: ParameterTable(copy_params(&self.parameters.0)),
        }
    }
}

} // verus!
