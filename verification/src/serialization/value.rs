//! The decoded values as they are held in memory, and their models.

use crate::serialization::model::{valid, Entries, SpecValue};
use crate::util::{HashableDouble, HashableFloat, HashableHashmap};
use vstd::prelude::*;

verus! {

/// A decoded value.
#[derive(Debug)]
pub enum Value {
    Byte(u8),
    Bool(bool),
    Short(i16),
    Int(i32),
    Long(i64),
    Float(HashableFloat),
    Double(HashableDouble),
    String(String),
    /// Values that were all decoded under one declared element type.
    Array(Vec<Value>),
    /// Values that each carried a type tag of their own.
    ObjectArray(ObjectArray),
    StringArray(Vec<String>),
    IntegerArray(Vec<i32>),
    ByteArray(Vec<u8>),
    /// A map whose key and value types were declared once, in its header.
    Dictionary(HashableHashmap<Value, Value>),
    /// A map whose entries each carried their own key and value tags.
    HashTable(HashTable<Value, Value>),
    EventData(EventData),
    OperationRequest(OperationRequest),
    OperationResponse(OperationResponse),
    Null(()),
}

/// An event: its code and its parameters.
#[derive(Debug)]
pub struct EventData {
    pub params: ParameterTable,
    pub event_code: u8,
}

/// The answer to an operation.
#[derive(Debug)]
pub struct OperationResponse {
    pub opcode: u8,
    pub return_code: i16,
    pub debug_message: Box<Value>,
    pub parameters: ParameterTable,
}

/// A request for an operation.
#[derive(Debug)]
pub struct OperationRequest {
    pub opcode: u8,
    pub parameters: ParameterTable,
}

/// A map from a one-byte key to a value.
#[derive(Debug)]
pub struct ParameterTable(pub HashableHashmap<u8, Value>);

/// A map whose entries are tagged one by one on the wire.
#[derive(Debug)]
pub struct HashTable<K, V>(pub HashableHashmap<K, V>);

/// A sequence of values that are tagged one by one on the wire.
#[derive(Debug)]
pub struct ObjectArray(pub Vec<Value>);

/// The models of a sequence of values.
pub open spec fn values_view(s: Seq<Value>) -> Seq<SpecValue>
    decreases s,
{
    Seq::new(
        s.len(),
        |i: int|
            if 0 <= i < s.len() {
                s[i].view()
            } else {
                SpecValue::Null
            },
    )
}

/// The models of the entries of a map from values to values.
pub open spec fn entries_view(s: Seq<(Value, Value)>) -> Entries
    decreases s,
{
    Seq::new(
        s.len(),
        |i: int|
            if 0 <= i < s.len() {
                (s[i].0.view(), s[i].1.view())
            } else {
                (SpecValue::Null, SpecValue::Null)
            },
    )
}

/// The models of the entries of a parameter table: each key is a `Byte`.
pub open spec fn params_view(s: Seq<(u8, Value)>) -> Entries
    decreases s,
{
    Seq::new(
        s.len(),
        |i: int|
            if 0 <= i < s.len() {
                (SpecValue::Byte(s[i].0), s[i].1.view())
            } else {
                (SpecValue::Null, SpecValue::Null)
            },
    )
}

/// The models of a sequence of strings.
pub open spec fn strings_view(s: Seq<String>) -> Seq<Seq<char>> {
    Seq::new(s.len(), |i: int| s[i]@)
}

impl Value {
    /// The model of this value.
    pub open spec fn view(&self) -> SpecValue
        decreases self,
    {
        match self {
            Value::Byte(x) => SpecValue::Byte(*x),
            Value::Bool(x) => SpecValue::Bool(*x),
            Value::Short(x) => SpecValue::Short(*x),
            Value::Int(x) => SpecValue::Int(*x),
            Value::Long(x) => SpecValue::Long(*x),
            Value::Float(x) => SpecValue::Float(x.0),
            Value::Double(x) => SpecValue::Double(x.0),
            Value::String(s) => SpecValue::String(s@),
            Value::Array(v) => SpecValue::Array(values_view(v@)),
            Value::ObjectArray(a) => SpecValue::ObjectArray(values_view(a.0@)),
            Value::StringArray(v) => SpecValue::StringArray(strings_view(v@)),
            Value::IntegerArray(v) => SpecValue::IntegerArray(v@),
            Value::ByteArray(v) => SpecValue::ByteArray(v@),
            Value::Dictionary(m) => SpecValue::Dictionary(entries_view(m@)),
            Value::HashTable(t) => SpecValue::HashTable(entries_view(t.0@)),
            Value::EventData(e) => SpecValue::EventData {
                event_code: e.event_code,
                params: params_view(e.params.0@),
            },
            Value::OperationRequest(r) => SpecValue::OperationRequest {
                opcode: r.opcode,
                params: params_view(r.parameters.0@),
            },
            Value::OperationResponse(r) => SpecValue::OperationResponse {
                opcode: r.opcode,
                return_code: r.return_code,
                debug_message: Box::new(r.debug_message.view()),
                params: params_view(r.parameters.0@),
            },
            Value::Null(()) => SpecValue::Null,
        }
    }

    /// Whether no map inside this value holds a key twice and every
    /// collection inside it fits its count on the wire.
    pub open spec fn is_valid(&self) -> bool {
        valid(self@)
    }
}

impl View for ObjectArray {
    type V = Seq<SpecValue>;

    open spec fn view(&self) -> Seq<SpecValue> {
        values_view(self.0@)
    }
}

impl View for ParameterTable {
    type V = Entries;

    open spec fn view(&self) -> Entries {
        params_view(self.0@)
    }
}

impl View for HashTable<Value, Value> {
    type V = Entries;

    open spec fn view(&self) -> Entries {
        entries_view(self.0@)
    }
}

impl View for EventData {
    type V = SpecValue;

    open spec fn view(&self) -> SpecValue {
        SpecValue::EventData { event_code: self.event_code, params: self.params@ }
    }
}

impl View for OperationRequest {
    type V = SpecValue;

    open spec fn view(&self) -> SpecValue {
        SpecValue::OperationRequest { opcode: self.opcode, params: self.parameters@ }
    }
}

impl View for OperationResponse {
    type V = SpecValue;

    open spec fn view(&self) -> SpecValue {
        SpecValue::OperationResponse {
            opcode: self.opcode,
            return_code: self.return_code,
            debug_message: Box::new(self.debug_message.view()),
            params: self.parameters@,
        }
    }
}

/// One more value gives one more model.
pub proof fn lemma_values_view_push(s: Seq<Value>, x: Value)
    ensures
        values_view(s.push(x)) == values_view(s).push(x@),
{
    assert(values_view(s.push(x)) =~= values_view(s).push(x@));
}

/// One more string gives one more model.
pub proof fn lemma_strings_view_push(s: Seq<String>, x: String)
    ensures
        strings_view(s.push(x)) == strings_view(s).push(x@),
{
    assert(strings_view(s.push(x)) =~= strings_view(s).push(x@));
}

/// The models of nothing are nothing: of no values, of no strings, of a map
/// without entries and of a parameter table without entries.
pub proof fn lemma_views_of_nothing()
    ensures
        values_view(Seq::<Value>::empty()) == Seq::<SpecValue>::empty(),
        strings_view(Seq::<String>::empty()) == Seq::<Seq<char>>::empty(),
        entries_view(Seq::<(Value, Value)>::empty()) == Seq::<(SpecValue, SpecValue)>::empty(),
        params_view(Seq::<(u8, Value)>::empty()) == Seq::<(SpecValue, SpecValue)>::empty(),
{
    assert(values_view(Seq::<Value>::empty()) =~= Seq::<SpecValue>::empty());
    assert(strings_view(Seq::<String>::empty()) =~= Seq::<Seq<char>>::empty());
    assert(entries_view(Seq::<(Value, Value)>::empty()) =~= Seq::<
        (SpecValue, SpecValue),
    >::empty());
    assert(params_view(Seq::<(u8, Value)>::empty()) =~= Seq::<(SpecValue, SpecValue)>::empty());
}

/// The values behind the first of two runs that follow each other are the
/// second run, and those before are the first.
pub proof fn lemma_values_appended(before: Seq<Value>, added: Seq<Value>)
    ensures
        (before + added).skip(before.len() as int) == added,
        (before + added).take(before.len() as int) == before,
        (before + added).len() == before.len() + added.len(),
{
    assert((before + added).skip(before.len() as int) =~= added);
    assert((before + added).take(before.len() as int) =~= before);
}

/// One more entry gives one more model.
pub proof fn lemma_entries_view_push(s: Seq<(Value, Value)>, x: (Value, Value))
    ensures
        entries_view(s.push(x)) == entries_view(s).push((x.0@, x.1@)),
{
    assert(entries_view(s.push(x)) =~= entries_view(s).push((x.0@, x.1@)));
}

/// One more parameter gives one more model.
pub proof fn lemma_params_view_push(s: Seq<(u8, Value)>, x: (u8, Value))
    ensures
        params_view(s.push(x)) == params_view(s).push((SpecValue::Byte(x.0), x.1@)),
{
    assert(params_view(s.push(x)) =~= params_view(s).push((SpecValue::Byte(x.0), x.1@)));
}

/// A sequence is its own prefix of full length.
pub proof fn lemma_take_all<T>(s: Seq<T>)
    ensures
        s.take(s.len() as int) == s,
{
    assert(s.take(s.len() as int) =~= s);
}

} // verus!
