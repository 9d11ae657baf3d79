//! Each kind of payload makes the value that holds it.

use crate::serialization::value::{
    EventData, HashTable, ObjectArray, OperationRequest, OperationResponse, Value,
};
use crate::util::{HashableDouble, HashableFloat, HashableHashmap};
use vstd::prelude::*;
use vstd::std_specs::convert::FromSpecImpl;

verus! {

impl From<u8> for Value {
    fn from(x: u8) -> (r: Value) {
        Value::Byte(x)
    }
}

impl FromSpecImpl<u8> for Value {
    open spec fn obeys_from_spec() -> bool {
        true
    }

    open spec fn from_spec(x: u8) -> Value {
        Value::Byte(x)
    }
}

impl From<bool> for Value {
    fn from(x: bool) -> (r: Value) {
        Value::Bool(x)
    }
}

impl FromSpecImpl<bool> for Value {
    open spec fn obeys_from_spec() -> bool {
        true
    }

    open spec fn from_spec(x: bool) -> Value {
        Value::Bool(x)
    }
}

impl From<i16> for Value {
    fn from(x: i16) -> (r: Value) {
        Value::Short(x)
    }
}

impl FromSpecImpl<i16> for Value {
    open spec fn obeys_from_spec() -> bool {
        true
    }

    open spec fn from_spec(x: i16) -> Value {
        Value::Short(x)
    }
}

impl From<i32> for Value {
    fn from(x: i32) -> (r: Value) {
        Value::Int(x)
    }
}

impl FromSpecImpl<i32> for Value {
    open spec fn obeys_from_spec() -> bool {
        true
    }

    open spec fn from_spec(x: i32) -> Value {
        Value::Int(x)
    }
}

impl From<i64> for Value {
    fn from(x: i64) -> (r: Value) {
        Value::Long(x)
    }
}

impl FromSpecImpl<i64> for Value {
    open spec fn obeys_from_spec() -> bool {
        true
    }

    open spec fn from_spec(x: i64) -> Value {
        Value::Long(x)
    }
}

impl From<HashableFloat> for Value {
    fn from(x: HashableFloat) -> (r: Value) {
        Value::Float(x)
    }
}

impl FromSpecImpl<HashableFloat> for Value {
    open spec fn obeys_from_spec() -> bool {
        true
    }

    open spec fn from_spec(x: HashableFloat) -> Value {
        Value::Float(x)
    }
}

impl From<HashableDouble> for Value {
    fn from(x: HashableDouble) -> (r: Value) {
        Value::Double(x)
    }
}

impl FromSpecImpl<HashableDouble> for Value {
    open spec fn obeys_from_spec() -> bool {
        true
    }

    open spec fn from_spec(x: HashableDouble) -> Value {
        Value::Double(x)
    }
}

impl From<String> for Value {
    fn from(x: String) -> (r: Value) {
        Value::String(x)
    }
}

impl FromSpecImpl<String> for Value {
    open spec fn obeys_from_spec() -> bool {
        true
    }

    open spec fn from_spec(x: String) -> Value {
        Value::String(x)
    }
}

impl From<Vec<Value>> for Value {
    fn from(x: Vec<Value>) -> (r: Value) {
        Value::Array(x)
    }
}

impl FromSpecImpl<Vec<Value>> for Value {
    open spec fn obeys_from_spec() -> bool {
        true
    }

    open spec fn from_spec(x: Vec<Value>) -> Value {
        Value::Array(x)
    }
}

impl From<ObjectArray> for Value {
    fn from(x: ObjectArray) -> (r: Value) {
        Value::ObjectArray(x)
    }
}

impl FromSpecImpl<ObjectArray> for Value {
    open spec fn obeys_from_spec() -> bool {
        true
    }

    open spec fn from_spec(x: ObjectArray) -> Value {
        Value::ObjectArray(x)
    }
}

impl From<Vec<String>> for Value {
    fn from(x: Vec<String>) -> (r: Value) {
        Value::StringArray(x)
    }
}

impl FromSpecImpl<Vec<String>> for Value {
    open spec fn obeys_from_spec() -> bool {
        true
    }

    open spec fn from_spec(x: Vec<String>) -> Value {
        Value::StringArray(x)
    }
}

impl From<Vec<i32>> for Value {
    fn from(x: Vec<i32>) -> (r: Value) {
        Value::IntegerArray(x)
    }
}

impl FromSpecImpl<Vec<i32>> for Value {
    open spec fn obeys_from_spec() -> bool {
        true
    }

    open spec fn from_spec(x: Vec<i32>) -> Value {
        Value::IntegerArray(x)
    }
}

impl From<Vec<u8>> for Value {
    fn from(x: Vec<u8>) -> (r: Value) {
        Value::ByteArray(x)
    }
}

impl FromSpecImpl<Vec<u8>> for Value {
    open spec fn obeys_from_spec() -> bool {
        true
    }

    open spec fn from_spec(x: Vec<u8>) -> Value {
        Value::ByteArray(x)
    }
}

impl From<HashableHashmap<Value, Value>> for Value {
    fn from(x: HashableHashmap<Value, Value>) -> (r: Value) {
        Value::Dictionary(x)
    }
}

impl FromSpecImpl<HashableHashmap<Value, Value>> for Value {
    open spec fn obeys_from_spec() -> bool {
        true
    }

    open spec fn from_spec(x: HashableHashmap<Value, Value>) -> Value {
        Value::Dictionary(x)
    }
}

impl From<HashTable<Value, Value>> for Value {
    fn from(x: HashTable<Value, Value>) -> (r: Value) {
        Value::HashTable(x)
    }
}

impl FromSpecImpl<HashTable<Value, Value>> for Value {
    open spec fn obeys_from_spec() -> bool {
        true
    }

    open spec fn from_spec(x: HashTable<Value, Value>) -> Value {
        Value::HashTable(x)
    }
}

impl From<EventData> for Value {
    fn from(x: EventData) -> (r: Value) {
        Value::EventData(x)
    }
}

impl FromSpecImpl<EventData> for Value {
    open spec fn obeys_from_spec() -> bool {
        true
    }

    open spec fn from_spec(x: EventData) -> Value {
        Value::EventData(x)
    }
}

impl From<OperationRequest> for Value {
    fn from(x: OperationRequest) -> (r: Value) {
        Value::OperationRequest(x)
    }
}

impl FromSpecImpl<OperationRequest> for Value {
    open spec fn obeys_from_spec() -> bool {
        true
    }

    open spec fn from_spec(x: OperationRequest) -> Value {
        Value::OperationRequest(x)
    }
}

impl From<OperationResponse> for Value {
    fn from(x: OperationResponse) -> (r: Value) {
        Value::OperationResponse(x)
    }
}

impl FromSpecImpl<OperationResponse> for Value {
    open spec fn obeys_from_spec() -> bool {
        true
    }

    open spec fn from_spec(x: OperationResponse) -> Value {
        Value::OperationResponse(x)
    }
}

impl From<()> for Value {
    fn from(x: ()) -> (r: Value) {
        Value::Null(())
    }
}

impl FromSpecImpl<()> for Value {
    open spec fn obeys_from_spec() -> bool {
        true
    }

    open spec fn from_spec(x: ()) -> Value {
        Value::Null(())
    }
}

} // verus!
