//! `==` on decoded values: the equality of the model.

use crate::serialization::equality::{entries_equal, params_equal, values_equal};
use crate::serialization::model::{equiv, map_equiv, seq_equiv};
use crate::serialization::value::{
    entries_view, params_view, EventData, HashTable, ObjectArray, OperationRequest,
    OperationResponse, ParameterTable, Value,
};
use crate::util::HashableHashmap;
use vstd::prelude::*;
use vstd::std_specs::cmp::PartialEqSpecImpl;

verus! {

impl PartialEq for Value {
    fn eq(&self, other: &Self) -> (r: bool) {
        self.equals(other)
    }
}

impl PartialEqSpecImpl for Value {
    open spec fn obeys_eq_spec() -> bool {
        true
    }

    open spec fn eq_spec(&self, other: &Self) -> bool {
        equiv(self@, other@)
    }
}

impl Eq for Value {

}

impl PartialEq for ObjectArray {
    fn eq(&self, other: &Self) -> (r: bool) {
        values_equal(&self.0, &other.0)
    }
}

impl PartialEqSpecImpl for ObjectArray {
    open spec fn obeys_eq_spec() -> bool {
        true
    }

    open spec fn eq_spec(&self, other: &Self) -> bool {
        seq_equiv(self@, other@)
    }
}

impl Eq for ObjectArray {

}

impl PartialEq for HashableHashmap<Value, Value> {
    fn eq(&self, other: &Self) -> (r: bool) {
        entries_equal(self, other)
    }
}

impl PartialEqSpecImpl for HashableHashmap<Value, Value> {
    open spec fn obeys_eq_spec() -> bool {
        true
    }

    open spec fn eq_spec(&self, other: &Self) -> bool {
        map_equiv(entries_view(self@), entries_view(other@))
    }
}

impl Eq for HashableHashmap<Value, Value> {

}

impl PartialEq for HashableHashmap<u8, Value> {
    fn eq(&self, other: &Self) -> (r: bool) {
        params_equal(self, other)
    }
}

impl PartialEqSpecImpl for HashableHashmap<u8, Value> {
    open spec fn obeys_eq_spec() -> bool {
        true
    }

    open spec fn eq_spec(&self, other: &Self) -> bool {
        map_equiv(params_view(self@), params_view(other@))
    }
}

impl Eq for HashableHashmap<u8, Value> {

}

impl PartialEq for HashTable<Value, Value> {
    fn eq(&self, other: &Self) -> (r: bool) {
        entries_equal(&self.0, &other.0)
    }
}

impl PartialEqSpecImpl for HashTable<Value, Value> {
    open spec fn obeys_eq_spec() -> bool {
        true
    }

    open spec fn eq_spec(&self, other: &Self) -> bool {
        map_equiv(self@, other@)
    }
}

impl Eq for HashTable<Value, Value> {

}

impl PartialEq for ParameterTable {
    fn eq(&self, other: &Self) -> (r: bool) {
        params_equal(&self.0, &other.0)
    }
}

impl PartialEqSpecImpl for ParameterTable {
    open spec fn obeys_eq_spec() -> bool {
        true
    }

    open spec fn eq_spec(&self, other: &Self) -> bool {
        map_equiv(self@, other@)
    }
}

impl Eq for ParameterTable {

}

impl PartialEq for EventData {
    fn eq(&self, other: &Self) -> (r: bool) {
        self.event_code == other.event_code && params_equal(&self.params.0, &other.params.0)
    }
}

impl PartialEqSpecImpl for EventData {
    open spec fn obeys_eq_spec() -> bool {
        true
    }

    open spec fn eq_spec(&self, other: &Self) -> bool {
        equiv(self@, other@)
    }
}

impl Eq for EventData {

}

impl PartialEq for OperationRequest {
    fn eq(&self, other: &Self) -> (r: bool) {
        self.opcode == other.opcode && params_equal(&self.parameters.0, &other.parameters.0)
    }
}

impl PartialEqSpecImpl for OperationRequest {
    open spec fn obeys_eq_spec() -> bool {
        true
    }

    open spec fn eq_spec(&self, other: &Self) -> bool {
        equiv(self@, other@)
    }
}

impl Eq for OperationRequest {

}

impl PartialEq for OperationResponse {
    fn eq(&self, other: &Self) -> (r: bool) {
        self.opcode == other.opcode && self.return_code == other.return_code
            && self.debug_message.equals(&other.debug_message) && params_equal(
            &self.parameters.0,
            &other.parameters.0,
        )
    }
}

impl PartialEqSpecImpl for OperationResponse {
    open spec fn obeys_eq_spec() -> bool {
        true
    }

    open spec fn eq_spec(&self, other: &Self) -> bool {
        equiv(self@, other@)
    }
}

impl Eq for OperationResponse {

}

} // verus!
