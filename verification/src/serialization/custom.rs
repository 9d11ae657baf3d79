//! Decoders that an application registers for its own value kinds.

use crate::serialization::model::{valid, SpecValue};
use crate::serialization::value::Value;
use crate::serialization::wire::Decoders;
use vstd::prelude::*;

verus! {

/// Whether the decoder `f` can give a value with model `m` on the bytes `b`.
pub open spec fn produces<F: Fn(&[u8]) -> Value>(f: F, b: Seq<u8>, m: SpecValue) -> bool {
    exists|bytes: &[u8], v: Value|
        bytes@ == b && #[trigger] call_ensures(f, (bytes,), v) && v@ == m
}

/// The function on byte strings that a decoder computes.
pub open spec fn decoder_model<F: Fn(&[u8]) -> Value>(f: F) -> spec_fn(Seq<u8>) -> SpecValue {
    |b: Seq<u8>| choose|m: SpecValue| produces(f, b, m)
}

/// What the library asks of a decoder: it accepts every byte string, two
/// runs on the same bytes give the same value, and that value is valid.
pub open spec fn decoder_wf<F: Fn(&[u8]) -> Value>(f: F) -> bool {
    &&& forall|bytes: &[u8]| #[trigger] call_requires(f, (bytes,))
    &&& forall|b1: &[u8], b2: &[u8], v1: Value, v2: Value|
        b1@ == b2@ && #[trigger] call_ensures(f, (b1,), v1) && #[trigger] call_ensures(
            f,
            (b2,),
            v2,
        ) ==> v1@ == v2@
    &&& forall|bytes: &[u8], v: Value| #[trigger] call_ensures(f, (bytes,), v) ==> valid(v@)
}

/// The decoder of one custom type.
pub struct CustomType<F> {
    pub deserialize: F,
}

impl<F: Fn(&[u8]) -> Value> CustomType<F> {
    /// Wraps a decoder.
    pub fn new(deserialize: F) -> (c: Self)
        ensures
            c.deserialize == deserialize,
    {
        CustomType { deserialize }
    }

    /// The function on byte strings that this decoder computes.
    pub open spec fn model(&self) -> spec_fn(Seq<u8>) -> SpecValue {
        decoder_model(self.deserialize)
    }

    /// Whether the decoder is one that the library can call: see
    /// [`decoder_wf`].
    pub open spec fn wf(&self) -> bool {
        decoder_wf(self.deserialize)
    }

    /// Runs the decoder on `bytes`.
    pub fn decode(&self, bytes: &[u8]) -> (v: Value)
        requires
            self.wf(),
        ensures
            v@ == self.model()(bytes@),
            valid(v@),
    {
        let v = (self.deserialize)(bytes);
        assert(call_ensures(self.deserialize, (bytes,), v));
        assert(produces(self.deserialize, bytes@, v@));
        v
    }
}

/// Whether every registered decoder is one that the library can call.
pub open spec fn registry_wf<F: Fn(&[u8]) -> Value>(registry: Map<u8, CustomType<F>>) -> bool {
    forall|code: u8| registry.contains_key(code) ==> (#[trigger] registry[code]).wf()
}

/// The registered decoders, as functions on byte strings.
pub open spec fn registry_model<F: Fn(&[u8]) -> Value>(
    registry: Map<u8, CustomType<F>>,
) -> Decoders {
    Map::new(|code: u8| registry.contains_key(code), |code: u8| registry[code].model())
}

} // verus!
