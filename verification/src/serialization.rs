//! The value model and the decoder of the wire format.

pub mod cloning;
pub mod conversions;
pub mod custom;
pub mod decode;
pub mod deserializer;
pub mod encoding;
pub mod eq_impls;
pub mod equality;
pub mod hashing;
pub mod laws;
pub mod maps;
pub mod model;
pub mod op_code;
pub mod type_code;
pub mod value;
pub mod wire;

pub use custom::CustomType;
pub use deserializer::{Cursor, StreamDeserializer};
pub use value::{
    EventData, HashTable, ObjectArray, OperationRequest, OperationResponse, ParameterTable, Value,
};
pub use wire::DecodeError;
