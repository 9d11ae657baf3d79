//! The one-byte tags that select a variant of the value model.

use vstd::prelude::*;

verus! {

/// Tag of a value on the wire.
#[derive(Clone, Copy, PartialEq, Eq, Debug, Structural)]
pub enum TypeCode {
    Null,
    Unknown,
    Boolean,
    Byte,
    Short,
    Integer,
    Long,
    Double,
    Float,
    String,
    Custom,
    Hashtable,
    Dictionary,
    Array,
    ObjectArray,
    StringArray,
    IntegerArray,
    ByteArray,
    EventData,
    OperationResponse,
    OperationRequest,
}

impl TypeCode {
    /// The byte that stands for this tag.
    pub open spec fn spec_code(self) -> u8 {
        match self {
            TypeCode::Null => 42,
            TypeCode::Unknown => 0,
            TypeCode::Boolean => 111,
            TypeCode::Byte => 98,
            TypeCode::Short => 107,
            TypeCode::Integer => 105,
            TypeCode::Long => 108,
            TypeCode::Double => 100,
            TypeCode::Float => 102,
            TypeCode::String => 115,
            TypeCode::Custom => 99,
            TypeCode::Hashtable => 104,
            TypeCode::Dictionary => 68,
            TypeCode::Array => 121,
            TypeCode::ObjectArray => 122,
            TypeCode::StringArray => 97,
            TypeCode::IntegerArray => 110,
            TypeCode::ByteArray => 120,
            TypeCode::EventData => 101,
            TypeCode::OperationResponse => 112,
            TypeCode::OperationRequest => 113,
        }
    }

    /// The tag that a byte stands for, if it stands for one.
    pub open spec fn spec_from_repr(code: u8) -> Option<TypeCode> {
        if code == 42 {
            Some(TypeCode::Null)
        } else if code == 0 {
            Some(TypeCode::Unknown)
        } else if code == 111 {
            Some(TypeCode::Boolean)
        } else if code == 98 {
            Some(TypeCode::Byte)
        } else if code == 107 {
            Some(TypeCode::Short)
        } else if code == 105 {
            Some(TypeCode::Integer)
        } else if code == 108 {
            Some(TypeCode::Long)
        } else if code == 100 {
            Some(TypeCode::Double)
        } else if code == 102 {
            Some(TypeCode::Float)
        } else if code == 115 {
            Some(TypeCode::String)
        } else if code == 99 {
            Some(TypeCode::Custom)
        } else if code == 104 {
            Some(TypeCode::Hashtable)
        } else if code == 68 {
            Some(TypeCode::Dictionary)
        } else if code == 121 {
            Some(TypeCode::Array)
        } else if code == 122 {
            Some(TypeCode::ObjectArray)
        } else if code == 97 {
            Some(TypeCode::StringArray)
        } else if code == 110 {
            Some(TypeCode::IntegerArray)
        } else if code == 120 {
            Some(TypeCode::ByteArray)
        } else if code == 101 {
            Some(TypeCode::EventData)
        } else if code == 112 {
            Some(TypeCode::OperationResponse)
        } else if code == 113 {
            Some(TypeCode::OperationRequest)
        } else {
            None
        }
    }

    /// The byte that stands for this tag.
    #[verifier::when_used_as_spec(spec_code)]
    pub fn code(self) -> (c: u8)
        ensures
            c == self.spec_code(),
    {
        match self {
            TypeCode::Null => 42,
            TypeCode::Unknown => 0,
            TypeCode::Boolean => 111,
            TypeCode::Byte => 98,
            TypeCode::Short => 107,
            TypeCode::Integer => 105,
            TypeCode::Long => 108,
            TypeCode::Double => 100,
            TypeCode::Float => 102,
            TypeCode::String => 115,
            TypeCode::Custom => 99,
            TypeCode::Hashtable => 104,
            TypeCode::Dictionary => 68,
            TypeCode::Array => 121,
            TypeCode::ObjectArray => 122,
            TypeCode::StringArray => 97,
            TypeCode::IntegerArray => 110,
            TypeCode::ByteArray => 120,
            TypeCode::EventData => 101,
            TypeCode::OperationResponse => 112,
            TypeCode::OperationRequest => 113,
        }
    }

    /// Reads a byte as a tag; `None` for a byte that is no tag.
    #[verifier::when_used_as_spec(spec_from_repr)]
    pub fn from_repr(code: u8) -> (r: Option<TypeCode>)
        ensures
            r == Self::spec_from_repr(code),
    {
        match code {
            42 => Some(TypeCode::Null),
            0 => Some(TypeCode::Unknown),
            111 => Some(TypeCode::Boolean),
            98 => Some(TypeCode::Byte),
            107 => Some(TypeCode::Short),
            105 => Some(TypeCode::Integer),
            108 => Some(TypeCode::Long),
            100 => Some(TypeCode::Double),
            102 => Some(TypeCode::Float),
            115 => Some(TypeCode::String),
            99 => Some(TypeCode::Custom),
            104 => Some(TypeCode::Hashtable),
            68 => Some(TypeCode::Dictionary),
            121 => Some(TypeCode::Array),
            122 => Some(TypeCode::ObjectArray),
            97 => Some(TypeCode::StringArray),
            110 => Some(TypeCode::IntegerArray),
            120 => Some(TypeCode::ByteArray),
            101 => Some(TypeCode::EventData),
            112 => Some(TypeCode::OperationResponse),
            113 => Some(TypeCode::OperationRequest),
            _ => None,
        }
    }

    /// A tag is read back from its own byte, and a byte that is read as a tag
    /// is that tag's byte.
    pub proof fn lemma_code_round_trip(tag: TypeCode, byte: u8)
        ensures
            Self::spec_from_repr(tag.spec_code()) == Some(tag),
            Self::spec_from_repr(byte) == Some(tag) ==> tag.spec_code() == byte,
    {
    }
}

} // verus!
