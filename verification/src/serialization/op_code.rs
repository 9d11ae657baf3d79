//! The message kinds that the second byte of a message header selects.

use vstd::prelude::*;

verus! {

/// Kind of a message, from the low seven bits of the header's second byte.
#[derive(Clone, Copy, PartialEq, Eq, Debug, Structural)]
pub enum MessageType {
    Init,
    InitResponse,
    Operation,
    OperationResponse,
    Event,
    InternalOperationRequest,
    InternalOperationResponse,
    Message,
    RawMessage,
}

impl MessageType {
    /// The number that stands for this kind.
    pub open spec fn spec_code(self) -> u8 {
        match self {
            MessageType::Init => 0,
            MessageType::InitResponse => 1,
            MessageType::Operation => 2,
            MessageType::OperationResponse => 3,
            MessageType::Event => 4,
            MessageType::InternalOperationRequest => 6,
            MessageType::InternalOperationResponse => 7,
            MessageType::Message => 8,
            MessageType::RawMessage => 9,
        }
    }

    /// The kind that a number stands for, if it stands for one.
    pub open spec fn spec_from_repr(code: u8) -> Option<MessageType> {
        if code == 0 {
            Some(MessageType::Init)
        } else if code == 1 {
            Some(MessageType::InitResponse)
        } else if code == 2 {
            Some(MessageType::Operation)
        } else if code == 3 {
            Some(MessageType::OperationResponse)
        } else if code == 4 {
            Some(MessageType::Event)
        } else if code == 6 {
            Some(MessageType::InternalOperationRequest)
        } else if code == 7 {
            Some(MessageType::InternalOperationResponse)
        } else if code == 8 {
            Some(MessageType::Message)
        } else if code == 9 {
            Some(MessageType::RawMessage)
        } else {
            None
        }
    }

    /// The number that stands for this kind.
    #[verifier::when_used_as_spec(spec_code)]
    pub fn code(self) -> (c: u8)
        ensures
            c == self.spec_code(),
    {
        match self {
            MessageType::Init => 0,
            MessageType::InitResponse => 1,
            MessageType::Operation => 2,
            MessageType::OperationResponse => 3,
            MessageType::Event => 4,
            MessageType::InternalOperationRequest => 6,
            MessageType::InternalOperationResponse => 7,
            MessageType::Message => 8,
            MessageType::RawMessage => 9,
        }
    }

    /// Reads a number as a message kind; `None` for 5 and for 10 and above.
    #[verifier::when_used_as_spec(spec_from_repr)]
    pub fn from_repr(code: u8) -> (r: Option<MessageType>)
        ensures
            r == Self::spec_from_repr(code),
    {
        match code {
            0 => Some(MessageType::Init),
            1 => Some(MessageType::InitResponse),
            2 => Some(MessageType::Operation),
            3 => Some(MessageType::OperationResponse),
            4 => Some(MessageType::Event),
            6 => Some(MessageType::InternalOperationRequest),
            7 => Some(MessageType::InternalOperationResponse),
            8 => Some(MessageType::Message),
            9 => Some(MessageType::RawMessage),
            _ => None,
        }
    }

    /// A kind is read back from its own number, and a number that is read as
    /// a kind is that kind's number.
    pub proof fn lemma_code_round_trip(kind: MessageType, byte: u8)
        ensures
            Self::spec_from_repr(kind.spec_code()) == Some(kind),
            Self::spec_from_repr(byte) == Some(kind) ==> kind.spec_code() == byte,
    {
    }
}

} // verus!
