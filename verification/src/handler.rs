//! The classifier: what the header of a payload asks for, and the decoding
//! that follows from it.

use crate::serialization::custom::{registry_model, registry_wf, CustomType};
use crate::serialization::decode::{
    parse_event_data, parse_operation_request, parse_operation_response,
};
use crate::serialization::model::SpecValue;
use crate::serialization::op_code::MessageType;
use crate::serialization::value::Value;
use crate::serialization::wire::{
    decode_event_data, decode_operation_request, decode_operation_response, DecodeError,
    Decoders,
};
use std::collections::HashMap;
use vstd::prelude::*;

verus! {

/// First byte of every message.
pub const MESSAGE_MAGIC: u8 = 0xF3;

/// Length of the header of a message.
pub const MESSAGE_HEADER_LEN: usize = 2;

/// What became of a payload.
#[derive(Debug)]
pub enum Handled {
    /// The payload does not start with the header of a message.
    Dropped,
    /// The message is encrypted. It is not decoded.
    Encrypted,
    /// The header names a kind of message that is not known.
    UnknownMessageType(u8),
    /// The message is of a kind whose body is not decoded.
    Ignored(MessageType),
    /// The body of the message was handed to the decoder, with this outcome.
    Decoded(MessageType, Result<Value, DecodeError>),
}

/// The decoding step that a kind of message asks for on its body, if it asks
/// for one.
pub open spec fn body_of(kind: MessageType, body: Seq<u8>, decoders: Decoders) -> Option<
    Result<(SpecValue, nat), DecodeError>,
> {
    match kind {
        MessageType::Operation => Some(decode_operation_request(body, decoders)),
        MessageType::InternalOperationRequest => Some(decode_operation_request(body, decoders)),
        MessageType::OperationResponse => Some(decode_operation_response(body, decoders)),
        MessageType::InternalOperationResponse => Some(decode_operation_response(body, decoders)),
        MessageType::Event => Some(decode_event_data(body, decoders)),
        MessageType::Init => None,
        MessageType::InitResponse => None,
        MessageType::Message => None,
        MessageType::RawMessage => None,
    }
}

/// Whether `handled` is what is due on `payload`.
///
/// A payload that is shorter than two bytes or does not start with the magic
/// byte is dropped. The high bit of the second byte marks an encrypted
/// message; its other seven bits name the kind of message, and the body
/// starts behind the second byte.
pub open spec fn is_handling_of(payload: Seq<u8>, decoders: Decoders, handled: Handled) -> bool {
    if payload.len() < MESSAGE_HEADER_LEN || payload[0] != MESSAGE_MAGIC {
        handled is Dropped
    } else if payload[1] >= 128 {
        handled is Encrypted
    } else {
        match MessageType::spec_from_repr(payload[1]) {
            None => handled matches Handled::UnknownMessageType(code) && code == payload[1],
            Some(kind) => match body_of(kind, payload.skip(MESSAGE_HEADER_LEN as int), decoders) {
                None => handled matches Handled::Ignored(k) && k == kind,
                Some(Ok((value, _))) => {
                    &&& handled matches Handled::Decoded(k, Ok(v))
                    &&& k == kind
                    &&& v@ == value
                },
                Some(Err(e)) => {
                    &&& handled matches Handled::Decoded(k, Err(f))
                    &&& k == kind
                    &&& f == e
                },
            },
        }
    }
}

/// Whether the second byte of a header marks its message as encrypted.
pub fn is_encrypted(code: u8) -> (r: bool)
    ensures
        r == (code >= 128),
{
    assert((code & 0x80 != 0) == (code >= 128)) by (bit_vector);
    code & 0x80 != 0
}

/// The number of the kind of message in the second byte of a header: its
/// low seven bits.
pub fn message_type_code(code: u8) -> (r: u8)
    ensures
        r == code % 128,
{
    assert(code & 0x7f == code % 128) by (bit_vector);
    code & 0x7f
}

/// Decodes the body of a message of kind `kind`, which starts behind the
/// header of `payload`.
pub fn decode_message<F: Fn(&[u8]) -> Value>(
    kind: MessageType,
    payload: &[u8],
    registry: &HashMap<u8, CustomType<F>>,
) -> (handled: Handled)
    requires
        payload@.len() >= MESSAGE_HEADER_LEN,
        registry_wf(registry@),
    ensures
        match body_of(
            kind,
            payload@.skip(MESSAGE_HEADER_LEN as int),
            registry_model(registry@),
        ) {
            None => handled matches Handled::Ignored(k) && k == kind,
            Some(Ok((value, _))) => {
                &&& handled matches Handled::Decoded(k, Ok(v))
                &&& k == kind
                &&& v@ == value
            },
            Some(Err(e)) => {
                &&& handled matches Handled::Decoded(k, Err(f))
                &&& k == kind
                &&& f == e
            },
        },
{
    match kind {
        MessageType::Operation | MessageType::InternalOperationRequest => {
            match parse_operation_request(payload, MESSAGE_HEADER_LEN, registry) {
                Ok((request, _)) => Handled::Decoded(kind, Ok(Value::OperationRequest(request))),
                Err(e) => Handled::Decoded(kind, Err(e)),
            }
        },
        MessageType::OperationResponse | MessageType::InternalOperationResponse => {
            match parse_operation_response(payload, MESSAGE_HEADER_LEN, registry) {
                Ok((response, _)) => Handled::Decoded(
                    kind,
                    Ok(Value::OperationResponse(response)),
                ),
                Err(e) => Handled::Decoded(kind, Err(e)),
            }
        },
        MessageType::Event => {
            match parse_event_data(payload, MESSAGE_HEADER_LEN, registry) {
                Ok((event, _)) => Handled::Decoded(kind, Ok(Value::EventData(event))),
                Err(e) => Handled::Decoded(kind, Err(e)),
            }
        },
        MessageType::Init => Handled::Ignored(kind),
        MessageType::InitResponse => Handled::Ignored(kind),
        MessageType::Message => Handled::Ignored(kind),
        MessageType::RawMessage => Handled::Ignored(kind),
    }
}

/// Classifies a payload and decodes the body of the message it holds.
///
/// Nothing is decoded of an encrypted message, of a message of an unknown
/// kind, or of one whose kind has no body to decode. A failure of the decoder
/// is handed back and is no failure of the classifier.
pub fn handle_payload<F: Fn(&[u8]) -> Value>(
    payload: &[u8],
    registry: &HashMap<u8, CustomType<F>>,
) -> (handled: Handled)
    requires
        registry_wf(registry@),
    ensures
        is_handling_of(payload@, registry_model(registry@), handled),
{
    if payload.len() < MESSAGE_HEADER_LEN || payload[0] != MESSAGE_MAGIC {
        return Handled::Dropped;
    }
    let code: u8 = payload[1];
    if is_encrypted(code) {
        return Handled::Encrypted;
    }
    let kind_code: u8 = message_type_code(code);
    match MessageType::from_repr(kind_code) {
        Some(kind) => decode_message(kind, payload, registry),
        None => Handled::UnknownMessageType(kind_code),
    }
}

} // verus!
