use rcfakeclient::handler::{
    decode_message, handle_payload, is_encrypted, message_type_code, Handled,
};
use rcfakeclient::serialization::op_code::MessageType;
use rcfakeclient::serialization::{
    CustomType, DecodeError, EventData, OperationRequest, OperationResponse, ParameterTable, Value,
};
use std::collections::HashMap;

type Decoder = fn(&[u8]) -> Value;

fn handle(payload: &[u8]) -> Handled {
    let registry: HashMap<u8, CustomType<Decoder>> = HashMap::new();
    handle_payload(payload, &registry)
}

fn decoded(handled: Handled) -> (MessageType, Result<Value, DecodeError>) {
    match handled {
        Handled::Decoded(kind, result) => (kind, result),
        other => panic!("not decoded: {:?}", other),
    }
}

#[test]
fn classifier_rejects_encrypted() {
    assert!(matches!(handle(&[0xF3, 0x83, 0x01, 0x02]), Handled::Encrypted));
    assert!(matches!(handle(&[0xF3, 0x80]), Handled::Encrypted));
    assert!(matches!(handle(&[0xF3, 0xFF]), Handled::Encrypted));
    assert!(is_encrypted(0x80));
    assert!(!is_encrypted(0x7F));
    assert_eq!(message_type_code(0x83), 3);
    assert_eq!(message_type_code(0x7F), 0x7F);
}

#[test]
fn payloads_without_a_message_header_are_dropped() {
    assert!(matches!(handle(&[]), Handled::Dropped));
    assert!(matches!(handle(&[0xF3]), Handled::Dropped));
    assert!(matches!(handle(&[0xF2, 0x02, 0x00]), Handled::Dropped));
    assert!(matches!(handle(&[0x00, 0x83]), Handled::Dropped));
}

#[test]
fn message_kinds_have_their_numbers() {
    let table = [
        (0, MessageType::Init),
        (1, MessageType::InitResponse),
        (2, MessageType::Operation),
        (3, MessageType::OperationResponse),
        (4, MessageType::Event),
        (6, MessageType::InternalOperationRequest),
        (7, MessageType::InternalOperationResponse),
        (8, MessageType::Message),
        (9, MessageType::RawMessage),
    ];
    for (number, kind) in table {
        assert_eq!(MessageType::from_repr(number), Some(kind));
        assert_eq!(kind.code(), number);
    }
    assert_eq!(MessageType::from_repr(5), None);
    for number in 10..=255u8 {
        assert_eq!(MessageType::from_repr(number), None);
    }
}

#[test]
fn unknown_kinds_are_reported() {
    assert!(matches!(handle(&[0xF3, 0x05]), Handled::UnknownMessageType(5)));
    assert!(matches!(handle(&[0xF3, 0x7F, 0x00]), Handled::UnknownMessageType(0x7F)));
}

#[test]
fn kinds_without_a_body_are_ignored() {
    assert!(matches!(handle(&[0xF3, 0x00, 0xFF]), Handled::Ignored(MessageType::Init)));
    assert!(matches!(handle(&[0xF3, 0x01]), Handled::Ignored(MessageType::InitResponse)));
    assert!(matches!(handle(&[0xF3, 0x08]), Handled::Ignored(MessageType::Message)));
    assert!(matches!(handle(&[0xF3, 0x09]), Handled::Ignored(MessageType::RawMessage)));
}

#[test]
fn requests_responses_and_events_are_decoded() {
    let mut parameters = ParameterTable::new();
    parameters.insert(0xFB, Value::Int(7));
    let request = [0xF3, 0x02, 0x2A, 0x00, 0x01, 0xFB, 0x69, 0x00, 0x00, 0x00, 0x07];
    let (kind, result) = decoded(handle(&request));
    assert_eq!(kind, MessageType::Operation);
    assert_eq!(
        result,
        Ok(Value::OperationRequest(OperationRequest { opcode: 0x2A, parameters }))
    );
    let internal = [0xF3, 0x06, 0x01, 0x00, 0x00];
    let (kind, result) = decoded(handle(&internal));
    assert_eq!(kind, MessageType::InternalOperationRequest);
    assert_eq!(
        result,
        Ok(Value::OperationRequest(OperationRequest {
            opcode: 1,
            parameters: ParameterTable::new(),
        }))
    );
    for code in [0x03u8, 0x07] {
        let response = [0xF3, code, 0x09, 0x00, 0x01, 0x2A, 0x00, 0x00];
        let (kind, result) = decoded(handle(&response));
        assert_eq!(kind.code(), code);
        assert_eq!(
            result,
            Ok(Value::OperationResponse(OperationResponse {
                opcode: 9,
                return_code: 1,
                debug_message: Box::new(Value::Null(())),
                parameters: ParameterTable::new(),
            }))
        );
    }
    let event = [0xF3, 0x04, 0xC8, 0x00, 0x00];
    let (kind, result) = decoded(handle(&event));
    assert_eq!(kind, MessageType::Event);
    assert_eq!(
        result,
        Ok(Value::EventData(EventData { event_code: 0xC8, params: ParameterTable::new() }))
    );
}

#[test]
fn a_failure_of_the_decoder_is_handed_back() {
    let (kind, result) = decoded(handle(&[0xF3, 0x02]));
    assert_eq!(kind, MessageType::Operation);
    assert_eq!(result, Err(DecodeError::Truncation));
    let (_, result) = decoded(handle(&[0xF3, 0x04, 0x01, 0x00, 0x01, 0x05, 0x03]));
    assert_eq!(result, Err(DecodeError::InvalidTypeCode(3)));
    let (_, result) = decoded(handle(&[0xF3, 0x03, 0x01, 0x00, 0x00, 0x63, 0x07, 0x00, 0x00]));
    assert_eq!(result, Err(DecodeError::UnknownCustomType(7)));
}

#[test]
fn a_body_is_decoded_under_the_kind_of_its_message() {
    let registry: HashMap<u8, CustomType<Decoder>> = HashMap::new();
    let payload = [0xF3, 0x02, 0x07, 0x00, 0x00];
    let (kind, result) = decoded(decode_message(MessageType::Event, &payload, &registry));
    assert_eq!(kind, MessageType::Event);
    assert_eq!(
        result,
        Ok(Value::EventData(EventData { event_code: 7, params: ParameterTable::new() }))
    );
    assert!(matches!(
        decode_message(MessageType::Message, &payload, &registry),
        Handled::Ignored(MessageType::Message)
    ));
}

#[test]
fn custom_values_in_a_message_are_decoded_by_the_registry() {
    fn length(bytes: &[u8]) -> Value {
        Value::Int(bytes.len() as i32)
    }
    let mut registry: HashMap<u8, CustomType<Decoder>> = HashMap::new();
    registry.insert(7, CustomType::new(length as Decoder));
    let payload = [0xF3, 0x04, 0x01, 0x00, 0x01, 0x09, 0x63, 0x07, 0x00, 0x02, 0xAA, 0xBB];
    let (_, result) = decoded(handle_payload(&payload, &registry));
    let mut params = ParameterTable::new();
    params.insert(9, Value::Int(2));
    assert_eq!(result, Ok(Value::EventData(EventData { event_code: 1, params })));
}
