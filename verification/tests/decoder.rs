use rcfakeclient::serialization::type_code::TypeCode;
use rcfakeclient::serialization::{
    Cursor, CustomType, DecodeError, EventData, HashTable, ObjectArray, OperationRequest,
    OperationResponse, ParameterTable, StreamDeserializer, Value,
};
use rcfakeclient::util::{HashableDouble, HashableFloat, HashableHashmap};

type Decoder = fn(&[u8]) -> Value;

fn deserializer(data: &[u8]) -> StreamDeserializer<'_, Decoder> {
    StreamDeserializer::new(Cursor::new(data))
}

fn wrap_bytes(bytes: &[u8]) -> Value {
    Value::ByteArray(bytes.to_vec())
}

fn count_bytes(bytes: &[u8]) -> Value {
    Value::Int(bytes.len() as i32)
}

fn dictionary(entries: Vec<(Value, Value)>) -> HashableHashmap<Value, Value> {
    let mut map: HashableHashmap<Value, Value> = HashableHashmap::new();
    for (key, value) in entries {
        map.insert(key, value);
    }
    map
}

fn parameters(entries: Vec<(u8, Value)>) -> ParameterTable {
    let mut table = ParameterTable::new();
    for (key, value) in entries {
        table.insert(key, value);
    }
    table
}

#[test]
fn decodes_a_short() {
    let bytes = [0x6B, 0x00, 0x2A];
    let mut des = deserializer(&bytes);
    des.reader.set_position(1);
    assert_eq!(des.deserialize(0x6B), Ok(Value::Short(42)));
    assert_eq!(des.reader.position(), 3);
}

#[test]
fn decodes_a_string() {
    let bytes = [0x73, 0x00, 0x05, 0x48, 0x65, 0x6C, 0x6C, 0x6F];
    let mut des = deserializer(&bytes);
    des.reader.set_position(1);
    assert_eq!(des.deserialize(0x73), Ok(Value::String("Hello".to_string())));
    assert_eq!(des.reader.position(), 8);
}

#[test]
fn decodes_a_homogeneous_int_array() {
    let bytes = [
        0x79, 0x00, 0x03, 0x69, 0x00, 0x00, 0x00, 0x01, 0x00, 0x00, 0x00, 0x02, 0x00, 0x00, 0x00,
        0x03,
    ];
    let mut des = deserializer(&bytes);
    des.reader.set_position(1);
    assert_eq!(
        des.deserialize(0x79),
        Ok(Value::Array(vec![Value::Int(1), Value::Int(2), Value::Int(3)]))
    );
    assert_eq!(des.reader.position(), 16);
}

#[test]
fn decodes_a_parameter_table_inside_an_operation_request() {
    let bytes = [0x2A, 0x00, 0x01, 0xFB, 0x69, 0x00, 0x00, 0x00, 0x07];
    let mut des = deserializer(&bytes);
    assert_eq!(
        des.deserialize_operation_request(),
        Ok(OperationRequest { opcode: 0x2A, parameters: parameters(vec![(0xFB, Value::Int(7))]) })
    );
    assert_eq!(des.reader.position(), 9);
}

#[test]
fn type_codes_have_their_wire_values() {
    let table: [(u8, TypeCode); 21] = [
        (42, TypeCode::Null),
        (0, TypeCode::Unknown),
        (111, TypeCode::Boolean),
        (98, TypeCode::Byte),
        (107, TypeCode::Short),
        (105, TypeCode::Integer),
        (108, TypeCode::Long),
        (100, TypeCode::Double),
        (102, TypeCode::Float),
        (115, TypeCode::String),
        (99, TypeCode::Custom),
        (104, TypeCode::Hashtable),
        (68, TypeCode::Dictionary),
        (121, TypeCode::Array),
        (122, TypeCode::ObjectArray),
        (97, TypeCode::StringArray),
        (110, TypeCode::IntegerArray),
        (120, TypeCode::ByteArray),
        (101, TypeCode::EventData),
        (112, TypeCode::OperationResponse),
        (113, TypeCode::OperationRequest),
    ];
    for (byte, code) in table {
        assert_eq!(TypeCode::from_repr(byte), Some(code));
        assert_eq!(code.code(), byte);
    }
    let known = (0..=255u8).filter(|b| TypeCode::from_repr(*b).is_some()).count();
    assert_eq!(known, 21);
}

#[test]
fn unknown_type_code_yields_null_and_leaves_the_cursor() {
    let bytes = [0x01, 0x02, 0x03];
    for code in [1u8, 2, 41, 43, 200, 255] {
        let mut des = deserializer(&bytes);
        des.reader.set_position(1);
        assert_eq!(des.deserialize(code), Ok(Value::Null(())));
        assert_eq!(des.reader.position(), 1);
    }
}

#[test]
fn null_and_unknown_codes_take_no_bytes() {
    let bytes = [0xAA];
    let mut des = deserializer(&bytes);
    assert_eq!(des.deserialize(42), Ok(Value::Null(())));
    assert_eq!(des.deserialize(0), Ok(Value::Null(())));
    assert_eq!(des.reader.position(), 0);
}

#[test]
fn decodes_primitives_big_endian() {
    let bytes = [
        0x01, // bool
        0x00, // bool
        0xFE, // byte
        0xFF, 0xFE, // short -2
        0x80, 0x00, 0x00, 0x00, // int min
        0x7F, 0xFF, 0xFF, 0xFF, // int max
        0xFF, 0xFF, 0xFF, 0xFF, 0xFF, 0xFF, 0xFF, 0x85, // long -123
        0x01, 0x02, 0x03, 0x04, 0x05, 0x06, 0x07, 0x08, // long
    ];
    let mut des = deserializer(&bytes);
    assert_eq!(des.deserialize(111), Ok(Value::Bool(true)));
    assert_eq!(des.deserialize(111), Ok(Value::Bool(false)));
    assert_eq!(des.deserialize(98), Ok(Value::Byte(0xFE)));
    assert_eq!(des.deserialize(107), Ok(Value::Short(-2)));
    assert_eq!(des.deserialize(105), Ok(Value::Int(i32::MIN)));
    assert_eq!(des.deserialize(105), Ok(Value::Int(i32::MAX)));
    assert_eq!(des.deserialize(108), Ok(Value::Long(-123)));
    assert_eq!(des.deserialize(108), Ok(Value::Long(0x0102030405060708)));
    assert_eq!(des.reader.position(), bytes.len());
}

#[test]
fn numbers_agree_with_the_standard_conversions() {
    let samples: [[u8; 8]; 6] = [
        [0, 0, 0, 0, 0, 0, 0, 0],
        [0xFF; 8],
        [0x80, 0, 0, 0, 0, 0, 0, 0],
        [0x7F, 0xFF, 0xFF, 0xFF, 0xFF, 0xFF, 0xFF, 0xFF],
        [0x12, 0x34, 0x56, 0x78, 0x9A, 0xBC, 0xDE, 0xF0],
        [0xC0, 0x49, 0x0F, 0xDB, 0x40, 0x09, 0x21, 0xFB],
    ];
    for s in samples {
        let mut des = deserializer(&s);
        assert_eq!(des.deserialize_short(), Ok(i16::from_be_bytes([s[0], s[1]])));
        des.reader.set_position(0);
        assert_eq!(des.deserialize_int(), Ok(i32::from_be_bytes([s[0], s[1], s[2], s[3]])));
        des.reader.set_position(0);
        assert_eq!(des.deserialize_long(), Ok(i64::from_be_bytes(s)));
        des.reader.set_position(0);
        let float = des.deserialize_float().unwrap();
        assert_eq!(float.to_bits(), f32::from_be_bytes([s[0], s[1], s[2], s[3]]).to_bits());
        des.reader.set_position(0);
        let double = des.deserialize_double().unwrap();
        assert_eq!(double.to_bits(), f64::from_be_bytes(s).to_bits());
    }
}

#[test]
fn decodes_floats_by_their_bits() {
    let bytes = [0x40, 0x49, 0x0F, 0xDB, 0x3F, 0xF0, 0x00, 0x00, 0x00, 0x00, 0x00, 0x00];
    let mut des = deserializer(&bytes);
    let float = des.deserialize(102).unwrap();
    assert_eq!(float, Value::Float(HashableFloat::from_bits(0x40490FDB)));
    match float {
        Value::Float(f) => assert_eq!(f32::from_bits(f.to_bits()), std::f32::consts::PI),
        other => panic!("not a float: {:?}", other),
    }
    let double = des.deserialize(100).unwrap();
    assert_eq!(double, Value::Double(HashableDouble::from_bits(0x3FF0000000000000)));
    match double {
        Value::Double(d) => assert_eq!(f64::from_bits(d.to_bits()), 1.0),
        other => panic!("not a double: {:?}", other),
    }
}

#[test]
fn zero_length_collections_decode_to_empty_collections() {
    let zero2 = [0x00, 0x00];
    assert_eq!(deserializer(&zero2).deserialize(115), Ok(Value::String(String::new())));
    assert_eq!(deserializer(&zero2).deserialize(97), Ok(Value::StringArray(vec![])));
    assert_eq!(deserializer(&zero2).deserialize(122), Ok(Value::ObjectArray(ObjectArray(vec![]))));
    assert_eq!(deserializer(&zero2).deserialize(104), Ok(Value::HashTable(HashTable::new())));
    assert_eq!(deserializer(&zero2).deserialize_parameter_table(), Ok(ParameterTable::new()));
    let zero4 = [0x00, 0x00, 0x00, 0x00];
    assert_eq!(deserializer(&zero4).deserialize(120), Ok(Value::ByteArray(vec![])));
    assert_eq!(deserializer(&zero4).deserialize(110), Ok(Value::IntegerArray(vec![])));
    let array = [0x00, 0x00, 0x69];
    assert_eq!(deserializer(&array).deserialize(121), Ok(Value::Array(vec![])));
    let dict = [0x73, 0x69, 0x00, 0x00];
    let mut des = deserializer(&dict);
    assert_eq!(des.deserialize(68), Ok(Value::Dictionary(HashableHashmap::new())));
    assert_eq!(des.reader.position(), 4);
}

#[test]
fn decodes_byte_int_and_string_arrays() {
    let bytes = [0x00, 0x00, 0x00, 0x03, 0xDE, 0xAD, 0xBE];
    assert_eq!(deserializer(&bytes).deserialize(120), Ok(Value::ByteArray(vec![0xDE, 0xAD, 0xBE])));
    let ints = [0x00, 0x00, 0x00, 0x02, 0xFF, 0xFF, 0xFF, 0xFF, 0x00, 0x00, 0x01, 0x00];
    assert_eq!(deserializer(&ints).deserialize(110), Ok(Value::IntegerArray(vec![-1, 256])));
    let strings = [0x00, 0x02, 0x00, 0x01, 0x61, 0x00, 0x02, 0xC3, 0xA9];
    let mut des = deserializer(&strings);
    assert_eq!(
        des.deserialize(97),
        Ok(Value::StringArray(vec!["a".to_string(), "\u{e9}".to_string()]))
    );
    assert_eq!(des.reader.position(), 9);
}

#[test]
fn decodes_nested_arrays_and_arrays_of_byte_arrays() {
    let nested = [
        0x00, 0x02, 0x79, // two arrays
        0x00, 0x01, 0x62, 0x07, // [Byte(7)]
        0x00, 0x00, 0x6B, // []
    ];
    let mut des = deserializer(&nested);
    assert_eq!(
        des.deserialize_array(),
        Ok(vec![Value::Array(vec![Value::Byte(7)]), Value::Array(vec![])])
    );
    assert_eq!(des.reader.position(), nested.len());
    let blobs = [0x00, 0x02, 0x78, 0x00, 0x00, 0x00, 0x01, 0x09, 0x00, 0x00, 0x00, 0x00];
    assert_eq!(
        deserializer(&blobs).deserialize_array(),
        Ok(vec![Value::ByteArray(vec![9]), Value::ByteArray(vec![])])
    );
}

#[test]
fn array_of_nulls_takes_no_bytes_per_element() {
    let bytes = [0x00, 0x03, 0x2A];
    let mut des = deserializer(&bytes);
    assert_eq!(des.deserialize_array(), Ok(vec![Value::Null(()), Value::Null(()), Value::Null(())]));
    assert_eq!(des.reader.position(), 3);
}

#[test]
fn decodes_an_array_of_dictionaries_with_shared_types() {
    let bytes = [
        0x00, 0x03, 0x44, // three dictionaries
        0x62, 0x00, // keys are bytes, values are tagged
        0x00, 0x01, 0x01, 0x6B, 0x00, 0x05, // {1: Short(5)}
        0x00, 0x00, // {}
        0xFF, 0xFF, // a count below zero: {}
    ];
    let mut des = deserializer(&bytes);
    assert_eq!(
        des.deserialize_array(),
        Ok(vec![
            Value::Dictionary(dictionary(vec![(Value::Byte(1), Value::Short(5))])),
            Value::Dictionary(HashableHashmap::new()),
            Value::Dictionary(HashableHashmap::new()),
        ])
    );
    assert_eq!(des.reader.position(), bytes.len());
}

#[test]
fn dict_array_appends_to_the_values_it_is_given() {
    let bytes = [0x62, 0x62, 0x00, 0x01, 0x01, 0x02];
    let mut des = deserializer(&bytes);
    let mut values = vec![Value::Null(())];
    assert_eq!(des.deserialize_dict_array(1, &mut values), Ok(()));
    assert_eq!(
        values,
        vec![Value::Null(()), Value::Dictionary(dictionary(vec![(Value::Byte(1), Value::Byte(2))]))]
    );
    let mut des = deserializer(&bytes[..5]);
    let mut values = vec![Value::Null(())];
    assert_eq!(des.deserialize_dict_array(1, &mut values), Err(DecodeError::Truncation));
    assert_eq!(values, vec![Value::Null(())]);
    assert_eq!(des.reader.position(), 0);
}

#[test]
fn decodes_custom_values_through_the_registered_decoder() {
    let bytes = [0x07, 0x00, 0x02, 0xAB, 0xCD];
    let mut des = deserializer(&bytes);
    des.custom_type_impls.insert(7, CustomType::new(wrap_bytes as Decoder));
    assert_eq!(des.deserialize(99), Ok(Value::ByteArray(vec![0xAB, 0xCD])));
    assert_eq!(des.reader.position(), 5);
}

#[test]
fn custom_array_reads_its_code_once() {
    let bytes = [0x00, 0x02, 0x63, 0x09, 0x00, 0x01, 0xAA, 0x00, 0x03, 0x01, 0x02, 0x03];
    let mut des = deserializer(&bytes);
    des.custom_type_impls.insert(9, CustomType::new(count_bytes as Decoder));
    assert_eq!(des.deserialize_array(), Ok(vec![Value::Int(1), Value::Int(3)]));
    assert_eq!(des.reader.position(), bytes.len());
}

#[test]
fn unregistered_custom_type_is_an_error() {
    let bytes = [0x07, 0x00, 0x00];
    let mut des = deserializer(&bytes);
    assert_eq!(des.deserialize(99), Err(DecodeError::UnknownCustomType(7)));
    assert_eq!(des.reader.position(), 0);
    let array = [0x00, 0x00, 0x63, 0x08];
    assert_eq!(
        deserializer(&array).deserialize_array(),
        Err(DecodeError::UnknownCustomType(8))
    );
}

#[test]
fn decodes_an_object_array() {
    let bytes = [0x00, 0x03, 0x62, 0x01, 0x2A, 0x73, 0x00, 0x01, 0x7A];
    let mut des = deserializer(&bytes);
    assert_eq!(
        des.deserialize_object_array(),
        Ok(ObjectArray(vec![Value::Byte(1), Value::Null(()), Value::String("z".to_string())]))
    );
    assert_eq!(des.reader.position(), bytes.len());
}

#[test]
fn decodes_a_hashtable_with_tagged_entries() {
    let bytes = [
        0x00, 0x02, // two entries
        0x62, 0x01, 0x73, 0x00, 0x01, 0x61, // Byte(1) -> "a"
        0x73, 0x00, 0x01, 0x6B, 0x6F, 0x01, // "k" -> Bool(true)
    ];
    let mut des = deserializer(&bytes);
    let mut expected = HashTable::new();
    expected.insert(Value::String("k".to_string()), Value::Bool(true));
    expected.insert(Value::Byte(1), Value::String("a".to_string()));
    assert_eq!(des.deserialize_hashtable(), Ok(expected));
    assert_eq!(des.reader.position(), bytes.len());
}

#[test]
fn decodes_a_dictionary_with_declared_types() {
    let bytes = [0x62, 0x6B, 0x00, 0x02, 0x01, 0x00, 0x0A, 0x02, 0x00, 0x14];
    let mut des = deserializer(&bytes);
    assert_eq!(
        des.deserialize_dictionary(),
        Ok(dictionary(vec![
            (Value::Byte(1), Value::Short(10)),
            (Value::Byte(2), Value::Short(20)),
        ]))
    );
    assert_eq!(des.reader.position(), bytes.len());
}

#[test]
fn dictionary_with_unknown_types_reads_a_tag_per_element() {
    let bytes = [0x00, 0x00, 0x00, 0x01, 0x62, 0x05, 0x6F, 0x00];
    let mut des = deserializer(&bytes);
    assert_eq!(
        des.deserialize_dictionary(),
        Ok(dictionary(vec![(Value::Byte(5), Value::Bool(false))]))
    );
    assert_eq!(des.reader.position(), bytes.len());
}

#[test]
fn a_repeated_key_overwrites_the_earlier_entry() {
    let bytes = [0x62, 0x62, 0x00, 0x03, 0x01, 0x0A, 0x02, 0x14, 0x01, 0x1E];
    let map = deserializer(&bytes).deserialize_dictionary().unwrap();
    assert_eq!(map.len(), 2);
    assert_eq!(map.get(&Value::Byte(1)), Some(&Value::Byte(0x1E)));
    assert_eq!(map.get(&Value::Byte(2)), Some(&Value::Byte(0x14)));
    assert_eq!(map.get(&Value::Byte(3)), None);
    let table = [0x00, 0x02, 0x07, 0x62, 0x01, 0x07, 0x62, 0x02];
    let params = deserializer(&table).deserialize_parameter_table().unwrap();
    assert_eq!(params.len(), 1);
    assert_eq!(params.get(7), Some(&Value::Byte(2)));
}

#[test]
fn decodes_event_data() {
    let bytes = [0xE1, 0x00, 0x01, 0x05, 0x73, 0x00, 0x02, 0x68, 0x69];
    let mut des = deserializer(&bytes);
    assert_eq!(
        des.deserialize_event_data(),
        Ok(EventData {
            event_code: 0xE1,
            params: parameters(vec![(5, Value::String("hi".to_string()))]),
        })
    );
    assert_eq!(des.reader.position(), bytes.len());
}

#[test]
fn decodes_an_operation_response() {
    let bytes = [
        0x10, // opcode
        0xFF, 0xFF, // return code -1
        0x73, 0x00, 0x03, 0x65, 0x72, 0x72, // debug message "err"
        0x00, 0x01, 0x01, 0x69, 0x00, 0x00, 0x00, 0x2A, // {1: Int(42)}
    ];
    let mut des = deserializer(&bytes);
    assert_eq!(
        des.deserialize_operation_response(),
        Ok(OperationResponse {
            opcode: 0x10,
            return_code: -1,
            debug_message: Box::new(Value::String("err".to_string())),
            parameters: parameters(vec![(1, Value::Int(42))]),
        })
    );
    assert_eq!(des.reader.position(), bytes.len());
}

#[test]
fn decodes_messages_under_their_type_codes() {
    let request = [0x2A, 0x00, 0x00];
    assert_eq!(
        deserializer(&request).deserialize(113),
        Ok(Value::OperationRequest(OperationRequest {
            opcode: 0x2A,
            parameters: ParameterTable::new(),
        }))
    );
    assert_eq!(
        deserializer(&request).deserialize(101),
        Ok(Value::EventData(EventData { event_code: 0x2A, params: ParameterTable::new() }))
    );
    let response = [0x01, 0x00, 0x00, 0x2A, 0x00, 0x00];
    assert_eq!(
        deserializer(&response).deserialize(112),
        Ok(Value::OperationResponse(OperationResponse {
            opcode: 1,
            return_code: 0,
            debug_message: Box::new(Value::Null(())),
            parameters: ParameterTable::new(),
        }))
    );
}

#[test]
fn maybe_typed_follows_the_declared_type() {
    let bytes = [0x6B, 0x00, 0x01];
    let mut des = deserializer(&bytes);
    assert_eq!(des.deserialize_maybe_typed(TypeCode::Unknown), Ok(Value::Short(1)));
    assert_eq!(des.reader.position(), 3);
    let mut des = deserializer(&bytes);
    assert_eq!(des.deserialize_maybe_typed(TypeCode::Short), Ok(Value::Short(0x6B00)));
    assert_eq!(des.reader.position(), 2);
}

#[test]
fn reads_type_codes_and_dictionary_types() {
    let bytes = [0x69, 0x01, 0x44, 0x79];
    let mut des = deserializer(&bytes);
    assert_eq!(des.read_type_code(), Ok(TypeCode::Integer));
    assert_eq!(des.read_type_code(), Err(DecodeError::InvalidTypeCode(1)));
    assert_eq!(des.reader.position(), 1);
    des.reader.set_position(2);
    assert_eq!(des.deserialize_dictionary_type(), Ok((TypeCode::Dictionary, TypeCode::Array)));
    des.reader.set_position(1);
    assert_eq!(des.deserialize_dictionary_type(), Err(DecodeError::InvalidTypeCode(1)));
    des.reader.set_position(3);
    assert_eq!(des.deserialize_dictionary_type(), Err(DecodeError::Truncation));
}

#[test]
fn reads_raw_bytes() {
    let bytes = [1, 2, 3, 4];
    let mut des = deserializer(&bytes);
    assert_eq!(des.read_byte(), Ok(1));
    assert_eq!(des.deserialize_byte(), Ok(2));
    assert_eq!(des.deserialize_bool(), Ok(true));
    des.reader.set_position(1);
    assert_eq!(des.read_bytes(3), Ok(vec![2, 3, 4]));
    assert_eq!(des.read_bytes(0), Ok(vec![]));
    assert_eq!(des.read_bytes(1), Err(DecodeError::Truncation));
    assert_eq!(des.reader.position(), 4);
}

#[test]
fn truncated_input_is_an_error_and_leaves_the_cursor() {
    let cases: [(u8, &[u8]); 9] = [
        (111, &[]),
        (107, &[0x00]),
        (105, &[0x00, 0x00, 0x00]),
        (108, &[0; 7]),
        (115, &[0x00, 0x05, 0x48]),
        (120, &[0x00, 0x00, 0x00, 0x02, 0x01]),
        (110, &[0x00, 0x00, 0x00, 0x01, 0x00, 0x00, 0x00]),
        (121, &[0x00, 0x02, 0x69, 0x00, 0x00, 0x00, 0x01]),
        (113, &[0x01, 0x00, 0x01, 0x05]),
    ];
    for (code, bytes) in cases {
        let mut des = deserializer(bytes);
        assert_eq!(des.deserialize(code), Err(DecodeError::Truncation), "code {}", code);
        assert_eq!(des.reader.position(), 0);
    }
}

#[test]
fn a_cursor_behind_the_end_reads_nothing() {
    let bytes = [0x01];
    let mut des = deserializer(&bytes);
    des.reader.set_position(5);
    assert_eq!(des.read_byte(), Err(DecodeError::Truncation));
    assert_eq!(des.deserialize(42), Ok(Value::Null(())));
    assert_eq!(des.reader.position(), 5);
}

#[test]
fn invalid_utf8_is_an_error() {
    let bytes = [0x00, 0x02, 0xC3, 0x28];
    let mut des = deserializer(&bytes);
    assert_eq!(des.deserialize_string(), Err(DecodeError::Utf8Error));
    assert_eq!(des.reader.position(), 0);
    let array = [0x00, 0x01, 0x00, 0x01, 0xFF];
    assert_eq!(deserializer(&array).deserialize_string_array(), Err(DecodeError::Utf8Error));
}

#[test]
fn a_byte_that_is_no_type_code_inside_a_container_is_an_error() {
    let object_array = [0x00, 0x01, 0x01];
    assert_eq!(
        deserializer(&object_array).deserialize_object_array(),
        Err(DecodeError::InvalidTypeCode(1))
    );
    let array = [0x00, 0x01, 0x05];
    assert_eq!(deserializer(&array).deserialize_array(), Err(DecodeError::InvalidTypeCode(5)));
    let table = [0x00, 0x01, 0x07, 0xFE];
    assert_eq!(
        deserializer(&table).deserialize_parameter_table(),
        Err(DecodeError::InvalidTypeCode(0xFE))
    );
    let response = [0x01, 0x00, 0x00, 0x03];
    assert_eq!(
        deserializer(&response).deserialize_operation_response(),
        Err(DecodeError::InvalidTypeCode(3))
    );
}

#[test]
fn negative_lengths_are_errors() {
    let cases: [(u8, &[u8]); 8] = [
        (115, &[0xFF, 0xFF]),
        (97, &[0x80, 0x00]),
        (120, &[0xFF, 0xFF, 0xFF, 0xFF]),
        (110, &[0x80, 0x00, 0x00, 0x00]),
        (121, &[0xFF, 0xFE, 0x69]),
        (122, &[0xFF, 0xFF]),
        (104, &[0xFF, 0xFF]),
        (68, &[0x62, 0x62, 0xFF, 0xFF]),
    ];
    for (code, bytes) in cases {
        let mut des = deserializer(bytes);
        assert_eq!(des.deserialize(code), Err(DecodeError::NegativeLength), "code {}", code);
        assert_eq!(des.reader.position(), 0);
    }
    assert_eq!(
        deserializer(&[0xFF, 0xFF]).deserialize_parameter_table(),
        Err(DecodeError::NegativeLength)
    );
}

#[test]
fn decodes_a_large_byte_array() {
    let len: usize = 16 * 1024 * 1024;
    let mut bytes = vec![0x5Au8; len + 4];
    bytes[..4].copy_from_slice(&(len as i32).to_be_bytes());
    let mut des = deserializer(&bytes);
    match des.deserialize(120) {
        Ok(Value::ByteArray(v)) => {
            assert_eq!(v.len(), len);
            assert!(v.iter().all(|b| *b == 0x5A));
        }
        other => panic!("not a byte array: {:?}", other.map(|_| ())),
    }
    assert_eq!(des.reader.position(), len + 4);
}
