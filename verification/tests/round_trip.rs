use rcfakeclient::serialization::decode::{parse_maybe_typed, parse_value};
use rcfakeclient::serialization::type_code::TypeCode;
use rcfakeclient::serialization::{
    Cursor, CustomType, DecodeError, EventData, HashTable, ObjectArray, OperationRequest,
    OperationResponse, ParameterTable, StreamDeserializer, Value,
};
use rcfakeclient::util::{HashableDouble, HashableFloat, HashableHashmap};
use std::collections::HashMap;

type Decoder = fn(&[u8]) -> Value;

fn code_of(value: &Value) -> TypeCode {
    match value {
        Value::Null(()) => TypeCode::Null,
        Value::Bool(_) => TypeCode::Boolean,
        Value::Byte(_) => TypeCode::Byte,
        Value::Short(_) => TypeCode::Short,
        Value::Int(_) => TypeCode::Integer,
        Value::Long(_) => TypeCode::Long,
        Value::Float(_) => TypeCode::Float,
        Value::Double(_) => TypeCode::Double,
        Value::String(_) => TypeCode::String,
        Value::ByteArray(_) => TypeCode::ByteArray,
        Value::IntegerArray(_) => TypeCode::IntegerArray,
        Value::StringArray(_) => TypeCode::StringArray,
        Value::Array(_) => TypeCode::Array,
        Value::ObjectArray(_) => TypeCode::ObjectArray,
        Value::Dictionary(_) => TypeCode::Dictionary,
        Value::HashTable(_) => TypeCode::Hashtable,
        Value::EventData(_) => TypeCode::EventData,
        Value::OperationRequest(_) => TypeCode::OperationRequest,
        Value::OperationResponse(_) => TypeCode::OperationResponse,
    }
}

fn put_string(out: &mut Vec<u8>, s: &str) {
    out.extend_from_slice(&(s.len() as i16).to_be_bytes());
    out.extend_from_slice(s.as_bytes());
}

fn put_tagged(out: &mut Vec<u8>, value: &Value) {
    out.push(code_of(value).code());
    put(out, value);
}

fn put_entries(out: &mut Vec<u8>, map: &HashableHashmap<Value, Value>) {
    out.extend_from_slice(&(map.len() as i16).to_be_bytes());
    for (key, value) in &map.0 {
        put_tagged(out, key);
        put_tagged(out, value);
    }
}

fn put_table(out: &mut Vec<u8>, table: &ParameterTable) {
    out.extend_from_slice(&(table.len() as i16).to_be_bytes());
    for (key, value) in &table.0 .0 {
        out.push(*key);
        put_tagged(out, value);
    }
}

fn put(out: &mut Vec<u8>, value: &Value) {
    match value {
        Value::Null(()) => {}
        Value::Bool(x) => out.push(*x as u8),
        Value::Byte(x) => out.push(*x),
        Value::Short(x) => out.extend_from_slice(&x.to_be_bytes()),
        Value::Int(x) => out.extend_from_slice(&x.to_be_bytes()),
        Value::Long(x) => out.extend_from_slice(&x.to_be_bytes()),
        Value::Float(x) => out.extend_from_slice(&f32::from_bits(x.to_bits()).to_be_bytes()),
        Value::Double(x) => out.extend_from_slice(&f64::from_bits(x.to_bits()).to_be_bytes()),
        Value::String(s) => put_string(out, s),
        Value::ByteArray(b) => {
            out.extend_from_slice(&(b.len() as i32).to_be_bytes());
            out.extend_from_slice(b);
        }
        Value::IntegerArray(x) => {
            out.extend_from_slice(&(x.len() as i32).to_be_bytes());
            for n in x {
                out.extend_from_slice(&n.to_be_bytes());
            }
        }
        Value::StringArray(x) => {
            out.extend_from_slice(&(x.len() as i16).to_be_bytes());
            for s in x {
                put_string(out, s);
            }
        }
        Value::Array(x) => {
            out.extend_from_slice(&(x.len() as i16).to_be_bytes());
            match x.first() {
                None => out.push(0),
                Some(Value::Dictionary(_)) => {
                    out.extend_from_slice(&[68, 0, 0]);
                    for item in x {
                        match item {
                            Value::Dictionary(map) => put_entries(out, map),
                            other => panic!("not a dictionary: {:?}", other),
                        }
                    }
                }
                Some(first) => {
                    out.push(code_of(first).code());
                    for item in x {
                        put(out, item);
                    }
                }
            }
        }
        Value::ObjectArray(x) => {
            out.extend_from_slice(&(x.0.len() as i16).to_be_bytes());
            for item in &x.0 {
                put_tagged(out, item);
            }
        }
        Value::Dictionary(map) => {
            out.extend_from_slice(&[0, 0]);
            put_entries(out, map);
        }
        Value::HashTable(table) => put_entries(out, &table.0),
        Value::EventData(e) => {
            out.push(e.event_code);
            put_table(out, &e.params);
        }
        Value::OperationRequest(r) => {
            out.push(r.opcode);
            put_table(out, &r.parameters);
        }
        Value::OperationResponse(r) => {
            out.push(r.opcode);
            out.extend_from_slice(&r.return_code.to_be_bytes());
            put_tagged(out, &r.debug_message);
            put_table(out, &r.parameters);
        }
    }
}

fn text(s: &str) -> Value {
    Value::String(s.to_string())
}

fn dictionary(entries: Vec<(Value, Value)>) -> HashableHashmap<Value, Value> {
    let mut map: HashableHashmap<Value, Value> = HashableHashmap::new();
    for (key, value) in entries {
        map.insert(key, value);
    }
    map
}

fn table(entries: Vec<(u8, Value)>) -> ParameterTable {
    let mut table = ParameterTable::new();
    for (key, value) in entries {
        table.insert(key, value);
    }
    table
}

fn samples() -> Vec<Value> {
    let inner = Value::Dictionary(dictionary(vec![
        (Value::Int(-5), text("minus five")),
        (text("list"), Value::IntegerArray(vec![i32::MIN, 0, i32::MAX])),
    ]));
    vec![
        Value::Null(()),
        Value::Bool(true),
        Value::Bool(false),
        Value::Byte(0xFF),
        Value::Short(i16::MIN),
        Value::Short(i16::MAX),
        Value::Int(-1),
        Value::Long(i64::MIN),
        Value::Long(i64::MAX),
        Value::Float(HashableFloat::from_bits(f32::NAN.to_bits())),
        Value::Float(HashableFloat::from_bits((-0.0f32).to_bits())),
        Value::Float(HashableFloat::from_bits(0x7FC0_1234)),
        Value::Double(HashableDouble::from_bits(f64::INFINITY.to_bits())),
        Value::Double(HashableDouble::from_bits(0x7FF8_0000_0000_0001)),
        text(""),
        text("gr\u{fc}\u{df}e \u{1F600}"),
        Value::ByteArray(vec![]),
        Value::ByteArray((0..=255).collect()),
        Value::IntegerArray(vec![]),
        Value::IntegerArray(vec![1, -1, 65536]),
        Value::StringArray(vec![]),
        Value::StringArray(vec!["a".to_string(), String::new(), "bc".to_string()]),
        Value::Array(vec![]),
        Value::Array(vec![Value::Null(()), Value::Null(())]),
        Value::Array(vec![text("x"), text("yz")]),
        Value::Array(vec![
            Value::Array(vec![Value::Short(1)]),
            Value::Array(vec![]),
            Value::Array(vec![Value::Array(vec![Value::Bool(true)])]),
        ]),
        Value::Array(vec![Value::ByteArray(vec![1]), Value::ByteArray(vec![])]),
        Value::Array(vec![
            Value::Dictionary(dictionary(vec![(Value::Byte(1), Value::Byte(2))])),
            Value::Dictionary(dictionary(vec![])),
            inner.clone(),
        ]),
        Value::Array(vec![Value::ObjectArray(ObjectArray(vec![Value::Int(1), text("t")]))]),
        Value::ObjectArray(ObjectArray(vec![])),
        Value::ObjectArray(ObjectArray(vec![Value::Null(()), inner.clone(), Value::Long(3)])),
        Value::Dictionary(dictionary(vec![])),
        inner.clone(),
        Value::Dictionary(dictionary(vec![(inner.clone(), inner.clone())])),
        Value::HashTable(HashTable(dictionary(vec![
            (Value::Null(()), Value::Null(())),
            (text("k"), Value::Array(vec![Value::Byte(1)])),
        ]))),
        Value::EventData(EventData { event_code: 0, params: table(vec![]) }),
        Value::EventData(EventData {
            event_code: 255,
            params: table(vec![(0, Value::Null(())), (255, inner.clone()), (7, text("seven"))]),
        }),
        Value::OperationRequest(OperationRequest {
            opcode: 3,
            parameters: table(vec![(1, Value::ByteArray(vec![9, 9]))]),
        }),
        Value::OperationResponse(OperationResponse {
            opcode: 4,
            return_code: -32768,
            debug_message: Box::new(Value::Null(())),
            parameters: table(vec![]),
        }),
        Value::OperationResponse(OperationResponse {
            opcode: 5,
            return_code: 7,
            debug_message: Box::new(text("all good")),
            parameters: table(vec![(
                1,
                Value::EventData(EventData { event_code: 2, params: table(vec![(3, Value::Int(4))]) }),
            )]),
        }),
    ]
}

#[test]
fn values_are_read_back_from_their_bytes() {
    let registry: HashMap<u8, CustomType<Decoder>> = HashMap::new();
    for value in samples() {
        let mut bytes = Vec::new();
        put(&mut bytes, &value);
        let end = bytes.len();
        bytes.extend_from_slice(&[0xEE, 0xFF]);
        let decoded = parse_value(&bytes, 0, code_of(&value).code(), &registry);
        assert_eq!(decoded, Ok((value.clone(), end)), "{:?}", value);
        let mut des: StreamDeserializer<'_, Decoder> = StreamDeserializer::new(Cursor::new(&bytes));
        assert_eq!(des.deserialize(code_of(&value).code()), Ok(value.clone()));
        assert_eq!(des.reader.position(), end);
        assert_eq!(des.reader.get_ref(), &bytes[..]);
    }
}

#[test]
fn tagged_values_are_read_back_from_their_bytes() {
    let registry: HashMap<u8, CustomType<Decoder>> = HashMap::new();
    for value in samples() {
        let mut bytes = vec![0xAB];
        put_tagged(&mut bytes, &value);
        let end = bytes.len();
        let decoded = parse_maybe_typed(&bytes, 1, TypeCode::Unknown, &registry);
        assert_eq!(decoded, Ok((value, end)));
    }
}

#[test]
fn every_proper_prefix_of_an_encoding_is_truncated() {
    let registry: HashMap<u8, CustomType<Decoder>> = HashMap::new();
    for value in samples() {
        let mut bytes = Vec::new();
        put(&mut bytes, &value);
        for cut in 0..bytes.len() {
            let decoded = parse_value(&bytes[..cut], 0, code_of(&value).code(), &registry);
            assert_eq!(decoded, Err(DecodeError::Truncation), "{:?} cut at {}", value, cut);
        }
    }
}

#[test]
fn copies_are_equal_to_what_they_copy() {
    for value in samples() {
        let copy = value.clone();
        assert_eq!(copy, value);
        assert_eq!(copy.hash_code(), value.hash_code());
        assert_eq!(value.duplicate(), value);
    }
    let params = table(vec![(1, Value::Int(2))]);
    assert_eq!(params.clone(), params);
    let event = EventData { event_code: 1, params };
    assert_eq!(event.clone(), event);
    let array = ObjectArray(vec![text("a")]);
    assert_eq!(array.clone(), array);
}
