use rcfakeclient::serialization::{
    EventData, HashTable, ObjectArray, OperationRequest, OperationResponse, ParameterTable, Value,
};
use rcfakeclient::util::{HashableDouble, HashableFloat, HashableHashmap};

fn dictionary(entries: Vec<(Value, Value)>) -> HashableHashmap<Value, Value> {
    let mut map: HashableHashmap<Value, Value> = HashableHashmap::new();
    for (key, value) in entries {
        map.insert(key, value);
    }
    map
}

fn text(s: &str) -> Value {
    Value::String(s.to_string())
}

fn samples() -> Vec<Value> {
    let mut table = ParameterTable::new();
    table.insert(1, Value::Int(5));
    table.insert(2, text("two"));
    let mut other_table = ParameterTable::new();
    other_table.insert(2, text("two"));
    other_table.insert(1, Value::Int(5));
    let mut hash_table = HashTable::new();
    hash_table.insert(text("a"), Value::Null(()));
    vec![
        Value::Null(()),
        Value::Bool(true),
        Value::Bool(false),
        Value::Byte(0),
        Value::Byte(1),
        Value::Short(1),
        Value::Short(-1),
        Value::Int(1),
        Value::Long(1),
        Value::Long(i64::MIN),
        Value::Float(HashableFloat::from_bits(1.5f32.to_bits())),
        Value::Float(HashableFloat::from_bits(f32::NAN.to_bits())),
        Value::Double(HashableDouble::from_bits(1.5f64.to_bits())),
        Value::Double(HashableDouble::from_bits((-0.0f64).to_bits())),
        Value::Double(HashableDouble::from_bits(0.0f64.to_bits())),
        text(""),
        text("a"),
        text("b"),
        Value::ByteArray(vec![]),
        Value::ByteArray(vec![1, 2]),
        Value::IntegerArray(vec![1, 2]),
        Value::IntegerArray(vec![2, 1]),
        Value::StringArray(vec!["a".to_string()]),
        Value::Array(vec![]),
        Value::Array(vec![Value::Int(1), Value::Int(2)]),
        Value::Array(vec![Value::Int(2), Value::Int(1)]),
        Value::ObjectArray(ObjectArray(vec![])),
        Value::ObjectArray(ObjectArray(vec![Value::Int(1), text("x")])),
        Value::Dictionary(dictionary(vec![])),
        Value::Dictionary(dictionary(vec![(Value::Int(1), text("a")), (Value::Int(2), text("b"))])),
        Value::Dictionary(dictionary(vec![(Value::Int(2), text("b")), (Value::Int(1), text("a"))])),
        Value::Dictionary(dictionary(vec![(Value::Int(1), text("b")), (Value::Int(2), text("a"))])),
        Value::HashTable(hash_table),
        Value::EventData(EventData { event_code: 1, params: ParameterTable::new() }),
        Value::OperationRequest(OperationRequest { opcode: 1, parameters: table }),
        Value::OperationRequest(OperationRequest { opcode: 1, parameters: other_table }),
        Value::OperationResponse(OperationResponse {
            opcode: 1,
            return_code: 0,
            debug_message: Box::new(Value::Null(())),
            parameters: ParameterTable::new(),
        }),
        Value::OperationResponse(OperationResponse {
            opcode: 1,
            return_code: 0,
            debug_message: Box::new(text("m")),
            parameters: ParameterTable::new(),
        }),
    ]
}

#[test]
fn equal_values_have_equal_hashes() {
    let values = samples();
    let mut equal_pairs = 0;
    for a in &values {
        for b in &values {
            assert_eq!(a == b, b == a, "{:?} and {:?}", a, b);
            if a == b {
                equal_pairs += 1;
                assert_eq!(a.hash_code(), b.hash_code(), "{:?} and {:?}", a, b);
            }
        }
        assert!(a == a);
    }
    assert_eq!(equal_pairs, values.len() + 4);
}

#[test]
fn dictionaries_do_not_depend_on_the_order_of_their_entries() {
    let entries = vec![
        (Value::Int(1), text("one")),
        (text("two"), Value::Short(2)),
        (Value::Bool(true), Value::Null(())),
        (Value::ByteArray(vec![3]), Value::Array(vec![Value::Byte(3)])),
    ];
    let forward = Value::Dictionary(dictionary(entries.iter().map(|e| dup(e)).collect()));
    let backward = Value::Dictionary(dictionary(entries.iter().rev().map(|e| dup(e)).collect()));
    let mut rotated: Vec<(Value, Value)> = entries.iter().map(|e| dup(e)).collect();
    rotated.rotate_left(2);
    let rotated = Value::Dictionary(dictionary(rotated));
    assert_eq!(forward, backward);
    assert_eq!(forward, rotated);
    assert_eq!(forward.hash_code(), backward.hash_code());
    assert_eq!(forward.hash_code(), rotated.hash_code());
}

fn dup(entry: &(Value, Value)) -> (Value, Value) {
    (copy(&entry.0), copy(&entry.1))
}

fn copy(value: &Value) -> Value {
    match value {
        Value::Int(x) => Value::Int(*x),
        Value::Short(x) => Value::Short(*x),
        Value::Byte(x) => Value::Byte(*x),
        Value::Bool(x) => Value::Bool(*x),
        Value::String(s) => Value::String(s.to_string()),
        Value::ByteArray(b) => Value::ByteArray(b.to_vec()),
        Value::Array(items) => Value::Array(items.iter().map(copy).collect()),
        Value::Null(()) => Value::Null(()),
        other => panic!("no copy of {:?}", other),
    }
}

#[test]
fn maps_as_keys_are_compared_without_order() {
    let inner_a = Value::Dictionary(dictionary(vec![
        (Value::Int(1), Value::Int(10)),
        (Value::Int(2), Value::Int(20)),
    ]));
    let inner_b = Value::Dictionary(dictionary(vec![
        (Value::Int(2), Value::Int(20)),
        (Value::Int(1), Value::Int(10)),
    ]));
    let mut outer: HashableHashmap<Value, Value> = HashableHashmap::new();
    assert_eq!(outer.insert(inner_a, text("first")), None);
    assert_eq!(outer.insert(inner_b, text("second")), Some(text("first")));
    assert_eq!(outer.len(), 1);
    let probe = Value::Dictionary(dictionary(vec![
        (Value::Int(1), Value::Int(10)),
        (Value::Int(2), Value::Int(20)),
    ]));
    assert_eq!(outer.get(&probe), Some(&text("second")));
    assert!(outer.contains_key(&probe));
}

#[test]
fn floats_are_compared_by_their_bits() {
    let nan = f32::NAN.to_bits();
    assert_eq!(Value::Float(HashableFloat::from_bits(nan)), Value::Float(HashableFloat(nan)));
    assert_ne!(
        Value::Float(HashableFloat::from_bits(0.0f32.to_bits())),
        Value::Float(HashableFloat::from_bits((-0.0f32).to_bits()))
    );
    let nan = f64::NAN.to_bits();
    assert_eq!(Value::Double(HashableDouble::from_bits(nan)), Value::Double(HashableDouble(nan)));
    assert_ne!(
        Value::Double(HashableDouble::from_bits(0.0f64.to_bits())),
        Value::Double(HashableDouble::from_bits((-0.0f64).to_bits()))
    );
    assert_eq!(
        Value::Float(HashableFloat(nan as u32)).hash_code(),
        Value::Float(HashableFloat(nan as u32)).hash_code()
    );
}

#[test]
fn hash_follows_its_formula() {
    let prime: u64 = 0x0000_0100_0000_01b3;
    let offset: u64 = 0xcbf2_9ce4_8422_2325;
    let mix = |seed: u64, word: u64| seed.wrapping_mul(prime).wrapping_add(word);
    assert_eq!(Value::Null(()).hash_code(), mix(42, 0));
    assert_eq!(Value::Byte(7).hash_code(), mix(98, 7));
    assert_eq!(Value::Short(-1).hash_code(), mix(107, 0x7FFF));
    assert_eq!(Value::Int(0).hash_code(), mix(105, 0x8000_0000));
    assert_eq!(Value::Long(i64::MIN).hash_code(), mix(108, 0));
    assert_eq!(Value::String("A".to_string()).hash_code(), mix(115, mix(offset, 0x41)));
    assert_eq!(
        Value::Array(vec![Value::Byte(7)]).hash_code(),
        mix(121, mix(offset, mix(98, 7)))
    );
    let map = Value::Dictionary(dictionary(vec![
        (Value::Byte(1), Value::Byte(2)),
        (Value::Byte(3), Value::Byte(4)),
    ]));
    let entry = |k: u64, v: u64| mix(mix(98, k), mix(98, v));
    assert_eq!(map.hash_code(), mix(68, entry(1, 2) ^ entry(3, 4)));
    let mut table = ParameterTable::new();
    table.insert(1, Value::Byte(2));
    let event = Value::EventData(EventData { event_code: 9, params: table });
    assert_eq!(event.hash_code(), mix(mix(101, 9), entry(1, 2)));
}

#[test]
fn different_kinds_are_never_equal() {
    assert_ne!(Value::Byte(1), Value::Short(1));
    assert_ne!(Value::Array(vec![]), Value::ObjectArray(ObjectArray(vec![])));
    assert_ne!(
        Value::Dictionary(HashableHashmap::new()),
        Value::HashTable(HashTable::new())
    );
    assert_ne!(Value::Null(()), Value::Bool(false));
    assert_ne!(Value::ByteArray(vec![1]), Value::IntegerArray(vec![1]));
}

#[test]
fn payloads_convert_into_their_values() {
    assert_eq!(Value::from(7u8), Value::Byte(7));
    assert_eq!(Value::from(true), Value::Bool(true));
    assert_eq!(Value::from(-3i16), Value::Short(-3));
    assert_eq!(Value::from(-3i32), Value::Int(-3));
    assert_eq!(Value::from(-3i64), Value::Long(-3));
    assert_eq!(Value::from(HashableFloat(1)), Value::Float(HashableFloat(1)));
    assert_eq!(Value::from(HashableDouble(1)), Value::Double(HashableDouble(1)));
    assert_eq!(Value::from("s".to_string()), text("s"));
    assert_eq!(Value::from(vec![Value::Null(())]), Value::Array(vec![Value::Null(())]));
    assert_eq!(Value::from(vec!["s".to_string()]), Value::StringArray(vec!["s".to_string()]));
    assert_eq!(Value::from(vec![1i32]), Value::IntegerArray(vec![1]));
    assert_eq!(Value::from(vec![1u8]), Value::ByteArray(vec![1]));
    assert_eq!(
        Value::from(ObjectArray(vec![Value::Null(())])),
        Value::ObjectArray(ObjectArray(vec![Value::Null(())]))
    );
    assert_eq!(Value::from(dictionary(vec![])), Value::Dictionary(HashableHashmap::new()));
    assert_eq!(Value::from(HashTable::new()), Value::HashTable(HashTable::new()));
    let into: Value = ().into();
    assert_eq!(into, Value::Null(()));
    let request = OperationRequest { opcode: 1, parameters: ParameterTable::new() };
    assert_eq!(Value::from(request.clone()), Value::OperationRequest(request));
    let event = EventData { event_code: 1, params: ParameterTable::new() };
    assert_eq!(Value::from(event.clone()), Value::EventData(event));
    let response = OperationResponse {
        opcode: 1,
        return_code: 2,
        debug_message: Box::new(Value::Null(())),
        parameters: ParameterTable::new(),
    };
    assert_eq!(Value::from(response.clone()), Value::OperationResponse(response));
}
