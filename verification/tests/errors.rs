use avro_decode::DecodeError;
use avro_decode::Value;
use avro_decode::ValueMap;

#[test]
fn every_error_says_what_went_wrong() {
    assert_eq!(DecodeError::UnexpectedEof.message(), "failed to fill whole buffer");
    assert_eq!(DecodeError::VarintTooLong.message(), "integer overflow");
    assert_eq!(DecodeError::InvalidLength.message(), "invalid length");
    assert_eq!(DecodeError::NotABool.message(), "not a bool");
    assert_eq!(DecodeError::InvalidUtf8.message(), "not a valid utf-8 string");
    assert_eq!(
        DecodeError::UnionIndexOutOfBounds.message(),
        "union index out of bounds"
    );
    assert_eq!(
        DecodeError::EnumIndexOutOfBounds.message(),
        "enum symbol index out of bounds"
    );
    assert_eq!(
        DecodeError::DecimalSchema.message(),
        "not a fixed or bytes type, required for decimal schema"
    );
    assert_eq!(DecodeError::InvalidUuid.message(), "not a valid uuid");
}

#[test]
fn value_map_inserts_and_replaces() {
    let mut map = ValueMap::new();
    assert_eq!(map.len(), 0);
    assert_eq!(map.get(&String::from("a")), None);
    map.insert(String::from("a"), Value::Int(1));
    map.insert(String::from("b"), Value::Int(2));
    assert_eq!(map.len(), 2);
    assert_eq!(map.get(&String::from("a")), Some(&Value::Int(1)));
    assert_eq!(map.get(&String::from("b")), Some(&Value::Int(2)));
    map.insert(String::from("a"), Value::Long(3));
    assert_eq!(map.len(), 2);
    assert_eq!(map.get(&String::from("a")), Some(&Value::Long(3)));
    assert_eq!(map.get(&String::from("b")), Some(&Value::Int(2)));
    assert_eq!(map.get(&String::from("")), None);
}

#[test]
fn value_map_gives_its_entries_in_order_of_first_insertion() {
    let mut map = ValueMap::new();
    map.insert(String::from("b"), Value::Int(1));
    map.insert(String::from("a"), Value::Int(2));
    map.insert(String::from("b"), Value::Int(3));
    assert_eq!(
        map.entries(),
        &vec![
            (String::from("b"), Value::Int(3)),
            (String::from("a"), Value::Int(2)),
        ]
    );
    assert_eq!(
        map.into_entries(),
        vec![
            (String::from("b"), Value::Int(3)),
            (String::from("a"), Value::Int(2)),
        ]
    );
}
