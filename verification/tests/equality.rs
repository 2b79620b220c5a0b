use avro_decode::value::equality::maps_eq;
use avro_decode::value::equality::value_eq;
use avro_decode::Decimal;
use avro_decode::Duration;
use avro_decode::Value;
use avro_decode::ValueMap;

fn map_of(entries: &[(&str, i32)]) -> ValueMap {
    let mut map = ValueMap::new();
    for (key, value) in entries {
        map.insert(String::from(*key), Value::Int(*value));
    }
    map
}

fn one_of_each() -> Vec<Value> {
    vec![
        Value::Null,
        Value::Boolean(true),
        Value::Int(1),
        Value::Long(1),
        Value::Float(1),
        Value::Double(1),
        Value::Bytes(vec![1]),
        Value::String(String::from("1")),
        Value::Fixed(1, vec![1]),
        Value::Enum(1, String::from("1")),
        Value::Union(Box::new(Value::Int(1))),
        Value::Array(vec![Value::Int(1)]),
        Value::Mapping(map_of(&[("1", 1)])),
        Value::Record(vec![(String::from("1"), Value::Int(1))]),
        Value::Date(1),
        Value::Decimal(Decimal::from(vec![1])),
        Value::TimeMillis(1),
        Value::TimeMicros(1),
        Value::TimestampMillis(1),
        Value::TimestampMicros(1),
        Value::Duration(Duration::new(1, 1, 1)),
        Value::Uuid(1),
    ]
}

#[test]
fn a_value_is_equal_to_itself_and_to_no_other_kind() {
    let left = one_of_each();
    let right = one_of_each();
    for (i, a) in left.iter().enumerate() {
        for (j, b) in right.iter().enumerate() {
            assert_eq!(a == b, i == j, "{:?} {:?}", a, b);
            assert_eq!(value_eq(a, b), i == j);
        }
    }
}

#[test]
fn values_differ_where_their_content_differs() {
    assert_ne!(Value::Boolean(true), Value::Boolean(false));
    assert_ne!(Value::Int(1), Value::Int(2));
    assert_ne!(Value::Bytes(vec![1, 2]), Value::Bytes(vec![1]));
    assert_ne!(Value::Bytes(vec![1, 2]), Value::Bytes(vec![1, 3]));
    assert_ne!(Value::String(String::from("a")), Value::String(String::from("b")));
    assert_ne!(Value::Fixed(1, vec![1]), Value::Fixed(2, vec![1]));
    assert_ne!(Value::Fixed(1, vec![1]), Value::Fixed(1, vec![2]));
    assert_ne!(Value::Enum(0, String::from("a")), Value::Enum(1, String::from("a")));
    assert_ne!(Value::Enum(0, String::from("a")), Value::Enum(0, String::from("b")));
    assert_ne!(
        Value::Union(Box::new(Value::Int(1))),
        Value::Union(Box::new(Value::Int(2)))
    );
    assert_ne!(
        Value::Array(vec![Value::Int(1)]),
        Value::Array(vec![Value::Int(1), Value::Int(1)])
    );
    assert_ne!(
        Value::Array(vec![Value::Int(1), Value::Int(2)]),
        Value::Array(vec![Value::Int(2), Value::Int(1)])
    );
    assert_ne!(
        Value::Record(vec![(String::from("a"), Value::Int(1))]),
        Value::Record(vec![(String::from("b"), Value::Int(1))])
    );
    assert_ne!(
        Value::Record(vec![(String::from("a"), Value::Int(1))]),
        Value::Record(vec![(String::from("a"), Value::Int(2))])
    );
    assert_ne!(Value::Duration(Duration::new(1, 2, 3)), Value::Duration(Duration::new(1, 2, 4)));
    assert_ne!(Value::Uuid(1), Value::Uuid(2));
    assert_eq!(Value::Float(0x7fc0_0000), Value::Float(0x7fc0_0000));
    assert_ne!(Value::Float(0x0000_0000), Value::Float(0x8000_0000));
}

#[test]
fn maps_are_equal_in_any_order() {
    let forward = map_of(&[("a", 1), ("b", 2), ("c", 3)]);
    let backward = map_of(&[("c", 3), ("b", 2), ("a", 1)]);
    assert_eq!(forward, backward);
    assert!(maps_eq(&forward, &backward));
    assert_eq!(Value::Mapping(forward), Value::Mapping(backward));
    assert_eq!(map_of(&[("a", 1), ("a", 2)]), map_of(&[("a", 2)]));
    assert_eq!(map_of(&[]), ValueMap::new());
}

#[test]
fn maps_differ_in_keys_or_values() {
    assert_ne!(map_of(&[("a", 1)]), map_of(&[("a", 2)]));
    assert_ne!(map_of(&[("a", 1)]), map_of(&[("b", 1)]));
    assert_ne!(map_of(&[("a", 1)]), map_of(&[("a", 1), ("b", 2)]));
    assert_ne!(map_of(&[("a", 1), ("b", 2)]), map_of(&[("a", 1)]));
    assert_ne!(map_of(&[("a", 1), ("b", 2)]), map_of(&[("a", 1), ("c", 2)]));
    assert_ne!(map_of(&[]), map_of(&[("a", 1)]));
}

#[test]
fn decimals_inside_values_are_compared_by_number() {
    let short = Value::Array(vec![Value::Decimal(Decimal::from(vec![0xfe, 0x59]))]);
    let long = Value::Array(vec![Value::Decimal(Decimal::from(vec![0xff, 0xff, 0xfe, 0x59]))]);
    let other = Value::Array(vec![Value::Decimal(Decimal::from(vec![0x00, 0xfe, 0x59]))]);
    assert_eq!(short, long);
    assert_ne!(short, other);
    let mut left = ValueMap::new();
    left.insert(String::from("d"), Value::Decimal(Decimal::from(vec![0x7f])));
    let mut right = ValueMap::new();
    right.insert(String::from("d"), Value::Decimal(Decimal::from(vec![0x00, 0x7f])));
    assert_eq!(left, right);
}
