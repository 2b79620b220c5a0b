use avro_decode::decode;
use avro_decode::decode::decode_block_count;
use avro_decode::decode::decode_enum;
use avro_decode::varint::MAX_ALLOCATION_BYTES;
use avro_decode::DecodeError;
use avro_decode::Name;
use avro_decode::Reader;
use avro_decode::RecordField;
use avro_decode::Schema;
use avro_decode::UnionSchema;
use avro_decode::Value;
use avro_decode::ValueMap;

/// Writes `n` the way the format does: zig-zag, then seven bits to a byte.
fn long_bytes(n: i64) -> Vec<u8> {
    let mut z = ((n << 1) ^ (n >> 63)) as u64;
    let mut bytes = Vec::new();
    while z >= 0x80 {
        bytes.push((z & 0x7f) as u8 | 0x80);
        z >>= 7;
    }
    bytes.push(z as u8);
    bytes
}

fn array_of_int() -> Schema {
    Schema::Array(Box::new(Schema::Int))
}

fn map_of_int() -> Schema {
    Schema::Mapping(Box::new(Schema::Int))
}

fn one_two_three() -> Value {
    Value::Array(vec![Value::Int(1), Value::Int(2), Value::Int(3)])
}

fn map_of(entries: &[(&str, i32)]) -> Value {
    let mut map = ValueMap::new();
    for (key, value) in entries {
        map.insert(String::from(*key), Value::Int(*value));
    }
    Value::Mapping(map)
}

#[test]
fn empty_array_is_one_zero() {
    let mut reader = Reader::new(&[0x00, 0x55]);
    assert_eq!(decode(&array_of_int(), &mut reader), Ok(Value::Array(vec![])));
    assert_eq!(reader.position(), 1);
}

#[test]
fn empty_map_is_one_zero() {
    let mut reader = Reader::new(&[0x00]);
    assert_eq!(
        decode(&map_of_int(), &mut reader),
        Ok(Value::Mapping(ValueMap::new()))
    );
}

#[test]
fn array_in_one_block_or_several_is_the_same() {
    let mut one = Reader::new(&[6, 2, 4, 6, 0]);
    let mut two = Reader::new(&[2, 2, 4, 4, 6, 0]);
    let mut three = Reader::new(&[2, 2, 2, 4, 2, 6, 0]);
    assert_eq!(decode(&array_of_int(), &mut one), Ok(one_two_three()));
    assert_eq!(decode(&array_of_int(), &mut two), Ok(one_two_three()));
    assert_eq!(decode(&array_of_int(), &mut three), Ok(one_two_three()));
    assert_eq!(one.remaining(), 0);
    assert_eq!(two.remaining(), 0);
    assert_eq!(three.remaining(), 0);
}

#[test]
fn array_blocks_with_sizes_are_the_same() {
    let mut sized = Reader::new(&[5, 6, 2, 4, 6, 0]);
    assert_eq!(decode(&array_of_int(), &mut sized), Ok(one_two_three()));
    let mut mixed = Reader::new(&[3, 4, 2, 4, 2, 6, 0]);
    assert_eq!(decode(&array_of_int(), &mut mixed), Ok(one_two_three()));
    let mut wrong_size = Reader::new(&[5, 0x80, 0x01, 2, 4, 6, 0]);
    assert_eq!(decode(&array_of_int(), &mut wrong_size), Ok(one_two_three()));
    assert_eq!(wrong_size.remaining(), 0);
}

#[test]
fn array_of_nulls_takes_only_its_heads() {
    let mut reader = Reader::new(&[6, 0]);
    assert_eq!(
        decode(&Schema::Array(Box::new(Schema::Null)), &mut reader),
        Ok(Value::Array(vec![Value::Null, Value::Null, Value::Null]))
    );
    assert_eq!(reader.position(), 2);
}

#[test]
fn array_of_arrays() {
    let schema = Schema::Array(Box::new(array_of_int()));
    let mut reader = Reader::new(&[4, 2, 2, 0, 0, 0]);
    assert_eq!(
        decode(&schema, &mut reader),
        Ok(Value::Array(vec![
            Value::Array(vec![Value::Int(1)]),
            Value::Array(vec![]),
        ]))
    );
    assert_eq!(reader.remaining(), 0);
}

#[test]
fn array_without_its_end_is_end_of_input() {
    let mut reader = Reader::new(&[6, 2, 4, 6]);
    assert_eq!(decode(&array_of_int(), &mut reader), Err(DecodeError::UnexpectedEof));
    let mut reader = Reader::new(&[6, 2, 4]);
    assert_eq!(decode(&array_of_int(), &mut reader), Err(DecodeError::UnexpectedEof));
    let mut reader = Reader::new(&[]);
    assert_eq!(decode(&array_of_int(), &mut reader), Err(DecodeError::UnexpectedEof));
}

#[test]
fn block_count_forms() {
    let mut reader = Reader::new(&[0x00]);
    assert_eq!(decode_block_count(&mut reader), Ok(0));
    let mut reader = Reader::new(&[0x06]);
    assert_eq!(decode_block_count(&mut reader), Ok(3));
    let mut reader = Reader::new(&[0x05, 0x10]);
    assert_eq!(decode_block_count(&mut reader), Ok(3));
    assert_eq!(reader.position(), 2);
    let mut reader = Reader::new(&[0x05]);
    assert_eq!(decode_block_count(&mut reader), Err(DecodeError::UnexpectedEof));
}

#[test]
fn block_count_is_guarded() {
    let over = long_bytes(MAX_ALLOCATION_BYTES as i64 + 1);
    let mut reader = Reader::new(&over);
    assert_eq!(decode(&array_of_int(), &mut reader), Err(DecodeError::InvalidLength));
    let mut reader = Reader::new(&over);
    assert_eq!(decode(&map_of_int(), &mut reader), Err(DecodeError::InvalidLength));
    let mut negated = long_bytes(-(MAX_ALLOCATION_BYTES as i64) - 1);
    negated.push(0x00);
    let mut reader = Reader::new(&negated);
    assert_eq!(decode_block_count(&mut reader), Err(DecodeError::InvalidLength));
    let mut least = long_bytes(i64::MIN);
    least.push(0x00);
    let mut reader = Reader::new(&least);
    assert_eq!(decode(&array_of_int(), &mut reader), Err(DecodeError::InvalidLength));
    let mut most = long_bytes(-(MAX_ALLOCATION_BYTES as i64));
    most.push(0x00);
    let mut reader = Reader::new(&most);
    assert_eq!(decode_block_count(&mut reader), Ok(MAX_ALLOCATION_BYTES));
}

#[test]
fn map_in_one_block_or_several_is_the_same() {
    let expected = map_of(&[("a", 1), ("b", 2)]);
    let mut one = Reader::new(&[4, 2, b'a', 2, 2, b'b', 4, 0]);
    let mut two = Reader::new(&[2, 2, b'a', 2, 2, 2, b'b', 4, 0]);
    let mut sized = Reader::new(&[3, 12, 2, b'a', 2, 2, b'b', 4, 0]);
    assert_eq!(decode(&map_of_int(), &mut one), Ok(map_of(&[("a", 1), ("b", 2)])));
    assert_eq!(decode(&map_of_int(), &mut two), Ok(map_of(&[("a", 1), ("b", 2)])));
    assert_eq!(decode(&map_of_int(), &mut sized), Ok(expected));
}

#[test]
fn map_keeps_the_last_value_of_a_key() {
    let mut reader = Reader::new(&[4, 2, b'a', 2, 2, b'a', 4, 0]);
    let decoded = decode(&map_of_int(), &mut reader).unwrap();
    assert_eq!(decoded, map_of(&[("a", 2)]));
    let mut reader = Reader::new(&[2, 2, b'a', 2, 2, 2, b'a', 6, 0]);
    let decoded = decode(&map_of_int(), &mut reader).unwrap();
    match decoded {
        Value::Mapping(map) => {
            assert_eq!(map.len(), 1);
            assert_eq!(map.get(&String::from("a")), Some(&Value::Int(3)));
            assert_eq!(map.get(&String::from("b")), None);
        }
        other => panic!("not a map: {:?}", other),
    }
}

#[test]
fn map_key_must_be_utf8() {
    let mut reader = Reader::new(&[2, 2, 0xff, 2, 0]);
    assert_eq!(decode(&map_of_int(), &mut reader), Err(DecodeError::InvalidUtf8));
}

#[test]
fn union_takes_the_branch_of_its_index() {
    let schema = Schema::Union(UnionSchema::new(vec![Schema::Null, Schema::Int, Schema::String]));
    let mut reader = Reader::new(&[0x00]);
    assert_eq!(decode(&schema, &mut reader), Ok(Value::Union(Box::new(Value::Null))));
    let mut reader = Reader::new(&[0x02, 0x54]);
    assert_eq!(decode(&schema, &mut reader), Ok(Value::Union(Box::new(Value::Int(42)))));
    let mut reader = Reader::new(&[0x04, 0x04, b'h', b'i']);
    assert_eq!(
        decode(&schema, &mut reader),
        Ok(Value::Union(Box::new(Value::String(String::from("hi")))))
    );
}

#[test]
fn union_index_out_of_bounds_is_refused() {
    let schema = Schema::Union(UnionSchema::new(vec![Schema::Null, Schema::Int]));
    let mut reader = Reader::new(&[0x04]);
    assert_eq!(decode(&schema, &mut reader), Err(DecodeError::UnionIndexOutOfBounds));
    let mut reader = Reader::new(&[0x01]);
    assert_eq!(decode(&schema, &mut reader), Err(DecodeError::UnionIndexOutOfBounds));
    let far = long_bytes(i64::MAX);
    let mut reader = Reader::new(&far);
    assert_eq!(decode(&schema, &mut reader), Err(DecodeError::UnionIndexOutOfBounds));
    let none = Schema::Union(UnionSchema::new(vec![]));
    let mut reader = Reader::new(&[0x00]);
    assert_eq!(decode(&none, &mut reader), Err(DecodeError::UnionIndexOutOfBounds));
}

#[test]
fn union_accessor_gives_the_branches() {
    let union = UnionSchema::new(vec![Schema::Null, Schema::Long]);
    assert_eq!(union.variants(), &vec![Schema::Null, Schema::Long]);
}

#[test]
fn record_reads_its_fields_in_order() {
    let inner = Schema::Record {
        name: Name::new("inner"),
        fields: vec![
            RecordField { name: String::from("items"), schema: array_of_int() },
            RecordField {
                name: String::from("maybe"),
                schema: Schema::Union(UnionSchema::new(vec![Schema::Null, Schema::String])),
            },
        ],
    };
    let schema = Schema::Record {
        name: Name::new("outer"),
        fields: vec![
            RecordField { name: String::from("id"), schema: Schema::Long },
            RecordField { name: String::from("inner"), schema: inner },
            RecordField { name: String::from("flag"), schema: Schema::Boolean },
        ],
    };
    let mut reader = Reader::new(&[0x0e, 4, 2, 4, 0, 0x02, 0x02, b'x', 0x01]);
    assert_eq!(
        decode(&schema, &mut reader),
        Ok(Value::Record(vec![
            (String::from("id"), Value::Long(7)),
            (
                String::from("inner"),
                Value::Record(vec![
                    (
                        String::from("items"),
                        Value::Array(vec![Value::Int(1), Value::Int(2)]),
                    ),
                    (
                        String::from("maybe"),
                        Value::Union(Box::new(Value::String(String::from("x")))),
                    ),
                ]),
            ),
            (String::from("flag"), Value::Boolean(true)),
        ]))
    );
    assert_eq!(reader.remaining(), 0);
}

#[test]
fn record_without_fields_takes_no_bytes() {
    let schema = Schema::Record { name: Name::new("empty"), fields: vec![] };
    let mut reader = Reader::new(&[1]);
    assert_eq!(decode(&schema, &mut reader), Ok(Value::Record(vec![])));
    assert_eq!(reader.position(), 0);
}

#[test]
fn record_fails_where_a_field_fails() {
    let schema = Schema::Record {
        name: Name::new("pair"),
        fields: vec![
            RecordField { name: String::from("a"), schema: Schema::Int },
            RecordField { name: String::from("b"), schema: Schema::Boolean },
        ],
    };
    let mut reader = Reader::new(&[2, 2]);
    assert_eq!(decode(&schema, &mut reader), Err(DecodeError::NotABool));
    let mut reader = Reader::new(&[2]);
    assert_eq!(decode(&schema, &mut reader), Err(DecodeError::UnexpectedEof));
}

fn suits() -> Vec<String> {
    vec![
        String::from("spades"),
        String::from("hearts"),
        String::from("clubs"),
    ]
}

#[test]
fn enum_first_middle_and_last() {
    let schema = Schema::Enum { name: Name::new("suit"), symbols: suits() };
    let mut reader = Reader::new(&[0x00, 0x02, 0x04]);
    assert_eq!(
        decode(&schema, &mut reader),
        Ok(Value::Enum(0, String::from("spades")))
    );
    assert_eq!(
        decode(&schema, &mut reader),
        Ok(Value::Enum(1, String::from("hearts")))
    );
    assert_eq!(
        decode(&schema, &mut reader),
        Ok(Value::Enum(2, String::from("clubs")))
    );
}

#[test]
fn enum_index_out_of_bounds_is_refused() {
    let schema = Schema::Enum { name: Name::new("suit"), symbols: suits() };
    let mut reader = Reader::new(&[0x06]);
    assert_eq!(decode(&schema, &mut reader), Err(DecodeError::EnumIndexOutOfBounds));
    let mut reader = Reader::new(&[0x01]);
    assert_eq!(decode(&schema, &mut reader), Err(DecodeError::EnumIndexOutOfBounds));
    let mut reader = Reader::new(&[0x08]);
    assert_eq!(decode_enum(&suits(), &mut reader), Err(DecodeError::EnumIndexOutOfBounds));
    let mut reader = Reader::new(&[0x04]);
    assert_eq!(decode_enum(&suits(), &mut reader), Ok((2, String::from("clubs"))));
}

#[test]
fn one_schema_two_inputs() {
    let schema = Schema::Record {
        name: Name::new("pair"),
        fields: vec![
            RecordField { name: String::from("n"), schema: Schema::Int },
            RecordField { name: String::from("s"), schema: Schema::String },
        ],
    };
    let mut left = Reader::new(&[0x02, 0x02, b'l', 0x04, 0x04, b'l', b'l']);
    let mut right = Reader::new(&[0x0a, 0x02, b'r']);
    let left_first = decode(&schema, &mut left);
    let right_first = decode(&schema, &mut right);
    let left_second = decode(&schema, &mut left);
    let right_second = decode(&schema, &mut right);
    assert_eq!(
        left_first,
        Ok(Value::Record(vec![
            (String::from("n"), Value::Int(1)),
            (String::from("s"), Value::String(String::from("l"))),
        ]))
    );
    assert_eq!(
        right_first,
        Ok(Value::Record(vec![
            (String::from("n"), Value::Int(5)),
            (String::from("s"), Value::String(String::from("r"))),
        ]))
    );
    assert_eq!(
        left_second,
        Ok(Value::Record(vec![
            (String::from("n"), Value::Int(2)),
            (String::from("s"), Value::String(String::from("ll"))),
        ]))
    );
    assert_eq!(right_second, Err(DecodeError::UnexpectedEof));
}

#[test]
fn value_where_it_lies_does_not_matter() {
    let bytes = [6, 2, 4, 6, 0];
    let mut alone = Reader::new(&bytes);
    let mut within = Reader::new(&[0xff, 0xff, 6, 2, 4, 6, 0, 0x80, 0x80]);
    assert_eq!(within.read_exact(2), Ok(vec![0xff, 0xff]));
    assert_eq!(
        decode(&array_of_int(), &mut alone),
        decode(&array_of_int(), &mut within)
    );
    assert_eq!(within.position(), 7);
}
