use avro_decode::decode;
use avro_decode::decode::decode_boolean;
use avro_decode::decode::decode_bytes;
use avro_decode::decode::decode_double;
use avro_decode::decode::decode_float;
use avro_decode::decode::decode_int;
use avro_decode::decode::decode_len;
use avro_decode::decode::decode_long;
use avro_decode::decode::decode_string;
use avro_decode::varint::safe_len;
use avro_decode::varint::zag_i32;
use avro_decode::varint::zag_i64;
use avro_decode::varint::MAX_ALLOCATION_BYTES;
use avro_decode::DecodeError;
use avro_decode::Name;
use avro_decode::Reader;
use avro_decode::Schema;
use avro_decode::Value;

/// Writes `n` the way the format does: zig-zag, then seven bits to a byte.
fn long_bytes(n: i64) -> Vec<u8> {
    let mut z = ((n << 1) ^ (n >> 63)) as u64;
    let mut bytes = Vec::new();
    while z >= 0x80 {
        bytes.push((z & 0x7f) as u8 | 0x80);
        z >>= 7;
    }
    bytes.push(z as u8);
    bytes
}

fn read_long(bytes: &[u8]) -> Result<i64, DecodeError> {
    let mut reader = Reader::new(bytes);
    zag_i64(&mut reader)
}

fn read_int(bytes: &[u8]) -> Result<i32, DecodeError> {
    let mut reader = Reader::new(bytes);
    zag_i32(&mut reader)
}

#[test]
fn null_takes_no_bytes() {
    let mut reader = Reader::new(&[7, 7]);
    assert_eq!(decode(&Schema::Null, &mut reader), Ok(Value::Null));
    assert_eq!(reader.position(), 0);
}

#[test]
fn boolean_false_and_true() {
    let mut reader = Reader::new(&[0, 1]);
    assert_eq!(decode(&Schema::Boolean, &mut reader), Ok(Value::Boolean(false)));
    assert_eq!(decode(&Schema::Boolean, &mut reader), Ok(Value::Boolean(true)));
    assert_eq!(reader.position(), 2);
}

#[test]
fn boolean_other_byte_is_refused() {
    let mut reader = Reader::new(&[2]);
    assert_eq!(decode(&Schema::Boolean, &mut reader), Err(DecodeError::NotABool));
    let mut reader = Reader::new(&[0xff]);
    assert_eq!(decode_boolean(&mut reader), Err(DecodeError::NotABool));
}

#[test]
fn boolean_needs_a_byte() {
    let mut reader = Reader::new(&[]);
    assert_eq!(decode(&Schema::Boolean, &mut reader), Err(DecodeError::UnexpectedEof));
}

#[test]
fn zigzag_small_values() {
    assert_eq!(read_long(&[0x00]), Ok(0));
    assert_eq!(read_long(&[0x01]), Ok(-1));
    assert_eq!(read_long(&[0x02]), Ok(1));
    assert_eq!(read_long(&[0x03]), Ok(-2));
    assert_eq!(read_long(&[0x7f]), Ok(-64));
    assert_eq!(read_long(&[0x80, 0x01]), Ok(64));
    assert_eq!(read_int(&[0x00]), Ok(0));
    assert_eq!(read_int(&[0x01]), Ok(-1));
    assert_eq!(read_int(&[0x02]), Ok(1));
    assert_eq!(read_int(&[0x80, 0x01]), Ok(64));
}

#[test]
fn int_boundaries() {
    assert_eq!(read_int(&[0xfe, 0xff, 0xff, 0xff, 0x0f]), Ok(i32::MAX));
    assert_eq!(read_int(&[0xff, 0xff, 0xff, 0xff, 0x0f]), Ok(i32::MIN));
    assert_eq!(read_int(&long_bytes(i32::MAX as i64)), Ok(i32::MAX));
    assert_eq!(read_int(&long_bytes(i32::MIN as i64)), Ok(i32::MIN));
}

#[test]
fn long_boundaries() {
    assert_eq!(
        read_long(&[0xfe, 0xff, 0xff, 0xff, 0xff, 0xff, 0xff, 0xff, 0xff, 0x01]),
        Ok(i64::MAX)
    );
    assert_eq!(
        read_long(&[0xff, 0xff, 0xff, 0xff, 0xff, 0xff, 0xff, 0xff, 0xff, 0x01]),
        Ok(i64::MIN)
    );
    for n in [0, -1, 1, i32::MIN as i64, i32::MAX as i64, i64::MIN, i64::MAX] {
        assert_eq!(read_long(&long_bytes(n)), Ok(n));
    }
}

#[test]
fn long_reads_only_its_own_bytes() {
    let mut reader = Reader::new(&[0x80, 0x01, 0x05]);
    assert_eq!(zag_i64(&mut reader), Ok(64));
    assert_eq!(reader.position(), 2);
    assert_eq!(reader.remaining(), 1);
}

#[test]
fn long_of_more_than_ten_bytes_is_refused() {
    let bytes = [0x80, 0x80, 0x80, 0x80, 0x80, 0x80, 0x80, 0x80, 0x80, 0x80, 0x00];
    assert_eq!(read_long(&bytes), Err(DecodeError::VarintTooLong));
    let ten = [0x80, 0x80, 0x80, 0x80, 0x80, 0x80, 0x80, 0x80, 0x80, 0x80];
    assert_eq!(read_long(&ten), Err(DecodeError::VarintTooLong));
}

#[test]
fn int_of_more_than_five_bytes_is_refused() {
    assert_eq!(
        read_int(&[0x80, 0x80, 0x80, 0x80, 0x80, 0x00]),
        Err(DecodeError::VarintTooLong)
    );
    assert_eq!(read_int(&[0x80, 0x80, 0x80, 0x80, 0x00]), Ok(0));
}

#[test]
fn integer_cut_short_is_end_of_input() {
    assert_eq!(read_long(&[]), Err(DecodeError::UnexpectedEof));
    assert_eq!(read_long(&[0x80]), Err(DecodeError::UnexpectedEof));
    assert_eq!(read_int(&[0xff, 0xff]), Err(DecodeError::UnexpectedEof));
}

#[test]
fn bits_beyond_the_width_are_dropped() {
    assert_eq!(read_int(&[0xff, 0xff, 0xff, 0xff, 0x7f]), Ok(i32::MIN));
    assert_eq!(read_int(&[0x80, 0x80, 0x80, 0x80, 0x10]), Ok(0));
    assert_eq!(
        read_long(&[0xff, 0xff, 0xff, 0xff, 0xff, 0xff, 0xff, 0xff, 0xff, 0x7f]),
        Ok(i64::MIN)
    );
    assert_eq!(
        read_long(&[0x80, 0x80, 0x80, 0x80, 0x80, 0x80, 0x80, 0x80, 0x80, 0x02]),
        Ok(0)
    );
}

#[test]
fn int_and_long_values() {
    let mut reader = Reader::new(&[0x03, 0x04]);
    assert_eq!(decode_int(&mut reader), Ok(Value::Int(-2)));
    assert_eq!(decode_long(&mut reader), Ok(Value::Long(2)));
    let mut reader = Reader::new(&[0x03, 0x04]);
    assert_eq!(decode(&Schema::Int, &mut reader), Ok(Value::Int(-2)));
    assert_eq!(decode(&Schema::Long, &mut reader), Ok(Value::Long(2)));
}

#[test]
fn safe_len_accepts_up_to_the_ceiling() {
    assert_eq!(safe_len(0), Ok(0));
    assert_eq!(safe_len(1), Ok(1));
    assert_eq!(safe_len(MAX_ALLOCATION_BYTES as i64), Ok(MAX_ALLOCATION_BYTES));
    assert_eq!(MAX_ALLOCATION_BYTES, 512 * 1024 * 1024);
}

#[test]
fn safe_len_refuses_negative_and_huge() {
    assert_eq!(safe_len(-1), Err(DecodeError::InvalidLength));
    assert_eq!(safe_len(i64::MIN), Err(DecodeError::InvalidLength));
    assert_eq!(
        safe_len(MAX_ALLOCATION_BYTES as i64 + 1),
        Err(DecodeError::InvalidLength)
    );
    assert_eq!(safe_len(i64::MAX), Err(DecodeError::InvalidLength));
}

#[test]
fn length_is_guarded_before_anything_is_read() {
    let mut reader = Reader::new(&[0x01]);
    assert_eq!(decode_len(&mut reader), Err(DecodeError::InvalidLength));
    let huge = long_bytes(i64::MAX);
    let mut reader = Reader::new(&huge);
    assert_eq!(decode(&Schema::Bytes, &mut reader), Err(DecodeError::InvalidLength));
    let mut reader = Reader::new(&huge);
    assert_eq!(decode(&Schema::String, &mut reader), Err(DecodeError::InvalidLength));
    let over = long_bytes(MAX_ALLOCATION_BYTES as i64 + 1);
    let mut reader = Reader::new(&over);
    assert_eq!(decode_bytes(&mut reader), Err(DecodeError::InvalidLength));
    let mut reader = Reader::new(&[0x06]);
    assert_eq!(decode_len(&mut reader), Ok(3));
}

#[test]
fn float_is_four_bytes_low_end_first() {
    let mut reader = Reader::new(&[0x00, 0x00, 0xc0, 0x3f]);
    assert_eq!(decode(&Schema::Float, &mut reader), Ok(Value::Float(0x3fc0_0000)));
    assert_eq!(f32::from_bits(0x3fc0_0000), 1.5f32);
    for x in [0.0f32, -0.0f32, 1.5f32, f32::MIN, f32::MAX, f32::INFINITY] {
        let bytes = x.to_le_bytes();
        let mut reader = Reader::new(&bytes);
        let bits = decode_float(&mut reader).unwrap();
        assert_eq!(bits, x.to_bits());
        assert_eq!(f32::from_bits(bits).to_bits(), x.to_bits());
    }
    let bytes = f32::NAN.to_le_bytes();
    let mut reader = Reader::new(&bytes);
    assert!(f32::from_bits(decode_float(&mut reader).unwrap()).is_nan());
}

#[test]
fn double_is_eight_bytes_low_end_first() {
    let mut reader = Reader::new(&[0x00, 0x00, 0x00, 0x00, 0x00, 0x00, 0xf8, 0x3f]);
    assert_eq!(
        decode(&Schema::Double, &mut reader),
        Ok(Value::Double(0x3ff8_0000_0000_0000))
    );
    assert_eq!(f64::from_bits(0x3ff8_0000_0000_0000), 1.5f64);
    for x in [0.0f64, -0.0f64, 2.25f64, f64::MIN, f64::MAX, f64::NEG_INFINITY] {
        let bytes = x.to_le_bytes();
        let mut reader = Reader::new(&bytes);
        let bits = decode_double(&mut reader).unwrap();
        assert_eq!(bits, x.to_bits());
    }
    let bytes = f64::NAN.to_le_bytes();
    let mut reader = Reader::new(&bytes);
    assert!(f64::from_bits(decode_double(&mut reader).unwrap()).is_nan());
}

#[test]
fn float_and_double_need_all_their_bytes() {
    let mut reader = Reader::new(&[0, 0, 0]);
    assert_eq!(decode(&Schema::Float, &mut reader), Err(DecodeError::UnexpectedEof));
    let mut reader = Reader::new(&[0, 0, 0, 0, 0, 0, 0]);
    assert_eq!(decode(&Schema::Double, &mut reader), Err(DecodeError::UnexpectedEof));
}

#[test]
fn bytes_empty_and_not() {
    let mut reader = Reader::new(&[0x00]);
    assert_eq!(decode(&Schema::Bytes, &mut reader), Ok(Value::Bytes(vec![])));
    let mut reader = Reader::new(&[0x06, 1, 2, 3, 9]);
    assert_eq!(decode(&Schema::Bytes, &mut reader), Ok(Value::Bytes(vec![1, 2, 3])));
    assert_eq!(reader.position(), 4);
}

#[test]
fn bytes_cut_short_is_end_of_input() {
    let mut reader = Reader::new(&[0x06, 1, 2]);
    assert_eq!(decode(&Schema::Bytes, &mut reader), Err(DecodeError::UnexpectedEof));
}

#[test]
fn string_empty_plain_and_multibyte() {
    let mut reader = Reader::new(&[0x00]);
    assert_eq!(decode(&Schema::String, &mut reader), Ok(Value::String(String::new())));
    let mut reader = Reader::new(&[0x06, b'f', b'o', b'o']);
    assert_eq!(
        decode(&Schema::String, &mut reader),
        Ok(Value::String(String::from("foo")))
    );
    let text = "h\u{e9}llo \u{4e16}\u{754c} \u{1f980}";
    let mut bytes = long_bytes(text.len() as i64);
    bytes.extend_from_slice(text.as_bytes());
    let mut reader = Reader::new(&bytes);
    assert_eq!(decode_string(&mut reader), Ok(String::from(text)));
    assert_eq!(reader.remaining(), 0);
}

#[test]
fn string_of_invalid_utf8_is_refused() {
    let mut reader = Reader::new(&[0x02, 0xff]);
    assert_eq!(decode(&Schema::String, &mut reader), Err(DecodeError::InvalidUtf8));
    let mut reader = Reader::new(&[0x04, 0xc3, 0x28]);
    assert_eq!(decode(&Schema::String, &mut reader), Err(DecodeError::InvalidUtf8));
    let mut reader = Reader::new(&[0x06, 0xed, 0xa0, 0x80]);
    assert_eq!(decode_string(&mut reader), Err(DecodeError::InvalidUtf8));
}

#[test]
fn fixed_of_no_bytes_and_of_some() {
    let empty = Schema::Fixed { name: Name::new("none"), size: 0 };
    let mut reader = Reader::new(&[]);
    assert_eq!(decode(&empty, &mut reader), Ok(Value::Fixed(0, vec![])));
    let four = Schema::Fixed { name: Name::new("four"), size: 4 };
    let mut reader = Reader::new(&[9, 8, 7, 6, 5]);
    assert_eq!(decode(&four, &mut reader), Ok(Value::Fixed(4, vec![9, 8, 7, 6])));
    assert_eq!(reader.position(), 4);
    let mut reader = Reader::new(&[9, 8, 7]);
    assert_eq!(decode(&four, &mut reader), Err(DecodeError::UnexpectedEof));
}
