//! Decoding a value from bytes, led by its schema.
use vstd::pervasive::unreached;
use vstd::prelude::*;
use vstd::utf8::decode_utf8;
use vstd::utf8::valid_utf8;
use crate::decimal::Decimal;
use crate::duration::Duration;
use crate::endian::read_le_u32;
use crate::endian::read_le_u64;
use crate::error::DecodeError;
use crate::format::array_item;
use crate::format::lemma_block_count_advances;
use crate::format::map_entry;
use crate::format::parse_block_count;
use crate::format::parse_boolean;
use crate::format::parse_decimal;
use crate::format::parse_enum;
use crate::format::parse_blocks;
use crate::format::parse_bytes;
use crate::format::parse_fields;
use crate::format::parse_run;
use crate::format::parse_text;
use crate::format::parse_value;
use crate::reader::advanced;
use crate::reader::Reader;
use crate::schema::field_models;
use crate::schema::schema_models;
use crate::schema::symbol_models;
use crate::schema::UnionSchema;
use crate::schema::RecordField;
use crate::schema::Schema;
use crate::schema::SchemaModel;
use crate::uuid_text::parse_uuid;
use crate::value::entries_to_map;
use crate::value::named_models;
use crate::value::lemma_named_models_push;
use crate::value::lemma_value_models_push;
use crate::value::value_models;
use crate::value::Value;
use crate::value::ValueMap;
use crate::value::ValueModel;
use crate::varint::parse_len;
use crate::varint::safe_len;
use crate::varint::zag_i32;
use crate::varint::zag_i64;

verus! {

/// Calls `String::from_utf8`, which by its documentation gives the string
/// whose UTF-8 bytes are `bytes` where there is one, and an error where the
/// bytes are not UTF-8.
#[verifier::external_body]
fn string_from_utf8(bytes: Vec<u8>) -> (r: Option<String>)
    ensures
        match r {
            Some(text) => valid_utf8(bytes@) && text@ == decode_utf8(bytes@),
            None => !valid_utf8(bytes@),
        },
{
    match String::from_utf8(bytes) {
        Ok(text) => Some(text),
        Err(_) => None,
    }
}

/// Reads a 64-bit integer as a value.
pub fn decode_long(reader: &mut Reader) -> (r: Result<Value, DecodeError>)
    ensures
        advanced(*old(reader), *final(reader)),
        match parse_value(SchemaModel::Long, old(reader).data(), old(reader).pos()) {
            Ok((value, used)) => r matches Ok(v) && v@ == value && final(reader).pos() == old(reader).pos() + used,
            Err(e) => r == Err::<Value, DecodeError>(e),
        },
{
    match zag_i64(reader) {
        Ok(n) => Ok(Value::Long(n)),
        Err(e) => Err(e),
    }
}

/// Reads a 32-bit integer as a value.
pub fn decode_int(reader: &mut Reader) -> (r: Result<Value, DecodeError>)
    ensures
        advanced(*old(reader), *final(reader)),
        match parse_value(SchemaModel::Int, old(reader).data(), old(reader).pos()) {
            Ok((value, used)) => r matches Ok(v) && v@ == value && final(reader).pos() == old(reader).pos() + used,
            Err(e) => r == Err::<Value, DecodeError>(e),
        },
{
    match zag_i32(reader) {
        Ok(n) => Ok(Value::Int(n)),
        Err(e) => Err(e),
    }
}

/// Reads a length: a 64-bit integer that is neither negative nor above the
/// allocation ceiling.
pub fn decode_len(reader: &mut Reader) -> (r: Result<usize, DecodeError>)
    ensures
        advanced(*old(reader), *final(reader)),
        match parse_len(old(reader).data(), old(reader).pos()) {
            Ok((len, used)) => r == Ok::<usize, DecodeError>(len) && final(reader).pos() == old(reader).pos() + used,
            Err(e) => r == Err::<usize, DecodeError>(e),
        },
{
    match zag_i64(reader) {
        Ok(len) => safe_len(len),
        Err(e) => Err(e),
    }
}

/// Reads a run of bytes: its length, then the bytes.
pub fn decode_bytes(reader: &mut Reader) -> (r: Result<Vec<u8>, DecodeError>)
    ensures
        advanced(*old(reader), *final(reader)),
        match parse_bytes(old(reader).data(), old(reader).pos()) {
            Ok((bytes, used)) => r matches Ok(v) && v@ == bytes && final(reader).pos() == old(reader).pos() + used,
            Err(e) => r == Err::<Vec<u8>, DecodeError>(e),
        },
{
    match decode_len(reader) {
        Ok(len) => reader.read_exact(len),
        Err(e) => Err(e),
    }
}

/// Reads a string: a run of bytes that must be well-formed UTF-8.
pub fn decode_string(reader: &mut Reader) -> (r: Result<String, DecodeError>)
    ensures
        advanced(*old(reader), *final(reader)),
        match parse_text(old(reader).data(), old(reader).pos()) {
            Ok((text, used)) => r matches Ok(s) && s@ == text && final(reader).pos() == old(reader).pos() + used,
            Err(e) => r == Err::<String, DecodeError>(e),
        },
{
    match decode_bytes(reader) {
        Ok(bytes) => match string_from_utf8(bytes) {
            Some(text) => Ok(text),
            None => Err(DecodeError::InvalidUtf8),
        },
        Err(e) => Err(e),
    }
}

/// Reads the head of a block: the number of items in it, where zero ends the
/// collection. The byte size that follows a negative count is read and
/// dropped.
pub fn decode_block_count(reader: &mut Reader) -> (r: Result<usize, DecodeError>)
    ensures
        advanced(*old(reader), *final(reader)),
        match parse_block_count(old(reader).data(), old(reader).pos()) {
            Ok((count, used)) => r == Ok::<usize, DecodeError>(count) && final(reader).pos()
                == old(reader).pos() + used,
            Err(e) => r == Err::<usize, DecodeError>(e),
        },
{
    match zag_i64(reader) {
        Ok(raw) => {
            if raw >= 0 {
                safe_len(raw)
            } else {
                match zag_i64(reader) {
                    Ok(_) => {
                        if raw == i64::MIN {
                            Err(DecodeError::InvalidLength)
                        } else {
                            safe_len(-raw)
                        }
                    },
                    Err(e) => Err(e),
                }
            }
        },
        Err(e) => Err(e),
    }
}

/// Reads a boolean: one byte, which must be 0 or 1.
pub fn decode_boolean(reader: &mut Reader) -> (r: Result<bool, DecodeError>)
    ensures
        advanced(*old(reader), *final(reader)),
        match parse_boolean(old(reader).data(), old(reader).pos()) {
            Ok((b, used)) => r == Ok::<bool, DecodeError>(b) && final(reader).pos() == old(
                reader).pos() + used,
            Err(e) => r == Err::<bool, DecodeError>(e),
        },
{
    match reader.read_u8() {
        Ok(byte) => {
            if byte == 0 {
                Ok(false)
            } else if byte == 1 {
                Ok(true)
            } else {
                Err(DecodeError::NotABool)
            }
        },
        Err(e) => Err(e),
    }
}

/// Reads the bytes of a decimal laid over `inner`: as many bytes as a fixed
/// has, or a run of bytes; any other `inner` is refused before a byte is read.
pub fn decode_decimal(inner: &Schema, reader: &mut Reader) -> (r: Result<Decimal, DecodeError>)
    ensures
        advanced(*old(reader), *final(reader)),
        match parse_decimal(inner@, old(reader).data(), old(reader).pos()) {
            Ok((bytes, used)) => r matches Ok(d) && d@ == bytes && final(reader).pos() == old(
                reader).pos() + used,
            Err(e) => r == Err::<Decimal, DecodeError>(e),
        },
{
    proof {
        use_type_invariant(&*reader);
    }
    match inner {
        Schema::Fixed { size, .. } => match reader.read_exact(*size) {
            Ok(bytes) => Ok(Decimal::from(bytes)),
            Err(e) => Err(e),
        },
        Schema::Bytes => match decode_bytes(reader) {
            Ok(bytes) => Ok(Decimal::from(bytes)),
            Err(e) => Err(e),
        },
        _ => Err(DecodeError::DecimalSchema),
    }
}

/// Reads a symbol of an enum: its index, which must be one of `symbols`, and
/// the symbol there.
pub fn decode_enum(symbols: &Vec<String>, reader: &mut Reader) -> (r: Result<
    (i32, String),
    DecodeError,
>)
    ensures
        advanced(*old(reader), *final(reader)),
        match parse_enum(symbol_models(*symbols), old(reader).data(), old(reader).pos()) {
            Ok(((index, symbol), used)) => r matches Ok(found) && found.0 == index && found.1@
                == symbol && final(reader).pos() == old(reader).pos() + used,
            Err(e) => r == Err::<(i32, String), DecodeError>(e),
        },
{
    match zag_i32(reader) {
        Ok(index) => {
            if 0 <= index && (index as u64) < (symbols.len() as u64) {
                Ok((index, symbols[index as usize].clone()))
            } else {
                Err(DecodeError::EnumIndexOutOfBounds)
            }
        },
        Err(e) => Err(e),
    }
}

/// Reads a UUID: a string, parsed as the text of a UUID.
pub fn decode_uuid(reader: &mut Reader) -> (r: Result<u128, DecodeError>)
    ensures
        advanced(*old(reader), *final(reader)),
        match parse_value(SchemaModel::Uuid, old(reader).data(), old(reader).pos()) {
            Ok((value, used)) => r matches Ok(number) && value == ValueModel::Uuid(number)
                && final(reader).pos() == old(reader).pos() + used,
            Err(e) => r == Err::<u128, DecodeError>(e),
        },
{
    match decode_string(reader) {
        Ok(text) => parse_uuid(text.as_str()),
        Err(e) => Err(e),
    }
}

/// Reads a single-precision number: four bytes, the low end first. What is
/// returned is the bit pattern.
pub fn decode_float(reader: &mut Reader) -> (r: Result<u32, DecodeError>)
    ensures
        advanced(*old(reader), *final(reader)),
        match parse_value(SchemaModel::Float, old(reader).data(), old(reader).pos()) {
            Ok((value, used)) => r matches Ok(bits) && value == ValueModel::Float(bits) && final(
                reader).pos() == old(reader).pos() + used,
            Err(e) => r == Err::<u32, DecodeError>(e),
        },
{
    match reader.read_exact(4) {
        Ok(bytes) => {
            assert(bytes@.subrange(0, 4) =~= bytes@);
            Ok(read_le_u32(bytes.as_slice(), 0))
        },
        Err(e) => Err(e),
    }
}

/// Reads a double-precision number: eight bytes, the low end first. What is
/// returned is the bit pattern.
pub fn decode_double(reader: &mut Reader) -> (r: Result<u64, DecodeError>)
    ensures
        advanced(*old(reader), *final(reader)),
        match parse_value(SchemaModel::Double, old(reader).data(), old(reader).pos()) {
            Ok((value, used)) => r matches Ok(bits) && value == ValueModel::Double(bits) && final(
                reader).pos() == old(reader).pos() + used,
            Err(e) => r == Err::<u64, DecodeError>(e),
        },
{
    match reader.read_exact(8) {
        Ok(bytes) => {
            assert(bytes@.subrange(0, 8) =~= bytes@);
            Ok(read_le_u64(bytes.as_slice(), 0))
        },
        Err(e) => Err(e),
    }
}

/// Reads a duration: twelve bytes, which are three 32-bit words, each with its
/// low end first.
pub fn decode_duration(reader: &mut Reader) -> (r: Result<Duration, DecodeError>)
    ensures
        advanced(*old(reader), *final(reader)),
        match parse_value(SchemaModel::Duration, old(reader).data(), old(reader).pos()) {
            Ok((value, used)) => r matches Ok(d) && value == ValueModel::Duration(d) && final(
                reader).pos() == old(reader).pos() + used,
            Err(e) => r == Err::<Duration, DecodeError>(e),
        },
{
    match reader.read_exact(12) {
        Ok(bytes) => Ok(Duration::from_le_bytes(bytes.as_slice())),
        Err(e) => Err(e),
    }
}

/// Reads `count` items of an array whose items have the schema `inner`, and
/// puts them at the end of `items`.
fn decode_items(inner: &Schema, reader: &mut Reader, count: usize, items: &mut Vec<Value>) -> (r:
    Result<(), DecodeError>)
    ensures
        advanced(*old(reader), *final(reader)),
        match parse_run(array_item(inner@), old(reader).data(), old(reader).pos(), count as nat) {
            Ok((values, used)) => r is Ok && value_models(*final(items)) == value_models(
                *old(items),
            ) + values && final(reader).pos() == old(reader).pos() + used,
            Err(e) => r == Err::<(), DecodeError>(e),
        },
    decreases inner, 1nat,
{
    proof {
        use_type_invariant(&*reader);
    }
    let ghost data = reader.data();
    let ghost start = reader.pos();
    let ghost before = value_models(*items);
    let ghost item = array_item(inner@);
    let ghost mut done: Seq<ValueModel> = Seq::empty();
    let mut i: usize = 0;
    assert(before + done =~= before);
    while i < count
        invariant
            i <= count,
            data == old(reader).data(),
            start == old(reader).pos(),
            item == array_item(inner@),
            reader.data() == data,
            start <= reader.pos() <= data.len(),
            value_models(*items) == before + done,
            parse_run(item, data, start, count as nat) == (match parse_run(
                item,
                data,
                reader.pos(),
                (count - i) as nat,
            ) {
                Ok((rest, more)) => Ok::<(Seq<ValueModel>, nat), DecodeError>(
                    (done + rest, (reader.pos() - start + more) as nat),
                ),
                Err(e) => Err(e),
            }),
        decreases count - i,
    {
        match decode(inner, reader) {
            Ok(value) => {
                let ghost first = value@;
                proof {
                    match parse_run(item, data, reader.pos(), (count - i - 1) as nat) {
                        Ok((rest, more)) => {
                            assert(done + (seq![first] + rest) =~= done.push(first) + rest);
                        },
                        Err(e) => {},
                    }
                    done = done.push(first);
                }
                let ghost earlier = *items;
                items.push(value);
                proof {
                    lemma_value_models_push(earlier, *items, value);
                    assert(value_models(*items) =~= before + done);
                }
            },
            Err(e) => {
                return Err(e);
            },
        }
        i = i + 1;
    }
    assert(done + Seq::<ValueModel>::empty() =~= done);
    Ok(())
}

/// Reads the items of an array: block after block, up to the block of no
/// items.
fn decode_array(inner: &Schema, reader: &mut Reader) -> (r: Result<Vec<Value>, DecodeError>)
    ensures
        advanced(*old(reader), *final(reader)),
        match parse_blocks(array_item(inner@), old(reader).data(), old(reader).pos()) {
            Ok((values, used)) => r matches Ok(items) && value_models(items) == values && final(reader).pos() == old(reader).pos() + used,
            Err(e) => r == Err::<Vec<Value>, DecodeError>(e),
        },
    decreases inner, 2nat,
{
    proof {
        use_type_invariant(&*reader);
    }
    let ghost data = reader.data();
    let ghost start = reader.pos();
    let ghost item = array_item(inner@);
    let mut items: Vec<Value> = Vec::new();
    loop
        invariant
            data == old(reader).data(),
            start == old(reader).pos(),
            item == array_item(inner@),
            reader.data() == data,
            start <= reader.pos() <= data.len(),
            parse_blocks(item, data, start) == (match parse_blocks(item, data, reader.pos()) {
                Ok((rest, more)) => Ok::<(Seq<ValueModel>, nat), DecodeError>(
                    (value_models(items) + rest, (reader.pos() - start + more) as nat),
                ),
                Err(e) => Err(e),
            }),
        decreases data.len() - reader.pos(),
    {
        let ghost here = reader.pos();
        let ghost before = value_models(items);
        let count = match decode_block_count(reader) {
            Ok(count) => count,
            Err(e) => {
                return Err(e);
            },
        };
        proof {
            lemma_block_count_advances(data, here);
        }
        if count == 0 {
            assert(before + Seq::<ValueModel>::empty() =~= before);
            return Ok(items);
        }
        let _ = items.try_reserve(count);
        let ghost block = reader.pos();
        match decode_items(inner, reader, count, &mut items) {
            Ok(_) => {
                proof {
                    match parse_run(item, data, block, count as nat) {
                        Ok((values, used)) => {
                            match parse_blocks(item, data, reader.pos()) {
                                Ok((rest, more)) => {
                                    assert(before + (values + rest) =~= (before + values) + rest);
                                },
                                Err(e) => {},
                            }
                        },
                        Err(e) => {},
                    }
                }
            },
            Err(e) => {
                return Err(e);
            },
        }
    }
}

/// Reads `count` entries of a map whose values have the schema `inner`, and
/// inserts them into `map` in the order in which they are read.
fn decode_entries(
    inner: &Schema,
    reader: &mut Reader,
    count: usize,
    map: &mut ValueMap,
    Ghost(known): Ghost<Seq<(Seq<char>, ValueModel)>>,
) -> (r: Result<(), DecodeError>)
    requires
        old(map)@ == entries_to_map(known),
    ensures
        advanced(*old(reader), *final(reader)),
        match parse_run(map_entry(inner@), old(reader).data(), old(reader).pos(), count as nat) {
            Ok((entries, used)) => r is Ok && final(map)@ == entries_to_map(known + entries)
                && final(reader).pos() == old(reader).pos() + used,
            Err(e) => r == Err::<(), DecodeError>(e),
        },
    decreases inner, 1nat,
{
    proof {
        use_type_invariant(&*reader);
    }
    let ghost data = reader.data();
    let ghost start = reader.pos();
    let ghost item = map_entry(inner@);
    let ghost mut done: Seq<(Seq<char>, ValueModel)> = Seq::empty();
    let mut i: usize = 0;
    assert(known + done =~= known);
    while i < count
        invariant
            i <= count,
            data == old(reader).data(),
            start == old(reader).pos(),
            item == map_entry(inner@),
            reader.data() == data,
            start <= reader.pos() <= data.len(),
            map@ == entries_to_map(known + done),
            parse_run(item, data, start, count as nat) == (match parse_run(
                item,
                data,
                reader.pos(),
                (count - i) as nat,
            ) {
                Ok((rest, more)) => Ok::<(Seq<(Seq<char>, ValueModel)>, nat), DecodeError>(
                    (done + rest, (reader.pos() - start + more) as nat),
                ),
                Err(e) => Err(e),
            }),
        decreases count - i,
    {
        let key = match decode_string(reader) {
            Ok(key) => key,
            Err(e) => {
                return Err(e);
            },
        };
        let value = match decode(inner, reader) {
            Ok(value) => value,
            Err(e) => {
                return Err(e);
            },
        };
        proof {
            let entry = (key@, value@);
            match parse_run(item, data, reader.pos(), (count - i - 1) as nat) {
                Ok((rest, more)) => {
                    assert(done + (seq![entry] + rest) =~= done.push(entry) + rest);
                },
                Err(e) => {},
            }
            assert((known + done.push(entry)).drop_last() =~= known + done);
            done = done.push(entry);
        }
        map.insert(key, value);
        i = i + 1;
    }
    assert(done + Seq::<(Seq<char>, ValueModel)>::empty() =~= done);
    Ok(())
}

/// Reads the entries of a map: block after block, up to the block of no
/// entries. Of two entries with one key, the later one stays.
fn decode_map(inner: &Schema, reader: &mut Reader) -> (r: Result<ValueMap, DecodeError>)
    ensures
        advanced(*old(reader), *final(reader)),
        match parse_blocks(map_entry(inner@), old(reader).data(), old(reader).pos()) {
            Ok((entries, used)) => r matches Ok(map) && map@ == entries_to_map(entries) && final(
                reader).pos() == old(reader).pos() + used,
            Err(e) => r == Err::<ValueMap, DecodeError>(e),
        },
    decreases inner, 2nat,
{
    proof {
        use_type_invariant(&*reader);
    }
    let ghost data = reader.data();
    let ghost start = reader.pos();
    let ghost item = map_entry(inner@);
    let ghost mut known: Seq<(Seq<char>, ValueModel)> = Seq::empty();
    let mut map = ValueMap::new();
    loop
        invariant
            data == old(reader).data(),
            start == old(reader).pos(),
            item == map_entry(inner@),
            reader.data() == data,
            start <= reader.pos() <= data.len(),
            map@ == entries_to_map(known),
            parse_blocks(item, data, start) == (match parse_blocks(item, data, reader.pos()) {
                Ok((rest, more)) => Ok::<(Seq<(Seq<char>, ValueModel)>, nat), DecodeError>(
                    (known + rest, (reader.pos() - start + more) as nat),
                ),
                Err(e) => Err(e),
            }),
        decreases data.len() - reader.pos(),
    {
        let ghost here = reader.pos();
        let count = match decode_block_count(reader) {
            Ok(count) => count,
            Err(e) => {
                return Err(e);
            },
        };
        proof {
            lemma_block_count_advances(data, here);
        }
        if count == 0 {
            assert(known + Seq::<(Seq<char>, ValueModel)>::empty() =~= known);
            return Ok(map);
        }
        map.reserve(count);
        let ghost block = reader.pos();
        match decode_entries(inner, reader, count, &mut map, Ghost(known)) {
            Ok(_) => {
                proof {
                    match parse_run(item, data, block, count as nat) {
                        Ok((entries, used)) => {
                            match parse_blocks(item, data, reader.pos()) {
                                Ok((rest, more)) => {
                                    assert(known + (entries + rest) =~= (known + entries) + rest);
                                },
                                Err(e) => {},
                            }
                            known = known + entries;
                        },
                        Err(e) => {},
                    }
                }
            },
            Err(e) => {
                return Err(e);
            },
        }
    }
}

/// Reads the fields of a record, one value per field in the order of the
/// schema, and gives each the name of its field.
fn decode_record(fields: &Vec<RecordField>, reader: &mut Reader) -> (r: Result<
    Vec<(String, Value)>,
    DecodeError,
>)
    ensures
        advanced(*old(reader), *final(reader)),
        match parse_fields(field_models(*fields), 0, old(reader).data(), old(reader).pos()) {
            Ok((values, used)) => r matches Ok(named) && named_models(named) == values && final(
                reader).pos() == old(reader).pos() + used,
            Err(e) => r == Err::<Vec<(String, Value)>, DecodeError>(e),
        },
    decreases fields, 1nat,
{
    proof {
        use_type_invariant(&*reader);
    }
    let ghost data = reader.data();
    let ghost start = reader.pos();
    let ghost models = field_models(*fields);
    let mut named: Vec<(String, Value)> = Vec::with_capacity(fields.len());
    let mut i: usize = 0;
    assert(named_models(named) + Seq::<(Seq<char>, ValueModel)>::empty() =~= named_models(named));
    while i < fields.len()
        invariant
            i <= fields.len(),
            data == old(reader).data(),
            start == old(reader).pos(),
            models == field_models(*fields),
            reader.data() == data,
            start <= reader.pos() <= data.len(),
            parse_fields(models, 0, data, start) == (match parse_fields(
                models,
                i as int,
                data,
                reader.pos(),
            ) {
                Ok((rest, more)) => Ok::<(Seq<(Seq<char>, ValueModel)>, nat), DecodeError>(
                    (named_models(named) + rest, (reader.pos() - start + more) as nat),
                ),
                Err(e) => Err(e),
            }),
        decreases fields.len() - i,
    {
        let field = &fields[i];
        match decode(&field.schema, reader) {
            Ok(value) => {
                let name = field.name.clone();
                let ghost earlier = named;
                proof {
                    let entry = (name@, value@);
                    match parse_fields(models, i + 1, data, reader.pos()) {
                        Ok((rest, more)) => {
                            assert(named_models(earlier) + (seq![entry] + rest) =~= named_models(
                                earlier,
                            ).push(entry) + rest);
                        },
                        Err(e) => {},
                    }
                }
                named.push((name, value));
                proof {
                    lemma_named_models_push(earlier, named, name, value);
                }
            },
            Err(e) => {
                return Err(e);
            },
        }
        i = i + 1;
    }
    Ok(named)
}

/// Reads a value of a union: the index of a branch, which must be one of the
/// union's, and then a value of that branch.
fn decode_union(union: &UnionSchema, reader: &mut Reader) -> (r: Result<Value, DecodeError>)
    ensures
        advanced(*old(reader), *final(reader)),
        match parse_value(
            SchemaModel::Union(schema_models(union.schemas)),
            old(reader).data(),
            old(reader).pos(),
        ) {
            Ok((value, used)) => r matches Ok(v) && v@ == value && final(reader).pos() == old(
                reader).pos() + used,
            Err(e) => r == Err::<Value, DecodeError>(e),
        },
    decreases union, 1nat,
{
    match zag_i64(reader) {
        Ok(index) => {
            let variants = union.variants();
            if 0 <= index && (index as u64) < (variants.len() as u64) {
                match decode(&variants[index as usize], reader) {
                    Ok(value) => Ok(Value::Union(Box::new(value))),
                    Err(e) => Err(e),
                }
            } else {
                Err(DecodeError::UnionIndexOutOfBounds)
            }
        },
        Err(e) => Err(e),
    }
}

/// Whether `schema` is one of the eight primitive kinds.
pub open spec fn is_primitive(schema: Schema) -> bool {
    schema is Null || schema is Boolean || schema is Int || schema is Long || schema is Float
        || schema is Double || schema is Bytes || schema is String
}

/// Whether `schema` is one of the kinds that lay a meaning over the encoding
/// of another kind.
pub open spec fn is_logical(schema: Schema) -> bool {
    schema is Decimal || schema is Uuid || schema is Date || schema is TimeMillis
        || schema is TimeMicros || schema is TimestampMillis || schema is TimestampMicros
        || schema is Duration
}

/// Reads a value of a primitive kind.
fn decode_primitive(schema: &Schema, reader: &mut Reader) -> (r: Result<Value, DecodeError>)
    requires
        is_primitive(*schema),
    ensures
        advanced(*old(reader), *final(reader)),
        match parse_value(schema@, old(reader).data(), old(reader).pos()) {
            Ok((value, used)) => r matches Ok(v) && v@ == value && final(reader).pos() == old(
                reader).pos() + used,
            Err(e) => r == Err::<Value, DecodeError>(e),
        },
{
    proof {
        use_type_invariant(&*reader);
    }
    match schema {
        Schema::Null => Ok(Value::Null),
        Schema::Boolean => match decode_boolean(reader) {
            Ok(b) => Ok(Value::Boolean(b)),
            Err(e) => Err(e),
        },
        Schema::Int => decode_int(reader),
        Schema::Long => decode_long(reader),
        Schema::Float => match decode_float(reader) {
            Ok(bits) => Ok(Value::Float(bits)),
            Err(e) => Err(e),
        },
        Schema::Double => match decode_double(reader) {
            Ok(bits) => Ok(Value::Double(bits)),
            Err(e) => Err(e),
        },
        Schema::Bytes => match decode_bytes(reader) {
            Ok(bytes) => Ok(Value::Bytes(bytes)),
            Err(e) => Err(e),
        },
        Schema::String => match decode_string(reader) {
            Ok(text) => Ok(Value::String(text)),
            Err(e) => Err(e),
        },
        _ => unreached(),
    }
}

/// Reads a value of a kind that lays a meaning over the encoding of another
/// kind.
fn decode_logical(schema: &Schema, reader: &mut Reader) -> (r: Result<Value, DecodeError>)
    requires
        is_logical(*schema),
    ensures
        advanced(*old(reader), *final(reader)),
        match parse_value(schema@, old(reader).data(), old(reader).pos()) {
            Ok((value, used)) => r matches Ok(v) && v@ == value && final(reader).pos() == old(
                reader).pos() + used,
            Err(e) => r == Err::<Value, DecodeError>(e),
        },
{
    match schema {
        Schema::Decimal { inner, .. } => match decode_decimal(inner, reader) {
            Ok(decimal) => Ok(Value::Decimal(decimal)),
            Err(e) => Err(e),
        },
        Schema::Uuid => match decode_uuid(reader) {
            Ok(number) => Ok(Value::Uuid(number)),
            Err(e) => Err(e),
        },
        Schema::Date => match zag_i32(reader) {
            Ok(n) => Ok(Value::Date(n)),
            Err(e) => Err(e),
        },
        Schema::TimeMillis => match zag_i32(reader) {
            Ok(n) => Ok(Value::TimeMillis(n)),
            Err(e) => Err(e),
        },
        Schema::TimeMicros => match zag_i64(reader) {
            Ok(n) => Ok(Value::TimeMicros(n)),
            Err(e) => Err(e),
        },
        Schema::TimestampMillis => match zag_i64(reader) {
            Ok(n) => Ok(Value::TimestampMillis(n)),
            Err(e) => Err(e),
        },
        Schema::TimestampMicros => match zag_i64(reader) {
            Ok(n) => Ok(Value::TimestampMicros(n)),
            Err(e) => Err(e),
        },
        Schema::Duration => match decode_duration(reader) {
            Ok(duration) => Ok(Value::Duration(duration)),
            Err(e) => Err(e),
        },
        _ => unreached(),
    }
}

/// Reads a value of the shape that `schema` describes from where `reader`
/// stands, and leaves `reader` just after the value.
///
/// The result is what [`parse_value`] makes of the buffer at the reader's
/// position: the value where it gives a value, with the reader moved on by the
/// bytes of the value, and its error where it gives none. After an error the
/// reader stands where it stood or further on, at a place that depends on how
/// far reading went.
#[verifier::rlimit(30)]
pub fn decode(schema: &Schema, reader: &mut Reader) -> (r: Result<Value, DecodeError>)
    ensures
        advanced(*old(reader), *final(reader)),
        match parse_value(schema@, old(reader).data(), old(reader).pos()) {
            Ok((value, used)) => r matches Ok(v) && v@ == value && final(reader).pos() == old(
                reader).pos() + used,
            Err(e) => r == Err::<Value, DecodeError>(e),
        },
    decreases schema, 0nat,
{
    match schema {
        Schema::Array(inner) => match decode_array(inner, reader) {
            Ok(items) => Ok(Value::Array(items)),
            Err(e) => Err(e),
        },
        Schema::Mapping(inner) => match decode_map(inner, reader) {
            Ok(map) => Ok(Value::Mapping(map)),
            Err(e) => Err(e),
        },
        Schema::Union(union) => decode_union(union, reader),
        Schema::Record { fields, .. } => match decode_record(fields, reader) {
            Ok(named) => Ok(Value::Record(named)),
            Err(e) => Err(e),
        },
        Schema::Enum { symbols, .. } => match decode_enum(symbols, reader) {
            Ok((index, symbol)) => Ok(Value::Enum(index, symbol)),
            Err(e) => Err(e),
        },
        Schema::Fixed { size, .. } => match reader.read_exact(*size) {
            Ok(bytes) => Ok(Value::Fixed(*size, bytes)),
            Err(e) => Err(e),
        },
        Schema::Null | Schema::Boolean | Schema::Int | Schema::Long | Schema::Float
        | Schema::Double | Schema::Bytes | Schema::String => decode_primitive(schema, reader),
        _ => decode_logical(schema, reader),
    }
}

} // verus!
