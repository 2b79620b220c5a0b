//! The wire format, as mathematics: what each schema makes of the bytes at a
//! position of a buffer.
//!
//! Every function here takes the whole buffer and the position to read at, and
//! gives what stands there together with the number of bytes that it takes up.
use vstd::prelude::*;
use vstd::utf8::decode_utf8;
use vstd::utf8::valid_utf8;
use crate::duration::duration_of_bytes;
use crate::endian::le_u32;
use crate::endian::le_u64;
use crate::error::DecodeError;
use crate::reader::parse_exact;
use crate::reader::parse_u8;
use crate::reader::Parsed;
use crate::schema::FieldModel;
use crate::schema::SchemaModel;
use crate::uuid_text::uuid_of_text;
use crate::value::entries_to_map;
use crate::value::ValueModel;
use crate::varint::checked_len;
use crate::varint::lemma_parse_long_bounds;
use crate::varint::parse_int;
use crate::varint::parse_len;
use crate::varint::parse_long;

verus! {

/// What reads one item of a collection at a position of a buffer.
pub type ItemParser<T> = spec_fn(Seq<u8>, int) -> Parsed<T>;

/// How many bytes of `data` lie at or after `pos`.
pub open spec fn unread(data: Seq<u8>, pos: int) -> nat {
    if 0 <= pos <= data.len() {
        (data.len() - pos) as nat
    } else {
        0
    }
}

/// A run of bytes: its length, then the bytes.
pub open spec fn parse_bytes(data: Seq<u8>, pos: int) -> Parsed<Seq<u8>> {
    match parse_len(data, pos) {
        Ok((len, used)) => match parse_exact(data, pos + used, len as nat) {
            Ok((bytes, more)) => Ok((bytes, used + more)),
            Err(e) => Err(e),
        },
        Err(e) => Err(e),
    }
}

/// A string: a run of bytes that is well-formed UTF-8.
pub open spec fn parse_text(data: Seq<u8>, pos: int) -> Parsed<Seq<char>> {
    match parse_bytes(data, pos) {
        Ok((bytes, used)) => if valid_utf8(bytes) {
            Ok((decode_utf8(bytes), used))
        } else {
            Err(DecodeError::InvalidUtf8)
        },
        Err(e) => Err(e),
    }
}

/// The head of a block: how many items the block holds. A count of zero ends
/// the collection. A negative count is followed by the block's size in bytes,
/// which is read and not used, and stands for its own negation.
pub open spec fn parse_block_count(data: Seq<u8>, pos: int) -> Parsed<usize> {
    match parse_long(data, pos) {
        Ok((raw, used)) => if raw >= 0 {
            match checked_len(raw as int) {
                Ok(count) => Ok((count, used)),
                Err(e) => Err(e),
            }
        } else {
            match parse_long(data, pos + used) {
                Ok((_, more)) => match checked_len(-raw) {
                    Ok(count) => Ok((count, used + more)),
                    Err(e) => Err(e),
                },
                Err(e) => Err(e),
            }
        },
        Err(e) => Err(e),
    }
}

/// A boolean: one byte, which is 0 for false and 1 for true.
pub open spec fn parse_boolean(data: Seq<u8>, pos: int) -> Parsed<bool> {
    match parse_u8(data, pos) {
        Ok((byte, used)) => if byte == 0 {
            Ok((false, used))
        } else if byte == 1 {
            Ok((true, used))
        } else {
            Err(DecodeError::NotABool)
        },
        Err(e) => Err(e),
    }
}

/// The bytes of a decimal laid over `inner`, which has to be fixed or bytes.
/// The number of bytes is that of the fixed or the one written before the
/// bytes; it need not be the least that the precision asks for.
pub open spec fn parse_decimal(inner: SchemaModel, data: Seq<u8>, pos: int) -> Parsed<Seq<u8>> {
    match inner {
        SchemaModel::Fixed { size, .. } => parse_exact(data, pos, size),
        SchemaModel::Bytes => parse_bytes(data, pos),
        _ => Err(DecodeError::DecimalSchema),
    }
}

/// A symbol of an enum: its index among `symbols`, written as a 32-bit
/// integer, and the symbol at that index.
pub open spec fn parse_enum(symbols: Seq<Seq<char>>, data: Seq<u8>, pos: int) -> Parsed<
    (i32, Seq<char>),
> {
    match parse_int(data, pos) {
        Ok((index, used)) => if 0 <= index < symbols.len() {
            Ok(((index, symbols[index as int]), used))
        } else {
            Err(DecodeError::EnumIndexOutOfBounds)
        },
        Err(e) => Err(e),
    }
}

/// The head of a block takes up at least one byte, all within the buffer.
pub proof fn lemma_block_count_advances(data: Seq<u8>, pos: int)
    ensures
        match parse_block_count(data, pos) {
            Ok((count, used)) => 0 <= pos && 1 <= used && pos + used <= data.len(),
            Err(e) => true,
        },
{
    lemma_parse_long_bounds(data, pos);
    match parse_long(data, pos) {
        Ok((raw, used)) => {
            lemma_parse_long_bounds(data, pos + used);
        },
        Err(e) => {},
    }
}

/// `count` items, one after another.
pub open spec fn parse_run<T>(item: ItemParser<T>, data: Seq<u8>, pos: int, count: nat) -> Parsed<
    Seq<T>,
>
    decreases count,
{
    if count == 0 {
        Ok((Seq::empty(), 0))
    } else {
        match item(data, pos) {
            Ok((first, used)) => match parse_run(item, data, pos + used, (count - 1) as nat) {
                Ok((rest, more)) => Ok((seq![first] + rest, used + more)),
                Err(e) => Err(e),
            },
            Err(e) => Err(e),
        }
    }
}

/// The items of a collection: block after block, up to the block of no items.
pub open spec fn parse_blocks<T>(item: ItemParser<T>, data: Seq<u8>, pos: int) -> Parsed<Seq<T>>
    decreases unread(data, pos),
{
    match parse_block_count(data, pos) {
        Ok((count, used)) => if count == 0 {
            Ok((Seq::empty(), used))
        } else {
            match parse_run(item, data, pos + used, count as nat) {
                Ok((items, more)) => match parse_blocks(item, data, pos + used + more) {
                    Ok((rest, tail)) => Ok((items + rest, used + more + tail)),
                    Err(e) => Err(e),
                },
                Err(e) => Err(e),
            }
        },
        Err(e) => Err(e),
    }
}

/// Reads an item of an array whose items have the schema `inner`.
pub open spec fn array_item(inner: SchemaModel) -> ItemParser<ValueModel>
    decreases inner, 1nat, 0nat,
{
    |data: Seq<u8>, pos: int| parse_value(inner, data, pos)
}

/// Reads an entry of a map whose values have the schema `inner`: the key, a
/// string, and then the value.
pub open spec fn map_entry(inner: SchemaModel) -> ItemParser<(Seq<char>, ValueModel)>
    decreases inner, 1nat, 0nat,
{
    |data: Seq<u8>, pos: int|
        match parse_text(data, pos) {
            Ok((key, used)) => match parse_value(inner, data, pos + used) {
                Ok((value, more)) => Ok(((key, value), used + more)),
                Err(e) => Err(e),
            },
            Err(e) => Err(e),
        }
}

/// The values of the fields of `fields` from the one at `from` on, each with
/// the field's name.
pub open spec fn parse_fields(fields: Seq<FieldModel>, from: int, data: Seq<u8>, pos: int)
    -> Parsed<Seq<(Seq<char>, ValueModel)>>
    decreases fields, 0nat, fields.len() - from,
{
    if 0 <= from < fields.len() {
        match parse_value(fields[from].schema, data, pos) {
            Ok((value, used)) => match parse_fields(fields, from + 1, data, pos + used) {
                Ok((rest, more)) => Ok((seq![(fields[from].name, value)] + rest, used + more)),
                Err(e) => Err(e),
            },
            Err(e) => Err(e),
        }
    } else {
        Ok((Seq::empty(), 0))
    }
}

/// The value that `schema` makes of the bytes of `data` at `pos`.
pub open spec fn parse_value(schema: SchemaModel, data: Seq<u8>, pos: int) -> Parsed<ValueModel>
    decreases schema, 0nat, 0nat,
{
    match schema {
        SchemaModel::Null => Ok((ValueModel::Null, 0)),
        SchemaModel::Boolean => match parse_boolean(data, pos) {
            Ok((b, used)) => Ok((ValueModel::Boolean(b), used)),
            Err(e) => Err(e),
        },
        SchemaModel::Int => match parse_int(data, pos) {
            Ok((n, used)) => Ok((ValueModel::Int(n), used)),
            Err(e) => Err(e),
        },
        SchemaModel::Date => match parse_int(data, pos) {
            Ok((n, used)) => Ok((ValueModel::Date(n), used)),
            Err(e) => Err(e),
        },
        SchemaModel::TimeMillis => match parse_int(data, pos) {
            Ok((n, used)) => Ok((ValueModel::TimeMillis(n), used)),
            Err(e) => Err(e),
        },
        SchemaModel::Long => match parse_long(data, pos) {
            Ok((n, used)) => Ok((ValueModel::Long(n), used)),
            Err(e) => Err(e),
        },
        SchemaModel::TimeMicros => match parse_long(data, pos) {
            Ok((n, used)) => Ok((ValueModel::TimeMicros(n), used)),
            Err(e) => Err(e),
        },
        SchemaModel::TimestampMillis => match parse_long(data, pos) {
            Ok((n, used)) => Ok((ValueModel::TimestampMillis(n), used)),
            Err(e) => Err(e),
        },
        SchemaModel::TimestampMicros => match parse_long(data, pos) {
            Ok((n, used)) => Ok((ValueModel::TimestampMicros(n), used)),
            Err(e) => Err(e),
        },
        SchemaModel::Float => match parse_exact(data, pos, 4) {
            Ok((bytes, used)) => Ok((ValueModel::Float(le_u32(bytes)), used)),
            Err(e) => Err(e),
        },
        SchemaModel::Double => match parse_exact(data, pos, 8) {
            Ok((bytes, used)) => Ok((ValueModel::Double(le_u64(bytes)), used)),
            Err(e) => Err(e),
        },
        SchemaModel::Bytes => match parse_bytes(data, pos) {
            Ok((bytes, used)) => Ok((ValueModel::Bytes(bytes), used)),
            Err(e) => Err(e),
        },
        SchemaModel::String => match parse_text(data, pos) {
            Ok((text, used)) => Ok((ValueModel::String(text), used)),
            Err(e) => Err(e),
        },
        SchemaModel::Fixed { size, .. } => match parse_exact(data, pos, size) {
            Ok((bytes, used)) => Ok((ValueModel::Fixed(size, bytes), used)),
            Err(e) => Err(e),
        },
        SchemaModel::Duration => match parse_exact(data, pos, 12) {
            Ok((bytes, used)) => Ok((ValueModel::Duration(duration_of_bytes(bytes)), used)),
            Err(e) => Err(e),
        },
        SchemaModel::Uuid => match parse_text(data, pos) {
            Ok((text, used)) => match uuid_of_text(text) {
                Some(number) => Ok((ValueModel::Uuid(number), used)),
                None => Err(DecodeError::InvalidUuid),
            },
            Err(e) => Err(e),
        },
        SchemaModel::Decimal { inner, .. } => match parse_decimal(*inner, data, pos) {
            Ok((bytes, used)) => Ok((ValueModel::Decimal(bytes), used)),
            Err(e) => Err(e),
        },
        SchemaModel::Array(inner) => match parse_blocks(array_item(*inner), data, pos) {
            Ok((items, used)) => Ok((ValueModel::Array(items), used)),
            Err(e) => Err(e),
        },
        SchemaModel::Mapping(inner) => match parse_blocks(map_entry(*inner), data, pos) {
            Ok((entries, used)) => Ok((ValueModel::Mapping(entries_to_map(entries)), used)),
            Err(e) => Err(e),
        },
        SchemaModel::Union(variants) => match parse_long(data, pos) {
            Ok((index, used)) => if 0 <= index < variants.len() {
                match parse_value(variants[index as int], data, pos + used) {
                    Ok((value, more)) => Ok((ValueModel::Union(Box::new(value)), used + more)),
                    Err(e) => Err(e),
                }
            } else {
                Err(DecodeError::UnionIndexOutOfBounds)
            },
            Err(e) => Err(e),
        },
        SchemaModel::Record { fields, .. } => match parse_fields(fields, 0, data, pos) {
            Ok((values, used)) => Ok((ValueModel::Record(values), used)),
            Err(e) => Err(e),
        },
        SchemaModel::Enum { symbols, .. } => match parse_enum(symbols, data, pos) {
            Ok(((index, symbol), used)) => Ok((ValueModel::Enum(index, symbol), used)),
            Err(e) => Err(e),
        },
    }
}

} // verus!
