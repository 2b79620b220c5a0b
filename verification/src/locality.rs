//! What is read depends on nothing but the bytes that it takes up.
//!
//! If a buffer holds something at a position, then any buffer that holds the
//! same bytes at any position holds the same thing there, whatever lies before
//! and after. Each lemma here says so of one part of the format.
use vstd::prelude::*;
use crate::format::array_item;
use crate::format::lemma_block_count_advances;
use crate::format::map_entry;
use crate::format::parse_block_count;
use crate::format::parse_blocks;
use crate::format::parse_boolean;
use crate::format::parse_bytes;
use crate::format::parse_decimal;
use crate::format::parse_enum;
use crate::format::parse_fields;
use crate::format::parse_run;
use crate::format::parse_text;
use crate::format::parse_value;
use crate::format::unread;
use crate::format::ItemParser;
use crate::reader::parse_exact;
use crate::reader::parse_u8;
use crate::schema::FieldModel;
use crate::schema::SchemaModel;
use crate::varint::lemma_parse_varint_bounds;
use crate::varint::parse_int;
use crate::varint::parse_len;
use crate::varint::parse_long;
use crate::varint::parse_varint;

verus! {

/// Whether `other` holds at `at` the `len` bytes that `data` holds at `pos`.
pub open spec fn same_window(data: Seq<u8>, pos: int, other: Seq<u8>, at: int, len: nat) -> bool {
    &&& 0 <= at
    &&& at + len <= other.len()
    &&& forall|j: int| at <= j < at + len ==> #[trigger] other[j] == data[j - at + pos]
}

/// Whether what `item` reads from `data` at `pos`, if it reads something, it
/// reads from `other` at `at` as well, provided the bytes are the same.
pub open spec fn local_at<T>(
    item: ItemParser<T>,
    data: Seq<u8>,
    pos: int,
    other: Seq<u8>,
    at: int,
) -> bool {
    match item(data, pos) {
        Ok((_, used)) => same_window(data, pos, other, at, used) ==> item(other, at) == item(
            data,
            pos,
        ),
        Err(_) => true,
    }
}

/// Whether what `item` reads depends on nothing but the bytes that it takes
/// up.
pub open spec fn is_local<T>(item: ItemParser<T>) -> bool {
    forall|data: Seq<u8>, pos: int, other: Seq<u8>, at: int| #[trigger]
        local_at(item, data, pos, other, at)
}

/// A byte is read alike wherever it lies.
pub proof fn lemma_u8_local(data: Seq<u8>, pos: int, other: Seq<u8>, at: int)
    requires
        parse_u8(data, pos) matches Ok((_, used)) && same_window(data, pos, other, at, used),
    ensures
        parse_u8(other, at) == parse_u8(data, pos),
{
    assert(other[at] == data[at - at + pos]);
}

/// A run of `n` bytes is read alike wherever it lies.
pub proof fn lemma_exact_local(data: Seq<u8>, pos: int, n: nat, other: Seq<u8>, at: int)
    requires
        parse_exact(data, pos, n) matches Ok((_, used)) && same_window(data, pos, other, at, used),
    ensures
        parse_exact(other, at, n) == parse_exact(data, pos, n),
{
    let theirs = other.subrange(at, at + n);
    let ours = data.subrange(pos, pos + n);
    assert forall|i: int| 0 <= i < n implies #[trigger] theirs[i] == ours[i] by {
        assert(other[at + i] == data[at + i - at + pos]);
    }
    assert(theirs =~= ours);
}

/// The groups of an integer are read alike wherever they lie.
pub proof fn lemma_varint_local(data: Seq<u8>, pos: int, budget: nat, other: Seq<u8>, at: int)
    requires
        parse_varint(data, pos, budget) matches Ok((_, used)) && same_window(
            data,
            pos,
            other,
            at,
            used,
        ),
    ensures
        parse_varint(other, at, budget) == parse_varint(data, pos, budget),
    decreases budget,
{
    lemma_parse_varint_bounds(data, pos, budget);
    assert(other[at] == data[at - at + pos]);
    if data[pos] >= 0x80 {
        lemma_parse_varint_bounds(data, pos + 1, (budget - 1) as nat);
        lemma_varint_local(data, pos + 1, (budget - 1) as nat, other, at + 1);
    }
}

/// A 64-bit integer is read alike wherever its bytes lie.
pub proof fn lemma_long_local(data: Seq<u8>, pos: int, other: Seq<u8>, at: int)
    requires
        parse_long(data, pos) matches Ok((_, used)) && same_window(data, pos, other, at, used),
    ensures
        parse_long(other, at) == parse_long(data, pos),
{
    lemma_varint_local(data, pos, crate::varint::MAX_VARINT64_LEN as nat, other, at);
}

/// A 32-bit integer is read alike wherever its bytes lie.
pub proof fn lemma_int_local(data: Seq<u8>, pos: int, other: Seq<u8>, at: int)
    requires
        parse_int(data, pos) matches Ok((_, used)) && same_window(data, pos, other, at, used),
    ensures
        parse_int(other, at) == parse_int(data, pos),
{
    lemma_varint_local(data, pos, crate::varint::MAX_VARINT32_LEN as nat, other, at);
}

/// A length is read alike wherever its bytes lie.
pub proof fn lemma_len_local(data: Seq<u8>, pos: int, other: Seq<u8>, at: int)
    requires
        parse_len(data, pos) matches Ok((_, used)) && same_window(data, pos, other, at, used),
    ensures
        parse_len(other, at) == parse_len(data, pos),
{
    lemma_long_local(data, pos, other, at);
}

/// A run of bytes with its length is read alike wherever it lies.
pub proof fn lemma_bytes_local(data: Seq<u8>, pos: int, other: Seq<u8>, at: int)
    requires
        parse_bytes(data, pos) matches Ok((_, used)) && same_window(data, pos, other, at, used),
    ensures
        parse_bytes(other, at) == parse_bytes(data, pos),
{
    let (len, head) = parse_len(data, pos).unwrap();
    lemma_len_local(data, pos, other, at);
    lemma_exact_local(data, pos + head, len as nat, other, at + head);
}

/// A string is read alike wherever its bytes lie.
pub proof fn lemma_text_local(data: Seq<u8>, pos: int, other: Seq<u8>, at: int)
    requires
        parse_text(data, pos) matches Ok((_, used)) && same_window(data, pos, other, at, used),
    ensures
        parse_text(other, at) == parse_text(data, pos),
{
    lemma_bytes_local(data, pos, other, at);
}

/// A boolean is read alike wherever its byte lies.
pub proof fn lemma_boolean_local(data: Seq<u8>, pos: int, other: Seq<u8>, at: int)
    requires
        parse_boolean(data, pos) matches Ok((_, used)) && same_window(data, pos, other, at, used),
    ensures
        parse_boolean(other, at) == parse_boolean(data, pos),
{
    lemma_u8_local(data, pos, other, at);
}

/// The head of a block is read alike wherever its bytes lie.
pub proof fn lemma_block_count_local(data: Seq<u8>, pos: int, other: Seq<u8>, at: int)
    requires
        parse_block_count(data, pos) matches Ok((_, used)) && same_window(
            data,
            pos,
            other,
            at,
            used,
        ),
    ensures
        parse_block_count(other, at) == parse_block_count(data, pos),
{
    let (raw, head) = parse_long(data, pos).unwrap();
    lemma_long_local(data, pos, other, at);
    if raw < 0 {
        lemma_long_local(data, pos + head, other, at + head);
    }
}

/// The bytes of a decimal are read alike wherever they lie.
pub proof fn lemma_decimal_local(
    inner: SchemaModel,
    data: Seq<u8>,
    pos: int,
    other: Seq<u8>,
    at: int,
)
    requires
        parse_decimal(inner, data, pos) matches Ok((_, used)) && same_window(
            data,
            pos,
            other,
            at,
            used,
        ),
    ensures
        parse_decimal(inner, other, at) == parse_decimal(inner, data, pos),
{
    match inner {
        SchemaModel::Fixed { size, .. } => lemma_exact_local(data, pos, size, other, at),
        SchemaModel::Bytes => lemma_bytes_local(data, pos, other, at),
        _ => {},
    }
}

/// A symbol of an enum is read alike wherever its bytes lie.
pub proof fn lemma_enum_local(
    symbols: Seq<Seq<char>>,
    data: Seq<u8>,
    pos: int,
    other: Seq<u8>,
    at: int,
)
    requires
        parse_enum(symbols, data, pos) matches Ok((_, used)) && same_window(
            data,
            pos,
            other,
            at,
            used,
        ),
    ensures
        parse_enum(symbols, other, at) == parse_enum(symbols, data, pos),
{
    lemma_int_local(data, pos, other, at);
}

/// A run of items is read alike wherever its bytes lie, if each item is.
pub proof fn lemma_run_local<T>(
    item: ItemParser<T>,
    data: Seq<u8>,
    pos: int,
    count: nat,
    other: Seq<u8>,
    at: int,
)
    requires
        is_local(item),
        parse_run(item, data, pos, count) matches Ok((_, used)) && same_window(
            data,
            pos,
            other,
            at,
            used,
        ),
    ensures
        parse_run(item, other, at, count) == parse_run(item, data, pos, count),
    decreases count,
{
    if count > 0 {
        let (first, head) = item(data, pos).unwrap();
        assert(local_at(item, data, pos, other, at));
        lemma_run_local(item, data, pos + head, (count - 1) as nat, other, at + head);
    }
}

/// The blocks of a collection are read alike wherever their bytes lie, if each
/// item is.
pub proof fn lemma_blocks_local<T>(
    item: ItemParser<T>,
    data: Seq<u8>,
    pos: int,
    other: Seq<u8>,
    at: int,
)
    requires
        is_local(item),
        parse_blocks(item, data, pos) matches Ok((_, used)) && same_window(
            data,
            pos,
            other,
            at,
            used,
        ),
    ensures
        parse_blocks(item, other, at) == parse_blocks(item, data, pos),
    decreases unread(data, pos),
{
    lemma_block_count_advances(data, pos);
    lemma_block_count_local(data, pos, other, at);
    let (count, head) = parse_block_count(data, pos).unwrap();
    if count > 0 {
        let (items, body) = parse_run(item, data, pos + head, count as nat).unwrap();
        lemma_run_local(item, data, pos + head, count as nat, other, at + head);
        lemma_blocks_local(item, data, pos + head + body, other, at + head + body);
    }
}

/// The items of an array are read alike wherever their bytes lie.
pub proof fn lemma_array_item_local(inner: SchemaModel)
    ensures
        is_local(array_item(inner)),
    decreases inner, 1nat, 0nat,
{
    let item = array_item(inner);
    assert forall|data: Seq<u8>, pos: int, other: Seq<u8>, at: int| #[trigger]
        local_at(item, data, pos, other, at) by {
        match parse_value(inner, data, pos) {
            Ok((_, used)) => {
                if same_window(data, pos, other, at, used) {
                    lemma_value_local(inner, data, pos, other, at);
                }
            },
            Err(_) => {},
        }
    }
}

/// The entries of a map are read alike wherever their bytes lie.
pub proof fn lemma_map_entry_local(inner: SchemaModel)
    ensures
        is_local(map_entry(inner)),
    decreases inner, 1nat, 0nat,
{
    let item = map_entry(inner);
    assert forall|data: Seq<u8>, pos: int, other: Seq<u8>, at: int| #[trigger]
        local_at(item, data, pos, other, at) by {
        match item(data, pos) {
            Ok((_, used)) => {
                if same_window(data, pos, other, at, used) {
                    let (key, head) = parse_text(data, pos).unwrap();
                    lemma_text_local(data, pos, other, at);
                    lemma_value_local(inner, data, pos + head, other, at + head);
                }
            },
            Err(_) => {},
        }
    }
}

/// The fields of a record are read alike wherever their bytes lie.
pub proof fn lemma_fields_local(
    fields: Seq<FieldModel>,
    from: int,
    data: Seq<u8>,
    pos: int,
    other: Seq<u8>,
    at: int,
)
    requires
        parse_fields(fields, from, data, pos) matches Ok((_, used)) && same_window(
            data,
            pos,
            other,
            at,
            used,
        ),
    ensures
        parse_fields(fields, from, other, at) == parse_fields(fields, from, data, pos),
    decreases fields, 0nat, fields.len() - from,
{
    if 0 <= from < fields.len() {
        let (value, head) = parse_value(fields[from].schema, data, pos).unwrap();
        lemma_value_local(fields[from].schema, data, pos, other, at);
        lemma_fields_local(fields, from + 1, data, pos + head, other, at + head);
    }
}

/// Whether `schema` holds other schemas whose values are read in turn.
pub open spec fn is_composite(schema: SchemaModel) -> bool {
    schema is Array || schema is Mapping || schema is Union || schema is Record
}

/// A value of a kind that holds no schemas to read in turn is read alike
/// wherever its bytes lie.
pub proof fn lemma_scalar_local(
    schema: SchemaModel,
    data: Seq<u8>,
    pos: int,
    other: Seq<u8>,
    at: int,
)
    requires
        !is_composite(schema),
        parse_value(schema, data, pos) matches Ok((_, used)) && same_window(
            data,
            pos,
            other,
            at,
            used,
        ),
    ensures
        parse_value(schema, other, at) == parse_value(schema, data, pos),
{
    match schema {
        SchemaModel::Boolean => lemma_boolean_local(data, pos, other, at),
        SchemaModel::Int | SchemaModel::Date | SchemaModel::TimeMillis => lemma_int_local(
            data,
            pos,
            other,
            at,
        ),
        SchemaModel::Long
        | SchemaModel::TimeMicros
        | SchemaModel::TimestampMillis
        | SchemaModel::TimestampMicros => lemma_long_local(data, pos, other, at),
        SchemaModel::Float => lemma_exact_local(data, pos, 4, other, at),
        SchemaModel::Double => lemma_exact_local(data, pos, 8, other, at),
        SchemaModel::Duration => lemma_exact_local(data, pos, 12, other, at),
        SchemaModel::Fixed { size, .. } => lemma_exact_local(data, pos, size, other, at),
        SchemaModel::Bytes => lemma_bytes_local(data, pos, other, at),
        SchemaModel::String | SchemaModel::Uuid => lemma_text_local(data, pos, other, at),
        SchemaModel::Decimal { inner, .. } => lemma_decimal_local(*inner, data, pos, other, at),
        SchemaModel::Enum { symbols, .. } => lemma_enum_local(symbols, data, pos, other, at),
        _ => {},
    }
}

/// An array is read alike wherever its bytes lie.
pub proof fn lemma_array_local(
    inner: SchemaModel,
    data: Seq<u8>,
    pos: int,
    other: Seq<u8>,
    at: int,
)
    requires
        parse_value(SchemaModel::Array(Box::new(inner)), data, pos) matches Ok((_, used))
            && same_window(data, pos, other, at, used),
    ensures
        parse_value(SchemaModel::Array(Box::new(inner)), other, at) == parse_value(
            SchemaModel::Array(Box::new(inner)),
            data,
            pos,
        ),
    decreases inner, 2nat, 0nat,
{
    lemma_array_item_local(inner);
    lemma_blocks_local(array_item(inner), data, pos, other, at);
}

/// A map is read alike wherever its bytes lie.
pub proof fn lemma_map_local(
    inner: SchemaModel,
    data: Seq<u8>,
    pos: int,
    other: Seq<u8>,
    at: int,
)
    requires
        parse_value(SchemaModel::Mapping(Box::new(inner)), data, pos) matches Ok((_, used))
            && same_window(data, pos, other, at, used),
    ensures
        parse_value(SchemaModel::Mapping(Box::new(inner)), other, at) == parse_value(
            SchemaModel::Mapping(Box::new(inner)),
            data,
            pos,
        ),
    decreases inner, 2nat, 0nat,
{
    lemma_map_entry_local(inner);
    lemma_blocks_local(map_entry(inner), data, pos, other, at);
}

/// A value of a union is read alike wherever its bytes lie.
pub proof fn lemma_union_local(
    variants: Seq<SchemaModel>,
    data: Seq<u8>,
    pos: int,
    other: Seq<u8>,
    at: int,
)
    requires
        parse_value(SchemaModel::Union(variants), data, pos) matches Ok((_, used)) && same_window(
            data,
            pos,
            other,
            at,
            used,
        ),
    ensures
        parse_value(SchemaModel::Union(variants), other, at) == parse_value(
            SchemaModel::Union(variants),
            data,
            pos,
        ),
    decreases variants, 1nat, 0nat,
{
    let (index, head) = parse_long(data, pos).unwrap();
    lemma_long_local(data, pos, other, at);
    lemma_value_local(variants[index as int], data, pos + head, other, at + head);
}

/// A value is read alike wherever its bytes lie: what `schema` makes of a
/// buffer at a position depends on the schema and on the bytes that the value
/// takes up, and on nothing before or after them.
pub proof fn lemma_value_local(
    schema: SchemaModel,
    data: Seq<u8>,
    pos: int,
    other: Seq<u8>,
    at: int,
)
    requires
        parse_value(schema, data, pos) matches Ok((_, used)) && same_window(
            data,
            pos,
            other,
            at,
            used,
        ),
    ensures
        parse_value(schema, other, at) == parse_value(schema, data, pos),
    decreases schema, 0nat, 0nat,
{
    match schema {
        SchemaModel::Array(inner) => lemma_array_local(*inner, data, pos, other, at),
        SchemaModel::Mapping(inner) => lemma_map_local(*inner, data, pos, other, at),
        SchemaModel::Union(variants) => lemma_union_local(variants, data, pos, other, at),
        SchemaModel::Record { fields, .. } => lemma_fields_local(fields, 0, data, pos, other, at),
        _ => lemma_scalar_local(schema, data, pos, other, at),
    }
}

} // verus!
