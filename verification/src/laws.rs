//! Laws of the format: what holds of every buffer, whatever it contains.
use vstd::prelude::*;
use vstd::utf8::encode_utf8;
use vstd::utf8::encode_utf8_decode_utf8;
use vstd::utf8::encode_utf8_valid_utf8;
use vstd::utf8::valid_utf8;
use crate::decimal::lemma_sign_extend_keeps_number;
use crate::decimal::sign_extend;
use crate::endian::be_signed;
use crate::error::DecodeError;
use crate::format::array_item;
use crate::format::map_entry;
use crate::format::parse_block_count;
use crate::format::parse_blocks;
use crate::format::parse_bytes;
use crate::format::parse_run;
use crate::format::parse_value;
use crate::format::ItemParser;
use crate::locality::is_local;
use crate::locality::lemma_array_item_local;
use crate::locality::lemma_block_count_local;
use crate::locality::lemma_blocks_local;
use crate::locality::lemma_long_local;
use crate::locality::lemma_map_entry_local;
use crate::locality::lemma_run_local;
use crate::locality::lemma_value_local;
use crate::locality::lemma_varint_local;
use crate::locality::same_window;
use crate::schema::SchemaModel;
use crate::value::entries_to_map;
use crate::value::ValueModel;
use crate::varint::lemma_pow128_values;
use crate::varint::parse_int;
use crate::varint::parse_varint;
use crate::varint::pow128;
use crate::varint::varint_bytes;
use crate::varint::zigzag_of;
use crate::varint::parse_long;
use crate::varint::MAX_ALLOCATION_BYTES;

verus! {

/// One block of a collection: the bytes of its head, the bytes of its items,
/// and the items.
pub struct Block<T> {
    pub head: Seq<u8>,
    pub body: Seq<u8>,
    pub items: Seq<T>,
}

/// Whether the head of `block`, from its first byte to its last, gives the
/// number of the block's items, of which there is at least one, and the body,
/// from its first byte to its last, holds the items. The head may be of either
/// form: a count, or a negated count and a size in bytes.
pub open spec fn block_holds<T>(item: ItemParser<T>, block: Block<T>) -> bool {
    &&& block.items.len() > 0
    &&& parse_block_count(block.head, 0) matches Ok((count, used)) && count == block.items.len()
        && used == block.head.len()
    &&& parse_run(item, block.body, 0, block.items.len()) == Ok::<(Seq<T>, nat), DecodeError>(
        (block.items, block.body.len()),
    )
}

/// Whether `end`, from its first byte to its last, is the head of a block of
/// no items.
pub open spec fn ends_blocks(end: Seq<u8>) -> bool {
    parse_block_count(end, 0) matches Ok((count, used)) && count == 0 && used == end.len()
}

/// The bytes of `blocks`, one block after another.
pub open spec fn block_bytes<T>(blocks: Seq<Block<T>>) -> Seq<u8>
    decreases blocks.len(),
{
    if blocks.len() == 0 {
        Seq::empty()
    } else {
        blocks[0].head + blocks[0].body + block_bytes(blocks.skip(1))
    }
}

/// The items of `blocks`, one block after another.
pub open spec fn block_items<T>(blocks: Seq<Block<T>>) -> Seq<T>
    decreases blocks.len(),
{
    if blocks.len() == 0 {
        Seq::empty()
    } else {
        blocks[0].items + block_items(blocks.skip(1))
    }
}

/// A buffer that starts with `part` holds at its start what `part` holds.
proof fn lemma_window_at_start(part: Seq<u8>, rest: Seq<u8>, len: nat)
    requires
        len <= part.len(),
    ensures
        same_window(part, 0, part + rest, 0, len),
{
}

/// A buffer holds after its first part what the rest holds at its start.
proof fn lemma_window_after(part: Seq<u8>, rest: Seq<u8>, len: nat)
    requires
        len <= rest.len(),
    ensures
        same_window(rest, 0, part + rest, part.len() as int, len),
{
}

/// A head of no items, followed by anything, reads as the end of a
/// collection.
proof fn lemma_no_blocks<T>(item: ItemParser<T>, end: Seq<u8>, tail: Seq<u8>)
    requires
        ends_blocks(end),
    ensures
        parse_blocks(item, end + tail, 0) == Ok::<(Seq<T>, nat), DecodeError>(
            (Seq::empty(), end.len()),
        ),
{
    lemma_window_at_start(end, tail, end.len());
    lemma_block_count_local(end, 0, end + tail, 0);
}

/// A block, followed by bytes that read as blocks, reads as the items of the
/// block and then the items of those blocks.
proof fn lemma_first_block<T>(
    item: ItemParser<T>,
    block: Block<T>,
    rest: Seq<u8>,
    rest_items: Seq<T>,
    rest_used: nat,
)
    requires
        is_local(item),
        block_holds(item, block),
        parse_blocks(item, rest, 0) == Ok::<(Seq<T>, nat), DecodeError>((rest_items, rest_used)),
        rest_used <= rest.len(),
    ensures
        parse_blocks(item, block.head + block.body + rest, 0) == Ok::<(Seq<T>, nat), DecodeError>(
            (block.items + rest_items, block.head.len() + block.body.len() + rest_used),
        ),
{
    let data = block.head + block.body + rest;
    let count = block.items.len();
    let after_head = block.head.len() as int;
    let after_body = (block.head.len() + block.body.len()) as int;
    assert(parse_block_count(data, 0) == parse_block_count(block.head, 0)) by {
        assert(data =~= block.head + (block.body + rest));
        lemma_window_at_start(block.head, block.body + rest, block.head.len());
        lemma_block_count_local(block.head, 0, data, 0);
    }
    assert(parse_run(item, data, after_head, count) == parse_run(item, block.body, 0, count)) by {
        assert(same_window(block.body, 0, data, after_head, block.body.len())) by {
            assert forall|j: int| after_head <= j < after_head + block.body.len() implies #[trigger]
                data[j] == block.body[j - after_head + 0] by {}
        }
        lemma_run_local(item, block.body, 0, count, data, after_head);
    }
    assert(parse_blocks(item, data, after_body) == parse_blocks(item, rest, 0)) by {
        lemma_window_after(block.head + block.body, rest, rest_used);
        lemma_blocks_local(item, rest, 0, data, after_body);
    }
}

/// However the items of a collection are cut into blocks, and whichever form
/// the head of each block has, what is read is the items of all the blocks in
/// order, and what is taken up is the blocks and the head that ends them.
pub proof fn law_blocks_hold_their_items<T>(
    item: ItemParser<T>,
    blocks: Seq<Block<T>>,
    end: Seq<u8>,
    tail: Seq<u8>,
)
    requires
        is_local(item),
        forall|k: int| 0 <= k < blocks.len() ==> block_holds(item, #[trigger] blocks[k]),
        ends_blocks(end),
    ensures
        parse_blocks(item, block_bytes(blocks) + end + tail, 0) == Ok::<(Seq<T>, nat), DecodeError>(
            (block_items(blocks), block_bytes(blocks).len() + end.len()),
        ),
    decreases blocks.len(),
{
    let data = block_bytes(blocks) + end + tail;
    if blocks.len() == 0 {
        assert(data =~= end + tail);
        lemma_no_blocks(item, end, tail);
    } else {
        let first = blocks[0];
        let later = blocks.skip(1);
        let rest = block_bytes(later) + end + tail;
        assert forall|k: int| 0 <= k < later.len() implies block_holds(
            item,
            #[trigger] later[k],
        ) by {
            assert(later[k] == blocks[k + 1]);
        }
        law_blocks_hold_their_items(item, later, end, tail);
        assert(data =~= first.head + first.body + rest);
        lemma_first_block(
            item,
            first,
            rest,
            block_items(later),
            block_bytes(later).len() + end.len(),
        );
    }
}

/// Two ways of cutting the same items into blocks are read as the same items:
/// one block or several, heads with or without the size in bytes.
pub proof fn law_framings_agree<T>(
    item: ItemParser<T>,
    one: Seq<Block<T>>,
    one_end: Seq<u8>,
    one_tail: Seq<u8>,
    other: Seq<Block<T>>,
    other_end: Seq<u8>,
    other_tail: Seq<u8>,
)
    requires
        is_local(item),
        forall|k: int| 0 <= k < one.len() ==> block_holds(item, #[trigger] one[k]),
        forall|k: int| 0 <= k < other.len() ==> block_holds(item, #[trigger] other[k]),
        ends_blocks(one_end),
        ends_blocks(other_end),
        block_items(one) == block_items(other),
    ensures
        parse_blocks(item, block_bytes(one) + one_end + one_tail, 0) matches Ok((items, _))
            && parse_blocks(item, block_bytes(other) + other_end + other_tail, 0) matches Ok(
            (others, _),
        ) && items == others && items == block_items(one),
{
    law_blocks_hold_their_items(item, one, one_end, one_tail);
    law_blocks_hold_their_items(item, other, other_end, other_tail);
}

/// An array reads as the items of its blocks, however they are cut into
/// blocks.
pub proof fn law_array_framing(
    inner: SchemaModel,
    blocks: Seq<Block<ValueModel>>,
    end: Seq<u8>,
    tail: Seq<u8>,
)
    requires
        forall|k: int|
            0 <= k < blocks.len() ==> block_holds(array_item(inner), #[trigger] blocks[k]),
        ends_blocks(end),
    ensures
        parse_value(SchemaModel::Array(Box::new(inner)), block_bytes(blocks) + end + tail, 0)
            == Ok::<(ValueModel, nat), DecodeError>(
            (ValueModel::Array(block_items(blocks)), block_bytes(blocks).len() + end.len()),
        ),
{
    lemma_array_item_local(inner);
    law_blocks_hold_their_items(array_item(inner), blocks, end, tail);
}

/// A map reads as the entries of its blocks, inserted in order, however they
/// are cut into blocks.
pub proof fn law_map_framing(
    inner: SchemaModel,
    blocks: Seq<Block<(Seq<char>, ValueModel)>>,
    end: Seq<u8>,
    tail: Seq<u8>,
)
    requires
        forall|k: int| 0 <= k < blocks.len() ==> block_holds(map_entry(inner), #[trigger] blocks[k]),
        ends_blocks(end),
    ensures
        parse_value(SchemaModel::Mapping(Box::new(inner)), block_bytes(blocks) + end + tail, 0)
            == Ok::<(ValueModel, nat), DecodeError>(
            (
                ValueModel::Mapping(entries_to_map(block_items(blocks))),
                block_bytes(blocks).len() + end.len(),
            ),
        ),
{
    lemma_map_entry_local(inner);
    law_blocks_hold_their_items(map_entry(inner), blocks, end, tail);
}

/// A count that is written alone is the head of a block of that many items.
pub proof fn law_plain_head(head: Seq<u8>, count: i64)
    requires
        parse_long(head, 0) == Ok::<(i64, nat), DecodeError>((count, head.len())),
        0 <= count <= MAX_ALLOCATION_BYTES,
    ensures
        parse_block_count(head, 0) == Ok::<(usize, nat), DecodeError>(
            (count as usize, head.len()),
        ),
{
}

/// A negated count followed by a size in bytes is the head of a block of that
/// many items, whatever the size says.
pub proof fn law_sized_head(negated: Seq<u8>, size: Seq<u8>, count: i64, bytes: i64)
    requires
        parse_long(negated, 0) == Ok::<(i64, nat), DecodeError>((count, negated.len())),
        parse_long(size, 0) == Ok::<(i64, nat), DecodeError>((bytes, size.len())),
        0 < -count <= MAX_ALLOCATION_BYTES,
    ensures
        parse_block_count(negated + size, 0) == Ok::<(usize, nat), DecodeError>(
            ((-count) as usize, negated.len() + size.len()),
        ),
{
    let head = negated + size;
    lemma_window_at_start(negated, size, negated.len());
    lemma_long_local(negated, 0, head, 0);
    lemma_window_after(negated, size, size.len());
    lemma_long_local(size, 0, head, negated.len() as int);
}

/// A boolean that is written as any byte but 0 and 1 is refused.
pub proof fn law_boolean_bytes(data: Seq<u8>, pos: int)
    requires
        0 <= pos < data.len(),
    ensures
        data[pos] == 0 ==> parse_value(SchemaModel::Boolean, data, pos) == Ok::<
            (ValueModel, nat),
            DecodeError,
        >((ValueModel::Boolean(false), 1)),
        data[pos] == 1 ==> parse_value(SchemaModel::Boolean, data, pos) == Ok::<
            (ValueModel, nat),
            DecodeError,
        >((ValueModel::Boolean(true), 1)),
        data[pos] > 1 ==> parse_value(SchemaModel::Boolean, data, pos) == Err::<
            (ValueModel, nat),
            DecodeError,
        >(DecodeError::NotABool),
{
}

/// A union whose branch index is not one of its branches is refused, whatever
/// follows the index.
pub proof fn law_union_index(variants: Seq<SchemaModel>, data: Seq<u8>, pos: int)
    requires
        parse_long(data, pos) matches Ok((index, _)) && !(0 <= index < variants.len()),
    ensures
        parse_value(SchemaModel::Union(variants), data, pos) == Err::<
            (ValueModel, nat),
            DecodeError,
        >(DecodeError::UnionIndexOutOfBounds),
{
}

/// An enum whose symbol index is not one of its symbols is refused.
pub proof fn law_enum_index(name: Seq<char>, symbols: Seq<Seq<char>>, data: Seq<u8>, pos: int)
    requires
        parse_int(data, pos) matches Ok((index, _)) && !(0 <= index < symbols.len()),
    ensures
        parse_value(SchemaModel::Enum { name, symbols }, data, pos) == Err::<
            (ValueModel, nat),
            DecodeError,
        >(DecodeError::EnumIndexOutOfBounds),
{
}

/// A string whose bytes are not well-formed UTF-8 is refused.
pub proof fn law_string_utf8(data: Seq<u8>, pos: int)
    requires
        parse_bytes(data, pos) matches Ok((bytes, _)) && !valid_utf8(bytes),
    ensures
        parse_value(SchemaModel::String, data, pos) == Err::<(ValueModel, nat), DecodeError>(
            DecodeError::InvalidUtf8,
        ),
{
}

/// A length that is negative or above the ceiling is refused, whatever
/// follows it and however many bytes are left: bytes, strings and the blocks
/// of arrays and maps all fail on it.
pub proof fn law_length_guard(inner: SchemaModel, data: Seq<u8>, pos: int)
    requires
        parse_long(data, pos) matches Ok((len, _)) && (len < 0 || len > MAX_ALLOCATION_BYTES),
    ensures
        parse_value(SchemaModel::Bytes, data, pos) == Err::<(ValueModel, nat), DecodeError>(
            DecodeError::InvalidLength,
        ),
        parse_value(SchemaModel::String, data, pos) == Err::<(ValueModel, nat), DecodeError>(
            DecodeError::InvalidLength,
        ),
        parse_long(data, pos) matches Ok((len, _)) && len > MAX_ALLOCATION_BYTES ==> parse_value(
            SchemaModel::Array(Box::new(inner)),
            data,
            pos,
        ) == Err::<(ValueModel, nat), DecodeError>(DecodeError::InvalidLength) && parse_value(
            SchemaModel::Mapping(Box::new(inner)),
            data,
            pos,
        ) == Err::<(ValueModel, nat), DecodeError>(DecodeError::InvalidLength),
{
}

/// A decimal laid over a fixed of more bytes than its integer needs reads as
/// the same integer: the bytes of `number`, with the sign filling the places
/// in front up to `size` bytes, stand for what `number` stands for.
pub proof fn law_decimal_in_longer_fixed(
    number: Seq<u8>,
    name: Seq<char>,
    size: nat,
    precision: nat,
    scale: nat,
    tail: Seq<u8>,
)
    requires
        size >= number.len(),
    ensures
        parse_value(
            SchemaModel::Decimal {
                precision,
                scale,
                inner: Box::new(SchemaModel::Fixed { name, size }),
            },
            sign_extend(number, size) + tail,
            0,
        ) matches Ok((ValueModel::Decimal(bytes), used)) && used == size && be_signed(bytes)
            == be_signed(number),
{
    lemma_sign_extend_keeps_number(number, size);
    let data = sign_extend(number, size) + tail;
    assert(data.subrange(0, size as int) =~= sign_extend(number, size));
}

/// A value reads the same within any surroundings: if `bytes`, from first
/// byte to last, hold a value of `schema`, then so does any buffer that holds
/// `bytes` between other bytes, at the place where `bytes` start. Nothing that
/// was read before and nothing that lies after changes what is read.
pub proof fn law_value_ignores_surroundings(
    schema: SchemaModel,
    before: Seq<u8>,
    bytes: Seq<u8>,
    after: Seq<u8>,
)
    requires
        parse_value(schema, bytes, 0) matches Ok((_, used)) && used == bytes.len(),
    ensures
        parse_value(schema, before + bytes + after, before.len() as int) == parse_value(
            schema,
            bytes,
            0,
        ),
{
    let data = before + bytes + after;
    assert(same_window(bytes, 0, data, before.len() as int, bytes.len())) by {
        assert forall|j: int| before.len() <= j < before.len() + bytes.len() implies #[trigger]
            data[j] == bytes[j - before.len() + 0] by {}
    }
    lemma_value_local(schema, bytes, 0, data, before.len() as int);
}

/// The bytes that spell a number read back as that number, in as many bytes
/// as they are, whatever follows them.
pub proof fn lemma_varint_round_trip(n: nat, budget: nat, tail: Seq<u8>)
    requires
        budget > 0,
        n < pow128(budget),
    ensures
        parse_varint(varint_bytes(n) + tail, 0, budget) == Ok::<(nat, nat), DecodeError>(
            (n, varint_bytes(n).len()),
        ),
    decreases n,
{
    let data = varint_bytes(n) + tail;
    if n < 0x80 {
        assert(data[0] == n as u8);
    } else {
        let rest = varint_bytes(n / 0x80);
        let shorter = rest + tail;
        assert(pow128(budget) == 0x80 * pow128((budget - 1) as nat));
        assert(pow128(0) == 1);
        lemma_varint_round_trip(n / 0x80, (budget - 1) as nat, tail);
        assert(data =~= seq![((n % 0x80) + 0x80) as u8] + shorter);
        assert(data[0] == ((n % 0x80) + 0x80) as u8);
        lemma_window_after(seq![((n % 0x80) + 0x80) as u8], shorter, rest.len());
        lemma_varint_local(shorter, 0, (budget - 1) as nat, data, 1);
    }
}

/// Every 64-bit integer, written as the bytes of its zig-zag number, reads
/// back as itself.
pub proof fn law_long_round_trip(n: i64, tail: Seq<u8>)
    ensures
        parse_long(varint_bytes(zigzag_of(n as int)) + tail, 0) == Ok::<(i64, nat), DecodeError>(
            (n, varint_bytes(zigzag_of(n as int)).len()),
        ),
{
    lemma_pow128_values();
    lemma_varint_round_trip(zigzag_of(n as int), 10, tail);
}

/// Every 32-bit integer, written as the bytes of its zig-zag number, reads
/// back as itself.
pub proof fn law_int_round_trip(n: i32, tail: Seq<u8>)
    ensures
        parse_int(varint_bytes(zigzag_of(n as int)) + tail, 0) == Ok::<(i32, nat), DecodeError>(
            (n, varint_bytes(zigzag_of(n as int)).len()),
        ),
{
    lemma_pow128_values();
    lemma_varint_round_trip(zigzag_of(n as int), 5, tail);
}

/// A run of bytes no longer than the ceiling, written as its length and then
/// the bytes, reads back as itself.
pub proof fn law_bytes_round_trip(bytes: Seq<u8>, tail: Seq<u8>)
    requires
        bytes.len() <= MAX_ALLOCATION_BYTES,
    ensures
        parse_bytes(varint_bytes(zigzag_of(bytes.len() as int)) + bytes + tail, 0) == Ok::<
            (Seq<u8>, nat),
            DecodeError,
        >((bytes, varint_bytes(zigzag_of(bytes.len() as int)).len() + bytes.len())),
{
    let head = varint_bytes(zigzag_of(bytes.len() as int));
    let data = head + bytes + tail;
    assert(data =~= head + (bytes + tail));
    law_long_round_trip(bytes.len() as i64, bytes + tail);
    assert(data.subrange(head.len() as int, (head.len() + bytes.len()) as int) =~= bytes);
}

/// A string whose UTF-8 bytes are no longer than the ceiling, written as the
/// length of those bytes and then the bytes, reads back as itself.
pub proof fn law_string_round_trip(text: Seq<char>, tail: Seq<u8>)
    requires
        encode_utf8(text).len() <= MAX_ALLOCATION_BYTES,
    ensures
        parse_value(
            SchemaModel::String,
            varint_bytes(zigzag_of(encode_utf8(text).len() as int)) + encode_utf8(text) + tail,
            0,
        ) == Ok::<(ValueModel, nat), DecodeError>(
            (
                ValueModel::String(text),
                varint_bytes(zigzag_of(encode_utf8(text).len() as int)).len() + encode_utf8(
                    text,
                ).len(),
            ),
        ),
{
    law_bytes_round_trip(encode_utf8(text), tail);
    encode_utf8_valid_utf8(text);
    encode_utf8_decode_utf8(text);
}

} // verus!
