//! Variable-length zig-zag integers and the guard on lengths read from input.
//!
//! An integer is written as groups of seven bits, lowest group first, one group
//! per byte; the high bit of a byte says that another byte follows. The number
//! that the groups spell is the zig-zag form of a signed integer: even numbers
//! stand for the non-negative integers and odd numbers for the negative ones.
use vstd::prelude::*;
use crate::error::DecodeError;
use crate::reader::Parsed;
use crate::reader::advanced;
use crate::reader::Reader;

verus! {

/// The longest form of a 64-bit integer, in bytes.
pub const MAX_VARINT64_LEN: usize = 10;

/// The longest form of a 32-bit integer, in bytes.
pub const MAX_VARINT32_LEN: usize = 5;

/// No length or item count read from input may be larger than this.
pub const MAX_ALLOCATION_BYTES: usize = 536_870_912;

/// 128 to the power `n`.
pub open spec fn pow128(n: nat) -> nat
    decreases n,
{
    if n == 0 {
        1
    } else {
        128 * pow128((n - 1) as nat)
    }
}

/// The number spelled by the groups that start at `pos`, where at most `budget`
/// bytes may be used.
pub open spec fn parse_varint(data: Seq<u8>, pos: int, budget: nat) -> Parsed<nat>
    decreases budget,
{
    if budget == 0 {
        Err(DecodeError::VarintTooLong)
    } else if !(0 <= pos < data.len()) {
        Err(DecodeError::UnexpectedEof)
    } else if data[pos] < 0x80 {
        Ok((data[pos] as nat, 1))
    } else {
        match parse_varint(data, pos + 1, (budget - 1) as nat) {
            Ok((rest, n)) => Ok((((data[pos] - 0x80) + 0x80 * rest) as nat, n + 1)),
            Err(e) => Err(e),
        }
    }
}

/// The signed integer that the zig-zag number `n` stands for.
pub open spec fn zigzag(n: nat) -> int {
    if n % 2 == 0 {
        (n / 2) as int
    } else {
        -(((n + 1) / 2) as int)
    }
}

/// The zig-zag number that stands for the signed integer `n`: twice `n` for
/// one that is not negative, and one less than twice its negation for a
/// negative one.
pub open spec fn zigzag_of(n: int) -> nat {
    if n >= 0 {
        (2 * n) as nat
    } else {
        (-2 * n - 1) as nat
    }
}

/// The bytes that spell `n`: its groups of seven bits, lowest first, with the
/// high bit set on every byte but the last.
pub open spec fn varint_bytes(n: nat) -> Seq<u8>
    decreases n,
{
    if n < 0x80 {
        seq![n as u8]
    } else {
        seq![((n % 0x80) + 0x80) as u8] + varint_bytes(n / 0x80)
    }
}

/// The 64-bit integer written at `pos`. Groups beyond the 64th bit are dropped.
pub open spec fn parse_long(data: Seq<u8>, pos: int) -> Parsed<i64> {
    match parse_varint(data, pos, MAX_VARINT64_LEN as nat) {
        Ok((n, len)) => Ok((zigzag(n % 0x1_0000_0000_0000_0000) as i64, len)),
        Err(e) => Err(e),
    }
}

/// The 32-bit integer written at `pos`. Groups beyond the 32nd bit are dropped.
pub open spec fn parse_int(data: Seq<u8>, pos: int) -> Parsed<i32> {
    match parse_varint(data, pos, MAX_VARINT32_LEN as nat) {
        Ok((n, len)) => Ok((zigzag(n % 0x1_0000_0000) as i32, len)),
        Err(e) => Err(e),
    }
}

/// A length is accepted when it is not negative and not above the ceiling.
pub open spec fn checked_len(len: int) -> Result<usize, DecodeError> {
    if 0 <= len <= MAX_ALLOCATION_BYTES {
        Ok(len as usize)
    } else {
        Err(DecodeError::InvalidLength)
    }
}

/// The length written at `pos`: a 64-bit integer that passes the guard.
pub open spec fn parse_len(data: Seq<u8>, pos: int) -> Parsed<usize> {
    match parse_long(data, pos) {
        Ok((len, used)) => match checked_len(len as int) {
            Ok(n) => Ok((n, used)),
            Err(e) => Err(e),
        },
        Err(e) => Err(e),
    }
}

/// An integer takes up at least one byte and no more than its budget, all
/// within the buffer.
pub proof fn lemma_parse_varint_bounds(data: Seq<u8>, pos: int, budget: nat)
    ensures
        match parse_varint(data, pos, budget) {
            Ok((n, used)) => 0 <= pos && 1 <= used <= budget && pos + used <= data.len() && n
                < pow128(used),
            Err(e) => true,
        },
    decreases budget,
{
    if budget > 0 && 0 <= pos < data.len() && data[pos] >= 0x80 {
        lemma_parse_varint_bounds(data, pos + 1, (budget - 1) as nat);
        match parse_varint(data, pos + 1, (budget - 1) as nat) {
            Ok((rest, used)) => {
                assert((data[pos] - 0x80) + 0x80 * rest < 0x80 * pow128(used));
            },
            Err(e) => {},
        }
    } else {
        reveal_with_fuel(pow128, 2);
    }
}

/// A 64-bit integer takes up between one and ten bytes, all within the buffer.
pub proof fn lemma_parse_long_bounds(data: Seq<u8>, pos: int)
    ensures
        match parse_long(data, pos) {
            Ok((n, used)) => 0 <= pos && 1 <= used <= MAX_VARINT64_LEN && pos + used <= data.len(),
            Err(e) => true,
        },
{
    lemma_parse_varint_bounds(data, pos, MAX_VARINT64_LEN as nat);
}

/// The powers of 128 up to the tenth.
pub proof fn lemma_pow128_values()
    ensures
        pow128(0) == 1,
        pow128(1) == 0x80,
        pow128(2) == 0x4000,
        pow128(3) == 0x20_0000,
        pow128(4) == 0x1000_0000,
        pow128(5) == 0x8_0000_0000,
        pow128(6) == 0x400_0000_0000,
        pow128(7) == 0x2_0000_0000_0000,
        pow128(8) == 0x100_0000_0000_0000,
        pow128(9) == 0x8000_0000_0000_0000,
        pow128(10) == 0x40_0000_0000_0000_0000,
{
    reveal_with_fuel(pow128, 11);
}

/// The powers of 128 up to the tenth are at least 1 and at most the tenth.
proof fn lemma_pow128_bound(n: nat)
    requires
        n <= 10,
    ensures
        1 <= pow128(n) <= 0x40_0000_0000_0000_0000,
{
    lemma_pow128_values();
}

/// Appending one more group to the groups read so far.
proof fn lemma_group_step(acc: nat, scale: nat, low: nat, rest: nat)
    ensures
        acc + scale * (low + 0x80 * rest) == (acc + scale * low) + (scale * 0x80) * rest,
{
    assert(scale * (low + 0x80 * rest) == scale * low + (scale * 0x80) * rest)
        by (nonlinear_arith);
}

/// Groups that stay below their scale stay below the next scale when one
/// more group is put above them.
proof fn lemma_group_bound(acc: nat, scale: nat, low: nat)
    requires
        acc < scale,
        low < 0x80,
    ensures
        acc + scale * low < scale * 0x80,
{
    assert(scale * low <= scale * 0x7f) by (nonlinear_arith)
        requires
            low <= 0x7f,
    ;
}

/// Reads the groups of one integer, using at most `limit` bytes.
fn read_varint(reader: &mut Reader, limit: usize) -> (r: Result<u128, DecodeError>)
    requires
        limit <= 10,
    ensures
        advanced(*old(reader), *final(reader)),
        match parse_varint(old(reader).data(), old(reader).pos(), limit as nat) {
            Ok((n, len)) => r == Ok::<u128, DecodeError>(n as u128) && n < pow128(limit as nat)
                && final(reader).pos() == old(reader).pos() + len,
            Err(e) => r == Err::<u128, DecodeError>(e),
        },
{
    proof {
        use_type_invariant(&*reader);
    }
    let ghost data = reader.data();
    let ghost start = reader.pos();
    let mut acc: u128 = 0;
    let mut scale: u128 = 1;
    let mut i: usize = 0;
    while i < limit
        invariant
            i <= limit <= 10,
            data == old(reader).data(),
            start == old(reader).pos(),
            reader.data() == data,
            reader.pos() == start + i,
            reader.pos() <= data.len(),
            scale == pow128(i as nat),
            acc < scale,
            parse_varint(data, start, limit as nat) == (match parse_varint(
                data,
                start + i,
                (limit - i) as nat,
            ) {
                Ok((rest, n)) => Ok::<(nat, nat), DecodeError>(((acc + scale * rest) as nat, n + i as nat)),
                Err(e) => Err(e),
            }),
            match parse_varint(data, start + i, (limit - i) as nat) {
                Ok((rest, end)) => rest < pow128((limit - i) as nat),
                Err(e) => true,
            } ==> match parse_varint(data, start, limit as nat) {
                Ok((n, end)) => n < pow128(limit as nat),
                Err(e) => true,
            },
        decreases limit - i,
    {
        proof {
            lemma_pow128_bound(i as nat);
            lemma_pow128_bound((i + 1) as nat);
        }
        let b = match reader.read_u8() {
            Ok(b) => b,
            Err(e) => {
                return Err(e);
            },
        };
        if b < 0x80 {
            proof {
                lemma_group_bound(acc as nat, scale as nat, b as nat);
                lemma_pow128_bound(limit as nat);
                lemma_pow128_monotonic((i + 1) as nat, limit as nat);
                assert(pow128((limit - i) as nat) >= 0x80) by {
                    lemma_pow128_monotonic(1, (limit - i) as nat);
                    lemma_pow128_values();
                }
            }
            return Ok(acc + scale * (b as u128));
        }
        let low: u8 = b - 0x80;
        proof {
            lemma_group_bound(acc as nat, scale as nat, low as nat);
            match parse_varint(data, start + i + 1, (limit - i - 1) as nat) {
                Ok((rest, end)) => {
                    lemma_group_step(acc as nat, scale as nat, low as nat, rest);
                    if rest < pow128((limit - i - 1) as nat) {
                        assert(low + 0x80 * rest < 0x80 * pow128((limit - i - 1) as nat));
                    }
                },
                Err(e) => {},
            }
        }
        acc = acc + scale * (low as u128);
        scale = scale * 0x80;
        i = i + 1;
    }
    Err(DecodeError::VarintTooLong)
}

/// A higher power of 128 is not smaller.
proof fn lemma_pow128_monotonic(a: nat, b: nat)
    requires
        a <= b,
    ensures
        pow128(a) <= pow128(b),
    decreases b,
{
    if a < b {
        lemma_pow128_monotonic(a, (b - 1) as nat);
    }
}

/// Reads a 64-bit zig-zag integer.
pub fn zag_i64(reader: &mut Reader) -> (r: Result<i64, DecodeError>)
    ensures
        advanced(*old(reader), *final(reader)),
        match parse_long(old(reader).data(), old(reader).pos()) {
            Ok((n, len)) => r == Ok::<i64, DecodeError>(n) && final(reader).pos() == old(reader).pos()
                + len,
            Err(e) => r == Err::<i64, DecodeError>(e),
        },
{
    match read_varint(reader, MAX_VARINT64_LEN) {
        Ok(n) => {
            proof {
                lemma_pow128_values();
            }
            let u: u64 = (n % 0x1_0000_0000_0000_0000) as u64;
            if u % 2 == 0 {
                Ok((u / 2) as i64)
            } else {
                Ok(-((u / 2) as i64) - 1)
            }
        },
        Err(e) => Err(e),
    }
}

/// Reads a 32-bit zig-zag integer.
pub fn zag_i32(reader: &mut Reader) -> (r: Result<i32, DecodeError>)
    ensures
        advanced(*old(reader), *final(reader)),
        match parse_int(old(reader).data(), old(reader).pos()) {
            Ok((n, len)) => r == Ok::<i32, DecodeError>(n) && final(reader).pos() == old(reader).pos()
                + len,
            Err(e) => r == Err::<i32, DecodeError>(e),
        },
{
    match read_varint(reader, MAX_VARINT32_LEN) {
        Ok(n) => {
            proof {
                lemma_pow128_values();
            }
            let u: u32 = (n % 0x1_0000_0000) as u32;
            if u % 2 == 0 {
                Ok((u / 2) as i32)
            } else {
                Ok(-((u / 2) as i32) - 1)
            }
        },
        Err(e) => Err(e),
    }
}

/// Turns a length read from input into a size, refusing a negative one and one
/// above [`MAX_ALLOCATION_BYTES`].
pub fn safe_len(len: i64) -> (r: Result<usize, DecodeError>)
    ensures
        r == checked_len(len as int),
{
    if 0 <= len && len <= MAX_ALLOCATION_BYTES as i64 {
        Ok(len as usize)
    } else {
        Err(DecodeError::InvalidLength)
    }
}

} // verus!
