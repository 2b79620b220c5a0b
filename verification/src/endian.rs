//! Integers laid out as bytes: little-endian words and big-endian two's
//! complement.
use vstd::prelude::*;

verus! {

/// The 32-bit word whose little-endian bytes are the first four of `b`.
pub open spec fn le_u32(b: Seq<u8>) -> u32 {
    (b[0] + b[1] * 0x100 + b[2] * 0x1_0000 + b[3] * 0x100_0000) as u32
}

/// The 64-bit word whose little-endian bytes are the first eight of `b`.
pub open spec fn le_u64(b: Seq<u8>) -> u64 {
    (b[0] + b[1] * 0x100 + b[2] * 0x1_0000 + b[3] * 0x100_0000 + b[4] * 0x1_0000_0000 + b[5]
        * 0x100_0000_0000 + b[6] * 0x1_0000_0000_0000 + b[7] * 0x100_0000_0000_0000) as u64
}

/// 256 to the power `n`.
pub open spec fn pow256(n: nat) -> nat
    decreases n,
{
    if n == 0 {
        1
    } else {
        256 * pow256((n - 1) as nat)
    }
}

/// The natural number whose big-endian bytes are `b`.
pub open spec fn be_unsigned(b: Seq<u8>) -> nat
    decreases b.len(),
{
    if b.len() == 0 {
        0
    } else {
        256 * be_unsigned(b.drop_last()) + b.last() as nat
    }
}

/// The integer whose big-endian two's complement bytes are `b`. No bytes at
/// all stand for zero.
pub open spec fn be_signed(b: Seq<u8>) -> int {
    if b.len() > 0 && b[0] >= 0x80 {
        be_unsigned(b) - pow256(b.len())
    } else {
        be_unsigned(b) as int
    }
}

/// Reads a little-endian 32-bit word from the four bytes at `at`.
pub fn read_le_u32(bytes: &[u8], at: usize) -> (word: u32)
    requires
        at + 4 <= bytes.len(),
    ensures
        word == le_u32(bytes@.subrange(at as int, at + 4)),
{
    let b0: u32 = bytes[at] as u32;
    let b1: u32 = bytes[at + 1] as u32;
    let b2: u32 = bytes[at + 2] as u32;
    let b3: u32 = bytes[at + 3] as u32;
    b0 + b1 * 0x100 + b2 * 0x1_0000 + b3 * 0x100_0000
}

/// Reads a little-endian 64-bit word from the eight bytes at `at`.
pub fn read_le_u64(bytes: &[u8], at: usize) -> (word: u64)
    requires
        at + 8 <= bytes.len(),
    ensures
        word == le_u64(bytes@.subrange(at as int, at + 8)),
{
    let low: u64 = read_le_u32(bytes, at) as u64;
    let high: u64 = read_le_u32(bytes, at + 4) as u64;
    assert(bytes@.subrange(at as int, at + 4) =~= bytes@.subrange(at as int, at + 8).subrange(
        0,
        4,
    ));
    assert(bytes@.subrange(at + 4, at + 8) =~= bytes@.subrange(at as int, at + 8).subrange(4, 8));
    low + high * 0x1_0000_0000
}

} // verus!
