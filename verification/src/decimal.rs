//! Decimal numbers, kept as the bytes of their unscaled integer.
use vstd::prelude::*;
use vstd::std_specs::cmp::PartialEqSpecImpl;
use vstd::std_specs::convert::FromSpecImpl;
use crate::endian::be_signed;
use crate::endian::be_unsigned;
use crate::endian::pow256;

verus! {

/// The unscaled integer of a decimal number, as the big-endian two's
/// complement bytes that it was read from. How far the decimal point is
/// shifted is for the schema to say.
///
/// Two decimals are equal when their integers are, in however many bytes each
/// is kept.
#[derive(Debug)]
pub struct Decimal {
    pub bytes: Vec<u8>,
}

impl View for Decimal {
    type V = Seq<u8>;

    open spec fn view(&self) -> Seq<u8> {
        self.bytes@
    }
}

/// The byte that fills the places in front of `b` when it is written in more
/// bytes: all ones for a negative number, all zeros otherwise.
pub open spec fn sign_fill(b: Seq<u8>) -> u8 {
    if b.len() > 0 && b[0] >= 0x80 {
        0xff
    } else {
        0
    }
}

/// `b` written in `n` bytes, where `n` is at least the length of `b`.
pub open spec fn sign_extend(b: Seq<u8>, n: nat) -> Seq<u8> {
    Seq::new((n - b.len()) as nat, |i: int| sign_fill(b)) + b
}

/// The byte of `b` at place `k`, counted from the low end, where the places
/// beyond the length of `b` hold the fill.
pub open spec fn byte_at_place(b: Seq<u8>, k: int) -> u8 {
    if k < b.len() {
        b[b.len() - 1 - k]
    } else {
        sign_fill(b)
    }
}

impl Decimal {
    /// The integer that the bytes stand for.
    pub open spec fn unscaled(&self) -> int {
        be_signed(self.bytes@)
    }

    /// How many bytes the integer is kept in.
    pub fn len(&self) -> (n: usize)
        ensures
            n == self@.len(),
    {
        self.bytes.len()
    }

    /// Whether `self` and `other` stand for one integer.
    pub fn same_number(&self, other: &Decimal) -> (same: bool)
        ensures
            same == (self.unscaled() == other.unscaled()),
    {
        let a = &self.bytes;
        let b = &other.bytes;
        let n = if a.len() >= b.len() {
            a.len()
        } else {
            b.len()
        };
        let fill_a: u8 = if a.len() > 0 && a[0] >= 0x80 {
            0xff
        } else {
            0
        };
        let fill_b: u8 = if b.len() > 0 && b[0] >= 0x80 {
            0xff
        } else {
            0
        };
        let mut k: usize = 0;
        while k < n
            invariant
                k <= n,
                *a == self.bytes,
                *b == other.bytes,
                n >= a.len(),
                n >= b.len(),
                fill_a == sign_fill(a@),
                fill_b == sign_fill(b@),
                forall|j: int| 0 <= j < k ==> byte_at_place(a@, j) == byte_at_place(b@, j),
            decreases n - k,
        {
            let x = if k < a.len() {
                a[a.len() - 1 - k]
            } else {
                fill_a
            };
            let y = if k < b.len() {
                b[b.len() - 1 - k]
            } else {
                fill_b
            };
            if x != y {
                proof {
                    lemma_sign_extend_keeps_number(a@, n as nat);
                    lemma_sign_extend_keeps_number(b@, n as nat);
                    assert(sign_extend(a@, n as nat)[n - 1 - k] == x);
                    assert(sign_extend(b@, n as nat)[n - 1 - k] == y);
                    if be_signed(a@) == be_signed(b@) {
                        lemma_be_signed_injective(
                            sign_extend(a@, n as nat),
                            sign_extend(b@, n as nat),
                        );
                        assert(x == y);
                    }
                }
                return false;
            }
            k = k + 1;
        }
        proof {
            lemma_sign_extend_keeps_number(a@, n as nat);
            lemma_sign_extend_keeps_number(b@, n as nat);
            assert forall|i: int| 0 <= i < n implies sign_extend(a@, n as nat)[i] == sign_extend(
                b@,
                n as nat,
            )[i] by {
                assert(byte_at_place(a@, n - 1 - i) == byte_at_place(b@, n - 1 - i));
            }
            assert(sign_extend(a@, n as nat) =~= sign_extend(b@, n as nat));
        }
        true
    }
}

impl From<Vec<u8>> for Decimal {
    /// The decimal whose unscaled integer is kept in `bytes`.
    fn from(bytes: Vec<u8>) -> (d: Decimal) {
        Decimal { bytes }
    }
}

impl FromSpecImpl<Vec<u8>> for Decimal {
    open spec fn obeys_from_spec() -> bool {
        true
    }

    open spec fn from_spec(bytes: Vec<u8>) -> Decimal {
        Decimal { bytes }
    }
}

impl PartialEq for Decimal {
    /// Whether the two decimals stand for one integer.
    fn eq(&self, other: &Decimal) -> (same: bool) {
        self.same_number(other)
    }
}

impl PartialEqSpecImpl for Decimal {
    open spec fn obeys_eq_spec() -> bool {
        true
    }

    open spec fn eq_spec(&self, other: &Decimal) -> bool {
        self.unscaled() == other.unscaled()
    }
}

/// The number of `b` is the first byte, shifted to its place, plus the number
/// of the rest.
proof fn lemma_be_unsigned_front(b: Seq<u8>)
    requires
        b.len() > 0,
    ensures
        be_unsigned(b) == b[0] * pow256((b.len() - 1) as nat) + be_unsigned(b.skip(1)),
    decreases b.len(),
{
    let front = b.drop_last();
    let rest = b.skip(1);
    if b.len() == 1 {
        assert(be_unsigned(front) == 0);
        assert(be_unsigned(rest) == 0);
        assert(pow256(0) == 1);
        assert(b.last() == b[0]);
        assert(b[0] * pow256((b.len() - 1) as nat) == b[0] * 1);
    } else {
        lemma_be_unsigned_front(front);
        assert(rest.drop_last() =~= front.skip(1));
        assert(rest.last() == b.last());
        assert(front[0] == b[0]);
        let p = pow256((b.len() - 2) as nat);
        assert(pow256((b.len() - 1) as nat) == 256 * p);
        assert(be_unsigned(front) == b[0] * p + be_unsigned(front.skip(1)));
        assert(be_unsigned(rest) == 256 * be_unsigned(front.skip(1)) + b.last());
        assert(be_unsigned(b) == 256 * be_unsigned(front) + b.last());
        assert(256 * (b[0] * p) == b[0] * (256 * p)) by (nonlinear_arith);
        assert(b[0] * pow256((b.len() - 1) as nat) == b[0] * (256 * p));
    }
}

/// The number of `b` is below 256 to the power of its length.
proof fn lemma_be_unsigned_bound(b: Seq<u8>)
    ensures
        be_unsigned(b) < pow256(b.len()),
    decreases b.len(),
{
    if b.len() > 0 {
        lemma_be_unsigned_bound(b.drop_last());
    }
}

/// Byte strings of one length with one number are the same string.
proof fn lemma_be_unsigned_injective(a: Seq<u8>, b: Seq<u8>)
    requires
        a.len() == b.len(),
        be_unsigned(a) == be_unsigned(b),
    ensures
        a == b,
    decreases a.len(),
{
    if a.len() > 0 {
        lemma_be_unsigned_injective(a.drop_last(), b.drop_last());
        assert(a =~= a.drop_last().push(a.last()));
        assert(b =~= b.drop_last().push(b.last()));
    } else {
        assert(a =~= b);
    }
}

/// A string that starts with a byte of 0x80 or more stands for a negative
/// integer, and any other string for one that is not negative.
proof fn lemma_be_signed_sign(b: Seq<u8>)
    ensures
        (b.len() > 0 && b[0] >= 0x80) <==> be_signed(b) < 0,
{
    if b.len() > 0 {
        lemma_be_unsigned_front(b);
        lemma_be_unsigned_bound(b.skip(1));
        let p = pow256((b.len() - 1) as nat);
        if b[0] >= 0x80 {
            assert(b[0] * p <= 255 * p) by (nonlinear_arith)
                requires
                    b[0] <= 255,
                    p >= 0,
            ;
        }
    }
}

/// Byte strings of one length that stand for one integer are the same string.
pub proof fn lemma_be_signed_injective(a: Seq<u8>, b: Seq<u8>)
    requires
        a.len() == b.len(),
        be_signed(a) == be_signed(b),
    ensures
        a == b,
{
    lemma_be_signed_sign(a);
    lemma_be_signed_sign(b);
    lemma_be_unsigned_injective(a, b);
}

/// One more fill byte in front leaves the integer as it was.
proof fn lemma_fill_keeps_number(b: Seq<u8>)
    ensures
        be_signed(seq![sign_fill(b)] + b) == be_signed(b),
        sign_fill(seq![sign_fill(b)] + b) == sign_fill(b),
{
    let longer = seq![sign_fill(b)] + b;
    lemma_be_unsigned_front(longer);
    assert(longer.skip(1) =~= b);
    let p = pow256(b.len());
    assert(longer[0] == sign_fill(b));
    if sign_fill(b) == 0xff {
        assert(255 * p - 256 * p == -p);
    } else {
        assert(0 * p == 0);
    }
}

/// A decimal kept in more bytes than its integer needs stands for the same
/// integer: writing a two's complement number in more bytes, with the sign
/// filling the new places, does not change it.
pub proof fn lemma_sign_extend_keeps_number(b: Seq<u8>, n: nat)
    requires
        n >= b.len(),
    ensures
        sign_extend(b, n).len() == n,
        be_signed(sign_extend(b, n)) == be_signed(b),
        sign_fill(sign_extend(b, n)) == sign_fill(b),
    decreases n - b.len(),
{
    if n == b.len() {
        assert(sign_extend(b, n) =~= b);
    } else {
        let shorter = sign_extend(b, (n - 1) as nat);
        lemma_sign_extend_keeps_number(b, (n - 1) as nat);
        lemma_fill_keeps_number(shorter);
        assert(sign_extend(b, n) =~= seq![sign_fill(shorter)] + shorter);
    }
}

} // verus!
