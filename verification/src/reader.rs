//! A forward-only cursor over a buffer of bytes.
use vstd::prelude::*;
use vstd::slice::slice_subrange;
use vstd::slice::slice_to_vec;
use crate::error::DecodeError;

verus! {

/// What reading something at a position gives: the thing read and the number
/// of bytes that it takes up, or the reason why it could not be read.
pub type Parsed<T> = Result<(T, nat), DecodeError>;

/// The `n` bytes of `data` that start at `pos`.
pub open spec fn parse_exact(data: Seq<u8>, pos: int, n: nat) -> Parsed<Seq<u8>> {
    if 0 <= pos && pos + n <= data.len() {
        Ok((data.subrange(pos, pos + n), n))
    } else {
        Err(DecodeError::UnexpectedEof)
    }
}

/// The byte of `data` at `pos`.
pub open spec fn parse_u8(data: Seq<u8>, pos: int) -> Parsed<u8> {
    if 0 <= pos < data.len() {
        Ok((data[pos], 1))
    } else {
        Err(DecodeError::UnexpectedEof)
    }
}

/// Whether `after` is `before` moved on: over the same buffer, not further
/// back, and not beyond the end.
pub open spec fn advanced(before: Reader, after: Reader) -> bool {
    &&& after.data() == before.data()
    &&& before.pos() <= after.pos() <= after.data().len()
}

/// A cursor that reads a borrowed buffer from front to back, never looking
/// ahead and never going back.
pub struct Reader<'a> {
    data: &'a [u8],
    pos: usize,
}

impl<'a> Reader<'a> {
    /// A cursor never stands beyond the end of its buffer.
    #[verifier::type_invariant]
    pub open spec fn in_bounds(self) -> bool {
        0 <= self.pos() <= self.data().len()
    }

    /// The whole buffer, read and unread.
    pub closed spec fn data(&self) -> Seq<u8> {
        self.data@
    }

    /// How many bytes have been read.
    pub closed spec fn pos(&self) -> int {
        self.pos as int
    }

    /// A cursor at the start of `data`.
    pub fn new(data: &'a [u8]) -> (reader: Self)
        ensures
            reader.data() == data@,
            reader.pos() == 0,
    {
        Reader { data, pos: 0 }
    }

    /// How many bytes have been read.
    pub fn position(&self) -> (p: usize)
        ensures
            p == self.pos(),
            p <= self.data().len(),
    {
        proof {
            use_type_invariant(self);
        }
        self.pos
    }

    /// How many bytes are left to read.
    pub fn remaining(&self) -> (n: usize)
        ensures
            n == self.data().len() - self.pos(),
    {
        proof {
            use_type_invariant(self);
        }
        self.data.len() - self.pos
    }

    /// Reads one byte.
    pub fn read_u8(&mut self) -> (r: Result<u8, DecodeError>)
        ensures
            advanced(*old(self), *final(self)),
            match parse_u8(old(self).data(), old(self).pos()) {
                Ok((b, n)) => r == Ok::<u8, DecodeError>(b) && final(self).pos() == old(self).pos() + n,
                Err(e) => r == Err::<u8, DecodeError>(e) && final(self).pos() == old(self).pos(),
            },
    {
        proof {
            use_type_invariant(&*self);
        }
        if self.pos < self.data.len() {
            let b = self.data[self.pos];
            self.pos = self.pos + 1;
            Ok(b)
        } else {
            Err(DecodeError::UnexpectedEof)
        }
    }

    /// Reads exactly `n` bytes, or none at all if fewer than `n` are left.
    pub fn read_exact(&mut self, n: usize) -> (r: Result<Vec<u8>, DecodeError>)
        ensures
            advanced(*old(self), *final(self)),
            match parse_exact(old(self).data(), old(self).pos(), n as nat) {
                Ok((bytes, len)) => r matches Ok(v) && v@ == bytes && final(self).pos() == old(self).pos() + len,
                Err(e) => r == Err::<Vec<u8>, DecodeError>(e) && final(self).pos() == old(self).pos(),
            },
    {
        proof {
            use_type_invariant(&*self);
        }
        if n <= self.data.len() - self.pos {
            let bytes = slice_to_vec(slice_subrange(self.data, self.pos, self.pos + n));
            self.pos = self.pos + n;
            Ok(bytes)
        } else {
            Err(DecodeError::UnexpectedEof)
        }
    }
}

} // verus!
