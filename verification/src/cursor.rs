//! A read position over an immutable byte buffer.

use vstd::prelude::*;
use vstd::slice::slice_subrange;
use vstd::slice::slice_to_vec;
use crate::error::DecodeError;

verus! {

/// The mathematical content of a fixed-size read: the `len` bytes of `s`
/// that start at `pos`, if `s` holds that many.
pub open spec fn bytes_at(s: Seq<u8>, pos: int, len: int) -> Option<Seq<u8>> {
    if 0 <= pos && 0 <= len && pos + len <= s.len() {
        Some(s.subrange(pos, pos + len))
    } else {
        None
    }
}

/// Cutting the input after `cut` bytes leaves a fixed-size read as it was
/// if the read ends before the cut, and makes it fail otherwise.
pub proof fn lemma_bytes_at_prefix(s: Seq<u8>, pos: int, len: int, cut: int)
    requires
        0 <= cut <= s.len(),
    ensures
        bytes_at(s.subrange(0, cut), pos, len) == if pos + len <= cut {
            bytes_at(s, pos, len)
        } else {
            None
        },
{
    if 0 <= pos && 0 <= len && pos + len <= cut {
        assert(s.subrange(0, cut).subrange(pos, pos + len) == s.subrange(pos, pos + len));
    }
}

/// A buffer together with the offset of the next unread byte.
///
/// The offset never passes the end of the buffer. Reads either succeed and
/// advance the offset past what they returned, or fail with
/// [`DecodeError::TruncatedInput`] and leave the cursor as it was.
#[derive(Debug, Clone, Copy)]
pub struct Cursor<'a> {
    data: &'a [u8],
    pos: usize,
}

impl<'a> Cursor<'a> {
    /// The offset lies within the buffer.
    #[verifier::type_invariant]
    closed spec fn within_buffer(&self) -> bool {
        self.pos <= self.data@.len()
    }

    /// The whole buffer, read and unread bytes alike.
    pub closed spec fn bytes(&self) -> Seq<u8> {
        self.data@
    }

    /// The offset of the next unread byte.
    pub closed spec fn offset(&self) -> nat {
        self.pos as nat
    }

    /// The number of bytes from the offset to the end of the buffer.
    pub open spec fn unread(&self) -> nat {
        if self.offset() <= self.bytes().len() {
            (self.bytes().len() - self.offset()) as nat
        } else {
            0
        }
    }

    /// A cursor at the start of `data`.
    pub fn new(data: &'a [u8]) -> (c: Cursor<'a>)
        ensures
            c.bytes() == data@,
            c.offset() == 0,
            c.offset() <= c.bytes().len(),
    {
        Cursor { data, pos: 0 }
    }

    /// The number of bytes consumed so far, which is never more than the
    /// buffer holds.
    pub fn position(&self) -> (p: usize)
        ensures
            p == self.offset(),
            p <= self.bytes().len(),
    {
        proof {
            use_type_invariant(self);
        }
        self.pos
    }

    /// The number of bytes that are left to read.
    pub fn remaining(&self) -> (n: usize)
        ensures
            n == self.unread(),
            n == self.bytes().len() - self.offset(),
    {
        proof {
            use_type_invariant(self);
        }
        self.data.len() - self.pos
    }

    /// Reads one byte. Succeeds exactly when a byte is left.
    pub fn read_u8(&mut self) -> (r: Result<u8, DecodeError>)
        ensures
            final(self).bytes() == old(self).bytes(),
            final(self).offset() <= final(self).bytes().len(),
            r is Ok <==> old(self).unread() >= 1,
            match r {
                Ok(b) => {
                    &&& old(self).offset() < old(self).bytes().len()
                    &&& b == old(self).bytes()[old(self).offset() as int]
                    &&& final(self).offset() == old(self).offset() + 1
                },
                Err(e) => {
                    &&& e == DecodeError::TruncatedInput
                    &&& old(self).offset() >= old(self).bytes().len()
                    &&& *final(self) == *old(self)
                },
            },
    {
        proof {
            use_type_invariant(&*self);
        }
        if self.pos < self.data.len() {
            let b = self.data[self.pos];
            self.pos = self.pos + 1;
            Ok(b)
        } else {
            Err(DecodeError::TruncatedInput)
        }
    }

    /// Reads exactly `len` bytes into a fresh vector. Succeeds exactly when
    /// that many bytes are left.
    pub fn read_bytes(&mut self, len: usize) -> (r: Result<Vec<u8>, DecodeError>)
        ensures
            final(self).bytes() == old(self).bytes(),
            final(self).offset() <= final(self).bytes().len(),
            r is Ok <==> len <= old(self).unread(),
            match r {
                Ok(v) => {
                    &&& bytes_at(old(self).bytes(), old(self).offset() as int, len as int) == Some(v@)
                    &&& final(self).offset() == old(self).offset() + len
                },
                Err(e) => {
                    &&& e == DecodeError::TruncatedInput
                    &&& bytes_at(old(self).bytes(), old(self).offset() as int, len as int).is_none()
                    &&& *final(self) == *old(self)
                },
            },
    {
        proof {
            use_type_invariant(&*self);
        }
        if len <= self.data.len() - self.pos {
            let v = slice_to_vec(slice_subrange(self.data, self.pos, self.pos + len));
            self.pos = self.pos + len;
            Ok(v)
        } else {
            Err(DecodeError::TruncatedInput)
        }
    }
}

} // verus!
