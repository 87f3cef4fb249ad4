//! The compact-size encoding of counts and lengths.
//!
//! A value below 253 is its own single byte. The bytes 253, 254 and 255
//! announce a little-endian integer of two, four and eight bytes, and each
//! of these widths is reserved for the values that need it: a value written
//! wider than necessary is rejected.

use vstd::prelude::*;
use crate::cursor::bytes_at;
use crate::cursor::lemma_bytes_at_prefix;
use crate::cursor::Cursor;
use crate::error::DecodeError;

verus! {

/// 256 to the power `n`.
pub open spec fn pow256(n: nat) -> nat
    decreases n,
{
    if n == 0 {
        1
    } else {
        256 * pow256((n - 1) as nat)
    }
}

/// The integer that `bytes` spell in little-endian order.
pub open spec fn le_value(bytes: Seq<u8>) -> nat
    decreases bytes.len(),
{
    if bytes.len() == 0 {
        0
    } else {
        bytes[0] as nat + 256 * le_value(bytes.drop_first())
    }
}

/// The little-endian integer of `width` bytes at offset `pos` of `s`.
pub open spec fn le_uint(s: Seq<u8>, pos: int, width: int) -> Option<nat> {
    match bytes_at(s, pos, width) {
        Some(bytes) => Some(le_value(bytes)),
        None => None,
    }
}

/// The number of bytes that follow the first byte `tag` of a compact size.
pub open spec fn compact_size_extra(tag: u8) -> int {
    if tag < 0xfd {
        0
    } else if tag == 0xfd {
        2
    } else if tag == 0xfe {
        4
    } else {
        8
    }
}

/// The least value that may be written with first byte `tag`.
pub open spec fn compact_size_floor(tag: u8) -> nat {
    if tag < 0xfd {
        0
    } else if tag == 0xfd {
        0xfd
    } else if tag == 0xfe {
        0x1_0000
    } else {
        0x1_0000_0000
    }
}

/// The compact size at offset `pos` of `s`, with the offset at which the
/// next field starts.
pub open spec fn compact_size(s: Seq<u8>, pos: int) -> Result<(u64, int), DecodeError> {
    if pos < 0 || pos >= s.len() {
        Err(DecodeError::TruncatedInput)
    } else if s[pos] < 0xfd {
        Ok((s[pos] as u64, pos + 1))
    } else {
        match le_uint(s, pos + 1, compact_size_extra(s[pos])) {
            None => Err(DecodeError::TruncatedInput),
            Some(value) => if value < compact_size_floor(s[pos]) {
                Err(DecodeError::NonMinimalCompactSize)
            } else {
                Ok((value as u64, pos + 1 + compact_size_extra(s[pos])))
            },
        }
    }
}

/// A little-endian integer is below 256 to the power of its width.
pub proof fn lemma_le_value_bound(bytes: Seq<u8>)
    ensures
        le_value(bytes) < pow256(bytes.len()),
    decreases bytes.len(),
{
    if bytes.len() > 0 {
        lemma_le_value_bound(bytes.drop_first());
    }
}

/// Cutting the input after `cut` bytes leaves a compact size as it was if
/// its encoding ends before the cut, and makes a compact size that was in
/// order fail as truncated otherwise.
pub proof fn lemma_compact_size_prefix(s: Seq<u8>, pos: int, cut: int)
    requires
        0 <= cut <= s.len(),
    ensures
        compact_size(s, pos) matches Ok((_, end)) ==> 0 <= pos < end <= s.len(),
        compact_size(s, pos) matches Ok((_, end)) ==> compact_size(s.subrange(0, cut), pos) == if end
            <= cut {
            compact_size(s, pos)
        } else {
            Err(DecodeError::TruncatedInput)
        },
{
    if 0 <= pos < cut {
        lemma_bytes_at_prefix(s, pos + 1, compact_size_extra(s[pos]), cut);
    }
}

proof fn lemma_pow256_values()
    ensures
        pow256(0) == 1,
        pow256(1) == 0x100,
        pow256(2) == 0x1_0000,
        pow256(3) == 0x100_0000,
        pow256(4) == 0x1_0000_0000,
        pow256(5) == 0x100_0000_0000,
        pow256(6) == 0x1_0000_0000_0000,
        pow256(7) == 0x100_0000_0000_0000,
        pow256(8) == 0x1_0000_0000_0000_0000,
{
    reveal_with_fuel(pow256, 10);
}

/// Reads a little-endian integer of `width` bytes.
pub fn read_le(d: &mut Cursor, width: usize) -> (r: Result<u64, DecodeError>)
    requires
        width <= 8,
    ensures
        final(d).bytes() == old(d).bytes(),
        final(d).offset() <= final(d).bytes().len(),
        match r {
            Ok(value) => {
                &&& le_uint(old(d).bytes(), old(d).offset() as int, width as int) == Some(
                    value as nat,
                )
                &&& final(d).offset() == old(d).offset() + width
            },
            Err(e) => {
                &&& e == DecodeError::TruncatedInput
                &&& le_uint(old(d).bytes(), old(d).offset() as int, width as int).is_none()
                &&& *final(d) == *old(d)
            },
        },
{
    let bytes = match d.read_bytes(width) {
        Ok(bytes) => bytes,
        Err(e) => {
            return Err(e);
        },
    };
    let mut value: u64 = 0;
    let mut i: usize = width;
    assert(bytes@.subrange(width as int, width as int).len() == 0);
    while i > 0
        invariant
            i <= width <= 8,
            bytes@.len() == width,
            value == le_value(bytes@.subrange(i as int, width as int)),
        decreases i,
    {
        proof {
            let tail = bytes@.subrange(i as int, width as int);
            let longer = bytes@.subrange(i - 1, width as int);
            assert(longer.drop_first() == tail);
            lemma_le_value_bound(tail);
            lemma_pow256_values();
        }
        i = i - 1;
        value = value * 256 + bytes[i] as u64;
    }
    assert(bytes@.subrange(0, width as int) == bytes@);
    Ok(value)
}

/// Reads one compact size.
///
/// Fails with [`DecodeError::TruncatedInput`] where the input ends inside
/// the encoding, and with [`DecodeError::NonMinimalCompactSize`] where the
/// value would have fit a narrower form. A failed read leaves the cursor
/// where it was.
pub fn decode_compact_size(d: &mut Cursor) -> (r: Result<u64, DecodeError>)
    ensures
        final(d).bytes() == old(d).bytes(),
        final(d).offset() <= final(d).bytes().len(),
        match r {
            Ok(value) => {
                &&& compact_size(old(d).bytes(), old(d).offset() as int) == Ok::<
                    (u64, int),
                    DecodeError,
                >((value, final(d).offset() as int))
                &&& final(d).offset() > old(d).offset()
            },
            Err(e) => {
                &&& compact_size(old(d).bytes(), old(d).offset() as int) == Err::<
                    (u64, int),
                    DecodeError,
                >(e)
                &&& *final(d) == *old(d)
            },
        },
{
    let start = *d;
    let tag = match d.read_u8() {
        Ok(tag) => tag,
        Err(e) => {
            return Err(e);
        },
    };
    if tag < 0xfd {
        return Ok(tag as u64);
    }
    let (width, floor): (usize, u64) = if tag == 0xfd {
        (2, 0xfd)
    } else if tag == 0xfe {
        (4, 0x1_0000)
    } else {
        (8, 0x1_0000_0000)
    };
    match read_le(d, width) {
        Err(e) => {
            *d = start;
            Err(e)
        },
        Ok(value) => {
            if value < floor {
                *d = start;
                Err(DecodeError::NonMinimalCompactSize)
            } else {
                Ok(value)
            }
        },
    }
}

} // verus!
