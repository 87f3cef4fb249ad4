//! The base-128 integer encoding of undo records.
//!
//! Every byte carries seven bits, most significant group first. A set high
//! bit says that another byte follows, and each such continuation adds one
//! to the value gathered so far before the next seven bits are shifted in,
//! so that no value has two encodings. The format itself sets no limit to
//! the length of an encoding; the decoder here takes values of up to 64
//! bits and rejects what is larger. This is not the compact-size encoding
//! that counts use.

use vstd::prelude::*;
use crate::cursor::Cursor;
use crate::error::DecodeError;

verus! {

/// Decodes from offset `pos` of `s`, with `acc` gathered from the bytes
/// before. Gives the unbounded value and the offset just past the byte that
/// ends the encoding, or `None` when `s` ends before such a byte.
pub open spec fn compact_int_from(s: Seq<u8>, pos: int, acc: nat) -> Option<(nat, int)>
    decreases s.len() - pos,
{
    if pos < 0 || pos >= s.len() {
        None
    } else {
        let folded = acc * 128 + (s[pos] % 128) as nat;
        if s[pos] >= 128 {
            compact_int_from(s, pos + 1, folded + 1)
        } else {
            Some((folded, pos + 1))
        }
    }
}

/// The integer encoded at offset `pos` of `s`, as a mathematical integer,
/// with the offset at which the next field starts.
pub open spec fn compact_int(s: Seq<u8>, pos: int) -> Option<(nat, int)> {
    compact_int_from(s, pos, 0)
}

/// What a 64-bit decoder makes of the integer at offset `pos` of `s`: the
/// integer and the offset of the next field where it fits 64 bits, and a
/// failure where it does not or where `s` ends inside the encoding.
pub open spec fn compact_int_u64(s: Seq<u8>, pos: int) -> Result<(u64, int), DecodeError> {
    match compact_int(s, pos) {
        None => Err(DecodeError::TruncatedInput),
        Some((value, end)) => if value <= u64::MAX {
            Ok((value as u64, end))
        } else {
            Err(DecodeError::CompactIntOverflow)
        },
    }
}

/// The bytes that encode `n`, where `more` says that further bytes follow
/// them: the seven low bits of `n` in the last byte, and before it the
/// bytes for what is left of `n`, less one.
pub open spec fn compact_int_digits(n: nat, more: bool) -> Seq<u8>
    decreases n,
{
    let last = (n % 128 + if more {
        128nat
    } else {
        0nat
    }) as u8;
    if n >= 128 {
        compact_int_digits((n / 128 - 1) as nat, true).push(last)
    } else {
        seq![last]
    }
}

/// The encoding of `n`.
pub open spec fn compact_int_encoding(n: nat) -> Seq<u8> {
    compact_int_digits(n, false)
}

/// An encoding takes at least one byte and lies within the input.
pub proof fn lemma_compact_int_end(s: Seq<u8>, pos: int, acc: nat)
    ensures
        compact_int_from(s, pos, acc) matches Some((_, end)) ==> 0 <= pos < end <= s.len(),
    decreases s.len() - pos,
{
    if 0 <= pos < s.len() && s[pos] >= 128 {
        lemma_compact_int_end(s, pos + 1, acc * 128 + (s[pos] % 128) as nat + 1);
    }
}

/// Cutting the input after `cut` bytes leaves an integer as it was if its
/// encoding ends before the cut, and leaves no integer otherwise.
pub proof fn lemma_compact_int_prefix(s: Seq<u8>, pos: int, acc: nat, cut: int)
    requires
        0 <= cut <= s.len(),
    ensures
        compact_int_from(s.subrange(0, cut), pos, acc) == match compact_int_from(s, pos, acc) {
            Some((value, end)) => if end <= cut {
                Some((value, end))
            } else {
                None
            },
            None => None,
        },
    decreases s.len() - pos,
{
    lemma_compact_int_end(s, pos, acc);
    if 0 <= pos < cut && s[pos] >= 128 {
        lemma_compact_int_prefix(s, pos + 1, acc * 128 + (s[pos] % 128) as nat + 1, cut);
    } else if 0 <= pos < s.len() && s[pos] >= 128 {
        lemma_compact_int_end(s, pos + 1, acc * 128 + (s[pos] % 128) as nat + 1);
    }
}

proof fn lemma_digits_decode(s: Seq<u8>, pos: int, n: nat, more: bool)
    requires
        0 <= pos,
        pos + compact_int_digits(n, more).len() <= s.len(),
        s.subrange(pos, pos + compact_int_digits(n, more).len()) == compact_int_digits(n, more),
    ensures
        compact_int_from(s, pos, 0) == if more {
            compact_int_from(s, pos + compact_int_digits(n, more).len(), n + 1)
        } else {
            Some((n, pos + compact_int_digits(n, more).len()))
        },
    decreases n,
{
    let digits = compact_int_digits(n, more);
    let end = pos + digits.len();
    assert(s[end - 1] == digits[digits.len() - 1]);
    if n >= 128 {
        let rest = (n / 128 - 1) as nat;
        let head = compact_int_digits(rest, true);
        assert(s.subrange(pos, pos + head.len()) == head) by {
            assert(s.subrange(pos, pos + head.len()) == digits.subrange(0, head.len() as int));
            assert(digits.subrange(0, head.len() as int) == head);
        }
        lemma_digits_decode(s, pos, rest, true);
        assert(compact_int_from(s, pos, 0) == compact_int_from(s, end - 1, rest + 1));
        assert((rest + 1) * 128 + n % 128 == n);
    }
}

/// Decoding undoes encoding: the encoding of any integer, followed by
/// whatever bytes, decodes to that integer and ends where the encoding
/// ends.
pub proof fn lemma_decode_inverts_encode(n: nat, rest: Seq<u8>)
    ensures
        compact_int(compact_int_encoding(n) + rest, 0) == Some(
            (n, compact_int_encoding(n).len() as int),
        ),
{
    let encoding = compact_int_encoding(n);
    let s = encoding + rest;
    assert(s.subrange(0, encoding.len() as int) == encoding);
    lemma_digits_decode(s, 0, n, false);
}

proof fn lemma_decoded_digits(s: Seq<u8>, start: int, pos: int, acc: nat)
    requires
        0 <= start <= pos <= s.len(),
        pos == start ==> acc == 0,
        pos > start ==> acc >= 1 && compact_int_digits((acc - 1) as nat, true) == s.subrange(
            start,
            pos,
        ),
    ensures
        compact_int_from(s, pos, acc) matches Some((value, end)) ==> s.subrange(start, end)
            == compact_int_encoding(value),
    decreases s.len() - pos,
{
    if pos < s.len() {
        let folded = acc * 128 + (s[pos] % 128) as nat;
        assert(folded / 128 == acc && folded % 128 == s[pos] % 128);
        assert(s.subrange(start, pos + 1) == s.subrange(start, pos).push(s[pos]));
        let more = s[pos] >= 128;
        assert(compact_int_digits(folded, more) == s.subrange(start, pos + 1)) by {
            if acc == 0 {
                assert(s.subrange(start, pos + 1) == seq![s[pos]]);
            } else {
                assert((folded / 128 - 1) as nat == (acc - 1) as nat);
            }
        }
        if more {
            lemma_decoded_digits(s, start, pos + 1, folded + 1);
        }
    }
}

/// No integer has two encodings: the bytes that decode to an integer are
/// its encoding.
pub proof fn lemma_encoding_is_unique(s: Seq<u8>, pos: int)
    ensures
        compact_int(s, pos) matches Some((value, end)) ==> s.subrange(pos, end)
            == compact_int_encoding(value),
{
    if 0 <= pos <= s.len() {
        lemma_decoded_digits(s, pos, pos, 0);
    }
}

/// Cutting the input after `cut` bytes leaves an integer that was in order
/// as it was if its encoding ends before the cut, and makes it fail as
/// truncated otherwise.
pub proof fn lemma_compact_int_u64_prefix(s: Seq<u8>, pos: int, cut: int)
    requires
        0 <= cut <= s.len(),
    ensures
        compact_int_u64(s, pos) matches Ok((_, end)) ==> 0 <= pos < end <= s.len(),
        compact_int_u64(s, pos) matches Ok((_, end)) ==> compact_int_u64(s.subrange(0, cut), pos)
            == if end <= cut {
            compact_int_u64(s, pos)
        } else {
            Err(DecodeError::TruncatedInput)
        },
{
    lemma_compact_int_end(s, pos, 0);
    lemma_compact_int_prefix(s, pos, 0, cut);
}

/// Reads one integer in the base-128 encoding of undo records.
///
/// Succeeds exactly when the unread bytes hold a byte without the
/// continuation bit and the integer that ends there fits 64 bits, and then
/// returns the integer and the number of bytes read. Fails with
/// [`DecodeError::TruncatedInput`] where no such byte is left, and with
/// [`DecodeError::CompactIntOverflow`] where the encoding ends but stands
/// for more than 64 bits hold. A failed read leaves the cursor where it
/// was.
pub fn decode_compact_int(d: &mut Cursor) -> (r: Result<(u64, usize), DecodeError>)
    ensures
        final(d).bytes() == old(d).bytes(),
        final(d).offset() <= final(d).bytes().len(),
        match r {
            Ok((value, consumed)) => {
                &&& compact_int_u64(old(d).bytes(), old(d).offset() as int) == Ok::<
                    (u64, int),
                    DecodeError,
                >((value, final(d).offset() as int))
                &&& final(d).offset() == old(d).offset() + consumed
                &&& consumed >= 1
            },
            Err(e) => {
                &&& compact_int_u64(old(d).bytes(), old(d).offset() as int) == Err::<
                    (u64, int),
                    DecodeError,
                >(e)
                &&& *final(d) == *old(d)
            },
        },
{
    let start = *d;
    let begin = d.position();
    let mut n: u64 = 0;
    // Set once the value has outgrown 64 bits. Reading goes on to the last
    // byte of the encoding all the same: only there is it known whether the
    // input is too large or cut short.
    let mut overflow = false;
    let ghost mut acc: nat = 0;
    loop
        invariant
            start == *old(d),
            begin == start.offset(),
            d.bytes() == start.bytes(),
            start.offset() <= d.offset() <= d.bytes().len(),
            compact_int_from(start.bytes(), start.offset() as int, 0) == compact_int_from(
                d.bytes(),
                d.offset() as int,
                acc,
            ),
            !overflow ==> n == acc,
            overflow ==> acc > u64::MAX,
        decreases d.bytes().len() - d.offset(),
    {
        match d.read_u8() {
            Err(e) => {
                *d = start;
                return Err(e);
            },
            Ok(b) => {
                let low = b & 0x7f;
                assert(low == b % 128 && low < 128) by (bit_vector)
                    requires
                        low == b & 0x7f,
                ;
                assert((b & 0x80 != 0) == (b >= 128)) by (bit_vector);
                let more = b & 0x80 != 0;
                let ghost folded = acc * 128 + low as nat;
                if !overflow {
                    if n > (u64::MAX >> 7) {
                        assert(u64::MAX >> 7 == 0x1ff_ffff_ffff_ffff) by (bit_vector);
                        overflow = true;
                    } else {
                        let lw = low as u64;
                        assert(((n << 7) | lw) == n * 128 + lw) by (bit_vector)
                            requires
                                n <= (u64::MAX >> 7),
                                lw < 128,
                        ;
                        n = (n << 7) | lw;
                        if more {
                            if n == u64::MAX {
                                overflow = true;
                            } else {
                                n = n + 1;
                            }
                        }
                    }
                }
                if more {
                    proof {
                        acc = folded + 1;
                    }
                } else if overflow {
                    assert(folded >= acc);
                    *d = start;
                    return Err(DecodeError::CompactIntOverflow);
                } else {
                    return Ok((n, d.position() - begin));
                }
            },
        }
    }
}

} // verus!
