//! One spent output in the plain format: nothing is compressed.
//!
//! The amount is eight bytes in little-endian order, and the script follows
//! its length, a compact size.

use vstd::prelude::*;
use crate::compact_size::compact_size;
use crate::compact_size::decode_compact_size;
use crate::compact_size::le_uint;
use crate::compact_size::lemma_compact_size_prefix;
use crate::compact_size::read_le;
use crate::cursor::bytes_at;
use crate::cursor::lemma_bytes_at_prefix;
use crate::cursor::Cursor;
use crate::error::DecodeError;
use crate::stats::Stats;

verus! {

/// The number of bytes of an amount in the plain format.
pub const AMOUNT_LEN: usize = 8;

/// A spent output, decoded.
pub ghost struct SpentOutput {
    /// The amount in satoshis.
    pub amount: u64,
    /// The script.
    pub script: Seq<u8>,
}

/// The spent output at offset `pos` of `s`, with the offset at which the
/// next one starts.
pub open spec fn spent_output(s: Seq<u8>, pos: int) -> Result<(SpentOutput, int), DecodeError> {
    match le_uint(s, pos, AMOUNT_LEN as int) {
        None => Err(DecodeError::TruncatedInput),
        Some(amount) => match compact_size(s, pos + AMOUNT_LEN) {
            Err(e) => Err(e),
            Ok((len, script_at)) => match bytes_at(s, script_at, len as int) {
                None => Err(DecodeError::TruncatedInput),
                Some(script) => Ok((SpentOutput { amount: amount as u64, script }, script_at + len)),
            },
        },
    }
}

/// A spent output lies within the input, takes at least nine bytes, and is
/// longer than its script.
pub proof fn lemma_spent_output_size(s: Seq<u8>, pos: int)
    ensures
        spent_output(s, pos) matches Ok((output, end)) ==> {
            &&& 0 <= pos
            &&& pos + 9 <= end <= s.len()
            &&& output.script.len() + 9 <= end - pos
        },
{
}

/// Cutting the input after `cut` bytes leaves a spent output as it was if it
/// ends before the cut, and makes one that was in order fail as truncated
/// otherwise.
pub proof fn lemma_spent_output_prefix(s: Seq<u8>, pos: int, cut: int)
    requires
        0 <= cut <= s.len(),
    ensures
        spent_output(s, pos) matches Ok((_, end)) ==> spent_output(s.subrange(0, cut), pos) == if end
            <= cut {
            spent_output(s, pos)
        } else {
            Err(DecodeError::TruncatedInput)
        },
{
    lemma_bytes_at_prefix(s, pos, AMOUNT_LEN as int, cut);
    lemma_compact_size_prefix(s, pos + AMOUNT_LEN, cut);
    if let Ok((len, script_at)) = compact_size(s, pos + AMOUNT_LEN) {
        lemma_bytes_at_prefix(s, script_at, len as int, cut);
    }
}

/// Reads one spent output in the plain format and adds it to `stats`: one
/// more record, its amount, and the length of its script. The histogram is
/// left alone.
///
/// Fails with [`DecodeError::TruncatedInput`] where the input ends inside
/// the output, and with [`DecodeError::NonMinimalCompactSize`] where the
/// length of the script is written wider than it needs. An output that
/// fails changes neither the totals nor the cursor.
pub fn decode_spent_output(d: &mut Cursor, stats: &mut Stats) -> (r: Result<(), DecodeError>)
    requires
        old(stats)@.can_absorb(old(d).unread()),
    ensures
        final(d).bytes() == old(d).bytes(),
        final(d).offset() <= final(d).bytes().len(),
        match r {
            Ok(()) => {
                &&& spent_output(old(d).bytes(), old(d).offset() as int) matches Ok((output, end))
                &&& final(d).offset() == end
                &&& final(stats)@ == old(stats)@.record_plain(
                    output.amount as nat,
                    output.script.len(),
                )
                &&& final(stats)@.can_absorb(final(d).unread())
            },
            Err(e) => {
                &&& spent_output(old(d).bytes(), old(d).offset() as int) == Err::<
                    (SpentOutput, int),
                    DecodeError,
                >(e)
                &&& *final(d) == *old(d)
                &&& *final(stats) == *old(stats)
            },
        },
{
    let start = *d;
    let amount = match read_le(d, AMOUNT_LEN) {
        Ok(amount) => amount,
        Err(e) => {
            return Err(e);
        },
    };
    let len = match decode_compact_size(d) {
        Ok(len) => len,
        Err(e) => {
            *d = start;
            return Err(e);
        },
    };
    if len > d.remaining() as u64 {
        *d = start;
        return Err(DecodeError::TruncatedInput);
    }
    let script = match d.read_bytes(len as usize) {
        Ok(script) => script,
        Err(e) => {
            *d = start;
            return Err(e);
        },
    };
    proof {
        lemma_spent_output_size(start.bytes(), start.offset() as int);
    }
    stats.record_plain(amount, script.len());
    Ok(())
}

} // verus!
