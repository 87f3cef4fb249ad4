//! Whole buffers: the spent outputs of one block.
//!
//! A buffer starts with the number of transactions, a compact size. Every
//! transaction is the number of its inputs, a compact size again, followed
//! by one record for each input. The two formats differ in the records
//! alone.

use vstd::prelude::*;
use crate::compact_size::compact_size;
use crate::compact_size::decode_compact_size;
use crate::compact_size::lemma_compact_size_prefix;
use crate::cursor::Cursor;
use crate::error::DecodeError;
use crate::spent::decode_spent_output;
use crate::spent::lemma_spent_output_prefix;
use crate::spent::lemma_spent_output_size;
use crate::spent::spent_output;
use crate::stats::Stats;
use crate::stats::Totals;
use crate::undo::decode_undo_record;
use crate::undo::lemma_undo_record_prefix;
use crate::undo::lemma_undo_record_size;
use crate::undo::undo_record;

verus! {

/// How the records of a buffer are written.
#[derive(Debug, Clone, Copy, PartialEq, Eq, Structural)]
pub enum RecordFormat {
    /// Undo records: compressed amounts and scripts.
    Undo,
    /// Plain spent outputs.
    Plain,
}

/// Where decoding stopped, and the totals at that point.
pub ghost struct Decoded {
    /// The offset just past the last record, or why decoding gave up.
    pub end: Result<int, DecodeError>,
    /// The totals with every record that came before `end` taken in.
    pub totals: Totals,
}

/// Decoding the one record at offset `pos` of `s` into `totals`. A record
/// that fails leaves the totals as they were.
pub open spec fn one_record(format: RecordFormat, s: Seq<u8>, pos: int, totals: Totals) -> Decoded {
    match format {
        RecordFormat::Undo => match undo_record(s, pos) {
            Err(e) => Decoded { end: Err(e), totals },
            Ok((record, end)) => Decoded {
                end: Ok(end),
                totals: totals.record(record.bucket, record.amount as nat, record.script.len()),
            },
        },
        RecordFormat::Plain => match spent_output(s, pos) {
            Err(e) => Decoded { end: Err(e), totals },
            Ok((output, end)) => Decoded {
                end: Ok(end),
                totals: totals.record_plain(output.amount as nat, output.script.len()),
            },
        },
    }
}

/// Decoding `count` records in a row from offset `pos` of `s` into
/// `totals`, up to the first that fails.
pub open spec fn records(
    format: RecordFormat,
    s: Seq<u8>,
    pos: int,
    count: nat,
    totals: Totals,
) -> Decoded
    decreases count,
{
    if count == 0 {
        Decoded { end: Ok(pos), totals }
    } else {
        let first = one_record(format, s, pos, totals);
        match first.end {
            Err(_) => first,
            Ok(next) => records(format, s, next, (count - 1) as nat, first.totals),
        }
    }
}

/// Decoding `count` transactions in a row from offset `pos` of `s` into
/// `totals`: for each its number of inputs, then that many records.
pub open spec fn transactions(
    format: RecordFormat,
    s: Seq<u8>,
    pos: int,
    count: nat,
    totals: Totals,
) -> Decoded
    decreases count,
{
    if count == 0 {
        Decoded { end: Ok(pos), totals }
    } else {
        match compact_size(s, pos) {
            Err(e) => Decoded { end: Err(e), totals },
            Ok((inputs, first_at)) => {
                let first = records(format, s, first_at, inputs as nat, totals);
                match first.end {
                    Err(_) => first,
                    Ok(next) => transactions(format, s, next, (count - 1) as nat, first.totals),
                }
            },
        }
    }
}

/// Decoding the whole buffer `s` into `totals`: the number of transactions,
/// then the transactions.
pub open spec fn block(format: RecordFormat, s: Seq<u8>, totals: Totals) -> Decoded {
    match compact_size(s, 0) {
        Err(e) => Decoded { end: Err(e), totals },
        Ok((count, first_at)) => transactions(format, s, first_at, count as nat, totals),
    }
}

/// A record that fails leaves the totals as they were, and one that is in
/// order takes at least one byte.
pub proof fn lemma_one_record(format: RecordFormat, s: Seq<u8>, pos: int, totals: Totals)
    ensures
        one_record(format, s, pos, totals).end is Err ==> one_record(format, s, pos, totals).totals
            == totals,
        one_record(format, s, pos, totals).end matches Ok(end) ==> 0 <= pos < end <= s.len(),
{
    lemma_undo_record_size(s, pos);
    lemma_spent_output_size(s, pos);
}

/// Cutting the input after `cut` bytes leaves a record as it was if it ends
/// before the cut, and makes one that was in order fail as truncated
/// otherwise, with the totals untouched.
pub proof fn lemma_one_record_prefix(
    format: RecordFormat,
    s: Seq<u8>,
    pos: int,
    totals: Totals,
    cut: int,
)
    requires
        0 <= cut <= s.len(),
    ensures
        one_record(format, s, pos, totals).end matches Ok(end) ==> one_record(
            format,
            s.subrange(0, cut),
            pos,
            totals,
        ) == if end <= cut {
            one_record(format, s, pos, totals)
        } else {
            Decoded { end: Err(DecodeError::TruncatedInput), totals }
        },
{
    lemma_undo_record_prefix(s, pos, cut);
    lemma_spent_output_prefix(s, pos, cut);
}

/// A run of records that is in order ends within the input, at or after
/// its start.
pub proof fn lemma_records_end(
    format: RecordFormat,
    s: Seq<u8>,
    pos: int,
    count: nat,
    totals: Totals,
)
    requires
        0 <= pos <= s.len(),
    ensures
        records(format, s, pos, count, totals).end matches Ok(end) ==> pos <= end <= s.len(),
    decreases count,
{
    if count > 0 {
        let first = one_record(format, s, pos, totals);
        lemma_one_record(format, s, pos, totals);
        if let Ok(next) = first.end {
            lemma_records_end(format, s, next, (count - 1) as nat, first.totals);
        }
    }
}

/// A run of transactions that is in order ends within the input, at or
/// after its start.
pub proof fn lemma_transactions_end(
    format: RecordFormat,
    s: Seq<u8>,
    pos: int,
    count: nat,
    totals: Totals,
)
    requires
        0 <= pos <= s.len(),
    ensures
        transactions(format, s, pos, count, totals).end matches Ok(end) ==> pos <= end <= s.len(),
    decreases count,
{
    if count > 0 {
        lemma_compact_size_prefix(s, pos, 0);
        if let Ok((inputs, first_at)) = compact_size(s, pos) {
            let first = records(format, s, first_at, inputs as nat, totals);
            lemma_records_end(format, s, first_at, inputs as nat, totals);
            if let Ok(next) = first.end {
                lemma_transactions_end(format, s, next, (count - 1) as nat, first.totals);
            }
        }
    }
}

/// Cutting the input after `cut` bytes leaves a run of records as it was if
/// it ends before the cut, and makes a run that was in order fail as
/// truncated if the cut falls inside it.
pub proof fn lemma_records_prefix(
    format: RecordFormat,
    s: Seq<u8>,
    pos: int,
    count: nat,
    totals: Totals,
    cut: int,
)
    requires
        0 <= pos <= cut <= s.len(),
        records(format, s, pos, count, totals).end is Ok,
    ensures
        records(format, s, pos, count, totals).end->Ok_0 <= cut ==> records(
            format,
            s.subrange(0, cut),
            pos,
            count,
            totals,
        ) == records(format, s, pos, count, totals),
        records(format, s, pos, count, totals).end->Ok_0 > cut ==> records(
            format,
            s.subrange(0, cut),
            pos,
            count,
            totals,
        ).end == Err::<int, DecodeError>(DecodeError::TruncatedInput),
    decreases count,
{
    if count > 0 {
        let first = one_record(format, s, pos, totals);
        lemma_one_record(format, s, pos, totals);
        lemma_one_record_prefix(format, s, pos, totals, cut);
        let next = first.end->Ok_0;
        lemma_records_end(format, s, next, (count - 1) as nat, first.totals);
        if next <= cut {
            lemma_records_prefix(format, s, next, (count - 1) as nat, first.totals, cut);
        }
    }
}

/// Cutting the input after `cut` bytes leaves a run of transactions as it
/// was if it ends before the cut, and makes a run that was in order fail as
/// truncated if the cut falls inside it.
pub proof fn lemma_transactions_prefix(
    format: RecordFormat,
    s: Seq<u8>,
    pos: int,
    count: nat,
    totals: Totals,
    cut: int,
)
    requires
        0 <= pos <= cut <= s.len(),
        transactions(format, s, pos, count, totals).end is Ok,
    ensures
        transactions(format, s, pos, count, totals).end->Ok_0 <= cut ==> transactions(
            format,
            s.subrange(0, cut),
            pos,
            count,
            totals,
        ) == transactions(format, s, pos, count, totals),
        transactions(format, s, pos, count, totals).end->Ok_0 > cut ==> transactions(
            format,
            s.subrange(0, cut),
            pos,
            count,
            totals,
        ).end == Err::<int, DecodeError>(DecodeError::TruncatedInput),
    decreases count,
{
    if count > 0 {
        lemma_compact_size_prefix(s, pos, cut);
        let (inputs, first_at) = compact_size(s, pos)->Ok_0;
        let first = records(format, s, first_at, inputs as nat, totals);
        lemma_records_end(format, s, first_at, inputs as nat, totals);
        let next = first.end->Ok_0;
        lemma_transactions_end(format, s, next, (count - 1) as nat, first.totals);
        if first_at <= cut {
            lemma_records_prefix(format, s, first_at, inputs as nat, totals, cut);
            if next <= cut {
                lemma_transactions_prefix(format, s, next, (count - 1) as nat, first.totals, cut);
            }
        }
    }
}

/// A buffer that decodes ends within itself, after the count of its
/// transactions.
pub proof fn lemma_block_end(format: RecordFormat, s: Seq<u8>, totals: Totals)
    ensures
        block(format, s, totals).end matches Ok(end) ==> 1 <= end <= s.len(),
{
    lemma_compact_size_prefix(s, 0, 0);
    if let Ok((count, first_at)) = compact_size(s, 0) {
        lemma_transactions_end(format, s, first_at, count as nat, totals);
    }
}

/// A buffer that is cut short fails as truncated: if a buffer decodes, then
/// what is left of it after a cut anywhere before the end of its last
/// record does not, and the failure is
/// [`DecodeError::TruncatedInput`].
pub proof fn lemma_truncated_buffer_rejected(
    format: RecordFormat,
    s: Seq<u8>,
    totals: Totals,
    cut: int,
)
    requires
        block(format, s, totals).end matches Ok(end) && 0 <= cut < end,
    ensures
        block(format, s.subrange(0, cut), totals).end == Err::<int, DecodeError>(
            DecodeError::TruncatedInput,
        ),
{
    lemma_block_end(format, s, totals);
    lemma_compact_size_prefix(s, 0, cut);
    let (count, first_at) = compact_size(s, 0)->Ok_0;
    if first_at <= cut {
        lemma_transactions_prefix(format, s, first_at, count as nat, totals, cut);
    }
}

/// Bytes after the last record do not matter: a buffer that decodes gives
/// the same end and the same totals when bytes behind that end are taken
/// away.
pub proof fn lemma_trailing_bytes_ignored(
    format: RecordFormat,
    s: Seq<u8>,
    totals: Totals,
    cut: int,
)
    requires
        block(format, s, totals).end matches Ok(end) && end <= cut <= s.len(),
    ensures
        block(format, s.subrange(0, cut), totals) == block(format, s, totals),
{
    lemma_block_end(format, s, totals);
    lemma_compact_size_prefix(s, 0, cut);
    let (count, first_at) = compact_size(s, 0)->Ok_0;
    lemma_transactions_end(format, s, first_at, count as nat, totals);
    lemma_transactions_prefix(format, s, first_at, count as nat, totals, cut);
}

/// Whether the outcome `r` of a decoder and the totals it left are what
/// `expected` says.
pub open spec fn decoded_as(r: Result<usize, DecodeError>, totals: Totals, expected: Decoded) -> bool {
    &&& totals == expected.totals
    &&& match r {
        Ok(consumed) => expected.end == Ok::<int, DecodeError>(consumed as int),
        Err(e) => expected.end == Err::<int, DecodeError>(e),
    }
}

/// Reads one record in the given format and adds it to `stats`.
fn decode_record(format: RecordFormat, d: &mut Cursor, stats: &mut Stats) -> (r: Result<
    (),
    DecodeError,
>)
    requires
        old(stats)@.can_absorb(old(d).unread()),
    ensures
        final(d).bytes() == old(d).bytes(),
        final(d).offset() <= final(d).bytes().len(),
        final(stats)@ == one_record(
            format,
            old(d).bytes(),
            old(d).offset() as int,
            old(stats)@,
        ).totals,
        match r {
            Ok(()) => {
                &&& one_record(format, old(d).bytes(), old(d).offset() as int, old(stats)@).end
                    == Ok::<int, DecodeError>(final(d).offset() as int)
                &&& final(stats)@.can_absorb(final(d).unread())
            },
            Err(e) => {
                &&& one_record(format, old(d).bytes(), old(d).offset() as int, old(stats)@).end
                    == Err::<int, DecodeError>(e)
                &&& *final(d) == *old(d)
            },
        },
{
    match format {
        RecordFormat::Undo => decode_undo_record(d, stats),
        RecordFormat::Plain => decode_spent_output(d, stats),
    }
}

/// Decodes a whole buffer in the given format into `stats`.
///
/// Records are taken in as they are read, so after a failure the totals
/// hold every record that came before the one that failed, and nothing of
/// that one. On success the result is the number of bytes that the
/// transactions took: a caller that expects the buffer to hold nothing else
/// compares it with the buffer's length.
pub fn decode_buffer(format: RecordFormat, buffer: &[u8], stats: &mut Stats) -> (r: Result<
    usize,
    DecodeError,
>)
    requires
        old(stats)@.can_absorb(buffer@.len()),
    ensures
        decoded_as(r, final(stats)@, block(format, buffer@, old(stats)@)),
        r matches Ok(consumed) ==> consumed <= buffer@.len(),
{
    let mut d = Cursor::new(buffer);
    let tx_count = match decode_compact_size(&mut d) {
        Ok(count) => count,
        Err(e) => {
            return Err(e);
        },
    };
    let mut tx: u64 = 0;
    while tx < tx_count
        invariant
            tx <= tx_count,
            d.bytes() == buffer@,
            d.offset() <= buffer@.len(),
            stats@.can_absorb(d.unread()),
            block(format, buffer@, old(stats)@) == transactions(
                format,
                buffer@,
                d.offset() as int,
                (tx_count - tx) as nat,
                stats@,
            ),
        decreases tx_count - tx,
    {
        let input_count = match decode_compact_size(&mut d) {
            Ok(count) => count,
            Err(e) => {
                return Err(e);
            },
        };
        let ghost rest = (tx_count - tx - 1) as nat;
        let mut input: u64 = 0;
        while input < input_count
            invariant
                input <= input_count,
                d.bytes() == buffer@,
                d.offset() <= buffer@.len(),
                stats@.can_absorb(d.unread()),
                block(format, buffer@, old(stats)@) == ({
                    let inputs = records(
                        format,
                        buffer@,
                        d.offset() as int,
                        (input_count - input) as nat,
                        stats@,
                    );
                    match inputs.end {
                        Err(_) => inputs,
                        Ok(next) => transactions(format, buffer@, next, rest, inputs.totals),
                    }
                }),
            decreases input_count - input,
        {
            match decode_record(format, &mut d, stats) {
                Ok(()) => {},
                Err(e) => {
                    return Err(e);
                },
            }
            input = input + 1;
        }
        tx = tx + 1;
    }
    Ok(d.position())
}

/// Decodes the undo data of one block into `stats`: for every spent output
/// one more record, one more in the bucket of its script, its amount, and
/// the length of its rebuilt script.
///
/// Fails as [`decode_undo_record`] and [`decode_compact_size`] do. After a
/// failure the totals hold the records before the one that failed. On
/// success the result is the number of bytes that were decoded.
pub fn decode_block_undo(buffer: &[u8], stats: &mut Stats) -> (r: Result<usize, DecodeError>)
    requires
        old(stats)@.can_absorb(buffer@.len()),
    ensures
        decoded_as(r, final(stats)@, block(RecordFormat::Undo, buffer@, old(stats)@)),
        r matches Ok(consumed) ==> consumed <= buffer@.len(),
{
    decode_buffer(RecordFormat::Undo, buffer, stats)
}

/// Decodes the plain spent outputs of one block into `stats`: for every
/// spent output one more record, its amount, and the length of its script.
///
/// Fails as [`decode_spent_output`] and [`decode_compact_size`] do. After a
/// failure the totals hold the records before the one that failed. On
/// success the result is the number of bytes that were decoded.
pub fn decode_spent_outputs(buffer: &[u8], stats: &mut Stats) -> (r: Result<usize, DecodeError>)
    requires
        old(stats)@.can_absorb(buffer@.len()),
    ensures
        decoded_as(r, final(stats)@, block(RecordFormat::Plain, buffer@, old(stats)@)),
        r matches Ok(consumed) ==> consumed <= buffer@.len(),
{
    decode_buffer(RecordFormat::Plain, buffer, stats)
}

} // verus!
