//! One undo record: what a spent output held.
//!
//! A record is four fields in a row: a marker that packs the height of the
//! creating block with a coinbase flag, a reserved integer that is always
//! zero, the compressed amount, and the compressed script. The first three
//! are base-128 integers. The script starts with a base-128 discriminator:
//! below six it is a template code, followed by the template's payload;
//! from six on it is the length of a raw script plus six, followed by the
//! script itself.

use vstd::prelude::*;
use crate::amount::decompress_amount;
use crate::amount::decompressed_amount_u64;
use crate::compact_int::compact_int;
use crate::compact_int::compact_int_encoding;
use crate::compact_int::compact_int_u64;
use crate::compact_int::decode_compact_int;
use crate::compact_int::lemma_compact_int_end;
use crate::compact_int::lemma_compact_int_u64_prefix;
use crate::compact_int::lemma_encoding_is_unique;
use crate::cursor::bytes_at;
use crate::cursor::lemma_bytes_at_prefix;
use crate::cursor::Cursor;
use crate::error::DecodeError;
use crate::script::decompress_script;
use crate::script::decompressed_script;
use crate::script::lemma_template_shapes;
use crate::script::template_payload_len;
use crate::script::HASH_LEN;
use crate::script::SPECIAL_SCRIPTS;
use crate::script::X_COORDINATE_LEN;
use crate::stats::Stats;
use crate::stats::RAW_BUCKET;

verus! {

/// A script as an undo record stores it, decoded.
pub ghost struct StoredScript {
    /// The histogram bucket: the template code, or 6 for a raw script.
    pub bucket: int,
    /// The full script.
    pub script: Seq<u8>,
}

/// An undo record, decoded.
pub ghost struct UndoRecord {
    /// The height and coinbase marker, as stored.
    pub height_code: u64,
    /// The amount in satoshis.
    pub amount: u64,
    /// The histogram bucket of the script.
    pub bucket: int,
    /// The full script.
    pub script: Seq<u8>,
}

/// The compressed script at offset `pos` of `s`, with the offset at which
/// the next field starts.
pub open spec fn stored_script(s: Seq<u8>, pos: int) -> Result<(StoredScript, int), DecodeError> {
    match compact_int_u64(s, pos) {
        Err(e) => Err(e),
        Ok((kind, at)) => if kind < SPECIAL_SCRIPTS {
            match bytes_at(s, at, template_payload_len(kind as u8) as int) {
                None => Err(DecodeError::TruncatedInput),
                Some(payload) => match decompressed_script(kind as u8, payload) {
                    Err(e) => Err(e),
                    Ok(script) => Ok(
                        (
                            StoredScript { bucket: kind as int, script },
                            at + template_payload_len(kind as u8),
                        ),
                    ),
                },
            }
        } else {
            match bytes_at(s, at, kind - SPECIAL_SCRIPTS) {
                None => Err(DecodeError::TruncatedInput),
                Some(raw) => Ok(
                    (
                        StoredScript { bucket: RAW_BUCKET as int, script: raw },
                        at + kind - SPECIAL_SCRIPTS,
                    ),
                ),
            }
        },
    }
}

/// The undo record at offset `pos` of `s`, with the offset at which the
/// next record starts. The fields are judged in the order in which they
/// stand, and the first that is not in order decides the failure.
pub open spec fn undo_record(s: Seq<u8>, pos: int) -> Result<(UndoRecord, int), DecodeError> {
    match compact_int_u64(s, pos) {
        Err(e) => Err(e),
        Ok((height_code, reserved_at)) => match compact_int_u64(s, reserved_at) {
            Err(e) => Err(e),
            Ok((reserved, amount_at)) => if reserved != 0 {
                Err(DecodeError::ReservedFieldNonzero)
            } else {
                match compact_int_u64(s, amount_at) {
                    Err(e) => Err(e),
                    Ok((stored_amount, script_at)) => match stored_script(s, script_at) {
                        Err(e) => Err(e),
                        Ok((stored, end)) => Ok(
                            (
                                UndoRecord {
                                    height_code,
                                    amount: decompressed_amount_u64(stored_amount),
                                    bucket: stored.bucket,
                                    script: stored.script,
                                },
                                end,
                            ),
                        ),
                    },
                }
            },
        },
    }
}

/// A stored script lies within the input, takes at least one byte, and
/// decodes to at most one byte more than twice the bytes it takes.
pub proof fn lemma_stored_script_size(s: Seq<u8>, pos: int)
    ensures
        stored_script(s, pos) matches Ok((stored, end)) ==> {
            &&& 0 <= pos < end <= s.len()
            &&& 0 <= stored.bucket <= RAW_BUCKET
            &&& stored.script.len() <= 2 * (end - pos) + 1
        },
{
    lemma_compact_int_end(s, pos, 0);
    if let Ok((kind, at)) = compact_int_u64(s, pos) {
        if kind < SPECIAL_SCRIPTS {
            if let Some(payload) = bytes_at(s, at, template_payload_len(kind as u8) as int) {
                lemma_template_shapes(kind as u8, payload);
            }
        }
    }
}

/// An undo record lies within the input, takes at least four bytes, and
/// its script is at most twice as long as the record.
pub proof fn lemma_undo_record_size(s: Seq<u8>, pos: int)
    ensures
        undo_record(s, pos) matches Ok((record, end)) ==> {
            &&& 0 <= pos
            &&& pos + 4 <= end <= s.len()
            &&& 0 <= record.bucket <= RAW_BUCKET
            &&& record.script.len() <= 2 * (end - pos)
        },
{
    lemma_compact_int_end(s, pos, 0);
    if let Ok((_, reserved_at)) = compact_int_u64(s, pos) {
        lemma_compact_int_end(s, reserved_at, 0);
        if let Ok((_, amount_at)) = compact_int_u64(s, reserved_at) {
            lemma_compact_int_end(s, amount_at, 0);
            if let Ok((_, script_at)) = compact_int_u64(s, amount_at) {
                lemma_stored_script_size(s, script_at);
            }
        }
    }
}

/// Cutting the input after `cut` bytes leaves a stored script as it was if
/// it ends before the cut, and makes one that was in order fail as
/// truncated otherwise.
pub proof fn lemma_stored_script_prefix(s: Seq<u8>, pos: int, cut: int)
    requires
        0 <= cut <= s.len(),
    ensures
        stored_script(s, pos) matches Ok((_, end)) ==> stored_script(s.subrange(0, cut), pos) == if end
            <= cut {
            stored_script(s, pos)
        } else {
            Err(DecodeError::TruncatedInput)
        },
{
    lemma_compact_int_u64_prefix(s, pos, cut);
    if let Ok((kind, at)) = compact_int_u64(s, pos) {
        if kind < SPECIAL_SCRIPTS {
            lemma_bytes_at_prefix(s, at, template_payload_len(kind as u8) as int, cut);
        } else {
            lemma_bytes_at_prefix(s, at, kind - SPECIAL_SCRIPTS, cut);
        }
    }
}

/// Cutting the input after `cut` bytes leaves an undo record as it was if
/// it ends before the cut, and makes one that was in order fail as
/// truncated otherwise: no part of a record that was cut short is
/// returned.
pub proof fn lemma_undo_record_prefix(s: Seq<u8>, pos: int, cut: int)
    requires
        0 <= cut <= s.len(),
    ensures
        undo_record(s, pos) matches Ok((_, end)) ==> undo_record(s.subrange(0, cut), pos) == if end
            <= cut {
            undo_record(s, pos)
        } else {
            Err(DecodeError::TruncatedInput)
        },
{
    lemma_undo_record_size(s, pos);
    lemma_compact_int_u64_prefix(s, pos, cut);
    if let Ok((_, reserved_at)) = compact_int_u64(s, pos) {
        lemma_compact_int_u64_prefix(s, reserved_at, cut);
        if let Ok((_, amount_at)) = compact_int_u64(s, reserved_at) {
            lemma_compact_int_u64_prefix(s, amount_at, cut);
            if let Ok((_, script_at)) = compact_int_u64(s, amount_at) {
                lemma_stored_script_prefix(s, script_at, cut);
                lemma_stored_script_size(s, script_at);
            }
        }
    }
}

/// A record whose reserved field is complete and encodes anything but zero
/// is rejected for that field, whatever follows it: as nonzero where the
/// integer fits 64 bits, and as too large where it does not.
pub proof fn lemma_reserved_nonzero_rejected(s: Seq<u8>, pos: int)
    requires
        compact_int_u64(s, pos) matches Ok((_, reserved_at)) && compact_int(s, reserved_at)
            matches Some((reserved, _)) && reserved != 0,
    ensures
        ({
            let reserved_at = compact_int_u64(s, pos)->Ok_0.1;
            let reserved = compact_int(s, reserved_at)->Some_0.0;
            undo_record(s, pos) == Err::<(UndoRecord, int), DecodeError>(
                if reserved <= u64::MAX {
                    DecodeError::ReservedFieldNonzero
                } else {
                    DecodeError::CompactIntOverflow
                },
            )
        }),
{
}

/// A record that is accepted has the single byte zero as its reserved
/// field: no longer encoding passes for zero.
pub proof fn lemma_accepted_record_reserved_byte(s: Seq<u8>, pos: int)
    requires
        undo_record(s, pos) is Ok,
    ensures
        compact_int_u64(s, pos) matches Ok((_, reserved_at)) && 0 <= reserved_at < s.len()
            && s[reserved_at] == 0 && compact_int_u64(s, reserved_at) == Ok::<
            (u64, int),
            DecodeError,
        >((0, reserved_at + 1)),
{
    let reserved_at = compact_int_u64(s, pos)->Ok_0.1;
    lemma_compact_int_end(s, pos, 0);
    lemma_compact_int_end(s, reserved_at, 0);
    lemma_encoding_is_unique(s, reserved_at);
    let end = compact_int(s, reserved_at)->Some_0.1;
    assert(compact_int_encoding(0) == seq![0u8]);
    assert(s.subrange(reserved_at, end).len() == 1);
    assert(s.subrange(reserved_at, end)[0] == s[reserved_at]);
}

/// Reading a record hands the template exactly the payload that it takes,
/// and counts lengths in compact sizes nowhere: a record never fails for
/// the length of a payload or for the width of a count.
pub proof fn lemma_undo_record_errors(s: Seq<u8>, pos: int)
    ensures
        undo_record(s, pos) matches Err(e) ==> e == DecodeError::TruncatedInput || e
            == DecodeError::CompactIntOverflow || e == DecodeError::ReservedFieldNonzero || e
            == DecodeError::InvalidPublicKey,
{
}

/// Reads one compressed script: the discriminator, then the payload of a
/// template or the bytes of a raw script. Returns the histogram bucket and
/// the full script.
///
/// A raw script is read only once its announced length is known to fit the
/// unread input. A failed read leaves the cursor where it was.
pub fn decode_script(d: &mut Cursor) -> (r: Result<(usize, Vec<u8>), DecodeError>)
    ensures
        final(d).bytes() == old(d).bytes(),
        final(d).offset() <= final(d).bytes().len(),
        match r {
            Ok((bucket, script)) => {
                &&& stored_script(old(d).bytes(), old(d).offset() as int) == Ok::<
                    (StoredScript, int),
                    DecodeError,
                >((StoredScript { bucket: bucket as int, script: script@ }, final(d).offset() as int))
                &&& bucket <= RAW_BUCKET
            },
            Err(e) => {
                &&& stored_script(old(d).bytes(), old(d).offset() as int) == Err::<
                    (StoredScript, int),
                    DecodeError,
                >(e)
                &&& *final(d) == *old(d)
            },
        },
{
    let start = *d;
    let kind = match decode_compact_int(d) {
        Ok((kind, _)) => kind,
        Err(e) => {
            return Err(e);
        },
    };
    if kind < SPECIAL_SCRIPTS {
        let code = kind as u8;
        let size: usize = if code < 2 {
            HASH_LEN
        } else {
            X_COORDINATE_LEN
        };
        let payload = match d.read_bytes(size) {
            Ok(payload) => payload,
            Err(e) => {
                *d = start;
                return Err(e);
            },
        };
        match decompress_script(code, payload.as_slice()) {
            Ok(script) => Ok((kind as usize, script)),
            Err(e) => {
                *d = start;
                Err(e)
            },
        }
    } else {
        let len = kind - SPECIAL_SCRIPTS;
        if len > d.remaining() as u64 {
            *d = start;
            return Err(DecodeError::TruncatedInput);
        }
        match d.read_bytes(len as usize) {
            Ok(raw) => Ok((RAW_BUCKET, raw)),
            Err(e) => {
                *d = start;
                Err(e)
            },
        }
    }
}

/// Reads one undo record and adds it to `stats`: one more record, one more
/// in the bucket of its script, its amount, and the length of its script.
///
/// Fails with [`DecodeError::TruncatedInput`] where the input ends inside
/// the record, with [`DecodeError::CompactIntOverflow`] where one of its
/// integers does not fit 64 bits, with
/// [`DecodeError::ReservedFieldNonzero`] where the reserved field is not
/// zero, and with [`DecodeError::InvalidPublicKey`] where template 4 or 5
/// comes with an x-coordinate that is on no point of the curve. A record
/// that fails changes neither the totals nor the cursor.
pub fn decode_undo_record(d: &mut Cursor, stats: &mut Stats) -> (r: Result<(), DecodeError>)
    requires
        old(stats)@.can_absorb(old(d).unread()),
    ensures
        final(d).bytes() == old(d).bytes(),
        final(d).offset() <= final(d).bytes().len(),
        match r {
            Ok(()) => {
                &&& undo_record(old(d).bytes(), old(d).offset() as int) matches Ok((record, end))
                &&& final(d).offset() == end
                &&& final(stats)@ == old(stats)@.record(
                    record.bucket,
                    record.amount as nat,
                    record.script.len(),
                )
                &&& final(stats)@.can_absorb(final(d).unread())
            },
            Err(e) => {
                &&& undo_record(old(d).bytes(), old(d).offset() as int) == Err::<
                    (UndoRecord, int),
                    DecodeError,
                >(e)
                &&& *final(d) == *old(d)
                &&& *final(stats) == *old(stats)
            },
        },
{
    let start = *d;
    match decode_compact_int(d) {
        Ok(_) => {},
        Err(e) => {
            return Err(e);
        },
    }
    let reserved = match decode_compact_int(d) {
        Ok((reserved, _)) => reserved,
        Err(e) => {
            *d = start;
            return Err(e);
        },
    };
    if reserved != 0 {
        *d = start;
        return Err(DecodeError::ReservedFieldNonzero);
    }
    let stored_amount = match decode_compact_int(d) {
        Ok((stored_amount, _)) => stored_amount,
        Err(e) => {
            *d = start;
            return Err(e);
        },
    };
    let amount = decompress_amount(stored_amount);
    let (bucket, script) = match decode_script(d) {
        Ok(decoded) => decoded,
        Err(e) => {
            *d = start;
            return Err(e);
        },
    };
    proof {
        lemma_undo_record_size(start.bytes(), start.offset() as int);
        assert(stats@.histogram[bucket as int] + start.unread() <= u64::MAX);
    }
    stats.record(bucket, amount, script.len());
    Ok(())
}

} // verus!
