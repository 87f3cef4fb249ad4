use bitcoin::consensus::encode::serialize;
use bitcoin::Amount;
use bitcoin::ScriptBuf;
use bitcoin::TxOut;
use blockundo::block::decode_block_undo;
use blockundo::block::decode_buffer;
use blockundo::block::decode_spent_outputs;
use blockundo::block::RecordFormat;
use blockundo::cursor::Cursor;
use blockundo::error::DecodeError;
use blockundo::spent::decode_spent_output;
use blockundo::stats::Stats;

const HASH: [u8; 20] = [
    0x62, 0xe9, 0x07, 0xb1, 0x5c, 0xbf, 0x27, 0xd5, 0x42, 0x53, 0x99, 0xeb, 0xf6, 0xf0, 0xfb, 0x50,
    0xeb, 0xb8, 0x8f, 0x18,
];

fn undo_record(amount: &[u8], script: &[u8]) -> Vec<u8> {
    let mut bytes = vec![0x00, 0x00];
    bytes.extend_from_slice(amount);
    bytes.extend_from_slice(script);
    bytes
}

fn p2pkh_record() -> Vec<u8> {
    let mut script = vec![0x00];
    script.extend_from_slice(&HASH);
    undo_record(&[0x32], &script)
}

fn raw_record() -> Vec<u8> {
    undo_record(&[0x09], &[8, 0x6a, 0x00])
}

fn buffer(transactions: &[Vec<Vec<u8>>]) -> Vec<u8> {
    let mut bytes = vec![transactions.len() as u8];
    for inputs in transactions {
        bytes.push(inputs.len() as u8);
        for input in inputs {
            bytes.extend_from_slice(input);
        }
    }
    bytes
}

fn plain_output(sats: u64, script: &[u8]) -> Vec<u8> {
    serialize(&TxOut { value: Amount::from_sat(sats), script_pubkey: ScriptBuf::from(script.to_vec()) })
}

#[test]
fn one_transaction_with_one_input() {
    let mut bytes = vec![0x01, 0x01, 0x00, 0x00, 0x32, 0x00];
    bytes.extend_from_slice(&HASH);
    let mut stats = Stats::new();
    assert!(stats.can_absorb(bytes.len()));
    assert_eq!(decode_block_undo(&bytes, &mut stats), Ok(26));
    assert_eq!(bytes.len(), 26);
    assert_eq!(
        stats,
        Stats { count: 1, value: 5_000_000_000, scripts: 25, histogram: [1, 0, 0, 0, 0, 0, 0] }
    );
}

#[test]
fn empty_block_has_no_records() {
    let mut stats = Stats::new();
    assert_eq!(decode_block_undo(&[0x00], &mut stats), Ok(1));
    assert_eq!(stats, Stats::new());
    assert_eq!(decode_spent_outputs(&[0x00], &mut stats), Ok(1));
    assert_eq!(stats, Stats::new());
}

#[test]
fn transactions_without_inputs_have_no_records() {
    let mut stats = Stats::new();
    assert_eq!(decode_block_undo(&[0x03, 0x00, 0x00, 0x00], &mut stats), Ok(4));
    assert_eq!(stats, Stats::new());
}

#[test]
fn several_transactions_with_several_inputs() {
    let bytes = buffer(&[
        vec![p2pkh_record(), raw_record()],
        vec![],
        vec![raw_record(), raw_record(), p2pkh_record()],
    ]);
    let mut stats = Stats::new();
    assert!(stats.can_absorb(bytes.len()));
    assert_eq!(decode_block_undo(&bytes, &mut stats), Ok(bytes.len()));
    assert_eq!(
        stats,
        Stats {
            count: 5,
            histogram: [2, 0, 0, 0, 0, 0, 3],
            value: 2 * 5_000_000_000 + 3 * 100_000_000,
            scripts: 2 * 25 + 3 * 2,
        }
    );
}

#[test]
fn totals_run_on_over_several_buffers() {
    let first = buffer(&[vec![p2pkh_record()]]);
    let second = buffer(&[vec![raw_record()], vec![p2pkh_record()]]);
    let mut stats = Stats::new();
    assert_eq!(decode_block_undo(&first, &mut stats), Ok(first.len()));
    assert!(stats.can_absorb(second.len()));
    assert_eq!(decode_block_undo(&second, &mut stats), Ok(second.len()));
    assert_eq!(
        stats,
        Stats { count: 3, histogram: [2, 0, 0, 0, 0, 0, 1], value: 10_100_000_000, scripts: 52 }
    );
}

#[test]
fn bytes_after_the_last_record_are_left_unread() {
    let mut bytes = buffer(&[vec![p2pkh_record()]]);
    let end = bytes.len();
    bytes.extend_from_slice(&[0xde, 0xad]);
    let mut stats = Stats::new();
    assert_eq!(decode_block_undo(&bytes, &mut stats), Ok(end));
    let mut exact = Stats::new();
    assert_eq!(decode_block_undo(&bytes[..end], &mut exact), Ok(end));
    assert_eq!(stats, exact);
}

#[test]
fn buffer_cut_inside_the_payload_is_truncated() {
    let bytes = buffer(&[vec![p2pkh_record()]]);
    let mut stats = Stats::new();
    assert_eq!(decode_block_undo(&bytes[..15], &mut stats), Err(DecodeError::TruncatedInput));
    assert_eq!(stats, Stats::new());
}

#[test]
fn every_cut_of_a_buffer_is_truncated() {
    let bytes = buffer(&[vec![p2pkh_record(), raw_record()], vec![raw_record()]]);
    for cut in 0..bytes.len() {
        let mut stats = Stats::new();
        assert_eq!(
            decode_block_undo(&bytes[..cut], &mut stats),
            Err(DecodeError::TruncatedInput),
            "cut at {}",
            cut
        );
    }
}

#[test]
fn records_before_a_failure_stay_counted() {
    let mut bad = p2pkh_record();
    bad[1] = 0x05;
    let bytes = buffer(&[vec![p2pkh_record(), raw_record()], vec![bad, raw_record()]]);
    let mut stats = Stats::new();
    assert_eq!(decode_block_undo(&bytes, &mut stats), Err(DecodeError::ReservedFieldNonzero));
    assert_eq!(
        stats,
        Stats { count: 2, histogram: [1, 0, 0, 0, 0, 0, 1], value: 5_100_000_000, scripts: 27 }
    );
}

#[test]
fn integer_beyond_64_bits_fails_the_buffer() {
    let mut bad = vec![0x00];
    bad.extend_from_slice(&[0x80, 0xfe, 0xfe, 0xfe, 0xfe, 0xfe, 0xfe, 0xfe, 0xff, 0x00]);
    bad.extend_from_slice(&[0x32, 0x00]);
    bad.extend_from_slice(&HASH);
    let bytes = buffer(&[vec![raw_record(), bad]]);
    let mut stats = Stats::new();
    assert_eq!(decode_block_undo(&bytes, &mut stats), Err(DecodeError::CompactIntOverflow));
    assert_eq!(
        stats,
        Stats { count: 1, histogram: [0, 0, 0, 0, 0, 0, 1], value: 100_000_000, scripts: 2 }
    );
}

#[test]
fn more_transactions_announced_than_present_is_truncated() {
    let mut bytes = buffer(&[vec![raw_record()]]);
    bytes[0] = 0x02;
    let mut stats = Stats::new();
    assert_eq!(decode_block_undo(&bytes, &mut stats), Err(DecodeError::TruncatedInput));
    assert_eq!(stats.count, 1);
    // A count of 2^64 - 1 transactions over an empty rest.
    let huge = [0xff, 0xff, 0xff, 0xff, 0xff, 0xff, 0xff, 0xff, 0xff];
    let mut stats = Stats::new();
    assert_eq!(decode_block_undo(&huge, &mut stats), Err(DecodeError::TruncatedInput));
    assert_eq!(stats, Stats::new());
}

#[test]
fn count_written_too_wide_is_rejected() {
    let mut stats = Stats::new();
    assert_eq!(
        decode_block_undo(&[0xfd, 0x01, 0x00, 0x00], &mut stats),
        Err(DecodeError::NonMinimalCompactSize)
    );
    assert_eq!(
        decode_block_undo(&[0x01, 0xfe, 0x01, 0x00, 0x00, 0x00], &mut stats),
        Err(DecodeError::NonMinimalCompactSize)
    );
    assert_eq!(stats, Stats::new());
}

#[test]
fn counts_are_compact_sizes_and_not_base_128() {
    // 0x80 is the count 128 as a compact size; as a base-128 integer it
    // would take the next byte with it.
    let mut stats = Stats::new();
    assert_eq!(decode_block_undo(&[0x80, 0x00], &mut stats), Err(DecodeError::TruncatedInput));
    let mut bytes = vec![0x01, 0xfd, 0x00, 0x01];
    for _ in 0..256 {
        bytes.extend_from_slice(&raw_record());
    }
    let mut stats = Stats::new();
    assert_eq!(decode_block_undo(&bytes, &mut stats), Ok(bytes.len()));
    assert_eq!(stats.count, 256);
    assert_eq!(stats.histogram, [0, 0, 0, 0, 0, 0, 256]);
    assert_eq!(stats.scripts, 512);
    assert_eq!(stats.value, 25_600_000_000);
}

#[test]
fn plain_output_is_amount_then_script() {
    let mut bytes = vec![0x00, 0xf2, 0x05, 0x2a, 0x01, 0x00, 0x00, 0x00, 0x03, 0x51, 0x52, 0x53];
    bytes.push(0xff);
    let mut d = Cursor::new(&bytes);
    let mut stats = Stats::new();
    assert!(stats.can_absorb(d.remaining()));
    assert_eq!(decode_spent_output(&mut d, &mut stats), Ok(()));
    assert_eq!(d.position(), 12);
    assert_eq!(stats, Stats { count: 1, histogram: [0; 7], value: 5_000_000_000, scripts: 3 });
}

#[test]
fn plain_output_agrees_with_the_consensus_encoding() {
    let script: Vec<u8> = (0..300u32).map(|i| i as u8).collect();
    let bytes = plain_output(u64::MAX, &script);
    assert_eq!(bytes.len(), 8 + 3 + 300);
    let mut d = Cursor::new(&bytes);
    let mut stats = Stats::new();
    assert_eq!(decode_spent_output(&mut d, &mut stats), Ok(()));
    assert_eq!(d.position(), bytes.len());
    assert_eq!(stats, Stats { count: 1, histogram: [0; 7], value: u64::MAX as u128, scripts: 300 });
}

#[test]
fn plain_output_cut_short_is_truncated_and_changes_nothing() {
    let bytes = plain_output(1234, &[0x51, 0x52, 0x53, 0x54]);
    for cut in 0..bytes.len() {
        let mut d = Cursor::new(&bytes[..cut]);
        let mut stats = Stats::new();
        assert_eq!(decode_spent_output(&mut d, &mut stats), Err(DecodeError::TruncatedInput));
        assert_eq!(d.position(), 0);
        assert_eq!(stats, Stats::new());
    }
}

#[test]
fn plain_output_with_a_length_written_too_wide_is_rejected() {
    let bytes = [0, 0, 0, 0, 0, 0, 0, 0, 0xfd, 0x02, 0x00, 0x51, 0x52];
    let mut d = Cursor::new(&bytes);
    let mut stats = Stats::new();
    assert_eq!(decode_spent_output(&mut d, &mut stats), Err(DecodeError::NonMinimalCompactSize));
    assert_eq!(d.position(), 0);
    assert_eq!(stats, Stats::new());
}

#[test]
fn plain_buffer_of_several_transactions() {
    let bytes = buffer(&[
        vec![plain_output(5_000_000_000, &[0x51; 25]), plain_output(1, &[])],
        vec![plain_output(u64::MAX, &[0x6a; 80])],
    ]);
    let mut stats = Stats::new();
    assert!(stats.can_absorb(bytes.len()));
    assert_eq!(decode_spent_outputs(&bytes, &mut stats), Ok(bytes.len()));
    assert_eq!(
        stats,
        Stats {
            count: 3,
            histogram: [0; 7],
            value: 5_000_000_001 + u64::MAX as u128,
            scripts: 105,
        }
    );
}

#[test]
fn every_cut_of_a_plain_buffer_is_truncated() {
    let bytes = buffer(&[vec![plain_output(7, &[0x51; 3])], vec![plain_output(8, &[0x52; 2])]]);
    for cut in 0..bytes.len() {
        let mut stats = Stats::new();
        assert_eq!(
            decode_spent_outputs(&bytes[..cut], &mut stats),
            Err(DecodeError::TruncatedInput)
        );
    }
}

#[test]
fn the_format_decides_how_records_are_read() {
    let undo = buffer(&[vec![p2pkh_record()]]);
    let mut by_name = Stats::new();
    let mut by_format = Stats::new();
    assert_eq!(
        decode_block_undo(&undo, &mut by_name),
        decode_buffer(RecordFormat::Undo, &undo, &mut by_format)
    );
    assert_eq!(by_name, by_format);
    let plain = buffer(&[vec![plain_output(9, &[0x51])]]);
    let mut by_name = Stats::new();
    let mut by_format = Stats::new();
    assert_eq!(
        decode_spent_outputs(&plain, &mut by_name),
        decode_buffer(RecordFormat::Plain, &plain, &mut by_format)
    );
    assert_eq!(by_name, by_format);
    assert_eq!(by_name, Stats { count: 1, histogram: [0; 7], value: 9, scripts: 1 });
}
