use bitcoin::blockdata::opcodes::all::OP_CHECKSIG;
use bitcoin::blockdata::opcodes::all::OP_DUP;
use bitcoin::blockdata::opcodes::all::OP_EQUAL;
use bitcoin::blockdata::opcodes::all::OP_EQUALVERIFY;
use bitcoin::blockdata::opcodes::all::OP_HASH160;
use bitcoin::blockdata::script::Builder;
use bitcoin::key::PublicKey;
use bitcoin::script::PushBytesBuf;
use bitcoin::ScriptBuf;
use blockundo::error::DecodeError;
use blockundo::script::decompress_script;
use blockundo::script::uncompressed_key_script;

/// The x-coordinate of the generator of secp256k1.
const GENERATOR_X: [u8; 32] = [
    0x79, 0xbe, 0x66, 0x7e, 0xf9, 0xdc, 0xbb, 0xac, 0x55, 0xa0, 0x62, 0x95, 0xce, 0x87, 0x0b, 0x07,
    0x02, 0x9b, 0xfc, 0xdb, 0x2d, 0xce, 0x28, 0xd9, 0x59, 0xf2, 0x81, 0x5b, 0x16, 0xf8, 0x17, 0x98,
];

/// The y-coordinate of the generator: the even one of the two for its x.
const GENERATOR_Y: [u8; 32] = [
    0x48, 0x3a, 0xda, 0x77, 0x26, 0xa3, 0xc4, 0x65, 0x5d, 0xa4, 0xfb, 0xfc, 0x0e, 0x11, 0x08, 0xa8,
    0xfd, 0x17, 0xb4, 0x48, 0xa6, 0x85, 0x54, 0x19, 0x9c, 0x47, 0xd0, 0x8f, 0xfb, 0x10, 0xd4, 0xb8,
];

/// The odd y-coordinate for the generator's x: the field's prime less the
/// even one.
const NEGATED_Y: [u8; 32] = [
    0xb7, 0xc5, 0x25, 0x88, 0xd9, 0x5c, 0x3b, 0x9a, 0xa2, 0x5b, 0x04, 0x03, 0xf1, 0xee, 0xf7, 0x57,
    0x02, 0xe8, 0x4b, 0xb7, 0x59, 0x7a, 0xab, 0xe6, 0x63, 0xb8, 0x2f, 0x6f, 0x04, 0xef, 0x27, 0x77,
];

fn concat(parts: &[&[u8]]) -> Vec<u8> {
    let mut out = Vec::new();
    for part in parts {
        out.extend_from_slice(part);
    }
    out
}

fn push(bytes: &[u8]) -> PushBytesBuf {
    PushBytesBuf::try_from(bytes.to_vec()).unwrap()
}

#[test]
fn code_0_builds_pay_to_pubkey_hash() {
    let script = decompress_script(0, &[0u8; 20]).unwrap();
    assert_eq!(script.len(), 25);
    let expected = concat(&[&[0x76, 0xa9, 0x14], &[0u8; 20], &[0x88, 0xac]]);
    assert_eq!(script, expected);
    let parsed = ScriptBuf::from(script);
    assert!(parsed.is_p2pkh());
    assert!(!parsed.is_p2sh());
    assert!(!parsed.is_p2pk());
}

#[test]
fn code_1_builds_pay_to_script_hash() {
    let script = decompress_script(1, &[0u8; 20]).unwrap();
    assert_eq!(script.len(), 23);
    let expected = concat(&[&[0xa9, 0x14], &[0u8; 20], &[0x87]]);
    assert_eq!(script, expected);
    let parsed = ScriptBuf::from(script);
    assert!(parsed.is_p2sh());
    assert!(!parsed.is_p2pkh());
    assert!(!parsed.is_p2pk());
}

#[test]
fn hash_templates_keep_the_hash() {
    let hash: Vec<u8> = (1..=20).collect();
    let p2pkh = decompress_script(0, &hash).unwrap();
    assert_eq!(&p2pkh[3..23], &hash[..]);
    let p2sh = decompress_script(1, &hash).unwrap();
    assert_eq!(&p2sh[2..22], &hash[..]);
}

#[test]
fn codes_2_and_3_push_the_compressed_key() {
    for code in [2u8, 3u8] {
        let script = decompress_script(code, &GENERATOR_X).unwrap();
        assert_eq!(script.len(), 35);
        assert_eq!(script[0], 33);
        assert_eq!(script[1], code);
        assert_eq!(&script[2..34], &GENERATOR_X[..]);
        assert_eq!(script[34], 0xac);
        let parsed = ScriptBuf::from(script);
        assert!(parsed.is_p2pk());
        assert!(!parsed.is_p2pkh());
        assert!(!parsed.is_p2sh());
        let key = parsed.p2pk_public_key().unwrap();
        assert!(key.compressed);
    }
}

#[test]
fn codes_2_and_3_do_not_look_at_the_curve() {
    // No point of the curve has the x-coordinate zero.
    let script = decompress_script(2, &[0u8; 32]).unwrap();
    assert_eq!(script.len(), 35);
    let parsed = ScriptBuf::from(script);
    assert!(parsed.is_p2pk());
    assert!(parsed.p2pk_public_key().is_none());
}

#[test]
fn code_4_restores_the_even_y() {
    let script = decompress_script(4, &GENERATOR_X).unwrap();
    let expected = concat(&[&[65, 0x04], &GENERATOR_X, &GENERATOR_Y, &[0xac]]);
    assert_eq!(script, expected);
    assert_eq!(script.len(), 67);
    let parsed = ScriptBuf::from(script);
    assert!(parsed.is_p2pk());
    assert!(!parsed.is_p2pkh());
    assert!(!parsed.is_p2sh());
    assert!(!parsed.p2pk_public_key().unwrap().compressed);
}

#[test]
fn code_5_restores_the_odd_y() {
    let script = decompress_script(5, &GENERATOR_X).unwrap();
    let expected = concat(&[&[65, 0x04], &GENERATOR_X, &NEGATED_Y, &[0xac]]);
    assert_eq!(script, expected);
    assert!(ScriptBuf::from(script).is_p2pk());
}

#[test]
fn codes_4_and_5_reject_an_x_off_the_curve() {
    assert_eq!(decompress_script(4, &[0u8; 32]), Err(DecodeError::InvalidPublicKey));
    assert_eq!(decompress_script(5, &[0u8; 32]), Err(DecodeError::InvalidPublicKey));
    let mut five = [0u8; 32];
    five[31] = 5;
    assert_eq!(decompress_script(4, &five), Err(DecodeError::InvalidPublicKey));
}

#[test]
fn wrong_payload_length_is_rejected() {
    assert_eq!(decompress_script(0, &[0u8; 19]), Err(DecodeError::InvalidPayloadLength));
    assert_eq!(decompress_script(0, &[0u8; 21]), Err(DecodeError::InvalidPayloadLength));
    assert_eq!(decompress_script(1, &[0u8; 32]), Err(DecodeError::InvalidPayloadLength));
    assert_eq!(decompress_script(1, &[]), Err(DecodeError::InvalidPayloadLength));
    for code in 2u8..=5 {
        assert_eq!(decompress_script(code, &[0u8; 20]), Err(DecodeError::InvalidPayloadLength));
        assert_eq!(decompress_script(code, &GENERATOR_X[..31]), Err(DecodeError::InvalidPayloadLength));
        assert_eq!(decompress_script(code, &[0u8; 33]), Err(DecodeError::InvalidPayloadLength));
    }
}

#[test]
fn payload_length_is_judged_before_the_key() {
    assert_eq!(decompress_script(4, &[0u8; 31]), Err(DecodeError::InvalidPayloadLength));
}

#[test]
fn scripts_match_the_script_builder() {
    let hash: Vec<u8> = (100..120).collect();
    let p2pkh = Builder::new()
        .push_opcode(OP_DUP)
        .push_opcode(OP_HASH160)
        .push_slice(push(&hash))
        .push_opcode(OP_EQUALVERIFY)
        .push_opcode(OP_CHECKSIG)
        .into_bytes();
    assert_eq!(decompress_script(0, &hash).unwrap(), p2pkh);
    let p2sh = Builder::new()
        .push_opcode(OP_HASH160)
        .push_slice(push(&hash))
        .push_opcode(OP_EQUAL)
        .into_bytes();
    assert_eq!(decompress_script(1, &hash).unwrap(), p2sh);
    for code in 2u8..=5 {
        let compressed = concat(&[&[2 + code % 2], &GENERATOR_X]);
        let mut key = PublicKey::from_slice(&compressed).unwrap();
        key.compressed = code < 4;
        let p2pk = Builder::new().push_key(&key).push_opcode(OP_CHECKSIG).into_bytes();
        assert_eq!(decompress_script(code, &GENERATOR_X).unwrap(), p2pk, "code {}", code);
    }
}

#[test]
fn restored_key_becomes_pay_to_pubkey() {
    let full = concat(&[&[0x04], &GENERATOR_X, &GENERATOR_Y]);
    let script = uncompressed_key_script(Ok(full.clone())).unwrap();
    assert_eq!(script, concat(&[&[65], &full, &[0xac]]));
}

#[test]
fn rejected_key_becomes_invalid_public_key() {
    let rejected = PublicKey::from_slice(&[0u8; 33]).unwrap_err();
    assert_eq!(uncompressed_key_script(Err(rejected)), Err(DecodeError::InvalidPublicKey));
    let too_short = PublicKey::from_slice(&[2u8; 3]).unwrap_err();
    assert_eq!(uncompressed_key_script(Err(too_short)), Err(DecodeError::InvalidPublicKey));
}

#[test]
fn key_of_another_length_becomes_invalid_public_key() {
    let compressed = concat(&[&[0x02], &GENERATOR_X]);
    assert_eq!(uncompressed_key_script(Ok(compressed)), Err(DecodeError::InvalidPublicKey));
    assert_eq!(uncompressed_key_script(Ok(Vec::new())), Err(DecodeError::InvalidPublicKey));
    assert_eq!(uncompressed_key_script(Ok(vec![4u8; 66])), Err(DecodeError::InvalidPublicKey));
}
