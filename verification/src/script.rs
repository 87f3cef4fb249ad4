//! The script templates of undo records.
//!
//! Most spent outputs pay to one of a few script shapes, so an undo record
//! stores a one-byte template code and the 20 or 32 bytes that vary. This
//! module rebuilds the full script from the two.

use vstd::prelude::*;
use bitcoin::key::FromSliceError;
use crate::error::DecodeError;
use crate::key::uncompress_public_key;
use crate::key::uncompressed_key;

verus! {

/// Duplicates the top stack item.
pub const OP_DUP: u8 = 0x76;

/// Replaces the top stack item by its RIPEMD-160 of SHA-256 hash.
pub const OP_HASH160: u8 = 0xa9;

/// Succeeds if the two top stack items are equal.
pub const OP_EQUAL: u8 = 0x87;

/// As `OP_EQUAL`, and fails the script at once otherwise.
pub const OP_EQUALVERIFY: u8 = 0x88;

/// Checks a signature against a public key.
pub const OP_CHECKSIG: u8 = 0xac;

/// Script discriminators below this value are template codes; from it on
/// they give the length of a raw script, plus this value.
pub const SPECIAL_SCRIPTS: u64 = 6;

/// The length of a hash-160, the payload of the two hash templates.
pub const HASH_LEN: usize = 20;

/// The length of an x-coordinate, the payload of the four key templates.
pub const X_COORDINATE_LEN: usize = 32;

/// The instruction that pushes `data` onto the stack, for data short enough
/// that its length is the opcode.
pub open spec fn push_data(data: Seq<u8>) -> Seq<u8>
    recommends
        data.len() < 76,
{
    seq![data.len() as u8] + data
}

/// `DUP HASH160 <hash> EQUALVERIFY CHECKSIG`.
pub open spec fn p2pkh_script(hash: Seq<u8>) -> Seq<u8> {
    seq![OP_DUP, OP_HASH160] + push_data(hash) + seq![OP_EQUALVERIFY, OP_CHECKSIG]
}

/// `HASH160 <hash> EQUAL`.
pub open spec fn p2sh_script(hash: Seq<u8>) -> Seq<u8> {
    seq![OP_HASH160] + push_data(hash) + seq![OP_EQUAL]
}

/// `<key> CHECKSIG`.
pub open spec fn p2pk_script(key: Seq<u8>) -> Seq<u8> {
    push_data(key) + seq![OP_CHECKSIG]
}

/// Whether `script` has the shape of a pay-to-pubkey-hash output.
pub open spec fn is_p2pkh(script: Seq<u8>) -> bool {
    &&& script.len() == 25
    &&& script[0] == OP_DUP
    &&& script[1] == OP_HASH160
    &&& script[2] == 20
    &&& script[23] == OP_EQUALVERIFY
    &&& script[24] == OP_CHECKSIG
}

/// Whether `script` has the shape of a pay-to-script-hash output.
pub open spec fn is_p2sh(script: Seq<u8>) -> bool {
    &&& script.len() == 23
    &&& script[0] == OP_HASH160
    &&& script[1] == 20
    &&& script[22] == OP_EQUAL
}

/// Whether `script` has the shape of a pay-to-pubkey output, with a key of
/// 33 or of 65 bytes. The key need not be a point of the curve.
pub open spec fn is_p2pk(script: Seq<u8>) -> bool {
    ||| script.len() == 35 && script[0] == 33 && script[34] == OP_CHECKSIG
    ||| script.len() == 67 && script[0] == 65 && script[66] == OP_CHECKSIG
}

/// Whether `script` has exactly one of the three template shapes.
pub open spec fn has_one_template_shape(script: Seq<u8>) -> bool {
    ||| is_p2pkh(script) && !is_p2sh(script) && !is_p2pk(script)
    ||| !is_p2pkh(script) && is_p2sh(script) && !is_p2pk(script)
    ||| !is_p2pkh(script) && !is_p2sh(script) && is_p2pk(script)
}

/// The number of payload bytes that template `code` takes.
pub open spec fn template_payload_len(code: u8) -> nat {
    if code < 2 {
        HASH_LEN as nat
    } else {
        X_COORDINATE_LEN as nat
    }
}

/// The pay-to-pubkey script for what restoring an uncompressed key gave.
pub open spec fn uncompressed_p2pk_script(full: Option<Seq<u8>>) -> Result<Seq<u8>, DecodeError> {
    match full {
        Some(key) => if key.len() == 65 {
            Ok(p2pk_script(key))
        } else {
            Err(DecodeError::InvalidPublicKey)
        },
        None => Err(DecodeError::InvalidPublicKey),
    }
}

/// The script that template `code` stands for with `payload` filled in.
///
/// Codes 0 and 1 take a hash; codes 2 and 3 take the x-coordinate of a key
/// and are the key's own parity byte; codes 4 and 5 take an x-coordinate
/// too, with the parity byte `code - 2`, and stand for the key in its
/// uncompressed form.
pub open spec fn decompressed_script(code: u8, payload: Seq<u8>) -> Result<Seq<u8>, DecodeError>
    recommends
        code < SPECIAL_SCRIPTS,
{
    if payload.len() != template_payload_len(code) {
        Err(DecodeError::InvalidPayloadLength)
    } else if code == 0 {
        Ok(p2pkh_script(payload))
    } else if code == 1 {
        Ok(p2sh_script(payload))
    } else if code <= 3 {
        Ok(p2pk_script(seq![code] + payload))
    } else {
        uncompressed_p2pk_script(uncompressed_key(seq![(code - 2) as u8] + payload))
    }
}

/// Every script that a template stands for has exactly one of the three
/// template shapes, the one that its code names: pay-to-pubkey-hash for code
/// 0, pay-to-script-hash for code 1, pay-to-pubkey for the rest. The hash
/// templates hold their payload unchanged, and the compressed-key templates
/// hold the code followed by the payload as their key.
pub proof fn lemma_template_shapes(code: u8, payload: Seq<u8>)
    requires
        code < SPECIAL_SCRIPTS,
    ensures
        decompressed_script(code, payload) matches Ok(script) ==> {
            &&& has_one_template_shape(script)
            &&& code == 0 ==> is_p2pkh(script) && script.subrange(3, 23) == payload
            &&& code == 1 ==> is_p2sh(script) && script.subrange(2, 22) == payload
            &&& code >= 2 ==> is_p2pk(script)
            &&& 2 <= code <= 3 ==> script.len() == 35 && script[1] == code && script.subrange(2, 34)
                == payload
            &&& 4 <= code <= 5 ==> script.len() == 67
        },
{
    if let Ok(script) = decompressed_script(code, payload) {
        if code == 0 {
            assert(script.subrange(3, 23) =~= payload);
        } else if code == 1 {
            assert(script.subrange(2, 22) =~= payload);
        } else if code <= 3 {
            assert(script.subrange(2, 34) =~= payload);
        }
    }
}

/// Appends `data` to `script`.
fn append(script: &mut Vec<u8>, data: &[u8])
    ensures
        final(script)@ == old(script)@ + data@,
{
    let mut i: usize = 0;
    while i < data.len()
        invariant
            i <= data.len(),
            script@ == old(script)@ + data@.subrange(0, i as int),
        decreases data.len() - i,
    {
        script.push(data[i]);
        i = i + 1;
    }
    assert(data@.subrange(0, data@.len() as int) == data@);
}

/// Appends the instruction that pushes `data`.
fn push_slice(script: &mut Vec<u8>, data: &[u8])
    requires
        data@.len() < 76,
    ensures
        final(script)@ == old(script)@ + push_data(data@),
{
    script.push(data.len() as u8);
    append(script, data);
}

/// Builds `DUP HASH160 <hash> EQUALVERIFY CHECKSIG`.
fn pay_to_pubkey_hash(hash: &[u8]) -> (script: Vec<u8>)
    requires
        hash@.len() < 76,
    ensures
        script@ == p2pkh_script(hash@),
{
    let mut script: Vec<u8> = Vec::new();
    script.push(OP_DUP);
    script.push(OP_HASH160);
    push_slice(&mut script, hash);
    script.push(OP_EQUALVERIFY);
    script.push(OP_CHECKSIG);
    script
}

/// Builds `HASH160 <hash> EQUAL`.
fn pay_to_script_hash(hash: &[u8]) -> (script: Vec<u8>)
    requires
        hash@.len() < 76,
    ensures
        script@ == p2sh_script(hash@),
{
    let mut script: Vec<u8> = Vec::new();
    script.push(OP_HASH160);
    push_slice(&mut script, hash);
    script.push(OP_EQUAL);
    script
}

/// Builds `<key> CHECKSIG`.
fn pay_to_pubkey(key: &[u8]) -> (script: Vec<u8>)
    requires
        key@.len() < 76,
    ensures
        script@ == p2pk_script(key@),
{
    let mut script: Vec<u8> = Vec::new();
    push_slice(&mut script, key);
    script.push(OP_CHECKSIG);
    script
}

/// Turns what restoring an uncompressed key gave into its pay-to-pubkey
/// script: the script for a key of 65 bytes, and
/// [`DecodeError::InvalidPublicKey`] for a rejected key or one of another
/// length.
pub fn uncompressed_key_script(restored: Result<Vec<u8>, FromSliceError>) -> (r: Result<
    Vec<u8>,
    DecodeError,
>)
    ensures
        match restored {
            Ok(full) => same_script(r, uncompressed_p2pk_script(Some(full@))),
            Err(_) => same_script(r, uncompressed_p2pk_script(None)),
        },
{
    match restored {
        Ok(full) => {
            if full.len() == 65 {
                Ok(pay_to_pubkey(full.as_slice()))
            } else {
                Err(DecodeError::InvalidPublicKey)
            }
        },
        Err(_) => Err(DecodeError::InvalidPublicKey),
    }
}

/// Whether `r` is the executable form of `expected`: the same script bytes,
/// or the same error.
pub open spec fn same_script(r: Result<Vec<u8>, DecodeError>, expected: Result<Seq<u8>, DecodeError>) -> bool {
    match (r, expected) {
        (Ok(script), Ok(bytes)) => script@ == bytes,
        (Err(e), Err(f)) => e == f,
        _ => false,
    }
}

/// Rebuilds the script that template `template_code` stands for with
/// `payload` filled in.
///
/// Fails with [`DecodeError::InvalidPayloadLength`] unless the payload has
/// the 20 bytes (codes 0 and 1) or 32 bytes (codes 2 to 5) that the template
/// takes, and with [`DecodeError::InvalidPublicKey`] where code 4 or 5 comes
/// with an x-coordinate that no point of the curve has. Every script that is
/// returned has exactly one of the three template shapes, and the key of a
/// script for code 4 or 5 is the byte 4, the payload as its x-coordinate,
/// and the 32 bytes of the y-coordinate.
pub fn decompress_script(template_code: u8, payload: &[u8]) -> (r: Result<Vec<u8>, DecodeError>)
    requires
        template_code < SPECIAL_SCRIPTS,
    ensures
        same_script(r, decompressed_script(template_code, payload@)),
        r matches Ok(script) ==> has_one_template_shape(script@),
        r matches Ok(script) ==> (template_code >= 4 ==> script@.len() == 67 && script@[1] == 4
            && script@.subrange(2, 34) == payload@),
{
    proof {
        lemma_template_shapes(template_code, payload@);
    }
    let expected: usize = if template_code < 2 {
        HASH_LEN
    } else {
        X_COORDINATE_LEN
    };
    if payload.len() != expected {
        return Err(DecodeError::InvalidPayloadLength);
    }
    if template_code == 0 {
        Ok(pay_to_pubkey_hash(payload))
    } else if template_code == 1 {
        Ok(pay_to_script_hash(payload))
    } else {
        let prefix: u8 = if template_code <= 3 {
            template_code
        } else {
            template_code - 2
        };
        let mut key: Vec<u8> = Vec::new();
        key.push(prefix);
        append(&mut key, payload);
        assert(key@ == seq![prefix] + payload@);
        if template_code <= 3 {
            Ok(pay_to_pubkey(key.as_slice()))
        } else {
            let restored = uncompress_public_key(key.as_slice());
            proof {
                if restored is Ok {
                    let full = restored->Ok_0@;
                    assert(p2pk_script(full).subrange(2, 34) == full.subrange(1, 33));
                    assert(key@.subrange(1, 33) == payload@);
                }
            }
            uncompressed_key_script(restored)
        }
    }
}

} // verus!
