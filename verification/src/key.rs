//! Public keys on the secp256k1 curve, as far as script templates need them.
//!
//! Restoring the full form of a key from its x-coordinate takes a square
//! root in the curve's field. The `bitcoin` crate does that; this module
//! states what is relied on and proves nothing of it.

use vstd::prelude::*;

verus! {

/// The error of `bitcoin::key::PublicKey::from_slice`, carried through
/// unread.
#[verifier::external_type_specification]
#[verifier::external_body]
pub struct ExFromSliceError(bitcoin::key::FromSliceError);

/// The uncompressed serialization of the public key that `key` encodes, or
/// `None` where `key` encodes no point of the curve. It stands for what
/// `bitcoin::key::PublicKey::from_slice` computes from the bytes, written
/// out again by `bitcoin::key::PublicKey::to_bytes` with the key marked as
/// uncompressed: a function of the bytes alone.
pub uninterp spec fn uncompressed_key(key: Seq<u8>) -> Option<Seq<u8>>;

/// Calls `bitcoin::key::PublicKey::from_slice` on `key` and, where that
/// accepts the bytes, `bitcoin::key::PublicKey::to_bytes` on the key marked
/// as uncompressed.
///
/// Trusted: the outcome is [`uncompressed_key`] of the bytes; only keys of
/// 33 or 65 bytes are accepted; and the serialized uncompressed key is 65
/// bytes long, begins with the byte 4 and goes on with the 32 bytes of the
/// x-coordinate as `key` holds them after its first byte.
#[verifier::external_body]
pub(crate) fn uncompress_public_key(key: &[u8]) -> (r: Result<
    Vec<u8>,
    bitcoin::key::FromSliceError,
>)
    ensures
        match r {
            Ok(full) => {
                &&& uncompressed_key(key@) == Some(full@)
                &&& key@.len() == 33 || key@.len() == 65
                &&& full@.len() == 65
                &&& full@[0] == 4
                &&& full@.subrange(1, 33) == key@.subrange(1, 33)
            },
            Err(_) => uncompressed_key(key@).is_none(),
        },
{
    let mut parsed = bitcoin::key::PublicKey::from_slice(key)?;
    parsed.compressed = false;
    Ok(parsed.to_bytes())
}

} // verus!
