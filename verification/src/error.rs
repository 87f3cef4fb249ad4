//! The ways in which decoding a buffer can fail.

use vstd::prelude::*;

verus! {

/// Why a decoder gave up on its input. Every failure is final for the
/// buffer at hand: the same bytes fail the same way again.
#[derive(Debug, Clone, Copy, PartialEq, Eq, Structural)]
pub enum DecodeError {
    /// The input ended before the field being read was complete.
    TruncatedInput,
    /// The reserved field of an undo record did not decode to zero.
    ReservedFieldNonzero,
    /// The payload handed to a script template has the wrong size.
    InvalidPayloadLength,
    /// The bytes of a public key do not name a point on the curve.
    InvalidPublicKey,
    /// A compact-size count was written with more bytes than its value needs.
    NonMinimalCompactSize,
    /// A base-128 integer stands for a value that does not fit 64 bits.
    CompactIntOverflow,
}

} // verus!
