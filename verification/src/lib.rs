//! Decoder for the compact undo records that a Bitcoin node keeps for every
//! spent transaction output: a compressed amount, a compressed output script
//! and a base-128 integer encoding of their own, together with the plain
//! spent-output format that carries the same data uncompressed.
//!
//! Every decoder works on an in-memory byte buffer, never panics, and states
//! in its contract which bytes it accepts and what it returns for them.

pub mod error;
pub mod cursor;
pub mod compact_int;
pub mod compact_size;
pub mod amount;
pub mod key;
pub mod script;
pub mod stats;
pub mod undo;
pub mod spent;
pub mod block;
