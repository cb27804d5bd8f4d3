//! Consensus wire-protocol codec for a bitcoin-style peer-to-peer network.
//!
//! Every on-the-wire value — fixed-width integers, variable-length counts,
//! hashes, network addresses and composite protocol messages — is serialized
//! to and deserialized from bytes in a form all peers must agree on
//! bit-for-bit.  Decoding rejects malformed and non-canonical input
//! deterministically; encoding always produces the unique canonical byte
//! sequence for a value.

pub mod blockdata;
pub mod consensus;
pub mod util;
pub mod wire;
