//! Header obfuscation and the seed/proof handshake for a game protocol's
//! world connection.
//!
//! After an SRP6 login exchange has produced a shared session key, packet
//! headers on the world connection are run through a per-byte rotating
//! keystream transform. This crate provides:
//!
//! - the per-byte cipher core and its mathematical model ([`cipher`]),
//!   shared by both protocol generations,
//! - the [`vanilla_header`] generation, where the 40-byte session key
//!   itself is the keystream: the split encrypter and decrypter halves,
//!   `HeaderCrypto`, which owns one half of each and can be split and
//!   recombined, and `ProofSeed`, whose terminal operations compute and
//!   (on the server) verify the mutual proof derived from the session key
//!   and both seeds,
//! - the [`tbc_header`] generation, which instead derives a 20-byte
//!   keystream key from the session key by HMAC-SHA-1 and runs the same
//!   cipher arithmetic over it.

use vstd::prelude::*;

pub mod cipher;
pub mod digest;
pub mod error;
pub mod normalized_string;
mod stream;
pub mod tbc_header;
pub mod vanilla_header;

pub use error::MatchProofsError;
pub use error::UnsplitCryptoError;
pub use normalized_string::NormalizedString;

verus! {

/// Length in bytes of the session key that the SRP6 exchange produces.
pub const SESSION_KEY_LENGTH: u8 = 40;

/// Length in bytes of a proof and of the derived cipher key (a SHA-1 digest).
pub const PROOF_LENGTH: u8 = 20;

} // verus!
