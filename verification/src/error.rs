//! The failures this library can report.
//!
//! Both are returned as plain values; nothing is retried or logged
//! internally. A proof mismatch means the peer does not hold the session
//! key and the session must be torn down. A failed recombination means the
//! two halves were not split from the same handshake, which is a usage
//! defect in the caller, not a transient condition.

use vstd::prelude::*;

verus! {

/// The proof claimed by the client did not match the proof computed from
/// the session key and the two seeds.
///
/// Carries both values for diagnostics.
#[derive(Debug, Clone, Copy)]
pub struct MatchProofsError {
    /// The proof the client claimed.
    pub client_proof: [u8; 20],
    /// The proof the server computed from its own inputs.
    pub server_proof: [u8; 20],
}

/// The encrypter and decrypter halves handed to `unsplit` hold different
/// derived keys: they did not originate from the same handshake.
#[derive(Debug, Clone, Copy)]
pub struct UnsplitCryptoError {}

} // verus!
