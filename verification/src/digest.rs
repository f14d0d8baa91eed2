//! Trusted boundary to the keyed-hash collaborators.
//!
//! The handshake proof is a SHA-1 digest of a composed message, and the
//! later protocol generation derives its cipher key from the session key
//! with HMAC-SHA-1 under a fixed public salt. Both digests are named, not
//! modelled: the spec functions [`sha1_of`] and [`hmac_sha1_of`] stand
//! for the outside computations, and everything downstream is proved in
//! terms of those names. A third wrapper draws the random handshake seed;
//! nothing is assumed of its value.

use hmac::Mac;
use rand::RngCore;
use sha1::Digest;
use vstd::prelude::*;

verus! {

/// The HMAC-SHA-1 tag of `message` under `key`: a function of the two
/// arguments alone, computed by the hmac crate.
pub uninterp spec fn hmac_sha1_of(key: Seq<u8>, message: Seq<u8>) -> Seq<u8>;

/// The SHA-1 digest of `message`: a function of the message alone,
/// computed by the sha1 crate.
pub uninterp spec fn sha1_of(message: Seq<u8>) -> Seq<u8>;

/// The fixed 16-byte public salt under which the later generation's
/// cipher key is derived from the session key.
pub open spec fn seed_key_bytes() -> Seq<u8> {
    seq![
        0x38u8,
        0xa7u8,
        0x83u8,
        0x15u8,
        0xf8u8,
        0x92u8,
        0x25u8,
        0x30u8,
        0x71u8,
        0x98u8,
        0x67u8,
        0xb1u8,
        0x8cu8,
        0x04u8,
        0xe2u8,
        0xaau8,
    ]
}

/// The 20-byte cipher key both peers derive from the shared session key
/// in the later protocol generation.
pub open spec fn derived_key(session_key: Seq<u8>) -> Seq<u8> {
    hmac_sha1_of(seed_key_bytes(), session_key)
}

/// Relies on hmac's `Hmac<Sha1>` (`new_from_slice`, `update`, `finalize`):
/// the returned 20 bytes are the HMAC-SHA-1 tag of `message` under `key`,
/// a deterministic function of the two arguments alone. `new_from_slice`
/// accepts a key of any length for HMAC.
#[verifier::external_body]
fn hmac_sha1_digest(key: &Vec<u8>, message: &Vec<u8>) -> (r: [u8; 20])
    ensures
        r@ == hmac_sha1_of(key@, message@),
{
    let mut mac: hmac::Hmac<sha1::Sha1> = hmac::Hmac::new_from_slice(key.as_slice())
        .expect("HMAC accepts keys of any length");
    mac.update(message.as_slice());
    mac.finalize().into_bytes().into()
}

/// Relies on sha1's `Sha1::digest`: the returned 20 bytes are the SHA-1
/// digest of `message`, a deterministic function of the message alone.
#[verifier::external_body]
pub(crate) fn sha1_digest(message: &Vec<u8>) -> (r: [u8; 20])
    ensures
        r@ == sha1_of(message@),
{
    sha1::Sha1::digest(message.as_slice()).into()
}

/// Relies on rand's `thread_rng` and `RngCore::next_u32` for a fresh
/// random seed. Nothing is assumed of the value returned.
#[verifier::external_body]
pub(crate) fn random_u32() -> u32 {
    rand::thread_rng().next_u32()
}

/// Derives the 20-byte session cipher key: HMAC-SHA-1 of the session key
/// under the fixed public salt.
pub(crate) fn derive_session_cipher_key(session_key: &[u8; 40]) -> (r: [u8; 20])
    ensures
        r@ == derived_key(session_key@),
{
    let mut salt: Vec<u8> = Vec::new();
    salt.push(0x38);
    salt.push(0xa7);
    salt.push(0x83);
    salt.push(0x15);
    salt.push(0xf8);
    salt.push(0x92);
    salt.push(0x25);
    salt.push(0x30);
    salt.push(0x71);
    salt.push(0x98);
    salt.push(0x67);
    salt.push(0xb1);
    salt.push(0x8c);
    salt.push(0x04);
    salt.push(0xe2);
    salt.push(0xaa);
    proof {
        assert(salt@ =~= seed_key_bytes());
    }
    let mut message: Vec<u8> = Vec::new();
    let mut i: usize = 0;
    while i < 40
        invariant
            i <= 40,
            message@ == session_key@.subrange(0, i as int),
        decreases 40 - i,
    {
        message.push(session_key[i]);
        proof {
            assert(message@ =~= session_key@.subrange(0, i + 1));
        }
        i = i + 1;
    }
    proof {
        assert(message@ =~= session_key@);
    }
    hmac_sha1_digest(&salt, &message)
}

} // verus!
