//! Usernames in the normalized form the handshake expects.
//!
//! Username normalization itself (case folding, encoding) happens before
//! this library is reached; here a username is only validated, held as raw
//! bytes, and fed into the proof computation exactly as given.

use vstd::prelude::*;
use vstd::string::StringSliceAdditionalSpecFns;

verus! {

/// Is `b` a byte the protocol accepts in a username: an ASCII digit or
/// letter.
pub open spec fn allowed_username_byte(b: u8) -> bool {
    (0x30 <= b <= 0x39) || (0x41 <= b <= 0x5a) || (0x61 <= b <= 0x7a)
}

/// A valid username: between 1 and 16 bytes, every byte an ASCII digit or
/// letter.
pub open spec fn valid_username(s: Seq<u8>) -> bool {
    &&& 1 <= s.len() <= 16
    &&& forall|i: int| 0 <= i < s.len() ==> allowed_username_byte(s[i])
}

/// A username already in normalized form, validated on construction.
///
/// The view of a `NormalizedString` is the byte sequence that enters the
/// proof computation.
#[derive(Debug, Clone)]
pub struct NormalizedString {
    data: Vec<u8>,
}

impl View for NormalizedString {
    type V = Seq<u8>;

    closed spec fn view(&self) -> Seq<u8> {
        self.data@
    }
}

impl NormalizedString {
    /// The bytes of this username satisfy [`valid_username`].
    pub open spec fn wf(&self) -> bool {
        valid_username(self@)
    }

    /// Accepts a string already in normalized form — 1 to 16 ASCII digits
    /// or letters — and rejects anything else.
    pub fn new(s: &str) -> (r: Option<NormalizedString>)
        ensures
            r is Some <==> valid_username(s.spec_bytes()),
            r matches Some(n) ==> n@ == s.spec_bytes() && n.wf(),
    {
        let bytes = s.as_bytes();
        let n = bytes.len();
        if n < 1 || n > 16 {
            return None;
        }
        let mut data: Vec<u8> = Vec::new();
        let mut i: usize = 0;
        while i < n
            invariant
                i <= n,
                n == bytes@.len(),
                bytes@ == s.spec_bytes(),
                data@ == bytes@.subrange(0, i as int),
                forall|j: int| 0 <= j < i ==> allowed_username_byte(bytes@[j]),
            decreases n - i,
        {
            let b = bytes[i];
            let digit = 0x30 <= b && b <= 0x39;
            let upper = 0x41 <= b && b <= 0x5a;
            let lower = 0x61 <= b && b <= 0x7a;
            if !(digit || upper || lower) {
                proof {
                    assert(!allowed_username_byte(bytes@[i as int]));
                }
                return None;
            }
            data.push(b);
            proof {
                assert(data@ =~= bytes@.subrange(0, i + 1));
            }
            i = i + 1;
        }
        proof {
            assert(data@ =~= bytes@);
        }
        Some(NormalizedString { data })
    }

    /// The username's bytes, as a fresh vector.
    pub fn as_bytes_vec(&self) -> (r: Vec<u8>)
        ensures
            r@ == self@,
    {
        let n = self.data.len();
        let mut out: Vec<u8> = Vec::new();
        let mut i: usize = 0;
        while i < n
            invariant
                i <= n,
                n == self.data@.len(),
                out@ == self.data@.subrange(0, i as int),
            decreases n - i,
        {
            out.push(self.data[i]);
            proof {
                assert(out@ =~= self.data@.subrange(0, i + 1));
            }
            i = i + 1;
        }
        proof {
            assert(out@ =~= self.data@);
        }
        out
    }
}

} // verus!
