//! Header decryption for the later protocol generation.
//!
//! The cipher arithmetic is exactly the shared core in [`crate::cipher`];
//! what changes is the keystream material: instead of using the 40-byte
//! session key directly, this generation derives a 20-byte key once, as
//! HMAC-SHA-1 of the session key under a fixed public salt, and wraps the
//! keystream index at that length. Header layouts are unchanged — size
//! big-endian 16-bit, opcode little-endian, 16-bit from the server and
//! 32-bit from the client — so the decoded header types are shared.

use vstd::prelude::*;

pub use crate::vanilla_header::ClientHeader;
pub use crate::vanilla_header::ServerHeader;
pub use crate::vanilla_header::CLIENT_HEADER_LENGTH;
pub use crate::vanilla_header::SERVER_HEADER_LENGTH;

use crate::cipher::dec_prev_after;
use crate::cipher::dec_seq;
use crate::cipher::idx_after;
use crate::cipher::lemma_dec_seq_len;
use crate::digest::derive_session_cipher_key;
use crate::digest::derived_key;
use crate::stream::read_exact_bytes;
use crate::vanilla_header::client_header_of;
use crate::vanilla_header::server_header_of;

verus! {

/// Decryption part of this protocol generation's header crypto.
///
/// Intended to be kept with the reader half of a connection.
#[derive(Debug, Clone)]
pub struct DecrypterHalf {
    key: [u8; 20],
    index: u8,
    previous_value: u8,
}

impl DecrypterHalf {
    /// The derived cipher key this half transforms with.
    pub closed spec fn key_seq(&self) -> Seq<u8> {
        self.key@
    }

    /// Current position in the circular keystream.
    pub closed spec fn keystream_index(&self) -> int {
        self.index as int
    }

    /// The previously consumed ciphertext byte the next step chains on.
    pub closed spec fn chain_byte(&self) -> u8 {
        self.previous_value
    }

    /// The keystream index is within the 20-byte derived key.
    pub open spec fn wf(&self) -> bool {
        self.key_seq().len() == 20 && 0 <= self.keystream_index() < 20
    }

    /// Decrypts `data` in place, advancing this half's cipher state by one
    /// step per byte.
    ///
    /// Use either [the client](DecrypterHalf::decrypt_client_header)
    /// or [the server](DecrypterHalf::decrypt_server_header) header
    /// functions for whole headers.
    pub fn decrypt(&mut self, data: &mut Vec<u8>)
        requires
            old(self).wf(),
        ensures
            final(self).wf(),
            final(self).key_seq() == old(self).key_seq(),
            final(data)@ == dec_seq(
                old(data)@,
                old(self).key_seq(),
                old(self).keystream_index(),
                old(self).chain_byte(),
            ),
            final(self).keystream_index() == idx_after(
                old(self).keystream_index(),
                old(data)@.len() as int,
                20,
            ),
            final(self).chain_byte() == dec_prev_after(old(data)@, old(self).chain_byte()),
    {
        crate::cipher::decrypt(data, self.key.as_slice(), &mut self.index, &mut self.previous_value);
    }

    /// Decrypts and decodes a server header: size big-endian, opcode
    /// little-endian 16-bit.
    ///
    /// Prefer this over directly using [`DecrypterHalf::decrypt`].
    pub fn decrypt_server_header(&mut self, data: [u8; 4]) -> (r: ServerHeader)
        requires
            old(self).wf(),
        ensures
            final(self).wf(),
            final(self).key_seq() == old(self).key_seq(),
            r == server_header_of(
                dec_seq(
                    data@,
                    old(self).key_seq(),
                    old(self).keystream_index(),
                    old(self).chain_byte(),
                ),
            ),
            final(self).keystream_index() == idx_after(old(self).keystream_index(), 4, 20),
            final(self).chain_byte() == dec_prev_after(data@, old(self).chain_byte()),
    {
        let ghost key = self.key_seq();
        let ghost idx = self.keystream_index();
        let ghost prev = self.chain_byte();
        let mut buf: Vec<u8> = Vec::new();
        buf.push(data[0]);
        buf.push(data[1]);
        buf.push(data[2]);
        buf.push(data[3]);
        proof {
            assert(buf@ =~= data@);
        }
        self.decrypt(&mut buf);
        proof {
            lemma_dec_seq_len(data@, key, idx, prev);
        }
        let size: u16 = (buf[0] as u16) * 256 + (buf[1] as u16);
        let opcode: u16 = (buf[3] as u16) * 256 + (buf[2] as u16);
        ServerHeader { size, opcode }
    }

    /// Decrypts and decodes a client header: size big-endian, opcode
    /// little-endian 32-bit.
    ///
    /// Prefer this over directly using [`DecrypterHalf::decrypt`].
    pub fn decrypt_client_header(&mut self, data: [u8; 6]) -> (r: ClientHeader)
        requires
            old(self).wf(),
        ensures
            final(self).wf(),
            final(self).key_seq() == old(self).key_seq(),
            r == client_header_of(
                dec_seq(
                    data@,
                    old(self).key_seq(),
                    old(self).keystream_index(),
                    old(self).chain_byte(),
                ),
            ),
            final(self).keystream_index() == idx_after(old(self).keystream_index(), 6, 20),
            final(self).chain_byte() == dec_prev_after(data@, old(self).chain_byte()),
    {
        let ghost key = self.key_seq();
        let ghost idx = self.keystream_index();
        let ghost prev = self.chain_byte();
        let mut buf: Vec<u8> = Vec::new();
        buf.push(data[0]);
        buf.push(data[1]);
        buf.push(data[2]);
        buf.push(data[3]);
        buf.push(data[4]);
        buf.push(data[5]);
        proof {
            assert(buf@ =~= data@);
        }
        self.decrypt(&mut buf);
        proof {
            lemma_dec_seq_len(data@, key, idx, prev);
        }
        let size: u16 = (buf[0] as u16) * 256 + (buf[1] as u16);
        let opcode: u32 = (buf[5] as u32) * 16777216 + (buf[4] as u32) * 65536 + (buf[3] as u32)
            * 256 + (buf[2] as u32);
        ClientHeader { size, opcode }
    }

    /// Reads exactly four bytes from `reader` and decrypts them as a
    /// server header.
    ///
    /// Fails exactly when the reader fails, with that error unchanged; the
    /// cipher state is then untouched and the call is safe to retry.
    pub fn read_and_decrypt_server_header<R: std::io::Read>(&mut self, reader: R) -> (r: Result<
        ServerHeader,
        std::io::Error,
    >)
        requires
            old(self).wf(),
        ensures
            final(self).wf(),
            final(self).key_seq() == old(self).key_seq(),
            r is Err ==> *final(self) == *old(self),
            r matches Ok(h) ==> exists|raw: Seq<u8>|
                raw.len() == 4 && h == server_header_of(
                    #[trigger] dec_seq(
                        raw,
                        old(self).key_seq(),
                        old(self).keystream_index(),
                        old(self).chain_byte(),
                    ),
                ) && final(self).keystream_index() == idx_after(
                    old(self).keystream_index(),
                    4,
                    20,
                ) && final(self).chain_byte() == dec_prev_after(raw, old(self).chain_byte()),
    {
        let buf = match read_exact_bytes(reader, 4) {
            Ok(b) => b,
            Err(e) => {
                return Err(e);
            },
        };
        let data: [u8; 4] = [buf[0], buf[1], buf[2], buf[3]];
        proof {
            assert(data@ =~= buf@);
        }
        Ok(self.decrypt_server_header(data))
    }

    /// Reads exactly six bytes from `reader` and decrypts them as a client
    /// header.
    ///
    /// Fails exactly when the reader fails, with that error unchanged; the
    /// cipher state is then untouched and the call is safe to retry.
    pub fn read_and_decrypt_client_header<R: std::io::Read>(&mut self, reader: R) -> (r: Result<
        ClientHeader,
        std::io::Error,
    >)
        requires
            old(self).wf(),
        ensures
            final(self).wf(),
            final(self).key_seq() == old(self).key_seq(),
            r is Err ==> *final(self) == *old(self),
            r matches Ok(h) ==> exists|raw: Seq<u8>|
                raw.len() == 6 && h == client_header_of(
                    #[trigger] dec_seq(
                        raw,
                        old(self).key_seq(),
                        old(self).keystream_index(),
                        old(self).chain_byte(),
                    ),
                ) && final(self).keystream_index() == idx_after(
                    old(self).keystream_index(),
                    6,
                    20,
                ) && final(self).chain_byte() == dec_prev_after(raw, old(self).chain_byte()),
    {
        let buf = match read_exact_bytes(reader, 6) {
            Ok(b) => b,
            Err(e) => {
                return Err(e);
            },
        };
        let data: [u8; 6] = [buf[0], buf[1], buf[2], buf[3], buf[4], buf[5]];
        proof {
            assert(data@ =~= buf@);
        }
        Ok(self.decrypt_client_header(data))
    }

    /// A fresh decrypter for this generation: its keystream is the 20-byte
    /// key derived from the session key by HMAC-SHA-1 under the fixed
    /// public salt, with keystream index zero and chaining byte zero.
    pub fn new(session_key: [u8; 40]) -> (r: Self)
        ensures
            r.wf(),
            r.key_seq() == derived_key(session_key@),
            r.keystream_index() == 0,
            r.chain_byte() == 0,
    {
        DecrypterHalf { key: derive_session_cipher_key(&session_key), index: 0, previous_value: 0 }
    }
}

} // verus!
