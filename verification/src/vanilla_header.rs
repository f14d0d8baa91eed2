//! Header encryption, decryption, splitting, and the seed/proof handshake.
//!
//! A [`HeaderCrypto`] owns one [`EncrypterHalf`] and one [`DecrypterHalf`],
//! both holding the same keystream key but separate cipher state, because
//! headers flowing out and headers flowing in are independent streams. The
//! only constructor path runs through [`ProofSeed`]: the server refuses to
//! produce a cipher until the client's proof matches the one computed from
//! the shared session key and both seeds.
//!
//! Wire layout of the headers is fixed by the protocol: the size field is
//! big-endian, the opcode field little-endian (16 bits from the server,
//! 32 bits from the client).

use vstd::prelude::*;

use crate::cipher::dec_prev_after;
use crate::cipher::dec_seq;
use crate::cipher::enc_prev_after;
use crate::cipher::enc_seq;
use crate::cipher::idx_after;
use crate::cipher::lemma_dec_seq_len;
use crate::cipher::lemma_enc_seq_len;
use crate::cipher::lemma_round_trip;
use crate::digest::random_u32;
use crate::digest::sha1_digest;
use crate::digest::sha1_of;
use crate::error::MatchProofsError;
use crate::error::UnsplitCryptoError;
use crate::normalized_string::NormalizedString;
use crate::stream::read_exact_bytes;
use crate::stream::write_all_bytes;

verus! {

/// Size in bytes of a client header: 16-bit size plus 32-bit opcode.
pub const CLIENT_HEADER_LENGTH: u8 = 6;

/// Size in bytes of a server header: 16-bit size plus 16-bit opcode.
pub const SERVER_HEADER_LENGTH: u8 = 4;

/// The two bytes of `v` in big-endian order.
pub open spec fn be16_bytes(v: u16) -> Seq<u8> {
    seq![(v / 256) as u8, (v % 256) as u8]
}

/// The two bytes of `v` in little-endian order.
pub open spec fn le16_bytes(v: u16) -> Seq<u8> {
    seq![(v % 256) as u8, (v / 256) as u8]
}

/// The four bytes of `v` in little-endian order.
pub open spec fn le32_bytes(v: u32) -> Seq<u8> {
    seq![
        (v % 256) as u8,
        ((v / 256) % 256) as u8,
        ((v / 65536) % 256) as u8,
        ((v / 16777216) % 256) as u8,
    ]
}

/// The 16-bit value whose big-endian bytes are `hi`, `lo`.
pub open spec fn be16_of(hi: u8, lo: u8) -> u16 {
    (hi * 256 + lo) as u16
}

/// The 16-bit value whose little-endian bytes are `b0`, `b1`.
pub open spec fn le16_of(b0: u8, b1: u8) -> u16 {
    (b1 * 256 + b0) as u16
}

/// The 32-bit value whose little-endian bytes are `b0` through `b3`.
pub open spec fn le32_of(b0: u8, b1: u8, b2: u8, b3: u8) -> u32 {
    (b3 * 16777216 + b2 * 65536 + b1 * 256 + b0) as u32
}

/// Plaintext wire layout of a server header: size big-endian, then opcode
/// little-endian 16-bit.
pub open spec fn server_header_bytes(size: u16, opcode: u16) -> Seq<u8> {
    be16_bytes(size) + le16_bytes(opcode)
}

/// Plaintext wire layout of a client header: size big-endian, then opcode
/// little-endian 32-bit.
pub open spec fn client_header_bytes(size: u16, opcode: u32) -> Seq<u8> {
    be16_bytes(size) + le32_bytes(opcode)
}

/// The server header decoded from four plaintext bytes.
pub open spec fn server_header_of(plain: Seq<u8>) -> ServerHeader {
    ServerHeader { size: be16_of(plain[0], plain[1]), opcode: le16_of(plain[2], plain[3]) }
}

/// The client header decoded from six plaintext bytes.
pub open spec fn client_header_of(plain: Seq<u8>) -> ClientHeader {
    ClientHeader {
        size: be16_of(plain[0], plain[1]),
        opcode: le32_of(plain[2], plain[3], plain[4], plain[5]),
    }
}

/// Decrypted values of a header sent by the server.
#[derive(Debug, Clone, Copy, PartialEq, Eq, Hash)]
pub struct ServerHeader {
    /// Size of the message in bytes; includes the opcode field but not the
    /// size field.
    pub size: u16,
    /// Opcode of the message; 16 bits wide, unlike a client header's.
    pub opcode: u16,
}

/// Decrypted values of a header sent by the client.
#[derive(Debug, Clone, Copy, PartialEq, Eq, Hash)]
pub struct ClientHeader {
    /// Size of the message in bytes; includes the opcode field but not the
    /// size field.
    pub size: u16,
    /// Opcode of the message; 32 bits wide, unlike a server header's.
    pub opcode: u32,
}

/// Decryption half of a [`HeaderCrypto`].
///
/// Intended to be kept with the reader half of a connection.
#[derive(Debug, Clone)]
pub struct DecrypterHalf {
    key: [u8; 40],
    index: u8,
    previous_value: u8,
}

/// Encryption half of a [`HeaderCrypto`].
///
/// Intended to be kept with the writer half of a connection.
#[derive(Debug, Clone)]
pub struct EncrypterHalf {
    key: [u8; 40],
    index: u8,
    previous_value: u8,
}

impl DecrypterHalf {
    /// The keystream key this half transforms with: in this protocol
    /// generation, the session key itself.
    pub closed spec fn key_seq(&self) -> Seq<u8> {
        self.key@
    }

    /// Current position in the circular keystream.
    pub closed spec fn keystream_index(&self) -> int {
        self.index as int
    }

    /// The previously consumed ciphertext byte the next step chains on.
    pub closed spec fn chain_byte(&self) -> u8 {
        self.previous_value
    }

    /// The keystream index is within the 40-byte key.
    pub open spec fn wf(&self) -> bool {
        self.key_seq().len() == 40 && 0 <= self.keystream_index() < 40
    }

    /// Decrypts `data` in place, advancing this half's cipher state by one
    /// step per byte.
    ///
    /// Use either [the client](DecrypterHalf::decrypt_client_header)
    /// or [the server](DecrypterHalf::decrypt_server_header) header
    /// functions for whole headers.
    pub fn decrypt(&mut self, data: &mut Vec<u8>)
        requires
            old(self).wf(),
        ensures
            final(self).wf(),
            final(self).key_seq() == old(self).key_seq(),
            final(data)@ == dec_seq(
                old(data)@,
                old(self).key_seq(),
                old(self).keystream_index(),
                old(self).chain_byte(),
            ),
            final(self).keystream_index() == idx_after(
                old(self).keystream_index(),
                old(data)@.len() as int, 40,
            ),
            final(self).chain_byte() == dec_prev_after(old(data)@, old(self).chain_byte()),
    {
        crate::cipher::decrypt(data, self.key.as_slice(), &mut self.index, &mut self.previous_value);
    }

    /// Decrypts and decodes a server header: size big-endian, opcode
    /// little-endian 16-bit.
    ///
    /// Prefer this over directly using [`DecrypterHalf::decrypt`].
    pub fn decrypt_server_header(&mut self, data: [u8; 4]) -> (r: ServerHeader)
        requires
            old(self).wf(),
        ensures
            final(self).wf(),
            final(self).key_seq() == old(self).key_seq(),
            r == server_header_of(
                dec_seq(
                    data@,
                    old(self).key_seq(),
                    old(self).keystream_index(),
                    old(self).chain_byte(),
                ),
            ),
            final(self).keystream_index() == idx_after(old(self).keystream_index(), 4, 40),
            final(self).chain_byte() == dec_prev_after(data@, old(self).chain_byte()),
    {
        let ghost key = self.key_seq();
        let ghost idx = self.keystream_index();
        let ghost prev = self.chain_byte();
        let mut buf: Vec<u8> = Vec::new();
        buf.push(data[0]);
        buf.push(data[1]);
        buf.push(data[2]);
        buf.push(data[3]);
        proof {
            assert(buf@ =~= data@);
        }
        self.decrypt(&mut buf);
        proof {
            lemma_dec_seq_len(data@, key, idx, prev);
        }
        let size: u16 = (buf[0] as u16) * 256 + (buf[1] as u16);
        let opcode: u16 = (buf[3] as u16) * 256 + (buf[2] as u16);
        ServerHeader { size, opcode }
    }

    /// Decrypts and decodes a client header: size big-endian, opcode
    /// little-endian 32-bit.
    ///
    /// Prefer this over directly using [`DecrypterHalf::decrypt`].
    pub fn decrypt_client_header(&mut self, data: [u8; 6]) -> (r: ClientHeader)
        requires
            old(self).wf(),
        ensures
            final(self).wf(),
            final(self).key_seq() == old(self).key_seq(),
            r == client_header_of(
                dec_seq(
                    data@,
                    old(self).key_seq(),
                    old(self).keystream_index(),
                    old(self).chain_byte(),
                ),
            ),
            final(self).keystream_index() == idx_after(old(self).keystream_index(), 6, 40),
            final(self).chain_byte() == dec_prev_after(data@, old(self).chain_byte()),
    {
        let ghost key = self.key_seq();
        let ghost idx = self.keystream_index();
        let ghost prev = self.chain_byte();
        let mut buf: Vec<u8> = Vec::new();
        buf.push(data[0]);
        buf.push(data[1]);
        buf.push(data[2]);
        buf.push(data[3]);
        buf.push(data[4]);
        buf.push(data[5]);
        proof {
            assert(buf@ =~= data@);
        }
        self.decrypt(&mut buf);
        proof {
            lemma_dec_seq_len(data@, key, idx, prev);
        }
        let size: u16 = (buf[0] as u16) * 256 + (buf[1] as u16);
        let opcode: u32 = (buf[5] as u32) * 16777216 + (buf[4] as u32) * 65536 + (buf[3] as u32)
            * 256 + (buf[2] as u32);
        ClientHeader { size, opcode }
    }

    /// Reads exactly four bytes from `reader` and decrypts them as a
    /// server header.
    ///
    /// Fails exactly when the reader fails, with that error unchanged; the
    /// cipher state is then untouched and the call is safe to retry.
    pub fn read_and_decrypt_server_header<R: std::io::Read>(&mut self, reader: R) -> (r: Result<
        ServerHeader,
        std::io::Error,
    >)
        requires
            old(self).wf(),
        ensures
            final(self).wf(),
            final(self).key_seq() == old(self).key_seq(),
            r is Err ==> *final(self) == *old(self),
            r matches Ok(h) ==> exists|raw: Seq<u8>|
                raw.len() == 4 && h == server_header_of(
                    #[trigger] dec_seq(
                        raw,
                        old(self).key_seq(),
                        old(self).keystream_index(),
                        old(self).chain_byte(),
                    ),
                ) && final(self).keystream_index() == idx_after(old(self).keystream_index(), 4, 40)
                    && final(self).chain_byte() == dec_prev_after(raw, old(self).chain_byte()),
    {
        let buf = match read_exact_bytes(reader, 4) {
            Ok(b) => b,
            Err(e) => {
                return Err(e);
            },
        };
        let data: [u8; 4] = [buf[0], buf[1], buf[2], buf[3]];
        proof {
            assert(data@ =~= buf@);
        }
        Ok(self.decrypt_server_header(data))
    }

    /// Reads exactly six bytes from `reader` and decrypts them as a client
    /// header.
    ///
    /// Fails exactly when the reader fails, with that error unchanged; the
    /// cipher state is then untouched and the call is safe to retry.
    pub fn read_and_decrypt_client_header<R: std::io::Read>(&mut self, reader: R) -> (r: Result<
        ClientHeader,
        std::io::Error,
    >)
        requires
            old(self).wf(),
        ensures
            final(self).wf(),
            final(self).key_seq() == old(self).key_seq(),
            r is Err ==> *final(self) == *old(self),
            r matches Ok(h) ==> exists|raw: Seq<u8>|
                raw.len() == 6 && h == client_header_of(
                    #[trigger] dec_seq(
                        raw,
                        old(self).key_seq(),
                        old(self).keystream_index(),
                        old(self).chain_byte(),
                    ),
                ) && final(self).keystream_index() == idx_after(old(self).keystream_index(), 6, 40)
                    && final(self).chain_byte() == dec_prev_after(raw, old(self).chain_byte()),
    {
        let buf = match read_exact_bytes(reader, 6) {
            Ok(b) => b,
            Err(e) => {
                return Err(e);
            },
        };
        let data: [u8; 6] = [buf[0], buf[1], buf[2], buf[3], buf[4], buf[5]];
        proof {
            assert(data@ =~= buf@);
        }
        Ok(self.decrypt_client_header(data))
    }

    /// A fresh decrypter: the session key itself is the keystream, with
    /// keystream index zero and chaining byte zero.
    pub(crate) fn new(session_key: [u8; 40]) -> (r: Self)
        ensures
            r.wf(),
            r.key_seq() == session_key@,
            r.keystream_index() == 0,
            r.chain_byte() == 0,
    {
        DecrypterHalf { key: session_key, index: 0, previous_value: 0 }
    }
}

impl EncrypterHalf {
    /// The keystream key this half transforms with: in this protocol
    /// generation, the session key itself.
    pub closed spec fn key_seq(&self) -> Seq<u8> {
        self.key@
    }

    /// Current position in the circular keystream.
    pub closed spec fn keystream_index(&self) -> int {
        self.index as int
    }

    /// The previously produced ciphertext byte the next step chains on.
    pub closed spec fn chain_byte(&self) -> u8 {
        self.previous_value
    }

    /// The keystream index is within the 40-byte key.
    pub open spec fn wf(&self) -> bool {
        self.key_seq().len() == 40 && 0 <= self.keystream_index() < 40
    }

    /// Encrypts `data` in place, advancing this half's cipher state by one
    /// step per byte.
    ///
    /// Use either [the client](EncrypterHalf::encrypt_client_header)
    /// or [the server](EncrypterHalf::encrypt_server_header) header
    /// functions for whole headers.
    pub fn encrypt(&mut self, data: &mut Vec<u8>)
        requires
            old(self).wf(),
        ensures
            final(self).wf(),
            final(self).key_seq() == old(self).key_seq(),
            final(data)@ == enc_seq(
                old(data)@,
                old(self).key_seq(),
                old(self).keystream_index(),
                old(self).chain_byte(),
            ),
            final(self).keystream_index() == idx_after(
                old(self).keystream_index(),
                old(data)@.len() as int, 40,
            ),
            final(self).chain_byte() == enc_prev_after(
                old(data)@,
                old(self).key_seq(),
                old(self).keystream_index(),
                old(self).chain_byte(),
            ),
    {
        crate::cipher::encrypt(data, self.key.as_slice(), &mut self.index, &mut self.previous_value);
    }

    /// Encodes a server header — size big-endian, opcode little-endian
    /// 16-bit — and encrypts it.
    pub fn encrypt_server_header(&mut self, size: u16, opcode: u16) -> (r: [u8; 4])
        requires
            old(self).wf(),
        ensures
            final(self).wf(),
            final(self).key_seq() == old(self).key_seq(),
            r@ == enc_seq(
                server_header_bytes(size, opcode),
                old(self).key_seq(),
                old(self).keystream_index(),
                old(self).chain_byte(),
            ),
            final(self).keystream_index() == idx_after(old(self).keystream_index(), 4, 40),
            final(self).chain_byte() == enc_prev_after(
                server_header_bytes(size, opcode),
                old(self).key_seq(),
                old(self).keystream_index(),
                old(self).chain_byte(),
            ),
    {
        let ghost key = self.key_seq();
        let ghost idx = self.keystream_index();
        let ghost prev = self.chain_byte();
        let mut buf: Vec<u8> = Vec::new();
        buf.push((size / 256) as u8);
        buf.push((size % 256) as u8);
        buf.push((opcode % 256) as u8);
        buf.push((opcode / 256) as u8);
        proof {
            assert(buf@ =~= server_header_bytes(size, opcode));
        }
        self.encrypt(&mut buf);
        proof {
            lemma_enc_seq_len(server_header_bytes(size, opcode), key, idx, prev);
        }
        let r: [u8; 4] = [buf[0], buf[1], buf[2], buf[3]];
        proof {
            assert(r@ =~= buf@);
        }
        r
    }

    /// Encodes a client header — size big-endian, opcode little-endian
    /// 32-bit — and encrypts it.
    pub fn encrypt_client_header(&mut self, size: u16, opcode: u32) -> (r: [u8; 6])
        requires
            old(self).wf(),
        ensures
            final(self).wf(),
            final(self).key_seq() == old(self).key_seq(),
            r@ == enc_seq(
                client_header_bytes(size, opcode),
                old(self).key_seq(),
                old(self).keystream_index(),
                old(self).chain_byte(),
            ),
            final(self).keystream_index() == idx_after(old(self).keystream_index(), 6, 40),
            final(self).chain_byte() == enc_prev_after(
                client_header_bytes(size, opcode),
                old(self).key_seq(),
                old(self).keystream_index(),
                old(self).chain_byte(),
            ),
    {
        let ghost key = self.key_seq();
        let ghost idx = self.keystream_index();
        let ghost prev = self.chain_byte();
        let mut buf: Vec<u8> = Vec::new();
        buf.push((size / 256) as u8);
        buf.push((size % 256) as u8);
        buf.push((opcode % 256) as u8);
        buf.push(((opcode / 256) % 256) as u8);
        buf.push(((opcode / 65536) % 256) as u8);
        buf.push(((opcode / 16777216) % 256) as u8);
        proof {
            assert(buf@ =~= client_header_bytes(size, opcode));
        }
        self.encrypt(&mut buf);
        proof {
            lemma_enc_seq_len(client_header_bytes(size, opcode), key, idx, prev);
        }
        let r: [u8; 6] = [buf[0], buf[1], buf[2], buf[3], buf[4], buf[5]];
        proof {
            assert(r@ =~= buf@);
        }
        r
    }

    /// Encrypts a server header and writes the four ciphertext bytes to
    /// `write`.
    ///
    /// Fails exactly when the writer fails, with that error unchanged. The
    /// cipher state advances before the write, so a failed write leaves
    /// the state past this header, as if it had been sent.
    pub fn write_encrypted_server_header<W: std::io::Write>(
        &mut self,
        write: W,
        size: u16,
        opcode: u16,
    ) -> (r: Result<(), std::io::Error>)
        requires
            old(self).wf(),
        ensures
            final(self).wf(),
            final(self).key_seq() == old(self).key_seq(),
            final(self).keystream_index() == idx_after(old(self).keystream_index(), 4, 40),
            final(self).chain_byte() == enc_prev_after(
                server_header_bytes(size, opcode),
                old(self).key_seq(),
                old(self).keystream_index(),
                old(self).chain_byte(),
            ),
    {
        let data = self.encrypt_server_header(size, opcode);
        let mut buf: Vec<u8> = Vec::new();
        buf.push(data[0]);
        buf.push(data[1]);
        buf.push(data[2]);
        buf.push(data[3]);
        write_all_bytes(write, &buf)
    }

    /// Encrypts a client header and writes the six ciphertext bytes to
    /// `write`.
    ///
    /// Fails exactly when the writer fails, with that error unchanged. The
    /// cipher state advances before the write, so a failed write leaves
    /// the state past this header, as if it had been sent.
    pub fn write_encrypted_client_header<W: std::io::Write>(
        &mut self,
        write: W,
        size: u16,
        opcode: u32,
    ) -> (r: Result<(), std::io::Error>)
        requires
            old(self).wf(),
        ensures
            final(self).wf(),
            final(self).key_seq() == old(self).key_seq(),
            final(self).keystream_index() == idx_after(old(self).keystream_index(), 6, 40),
            final(self).chain_byte() == enc_prev_after(
                client_header_bytes(size, opcode),
                old(self).key_seq(),
                old(self).keystream_index(),
                old(self).chain_byte(),
            ),
    {
        let data = self.encrypt_client_header(size, opcode);
        let mut buf: Vec<u8> = Vec::new();
        buf.push(data[0]);
        buf.push(data[1]);
        buf.push(data[2]);
        buf.push(data[3]);
        buf.push(data[4]);
        buf.push(data[5]);
        write_all_bytes(write, &buf)
    }

    /// Does this encrypter hold the same keystream key as `other`, that is,
    /// did the two halves come from the same handshake?
    pub fn is_pair_of(&self, other: &DecrypterHalf) -> (r: bool)
        ensures
            r <==> self.key_seq() == other.key_seq(),
    {
        keys_equal(&self.key, &other.key)
    }

    /// Recombines this encrypter with the decrypter it was split from.
    ///
    /// Fails with [`UnsplitCryptoError`] when the two halves hold
    /// different keystream keys, which means they did not originate from the
    /// same handshake; the recombined object must not be trusted in that
    /// case (none is produced).
    pub fn unsplit(self, decrypt: DecrypterHalf) -> (r: Result<HeaderCrypto, UnsplitCryptoError>)
        requires
            self.wf(),
            decrypt.wf(),
        ensures
            r is Ok <==> self.key_seq() == decrypt.key_seq(),
            r matches Ok(c) ==> c.enc_half() == self && c.dec_half() == decrypt && c.wf(),
    {
        if self.is_pair_of(&decrypt) {
            Ok(HeaderCrypto { decrypt, encrypt: self })
        } else {
            Err(UnsplitCryptoError {})
        }
    }

    /// A fresh encrypter: the session key itself is the keystream, with
    /// keystream index zero and chaining byte zero.
    pub(crate) fn new(session_key: [u8; 40]) -> (r: Self)
        ensures
            r.wf(),
            r.key_seq() == session_key@,
            r.keystream_index() == 0,
            r.chain_byte() == 0,
    {
        EncrypterHalf { key: session_key, index: 0, previous_value: 0 }
    }
}

/// Main struct for encryption or decryption.
///
/// Created from [`ProofSeed::into_server_header_crypto`] or
/// [`ProofSeed::into_client_header_crypto`].
///
/// Can be split into an [`EncrypterHalf`] and a [`DecrypterHalf`] through
/// [`HeaderCrypto::split`], so that a connection's read and write sides
/// need not share a lock.
#[derive(Debug, Clone)]
pub struct HeaderCrypto {
    decrypt: DecrypterHalf,
    encrypt: EncrypterHalf,
}

/// A cipher as both terminal handshake operations hand it out: both halves
/// use `session_key` as their keystream, with keystream index zero and
/// chaining byte zero.
pub open spec fn is_fresh_crypto(c: HeaderCrypto, session_key: Seq<u8>) -> bool {
    &&& c.wf()
    &&& c.enc_half().key_seq() == session_key
    &&& c.enc_half().keystream_index() == 0
    &&& c.enc_half().chain_byte() == 0
    &&& c.dec_half().key_seq() == session_key
    &&& c.dec_half().keystream_index() == 0
    &&& c.dec_half().chain_byte() == 0
}

impl HeaderCrypto {
    /// The encryption half this object owns.
    pub closed spec fn enc_half(&self) -> EncrypterHalf {
        self.encrypt
    }

    /// The decryption half this object owns.
    pub closed spec fn dec_half(&self) -> DecrypterHalf {
        self.decrypt
    }

    /// Both halves are well formed and hold the same keystream key.
    pub open spec fn wf(&self) -> bool {
        self.enc_half().wf() && self.dec_half().wf() && self.enc_half().key_seq()
            == self.dec_half().key_seq()
    }

    /// Direct access to the internal [`DecrypterHalf`].
    pub fn decrypter(&mut self) -> (r: &mut DecrypterHalf)
        ensures
            *r == old(self).dec_half(),
            final(self).dec_half() == *final(r),
            final(self).enc_half() == old(self).enc_half(),
    {
        &mut self.decrypt
    }

    /// Direct access to the internal [`EncrypterHalf`].
    pub fn encrypter(&mut self) -> (r: &mut EncrypterHalf)
        ensures
            *r == old(self).enc_half(),
            final(self).enc_half() == *final(r),
            final(self).dec_half() == old(self).dec_half(),
    {
        &mut self.encrypt
    }

    /// Encrypts `data` in place through the encrypter half; the decrypter
    /// half's state is untouched.
    pub fn encrypt(&mut self, data: &mut Vec<u8>)
        requires
            old(self).wf(),
        ensures
            final(self).wf(),
            final(self).dec_half() == old(self).dec_half(),
            final(self).enc_half().key_seq() == old(self).enc_half().key_seq(),
            final(data)@ == enc_seq(
                old(data)@,
                old(self).enc_half().key_seq(),
                old(self).enc_half().keystream_index(),
                old(self).enc_half().chain_byte(),
            ),
            final(self).enc_half().keystream_index() == idx_after(
                old(self).enc_half().keystream_index(),
                old(data)@.len() as int, 40,
            ),
            final(self).enc_half().chain_byte() == enc_prev_after(
                old(data)@,
                old(self).enc_half().key_seq(),
                old(self).enc_half().keystream_index(),
                old(self).enc_half().chain_byte(),
            ),
    {
        self.encrypt.encrypt(data);
    }

    /// Convenience wrapper for [`EncrypterHalf::encrypt_server_header`];
    /// the decrypter half's state is untouched.
    pub fn encrypt_server_header(&mut self, size: u16, opcode: u16) -> (r: [u8; 4])
        requires
            old(self).wf(),
        ensures
            final(self).wf(),
            final(self).dec_half() == old(self).dec_half(),
            final(self).enc_half().key_seq() == old(self).enc_half().key_seq(),
            r@ == enc_seq(
                server_header_bytes(size, opcode),
                old(self).enc_half().key_seq(),
                old(self).enc_half().keystream_index(),
                old(self).enc_half().chain_byte(),
            ),
            final(self).enc_half().keystream_index() == idx_after(
                old(self).enc_half().keystream_index(),
                4, 40,
            ),
            final(self).enc_half().chain_byte() == enc_prev_after(
                server_header_bytes(size, opcode),
                old(self).enc_half().key_seq(),
                old(self).enc_half().keystream_index(),
                old(self).enc_half().chain_byte(),
            ),
    {
        self.encrypt.encrypt_server_header(size, opcode)
    }

    /// Convenience wrapper for [`EncrypterHalf::encrypt_client_header`];
    /// the decrypter half's state is untouched.
    pub fn encrypt_client_header(&mut self, size: u16, opcode: u32) -> (r: [u8; 6])
        requires
            old(self).wf(),
        ensures
            final(self).wf(),
            final(self).dec_half() == old(self).dec_half(),
            final(self).enc_half().key_seq() == old(self).enc_half().key_seq(),
            r@ == enc_seq(
                client_header_bytes(size, opcode),
                old(self).enc_half().key_seq(),
                old(self).enc_half().keystream_index(),
                old(self).enc_half().chain_byte(),
            ),
            final(self).enc_half().keystream_index() == idx_after(
                old(self).enc_half().keystream_index(),
                6, 40,
            ),
            final(self).enc_half().chain_byte() == enc_prev_after(
                client_header_bytes(size, opcode),
                old(self).enc_half().key_seq(),
                old(self).enc_half().keystream_index(),
                old(self).enc_half().chain_byte(),
            ),
    {
        self.encrypt.encrypt_client_header(size, opcode)
    }

    /// Convenience wrapper for
    /// [`EncrypterHalf::write_encrypted_server_header`]; the decrypter
    /// half's state is untouched.
    pub fn write_encrypted_server_header<W: std::io::Write>(
        &mut self,
        write: W,
        size: u16,
        opcode: u16,
    ) -> (r: Result<(), std::io::Error>)
        requires
            old(self).wf(),
        ensures
            final(self).wf(),
            final(self).dec_half() == old(self).dec_half(),
            final(self).enc_half().key_seq() == old(self).enc_half().key_seq(),
            final(self).enc_half().keystream_index() == idx_after(
                old(self).enc_half().keystream_index(),
                4, 40,
            ),
            final(self).enc_half().chain_byte() == enc_prev_after(
                server_header_bytes(size, opcode),
                old(self).enc_half().key_seq(),
                old(self).enc_half().keystream_index(),
                old(self).enc_half().chain_byte(),
            ),
    {
        self.encrypt.write_encrypted_server_header(write, size, opcode)
    }

    /// Convenience wrapper for
    /// [`EncrypterHalf::write_encrypted_client_header`]; the decrypter
    /// half's state is untouched.
    pub fn write_encrypted_client_header<W: std::io::Write>(
        &mut self,
        write: W,
        size: u16,
        opcode: u32,
    ) -> (r: Result<(), std::io::Error>)
        requires
            old(self).wf(),
        ensures
            final(self).wf(),
            final(self).dec_half() == old(self).dec_half(),
            final(self).enc_half().key_seq() == old(self).enc_half().key_seq(),
            final(self).enc_half().keystream_index() == idx_after(
                old(self).enc_half().keystream_index(),
                6, 40,
            ),
            final(self).enc_half().chain_byte() == enc_prev_after(
                client_header_bytes(size, opcode),
                old(self).enc_half().key_seq(),
                old(self).enc_half().keystream_index(),
                old(self).enc_half().chain_byte(),
            ),
    {
        self.encrypt.write_encrypted_client_header(write, size, opcode)
    }

    /// Convenience wrapper for
    /// [`DecrypterHalf::read_and_decrypt_server_header`]; the encrypter
    /// half's state is untouched.
    pub fn read_and_decrypt_server_header<R: std::io::Read>(&mut self, reader: R) -> (r: Result<
        ServerHeader,
        std::io::Error,
    >)
        requires
            old(self).wf(),
        ensures
            final(self).wf(),
            final(self).enc_half() == old(self).enc_half(),
            final(self).dec_half().key_seq() == old(self).dec_half().key_seq(),
            r is Err ==> final(self).dec_half() == old(self).dec_half(),
            r matches Ok(h) ==> exists|raw: Seq<u8>|
                raw.len() == 4 && h == server_header_of(
                    #[trigger] dec_seq(
                        raw,
                        old(self).dec_half().key_seq(),
                        old(self).dec_half().keystream_index(),
                        old(self).dec_half().chain_byte(),
                    ),
                ) && final(self).dec_half().keystream_index() == idx_after(
                    old(self).dec_half().keystream_index(),
                    4, 40,
                ) && final(self).dec_half().chain_byte() == dec_prev_after(
                    raw,
                    old(self).dec_half().chain_byte(),
                ),
    {
        self.decrypt.read_and_decrypt_server_header(reader)
    }

    /// Convenience wrapper for
    /// [`DecrypterHalf::read_and_decrypt_client_header`]; the encrypter
    /// half's state is untouched.
    pub fn read_and_decrypt_client_header<R: std::io::Read>(&mut self, reader: R) -> (r: Result<
        ClientHeader,
        std::io::Error,
    >)
        requires
            old(self).wf(),
        ensures
            final(self).wf(),
            final(self).enc_half() == old(self).enc_half(),
            final(self).dec_half().key_seq() == old(self).dec_half().key_seq(),
            r is Err ==> final(self).dec_half() == old(self).dec_half(),
            r matches Ok(h) ==> exists|raw: Seq<u8>|
                raw.len() == 6 && h == client_header_of(
                    #[trigger] dec_seq(
                        raw,
                        old(self).dec_half().key_seq(),
                        old(self).dec_half().keystream_index(),
                        old(self).dec_half().chain_byte(),
                    ),
                ) && final(self).dec_half().keystream_index() == idx_after(
                    old(self).dec_half().keystream_index(),
                    6, 40,
                ) && final(self).dec_half().chain_byte() == dec_prev_after(
                    raw,
                    old(self).dec_half().chain_byte(),
                ),
    {
        self.decrypt.read_and_decrypt_client_header(reader)
    }

    /// Decrypts `data` in place through the decrypter half; the encrypter
    /// half's state is untouched.
    pub fn decrypt(&mut self, data: &mut Vec<u8>)
        requires
            old(self).wf(),
        ensures
            final(self).wf(),
            final(self).enc_half() == old(self).enc_half(),
            final(self).dec_half().key_seq() == old(self).dec_half().key_seq(),
            final(data)@ == dec_seq(
                old(data)@,
                old(self).dec_half().key_seq(),
                old(self).dec_half().keystream_index(),
                old(self).dec_half().chain_byte(),
            ),
            final(self).dec_half().keystream_index() == idx_after(
                old(self).dec_half().keystream_index(),
                old(data)@.len() as int, 40,
            ),
            final(self).dec_half().chain_byte() == dec_prev_after(
                old(data)@,
                old(self).dec_half().chain_byte(),
            ),
    {
        self.decrypt.decrypt(data);
    }

    /// Convenience wrapper for [`DecrypterHalf::decrypt_server_header`];
    /// the encrypter half's state is untouched.
    pub fn decrypt_server_header(&mut self, data: [u8; 4]) -> (r: ServerHeader)
        requires
            old(self).wf(),
        ensures
            final(self).wf(),
            final(self).enc_half() == old(self).enc_half(),
            final(self).dec_half().key_seq() == old(self).dec_half().key_seq(),
            r == server_header_of(
                dec_seq(
                    data@,
                    old(self).dec_half().key_seq(),
                    old(self).dec_half().keystream_index(),
                    old(self).dec_half().chain_byte(),
                ),
            ),
            final(self).dec_half().keystream_index() == idx_after(
                old(self).dec_half().keystream_index(),
                4, 40,
            ),
            final(self).dec_half().chain_byte() == dec_prev_after(
                data@,
                old(self).dec_half().chain_byte(),
            ),
    {
        self.decrypt.decrypt_server_header(data)
    }

    /// Convenience wrapper for [`DecrypterHalf::decrypt_client_header`];
    /// the encrypter half's state is untouched.
    pub fn decrypt_client_header(&mut self, data: [u8; 6]) -> (r: ClientHeader)
        requires
            old(self).wf(),
        ensures
            final(self).wf(),
            final(self).enc_half() == old(self).enc_half(),
            final(self).dec_half().key_seq() == old(self).dec_half().key_seq(),
            r == client_header_of(
                dec_seq(
                    data@,
                    old(self).dec_half().key_seq(),
                    old(self).dec_half().keystream_index(),
                    old(self).dec_half().chain_byte(),
                ),
            ),
            final(self).dec_half().keystream_index() == idx_after(
                old(self).dec_half().keystream_index(),
                6, 40,
            ),
            final(self).dec_half().chain_byte() == dec_prev_after(
                data@,
                old(self).dec_half().chain_byte(),
            ),
    {
        self.decrypt.decrypt_client_header(data)
    }

    /// Splits this object into its two independently owned halves, for use
    /// with split connections.
    ///
    /// The [`EncrypterHalf`] is intended for the write half of the
    /// connection and the [`DecrypterHalf`] for the read half. The halves
    /// hold disjoint state and never perturb each other.
    pub fn split(self) -> (r: (EncrypterHalf, DecrypterHalf))
        ensures
            r.0 == self.enc_half(),
            r.1 == self.dec_half(),
    {
        (self.encrypt, self.decrypt)
    }

    /// A fresh cipher: both halves use the session key as their keystream,
    /// with keystream index zero and chaining byte zero.
    ///
    /// The handshake through [`ProofSeed`] is the intended constructor
    /// path; this is the shared key-derivation rule both of its terminal
    /// operations use.
    pub fn new(session_key: [u8; 40]) -> (r: Self)
        ensures
            is_fresh_crypto(r, session_key@),
    {
        HeaderCrypto {
            decrypt: DecrypterHalf::new(session_key),
            encrypt: EncrypterHalf::new(session_key),
        }
    }
}

/// The message whose SHA-1 digest is the world-server proof: the username,
/// four zero bytes, the client seed, the server seed, and the session key.
pub open spec fn proof_message(
    username: Seq<u8>,
    session_key: Seq<u8>,
    server_seed: u32,
    client_seed: u32,
) -> Seq<u8> {
    username + seq![0u8, 0u8, 0u8, 0u8] + le32_bytes(client_seed) + le32_bytes(server_seed)
        + session_key
}

/// The proof value both peers compute to show knowledge of the session key
/// and both seeds.
pub open spec fn world_proof(
    username: Seq<u8>,
    session_key: Seq<u8>,
    server_seed: u32,
    client_seed: u32,
) -> Seq<u8> {
    sha1_of(proof_message(username, session_key, server_seed, client_seed))
}

/// Appends the four little-endian bytes of `x`.
fn push_le32(v: &mut Vec<u8>, x: u32)
    ensures
        final(v)@ == old(v)@ + le32_bytes(x),
{
    v.push((x % 256) as u8);
    v.push(((x / 256) % 256) as u8);
    v.push(((x / 65536) % 256) as u8);
    v.push(((x / 16777216) % 256) as u8);
    proof {
        assert(v@ =~= old(v)@ + le32_bytes(x));
    }
}

/// Computes the world-server proof: the SHA-1 digest of the composed
/// message of username, zero pad, both seeds, and the session key.
pub(crate) fn calculate_world_server_proof(
    username: &NormalizedString,
    session_key: &[u8; 40],
    server_seed: u32,
    client_seed: u32,
) -> (r: [u8; 20])
    ensures
        r@ == world_proof(username@, session_key@, server_seed, client_seed),
{
    let mut message: Vec<u8> = username.as_bytes_vec();
    message.push(0);
    message.push(0);
    message.push(0);
    message.push(0);
    proof {
        assert(message@ =~= username@ + seq![0u8, 0u8, 0u8, 0u8]);
    }
    push_le32(&mut message, client_seed);
    push_le32(&mut message, server_seed);
    let ghost before_key = message@;
    let mut i: usize = 0;
    while i < 40
        invariant
            i <= 40,
            message@ == before_key + session_key@.subrange(0, i as int),
        decreases 40 - i,
    {
        message.push(session_key[i]);
        proof {
            assert(message@ =~= before_key + session_key@.subrange(0, i + 1));
        }
        i = i + 1;
    }
    proof {
        assert(session_key@.subrange(0, 40) =~= session_key@);
        assert(message@ =~= proof_message(username@, session_key@, server_seed, client_seed));
    }
    sha1_digest(&message)
}

/// Compares two proofs over their full width, without an early exit, as a
/// security comparison should be.
fn proofs_match(a: &[u8; 20], b: &[u8; 20]) -> (r: bool)
    ensures
        r <==> a@ == b@,
{
    let mut diff: u8 = 0;
    let mut i: usize = 0;
    while i < 20
        invariant
            i <= 20,
            diff == 0 <==> (forall|j: int| 0 <= j < i ==> a@[j] == b@[j]),
        decreases 20 - i,
    {
        let x = a[i] ^ b[i];
        proof {
            let d = diff;
            assert((d | x) == 0 <==> d == 0 && x == 0) by (bit_vector);
            let ai = a@[i as int];
            let bi = b@[i as int];
            assert((ai ^ bi) == 0 <==> ai == bi) by (bit_vector);
        }
        diff = diff | x;
        i = i + 1;
    }
    if diff == 0 {
        proof {
            assert(a@ =~= b@);
        }
        true
    } else {
        false
    }
}

/// Random seed part of the calculation that verifies that a client knows
/// the session key.
///
/// Consumed exactly once, by [`ProofSeed::into_server_header_crypto`] on
/// the server or [`ProofSeed::into_client_header_crypto`] on the client:
/// the only paths that produce a [`HeaderCrypto`].
#[derive(Debug, Clone, Copy)]
pub struct ProofSeed {
    seed: u32,
}

impl ProofSeed {
    /// The 32-bit seed value this object contributes to the handshake.
    pub closed spec fn spec_seed(&self) -> u32 {
        self.seed
    }

    /// Creates a new, random, seed.
    pub fn new() -> Self {
        ProofSeed { seed: random_u32() }
    }

    /// Creates a seed with a known value, for deterministic handshakes.
    pub fn from_specific_seed(server_seed: u32) -> (r: Self)
        ensures
            r.spec_seed() == server_seed,
    {
        ProofSeed { seed: server_seed }
    }

    /// The seed value to send to the peer at the start of the handshake.
    pub fn seed(&self) -> (r: u32)
        ensures
            r == self.spec_seed(),
    {
        self.seed
    }

    /// Client path: computes the proof to send to the server and derives
    /// the header cipher.
    ///
    /// Cannot fail; the cipher is not valid until the server has accepted
    /// the proof.
    pub fn into_client_header_crypto(
        self,
        username: &NormalizedString,
        session_key: [u8; 40],
        server_seed: u32,
    ) -> (r: ([u8; 20], HeaderCrypto))
        ensures
            r.0@ == world_proof(username@, session_key@, server_seed, self.spec_seed()),
            is_fresh_crypto(r.1, session_key@),
    {
        let client_proof = calculate_world_server_proof(
            username,
            &session_key,
            server_seed,
            self.seed,
        );
        let crypto = HeaderCrypto::new(session_key);
        (client_proof, crypto)
    }

    /// Server path: asserts that the client knows the session key.
    ///
    /// Succeeds, handing out the header cipher, exactly when
    /// `client_proof` equals the proof computed here from the username,
    /// the session key and both seeds; fails with [`MatchProofsError`]
    /// carrying both values otherwise.
    pub fn into_server_header_crypto(
        self,
        username: &NormalizedString,
        session_key: [u8; 40],
        client_proof: [u8; 20],
        client_seed: u32,
    ) -> (r: Result<HeaderCrypto, MatchProofsError>)
        ensures
            ({
                let expected = world_proof(username@, session_key@, self.spec_seed(), client_seed);
                match r {
                    Ok(c) => client_proof@ == expected && is_fresh_crypto(c, session_key@),
                    Err(e) => client_proof@ != expected && e.client_proof@ == client_proof@
                        && e.server_proof@ == expected,
                }
            }),
    {
        let server_proof = calculate_world_server_proof(
            username,
            &session_key,
            self.seed,
            client_seed,
        );
        if !proofs_match(&server_proof, &client_proof) {
            return Err(MatchProofsError { client_proof, server_proof });
        }
        Ok(HeaderCrypto::new(session_key))
    }
}

impl Default for ProofSeed {
    /// Creates a new, random, seed, as [`ProofSeed::new`] does.
    fn default() -> Self {
        ProofSeed::new()
    }
}

/// Compares two keystream keys byte for byte.
fn keys_equal(a: &[u8; 40], b: &[u8; 40]) -> (r: bool)
    ensures
        r <==> a@ == b@,
{
    let mut i: usize = 0;
    while i < 40
        invariant
            i <= 40,
            forall|j: int| 0 <= j < i ==> a@[j] == b@[j],
        decreases 40 - i,
    {
        if a[i] != b[i] {
            proof {
                assert(a@[i as int] != b@[i as int]);
            }
            return false;
        }
        i = i + 1;
    }
    proof {
        assert(a@ =~= b@);
    }
    true
}

/// Header codec correctness for server headers: encoding a `(size,
/// opcode)` pair, encrypting it, and decrypting and decoding it with the
/// same key and starting state recovers the exact pair, for all 16-bit
/// values of both fields.
pub proof fn lemma_server_header_codec(size: u16, opcode: u16, key: Seq<u8>, idx: int, prev: u8)
    requires
        key.len() > 0,
        0 <= idx < key.len(),
    ensures
        server_header_of(
            dec_seq(enc_seq(server_header_bytes(size, opcode), key, idx, prev), key, idx, prev),
        ) == (ServerHeader { size, opcode }),
{
    lemma_round_trip(server_header_bytes(size, opcode), key, idx, prev);
    assert(be16_of((size / 256) as u8, (size % 256) as u8) == size) by (bit_vector);
    assert(le16_of((opcode % 256) as u8, (opcode / 256) as u8) == opcode) by (bit_vector);
}

/// Header codec correctness for client headers: encoding a `(size,
/// opcode)` pair, encrypting it, and decrypting and decoding it with the
/// same key and starting state recovers the exact pair, for all values of
/// both fields.
pub proof fn lemma_client_header_codec(size: u16, opcode: u32, key: Seq<u8>, idx: int, prev: u8)
    requires
        key.len() > 0,
        0 <= idx < key.len(),
    ensures
        client_header_of(
            dec_seq(enc_seq(client_header_bytes(size, opcode), key, idx, prev), key, idx, prev),
        ) == (ClientHeader { size, opcode }),
{
    lemma_round_trip(client_header_bytes(size, opcode), key, idx, prev);
    assert(be16_of((size / 256) as u8, (size % 256) as u8) == size) by (bit_vector);
    assert(le32_of(
        (opcode % 256) as u8,
        ((opcode / 256) % 256) as u8,
        ((opcode / 65536) % 256) as u8,
        ((opcode / 16777216) % 256) as u8,
    ) == opcode) by (bit_vector);
}

/// Handshake symmetry: the proof the client path transmits,
/// `world_proof(username, session_key, server_seed, client_seed)`, is the
/// exact value the server path accepts for the same inputs; and the fresh
/// ciphers the two paths hand out agree cross-wise — each peer's encrypter
/// matches the other peer's decrypter in key and starting state, so every
/// stream one side encrypts the other side decrypts back to the original.
pub proof fn lemma_handshake_symmetry(
    client_crypto: HeaderCrypto,
    server_crypto: HeaderCrypto,
    session_key: Seq<u8>,
)
    requires
        is_fresh_crypto(client_crypto, session_key),
        is_fresh_crypto(server_crypto, session_key),
    ensures
        client_crypto.enc_half().key_seq() == server_crypto.dec_half().key_seq(),
        client_crypto.enc_half().keystream_index() == server_crypto.dec_half().keystream_index(),
        client_crypto.enc_half().chain_byte() == server_crypto.dec_half().chain_byte(),
        client_crypto.dec_half().key_seq() == server_crypto.enc_half().key_seq(),
        client_crypto.dec_half().keystream_index() == server_crypto.enc_half().keystream_index(),
        client_crypto.dec_half().chain_byte() == server_crypto.enc_half().chain_byte(),
        forall|data: Seq<u8>|
            #[trigger] dec_seq(
                enc_seq(data, session_key, 0, 0),
                session_key,
                0,
                0,
            ) == data,
{
    assert forall|data: Seq<u8>|
        #[trigger] dec_seq(
            enc_seq(data, session_key, 0, 0),
            session_key,
            0,
            0,
        ) == data by {
        lemma_round_trip(data, session_key, 0, 0);
    }
}

/// Recombination: the halves split from one well-formed cipher hold the
/// same keystream key, so `unsplit` with the correct counterpart succeeds;
/// and a cipher whose halves equal the original's halves is the original,
/// so the recombined object behaves identically in every later operation.
pub proof fn lemma_recombination(c: HeaderCrypto, recombined: HeaderCrypto)
    requires
        c.wf(),
        recombined.enc_half() == c.enc_half(),
        recombined.dec_half() == c.dec_half(),
    ensures
        c.enc_half().key_seq() == c.dec_half().key_seq(),
        recombined == c,
{
}

} // verus!
