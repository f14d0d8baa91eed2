//! The per-byte keystream transform shared by every header operation.
//!
//! The cipher key is used as a circular keystream. Each byte is chained on
//! the previously seen ciphertext byte, so the transform of a stream is
//! only correct when every byte passes through in order. The two protocol
//! generations share this arithmetic unchanged and differ only in where
//! the key comes from — the session key itself, or a digest derived from
//! it — and therefore in the key's length, which is why the model takes
//! the key as a sequence and wraps at its length.
//!
//! The spec functions [`enc_seq`] and [`dec_seq`] are the mathematical
//! model of the transform; [`encrypt`] and [`decrypt`] are the executable
//! core proved against it.

use vstd::arithmetic::div_mod::lemma_add_mod_noop_right;
use vstd::arithmetic::div_mod::lemma_small_mod;
use vstd::prelude::*;

verus! {

/// One encrypt step: XOR the plaintext byte with the keystream byte, then
/// add the previous ciphertext byte, wrapping modulo 256.
pub open spec fn enc_byte(p: u8, k: u8, prev: u8) -> u8 {
    (((p ^ k) + prev) % 256) as u8
}

/// One decrypt step: subtract the previous ciphertext byte, wrapping modulo
/// 256, then XOR with the keystream byte. The exact inverse of [`enc_byte`].
pub open spec fn dec_byte(c: u8, k: u8, prev: u8) -> u8 {
    (((c - prev) % 256) as u8) ^ k
}

/// The keystream index after `n` more bytes have been processed with a key
/// of length `len`.
pub open spec fn idx_after(idx: int, n: int, len: int) -> int {
    (idx + n) % len
}

/// Ciphertext produced by encrypting `data` with key `key`, starting at
/// keystream index `idx` with chaining byte `prev`. Each step chains on the
/// ciphertext byte just produced.
pub open spec fn enc_seq(data: Seq<u8>, key: Seq<u8>, idx: int, prev: u8) -> Seq<u8>
    decreases data.len(),
{
    if data.len() == 0 {
        Seq::empty()
    } else {
        let c = enc_byte(data[0], key[idx], prev);
        seq![c] + enc_seq(data.subrange(1, data.len() as int), key, (idx + 1) % (
        key.len() as int), c)
    }
}

/// Plaintext produced by decrypting `data` with key `key`, starting at
/// keystream index `idx` with chaining byte `prev`. Each step chains on the
/// ciphertext byte just consumed.
pub open spec fn dec_seq(data: Seq<u8>, key: Seq<u8>, idx: int, prev: u8) -> Seq<u8>
    decreases data.len(),
{
    if data.len() == 0 {
        Seq::empty()
    } else {
        let p = dec_byte(data[0], key[idx], prev);
        seq![p] + dec_seq(data.subrange(1, data.len() as int), key, (idx + 1) % (
        key.len() as int), data[0])
    }
}

/// The chaining byte after encrypting `data`: the last ciphertext byte
/// produced, or `prev` itself when nothing was processed.
pub open spec fn enc_prev_after(data: Seq<u8>, key: Seq<u8>, idx: int, prev: u8) -> u8 {
    if data.len() == 0 {
        prev
    } else {
        enc_seq(data, key, idx, prev).last()
    }
}

/// The chaining byte after decrypting `data`: the last ciphertext byte
/// consumed, or `prev` itself when nothing was processed.
pub open spec fn dec_prev_after(data: Seq<u8>, prev: u8) -> u8 {
    if data.len() == 0 {
        prev
    } else {
        data.last()
    }
}

/// Encrypting preserves length.
pub proof fn lemma_enc_seq_len(data: Seq<u8>, key: Seq<u8>, idx: int, prev: u8)
    ensures
        enc_seq(data, key, idx, prev).len() == data.len(),
    decreases data.len(),
{
    if data.len() > 0 {
        let c = enc_byte(data[0], key[idx], prev);
        lemma_enc_seq_len(
            data.subrange(1, data.len() as int),
            key,
            (idx + 1) % (key.len() as int),
            c,
        );
    }
}

/// Decrypting preserves length.
pub proof fn lemma_dec_seq_len(data: Seq<u8>, key: Seq<u8>, idx: int, prev: u8)
    ensures
        dec_seq(data, key, idx, prev).len() == data.len(),
    decreases data.len(),
{
    if data.len() > 0 {
        lemma_dec_seq_len(
            data.subrange(1, data.len() as int),
            key,
            (idx + 1) % (key.len() as int),
            data[0],
        );
    }
}

/// One decrypt step undoes one encrypt step made with the same keystream
/// byte and chaining byte.
pub proof fn lemma_byte_round_trip(p: u8, k: u8, prev: u8)
    ensures
        dec_byte(enc_byte(p, k, prev), k, prev) == p,
{
    assert(dec_byte(enc_byte(p, k, prev), k, prev) == p) by (bit_vector);
}

/// Stepping the wrapped keystream index once more agrees with wrapping the
/// unwrapped count.
proof fn lemma_idx_step(idx: int, n: int, len: int)
    requires
        0 <= idx < len,
        0 <= n,
    ensures
        (idx_after(idx, n, len) + 1) % len == idx_after(idx, n + 1, len),
{
    lemma_add_mod_noop_right(1, idx + n, len);
}

/// Round trip: decrypting the encrypter's output, byte for byte from the
/// same starting state, reproduces the plaintext exactly.
pub proof fn lemma_round_trip(data: Seq<u8>, key: Seq<u8>, idx: int, prev: u8)
    requires
        key.len() > 0,
        0 <= idx < key.len(),
    ensures
        dec_seq(enc_seq(data, key, idx, prev), key, idx, prev) == data,
    decreases data.len(),
{
    let len = key.len() as int;
    let e = enc_seq(data, key, idx, prev);
    lemma_enc_seq_len(data, key, idx, prev);
    if data.len() == 0 {
        assert(dec_seq(e, key, idx, prev) =~= data);
    } else {
        let c0 = enc_byte(data[0], key[idx], prev);
        let tail = data.subrange(1, data.len() as int);
        let e_tail = enc_seq(tail, key, (idx + 1) % len, c0);
        lemma_enc_seq_len(tail, key, (idx + 1) % len, c0);
        assert(e == seq![c0] + e_tail);
        assert(e[0] == c0);
        assert(e.subrange(1, e.len() as int) =~= e_tail);
        lemma_byte_round_trip(data[0], key[idx], prev);
        lemma_round_trip(tail, key, (idx + 1) % len, c0);
        assert(dec_seq(e, key, idx, prev) == seq![dec_byte(c0, key[idx], prev)] + dec_seq(
            e_tail,
            key,
            (idx + 1) % len,
            c0,
        ));
        assert(dec_seq(e, key, idx, prev) =~= data);
    }
}

/// Chunked processing: encrypting `a` and then `b` from the threaded state
/// is the same as encrypting their concatenation in one call.
pub proof fn lemma_enc_seq_append(a: Seq<u8>, b: Seq<u8>, key: Seq<u8>, idx: int, prev: u8)
    requires
        key.len() > 0,
        0 <= idx < key.len(),
    ensures
        enc_seq(a + b, key, idx, prev) == enc_seq(a, key, idx, prev) + enc_seq(
            b,
            key,
            idx_after(idx, a.len() as int, key.len() as int),
            enc_prev_after(a, key, idx, prev),
        ),
    decreases a.len(),
{
    let len = key.len() as int;
    if a.len() == 0 {
        assert(a + b =~= b);
        assert(idx_after(idx, 0, len) == idx) by {
            lemma_small_mod(idx as nat, len as nat);
        }
        assert(enc_seq(a, key, idx, prev) =~= Seq::<u8>::empty());
        assert(enc_seq(a, key, idx, prev) + enc_seq(b, key, idx, prev) =~= enc_seq(
            b,
            key,
            idx,
            prev,
        ));
    } else {
        let c0 = enc_byte(a[0], key[idx], prev);
        let a_tail = a.subrange(1, a.len() as int);
        assert((a + b)[0] == a[0]);
        assert((a + b).subrange(1, (a + b).len() as int) =~= a_tail + b);
        lemma_enc_seq_append(a_tail, b, key, (idx + 1) % len, c0);
        assert(idx_after((idx + 1) % len, a_tail.len() as int, len) == idx_after(
            idx,
            a.len() as int,
            len,
        )) by {
            lemma_add_mod_noop_right(a.len() as int - 1, idx + 1, len);
        }
        assert(enc_prev_after(a_tail, key, (idx + 1) % len, c0) == enc_prev_after(
            a,
            key,
            idx,
            prev,
        )) by {
            lemma_enc_seq_len(a_tail, key, (idx + 1) % len, c0);
            if a_tail.len() == 0 {
                assert(enc_seq(a, key, idx, prev) =~= seq![c0]);
            } else {
                assert(enc_seq(a, key, idx, prev).last() == enc_seq(
                    a_tail,
                    key,
                    (idx + 1) % len,
                    c0,
                ).last());
            }
        }
        assert(enc_seq(a + b, key, idx, prev) =~= enc_seq(a, key, idx, prev) + enc_seq(
            b,
            key,
            idx_after(idx, a.len() as int, len),
            enc_prev_after(a, key, idx, prev),
        ));
    }
}

/// Chunked processing: decrypting `a` and then `b` from the threaded state
/// is the same as decrypting their concatenation in one call.
pub proof fn lemma_dec_seq_append(a: Seq<u8>, b: Seq<u8>, key: Seq<u8>, idx: int, prev: u8)
    requires
        key.len() > 0,
        0 <= idx < key.len(),
    ensures
        dec_seq(a + b, key, idx, prev) == dec_seq(a, key, idx, prev) + dec_seq(
            b,
            key,
            idx_after(idx, a.len() as int, key.len() as int),
            dec_prev_after(a, prev),
        ),
    decreases a.len(),
{
    let len = key.len() as int;
    if a.len() == 0 {
        assert(a + b =~= b);
        assert(idx_after(idx, 0, len) == idx) by {
            lemma_small_mod(idx as nat, len as nat);
        }
        assert(dec_seq(a, key, idx, prev) =~= Seq::<u8>::empty());
        assert(dec_seq(a, key, idx, prev) + dec_seq(b, key, idx, prev) =~= dec_seq(
            b,
            key,
            idx,
            prev,
        ));
    } else {
        let a_tail = a.subrange(1, a.len() as int);
        assert((a + b)[0] == a[0]);
        assert((a + b).subrange(1, (a + b).len() as int) =~= a_tail + b);
        lemma_dec_seq_append(a_tail, b, key, (idx + 1) % len, a[0]);
        assert(idx_after((idx + 1) % len, a_tail.len() as int, len) == idx_after(
            idx,
            a.len() as int,
            len,
        )) by {
            lemma_add_mod_noop_right(a.len() as int - 1, idx + 1, len);
        }
        assert(dec_prev_after(a_tail, a[0]) == dec_prev_after(a, prev)) by {
            if a_tail.len() > 0 {
                assert(a_tail.last() == a.last());
            }
        }
        assert(dec_seq(a + b, key, idx, prev) =~= dec_seq(a, key, idx, prev) + dec_seq(
            b,
            key,
            idx_after(idx, a.len() as int, len),
            dec_prev_after(a, prev),
        ));
    }
}

/// Encrypts `data` in place: each byte is XORed with the keystream byte and
/// has the previous ciphertext byte added, advancing the shared state.
#[verifier::loop_isolation(false)]
pub fn encrypt(data: &mut Vec<u8>, key: &[u8], index: &mut u8, previous_value: &mut u8)
    requires
        0 < key@.len() <= 255,
        *old(index) < key@.len(),
    ensures
        final(data)@ == enc_seq(old(data)@, key@, *old(index) as int, *old(previous_value)),
        *final(index) as int == idx_after(
            *old(index) as int,
            old(data)@.len() as int,
            key@.len() as int,
        ),
        *final(previous_value) == enc_prev_after(
            old(data)@,
            key@,
            *old(index) as int,
            *old(previous_value),
        ),
{
    let ghost data0 = old(data)@;
    let ghost idx0 = *old(index) as int;
    let ghost prev0 = *old(previous_value);
    let ghost klen = key@.len() as int;
    let n = data.len();
    proof {
        assert(data@.subrange(0, 0) =~= Seq::<u8>::empty());
        assert(data0.subrange(0, n as int) =~= data0);
        assert(Seq::<u8>::empty() + enc_seq(data0, key@, idx0, prev0) =~= enc_seq(
            data0,
            key@,
            idx0,
            prev0,
        ));
        lemma_small_mod(idx0 as nat, klen as nat);
    }
    let mut i: usize = 0;
    while i < n
        invariant
            i <= n,
            data@.len() == n,
            *index < key@.len(),
            *index as int == idx_after(idx0, i as int, klen),
            *previous_value == (if i == 0 {
                prev0
            } else {
                data@[i - 1]
            }),
            data@.subrange(i as int, n as int) == data0.subrange(i as int, n as int),
            enc_seq(data0, key@, idx0, prev0) == data@.subrange(0, i as int) + enc_seq(
                data0.subrange(i as int, n as int),
                key@,
                *index as int,
                *previous_value,
            ),
        decreases n - i,
    {
        let ghost pre = data@;
        let ghost suffix = data0.subrange(i as int, n as int);
        let ghost cur_idx = *index as int;
        let ghost cur_prev = *previous_value;
        proof {
            assert(data@.subrange(i as int, n as int)[0] == data0.subrange(i as int, n as int)[0]);
            assert(data@[i as int] == data0[i as int]);
        }
        let p = data[i];
        let c = (p ^ key[*index as usize]).wrapping_add(*previous_value);
        data.set(i, c);
        *previous_value = c;
        *index = ((*index as usize + 1) % key.len()) as u8;
        i = i + 1;
        proof {
            assert(c == enc_byte(p, key@[cur_idx], cur_prev));
            lemma_idx_step(idx0, i as int - 1, klen);
            assert(suffix[0] == p);
            assert(suffix.subrange(1, suffix.len() as int) =~= data0.subrange(
                i as int,
                n as int,
            ));
            assert(enc_seq(suffix, key@, cur_idx, cur_prev) == seq![c] + enc_seq(
                data0.subrange(i as int, n as int),
                key@,
                *index as int,
                c,
            ));
            assert(data@.subrange(i as int, n as int) =~= data0.subrange(i as int, n as int));
            assert(data@.subrange(0, i as int) =~= pre.subrange(0, i as int - 1) + seq![c]);
            assert(pre.subrange(0, i as int - 1) + (seq![c] + enc_seq(
                data0.subrange(i as int, n as int),
                key@,
                *index as int,
                c,
            )) =~= data@.subrange(0, i as int) + enc_seq(
                data0.subrange(i as int, n as int),
                key@,
                *index as int,
                c,
            ));
        }
    }
    proof {
        assert(data@.subrange(0, n as int) =~= data@);
        assert(data0.subrange(n as int, n as int) =~= Seq::<u8>::empty());
        assert(data@ == enc_seq(data0, key@, idx0, prev0));
        lemma_enc_seq_len(data0, key@, idx0, prev0);
        if n > 0 {
            assert(*previous_value == data@[n - 1]);
            assert(data@[n - 1] == enc_seq(data0, key@, idx0, prev0).last());
        }
    }
}

/// Decrypts `data` in place: each byte has the previous ciphertext byte
/// subtracted and is XORed with the keystream byte, advancing the shared
/// state.
#[verifier::loop_isolation(false)]
pub fn decrypt(data: &mut Vec<u8>, key: &[u8], index: &mut u8, previous_value: &mut u8)
    requires
        0 < key@.len() <= 255,
        *old(index) < key@.len(),
    ensures
        final(data)@ == dec_seq(old(data)@, key@, *old(index) as int, *old(previous_value)),
        *final(index) as int == idx_after(
            *old(index) as int,
            old(data)@.len() as int,
            key@.len() as int,
        ),
        *final(previous_value) == dec_prev_after(old(data)@, *old(previous_value)),
{
    let ghost data0 = old(data)@;
    let ghost idx0 = *old(index) as int;
    let ghost prev0 = *old(previous_value);
    let ghost klen = key@.len() as int;
    let n = data.len();
    proof {
        assert(data@.subrange(0, 0) =~= Seq::<u8>::empty());
        assert(data0.subrange(0, n as int) =~= data0);
        assert(Seq::<u8>::empty() + dec_seq(data0, key@, idx0, prev0) =~= dec_seq(
            data0,
            key@,
            idx0,
            prev0,
        ));
        lemma_small_mod(idx0 as nat, klen as nat);
    }
    let mut i: usize = 0;
    while i < n
        invariant
            i <= n,
            data@.len() == n,
            *index < key@.len(),
            *index as int == idx_after(idx0, i as int, klen),
            *previous_value == (if i == 0 {
                prev0
            } else {
                data0[i - 1]
            }),
            data@.subrange(i as int, n as int) == data0.subrange(i as int, n as int),
            dec_seq(data0, key@, idx0, prev0) == data@.subrange(0, i as int) + dec_seq(
                data0.subrange(i as int, n as int),
                key@,
                *index as int,
                *previous_value,
            ),
        decreases n - i,
    {
        let ghost pre = data@;
        let ghost suffix = data0.subrange(i as int, n as int);
        let ghost cur_idx = *index as int;
        let ghost cur_prev = *previous_value;
        proof {
            assert(data@.subrange(i as int, n as int)[0] == data0.subrange(i as int, n as int)[0]);
            assert(data@[i as int] == data0[i as int]);
        }
        let c = data[i];
        let u = c.wrapping_sub(*previous_value) ^ key[*index as usize];
        data.set(i, u);
        *previous_value = c;
        *index = ((*index as usize + 1) % key.len()) as u8;
        i = i + 1;
        proof {
            assert(u == dec_byte(c, key@[cur_idx], cur_prev));
            lemma_idx_step(idx0, i as int - 1, klen);
            assert(suffix[0] == c);
            assert(suffix.subrange(1, suffix.len() as int) =~= data0.subrange(
                i as int,
                n as int,
            ));
            assert(dec_seq(suffix, key@, cur_idx, cur_prev) == seq![u] + dec_seq(
                data0.subrange(i as int, n as int),
                key@,
                *index as int,
                c,
            ));
            assert(data@.subrange(i as int, n as int) =~= data0.subrange(i as int, n as int));
            assert(data@.subrange(0, i as int) =~= pre.subrange(0, i as int - 1) + seq![u]);
            assert(pre.subrange(0, i as int - 1) + (seq![u] + dec_seq(
                data0.subrange(i as int, n as int),
                key@,
                *index as int,
                c,
            )) =~= data@.subrange(0, i as int) + dec_seq(
                data0.subrange(i as int, n as int),
                key@,
                *index as int,
                c,
            ));
        }
    }
    proof {
        assert(data@.subrange(0, n as int) =~= data@);
        assert(data0.subrange(n as int, n as int) =~= Seq::<u8>::empty());
        assert(data@ == dec_seq(data0, key@, idx0, prev0));
        if n > 0 {
            assert(*previous_value == data0[n - 1]);
        }
    }
}

} // verus!
