use vstd::prelude::*;
use vstd::slice::slice_to_vec;
use crate::error::{Error, Result, msg};
use crate::obfs::obfsutil::{md5_digest, spec_md5, rand_bytes};
pub use super::method::{CipherMethod, cipher_name, cipher_key_len, cipher_iv_len, cipher_iv_prepended};
pub use super::table::{TableCipher, encryption_table, decryption_table, substitute, lemma_table_roundtrip};
use super::primitives::{aes128_encrypt_block, aes192_encrypt_block, aes256_encrypt_block,
    camellia128_encrypt_block, camellia192_encrypt_block, camellia256_encrypt_block, blowfish_encrypt_block,
    cast5_encrypt_block, des_encrypt_block, aes128_block, aes192_block, aes256_block, camellia128_block,
    camellia192_block, camellia256_block, blowfish_block, cast5_block, des_block, aes128_ctr_keystream,
    aes192_ctr_keystream, aes256_ctr_keystream, salsa20_keystream, chacha20_legacy_keystream,
    chacha20_ietf_keystream, rc4_keystream, aes128_ctr_xor, aes192_ctr_xor, aes256_ctr_xor, salsa20_xor,
    chacha20_legacy_xor, chacha20_ietf_xor, rc4_xor, CHACHA_STREAM_LIMIT};

verus! {

/// Methods whose output is the input xored with a keystream.
pub open spec fn is_keystream(m: CipherMethod) -> bool {
    m is Rc4 || m is Rc4Md5 || m is Rc4Md5_6 || m is Aes128Ctr || m is Aes192Ctr || m is Aes256Ctr
        || m is Salsa20 || m is ChaCha20 || m is ChaCha20Ietf
}

/// Methods built on RC4.
pub open spec fn is_rc4(m: CipherMethod) -> bool {
    m is Rc4 || m is Rc4Md5 || m is Rc4Md5_6
}

/// Methods that run a block cipher in cipher feedback mode.
pub open spec fn is_cfb(m: CipherMethod) -> bool {
    m is Aes128Cfb || m is Aes192Cfb || m is Aes256Cfb || m is Camellia128Cfb || m is Camellia192Cfb
        || m is Camellia256Cfb || m is BfCfb || m is Cast5Cfb || m is DesCfb
}

/// Methods that are named but have no implementation.
pub open spec fn is_unsupported(m: CipherMethod) -> bool {
    m is IdeaCfb || m is Rc2Cfb || m is SeedCfb
}

/// The key a feedback-mode block cipher is built from: the method key cut to the key size.
pub open spec fn cfb_key(m: CipherMethod, key: Seq<u8>) -> Seq<u8> {
    if key.len() <= cipher_key_len(m) {
        key
    } else {
        key.take(cipher_key_len(m) as int)
    }
}

/// Whether the block cipher of a feedback-mode method accepts `k`.
pub open spec fn block_key_ok(m: CipherMethod, k: Seq<u8>) -> bool {
    match m {
        CipherMethod::Aes128Cfb | CipherMethod::Camellia128Cfb => k.len() == 16,
        CipherMethod::Aes192Cfb | CipherMethod::Camellia192Cfb => k.len() == 24,
        CipherMethod::Aes256Cfb | CipherMethod::Camellia256Cfb => k.len() == 32,
        CipherMethod::BfCfb => 4 <= k.len() <= 56,
        CipherMethod::Cast5Cfb => 5 <= k.len() <= 16,
        CipherMethod::DesCfb => k.len() == 8,
        _ => false,
    }
}

/// The block the cipher of a feedback-mode method encrypts `b` to under `k`.
pub open spec fn block_encrypt(m: CipherMethod, k: Seq<u8>, b: Seq<u8>) -> Seq<u8> {
    match m {
        CipherMethod::Aes128Cfb => aes128_encrypt_block(k, b),
        CipherMethod::Aes192Cfb => aes192_encrypt_block(k, b),
        CipherMethod::Aes256Cfb => aes256_encrypt_block(k, b),
        CipherMethod::Camellia128Cfb => camellia128_encrypt_block(k, b),
        CipherMethod::Camellia192Cfb => camellia192_encrypt_block(k, b),
        CipherMethod::Camellia256Cfb => camellia256_encrypt_block(k, b),
        CipherMethod::BfCfb => blowfish_encrypt_block(k, b),
        CipherMethod::Cast5Cfb => cast5_encrypt_block(k, b),
        _ => des_encrypt_block(k, b),
    }
}

/// The key a keystream method runs with: for RC4-MD5 the MD5 digest of key and IV.
pub open spec fn keystream_key(m: CipherMethod, key: Seq<u8>, iv: Seq<u8>) -> Seq<u8> {
    if m is Rc4Md5 || m is Rc4Md5_6 {
        spec_md5(key + iv)
    } else {
        key
    }
}

/// Whether the keystream generator of `m` accepts the key `k` (as returned by
/// `keystream_key`) and the IV.
pub open spec fn keystream_accepts(m: CipherMethod, k: Seq<u8>, iv: Seq<u8>) -> bool {
    match m {
        CipherMethod::Rc4 | CipherMethod::Rc4Md5 | CipherMethod::Rc4Md5_6 => k.len() == 16,
        CipherMethod::Aes128Ctr => k.len() == 16 && iv.len() == 16,
        CipherMethod::Aes192Ctr => k.len() == 24 && iv.len() == 16,
        CipherMethod::Aes256Ctr => k.len() == 32 && iv.len() == 16,
        CipherMethod::Salsa20 | CipherMethod::ChaCha20 => k.len() == 32 && iv.len() == 8,
        CipherMethod::ChaCha20Ietf => k.len() == 32 && iv.len() == 12,
        _ => false,
    }
}

/// Byte `i` of the keystream of `m` under the generator key `k` and the IV.
pub open spec fn keystream_byte(m: CipherMethod, k: Seq<u8>, iv: Seq<u8>, i: int) -> u8 {
    match m {
        CipherMethod::Aes128Ctr => aes128_ctr_keystream(k, iv, i),
        CipherMethod::Aes192Ctr => aes192_ctr_keystream(k, iv, i),
        CipherMethod::Aes256Ctr => aes256_ctr_keystream(k, iv, i),
        CipherMethod::Salsa20 => salsa20_keystream(k, iv, i),
        CipherMethod::ChaCha20 => chacha20_legacy_keystream(k, iv, i),
        CipherMethod::ChaCha20Ietf => chacha20_ietf_keystream(k, iv, i),
        _ => rc4_keystream(k, i),
    }
}

/// `data` xored with the keystream of `m` from position `pos` on.
pub open spec fn keystream_xor(m: CipherMethod, k: Seq<u8>, iv: Seq<u8>, pos: int, data: Seq<u8>) -> Seq<u8> {
    Seq::new(data.len(), |i: int| data[i] ^ keystream_byte(m, k, iv, pos + i))
}

/// How many keystream bytes a method can produce in all.
pub open spec fn keystream_limit(m: CipherMethod) -> nat {
    if is_rc4(m) {
        usize::MAX as nat
    } else if m is ChaCha20 || m is ChaCha20Ietf {
        CHACHA_STREAM_LIMIT as nat
    } else {
        u64::MAX as nat
    }
}

/// One byte of feedback-mode processing at stream position `pos`: where a block begins the
/// register is replaced by its encryption; the byte is xored with the register at the
/// offset within the block, and the ciphertext byte (the output when encrypting, the input
/// when decrypting) takes its place. Gives the output byte and the register.
pub open spec fn cfb_byte(m: CipherMethod, k: Seq<u8>, reg: Seq<u8>, pos: int, b: u8, decrypt: bool) -> (u8, Seq<u8>) {
    let n = pos % (cipher_iv_len(m) as int);
    let r = if n == 0 { block_encrypt(m, k, reg) } else { reg };
    let o = b ^ r[n];
    (o, r.update(n, if decrypt { b } else { o }))
}

/// Feedback-mode processing of `data` byte by byte from stream position `pos`, the full-block
/// cipher feedback mode of OpenSSL's `*-cfb` ciphers. Gives the output and the final register.
pub open spec fn cfb_run(m: CipherMethod, k: Seq<u8>, reg: Seq<u8>, pos: int, data: Seq<u8>, decrypt: bool) -> (Seq<u8>, Seq<u8>)
    decreases data.len(),
{
    if data.len() == 0 {
        (Seq::empty(), reg)
    } else {
        let (o, r1) = cfb_byte(m, k, reg, pos, data[0], decrypt);
        let (rest, last) = cfb_run(m, k, r1, pos + 1, data.skip(1), decrypt);
        (seq![o] + rest, last)
    }
}

/// Whether `key` is one the method runs under: any key for `none` and `table`, and a key of
/// exactly the method's key length for the implemented methods.
pub open spec fn stream_key_ok(m: CipherMethod, key: Seq<u8>) -> bool {
    ||| m is NoEncryption
    ||| m is Table
    ||| (is_keystream(m) || is_cfb(m)) && key.len() == cipher_key_len(m)
}

/// Whether a method can be started with the key and the IV.
pub open spec fn starts_ok(m: CipherMethod, key: Seq<u8>, iv: Seq<u8>) -> bool {
    if is_keystream(m) {
        keystream_accepts(m, keystream_key(m, key, iv), iv)
    } else if is_cfb(m) {
        block_key_ok(m, cfb_key(m, key))
    } else {
        false
    }
}

/// Mathematical state of a stream cipher.
pub struct StreamState {
    pub method: CipherMethod,
    pub key: Seq<u8>,
    pub iv: Seq<u8>,
    pub initialized: bool,
    /// Keystream bytes used since the start (keystream methods).
    pub position: nat,
    /// The feedback register (feedback-mode methods).
    pub feedback: Seq<u8>,
}

/// The state right after starting with `iv`.
pub open spec fn started(s: StreamState, iv: Seq<u8>) -> StreamState {
    StreamState { iv: iv, initialized: true, position: 0, feedback: iv, ..s }
}

/// Processing `data` in a started state (decrypting when `decrypt`): the output and the next
/// state.
pub open spec fn stream_apply(s: StreamState, data: Seq<u8>, decrypt: bool) -> (Seq<u8>, StreamState) {
    if is_keystream(s.method) {
        (
            keystream_xor(s.method, keystream_key(s.method, s.key, s.iv), s.iv, s.position as int, data),
            StreamState { position: s.position + data.len(), ..s },
        )
    } else {
        let (out, reg) = cfb_run(s.method, cfb_key(s.method, s.key), s.feedback, s.position as int, data, decrypt);
        (out, StreamState { feedback: reg, position: s.position + data.len(), ..s })
    }
}

/// Whether processing `len` bytes from stream position `pos` stays within what the method
/// can do: inside the keystream, and within a 64-bit position for feedback mode.
pub open spec fn apply_fits(m: CipherMethod, pos: nat, len: nat) -> bool {
    &&& is_keystream(m) ==> pos + len <= keystream_limit(m)
    &&& is_cfb(m) ==> pos + len <= u64::MAX
}

/// Encryption of `data`, where `fresh_iv` is the IV drawn if the cipher is not started yet.
/// Returns the output (nothing on failure) and the next state.
pub open spec fn stream_encrypt(s: StreamState, data: Seq<u8>, fresh_iv: Seq<u8>) -> (Option<Seq<u8>>, StreamState) {
    if s.method is NoEncryption {
        (Some(data), s)
    } else if s.method is Table {
        (Some(substitute(encryption_table(s.key), data)), s)
    } else if s.initialized {
        let (out, t) = stream_apply(s, data, false);
        (Some(out), t)
    } else if !starts_ok(s.method, s.key, fresh_iv) {
        (None, StreamState { iv: fresh_iv, ..s })
    } else {
        let (out, t) = stream_apply(started(s, fresh_iv), data, false);
        (Some(if cipher_iv_prepended(s.method) { fresh_iv + out } else { out }), t)
    }
}

/// Decryption of `data`: a cipher that is not started takes its IV from the front of the data.
pub open spec fn stream_decrypt(s: StreamState, data: Seq<u8>) -> (Option<Seq<u8>>, StreamState) {
    if s.method is NoEncryption {
        (Some(data), s)
    } else if s.method is Table {
        (Some(substitute(decryption_table(s.key), data)), s)
    } else if s.initialized {
        let (out, t) = stream_apply(s, data, true);
        (Some(out), t)
    } else if cipher_iv_len(s.method) > 0 {
        let n = cipher_iv_len(s.method) as int;
        if data.len() < n {
            (None, s)
        } else if !starts_ok(s.method, s.key, data.take(n)) {
            (None, StreamState { iv: data.take(n), ..s })
        } else {
            let (out, t) = stream_apply(started(s, data.take(n)), data.skip(n), true);
            (Some(out), t)
        }
    } else if !starts_ok(s.method, s.key, s.iv) {
        (None, s)
    } else {
        let (out, t) = stream_apply(started(s, s.iv), data, true);
        (Some(out), t)
    }
}

/// Inputs on which encryption stays within what the method can do.
pub open spec fn encrypt_fits(s: StreamState, data: Seq<u8>) -> bool {
    apply_fits(s.method, if s.initialized { s.position } else { 0 }, data.len())
}

/// Inputs on which decryption stays within what the method can do.
pub open spec fn decrypt_fits(s: StreamState, data: Seq<u8>) -> bool {
    if s.initialized {
        apply_fits(s.method, s.position, data.len())
    } else if data.len() >= cipher_iv_len(s.method) {
        apply_fits(s.method, 0, (data.len() - cipher_iv_len(s.method)) as nat)
    } else {
        true
    }
}

/// Whether a result carries the output `o`: the bytes on success, a crypto error on failure.
pub open spec fn outcome_is(r: Result<Vec<u8>>, o: Option<Seq<u8>>) -> bool {
    match r {
        Ok(v) => o == Some(v@),
        Err(e) => o is None && e is Crypto,
    }
}

/// The state of a cipher as `StreamCipher::new` builds it.
pub open spec fn fresh_stream(m: CipherMethod, key: Seq<u8>) -> StreamState {
    StreamState {
        method: m,
        key: key,
        iv: Seq::new(cipher_iv_len(m), |i: int| 0u8),
        initialized: false,
        position: 0,
        feedback: Seq::empty(),
    }
}

/// Methods for which a receiver recovers what a sender encrypted: every implemented method
/// (those that xor with a keystream, those in feedback mode, `none` and `table`).
pub open spec fn stream_roundtrips(m: CipherMethod) -> bool {
    m is NoEncryption || m is Table || is_keystream(m) || is_cfb(m)
}

/// Feedback-mode decryption of what feedback-mode encryption made of `p`, from the same
/// register and position, gives `p` back and ends with the same register.
proof fn lemma_cfb_roundtrip(m: CipherMethod, k: Seq<u8>, reg: Seq<u8>, pos: int, p: Seq<u8>)
    ensures
        cfb_run(m, k, reg, pos, cfb_run(m, k, reg, pos, p, false).0, true)
            == (p, cfb_run(m, k, reg, pos, p, false).1),
    decreases p.len(),
{
    if p.len() > 0 {
        let (c, last) = cfb_run(m, k, reg, pos, p, false);
        let (o, r1) = cfb_byte(m, k, reg, pos, p[0], false);
        let n = pos % (cipher_iv_len(m) as int);
        let r = if n == 0 { block_encrypt(m, k, reg) } else { reg };
        let x = p[0];
        let y = r[n];
        assert((x ^ y) ^ y == x) by (bit_vector);
        let (o2, r2) = cfb_byte(m, k, reg, pos, c[0], true);
        assert(c[0] == o);
        assert(o2 == p[0]);
        assert(r2 == r1);
        lemma_cfb_roundtrip(m, k, r1, pos + 1, p.skip(1));
        assert(c.skip(1) =~= cfb_run(m, k, r1, pos + 1, p.skip(1), false).0);
        assert(seq![p[0]] + p.skip(1) =~= p);
    }
}

/// Feedback-mode output is as long as the input.
proof fn lemma_cfb_len(m: CipherMethod, k: Seq<u8>, reg: Seq<u8>, pos: int, data: Seq<u8>, decrypt: bool)
    ensures
        cfb_run(m, k, reg, pos, data, decrypt).0.len() == data.len(),
    decreases data.len(),
{
    if data.len() > 0 {
        let (o, r1) = cfb_byte(m, k, reg, pos, data[0], decrypt);
        lemma_cfb_len(m, k, r1, pos + 1, data.skip(1), decrypt);
    }
}

/// Feedback-mode processing of `a + b` is that of `a`, then that of `b` from where `a` left
/// the register and the position.
proof fn lemma_cfb_split(m: CipherMethod, k: Seq<u8>, reg: Seq<u8>, pos: int, a: Seq<u8>, b: Seq<u8>, decrypt: bool)
    ensures
        ({
            let (oa, ra) = cfb_run(m, k, reg, pos, a, decrypt);
            let (ob, rb) = cfb_run(m, k, ra, pos + a.len(), b, decrypt);
            cfb_run(m, k, reg, pos, a + b, decrypt) == (oa + ob, rb)
        }),
    decreases a.len(),
{
    if a.len() == 0 {
        assert(a + b =~= b);
        assert(Seq::<u8>::empty() + cfb_run(m, k, reg, pos, b, decrypt).0 =~= cfb_run(m, k, reg, pos, b, decrypt).0);
    } else {
        let (o, r1) = cfb_byte(m, k, reg, pos, a[0], decrypt);
        assert((a + b)[0] == a[0]);
        assert((a + b).skip(1) =~= a.skip(1) + b);
        lemma_cfb_split(m, k, r1, pos + 1, a.skip(1), b, decrypt);
        let (oa1, ra1) = cfb_run(m, k, r1, pos + 1, a.skip(1), decrypt);
        let (ob, rb) = cfb_run(m, k, ra1, pos + 1 + a.skip(1).len(), b, decrypt);
        assert(seq![o] + (oa1 + ob) =~= (seq![o] + oa1) + ob);
    }
}

proof fn lemma_keystream_twice(m: CipherMethod, k: Seq<u8>, iv: Seq<u8>, pos: int, data: Seq<u8>)
    ensures
        keystream_xor(m, k, iv, pos, keystream_xor(m, k, iv, pos, data)) == data,
{
    let once = keystream_xor(m, k, iv, pos, data);
    let twice = keystream_xor(m, k, iv, pos, once);
    assert forall|i: int| 0 <= i < data.len() implies twice[i] == data[i] by {
        let a = data[i];
        let b = keystream_byte(m, k, iv, pos + i);
        assert((a ^ b) ^ b == a) by (bit_vector);
    }
    assert(twice =~= data);
}

proof fn lemma_keystream_split(m: CipherMethod, k: Seq<u8>, iv: Seq<u8>, pos: int, a: Seq<u8>, b: Seq<u8>)
    ensures
        keystream_xor(m, k, iv, pos, a + b) == keystream_xor(m, k, iv, pos, a) + keystream_xor(m, k, iv, pos + a.len(), b),
{
    assert(keystream_xor(m, k, iv, pos, a + b) =~= keystream_xor(m, k, iv, pos, a) + keystream_xor(m, k, iv, pos + a.len(), b));
}

/// The stream law for the feedback-mode methods.
proof fn lemma_stream_roundtrip_cfb(m: CipherMethod, key: Seq<u8>, iv: Seq<u8>, iv2: Seq<u8>, p1: Seq<u8>, p2: Seq<u8>)
    requires
        is_cfb(m),
        iv.len() == cipher_iv_len(m),
        starts_ok(m, key, iv),
    ensures
        ({
            let (c1, s1) = stream_encrypt(fresh_stream(m, key), p1, iv);
            let (c2, s2) = stream_encrypt(s1, p2, iv2);
            let (d1, r1) = stream_decrypt(fresh_stream(m, key), c1.unwrap());
            let (d2, r2) = stream_decrypt(r1, c2.unwrap());
            let (d, r) = stream_decrypt(fresh_stream(m, key), c1.unwrap() + c2.unwrap());
            &&& c1 is Some
            &&& c2 is Some
            &&& d1 == Some(p1)
            &&& d2 == Some(p2)
            &&& d == Some(p1 + p2)
        }),
{
    let s0 = fresh_stream(m, key);
    let k = cfb_key(m, key);
    let n = iv.len() as int;
    let (x1, reg1) = cfb_run(m, k, iv, 0, p1, false);
    let (x2, reg2) = cfb_run(m, k, reg1, p1.len() as int, p2, false);
    let (c1, s1) = stream_encrypt(s0, p1, iv);
    let (c2, s2) = stream_encrypt(s1, p2, iv2);
    assert(s1 == StreamState { feedback: reg1, position: p1.len(), ..started(s0, iv) });
    assert(c2 == Some(x2));
    let w = iv + x1;
    assert(c1 == Some(w));
    assert(w.take(n) =~= iv);
    assert(w.skip(n) =~= x1);
    assert((w + x2).take(n) =~= iv);
    assert((w + x2).skip(n) =~= x1 + x2);
    lemma_cfb_len(m, k, iv, 0, p1, false);
    lemma_cfb_roundtrip(m, k, iv, 0, p1);
    lemma_cfb_roundtrip(m, k, reg1, p1.len() as int, p2);
    lemma_cfb_split(m, k, iv, 0, x1, x2, true);
    assert(started(s0, iv).feedback == iv && started(s0, iv).position == 0);
    let (d1, r1) = stream_decrypt(s0, w);
    assert(d1 == Some(p1));
    assert(r1 == s1);
    let (d2, r2) = stream_decrypt(r1, x2);
    assert(d2 == Some(p2));
    let (d, r) = stream_decrypt(s0, w + x2);
    assert(d == Some(p1 + p2));
}

/// Law of the stream ciphers: when a sender encrypts `p1` and then `p2` and a receiver built
/// with the same method and key decrypts the two outputs in turn, it gets `p1` and then `p2`;
/// decrypting both outputs in one call gives `p1 + p2`. `iv` is the IV the sender draws.
pub proof fn lemma_stream_roundtrip(m: CipherMethod, key: Seq<u8>, iv: Seq<u8>, iv2: Seq<u8>, p1: Seq<u8>, p2: Seq<u8>)
    requires
        stream_roundtrips(m),
        iv.len() == cipher_iv_len(m),
        m is NoEncryption || m is Table || starts_ok(m, key, iv),
    ensures
        ({
            let (c1, s1) = stream_encrypt(fresh_stream(m, key), p1, iv);
            let (c2, s2) = stream_encrypt(s1, p2, iv2);
            let (d1, r1) = stream_decrypt(fresh_stream(m, key), c1.unwrap());
            let (d2, r2) = stream_decrypt(r1, c2.unwrap());
            let (d, r) = stream_decrypt(fresh_stream(m, key), c1.unwrap() + c2.unwrap());
            &&& c1 is Some
            &&& c2 is Some
            &&& d1 == Some(p1)
            &&& d2 == Some(p2)
            &&& d == Some(p1 + p2)
        }),
{
    let s0 = fresh_stream(m, key);
    if is_cfb(m) {
        lemma_stream_roundtrip_cfb(m, key, iv, iv2, p1, p2);
    } else if m is NoEncryption {
    } else if m is Table {
        lemma_table_roundtrip(key, p1);
        lemma_table_roundtrip(key, p2);
        lemma_table_roundtrip(key, p1 + p2);
        assert(substitute(encryption_table(key), p1) + substitute(encryption_table(key), p2)
            =~= substitute(encryption_table(key), p1 + p2));
    } else {
        let k = keystream_key(m, key, iv);
        let n = iv.len() as int;
        let x1 = keystream_xor(m, k, iv, 0, p1);
        let x2 = keystream_xor(m, k, iv, p1.len() as int, p2);
        let (c1, s1) = stream_encrypt(s0, p1, iv);
        let (c2, s2) = stream_encrypt(s1, p2, iv2);
        assert(s1 == StreamState { position: p1.len(), ..started(s0, iv) });
        assert(c2 == Some(x2));
        lemma_keystream_twice(m, k, iv, 0, p1);
        lemma_keystream_twice(m, k, iv, p1.len() as int, p2);
        lemma_keystream_split(m, k, iv, 0, x1, x2);
        lemma_keystream_split(m, k, iv, 0, p1, p2);
        if n > 0 {
            let w = iv + x1;
            assert(c1 == Some(w));
            assert(w.take(n) =~= iv);
            assert(w.skip(n) =~= x1);
            assert((w + x2).take(n) =~= iv);
            assert((w + x2).skip(n) =~= x1 + x2);
        } else {
            assert(iv =~= s0.iv);
            assert(c1 == Some(x1));
        }
    }
}

/// One step of the stream law, from any state: a receiver in the state the sender is in
/// decrypts what the sender encrypts back to the plaintext and ends in the state the sender
/// ends in. A sender that is not started yet draws `fresh_iv`, of the method's IV length,
/// which the method must accept; its own IV then has that length too.
pub proof fn lemma_stream_step(s: StreamState, p: Seq<u8>, fresh_iv: Seq<u8>)
    requires
        stream_roundtrips(s.method),
        !s.initialized && !(s.method is NoEncryption || s.method is Table) ==> {
            &&& fresh_iv.len() == cipher_iv_len(s.method)
            &&& s.iv.len() == cipher_iv_len(s.method)
            &&& starts_ok(s.method, s.key, fresh_iv)
        },
    ensures
        ({
            let (c, s1) = stream_encrypt(s, p, fresh_iv);
            &&& c is Some
            &&& stream_decrypt(s, c.unwrap()) == (Some(p), s1)
        }),
{
    let m = s.method;
    if m is NoEncryption {
    } else if m is Table {
        lemma_table_roundtrip(s.key, p);
    } else {
        let t = if s.initialized { s } else { started(s, fresh_iv) };
        if is_cfb(m) {
            let k = cfb_key(m, s.key);
            lemma_cfb_len(m, k, t.feedback, t.position as int, p, false);
            lemma_cfb_roundtrip(m, k, t.feedback, t.position as int, p);
        } else {
            let k = keystream_key(m, s.key, t.iv);
            lemma_keystream_twice(m, k, t.iv, t.position as int, p);
        }
        let (x, s1) = stream_apply(t, p, false);
        assert(stream_apply(t, x, true) == (p, s1));
        if !s.initialized {
            let n = cipher_iv_len(m) as int;
            if n > 0 {
                let w = fresh_iv + x;
                assert(w.take(n) =~= fresh_iv);
                assert(w.skip(n) =~= x);
            } else {
                assert(fresh_iv =~= s.iv);
            }
        }
    }
}

/// Processing in a started state gives as many bytes as it is given.
proof fn lemma_apply_len(t: StreamState, data: Seq<u8>, decrypt: bool)
    ensures
        stream_apply(t, data, decrypt).0.len() == data.len(),
{
    if !is_keystream(t.method) {
        lemma_cfb_len(t.method, cfb_key(t.method, t.key), t.feedback, t.position as int, data, decrypt);
    }
}

/// Output lengths of the stream ciphers: encryption gives as many bytes as it is given, plus
/// the IV in front when it starts a method that sends one; decryption gives as many bytes as
/// it is given, less the IV it reads when it starts such a method.
pub proof fn lemma_stream_output_len(s: StreamState, data: Seq<u8>, fresh_iv: Seq<u8>)
    requires
        fresh_iv.len() == cipher_iv_len(s.method),
    ensures
        stream_encrypt(s, data, fresh_iv).0 matches Some(v) ==> v.len() == data.len()
            + (if !s.initialized && !(s.method is NoEncryption) && !(s.method is Table) { cipher_iv_len(s.method) } else { 0 }),
        stream_decrypt(s, data).0 matches Some(v) ==> v.len() + (if !s.initialized && !(s.method is NoEncryption)
            && !(s.method is Table) { cipher_iv_len(s.method) } else { 0 }) == data.len(),
{
    let m = s.method;
    let n = cipher_iv_len(m) as int;
    if m is NoEncryption || m is Table {
    } else if s.initialized {
        lemma_apply_len(s, data, false);
        lemma_apply_len(s, data, true);
    } else {
        lemma_apply_len(started(s, fresh_iv), data, false);
        if n > 0 {
            if data.len() >= n {
                lemma_apply_len(started(s, data.take(n)), data.skip(n), true);
            }
        } else {
            lemma_apply_len(started(s, s.iv), data, true);
        }
    }
}

/// One block of feedback-mode encryption: the register encrypted under `k`.
fn cfb_block(m: CipherMethod, k: &[u8], reg: &[u8]) -> (r: Option<Vec<u8>>)
    requires
        is_cfb(m),
        reg@.len() == cipher_iv_len(m),
    ensures
        r is Some <==> block_key_ok(m, k@),
        r matches Some(v) ==> v@ == block_encrypt(m, k@, reg@) && v@.len() == reg@.len(),
{
    match m {
        CipherMethod::Aes128Cfb => aes128_block(k, reg),
        CipherMethod::Aes192Cfb => aes192_block(k, reg),
        CipherMethod::Aes256Cfb => aes256_block(k, reg),
        CipherMethod::Camellia128Cfb => camellia128_block(k, reg),
        CipherMethod::Camellia192Cfb => camellia192_block(k, reg),
        CipherMethod::Camellia256Cfb => camellia256_block(k, reg),
        CipherMethod::BfCfb => blowfish_block(k, reg),
        CipherMethod::Cast5Cfb => cast5_block(k, reg),
        _ => des_block(k, reg),
    }
}

/// `data` xored with the keystream of `m` from position `pos` on; nothing when the generator
/// refuses the key or the IV.
fn keystream_apply(m: CipherMethod, k: &[u8], iv: &[u8], pos: u64, data: &[u8]) -> (r: Option<Vec<u8>>)
    requires
        is_keystream(m),
        pos + data@.len() <= keystream_limit(m),
    ensures
        r is Some <==> keystream_accepts(m, k@, iv@),
        r matches Some(v) ==> v@ == keystream_xor(m, k@, iv@, pos as int, data@),
{
    let r = match m {
        CipherMethod::Aes128Ctr => aes128_ctr_xor(k, iv, pos, data),
        CipherMethod::Aes192Ctr => aes192_ctr_xor(k, iv, pos, data),
        CipherMethod::Aes256Ctr => aes256_ctr_xor(k, iv, pos, data),
        CipherMethod::Salsa20 => salsa20_xor(k, iv, pos, data),
        CipherMethod::ChaCha20 => chacha20_legacy_xor(k, iv, pos, data),
        CipherMethod::ChaCha20Ietf => chacha20_ietf_xor(k, iv, pos, data),
        _ => rc4_xor(k, pos as usize, data),
    };
    proof {
        if r is Some {
            assert(r->Some_0@ =~= keystream_xor(m, k@, iv@, pos as int, data@));
        }
    }
    r
}

/// `a` followed by `b`, as a new vector.
fn concat(a: &[u8], b: &[u8]) -> (r: Vec<u8>)
    ensures
        r@ == a@ + b@,
{
    let mut out = slice_to_vec(a);
    out.extend_from_slice(b);
    out
}

/// A stream cipher: the method, the key, and where in the stream the cipher stands.
pub struct StreamCipher {
    method: CipherMethod,
    enc_key: Vec<u8>,
    iv: Vec<u8>,
    initialized: bool,
    position: u64,
    feedback: Vec<u8>,
    run_key: Vec<u8>,
    table: Option<TableCipher>,
}

impl View for StreamCipher {
    type V = StreamState;

    closed spec fn view(&self) -> StreamState {
        StreamState {
            method: self.method,
            key: self.enc_key@,
            iv: self.iv@,
            initialized: self.initialized,
            position: self.position as nat,
            feedback: self.feedback@,
        }
    }
}

impl StreamCipher {
    #[verifier::type_invariant]
    spec fn wf(self) -> bool {
        &&& self.iv@.len() == cipher_iv_len(self.method)
        &&& self.table matches Some(t) ==> t@ == (encryption_table(self.enc_key@), decryption_table(self.enc_key@))
        &&& self.initialized ==> {
            &&& starts_ok(self.method, self.enc_key@, self.iv@)
            &&& is_keystream(self.method) ==> self.run_key@ == keystream_key(self.method, self.enc_key@, self.iv@)
            &&& is_cfb(self.method) ==> self.run_key@ == cfb_key(self.method, self.enc_key@)
                && self.feedback@.len() == cipher_iv_len(self.method)
        }
    }

    /// A cipher for `method` under `key`, not started yet.
    pub fn new(method: CipherMethod, key: Vec<u8>) -> (r: Self)
        ensures
            r@ == (StreamState {
                method: method,
                key: key@,
                iv: Seq::new(cipher_iv_len(method), |i: int| 0u8),
                initialized: false,
                position: 0,
                feedback: Seq::empty(),
            }),
    {
        let iv_len = method.iv_len();
        let iv: Vec<u8> = vec![0u8; iv_len];
        let r = StreamCipher {
            method,
            enc_key: key,
            iv,
            initialized: false,
            position: 0,
            feedback: Vec::new(),
            run_key: Vec::new(),
            table: None,
        };
        assert(r@.iv =~= Seq::new(cipher_iv_len(method), |i: int| 0u8));
        r
    }

    /// The method of this cipher.
    pub fn method(&self) -> (r: CipherMethod)
        ensures
            r == self@.method,
    {
        self.method
    }

    /// Whether the cipher has been started (its IV fixed).
    pub fn initialized(&self) -> (r: bool)
        ensures
            r == self@.initialized,
    {
        self.initialized
    }

    /// Whether encrypting `data` stays within what the method can do.
    pub fn can_encrypt(&self, data: &[u8]) -> (r: bool)
        ensures
            r == encrypt_fits(self@, data@),
    {
        let pos: u64 = if self.initialized { self.position } else { 0 };
        fits_exec(self.method, pos, data.len())
    }

    /// Whether decrypting `data` stays within what the method can do.
    pub fn can_decrypt(&self, data: &[u8]) -> (r: bool)
        ensures
            r == decrypt_fits(self@, data@),
    {
        proof {
            use_type_invariant(self);
        }
        if self.initialized {
            fits_exec(self.method, self.position, data.len())
        } else if data.len() >= self.iv.len() {
            fits_exec(self.method, 0, data.len() - self.iv.len())
        } else {
            true
        }
    }

    /// Starts the cipher with its current IV: builds the generator key, checks that the
    /// underlying cipher accepts key and IV, and resets the stream position.
    fn start(&mut self) -> (r: Result<()>)
        requires
            !old(self)@.initialized,
        ensures
            r is Ok <==> starts_ok(old(self)@.method, old(self)@.key, old(self)@.iv),
            stream_key_ok(old(self)@.method, old(self)@.key) && !(old(self)@.method is NoEncryption)
                && !(old(self)@.method is Table) ==> r is Ok,
            r is Ok ==> final(self)@ == started(old(self)@, old(self)@.iv),
            r is Err ==> final(self)@ == old(self)@ && r->Err_0 is Crypto,
    {
        proof {
            use_type_invariant(&*self);
        }
        let m = self.method;
        if is_unsupported_exec(m) || m == CipherMethod::NoEncryption || m == CipherMethod::Table {
            return Err(Error::Crypto(msg("cipher method is not implemented")));
        }
        let k: Vec<u8> = if m == CipherMethod::Rc4Md5 || m == CipherMethod::Rc4Md5_6 {
            md5_digest(concat(self.enc_key.as_slice(), self.iv.as_slice()).as_slice())
        } else if is_cfb_exec(m) {
            let n = if self.enc_key.len() <= m.key_len() { self.enc_key.len() } else { m.key_len() };
            slice_to_vec(&self.enc_key.as_slice()[0..n])
        } else {
            slice_to_vec(self.enc_key.as_slice())
        };
        if is_cfb_exec(m) {
            assert(k@ =~= cfb_key(m, self.enc_key@));
            if cfb_block(m, k.as_slice(), self.iv.as_slice()).is_none() {
                return Err(Error::Crypto(msg("block cipher rejected the key length")));
            }
        } else {
            assert(k@ =~= keystream_key(m, self.enc_key@, self.iv@));
            if keystream_apply(m, k.as_slice(), self.iv.as_slice(), 0, &[]).is_none() {
                return Err(Error::Crypto(msg("stream cipher rejected the key or IV length")));
            }
        }
        self.run_key = k;
        self.feedback = slice_to_vec(self.iv.as_slice());
        self.position = 0;
        self.initialized = true;
        Ok(())
    }

    /// Runs the started cipher over `data` (decrypting when `decrypt`).
    fn apply(&mut self, data: &[u8], decrypt: bool) -> (r: Vec<u8>)
        requires
            old(self)@.initialized,
            apply_fits(old(self)@.method, old(self)@.position, data@.len()),
        ensures
            (r@, final(self)@) == stream_apply(old(self)@, data@, decrypt),
    {
        proof {
            use_type_invariant(&*self);
        }
        let m = self.method;
        if is_cfb_exec(m) {
            let bs = self.feedback.len();
            let ghost k = self.run_key@;
            let ghost reg0 = self.feedback@;
            let pos0 = self.position;
            let mut out: Vec<u8> = Vec::new();
            let mut reg: Vec<u8> = slice_to_vec(self.feedback.as_slice());
            let mut i: usize = 0;
            assert(data@.skip(0) =~= data@);
            assert(Seq::<u8>::empty() + cfb_run(m, k, reg0, pos0 as int, data@, decrypt).0
                =~= cfb_run(m, k, reg0, pos0 as int, data@, decrypt).0);
            while i < data.len()
                invariant
                    is_cfb(m),
                    bs == reg@.len(),
                    bs == cipher_iv_len(m),
                    bs > 0,
                    i <= data@.len(),
                    pos0 + data@.len() <= u64::MAX,
                    block_key_ok(m, k),
                    self.run_key@ == k,
                    cfb_run(m, k, reg0, pos0 as int, data@, decrypt) == (out@ + cfb_run(m, k, reg@, pos0 + i, data@.skip(i as int), decrypt).0,
                        cfb_run(m, k, reg@, pos0 + i, data@.skip(i as int), decrypt).1),
                decreases data@.len() - i,
            {
                let ghost reg_before = reg@;
                let ghost out_before = out@;
                let ghost pos = pos0 + i;
                let off = ((pos0 + i as u64) % (bs as u64)) as usize;
                if off == 0 {
                    reg = match cfb_block(m, self.run_key.as_slice(), reg.as_slice()) {
                        Some(e) => e,
                        None => {
                            proof {
                                assert(false);
                            }
                            Vec::new()
                        },
                    };
                }
                let o = data[i] ^ reg[off];
                let c = if decrypt { data[i] } else { o };
                reg.set(off, c);
                out.push(o);
                proof {
                    let d = data@.skip(i as int);
                    assert(d[0] == data@[i as int]);
                    assert(d.skip(1) =~= data@.skip(i + 1));
                    let (o2, r2) = cfb_byte(m, k, reg_before, pos, d[0], decrypt);
                    assert(o2 == o);
                    assert(r2 =~= reg@);
                    let tail = cfb_run(m, k, reg@, pos + 1, data@.skip(i + 1), decrypt);
                    assert(cfb_run(m, k, reg_before, pos, d, decrypt) == (seq![o] + tail.0, tail.1));
                    assert(out_before + (seq![o] + tail.0) =~= out@ + tail.0);
                }
                i = i + 1;
            }
            self.feedback = reg;
            self.position = pos0 + data.len() as u64;
            out
        } else {
            let r = match keystream_apply(m, self.run_key.as_slice(), self.iv.as_slice(), self.position, data) {
                Some(v) => v,
                None => {
                    proof {
                        assert(false);
                    }
                    Vec::new()
                },
            };
            self.position = self.position + data.len() as u64;
            r
        }
    }

    /// Encrypts `data`. A cipher that is not started yet starts with `fresh_iv` as its IV
    /// and, for methods that send their IV, puts it in front of the output.
    pub fn encrypt_with_iv(&mut self, data: &[u8], fresh_iv: &[u8]) -> (r: Result<Vec<u8>>)
        requires
            fresh_iv@.len() == cipher_iv_len(old(self)@.method),
            encrypt_fits(old(self)@, data@),
        ensures
            outcome_is(r, stream_encrypt(old(self)@, data@, fresh_iv@).0),
            final(self)@ == stream_encrypt(old(self)@, data@, fresh_iv@).1,
            stream_key_ok(old(self)@.method, old(self)@.key) ==> r is Ok,
    {
        proof {
            use_type_invariant(&*self);
        }
        if self.method == CipherMethod::NoEncryption {
            return Ok(slice_to_vec(data));
        }
        if self.method == CipherMethod::Table {
            if self.table.is_none() {
                self.table = Some(TableCipher::new(self.enc_key.as_slice()));
            }
            let mut out = slice_to_vec(data);
            match &self.table {
                Some(t) => {
                    t.encrypt(out.as_mut_slice());
                },
                None => {},
            }
            return Ok(out);
        }
        if !self.initialized {
            self.iv = slice_to_vec(fresh_iv);
            match self.start() {
                Err(e) => {
                    return Err(e);
                },
                Ok(()) => {},
            }
            let enc = self.apply(data, false);
            if self.method.need_iv_prepend() {
                return Ok(concat(self.iv.as_slice(), enc.as_slice()));
            }
            return Ok(enc);
        }
        Ok(self.apply(data, false))
    }

    /// Encrypts `data`. A cipher that is not started yet draws a random IV first.
    pub fn encrypt(&mut self, data: &[u8]) -> (r: Result<Vec<u8>>)
        requires
            encrypt_fits(old(self)@, data@),
        ensures
            final(self)@.iv.len() == cipher_iv_len(old(self)@.method),
            old(self)@.initialized ==> final(self)@.iv == old(self)@.iv,
            outcome_is(r, stream_encrypt(old(self)@, data@, final(self)@.iv).0),
            final(self)@ == stream_encrypt(old(self)@, data@, final(self)@.iv).1,
            stream_key_ok(old(self)@.method, old(self)@.key) ==> r is Ok,
    {
        proof {
            use_type_invariant(&*self);
        }
        let draw = !self.initialized && self.method != CipherMethod::NoEncryption
            && self.method != CipherMethod::Table;
        let fresh: Vec<u8> = if draw {
            rand_bytes(self.method.iv_len())
        } else {
            slice_to_vec(self.iv.as_slice())
        };
        self.encrypt_with_iv(data, fresh.as_slice())
    }

    /// Decrypts `data`. A cipher that is not started yet takes its IV from the front of
    /// `data` (for methods with an IV) and fails when `data` is shorter than the IV.
    pub fn decrypt(&mut self, data: &[u8]) -> (r: Result<Vec<u8>>)
        requires
            decrypt_fits(old(self)@, data@),
        ensures
            outcome_is(r, stream_decrypt(old(self)@, data@).0),
            final(self)@ == stream_decrypt(old(self)@, data@).1,
    {
        proof {
            use_type_invariant(&*self);
        }
        if self.method == CipherMethod::NoEncryption {
            return Ok(slice_to_vec(data));
        }
        if self.method == CipherMethod::Table {
            if self.table.is_none() {
                self.table = Some(TableCipher::new(self.enc_key.as_slice()));
            }
            let mut out = slice_to_vec(data);
            match &self.table {
                Some(t) => {
                    t.decrypt(out.as_mut_slice());
                },
                None => {},
            }
            return Ok(out);
        }
        if !self.initialized {
            let n = self.iv.len();
            if n > 0 {
                if data.len() < n {
                    return Err(Error::Crypto(msg("short iv")));
                }
                self.iv = slice_to_vec(&data[0..n]);
                assert(self.iv@ =~= data@.take(n as int));
                match self.start() {
                    Err(e) => {
                        return Err(e);
                    },
                    Ok(()) => {},
                }
                let rest = &data[n..data.len()];
                assert(rest@ =~= data@.skip(n as int));
                return Ok(self.apply(rest, true));
            }
            match self.start() {
                Err(e) => {
                    return Err(e);
                },
                Ok(()) => {},
            }
        }
        Ok(self.apply(data, true))
    }
}

/// Whether processing `len` bytes from stream position `pos` stays within what `m` can do.
fn fits_exec(m: CipherMethod, pos: u64, len: usize) -> (r: bool)
    ensures
        r == apply_fits(m, pos as nat, len as nat),
{
    let total: u128 = pos as u128 + len as u128;
    if is_cfb_exec(m) {
        total <= u64::MAX as u128
    } else if m == CipherMethod::Rc4 || m == CipherMethod::Rc4Md5 || m == CipherMethod::Rc4Md5_6 {
        total <= usize::MAX as u128
    } else if m == CipherMethod::ChaCha20 || m == CipherMethod::ChaCha20Ietf {
        total <= CHACHA_STREAM_LIMIT as u128
    } else if m == CipherMethod::Aes128Ctr || m == CipherMethod::Aes192Ctr || m == CipherMethod::Aes256Ctr
        || m == CipherMethod::Salsa20 {
        total <= u64::MAX as u128
    } else {
        true
    }
}

/// Whether `m` runs a block cipher in feedback mode.
fn is_cfb_exec(m: CipherMethod) -> (r: bool)
    ensures
        r == is_cfb(m),
{
    matches!(m, CipherMethod::Aes128Cfb | CipherMethod::Aes192Cfb | CipherMethod::Aes256Cfb
        | CipherMethod::Camellia128Cfb | CipherMethod::Camellia192Cfb | CipherMethod::Camellia256Cfb
        | CipherMethod::BfCfb | CipherMethod::Cast5Cfb | CipherMethod::DesCfb)
}

/// Whether `m` is named but has no implementation.
fn is_unsupported_exec(m: CipherMethod) -> (r: bool)
    ensures
        r == is_unsupported(m),
{
    matches!(m, CipherMethod::IdeaCfb | CipherMethod::Rc2Cfb | CipherMethod::SeedCfb)
}


/// Law of RC4-MD5: a cipher that starts with the IV `iv` runs RC4 keyed with the MD5 digest
/// of its key followed by the IV (key first), sends the IV first, and xors the data with
/// that keystream from its beginning.
pub proof fn lemma_rc4_md5_encrypt(s: StreamState, data: Seq<u8>, iv: Seq<u8>)
    requires
        s.method is Rc4Md5 || s.method is Rc4Md5_6,
        !s.initialized,
        starts_ok(s.method, s.key, iv),
    ensures
        stream_encrypt(s, data, iv).0
            == Some(iv + Seq::new(data.len(), |i: int| data[i] ^ rc4_keystream(spec_md5(s.key + iv), i))),
{
    let (out, t) = stream_apply(started(s, iv), data, false);
    assert(out =~= Seq::new(data.len(), |i: int| data[i] ^ rc4_keystream(spec_md5(s.key + iv), i)));
}

/// Law of RC4-MD5 decryption: a cipher that is not started takes the IV from the front of
/// the data and xors the rest with RC4 keyed with the MD5 digest of its key followed by
/// that IV.
pub proof fn lemma_rc4_md5_decrypt(s: StreamState, iv: Seq<u8>, ct: Seq<u8>)
    requires
        s.method is Rc4Md5 || s.method is Rc4Md5_6,
        !s.initialized,
        iv.len() == cipher_iv_len(s.method),
        starts_ok(s.method, s.key, iv),
    ensures
        stream_decrypt(s, iv + ct).0
            == Some(Seq::new(ct.len(), |i: int| ct[i] ^ rc4_keystream(spec_md5(s.key + iv), i))),
{
    let d = iv + ct;
    let n = cipher_iv_len(s.method) as int;
    assert(d.take(n) =~= iv);
    assert(d.skip(n) =~= ct);
    let (out, t) = stream_apply(started(s, iv), ct, true);
    assert(out =~= Seq::new(ct.len(), |i: int| ct[i] ^ rc4_keystream(spec_md5(s.key + iv), i)));
}


/// Feedback-mode processing of `a` followed by `b` is that of `a`, then that of `b` from the
/// register and position `a` leaves.
pub proof fn lemma_cfb_run_split(m: CipherMethod, k: Seq<u8>, reg: Seq<u8>, pos: int, a: Seq<u8>, b: Seq<u8>, decrypt: bool)
    ensures
        ({
            let (oa, ra) = cfb_run(m, k, reg, pos, a, decrypt);
            let (ob, rb) = cfb_run(m, k, ra, pos + a.len(), b, decrypt);
            cfb_run(m, k, reg, pos, a + b, decrypt) == (oa + ob, rb)
        }),
    decreases a.len(),
{
    if a.len() == 0 {
        assert(a + b =~= b);
        let (ob, rb) = cfb_run(m, k, reg, pos, b, decrypt);
        assert(Seq::<u8>::empty() + ob =~= ob);
    } else {
        let (o, r1) = cfb_byte(m, k, reg, pos, a[0], decrypt);
        assert((a + b)[0] == a[0]);
        assert((a + b).skip(1) =~= a.skip(1) + b);
        lemma_cfb_run_split(m, k, r1, pos + 1, a.skip(1), b, decrypt);
        let (oa1, ra) = cfb_run(m, k, r1, pos + 1, a.skip(1), decrypt);
        let (ob, rb) = cfb_run(m, k, ra, pos + 1 + a.skip(1).len(), b, decrypt);
        assert(seq![o] + (oa1 + ob) =~= (seq![o] + oa1) + ob);
    }
}

proof fn lemma_cfb_block_tail(m: CipherMethod, k: Seq<u8>, reg: Seq<u8>, pos: int, d: Seq<u8>, e: Seq<u8>, j: int, decrypt: bool)
    requires
        cipher_iv_len(m) > 0,
        pos >= 0,
        pos % (cipher_iv_len(m) as int) == 0,
        d.len() == cipher_iv_len(m),
        reg.len() == cipher_iv_len(m),
        1 <= j <= d.len(),
        forall|i: int| j <= i < d.len() ==> reg[i] == e[i],
    ensures
        ({
            let (out, r) = cfb_run(m, k, reg, pos + j, d.skip(j), decrypt);
            &&& out.len() == d.len() - j
            &&& forall|i: int| 0 <= i < d.len() - j ==> #[trigger] out[i] == d[j + i] ^ e[j + i]
            &&& r.len() == d.len()
            &&& forall|i: int| 0 <= i < j ==> #[trigger] r[i] == reg[i]
            &&& forall|i: int| j <= i < d.len() ==> #[trigger] r[i] == (if decrypt { d[i] } else { d[i] ^ e[i] })
        }),
    decreases d.len() - j,
{
    let bs = cipher_iv_len(m) as int;
    if j < d.len() {
        vstd::arithmetic::div_mod::lemma_add_mod_noop(pos, j, bs);
        vstd::arithmetic::div_mod::lemma_small_mod(j as nat, bs as nat);
        assert((pos + j) % bs == j);
        let b = d.skip(j)[0];
        assert(b == d[j]);
        let o = b ^ reg[j];
        let r1 = reg.update(j, if decrypt { b } else { o });
        assert(cfb_byte(m, k, reg, pos + j, b, decrypt) == (o, r1));
        assert(d.skip(j).skip(1) =~= d.skip(j + 1));
        lemma_cfb_block_tail(m, k, r1, pos, d, e, j + 1, decrypt);
        assert(pos + j + 1 == pos + (j + 1));
        let (rest, last) = cfb_run(m, k, r1, pos + (j + 1), d.skip(j + 1), decrypt);
        assert(cfb_run(m, k, reg, pos + j, d.skip(j), decrypt) == (seq![o] + rest, last));
        let out = seq![o] + rest;
        assert forall|i: int| 0 <= i < d.len() - j implies #[trigger] out[i] == d[j + i] ^ e[j + i] by {
            if i > 0 {
                assert(out[i] == rest[i - 1]);
                assert(j + 1 + (i - 1) == j + i);
            }
        }
    } else {
        assert(d.skip(j) =~= Seq::<u8>::empty());
    }
}

/// Law of cipher feedback mode (full-block CFB): a block-aligned block of input is xored with
/// the encryption of the register, and the register then holds that block's ciphertext (the
/// output when encrypting, the input when decrypting), which the next block's keystream is
/// made from.
pub proof fn lemma_cfb_block(m: CipherMethod, k: Seq<u8>, reg: Seq<u8>, pos: int, d: Seq<u8>, decrypt: bool)
    requires
        is_cfb(m),
        pos >= 0,
        pos % (cipher_iv_len(m) as int) == 0,
        d.len() == cipher_iv_len(m),
        block_encrypt(m, k, reg).len() == cipher_iv_len(m),
    ensures
        ({
            let e = block_encrypt(m, k, reg);
            let (out, r) = cfb_run(m, k, reg, pos, d, decrypt);
            &&& out.len() == d.len()
            &&& forall|i: int| 0 <= i < d.len() ==> #[trigger] out[i] == d[i] ^ e[i]
            &&& r == (if decrypt { d } else { out })
        }),
{
    let e = block_encrypt(m, k, reg);
    let o = d[0] ^ e[0];
    let r1 = e.update(0, if decrypt { d[0] } else { o });
    assert(cfb_byte(m, k, reg, pos, d[0], decrypt) == (o, r1));
    lemma_cfb_block_tail(m, k, r1, pos, d, e, 1, decrypt);
    let (rest, last) = cfb_run(m, k, r1, pos + 1, d.skip(1), decrypt);
    let out = seq![o] + rest;
    assert(cfb_run(m, k, reg, pos, d, decrypt) == (out, last));
    assert forall|i: int| 0 <= i < d.len() implies #[trigger] out[i] == d[i] ^ e[i] by {
        if i > 0 {
            assert(out[i] == rest[i - 1]);
            assert(1 + (i - 1) == i);
        }
    }
    if decrypt {
        assert(last =~= d);
    } else {
        assert(last =~= out);
    }
}

} // verus!
