use vstd::prelude::*;
use vstd::slice::slice_to_vec;
use vstd::string::StringSliceAdditionalSpecFns;
use crate::error::{Error, Result, msg};
use crate::bytes::{be_u16, be_bytes_u16, be_bytes_u64, u16_to_be, u64_to_be, u16_from_be, lemma_be_u16_roundtrip};
use crate::obfs::obfsutil::rand_bytes;
use crate::text::{str_eq, to_lowercase, str_to_lowercase, is_ascii_text, ascii_lowercase};
use super::primitives::{AeadFailure, GCM_MAX_LEN, CHACHA_POLY_LIMIT, aes128_gcm_seal, aes128_gcm_open,
    aes128_gcm_sealed, aes128_gcm_opened, aes192_gcm_seal, aes192_gcm_open, aes192_gcm_sealed, aes192_gcm_opened,
    aes256_gcm_seal, aes256_gcm_open, aes256_gcm_sealed, aes256_gcm_opened,
    chacha20_poly1305_seal, chacha20_poly1305_open, chacha20_poly1305_sealed, chacha20_poly1305_opened,
    xchacha20_poly1305_seal, xchacha20_poly1305_open, xchacha20_poly1305_sealed, xchacha20_poly1305_opened,
    hkdf_sha256_okm, hkdf_sha256_expand};

verus! {

/// The AEAD methods known to the library.
#[derive(Debug, Clone, Copy, PartialEq, Eq, Structural)]
pub enum AeadMethod {
    Aes128Gcm,
    Aes192Gcm,
    Aes256Gcm,
    ChaCha20Poly1305,
    XChaCha20Poly1305,
}

/// The canonical name of an AEAD method.
pub open spec fn aead_name(m: AeadMethod) -> Seq<char> {
    match m {
        AeadMethod::Aes128Gcm => "aes-128-gcm"@,
        AeadMethod::Aes192Gcm => "aes-192-gcm"@,
        AeadMethod::Aes256Gcm => "aes-256-gcm"@,
        AeadMethod::ChaCha20Poly1305 => "chacha20-ietf-poly1305"@,
        AeadMethod::XChaCha20Poly1305 => "xchacha20-ietf-poly1305"@,
    }
}

/// The AEAD method named `s` (already lower-cased), if any.
pub open spec fn aead_by_name(s: Seq<char>) -> Option<AeadMethod> {
    if s == "aes-128-gcm"@ {
        Some(AeadMethod::Aes128Gcm)
    } else if s == "aes-192-gcm"@ {
        Some(AeadMethod::Aes192Gcm)
    } else if s == "aes-256-gcm"@ {
        Some(AeadMethod::Aes256Gcm)
    } else if s == "chacha20-ietf-poly1305"@ {
        Some(AeadMethod::ChaCha20Poly1305)
    } else if s == "xchacha20-ietf-poly1305"@ {
        Some(AeadMethod::XChaCha20Poly1305)
    } else {
        None
    }
}

/// Key length in bytes of an AEAD method.
pub open spec fn aead_key_len(m: AeadMethod) -> nat {
    match m {
        AeadMethod::Aes128Gcm => 16,
        AeadMethod::Aes192Gcm => 24,
        _ => 32,
    }
}

/// Nonce length in bytes of an AEAD method.
pub open spec fn aead_nonce_len(m: AeadMethod) -> nat {
    match m {
        AeadMethod::XChaCha20Poly1305 => 24,
        _ => 12,
    }
}

/// Whether the method's algorithm accepts the key: one of exactly the method's key length.
pub open spec fn aead_accepts_key(m: AeadMethod, k: Seq<u8>) -> bool {
    k.len() == aead_key_len(m)
}

/// Whether the algorithm a method runs accepts a plaintext of `len` bytes.
pub open spec fn aead_accepts_len(m: AeadMethod, len: nat) -> bool {
    match m {
        AeadMethod::ChaCha20Poly1305 | AeadMethod::XChaCha20Poly1305 => len < CHACHA_POLY_LIMIT,
        _ => len <= GCM_MAX_LEN,
    }
}

/// The sealed form (ciphertext and tag) of `pt` under the method's algorithm, without
/// associated data.
pub open spec fn aead_sealed(m: AeadMethod, k: Seq<u8>, n: Seq<u8>, pt: Seq<u8>) -> Seq<u8> {
    match m {
        AeadMethod::Aes128Gcm => aes128_gcm_sealed(k, n, pt, Seq::empty()),
        AeadMethod::Aes192Gcm => aes192_gcm_sealed(k, n, pt, Seq::empty()),
        AeadMethod::Aes256Gcm => aes256_gcm_sealed(k, n, pt, Seq::empty()),
        AeadMethod::ChaCha20Poly1305 => chacha20_poly1305_sealed(k, n, pt, Seq::empty()),
        AeadMethod::XChaCha20Poly1305 => xchacha20_poly1305_sealed(k, n, pt, Seq::empty()),
    }
}

/// What opening `ct` yields under the method's algorithm: nothing when the key is refused or
/// the tag does not verify.
pub open spec fn aead_opened(m: AeadMethod, k: Seq<u8>, n: Seq<u8>, ct: Seq<u8>) -> Option<Seq<u8>> {
    if !aead_accepts_key(m, k) {
        None
    } else {
        match m {
            AeadMethod::Aes128Gcm => aes128_gcm_opened(k, n, ct, Seq::empty()),
            AeadMethod::Aes192Gcm => aes192_gcm_opened(k, n, ct, Seq::empty()),
            AeadMethod::Aes256Gcm => aes256_gcm_opened(k, n, ct, Seq::empty()),
            AeadMethod::ChaCha20Poly1305 => chacha20_poly1305_opened(k, n, ct, Seq::empty()),
            AeadMethod::XChaCha20Poly1305 => xchacha20_poly1305_opened(k, n, ct, Seq::empty()),
        }
    }
}

/// The session key derived from the master key and a salt: HKDF-SHA256 with info `ss-subkey`.
pub open spec fn aead_subkey(m: AeadMethod, key: Seq<u8>, salt: Seq<u8>) -> Seq<u8> {
    hkdf_sha256_okm(salt, key, "ss-subkey".spec_bytes(), aead_key_len(m))
}

/// A nonce of `len` bytes holding `counter` big-endian in its last eight bytes (or the
/// first `len` bytes of the counter when `len` is below eight), zeros before.
pub open spec fn nonce_bytes(len: nat, counter: nat) -> Seq<u8> {
    let start: int = if len >= 8 { len - 8 } else { 0 };
    Seq::new(len, |i: int| if i < start { 0u8 } else { be_bytes_u64(counter as u64)[i - start] })
}

/// The nonce of a method for a counter value.
pub open spec fn chunk_nonce(m: AeadMethod, counter: nat) -> Seq<u8> {
    nonce_bytes(aead_nonce_len(m), counter)
}

/// Largest payload of one TCP chunk.
pub const CHUNK_SIZE: usize = 0x3FFF;

/// Number of chunks a plaintext of `len` bytes is cut into.
pub open spec fn chunk_count(len: nat) -> nat {
    (len + 0x3FFE) / 0x3FFF
}

/// The chunks of `pt` sealed from counter `n` on: each chunk is its sealed two-byte
/// big-endian length (counter `n`) followed by its sealed payload (counter `n + 1`).
pub open spec fn seal_chunks(m: AeadMethod, k: Seq<u8>, n: nat, pt: Seq<u8>) -> Seq<u8>
    decreases pt.len(),
{
    if pt.len() == 0 {
        Seq::empty()
    } else {
        let len: nat = if pt.len() <= 0x3FFF { pt.len() } else { 0x3FFF };
        let c = pt.take(len as int);
        aead_sealed(m, k, chunk_nonce(m, n), be_bytes_u16(len as u16)) + aead_sealed(m, k, chunk_nonce(m, n + 1), c)
            + seal_chunks(m, k, n + 2, pt.skip(len as int))
    }
}

/// Encrypting `pt` in chunks from counter `n`: the output (nothing when the key is refused)
/// and the next counter.
pub open spec fn encrypt_chunks_spec(m: AeadMethod, k: Seq<u8>, n: nat, pt: Seq<u8>) -> (Option<Seq<u8>>, nat) {
    if pt.len() == 0 {
        (Some(Seq::empty()), n)
    } else if !aead_accepts_key(m, k) {
        (None, n + 1)
    } else {
        (Some(seal_chunks(m, k, n, pt)), n + 2 * chunk_count(pt.len()))
    }
}

/// `x` in front of the output of `r`, if there is one.
pub open spec fn prepend_output(x: Seq<u8>, r: (Option<Seq<u8>>, nat)) -> (Option<Seq<u8>>, nat) {
    (
        match r.0 {
            Some(y) => Some(x + y),
            None => None,
        },
        r.1,
    )
}

/// Decrypting a run of chunks from counter `n`: the plaintext (nothing when a chunk is cut
/// short or does not open) and the next counter.
pub open spec fn open_chunks(m: AeadMethod, k: Seq<u8>, n: nat, data: Seq<u8>) -> (Option<Seq<u8>>, nat)
    decreases data.len(),
{
    if data.len() == 0 {
        (Some(Seq::empty()), n)
    } else if data.len() < 18 {
        (None, n)
    } else {
        match aead_opened(m, k, chunk_nonce(m, n), data.take(18)) {
            None => (None, n + 1),
            Some(lp) => {
                let plen = be_u16(lp[0], lp[1]) as int;
                if 18 + plen + 16 > data.len() {
                    (None, n + 1)
                } else {
                    match aead_opened(m, k, chunk_nonce(m, n + 1), data.subrange(18, 18 + plen + 16)) {
                        None => (None, n + 2),
                        Some(p) => prepend_output(p, open_chunks(m, k, n + 2, data.skip(18 + plen + 16))),
                    }
                }
            },
        }
    }
}

/// Mathematical state of a TCP AEAD cipher.
pub struct AeadTcpState {
    pub method: AeadMethod,
    pub key: Seq<u8>,
    pub salt: Seq<u8>,
    pub nonce: nat,
    pub subkey: Seq<u8>,
    pub initialized: bool,
}

/// Encryption of `pt`; a cipher that is not started yet starts with `fresh_salt`, derives its
/// session key, and puts the salt in front of the output.
pub open spec fn aead_tcp_encrypt(s: AeadTcpState, pt: Seq<u8>, fresh_salt: Seq<u8>) -> (Option<Seq<u8>>, AeadTcpState) {
    if !s.initialized {
        let sk = aead_subkey(s.method, s.key, fresh_salt);
        let (o, n) = encrypt_chunks_spec(s.method, sk, 0, pt);
        (
            match o {
                Some(c) => Some(fresh_salt + c),
                None => None,
            },
            AeadTcpState { salt: fresh_salt, subkey: sk, nonce: n, initialized: true, ..s },
        )
    } else {
        let (o, n) = encrypt_chunks_spec(s.method, s.subkey, s.nonce, pt);
        (o, AeadTcpState { nonce: n, ..s })
    }
}

/// Decryption of `data`; a cipher that is not started yet takes the salt from the front of
/// `data` and fails when `data` is shorter than a salt.
pub open spec fn aead_tcp_decrypt(s: AeadTcpState, data: Seq<u8>) -> (Option<Seq<u8>>, AeadTcpState) {
    if !s.initialized {
        if data.len() < 32 {
            (None, s)
        } else {
            let salt = data.take(32);
            let sk = aead_subkey(s.method, s.key, salt);
            let (o, n) = open_chunks(s.method, sk, 0, data.skip(32));
            (o, AeadTcpState { salt: salt, subkey: sk, nonce: n, initialized: true, ..s })
        }
    } else {
        let (o, n) = open_chunks(s.method, s.subkey, s.nonce, data);
        (o, AeadTcpState { nonce: n, ..s })
    }
}

/// Decryption of one UDP packet: salt, then the sealed payload under the zero nonce.
pub open spec fn aead_udp_decrypt(m: AeadMethod, key: Seq<u8>, data: Seq<u8>) -> Option<Seq<u8>> {
    if data.len() < 48 {
        None
    } else {
        aead_opened(m, aead_subkey(m, key, data.take(32)), Seq::new(aead_nonce_len(m), |i: int| 0u8), data.skip(32))
    }
}

/// Whether a result carries the output `o`: the bytes on success, a crypto error on failure.
pub open spec fn aead_outcome_is(r: Result<Vec<u8>>, o: Option<Seq<u8>>) -> bool {
    match r {
        Ok(v) => o == Some(v@),
        Err(e) => o is None && e is Crypto,
    }
}

impl AeadMethod {
    /// Looks a method up by name, ignoring case.
    pub fn from_name(name: &str) -> (r: Option<AeadMethod>)
        ensures
            r == aead_by_name(str_to_lowercase(name@)),
            is_ascii_text(name@) ==> str_to_lowercase(name@) == ascii_lowercase(name@),
    {
        let lower = to_lowercase(name);
        let l = lower.as_str();
        if str_eq(l, "aes-128-gcm") {
            Some(AeadMethod::Aes128Gcm)
        } else if str_eq(l, "aes-192-gcm") {
            Some(AeadMethod::Aes192Gcm)
        } else if str_eq(l, "aes-256-gcm") {
            Some(AeadMethod::Aes256Gcm)
        } else if str_eq(l, "chacha20-ietf-poly1305") {
            Some(AeadMethod::ChaCha20Poly1305)
        } else if str_eq(l, "xchacha20-ietf-poly1305") {
            Some(AeadMethod::XChaCha20Poly1305)
        } else {
            None
        }
    }

    /// The canonical name of the method.
    pub fn name(&self) -> (r: &'static str)
        ensures
            r@ == aead_name(*self),
    {
        match self {
            AeadMethod::Aes128Gcm => "aes-128-gcm",
            AeadMethod::Aes192Gcm => "aes-192-gcm",
            AeadMethod::Aes256Gcm => "aes-256-gcm",
            AeadMethod::ChaCha20Poly1305 => "chacha20-ietf-poly1305",
            AeadMethod::XChaCha20Poly1305 => "xchacha20-ietf-poly1305",
        }
    }

    /// Key length in bytes.
    pub fn key_len(&self) -> (r: usize)
        ensures
            r == aead_key_len(*self),
    {
        match self {
            AeadMethod::Aes128Gcm => 16,
            AeadMethod::Aes192Gcm => 24,
            _ => 32,
        }
    }

    /// Nonce length in bytes.
    pub fn nonce_len(&self) -> (r: usize)
        ensures
            r == aead_nonce_len(*self),
    {
        match self {
            AeadMethod::XChaCha20Poly1305 => 24,
            _ => 12,
        }
    }

    /// Tag length in bytes.
    pub fn tag_len(&self) -> (r: usize)
        ensures
            r == 16,
    {
        16
    }

    /// Salt length in bytes.
    pub fn salt_len(&self) -> (r: usize)
        ensures
            r == 32,
    {
        32
    }
}

proof fn lemma_chunk_count_step(len: nat)
    requires
        len > 0,
    ensures
        chunk_count(len) == 1 + chunk_count((len - (if len <= 0x3FFF { len } else { 0x3FFF })) as nat),
{
}

proof fn lemma_open_single_chunk(m: AeadMethod, k: Seq<u8>, n: nat, c: Seq<u8>, e1: Seq<u8>, e2: Seq<u8>)
    requires
        c.len() <= 0x3FFF,
        e1.len() == 18,
        aead_opened(m, k, chunk_nonce(m, n), e1) == Some(be_bytes_u16(c.len() as u16)),
        e2.len() == c.len() + 16,
        aead_opened(m, k, chunk_nonce(m, n + 1), e2) == Some(c),
    ensures
        open_chunks(m, k, n, e1 + e2) == (Some(c), n + 2),
{
    let d = e1 + e2;
    assert(d.take(18) =~= e1);
    lemma_be_u16_roundtrip(c.len() as u16);
    assert(d.subrange(18, 18 + c.len() as int + 16) =~= e2);
    assert(d.skip(18 + c.len() as int + 16) =~= Seq::<u8>::empty());
    assert(open_chunks(m, k, n + 2, Seq::<u8>::empty()) == (Some(Seq::<u8>::empty()), n + 2));
    assert(c + Seq::<u8>::empty() =~= c);
}

proof fn lemma_open_append(m: AeadMethod, k: Seq<u8>, n: nat, a: Seq<u8>, b: Seq<u8>)
    requires
        open_chunks(m, k, n, a).0 is Some,
    ensures
        open_chunks(m, k, n, a + b) == prepend_output(open_chunks(m, k, n, a).0.unwrap(),
            open_chunks(m, k, open_chunks(m, k, n, a).1, b)),
    decreases a.len(),
{
    if a.len() == 0 {
        assert(a + b =~= b);
        let r = open_chunks(m, k, n, b);
        if r.0 is Some {
            assert(Seq::<u8>::empty() + r.0.unwrap() =~= r.0.unwrap());
        }
    } else {
        let d = a + b;
        assert(d.take(18) =~= a.take(18));
        let lp = aead_opened(m, k, chunk_nonce(m, n), a.take(18)).unwrap();
        let plen = be_u16(lp[0], lp[1]) as int;
        let l = 18 + plen + 16;
        assert(d.subrange(18, l) =~= a.subrange(18, l));
        assert(d.skip(l) =~= a.skip(l) + b);
        let p = aead_opened(m, k, chunk_nonce(m, n + 1), a.subrange(18, l)).unwrap();
        lemma_open_append(m, k, n + 2, a.skip(l), b);
        let x = open_chunks(m, k, n + 2, a.skip(l)).0.unwrap();
        let y = open_chunks(m, k, open_chunks(m, k, n + 2, a.skip(l)).1, b);
        if y.0 is Some {
            assert(p + (x + y.0.unwrap()) =~= (p + x) + y.0.unwrap());
        }
    }
}

/// Decrypting two pieces of a stream in one call gives what decrypting them one after the
/// other gives: the first piece's plaintext followed by the second's, and the same end state,
/// whenever the first piece decrypts on its own.
pub proof fn lemma_aead_tcp_decrypt_concat(s: AeadTcpState, a: Seq<u8>, b: Seq<u8>)
    requires
        aead_tcp_decrypt(s, a).0 is Some,
    ensures
        ({
            let (first, mid) = aead_tcp_decrypt(s, a);
            let (second, end) = aead_tcp_decrypt(mid, b);
            aead_tcp_decrypt(s, a + b) == (
                match second {
                    Some(y) => Some(first.unwrap() + y),
                    None => None,
                },
                end,
            )
        }),
{
    let m = s.method;
    if !s.initialized {
        let d = a + b;
        assert(d.take(32) =~= a.take(32));
        assert(d.skip(32) =~= a.skip(32) + b);
        let sk = aead_subkey(m, s.key, a.take(32));
        lemma_open_append(m, sk, 0, a.skip(32), b);
    } else {
        lemma_open_append(m, s.subkey, s.nonce, a, b);
    }
}

/// Decryption of `cs` one piece after the other from `s`: the plaintexts in order (nothing
/// once a piece fails) and the end state.
pub open spec fn aead_decrypt_each(s: AeadTcpState, cs: Seq<Seq<u8>>) -> (Option<Seq<Seq<u8>>>, AeadTcpState)
    decreases cs.len(),
{
    if cs.len() == 0 {
        (Some(Seq::empty()), s)
    } else {
        let (o, s1) = aead_tcp_decrypt(s, cs[0]);
        match o {
            None => (None, s1),
            Some(p) => {
                let (rest, s2) = aead_decrypt_each(s1, cs.drop_first());
                (
                    match rest {
                        Some(ps) => Some(seq![p] + ps),
                        None => None,
                    },
                    s2,
                )
            },
        }
    }
}

/// Law of a TCP AEAD stream: when each of the outputs `cs[i]` of a sender decrypts, from the
/// sender's state `states[i]` before that write, to the plaintext `ps[i]` and the state after
/// it (as `AeadTcpCipher::encrypt` ensures of every write), a receiver that starts in the
/// sender's first state gets every plaintext back in order, reading the outputs one by one or
/// all in one call, and ends in the sender's last state.
pub proof fn lemma_aead_tcp_decrypt_chain(states: Seq<AeadTcpState>, ps: Seq<Seq<u8>>, cs: Seq<Seq<u8>>)
    requires
        cs.len() >= 1,
        ps.len() == cs.len(),
        states.len() == cs.len() + 1,
        forall|i: int| 0 <= i < cs.len() ==> #[trigger] aead_tcp_decrypt(states[i], cs[i]) == (Some(ps[i]), states[i + 1]),
    ensures
        aead_decrypt_each(states[0], cs) == (Some(ps), states.last()),
        aead_tcp_decrypt(states[0], cs.flatten()) == (Some(ps.flatten()), states.last()),
    decreases cs.len(),
{
    assert(aead_tcp_decrypt(states[0], cs[0]) == (Some(ps[0]), states[1]));
    if cs.len() == 1 {
        assert(cs.drop_first() =~= Seq::<Seq<u8>>::empty());
        assert(ps.drop_first() =~= Seq::<Seq<u8>>::empty());
        assert(cs.flatten() =~= cs[0]) by {
            assert(cs.drop_first().flatten() =~= Seq::<u8>::empty());
        }
        assert(ps.flatten() =~= ps[0]) by {
            assert(ps.drop_first().flatten() =~= Seq::<u8>::empty());
        }
        assert(seq![ps[0]] + Seq::<Seq<u8>>::empty() =~= ps);
        assert(aead_decrypt_each(states[1], cs.drop_first()) == (Some(Seq::<Seq<u8>>::empty()), states[1]));
        assert(states.last() == states[1]);
    } else {
        let st = states.drop_first();
        let pt = ps.drop_first();
        let ct = cs.drop_first();
        assert forall|i: int| 0 <= i < ct.len() implies #[trigger] aead_tcp_decrypt(st[i], ct[i]) == (Some(pt[i]), st[i + 1]) by {
            assert(aead_tcp_decrypt(states[i + 1], cs[i + 1]) == (Some(ps[i + 1]), states[i + 2]));
        }
        lemma_aead_tcp_decrypt_chain(st, pt, ct);
        assert(st.last() == states.last());
        assert(st[0] == states[1]);
        assert(aead_decrypt_each(states[1], ct) == (Some(pt), states.last()));
        assert(seq![ps[0]] + pt =~= ps);
        lemma_aead_tcp_decrypt_concat(states[0], cs[0], ct.flatten());
        assert(cs.flatten() == cs[0] + ct.flatten());
        assert(ps.flatten() == ps[0] + pt.flatten());
    }
}

/// The AEAD failure as a library error: a crypto error saying `Invalid Length` for a key of
/// the wrong length, and carrying `refused` when the algorithm refused the input.
fn aead_error(f: AeadFailure, refused: &str) -> (r: Error)
    ensures
        r matches Error::Crypto(m) && m@ == match f {
            AeadFailure::BadKey => "Invalid Length"@,
            AeadFailure::Refused => refused@,
        },
{
    match f {
        AeadFailure::BadKey => Error::Crypto(msg("Invalid Length")),
        AeadFailure::Refused => Error::Crypto(msg(refused)),
    }
}

/// Seals `pt` (no associated data) under the method's algorithm.
fn aead_encrypt(method: AeadMethod, key: &[u8], nonce: &[u8], pt: &[u8]) -> (r: Result<Vec<u8>>)
    requires
        nonce@.len() == aead_nonce_len(method),
    ensures
        r is Ok <==> aead_accepts_key(method, key@) && aead_accepts_len(method, pt@.len()),
        r matches Ok(v) ==> v@ == aead_sealed(method, key@, nonce@, pt@) && v@.len() == pt@.len() + 16
            && aead_opened(method, key@, nonce@, v@) == Some(pt@),
        r matches Err(e) ==> e is Crypto,
{
    let no_aad: Vec<u8> = Vec::new();
    let aad = no_aad.as_slice();
    let r = match method {
        AeadMethod::Aes128Gcm => aes128_gcm_seal(key, nonce, pt, aad),
        AeadMethod::Aes192Gcm => aes192_gcm_seal(key, nonce, pt, aad),
        AeadMethod::Aes256Gcm => aes256_gcm_seal(key, nonce, pt, aad),
        AeadMethod::ChaCha20Poly1305 => chacha20_poly1305_seal(key, nonce, pt, aad),
        AeadMethod::XChaCha20Poly1305 => xchacha20_poly1305_seal(key, nonce, pt, aad),
    };
    match r {
        Ok(v) => Ok(v),
        Err(f) => Err(aead_error(f, match method {
            AeadMethod::Aes128Gcm => "aes-128-gcm enc",
            AeadMethod::Aes192Gcm => "aes-192-gcm enc",
            AeadMethod::Aes256Gcm => "aes-256-gcm enc",
            AeadMethod::ChaCha20Poly1305 => "chacha20-poly1305 enc",
            AeadMethod::XChaCha20Poly1305 => "xchacha20-poly1305 enc",
        })),
    }
}

/// Opens `ct` (no associated data) under the method's algorithm.
fn aead_decrypt(method: AeadMethod, key: &[u8], nonce: &[u8], ct: &[u8]) -> (r: Result<Vec<u8>>)
    requires
        nonce@.len() == aead_nonce_len(method),
    ensures
        r is Ok <==> aead_opened(method, key@, nonce@, ct@) is Some,
        r matches Ok(v) ==> Some(v@) == aead_opened(method, key@, nonce@, ct@) && v@.len() + 16 == ct@.len(),
        r matches Err(e) ==> e is Crypto,
{
    let no_aad: Vec<u8> = Vec::new();
    let aad = no_aad.as_slice();
    let r = match method {
        AeadMethod::Aes128Gcm => aes128_gcm_open(key, nonce, ct, aad),
        AeadMethod::Aes192Gcm => aes192_gcm_open(key, nonce, ct, aad),
        AeadMethod::Aes256Gcm => aes256_gcm_open(key, nonce, ct, aad),
        AeadMethod::ChaCha20Poly1305 => chacha20_poly1305_open(key, nonce, ct, aad),
        AeadMethod::XChaCha20Poly1305 => xchacha20_poly1305_open(key, nonce, ct, aad),
    };
    match r {
        Ok(v) => Ok(v),
        Err(f) => Err(aead_error(f, match method {
            AeadMethod::Aes128Gcm => "aes-128-gcm dec",
            AeadMethod::Aes192Gcm => "aes-192-gcm dec",
            AeadMethod::Aes256Gcm => "aes-256-gcm dec",
            AeadMethod::ChaCha20Poly1305 => "chacha20-poly1305 dec",
            AeadMethod::XChaCha20Poly1305 => "xchacha20-poly1305 dec",
        })),
    }
}

/// The session key for `salt`: HKDF-SHA256 of the master key with info `ss-subkey`.
fn derive_subkey(key: &[u8], salt: &[u8], out_len: usize) -> (r: Vec<u8>)
    requires
        out_len <= 8160,
    ensures
        r@ == hkdf_sha256_okm(salt@, key@, "ss-subkey".spec_bytes(), out_len as nat),
        r@.len() == out_len,
{
    hkdf_sha256_expand(salt, key, "ss-subkey".as_bytes(), out_len)
}

/// A nonce of `nonce_len` bytes carrying `counter` big-endian at its end.
fn build_nonce(nonce_len: usize, counter: u64) -> (r: Vec<u8>)
    ensures
        r@ == nonce_bytes(nonce_len as nat, counter as nat),
{
    let cb = u64_to_be(counter);
    let start: usize = if nonce_len >= 8 { nonce_len - 8 } else { 0 };
    let mut nonce: Vec<u8> = Vec::new();
    let mut i: usize = 0;
    while i < nonce_len
        invariant
            i <= nonce_len,
            cb@ == be_bytes_u64(counter),
            start == (if nonce_len >= 8 { nonce_len - 8 } else { 0 }),
            nonce@ == nonce_bytes(nonce_len as nat, counter as nat).take(i as int),
        decreases nonce_len - i,
    {
        if i < start {
            nonce.push(0u8);
        } else {
            nonce.push(cb[i - start]);
        }
        i = i + 1;
        assert(nonce@ =~= nonce_bytes(nonce_len as nat, counter as nat).take(i as int));
    }
    assert(nonce@ =~= nonce_bytes(nonce_len as nat, counter as nat));
    nonce
}

/// What holds between the chunks produced so far and the plaintext consumed so far.
spec fn chunks_progress(m: AeadMethod, k: Seq<u8>, n0: nat, pt: Seq<u8>, p: int, produced: Seq<u8>, n: nat) -> bool {
    &&& 0 <= p <= pt.len()
    &&& n + 2 * chunk_count((pt.len() - p) as nat) == n0 + 2 * chunk_count(pt.len())
    &&& p > 0 ==> aead_accepts_key(m, k)
    &&& p > 0 ==> seal_chunks(m, k, n0, pt) == produced + seal_chunks(m, k, n, pt.skip(p))
    &&& p == 0 ==> produced == Seq::<u8>::empty() && n == n0
    &&& open_chunks(m, k, n0, produced) == (Some(pt.take(p)), n)
}

proof fn lemma_chunks_progress_step(m: AeadMethod, k: Seq<u8>, n0: nat, pt: Seq<u8>, p: int, produced: Seq<u8>,
    n: nat, l: int, e1: Seq<u8>, e2: Seq<u8>)
    requires
        chunks_progress(m, k, n0, pt, p, produced, n),
        p < pt.len(),
        l == (if pt.len() - p <= 0x3FFF { pt.len() - p } else { 0x3FFF }),
        aead_accepts_key(m, k),
        e1 == aead_sealed(m, k, chunk_nonce(m, n), be_bytes_u16(l as u16)),
        e1.len() == 18,
        aead_opened(m, k, chunk_nonce(m, n), e1) == Some(be_bytes_u16(l as u16)),
        e2 == aead_sealed(m, k, chunk_nonce(m, n + 1), pt.subrange(p, p + l)),
        e2.len() == l + 16,
        aead_opened(m, k, chunk_nonce(m, n + 1), e2) == Some(pt.subrange(p, p + l)),
    ensures
        chunks_progress(m, k, n0, pt, p + l, produced + (e1 + e2), n + 2),
{
    let rest = pt.skip(p);
    let c = pt.subrange(p, p + l);
    assert(rest.take(l) =~= c);
    assert(rest.skip(l) =~= pt.skip(p + l));
    lemma_chunk_count_step(rest.len());
    assert(seal_chunks(m, k, n, rest) == (e1 + e2) + seal_chunks(m, k, n + 2, pt.skip(p + l)));
    if p > 0 {
        assert(produced + (e1 + e2) + seal_chunks(m, k, n + 2, pt.skip(p + l))
            =~= produced + ((e1 + e2) + seal_chunks(m, k, n + 2, pt.skip(p + l))));
    } else {
        assert(pt.skip(p) =~= pt);
        assert(produced + (e1 + e2) =~= e1 + e2);
    }
    lemma_open_single_chunk(m, k, n, c, e1, e2);
    lemma_open_append(m, k, n0, produced, e1 + e2);
    assert(pt.take(p) + c =~= pt.take(p + l));
}

/// Cuts `pt` into chunks of at most `CHUNK_SIZE` bytes and appends each as its sealed length
/// followed by its sealed payload, using two counter values per chunk.
fn encrypt_chunks(out: &mut Vec<u8>, nonce: &mut u64, subkey: &[u8], method: AeadMethod, pt: &[u8]) -> (r: Result<()>)
    requires
        *old(nonce) + 2 * chunk_count(pt@.len()) <= u64::MAX,
    ensures
        ({
            let (o, n) = encrypt_chunks_spec(method, subkey@, *old(nonce) as nat, pt@);
            &&& *final(nonce) == n
            &&& (r is Ok <==> o is Some)
            &&& r is Ok ==> final(out)@ == old(out)@ + o.unwrap()
        }),
        r matches Err(e) ==> e is Crypto,
        r is Ok ==> open_chunks(method, subkey@, *old(nonce) as nat, final(out)@.skip(old(out)@.len() as int))
            == (Some(pt@), *final(nonce) as nat),
{
    let ghost n0: nat = *nonce as nat;
    let ghost out0 = out@;
    let ghost k = subkey@;
    let m = method;
    let mut produced: Vec<u8> = Vec::new();
    let mut p: usize = 0;
    assert(pt@.take(0) =~= Seq::<u8>::empty());
    assert(open_chunks(m, k, n0, Seq::<u8>::empty()) == (Some(Seq::<u8>::empty()), n0));
    while p < pt.len()
        invariant
            chunks_progress(m, k, n0, pt@, p as int, produced@, *nonce as nat),
            n0 + 2 * chunk_count(pt@.len()) <= u64::MAX,
            subkey@ == k,
            n0 == *old(nonce) as nat,
            out@ == out0,
            out0 == old(out)@,
            m == method,
        decreases pt@.len() - p,
    {
        let rem = pt.len() - p;
        let l: usize = if rem <= CHUNK_SIZE { rem } else { CHUNK_SIZE };
        proof {
            lemma_chunk_count_step(rem as nat);
        }
        let chunk = &pt[p..p + l];
        let len_be = u16_to_be(l as u16);
        let n1 = build_nonce(m.nonce_len(), *nonce);
        let ghost c1: nat = *nonce as nat;
        *nonce = *nonce + 1;
        let enc_len = match aead_encrypt(m, subkey, n1.as_slice(), &len_be) {
            Ok(v) => v,
            Err(e) => {
                proof {
                    assert(aead_accepts_len(m, 2));
                    assert(encrypt_chunks_spec(m, k, n0, pt@) == (None::<Seq<u8>>, n0 + 1));
                }
                return Err(e);
            },
        };
        let n2 = build_nonce(m.nonce_len(), *nonce);
        *nonce = *nonce + 1;
        let enc_payload = match aead_encrypt(m, subkey, n2.as_slice(), chunk) {
            Ok(v) => v,
            Err(e) => {
                proof {
                    assert(false);
                }
                return Err(e);
            },
        };
        let ghost before = produced@;
        produced.extend_from_slice(enc_len.as_slice());
        produced.extend_from_slice(enc_payload.as_slice());
        proof {
            lemma_chunks_progress_step(m, k, n0, pt@, p as int, before, c1, l as int, enc_len@, enc_payload@);
            assert(produced@ =~= before + (enc_len@ + enc_payload@));
        }
        p = p + l;
    }
    out.extend_from_slice(produced.as_slice());
    proof {
        assert(pt@.take(p as int) =~= pt@);
        assert(out@.skip(out0.len() as int) =~= produced@);
        if p > 0 {
            assert(pt@.skip(p as int) =~= Seq::<u8>::empty());
            assert(produced@ + seal_chunks(m, k, *nonce as nat, Seq::<u8>::empty()) =~= produced@);
        }
    }
    Ok(())
}

/// Decrypts a run of whole chunks, two counter values per chunk.
fn decrypt_chunks(data: &[u8], nonce: &mut u64, subkey: &[u8], method: AeadMethod) -> (r: Result<Vec<u8>>)
    requires
        *old(nonce) + data@.len() + 2 <= u64::MAX,
    ensures
        aead_outcome_is(r, open_chunks(method, subkey@, *old(nonce) as nat, data@).0),
        *final(nonce) as nat == open_chunks(method, subkey@, *old(nonce) as nat, data@).1,
{
    let ghost n0: nat = *nonce as nat;
    let ghost k = subkey@;
    let m = method;
    let mut out: Vec<u8> = Vec::new();
    let mut offset: usize = 0;
    assert(data@.skip(0) =~= data@);
    proof {
        let r0 = open_chunks(m, k, n0, data@);
        if r0.0 is Some {
            assert(Seq::<u8>::empty() + r0.0.unwrap() =~= r0.0.unwrap());
        }
    }
    while offset < data.len()
        invariant
            offset <= data@.len(),
            open_chunks(m, k, n0, data@) == prepend_output(out@, open_chunks(m, k, *nonce as nat, data@.skip(offset as int))),
            *nonce + (data@.len() - offset) + 2 <= u64::MAX,
            subkey@ == k,
            n0 == *old(nonce) as nat,
            m == method,
        decreases data@.len() - offset,
    {
        let ghost d = data@.skip(offset as int);
        let ghost c0: nat = *nonce as nat;
        if data.len() - offset < 18 {
            proof {
                assert(d.len() < 18 && d.len() > 0);
                assert(open_chunks(m, k, c0, d) == (None::<Seq<u8>>, c0));
                assert(open_chunks(m, k, n0, data@) == (None::<Seq<u8>>, c0));
            }
            return Err(Error::Crypto(msg("aead chunk")));
        }
        let n1 = build_nonce(m.nonce_len(), *nonce);
        *nonce = *nonce + 1;
        let head = &data[offset..offset + 18];
        assert(head@ =~= d.take(18));
        let len_plain = match aead_decrypt(m, subkey, n1.as_slice(), head) {
            Ok(v) => v,
            Err(e) => {
                return Err(e);
            },
        };
        offset = offset + 18;
        let plen = u16_from_be(len_plain[0], len_plain[1]) as usize;
        let ps = plen + 16;
        if data.len() - offset < ps {
            return Err(Error::Crypto(msg("aead payload")));
        }
        let n2 = build_nonce(m.nonce_len(), *nonce);
        *nonce = *nonce + 1;
        let body = &data[offset..offset + ps];
        assert(body@ =~= d.subrange(18, 18 + plen + 16));
        let plain = match aead_decrypt(m, subkey, n2.as_slice(), body) {
            Ok(v) => v,
            Err(e) => {
                return Err(e);
            },
        };
        offset = offset + ps;
        assert(data@.skip(offset as int) =~= d.skip(18 + plen + 16));
        let ghost before = out@;
        out.extend_from_slice(plain.as_slice());
        proof {
            let rest = open_chunks(m, k, c0 + 2, data@.skip(offset as int));
            if rest.0 is Some {
                assert(before + (plain@ + rest.0.unwrap()) =~= (before + plain@) + rest.0.unwrap());
            }
        }
    }
    proof {
        assert(data@.skip(offset as int) =~= Seq::<u8>::empty());
        assert(out@ + Seq::<u8>::empty() =~= out@);
    }
    Ok(out)
}

/// The TCP AEAD cipher of one direction of a connection: a salt, the session key derived from
/// it, and a counter that advances by two per chunk.
pub struct AeadTcpCipher {
    method: AeadMethod,
    key: Vec<u8>,
    salt: Vec<u8>,
    nonce: u64,
    subkey: Vec<u8>,
    initialized: bool,
}

impl View for AeadTcpCipher {
    type V = AeadTcpState;

    closed spec fn view(&self) -> AeadTcpState {
        AeadTcpState {
            method: self.method,
            key: self.key@,
            salt: self.salt@,
            nonce: self.nonce as nat,
            subkey: self.subkey@,
            initialized: self.initialized,
        }
    }
}

/// Whether encrypting `len` bytes keeps the chunk counter within 64 bits.
pub open spec fn aead_encrypt_fits(s: AeadTcpState, len: nat) -> bool {
    (if s.initialized { s.nonce } else { 0 }) + 2 * chunk_count(len) <= u64::MAX
}

/// Whether decrypting `len` bytes keeps the chunk counter within 64 bits.
pub open spec fn aead_decrypt_fits(s: AeadTcpState, len: nat) -> bool {
    (if s.initialized { s.nonce } else { 0 }) + len + 2 <= u64::MAX
}

impl AeadTcpCipher {
    #[verifier::type_invariant]
    spec fn wf(self) -> bool {
        &&& self.salt@.len() == 32
        &&& self.initialized ==> self.subkey@ == aead_subkey(self.method, self.key@, self.salt@)
        &&& self.initialized ==> self.subkey@.len() == aead_key_len(self.method)
    }

    /// A cipher for `method` under the master key `key`, not started yet.
    pub fn new(method: AeadMethod, key: Vec<u8>) -> (r: Self)
        ensures
            r@ == (AeadTcpState {
                method: method,
                key: key@,
                salt: Seq::new(32, |i: int| 0u8),
                nonce: 0,
                subkey: Seq::empty(),
                initialized: false,
            }),
    {
        let r = AeadTcpCipher {
            method,
            key,
            salt: vec![0u8; method.salt_len()],
            nonce: 0,
            subkey: Vec::new(),
            initialized: false,
        };
        assert(r@.salt =~= Seq::new(32, |i: int| 0u8));
        r
    }

    /// The method of this cipher.
    pub fn method(&self) -> (r: AeadMethod)
        ensures
            r == self@.method,
    {
        self.method
    }

    /// Whether the cipher has been started (its salt fixed).
    pub fn is_initialized(&self) -> (r: bool)
        ensures
            r == self@.initialized,
    {
        self.initialized
    }

    /// Whether encrypting `len` bytes keeps the chunk counter within 64 bits.
    pub fn can_encrypt(&self, len: usize) -> (r: bool)
        ensures
            r == aead_encrypt_fits(self@, len as nat),
    {
        let n: u128 = if self.initialized { self.nonce as u128 } else { 0 };
        let chunks: u128 = (len as u128 + 0x3FFE) / 0x3FFF;
        n + 2 * chunks <= u64::MAX as u128
    }

    /// Whether decrypting `len` bytes keeps the chunk counter within 64 bits.
    pub fn can_decrypt(&self, len: usize) -> (r: bool)
        ensures
            r == aead_decrypt_fits(self@, len as nat),
    {
        let n: u128 = if self.initialized { self.nonce as u128 } else { 0 };
        n + len as u128 + 2 <= u64::MAX as u128
    }

    /// Encrypts `plaintext`; a cipher that is not started yet starts with `fresh_salt`.
    /// A receiver in the state this cipher was in decrypts the output to `plaintext` and ends
    /// in the state this cipher is in afterwards.
    pub fn encrypt_with_salt(&mut self, plaintext: &[u8], fresh_salt: &[u8]) -> (r: Result<Vec<u8>>)
        requires
            fresh_salt@.len() == 32,
            aead_encrypt_fits(old(self)@, plaintext@.len()),
        ensures
            aead_outcome_is(r, aead_tcp_encrypt(old(self)@, plaintext@, fresh_salt@).0),
            final(self)@ == aead_tcp_encrypt(old(self)@, plaintext@, fresh_salt@).1,
            r matches Ok(v) ==> aead_tcp_decrypt(old(self)@, v@) == (Some(plaintext@), final(self)@),
            r is Ok,
    {
        proof {
            use_type_invariant(&*self);
        }
        let m = self.method;
        let mut out: Vec<u8> = Vec::new();
        if !self.initialized {
            self.salt = slice_to_vec(fresh_salt);
            self.subkey = derive_subkey(self.key.as_slice(), self.salt.as_slice(), m.key_len());
            self.nonce = 0;
            self.initialized = true;
            out.extend_from_slice(self.salt.as_slice());
        }
        let ghost out1 = out@;
        let ghost n1 = self.nonce;
        let mut nonce = self.nonce;
        let res = encrypt_chunks(&mut out, &mut nonce, self.subkey.as_slice(), m, plaintext);
        self.nonce = nonce;
        match res {
            Err(e) => Err(e),
            Ok(()) => {
                proof {
                    let sk = if old(self)@.initialized { old(self)@.subkey } else { aead_subkey(m, old(self)@.key, fresh_salt@) };
                    let o = encrypt_chunks_spec(m, sk, n1 as nat, plaintext@).0;
                    assert(out@ == out1 + o.unwrap());
                    if !old(self)@.initialized {
                        assert(out1 =~= fresh_salt@);
                        assert(out@.take(32) =~= fresh_salt@);
                        assert(out@.skip(32) =~= out@.skip(out1.len() as int));
                    } else {
                        assert(out1 =~= Seq::<u8>::empty());
                        assert(out1 + o.unwrap() =~= o.unwrap());
                        assert(out@.skip(0) =~= out@);
                    }
                }
                Ok(out)
            },
        }
    }

    /// Encrypts `plaintext`; a cipher that is not started yet draws a random salt first.
    /// A receiver in the state this cipher was in decrypts the output to `plaintext` and ends
    /// in the state this cipher is in afterwards.
    pub fn encrypt(&mut self, plaintext: &[u8]) -> (r: Result<Vec<u8>>)
        requires
            aead_encrypt_fits(old(self)@, plaintext@.len()),
        ensures
            final(self)@.salt.len() == 32,
            old(self)@.initialized ==> final(self)@.salt == old(self)@.salt,
            aead_outcome_is(r, aead_tcp_encrypt(old(self)@, plaintext@, final(self)@.salt).0),
            final(self)@ == aead_tcp_encrypt(old(self)@, plaintext@, final(self)@.salt).1,
            r matches Ok(v) ==> aead_tcp_decrypt(old(self)@, v@) == (Some(plaintext@), final(self)@),
            r is Ok,
    {
        proof {
            use_type_invariant(&*self);
        }
        let fresh = if self.initialized {
            slice_to_vec(self.salt.as_slice())
        } else {
            rand_bytes(self.method.salt_len())
        };
        self.encrypt_with_salt(plaintext, fresh.as_slice())
    }

    /// Decrypts `data`; a cipher that is not started yet takes its salt from the front of
    /// `data` and fails when `data` is shorter than a salt.
    pub fn decrypt(&mut self, data: &[u8]) -> (r: Result<Vec<u8>>)
        requires
            aead_decrypt_fits(old(self)@, data@.len()),
        ensures
            aead_outcome_is(r, aead_tcp_decrypt(old(self)@, data@).0),
            final(self)@ == aead_tcp_decrypt(old(self)@, data@).1,
    {
        proof {
            use_type_invariant(&*self);
        }
        let m = self.method;
        let sl = m.salt_len();
        if !self.initialized {
            if data.len() < sl {
                return Err(Error::Crypto(msg("aead: short")));
            }
            self.salt = slice_to_vec(&data[0..sl]);
            assert(self.salt@ =~= data@.take(32));
            self.subkey = derive_subkey(self.key.as_slice(), self.salt.as_slice(), m.key_len());
            self.nonce = 0;
            self.initialized = true;
            let rest = &data[sl..data.len()];
            assert(rest@ =~= data@.skip(32));
            let mut nonce = self.nonce;
            let r = decrypt_chunks(rest, &mut nonce, self.subkey.as_slice(), m);
            self.nonce = nonce;
            return r;
        }
        let mut nonce = self.nonce;
        let r = decrypt_chunks(data, &mut nonce, self.subkey.as_slice(), m);
        self.nonce = nonce;
        r
    }
}

/// The UDP AEAD cipher: every packet carries its own salt and is sealed under the zero nonce.
pub struct AeadUdpCipher {
    method: AeadMethod,
    key: Vec<u8>,
}

impl View for AeadUdpCipher {
    type V = (AeadMethod, Seq<u8>);

    closed spec fn view(&self) -> (AeadMethod, Seq<u8>) {
        (self.method, self.key@)
    }
}

impl AeadUdpCipher {
    /// A cipher for `method` under the master key `key`.
    pub fn new(method: AeadMethod, key: Vec<u8>) -> (r: Self)
        ensures
            r@ == (method, key@),
    {
        AeadUdpCipher { method, key }
    }

    /// Seals one packet with the given salt: the salt, then the sealed payload under the
    /// session key for that salt and the zero nonce. Decrypting the output gives `plaintext`.
    pub fn encrypt_with_salt(&self, plaintext: &[u8], salt: &[u8]) -> (r: Result<Vec<u8>>)
        requires
            salt@.len() == 32,
        ensures
            r is Ok <==> aead_accepts_len(self@.0, plaintext@.len()),
            r matches Ok(v) ==> v@ == salt@ + aead_sealed(self@.0, aead_subkey(self@.0, self@.1, salt@),
                Seq::new(aead_nonce_len(self@.0), |i: int| 0u8), plaintext@),
            r matches Ok(v) ==> aead_udp_decrypt(self@.0, self@.1, v@) == Some(plaintext@),
            r matches Ok(v) ==> v@.len() == 32 + plaintext@.len() + 16,
            r matches Err(e) ==> e is Crypto,
    {
        let m = self.method;
        let subkey = derive_subkey(self.key.as_slice(), salt, m.key_len());
        let nonce: Vec<u8> = vec![0u8; m.nonce_len()];
        let ct = match aead_encrypt(m, subkey.as_slice(), nonce.as_slice(), plaintext) {
            Ok(v) => v,
            Err(e) => {
                return Err(e);
            },
        };
        let out = concat_bytes(salt, ct.as_slice());
        proof {
            assert(nonce@ =~= Seq::new(aead_nonce_len(m), |i: int| 0u8));
            assert(out@.take(32) =~= salt@);
            assert(out@.skip(32) =~= ct@);
        }
        Ok(out)
    }

    /// Seals one packet under a random salt. Decrypting the output gives `plaintext`.
    pub fn encrypt(&self, plaintext: &[u8]) -> (r: Result<Vec<u8>>)
        ensures
            r is Ok <==> aead_accepts_len(self@.0, plaintext@.len()),
            r matches Ok(v) ==> v@.skip(32) == aead_sealed(self@.0, aead_subkey(self@.0, self@.1, v@.take(32)),
                Seq::new(aead_nonce_len(self@.0), |i: int| 0u8), plaintext@),
            r matches Ok(v) ==> aead_udp_decrypt(self@.0, self@.1, v@) == Some(plaintext@),
            r matches Ok(v) ==> v@.len() == 32 + plaintext@.len() + 16,
            r matches Err(e) ==> e is Crypto,
    {
        let salt = rand_bytes(self.method.salt_len());
        let r = self.encrypt_with_salt(plaintext, salt.as_slice());
        proof {
            if r is Ok {
                let v = r->Ok_0@;
                assert(v.take(32) =~= salt@);
                assert(v.skip(32) =~= v.skip(32));
            }
        }
        r
    }

    /// Opens one packet: fails when it is shorter than salt and tag, or does not open.
    pub fn decrypt(&self, data: &[u8]) -> (r: Result<Vec<u8>>)
        ensures
            aead_outcome_is(r, aead_udp_decrypt(self@.0, self@.1, data@)),
    {
        let m = self.method;
        let sl = m.salt_len();
        if data.len() < sl + m.tag_len() {
            return Err(Error::Crypto(msg("aead udp: short")));
        }
        let salt = &data[0..sl];
        assert(salt@ =~= data@.take(32));
        let subkey = derive_subkey(self.key.as_slice(), salt, m.key_len());
        let nonce: Vec<u8> = vec![0u8; m.nonce_len()];
        assert(nonce@ =~= Seq::new(aead_nonce_len(m), |i: int| 0u8));
        let rest = &data[sl..data.len()];
        assert(rest@ =~= data@.skip(32));
        aead_decrypt(m, subkey.as_slice(), nonce.as_slice(), rest)
    }
}

/// `a` followed by `b`, as a new vector.
fn concat_bytes(a: &[u8], b: &[u8]) -> (r: Vec<u8>)
    ensures
        r@ == a@ + b@,
{
    let mut out = slice_to_vec(a);
    out.extend_from_slice(b);
    out
}


/// Law of chunk nonces: the nonce for counter `n` carries `n` big-endian in its last eight
/// bytes and zeros before them, so its byte `len - 1 - k` is bits `8k` to `8k + 7` of `n`
/// (the nonce of counter 1 ends in the byte 1).
pub proof fn lemma_nonce_counter_big_endian(len: nat, n: u64)
    requires
        len >= 8,
    ensures
        nonce_bytes(len, n as nat).len() == len,
        forall|k: int| 0 <= k < 8 ==> #[trigger] nonce_bytes(len, n as nat)[len - 1 - k] == ((n >> (8 * k) as u64) & 0xff) as u8,
        forall|i: int| 0 <= i < len - 8 ==> #[trigger] nonce_bytes(len, n as nat)[i] == 0,
{
    let b = nonce_bytes(len, n as nat);
    crate::bytes::lemma_be_bytes_u64_digits(n);
    assert forall|k: int| 0 <= k < 8 implies #[trigger] b[len - 1 - k] == ((n >> (8 * k) as u64) & 0xff) as u8 by {
        assert(b[len - 1 - k] == be_bytes_u64(n)[7 - k]);
        if k == 0 {
        } else if k == 1 {
        } else if k == 2 {
        } else if k == 3 {
        } else if k == 4 {
        } else if k == 5 {
        } else if k == 6 {
        } else {
        }
    }
}

/// The nonces of every method carry the counter big-endian at their end.
pub proof fn lemma_chunk_nonce_counter(m: AeadMethod, n: u64)
    ensures
        chunk_nonce(m, n as nat).len() == aead_nonce_len(m),
        forall|k: int| 0 <= k < 8 ==> #[trigger] chunk_nonce(m, n as nat)[aead_nonce_len(m) - 1 - k]
            == ((n >> (8 * k) as u64) & 0xff) as u8,
        forall|i: int| 0 <= i < aead_nonce_len(m) - 8 ==> #[trigger] chunk_nonce(m, n as nat)[i] == 0,
{
    lemma_nonce_counter_big_endian(aead_nonce_len(m), n);
}


/// Law of chunk sealing: the first chunk of a plaintext carries the chunk's length (at most
/// `0x3FFF`) as two big-endian bytes sealed under counter `n`, then the chunk's bytes sealed
/// under counter `n + 1`; the rest is sealed from counter `n + 2` on.
pub proof fn lemma_seal_first_chunk(m: AeadMethod, k: Seq<u8>, n: nat, pt: Seq<u8>)
    requires
        pt.len() > 0,
    ensures
        ({
            let len: int = if pt.len() <= 0x3FFF { pt.len() as int } else { 0x3FFF };
            seal_chunks(m, k, n, pt) == aead_sealed(m, k, chunk_nonce(m, n), seq![(len / 256) as u8, (len % 256) as u8])
                + aead_sealed(m, k, chunk_nonce(m, n + 1), pt.take(len)) + seal_chunks(m, k, n + 2, pt.skip(len))
        }),
{
    let len: int = if pt.len() <= 0x3FFF { pt.len() as int } else { 0x3FFF };
    crate::bytes::lemma_be_u16_value(0, 0, len as u16);
    assert(be_bytes_u16(len as u16) =~= seq![(len / 256) as u8, (len % 256) as u8]);
}

/// Law of the HKDF step: the session key is HKDF-SHA256 with the salt as salt, the master key
/// as input key material and the nine ASCII bytes `ss-subkey` as info, as long as the method's key.
pub proof fn lemma_subkey_info(m: AeadMethod, key: Seq<u8>, salt: Seq<u8>)
    ensures
        aead_subkey(m, key, salt) == hkdf_sha256_okm(salt, key, seq![115u8, 115, 45, 115, 117, 98, 107, 101, 121], aead_key_len(m)),
{
    reveal_strlit("ss-subkey");
    let c = "ss-subkey"@;
    assert(vstd::utf8::is_ascii_chars(c));
    vstd::utf8::is_ascii_chars_encode_utf8(c);
    assert("ss-subkey".spec_bytes() =~= seq![115u8, 115, 45, 115, 117, 98, 107, 101, 121]);
}

} // verus!
