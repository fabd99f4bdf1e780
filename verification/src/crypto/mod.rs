pub mod method;
pub mod table;
pub mod primitives;
pub mod stream;
pub mod key_derive;
pub mod hkdf;
pub mod aead;
pub mod cipher_names;

use vstd::prelude::*;
use vstd::string::{StringSliceAdditionalSpecFns, StringExecFns};
use crate::error::{Error, Result, msg};
use crate::text::{str_to_lowercase, is_ascii_text, ascii_lowercase};
use method::{cipher_by_name, cipher_name, cipher_key_len, cipher_iv_len};
use stream::{CipherMethod, StreamCipher, StreamState, fresh_stream, stream_encrypt, stream_decrypt, encrypt_fits,
    decrypt_fits, outcome_is, stream_roundtrips, lemma_stream_step, stream_key_ok};
use aead::{AeadMethod, AeadTcpCipher, AeadUdpCipher, AeadTcpState, aead_by_name, aead_name, aead_key_len,
    aead_tcp_encrypt, aead_tcp_decrypt, aead_encrypt_fits, aead_decrypt_fits, aead_outcome_is};
use key_derive::{bytes_to_key, crypto_derive_key, evp_bytes};

verus! {

/// Mathematical state of an `SsrCipher`: the state of its encrypting direction, then that of
/// its decrypting direction.
pub enum SsrState {
    Stream(StreamState, StreamState),
    AeadTcp(AeadTcpState, AeadTcpState),
}

/// The state of a TCP AEAD cipher as `AeadTcpCipher::new` builds it.
pub open spec fn fresh_aead(m: AeadMethod, key: Seq<u8>) -> AeadTcpState {
    AeadTcpState { method: m, key: key, salt: Seq::new(32, |i: int| 0u8), nonce: 0, subkey: Seq::empty(), initialized: false }
}

/// The key a stream method runs with for a password: the password itself for `table`, the
/// `EVP_BytesToKey` key otherwise.
pub open spec fn stream_key_for(m: CipherMethod, password: Seq<u8>) -> Seq<u8> {
    if m is Table {
        password
    } else {
        evp_bytes(password, cipher_key_len(m) + cipher_iv_len(m)).take(cipher_key_len(m) as int)
    }
}

/// The cipher that the (lower-cased) method name and the password select, if the name is
/// known: AEAD methods first, then stream methods.
pub open spec fn ssr_cipher_for(name: Seq<char>, password: Seq<u8>) -> Option<SsrState> {
    match aead_by_name(name) {
        Some(a) => Some(SsrState::AeadTcp(fresh_aead(a, evp_bytes(password, aead_key_len(a))),
            fresh_aead(a, evp_bytes(password, aead_key_len(a))))),
        None => match cipher_by_name(name) {
            Some(m) => Some(SsrState::Stream(fresh_stream(m, stream_key_for(m, password)),
                fresh_stream(m, stream_key_for(m, password)))),
            None => None,
        },
    }
}

/// The key of a stream cipher has the method's key length (the password itself for
/// `table`), so that every implemented method accepts it.
pub open spec fn ssr_key_len_ok(c: SsrState) -> bool {
    match c {
        SsrState::Stream(e, _) => e.method is Table || e.key.len() == cipher_key_len(e.method),
        SsrState::AeadTcp(..) => true,
    }
}

/// The cipher of a connection: a stream cipher or a TCP AEAD cipher, one for each direction,
/// so that the IV or salt of the first output is sent and that of the first input is read.
pub enum SsrCipher {
    Stream(StreamCipher, StreamCipher),
    AeadTcp(AeadTcpCipher, AeadTcpCipher),
}

/// The cipher stage encrypted `data` into `out` (nothing on failure) with its encrypting
/// direction, moving from `c0` to `c1`; the decrypting direction stays as it is. For AEAD
/// ciphers a receiver whose decrypting direction is in the state of the encrypting one gets
/// `data` back.
pub open spec fn cipher_encrypted(c0: SsrState, data: Seq<u8>, out: Option<Seq<u8>>, c1: SsrState) -> bool {
    match (c0, c1) {
        (SsrState::Stream(s0, d0), SsrState::Stream(s1, d1)) => s1.iv.len() == cipher_iv_len(s0.method)
            && stream_encrypt(s0, data, s1.iv) == (out, s1) && d1 == d0,
        (SsrState::AeadTcp(a0, d0), SsrState::AeadTcp(a1, d1)) => a1.salt.len() == 32
            && aead_tcp_encrypt(a0, data, a1.salt) == (out, a1)
            && (out matches Some(v) ==> aead_tcp_decrypt(a0, v) == (Some(data), a1)) && d1 == d0,
        _ => false,
    }
}

/// What the cipher stage makes of received `data` with its decrypting direction: the output
/// (nothing on failure) and the next state, the encrypting direction unchanged.
pub open spec fn cipher_decrypted(c0: SsrState, data: Seq<u8>) -> (Option<Seq<u8>>, SsrState) {
    match c0 {
        SsrState::Stream(e, s) => (stream_decrypt(s, data).0, SsrState::Stream(e, stream_decrypt(s, data).1)),
        SsrState::AeadTcp(e, a) => (aead_tcp_decrypt(a, data).0, SsrState::AeadTcp(e, aead_tcp_decrypt(a, data).1)),
    }
}

/// A receiving cipher in step with the sending cipher `c`: its decrypting direction is in the
/// state of the sender's encrypting direction, which for a stream cipher runs a method whose
/// decryption undoes encryption, with an IV of the method's length while not started.
pub open spec fn cipher_pair_ok(c: SsrState, r: SsrState) -> bool {
    match (c, r) {
        (SsrState::Stream(s, _), SsrState::Stream(_, d)) => d == s && stream_roundtrips(s.method)
            && (!s.initialized ==> s.iv.len() == cipher_iv_len(s.method)),
        (SsrState::AeadTcp(a, _), SsrState::AeadTcp(_, d)) => d == a,
        _ => false,
    }
}

/// The cipher stage of a receiver whose decrypting direction is in step with the sender's
/// encrypting direction decrypts what the sender encrypted, and is in step again afterwards.
pub proof fn lemma_cipher_pair_read(c0: SsrState, r0: SsrState, x1: Seq<u8>, y: Seq<u8>, c1: SsrState)
    requires
        cipher_pair_ok(c0, r0),
        cipher_encrypted(c0, x1, Some(y), c1),
    ensures
        cipher_decrypted(r0, y).0 == Some(x1),
        cipher_pair_ok(c1, cipher_decrypted(r0, y).1),
{
    match (c0, c1) {
        (SsrState::Stream(s0, _), SsrState::Stream(s1, _)) => {
            lemma_stream_step(s0, x1, s1.iv);
        },
        _ => {},
    }
}

/// Law of `SsrCipher`: a cipher whose decrypting direction is in step with its own
/// encrypting direction, as `SsrCipher::new` builds it for a method whose decryption undoes
/// encryption, decrypts what it encrypts, and is in step with itself again afterwards.
pub proof fn lemma_ssr_cipher_roundtrip(c0: SsrState, data: Seq<u8>, out: Seq<u8>, c1: SsrState)
    requires
        cipher_pair_ok(c0, c0),
        cipher_encrypted(c0, data, Some(out), c1),
    ensures
        cipher_decrypted(c1, out).0 == Some(data),
        cipher_pair_ok(cipher_decrypted(c1, out).1, cipher_decrypted(c1, out).1),
{
    lemma_cipher_pair_read(c0, c1, data, out, c1);
}

/// A cipher as `SsrCipher::new` builds it is in step with itself when its method's
/// decryption undoes encryption.
pub proof fn lemma_fresh_cipher_in_step(name: Seq<char>, password: Seq<u8>)
    requires
        ssr_cipher_for(name, password) matches Some(c) && (c matches SsrState::Stream(s, _) ==> stream_roundtrips(s.method)),
    ensures
        ({
            let c = ssr_cipher_for(name, password).unwrap();
            cipher_pair_ok(c, c)
        }),
{
}

impl View for SsrCipher {
    type V = SsrState;

    open spec fn view(&self) -> SsrState {
        match self {
            SsrCipher::Stream(e, d) => SsrState::Stream(e@, d@),
            SsrCipher::AeadTcp(e, d) => SsrState::AeadTcp(e@, d@),
        }
    }
}

/// Whether encrypting `data` stays within what the cipher can do.
pub open spec fn ssr_encrypt_fits(s: SsrState, data: Seq<u8>) -> bool {
    match s {
        SsrState::Stream(t, _) => encrypt_fits(t, data),
        SsrState::AeadTcp(a, _) => aead_encrypt_fits(a, data.len()),
    }
}

/// Whether decrypting `data` stays within what the cipher can do.
pub open spec fn ssr_decrypt_fits(s: SsrState, data: Seq<u8>) -> bool {
    match s {
        SsrState::Stream(_, t) => decrypt_fits(t, data),
        SsrState::AeadTcp(_, a) => aead_decrypt_fits(a, data.len()),
    }
}

/// `prefix` followed by `name`, as an owned message.
fn message_with(prefix: &str, name: &str) -> (r: String)
    ensures
        r@ == prefix@ + name@,
{
    let mut s = msg(prefix);
    s.append(name);
    s
}

impl SsrCipher {
    /// The cipher for a method name (any case) and a password. Unknown names are an error.
    pub fn new(method_name: &str, password: &str) -> (r: Result<Self>)
        ensures
            match r {
                Ok(c) => Some(c@) == ssr_cipher_for(str_to_lowercase(method_name@), password.spec_bytes()),
                Err(e) => ssr_cipher_for(str_to_lowercase(method_name@), password.spec_bytes()) is None && e is Crypto,
            },
            r matches Ok(c) ==> ssr_key_len_ok(c@),
            is_ascii_text(method_name@) ==> str_to_lowercase(method_name@) == ascii_lowercase(method_name@),
    {
        let pw = password.as_bytes();
        if let Some(method) = AeadMethod::from_name(method_name) {
            let key = crypto_derive_key(pw, method.key_len());
            let e = AeadTcpCipher::new(method, vstd::slice::slice_to_vec(key.as_slice()));
            let d = AeadTcpCipher::new(method, key);
            assert(e@ == fresh_aead(method, evp_bytes(pw@, aead_key_len(method))));
            Ok(SsrCipher::AeadTcp(e, d))
        } else if let Some(method) = CipherMethod::from_name(method_name) {
            let key = if method == CipherMethod::Table {
                vstd::slice::slice_to_vec(pw)
            } else {
                bytes_to_key(pw, method.key_len(), method.iv_len()).0
            };
            let e = StreamCipher::new(method, vstd::slice::slice_to_vec(key.as_slice()));
            let d = StreamCipher::new(method, key);
            Ok(SsrCipher::Stream(e, d))
        } else {
            Err(Error::Crypto(message_with("unknown cipher method: ", method_name)))
        }
    }

    /// Encrypts `data` with the encrypting direction (its first output carries the IV or
    /// salt); the decrypting direction is left as it is.
    pub fn encrypt(&mut self, data: &[u8]) -> (r: Result<Vec<u8>>)
        requires
            ssr_encrypt_fits(old(self)@, data@),
        ensures
            match (old(self)@, final(self)@) {
                (SsrState::Stream(s0, d0), SsrState::Stream(s1, d1)) => {
                    &&& outcome_is(r, stream_encrypt(s0, data@, s1.iv).0)
                    &&& s1 == stream_encrypt(s0, data@, s1.iv).1
                    &&& s1.iv.len() == cipher_iv_len(s0.method)
                    &&& d1 == d0
                    &&& stream_key_ok(s0.method, s0.key) ==> r is Ok
                },
                (SsrState::AeadTcp(a0, d0), SsrState::AeadTcp(a1, d1)) => {
                    &&& a1.salt.len() == 32
                    &&& aead_outcome_is(r, aead_tcp_encrypt(a0, data@, a1.salt).0)
                    &&& a1 == aead_tcp_encrypt(a0, data@, a1.salt).1
                    &&& r matches Ok(v) ==> aead_tcp_decrypt(a0, v@) == (Some(data@), a1)
                    &&& d1 == d0
                    &&& r is Ok
                },
                _ => false,
            },
    {
        match self {
            SsrCipher::Stream(c, _) => c.encrypt(data),
            SsrCipher::AeadTcp(c, _) => c.encrypt(data),
        }
    }

    /// Decrypts `data` (the first input must start with the IV or salt).
    pub fn decrypt(&mut self, data: &[u8]) -> (r: Result<Vec<u8>>)
        requires
            ssr_decrypt_fits(old(self)@, data@),
        ensures
            match (old(self)@, final(self)@) {
                (SsrState::Stream(e0, s0), SsrState::Stream(e1, s1)) => outcome_is(r, stream_decrypt(s0, data@).0)
                    && s1 == stream_decrypt(s0, data@).1 && e1 == e0,
                (SsrState::AeadTcp(e0, a0), SsrState::AeadTcp(e1, a1)) => aead_outcome_is(r, aead_tcp_decrypt(a0, data@).0)
                    && a1 == aead_tcp_decrypt(a0, data@).1 && e1 == e0,
                _ => false,
            },
    {
        match self {
            SsrCipher::Stream(_, c) => c.decrypt(data),
            SsrCipher::AeadTcp(_, c) => c.decrypt(data),
        }
    }

    /// The UDP cipher for an AEAD method name (any case) and a password.
    pub fn new_udp(method_name: &str, password: &str) -> (r: Result<AeadUdpCipher>)
        ensures
            match r {
                Ok(c) => aead_by_name(str_to_lowercase(method_name@)) matches Some(a)
                    && c@ == (a, evp_bytes(password.spec_bytes(), aead_key_len(a))),
                Err(e) => aead_by_name(str_to_lowercase(method_name@)) is None && e is Crypto,
            },
            is_ascii_text(method_name@) ==> str_to_lowercase(method_name@) == ascii_lowercase(method_name@),
    {
        match AeadMethod::from_name(method_name) {
            Some(method) => {
                let key = crypto_derive_key(password.as_bytes(), method.key_len());
                Ok(AeadUdpCipher::new(method, key))
            },
            None => Err(Error::Crypto(message_with("unknown AEAD method: ", method_name))),
        }
    }

    /// Whether the cipher has been started in either direction.
    pub fn is_initialized(&self) -> (r: bool)
        ensures
            r == match self@ {
                SsrState::Stream(e, d) => e.initialized || d.initialized,
                SsrState::AeadTcp(e, d) => e.initialized || d.initialized,
            },
    {
        match self {
            SsrCipher::Stream(e, d) => e.initialized() || d.initialized(),
            SsrCipher::AeadTcp(e, d) => e.is_initialized() || d.is_initialized(),
        }
    }

    /// The canonical name of the cipher's method.
    pub fn method_name(&self) -> (r: &'static str)
        ensures
            r@ == match self@ {
                SsrState::Stream(s, _) => cipher_name(s.method),
                SsrState::AeadTcp(a, _) => aead_name(a.method),
            },
    {
        match self {
            SsrCipher::Stream(c, _) => c.method().name(),
            SsrCipher::AeadTcp(c, _) => c.method().name(),
        }
    }

    /// Whether encrypting `data` stays within what the cipher can do.
    pub fn can_encrypt(&self, data: &[u8]) -> (r: bool)
        ensures
            r == ssr_encrypt_fits(self@, data@),
    {
        match self {
            SsrCipher::Stream(c, _) => c.can_encrypt(data),
            SsrCipher::AeadTcp(c, _) => c.can_encrypt(data.len()),
        }
    }

    /// Whether decrypting `data` stays within what the cipher can do.
    pub fn can_decrypt(&self, data: &[u8]) -> (r: bool)
        ensures
            r == ssr_decrypt_fits(self@, data@),
    {
        match self {
            SsrCipher::Stream(_, c) => c.can_decrypt(data),
            SsrCipher::AeadTcp(_, c) => c.can_decrypt(data.len()),
        }
    }

    /// Whether the cipher is an AEAD cipher.
    pub fn is_aead(&self) -> (r: bool)
        ensures
            r == (self@ is AeadTcp),
    {
        matches!(self, SsrCipher::AeadTcp(_, _))
    }
}

} // verus!
