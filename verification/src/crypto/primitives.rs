use vstd::prelude::*;
use aes::cipher::{BlockEncrypt, KeyInit, KeyIvInit, StreamCipher, StreamCipherSeek};
use aes::cipher::generic_array::GenericArray;
use aes_gcm::aead::{Aead, Payload};

verus! {

/// Why an AEAD call produced no output.
#[derive(Debug, Clone, Copy, PartialEq, Eq, Structural)]
pub enum AeadFailure {
    /// The key has the wrong length for the algorithm.
    BadKey,
    /// The algorithm refused the input (too long, or a tag that does not verify).
    Refused,
}

/// Largest plaintext (and associated data) that AES-GCM accepts: 2^36 bytes.
pub const GCM_MAX_LEN: u64 = 68719476736;

/// Plaintexts at least this long are refused by (X)ChaCha20-Poly1305: (2^32 - 1) * 64 bytes.
pub const CHACHA_POLY_LIMIT: u64 = 274877906880;

/// Keystream bytes that a ChaCha20 instance (either nonce size) can produce: (2^32 - 1) * 64.
pub const CHACHA_STREAM_LIMIT: u64 = 274877906880;

/// The block that AES-128 encrypts `block` to under `key`.
pub uninterp spec fn aes128_encrypt_block(key: Seq<u8>, block: Seq<u8>) -> Seq<u8>;

/// Trusted: `aes::Aes128::new_from_slice(key)` then `encrypt_block` on one 16-byte block.
/// Claims the key is accepted exactly when its length == 16, and that the
/// result is `aes128_encrypt_block(key, block)`, 16 bytes long.
#[verifier::external_body]
pub(crate) fn aes128_block(key: &[u8], block: &[u8]) -> (r: Option<Vec<u8>>)
    requires
        block@.len() == 16,
    ensures
        r is Some <==> (key@.len() == 16),
        r matches Some(v) ==> v@ == aes128_encrypt_block(key@, block@) && v@.len() == 16,
{
    let c = <aes::Aes128>::new_from_slice(key).ok()?;
    let mut b = GenericArray::clone_from_slice(block);
    c.encrypt_block(&mut b);
    Some(b.to_vec())
}

/// The block that AES-192 encrypts `block` to under `key`.
pub uninterp spec fn aes192_encrypt_block(key: Seq<u8>, block: Seq<u8>) -> Seq<u8>;

/// Trusted: `aes::Aes192::new_from_slice(key)` then `encrypt_block` on one 16-byte block.
/// Claims the key is accepted exactly when its length == 24, and that the
/// result is `aes192_encrypt_block(key, block)`, 16 bytes long.
#[verifier::external_body]
pub(crate) fn aes192_block(key: &[u8], block: &[u8]) -> (r: Option<Vec<u8>>)
    requires
        block@.len() == 16,
    ensures
        r is Some <==> (key@.len() == 24),
        r matches Some(v) ==> v@ == aes192_encrypt_block(key@, block@) && v@.len() == 16,
{
    let c = <aes::Aes192>::new_from_slice(key).ok()?;
    let mut b = GenericArray::clone_from_slice(block);
    c.encrypt_block(&mut b);
    Some(b.to_vec())
}

/// The block that AES-256 encrypts `block` to under `key`.
pub uninterp spec fn aes256_encrypt_block(key: Seq<u8>, block: Seq<u8>) -> Seq<u8>;

/// Trusted: `aes::Aes256::new_from_slice(key)` then `encrypt_block` on one 16-byte block.
/// Claims the key is accepted exactly when its length == 32, and that the
/// result is `aes256_encrypt_block(key, block)`, 16 bytes long.
#[verifier::external_body]
pub(crate) fn aes256_block(key: &[u8], block: &[u8]) -> (r: Option<Vec<u8>>)
    requires
        block@.len() == 16,
    ensures
        r is Some <==> (key@.len() == 32),
        r matches Some(v) ==> v@ == aes256_encrypt_block(key@, block@) && v@.len() == 16,
{
    let c = <aes::Aes256>::new_from_slice(key).ok()?;
    let mut b = GenericArray::clone_from_slice(block);
    c.encrypt_block(&mut b);
    Some(b.to_vec())
}

/// The block that Camellia-128 encrypts `block` to under `key`.
pub uninterp spec fn camellia128_encrypt_block(key: Seq<u8>, block: Seq<u8>) -> Seq<u8>;

/// Trusted: `camellia::Camellia128::new_from_slice(key)` then `encrypt_block` on one 16-byte block.
/// Claims the key is accepted exactly when its length == 16, and that the
/// result is `camellia128_encrypt_block(key, block)`, 16 bytes long.
#[verifier::external_body]
pub(crate) fn camellia128_block(key: &[u8], block: &[u8]) -> (r: Option<Vec<u8>>)
    requires
        block@.len() == 16,
    ensures
        r is Some <==> (key@.len() == 16),
        r matches Some(v) ==> v@ == camellia128_encrypt_block(key@, block@) && v@.len() == 16,
{
    let c = <camellia::Camellia128>::new_from_slice(key).ok()?;
    let mut b = GenericArray::clone_from_slice(block);
    c.encrypt_block(&mut b);
    Some(b.to_vec())
}

/// The block that Camellia-192 encrypts `block` to under `key`.
pub uninterp spec fn camellia192_encrypt_block(key: Seq<u8>, block: Seq<u8>) -> Seq<u8>;

/// Trusted: `camellia::Camellia192::new_from_slice(key)` then `encrypt_block` on one 16-byte block.
/// Claims the key is accepted exactly when its length == 24, and that the
/// result is `camellia192_encrypt_block(key, block)`, 16 bytes long.
#[verifier::external_body]
pub(crate) fn camellia192_block(key: &[u8], block: &[u8]) -> (r: Option<Vec<u8>>)
    requires
        block@.len() == 16,
    ensures
        r is Some <==> (key@.len() == 24),
        r matches Some(v) ==> v@ == camellia192_encrypt_block(key@, block@) && v@.len() == 16,
{
    let c = <camellia::Camellia192>::new_from_slice(key).ok()?;
    let mut b = GenericArray::clone_from_slice(block);
    c.encrypt_block(&mut b);
    Some(b.to_vec())
}

/// The block that Camellia-256 encrypts `block` to under `key`.
pub uninterp spec fn camellia256_encrypt_block(key: Seq<u8>, block: Seq<u8>) -> Seq<u8>;

/// Trusted: `camellia::Camellia256::new_from_slice(key)` then `encrypt_block` on one 16-byte block.
/// Claims the key is accepted exactly when its length == 32, and that the
/// result is `camellia256_encrypt_block(key, block)`, 16 bytes long.
#[verifier::external_body]
pub(crate) fn camellia256_block(key: &[u8], block: &[u8]) -> (r: Option<Vec<u8>>)
    requires
        block@.len() == 16,
    ensures
        r is Some <==> (key@.len() == 32),
        r matches Some(v) ==> v@ == camellia256_encrypt_block(key@, block@) && v@.len() == 16,
{
    let c = <camellia::Camellia256>::new_from_slice(key).ok()?;
    let mut b = GenericArray::clone_from_slice(block);
    c.encrypt_block(&mut b);
    Some(b.to_vec())
}

/// The block that Blowfish encrypts `block` to under `key`.
pub uninterp spec fn blowfish_encrypt_block(key: Seq<u8>, block: Seq<u8>) -> Seq<u8>;

/// Trusted: `blowfish::Blowfish::new_from_slice(key)` then `encrypt_block` on one 8-byte block.
/// Claims the key is accepted exactly when 4 <= its length <= 56, and that the
/// result is `blowfish_encrypt_block(key, block)`, 8 bytes long.
#[verifier::external_body]
pub(crate) fn blowfish_block(key: &[u8], block: &[u8]) -> (r: Option<Vec<u8>>)
    requires
        block@.len() == 8,
    ensures
        r is Some <==> (4 <= key@.len() <= 56),
        r matches Some(v) ==> v@ == blowfish_encrypt_block(key@, block@) && v@.len() == 8,
{
    let c = <blowfish::Blowfish>::new_from_slice(key).ok()?;
    let mut b = GenericArray::clone_from_slice(block);
    c.encrypt_block(&mut b);
    Some(b.to_vec())
}

/// The block that CAST5 encrypts `block` to under `key`.
pub uninterp spec fn cast5_encrypt_block(key: Seq<u8>, block: Seq<u8>) -> Seq<u8>;

/// Trusted: `cast5::Cast5::new_from_slice(key)` then `encrypt_block` on one 8-byte block.
/// Claims the key is accepted exactly when 5 <= its length <= 16, and that the
/// result is `cast5_encrypt_block(key, block)`, 8 bytes long.
#[verifier::external_body]
pub(crate) fn cast5_block(key: &[u8], block: &[u8]) -> (r: Option<Vec<u8>>)
    requires
        block@.len() == 8,
    ensures
        r is Some <==> (5 <= key@.len() <= 16),
        r matches Some(v) ==> v@ == cast5_encrypt_block(key@, block@) && v@.len() == 8,
{
    let c = <cast5::Cast5>::new_from_slice(key).ok()?;
    let mut b = GenericArray::clone_from_slice(block);
    c.encrypt_block(&mut b);
    Some(b.to_vec())
}

/// The block that DES encrypts `block` to under `key`.
pub uninterp spec fn des_encrypt_block(key: Seq<u8>, block: Seq<u8>) -> Seq<u8>;

/// Trusted: `des::Des::new_from_slice(key)` then `encrypt_block` on one 8-byte block.
/// Claims the key is accepted exactly when its length == 8, and that the
/// result is `des_encrypt_block(key, block)`, 8 bytes long.
#[verifier::external_body]
pub(crate) fn des_block(key: &[u8], block: &[u8]) -> (r: Option<Vec<u8>>)
    requires
        block@.len() == 8,
    ensures
        r is Some <==> (key@.len() == 8),
        r matches Some(v) ==> v@ == des_encrypt_block(key@, block@) && v@.len() == 8,
{
    let c = <des::Des>::new_from_slice(key).ok()?;
    let mut b = GenericArray::clone_from_slice(block);
    c.encrypt_block(&mut b);
    Some(b.to_vec())
}

/// Byte `index` of the AES-128-CTR (128-bit big-endian counter) keystream under `key` and `iv`.
pub uninterp spec fn aes128_ctr_keystream(key: Seq<u8>, iv: Seq<u8>, index: int) -> u8;

/// Trusted: `ctr::Ctr128BE::<aes::Aes128>::new_from_slices(key, iv)`, `seek(offset)`, then `apply_keystream` on a copy
/// of `data`. Claims the cipher is built exactly when the key has 16 bytes and the IV 16,
/// and that each output byte is the input byte xored with the keystream byte at its position.
#[verifier::external_body]
pub(crate) fn aes128_ctr_xor(key: &[u8], iv: &[u8], offset: u64, data: &[u8]) -> (r: Option<Vec<u8>>)
    requires
        offset + data@.len() <= 18446744073709551615,
    ensures
        r is Some <==> (key@.len() == 16 && iv@.len() == 16),
        r matches Some(v) ==> v@.len() == data@.len() && forall|i: int|
            0 <= i < data@.len() ==> #[trigger] v@[i] == data@[i] ^ aes128_ctr_keystream(key@, iv@, offset + i),
{
    let mut c = ctr::Ctr128BE::<aes::Aes128>::new_from_slices(key, iv).ok()?;
    c.seek(offset);
    let mut out = data.to_vec();
    c.apply_keystream(&mut out);
    Some(out)
}

/// Byte `index` of the AES-192-CTR (128-bit big-endian counter) keystream under `key` and `iv`.
pub uninterp spec fn aes192_ctr_keystream(key: Seq<u8>, iv: Seq<u8>, index: int) -> u8;

/// Trusted: `ctr::Ctr128BE::<aes::Aes192>::new_from_slices(key, iv)`, `seek(offset)`, then `apply_keystream` on a copy
/// of `data`. Claims the cipher is built exactly when the key has 24 bytes and the IV 16,
/// and that each output byte is the input byte xored with the keystream byte at its position.
#[verifier::external_body]
pub(crate) fn aes192_ctr_xor(key: &[u8], iv: &[u8], offset: u64, data: &[u8]) -> (r: Option<Vec<u8>>)
    requires
        offset + data@.len() <= 18446744073709551615,
    ensures
        r is Some <==> (key@.len() == 24 && iv@.len() == 16),
        r matches Some(v) ==> v@.len() == data@.len() && forall|i: int|
            0 <= i < data@.len() ==> #[trigger] v@[i] == data@[i] ^ aes192_ctr_keystream(key@, iv@, offset + i),
{
    let mut c = ctr::Ctr128BE::<aes::Aes192>::new_from_slices(key, iv).ok()?;
    c.seek(offset);
    let mut out = data.to_vec();
    c.apply_keystream(&mut out);
    Some(out)
}

/// Byte `index` of the AES-256-CTR (128-bit big-endian counter) keystream under `key` and `iv`.
pub uninterp spec fn aes256_ctr_keystream(key: Seq<u8>, iv: Seq<u8>, index: int) -> u8;

/// Trusted: `ctr::Ctr128BE::<aes::Aes256>::new_from_slices(key, iv)`, `seek(offset)`, then `apply_keystream` on a copy
/// of `data`. Claims the cipher is built exactly when the key has 32 bytes and the IV 16,
/// and that each output byte is the input byte xored with the keystream byte at its position.
#[verifier::external_body]
pub(crate) fn aes256_ctr_xor(key: &[u8], iv: &[u8], offset: u64, data: &[u8]) -> (r: Option<Vec<u8>>)
    requires
        offset + data@.len() <= 18446744073709551615,
    ensures
        r is Some <==> (key@.len() == 32 && iv@.len() == 16),
        r matches Some(v) ==> v@.len() == data@.len() && forall|i: int|
            0 <= i < data@.len() ==> #[trigger] v@[i] == data@[i] ^ aes256_ctr_keystream(key@, iv@, offset + i),
{
    let mut c = ctr::Ctr128BE::<aes::Aes256>::new_from_slices(key, iv).ok()?;
    c.seek(offset);
    let mut out = data.to_vec();
    c.apply_keystream(&mut out);
    Some(out)
}

/// Byte `index` of the Salsa20 keystream under `key` and `iv`.
pub uninterp spec fn salsa20_keystream(key: Seq<u8>, iv: Seq<u8>, index: int) -> u8;

/// Trusted: `salsa20::Salsa20::new_from_slices(key, iv)`, `seek(offset)`, then `apply_keystream` on a copy
/// of `data`. Claims the cipher is built exactly when the key has 32 bytes and the IV 8,
/// and that each output byte is the input byte xored with the keystream byte at its position.
#[verifier::external_body]
pub(crate) fn salsa20_xor(key: &[u8], iv: &[u8], offset: u64, data: &[u8]) -> (r: Option<Vec<u8>>)
    requires
        offset + data@.len() <= 18446744073709551615,
    ensures
        r is Some <==> (key@.len() == 32 && iv@.len() == 8),
        r matches Some(v) ==> v@.len() == data@.len() && forall|i: int|
            0 <= i < data@.len() ==> #[trigger] v@[i] == data@[i] ^ salsa20_keystream(key@, iv@, offset + i),
{
    let mut c = salsa20::Salsa20::new_from_slices(key, iv).ok()?;
    c.seek(offset);
    let mut out = data.to_vec();
    c.apply_keystream(&mut out);
    Some(out)
}

/// Byte `index` of the ChaCha20 (64-bit nonce) keystream under `key` and `iv`.
pub uninterp spec fn chacha20_legacy_keystream(key: Seq<u8>, iv: Seq<u8>, index: int) -> u8;

/// Trusted: `chacha20::ChaCha20Legacy::new_from_slices(key, iv)`, `seek(offset)`, then `apply_keystream` on a copy
/// of `data`. Claims the cipher is built exactly when the key has 32 bytes and the IV 8,
/// and that each output byte is the input byte xored with the keystream byte at its position.
#[verifier::external_body]
pub(crate) fn chacha20_legacy_xor(key: &[u8], iv: &[u8], offset: u64, data: &[u8]) -> (r: Option<Vec<u8>>)
    requires
        offset + data@.len() <= CHACHA_STREAM_LIMIT,
    ensures
        r is Some <==> (key@.len() == 32 && iv@.len() == 8),
        r matches Some(v) ==> v@.len() == data@.len() && forall|i: int|
            0 <= i < data@.len() ==> #[trigger] v@[i] == data@[i] ^ chacha20_legacy_keystream(key@, iv@, offset + i),
{
    let mut c = chacha20::ChaCha20Legacy::new_from_slices(key, iv).ok()?;
    c.seek(offset);
    let mut out = data.to_vec();
    c.apply_keystream(&mut out);
    Some(out)
}

/// Byte `index` of the ChaCha20 (IETF, 96-bit nonce) keystream under `key` and `iv`.
pub uninterp spec fn chacha20_ietf_keystream(key: Seq<u8>, iv: Seq<u8>, index: int) -> u8;

/// Trusted: `chacha20::ChaCha20::new_from_slices(key, iv)`, `seek(offset)`, then `apply_keystream` on a copy
/// of `data`. Claims the cipher is built exactly when the key has 32 bytes and the IV 12,
/// and that each output byte is the input byte xored with the keystream byte at its position.
#[verifier::external_body]
pub(crate) fn chacha20_ietf_xor(key: &[u8], iv: &[u8], offset: u64, data: &[u8]) -> (r: Option<Vec<u8>>)
    requires
        offset + data@.len() <= CHACHA_STREAM_LIMIT,
    ensures
        r is Some <==> (key@.len() == 32 && iv@.len() == 12),
        r matches Some(v) ==> v@.len() == data@.len() && forall|i: int|
            0 <= i < data@.len() ==> #[trigger] v@[i] == data@[i] ^ chacha20_ietf_keystream(key@, iv@, offset + i),
{
    let mut c = chacha20::ChaCha20::new_from_slices(key, iv).ok()?;
    c.seek(offset);
    let mut out = data.to_vec();
    c.apply_keystream(&mut out);
    Some(out)
}

/// Byte `index` of the RC4 keystream under `key`.
pub uninterp spec fn rc4_keystream(key: Seq<u8>, index: int) -> u8;

/// Trusted: `rc4::Rc4::<U16>::new_from_slice(key)`; the first `offset` keystream bytes are
/// consumed, then `apply_keystream` runs on a copy of `data`. Claims the cipher is built exactly
/// when the key has 16 bytes, and that each output byte is the input byte xored with the
/// keystream byte at its position.
#[verifier::external_body]
pub(crate) fn rc4_xor(key: &[u8], offset: usize, data: &[u8]) -> (r: Option<Vec<u8>>)
    ensures
        r is Some <==> key@.len() == 16,
        r matches Some(v) ==> v@.len() == data@.len() && forall|i: int|
            0 <= i < data@.len() ==> #[trigger] v@[i] == data@[i] ^ rc4_keystream(key@, offset + i),
{
    let mut c = rc4::Rc4::<rc4::consts::U16>::new_from_slice(key).ok()?;
    let mut skipped = vec![0u8; offset];
    c.apply_keystream(&mut skipped);
    let mut out = data.to_vec();
    c.apply_keystream(&mut out);
    Some(out)
}

/// The ciphertext (with its 16-byte tag appended) that AES-128-GCM produces for `pt` and `aad`.
pub uninterp spec fn aes128_gcm_sealed(key: Seq<u8>, nonce: Seq<u8>, pt: Seq<u8>, aad: Seq<u8>) -> Seq<u8>;

/// What AES-128-GCM decryption yields for `ct` and `aad`: the plaintext, or nothing when the tag
/// does not verify.
pub uninterp spec fn aes128_gcm_opened(key: Seq<u8>, nonce: Seq<u8>, ct: Seq<u8>, aad: Seq<u8>) -> Option<Seq<u8>>;

/// Trusted: `aes_gcm::Aes128Gcm::new_from_slice(key)` then `Aead::encrypt` of `pt` with `aad`.
/// Claims the key is refused exactly when it does not have 16 bytes, the input exactly when
/// its length > GCM_MAX_LEN || that of aad > GCM_MAX_LEN, and that the output is
/// `aes128_gcm_sealed`, 16 bytes longer than `pt`, which decryption under the same key, nonce and
/// `aad` turns back into `pt`.
#[verifier::external_body]
pub(crate) fn aes128_gcm_seal(key: &[u8], nonce: &[u8], pt: &[u8], aad: &[u8]) -> (r: Result<Vec<u8>, AeadFailure>)
    requires
        nonce@.len() == 12,
    ensures
        (r == Err::<Vec<u8>, AeadFailure>(AeadFailure::BadKey)) <==> key@.len() != 16,
        (r == Err::<Vec<u8>, AeadFailure>(AeadFailure::Refused)) <==> (key@.len() == 16 && (pt@.len() > GCM_MAX_LEN || aad@.len() > GCM_MAX_LEN)),
        r matches Ok(v) ==> v@ == aes128_gcm_sealed(key@, nonce@, pt@, aad@) && v@.len() == pt@.len() + 16,
        r matches Ok(v) ==> aes128_gcm_opened(key@, nonce@, v@, aad@) == Some(pt@),
{
    let c = match aes_gcm::Aes128Gcm::new_from_slice(key) {
        Ok(c) => c,
        Err(_) => return Err(AeadFailure::BadKey),
    };
    let n = GenericArray::from_slice(nonce);
    c.encrypt(n, Payload { msg: pt, aad }).map_err(|_| AeadFailure::Refused)
}

/// Trusted: `aes_gcm::Aes128Gcm::new_from_slice(key)` then `Aead::decrypt` of `ct` with `aad`.
/// Claims the key is refused exactly when it does not have 16 bytes; that a plaintext comes
/// back exactly when `aes128_gcm_opened` has one, and that it is 16 bytes shorter than `ct`.
#[verifier::external_body]
pub(crate) fn aes128_gcm_open(key: &[u8], nonce: &[u8], ct: &[u8], aad: &[u8]) -> (r: Result<Vec<u8>, AeadFailure>)
    requires
        nonce@.len() == 12,
    ensures
        (r == Err::<Vec<u8>, AeadFailure>(AeadFailure::BadKey)) <==> key@.len() != 16,
        key@.len() == 16 ==> (r is Ok <==> aes128_gcm_opened(key@, nonce@, ct@, aad@) is Some),
        r matches Ok(v) ==> Some(v@) == aes128_gcm_opened(key@, nonce@, ct@, aad@) && v@.len() + 16 == ct@.len(),
{
    let c = match aes_gcm::Aes128Gcm::new_from_slice(key) {
        Ok(c) => c,
        Err(_) => return Err(AeadFailure::BadKey),
    };
    let n = GenericArray::from_slice(nonce);
    c.decrypt(n, Payload { msg: ct, aad }).map_err(|_| AeadFailure::Refused)
}

/// The ciphertext (with its 16-byte tag appended) that AES-256-GCM produces for `pt` and `aad`.
pub uninterp spec fn aes256_gcm_sealed(key: Seq<u8>, nonce: Seq<u8>, pt: Seq<u8>, aad: Seq<u8>) -> Seq<u8>;

/// What AES-256-GCM decryption yields for `ct` and `aad`: the plaintext, or nothing when the tag
/// does not verify.
pub uninterp spec fn aes256_gcm_opened(key: Seq<u8>, nonce: Seq<u8>, ct: Seq<u8>, aad: Seq<u8>) -> Option<Seq<u8>>;

/// Trusted: `aes_gcm::Aes256Gcm::new_from_slice(key)` then `Aead::encrypt` of `pt` with `aad`.
/// Claims the key is refused exactly when it does not have 32 bytes, the input exactly when
/// its length > GCM_MAX_LEN || that of aad > GCM_MAX_LEN, and that the output is
/// `aes256_gcm_sealed`, 16 bytes longer than `pt`, which decryption under the same key, nonce and
/// `aad` turns back into `pt`.
#[verifier::external_body]
pub(crate) fn aes256_gcm_seal(key: &[u8], nonce: &[u8], pt: &[u8], aad: &[u8]) -> (r: Result<Vec<u8>, AeadFailure>)
    requires
        nonce@.len() == 12,
    ensures
        (r == Err::<Vec<u8>, AeadFailure>(AeadFailure::BadKey)) <==> key@.len() != 32,
        (r == Err::<Vec<u8>, AeadFailure>(AeadFailure::Refused)) <==> (key@.len() == 32 && (pt@.len() > GCM_MAX_LEN || aad@.len() > GCM_MAX_LEN)),
        r matches Ok(v) ==> v@ == aes256_gcm_sealed(key@, nonce@, pt@, aad@) && v@.len() == pt@.len() + 16,
        r matches Ok(v) ==> aes256_gcm_opened(key@, nonce@, v@, aad@) == Some(pt@),
{
    let c = match aes_gcm::Aes256Gcm::new_from_slice(key) {
        Ok(c) => c,
        Err(_) => return Err(AeadFailure::BadKey),
    };
    let n = GenericArray::from_slice(nonce);
    c.encrypt(n, Payload { msg: pt, aad }).map_err(|_| AeadFailure::Refused)
}

/// Trusted: `aes_gcm::Aes256Gcm::new_from_slice(key)` then `Aead::decrypt` of `ct` with `aad`.
/// Claims the key is refused exactly when it does not have 32 bytes; that a plaintext comes
/// back exactly when `aes256_gcm_opened` has one, and that it is 16 bytes shorter than `ct`.
#[verifier::external_body]
pub(crate) fn aes256_gcm_open(key: &[u8], nonce: &[u8], ct: &[u8], aad: &[u8]) -> (r: Result<Vec<u8>, AeadFailure>)
    requires
        nonce@.len() == 12,
    ensures
        (r == Err::<Vec<u8>, AeadFailure>(AeadFailure::BadKey)) <==> key@.len() != 32,
        key@.len() == 32 ==> (r is Ok <==> aes256_gcm_opened(key@, nonce@, ct@, aad@) is Some),
        r matches Ok(v) ==> Some(v@) == aes256_gcm_opened(key@, nonce@, ct@, aad@) && v@.len() + 16 == ct@.len(),
{
    let c = match aes_gcm::Aes256Gcm::new_from_slice(key) {
        Ok(c) => c,
        Err(_) => return Err(AeadFailure::BadKey),
    };
    let n = GenericArray::from_slice(nonce);
    c.decrypt(n, Payload { msg: ct, aad }).map_err(|_| AeadFailure::Refused)
}

/// The ciphertext (with its 16-byte tag appended) that AES-192-GCM produces for `pt` and `aad`.
pub uninterp spec fn aes192_gcm_sealed(key: Seq<u8>, nonce: Seq<u8>, pt: Seq<u8>, aad: Seq<u8>) -> Seq<u8>;

/// What AES-192-GCM decryption yields for `ct` and `aad`: the plaintext, or nothing when the tag
/// does not verify.
pub uninterp spec fn aes192_gcm_opened(key: Seq<u8>, nonce: Seq<u8>, ct: Seq<u8>, aad: Seq<u8>) -> Option<Seq<u8>>;

/// Trusted: `aes_gcm::AesGcm::<aes::Aes192, U12>::new_from_slice(key)` then `Aead::encrypt` of `pt` with `aad`.
/// Claims the key is refused exactly when it does not have 24 bytes, the input exactly when
/// its length > GCM_MAX_LEN || that of aad > GCM_MAX_LEN, and that the output is
/// `aes192_gcm_sealed`, 16 bytes longer than `pt`, which decryption under the same key, nonce and
/// `aad` turns back into `pt`.
#[verifier::external_body]
pub(crate) fn aes192_gcm_seal(key: &[u8], nonce: &[u8], pt: &[u8], aad: &[u8]) -> (r: Result<Vec<u8>, AeadFailure>)
    requires
        nonce@.len() == 12,
    ensures
        (r == Err::<Vec<u8>, AeadFailure>(AeadFailure::BadKey)) <==> key@.len() != 24,
        (r == Err::<Vec<u8>, AeadFailure>(AeadFailure::Refused)) <==> (key@.len() == 24 && (pt@.len() > GCM_MAX_LEN || aad@.len() > GCM_MAX_LEN)),
        r matches Ok(v) ==> v@ == aes192_gcm_sealed(key@, nonce@, pt@, aad@) && v@.len() == pt@.len() + 16,
        r matches Ok(v) ==> aes192_gcm_opened(key@, nonce@, v@, aad@) == Some(pt@),
{
    let c = match aes_gcm::AesGcm::<aes::Aes192, aes_gcm::aead::consts::U12>::new_from_slice(key) {
        Ok(c) => c,
        Err(_) => return Err(AeadFailure::BadKey),
    };
    let n = GenericArray::from_slice(nonce);
    c.encrypt(n, Payload { msg: pt, aad }).map_err(|_| AeadFailure::Refused)
}

/// Trusted: `aes_gcm::AesGcm::<aes::Aes192, U12>::new_from_slice(key)` then `Aead::decrypt` of `ct` with `aad`.
/// Claims the key is refused exactly when it does not have 24 bytes; that a plaintext comes
/// back exactly when `aes192_gcm_opened` has one, and that it is 16 bytes shorter than `ct`.
#[verifier::external_body]
pub(crate) fn aes192_gcm_open(key: &[u8], nonce: &[u8], ct: &[u8], aad: &[u8]) -> (r: Result<Vec<u8>, AeadFailure>)
    requires
        nonce@.len() == 12,
    ensures
        (r == Err::<Vec<u8>, AeadFailure>(AeadFailure::BadKey)) <==> key@.len() != 24,
        key@.len() == 24 ==> (r is Ok <==> aes192_gcm_opened(key@, nonce@, ct@, aad@) is Some),
        r matches Ok(v) ==> Some(v@) == aes192_gcm_opened(key@, nonce@, ct@, aad@) && v@.len() + 16 == ct@.len(),
{
    let c = match aes_gcm::AesGcm::<aes::Aes192, aes_gcm::aead::consts::U12>::new_from_slice(key) {
        Ok(c) => c,
        Err(_) => return Err(AeadFailure::BadKey),
    };
    let n = GenericArray::from_slice(nonce);
    c.decrypt(n, Payload { msg: ct, aad }).map_err(|_| AeadFailure::Refused)
}

/// The ciphertext (with its 16-byte tag appended) that ChaCha20-Poly1305 produces for `pt` and `aad`.
pub uninterp spec fn chacha20_poly1305_sealed(key: Seq<u8>, nonce: Seq<u8>, pt: Seq<u8>, aad: Seq<u8>) -> Seq<u8>;

/// What ChaCha20-Poly1305 decryption yields for `ct` and `aad`: the plaintext, or nothing when the tag
/// does not verify.
pub uninterp spec fn chacha20_poly1305_opened(key: Seq<u8>, nonce: Seq<u8>, ct: Seq<u8>, aad: Seq<u8>) -> Option<Seq<u8>>;

/// Trusted: `chacha20poly1305::ChaCha20Poly1305::new_from_slice(key)` then `Aead::encrypt` of `pt` with `aad`.
/// Claims the key is refused exactly when it does not have 32 bytes, the input exactly when
/// its length >= CHACHA_POLY_LIMIT, and that the output is
/// `chacha20_poly1305_sealed`, 16 bytes longer than `pt`, which decryption under the same key, nonce and
/// `aad` turns back into `pt`.
#[verifier::external_body]
pub(crate) fn chacha20_poly1305_seal(key: &[u8], nonce: &[u8], pt: &[u8], aad: &[u8]) -> (r: Result<Vec<u8>, AeadFailure>)
    requires
        nonce@.len() == 12,
    ensures
        (r == Err::<Vec<u8>, AeadFailure>(AeadFailure::BadKey)) <==> key@.len() != 32,
        (r == Err::<Vec<u8>, AeadFailure>(AeadFailure::Refused)) <==> (key@.len() == 32 && (pt@.len() >= CHACHA_POLY_LIMIT)),
        r matches Ok(v) ==> v@ == chacha20_poly1305_sealed(key@, nonce@, pt@, aad@) && v@.len() == pt@.len() + 16,
        r matches Ok(v) ==> chacha20_poly1305_opened(key@, nonce@, v@, aad@) == Some(pt@),
{
    let c = match chacha20poly1305::ChaCha20Poly1305::new_from_slice(key) {
        Ok(c) => c,
        Err(_) => return Err(AeadFailure::BadKey),
    };
    let n = GenericArray::from_slice(nonce);
    c.encrypt(n, Payload { msg: pt, aad }).map_err(|_| AeadFailure::Refused)
}

/// Trusted: `chacha20poly1305::ChaCha20Poly1305::new_from_slice(key)` then `Aead::decrypt` of `ct` with `aad`.
/// Claims the key is refused exactly when it does not have 32 bytes; that a plaintext comes
/// back exactly when `chacha20_poly1305_opened` has one, and that it is 16 bytes shorter than `ct`.
#[verifier::external_body]
pub(crate) fn chacha20_poly1305_open(key: &[u8], nonce: &[u8], ct: &[u8], aad: &[u8]) -> (r: Result<Vec<u8>, AeadFailure>)
    requires
        nonce@.len() == 12,
    ensures
        (r == Err::<Vec<u8>, AeadFailure>(AeadFailure::BadKey)) <==> key@.len() != 32,
        key@.len() == 32 ==> (r is Ok <==> chacha20_poly1305_opened(key@, nonce@, ct@, aad@) is Some),
        r matches Ok(v) ==> Some(v@) == chacha20_poly1305_opened(key@, nonce@, ct@, aad@) && v@.len() + 16 == ct@.len(),
{
    let c = match chacha20poly1305::ChaCha20Poly1305::new_from_slice(key) {
        Ok(c) => c,
        Err(_) => return Err(AeadFailure::BadKey),
    };
    let n = GenericArray::from_slice(nonce);
    c.decrypt(n, Payload { msg: ct, aad }).map_err(|_| AeadFailure::Refused)
}

/// The ciphertext (with its 16-byte tag appended) that XChaCha20-Poly1305 produces for `pt` and `aad`.
pub uninterp spec fn xchacha20_poly1305_sealed(key: Seq<u8>, nonce: Seq<u8>, pt: Seq<u8>, aad: Seq<u8>) -> Seq<u8>;

/// What XChaCha20-Poly1305 decryption yields for `ct` and `aad`: the plaintext, or nothing when the tag
/// does not verify.
pub uninterp spec fn xchacha20_poly1305_opened(key: Seq<u8>, nonce: Seq<u8>, ct: Seq<u8>, aad: Seq<u8>) -> Option<Seq<u8>>;

/// Trusted: `chacha20poly1305::XChaCha20Poly1305::new_from_slice(key)` then `Aead::encrypt` of `pt` with `aad`.
/// Claims the key is refused exactly when it does not have 32 bytes, the input exactly when
/// its length >= CHACHA_POLY_LIMIT, and that the output is
/// `xchacha20_poly1305_sealed`, 16 bytes longer than `pt`, which decryption under the same key, nonce and
/// `aad` turns back into `pt`.
#[verifier::external_body]
pub(crate) fn xchacha20_poly1305_seal(key: &[u8], nonce: &[u8], pt: &[u8], aad: &[u8]) -> (r: Result<Vec<u8>, AeadFailure>)
    requires
        nonce@.len() == 24,
    ensures
        (r == Err::<Vec<u8>, AeadFailure>(AeadFailure::BadKey)) <==> key@.len() != 32,
        (r == Err::<Vec<u8>, AeadFailure>(AeadFailure::Refused)) <==> (key@.len() == 32 && (pt@.len() >= CHACHA_POLY_LIMIT)),
        r matches Ok(v) ==> v@ == xchacha20_poly1305_sealed(key@, nonce@, pt@, aad@) && v@.len() == pt@.len() + 16,
        r matches Ok(v) ==> xchacha20_poly1305_opened(key@, nonce@, v@, aad@) == Some(pt@),
{
    let c = match chacha20poly1305::XChaCha20Poly1305::new_from_slice(key) {
        Ok(c) => c,
        Err(_) => return Err(AeadFailure::BadKey),
    };
    let n = GenericArray::from_slice(nonce);
    c.encrypt(n, Payload { msg: pt, aad }).map_err(|_| AeadFailure::Refused)
}

/// Trusted: `chacha20poly1305::XChaCha20Poly1305::new_from_slice(key)` then `Aead::decrypt` of `ct` with `aad`.
/// Claims the key is refused exactly when it does not have 32 bytes; that a plaintext comes
/// back exactly when `xchacha20_poly1305_opened` has one, and that it is 16 bytes shorter than `ct`.
#[verifier::external_body]
pub(crate) fn xchacha20_poly1305_open(key: &[u8], nonce: &[u8], ct: &[u8], aad: &[u8]) -> (r: Result<Vec<u8>, AeadFailure>)
    requires
        nonce@.len() == 24,
    ensures
        (r == Err::<Vec<u8>, AeadFailure>(AeadFailure::BadKey)) <==> key@.len() != 32,
        key@.len() == 32 ==> (r is Ok <==> xchacha20_poly1305_opened(key@, nonce@, ct@, aad@) is Some),
        r matches Ok(v) ==> Some(v@) == xchacha20_poly1305_opened(key@, nonce@, ct@, aad@) && v@.len() + 16 == ct@.len(),
{
    let c = match chacha20poly1305::XChaCha20Poly1305::new_from_slice(key) {
        Ok(c) => c,
        Err(_) => return Err(AeadFailure::BadKey),
    };
    let n = GenericArray::from_slice(nonce);
    c.decrypt(n, Payload { msg: ct, aad }).map_err(|_| AeadFailure::Refused)
}

/// The `len` bytes that HKDF-SHA256 expands from `salt`, `ikm` and `info`.
pub uninterp spec fn hkdf_sha256_okm(salt: Seq<u8>, ikm: Seq<u8>, info: Seq<u8>, len: nat) -> Seq<u8>;

/// Trusted: `hkdf::Hkdf::<sha2::Sha256>::new(Some(salt), ikm)` then `expand(info)` into `len`
/// bytes, which succeeds for every `len` up to 255 * 32. Claims the output is `hkdf_sha256_okm`.
#[verifier::external_body]
pub(crate) fn hkdf_sha256_expand(salt: &[u8], ikm: &[u8], info: &[u8], len: usize) -> (r: Vec<u8>)
    requires
        len <= 8160,
    ensures
        r@ == hkdf_sha256_okm(salt@, ikm@, info@, len as nat),
        r@.len() == len,
{
    let hk = hkdf::Hkdf::<sha2::Sha256>::new(Some(salt), ikm);
    let mut okm = vec![0u8; len];
    hk.expand(info, &mut okm).expect("HKDF output length is within bounds");
    okm
}

} // verus!
