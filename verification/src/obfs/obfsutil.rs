use vstd::prelude::*;
use vstd::slice::slice_to_vec;
use hmac::Mac;
use md5::Digest;
use crate::bytes::{le_bytes_u32, le_u32, u32_from_le, lemma_le_u32_roundtrip};
use crate::crc32::{crc32, adler32, spec_crc32, spec_adler32};

verus! {

/// Result of HMAC-SHA1 over `data` under `key`.
pub uninterp spec fn spec_hmac_sha1(key: Seq<u8>, data: Seq<u8>) -> Seq<u8>;

/// Result of HMAC-MD5 over `data` under `key`.
pub uninterp spec fn spec_hmac_md5(key: Seq<u8>, data: Seq<u8>) -> Seq<u8>;

/// MD5 digest of `data`.
pub uninterp spec fn spec_md5(data: Seq<u8>) -> Seq<u8>;

/// SHA-1 digest of `data`.
pub uninterp spec fn spec_sha1(data: Seq<u8>) -> Seq<u8>;

/// Trusted: `hmac::Hmac<sha1::Sha1>` keyed with `key` (any key length is accepted),
/// fed `data`, finalized. Claims the 20-byte tag equals `spec_hmac_sha1(key, data)`.
#[verifier::external_body]
fn hmac_sha1_raw(key: &[u8], data: &[u8]) -> (r: Vec<u8>)
    ensures
        r@ == spec_hmac_sha1(key@, data@),
        r@.len() == 20,
{
    let mut mac = <hmac::Hmac<sha1::Sha1> as Mac>::new_from_slice(key).unwrap();
    mac.update(data);
    mac.finalize().into_bytes().to_vec()
}

/// Trusted: `hmac::Hmac<md5::Md5>` keyed with `key`, fed `msg`, finalized.
/// Claims the 16-byte tag equals `spec_hmac_md5(key, msg)`.
#[verifier::external_body]
fn hmac_md5_raw(key: &[u8], msg: &[u8]) -> (r: Vec<u8>)
    ensures
        r@ == spec_hmac_md5(key@, msg@),
        r@.len() == 16,
{
    let mut mac = <hmac::Hmac<md5::Md5> as Mac>::new_from_slice(key).unwrap();
    mac.update(msg);
    mac.finalize().into_bytes().to_vec()
}

/// Trusted: `md5::Md5::digest`. Claims the 16-byte digest equals `spec_md5(data)`.
#[verifier::external_body]
pub(crate) fn md5_digest(data: &[u8]) -> (r: Vec<u8>)
    ensures
        r@ == spec_md5(data@),
        r@.len() == 16,
{
    md5::Md5::digest(data).to_vec()
}

/// Trusted: `sha1::Sha1::digest`. Claims the 20-byte digest equals `spec_sha1(data)`.
#[verifier::external_body]
fn sha1_digest(data: &[u8]) -> (r: Vec<u8>)
    ensures
        r@ == spec_sha1(data@),
        r@.len() == 20,
{
    sha1::Sha1::digest(data).to_vec()
}

/// Trusted: `rand::rngs::OsRng::fill_bytes` on a buffer of `len` bytes.
/// Only the length of the result is claimed: the bytes are random.
#[verifier::external_body]
pub fn rand_bytes(len: usize) -> (r: Vec<u8>)
    ensures
        r@.len() == len,
{
    let mut buf = vec![0u8; len];
    rand::RngCore::fill_bytes(&mut rand::rngs::OsRng, &mut buf);
    buf
}

/// HMAC-SHA1 with key only.
pub fn hmac_sha1(key: &[u8], data: &[u8]) -> (r: Vec<u8>)
    ensures
        r@ == spec_hmac_sha1(key@, data@),
        r@.len() == 20,
{
    hmac_sha1_raw(key, data)
}

/// SSR HMAC: HMAC-SHA1 under `key` over `plain` followed by `iv`.
pub fn ss_sha1_hmac(plain: &[u8], iv: &[u8], key: &[u8]) -> (r: Vec<u8>)
    ensures
        r@ == spec_hmac_sha1(key@, plain@ + iv@),
        r@.len() == 20,
{
    let mut msg = slice_to_vec(plain);
    msg.extend_from_slice(iv);
    assert(msg@ =~= plain@ + iv@);
    hmac_sha1_raw(key, msg.as_slice())
}

/// SS HMAC over the first `plen` bytes of `plain` and the first `iv_len` bytes of `iv`,
/// keyed with the first `key_len` bytes of `key`.
pub fn ss_sha1_hmac_full(plain: &[u8], plen: usize, iv: &[u8], iv_len: usize, key: &[u8], key_len: usize) -> (r: Vec<u8>)
    requires
        plen <= plain@.len(),
        iv_len <= iv@.len(),
        key_len <= key@.len(),
    ensures
        r@ == spec_hmac_sha1(key@.take(key_len as int), plain@.take(plen as int) + iv@.take(iv_len as int)),
        r@.len() == 20,
{
    let mut msg = slice_to_vec(&plain[0..plen]);
    msg.extend_from_slice(&iv[0..iv_len]);
    assert(msg@ =~= plain@.take(plen as int) + iv@.take(iv_len as int));
    let k = &key[0..key_len];
    assert(k@ =~= key@.take(key_len as int));
    hmac_sha1_raw(k, msg.as_slice())
}

/// HMAC-MD5 of `msg` under `key`.
pub fn ss_md5_hmac_with_key(msg: &[u8], key: &[u8]) -> (r: Vec<u8>)
    ensures
        r@ == spec_hmac_md5(key@, msg@),
        r@.len() == 16,
{
    hmac_md5_raw(key, msg)
}

/// HMAC-SHA1 of `msg` under `key`.
pub fn ss_sha1_hmac_with_key(msg: &[u8], key: &[u8]) -> (r: Vec<u8>)
    ensures
        r@ == spec_hmac_sha1(key@, msg@),
        r@.len() == 20,
{
    hmac_sha1_raw(key, msg)
}

/// MD5 digest.
pub fn ss_md5_hash_func(data: &[u8]) -> (r: Vec<u8>)
    ensures
        r@ == spec_md5(data@),
        r@.len() == 16,
{
    md5_digest(data)
}

/// SHA-1 digest.
pub fn ss_sha1_hash_func(data: &[u8]) -> (r: Vec<u8>)
    ensures
        r@ == spec_sha1(data@),
        r@.len() == 20,
{
    sha1_digest(data)
}

/// Next output of the xorshift128+ style generator (single 64-bit state).
pub open spec fn spec_xorshift_next_seed(s: u64) -> u64 {
    let x = s ^ (s << 23u64);
    x ^ s ^ (x >> 17u64) ^ (s >> 26u64)
}

pub fn xorshift128plus(seed: &mut u64) -> (r: u64)
    ensures
        *final(seed) == spec_xorshift_next_seed(*old(seed)),
        r == ((spec_xorshift_next_seed(*old(seed)) as int + *old(seed) as int) % 0x1_0000_0000_0000_0000) as u64,
{
    let mut x = *seed;
    let y = x;
    x = x ^ (x << 23u64);
    let t = x ^ y ^ (x >> 17u64) ^ (y >> 26u64);
    *seed = t;
    t.wrapping_add(y)
}

/// Size of the SOCKS5 address header ([ATYP][ADDR][PORT]) at the start of `data`, 0 when unknown.
pub open spec fn spec_s5_head_size(data: Seq<u8>) -> int {
    if data.len() < 2 {
        0
    } else if data[0] == 1 {
        7
    } else if data[0] == 3 {
        4 + data[1]
    } else if data[0] == 4 {
        19
    } else {
        0
    }
}

pub fn get_s5_head_size(data: &[u8]) -> (r: usize)
    ensures
        r as int == spec_s5_head_size(data@),
{
    if data.len() < 2 {
        return 0;
    }
    let addr_type = data[0];
    match addr_type {
        1 => 7,
        3 => 4 + data[1] as usize,
        4 => 19,
        _ => 0,
    }
}

/// Writes `val` little-endian into the first four bytes of `data`.
pub fn memintcopy_lt(data: &mut [u8], val: u32)
    requires
        old(data)@.len() >= 4,
    ensures
        final(data)@ == le_bytes_u32(val) + old(data)@.skip(4),
{
    data[0] = (val & 0xFF) as u8;
    data[1] = ((val >> 8) & 0xFF) as u8;
    data[2] = ((val >> 16) & 0xFF) as u8;
    data[3] = ((val >> 24) & 0xFF) as u8;
    assert(data@ =~= le_bytes_u32(val) + old(data)@.skip(4));
}

/// Writes the CRC-32 of the first `len - 4` bytes into bytes `len - 4 .. len`.
pub fn fillcrc32(data: &mut [u8], len: usize)
    requires
        4 <= len <= old(data)@.len(),
    ensures
        final(data)@ == old(data)@.take(len - 4) + le_bytes_u32(spec_crc32(old(data)@.take(len - 4)))
            + old(data)@.skip(len as int),
{
    let crc = crc32(&data[0..len - 4]);
    data[len - 4] = (crc & 0xFF) as u8;
    data[len - 3] = ((crc >> 8) & 0xFF) as u8;
    data[len - 2] = ((crc >> 16) & 0xFF) as u8;
    data[len - 1] = ((crc >> 24) & 0xFF) as u8;
    assert(data@ =~= old(data)@.take(len - 4) + le_bytes_u32(crc) + old(data)@.skip(len as int));
}

/// Writes the low two bytes (little-endian) of the CRC-32 of `data[0..data_len]` into `output`.
pub fn fillcrc32to(data: &[u8], data_len: usize, output: &mut [u8])
    requires
        data_len <= data@.len(),
        old(output)@.len() >= 2,
    ensures
        final(output)@ == le_bytes_u32(spec_crc32(data@.take(data_len as int))).take(2) + old(output)@.skip(2),
{
    let crc = crc32(&data[0..data_len]);
    output[0] = (crc & 0xFF) as u8;
    output[1] = ((crc >> 8) & 0xFF) as u8;
    assert(output@ =~= le_bytes_u32(crc).take(2) + old(output)@.skip(2));
}

/// Whether the last four bytes of `data[0..len]` hold the CRC-32 of the bytes before them.
pub open spec fn spec_checkcrc32(data: Seq<u8>, len: int) -> bool {
    len >= 4 && spec_crc32(data.take(len - 4)) == le_u32(data[len - 4], data[len - 3], data[len - 2], data[len - 1])
}

pub fn checkcrc32(data: &[u8], len: usize) -> (r: bool)
    requires
        len <= data@.len(),
    ensures
        r == spec_checkcrc32(data@, len as int),
{
    if len < 4 {
        return false;
    }
    let crc = crc32(&data[0..len - 4]);
    let expected = u32_from_le(data[len - 4], data[len - 3], data[len - 2], data[len - 1]);
    crc == expected
}

/// Writes the Adler-32 of the first `len - 4` bytes into bytes `len - 4 .. len`.
pub fn filladler32(data: &mut [u8], len: usize)
    requires
        4 <= len <= old(data)@.len(),
    ensures
        final(data)@ == old(data)@.take(len - 4) + le_bytes_u32(spec_adler32(old(data)@.take(len - 4)))
            + old(data)@.skip(len as int),
{
    let a = adler32(&data[0..len - 4]);
    data[len - 4] = (a & 0xFF) as u8;
    data[len - 3] = ((a >> 8) & 0xFF) as u8;
    data[len - 2] = ((a >> 16) & 0xFF) as u8;
    data[len - 1] = ((a >> 24) & 0xFF) as u8;
    assert(data@ =~= old(data)@.take(len - 4) + le_bytes_u32(a) + old(data)@.skip(len as int));
}

/// Whether the last four bytes of `data[0..len]` hold the Adler-32 of the bytes before them.
pub open spec fn spec_checkadler32(data: Seq<u8>, len: int) -> bool {
    len >= 4 && spec_adler32(data.take(len - 4)) == le_u32(data[len - 4], data[len - 3], data[len - 2], data[len - 1])
}

pub fn checkadler32(data: &[u8], len: usize) -> (r: bool)
    requires
        len <= data@.len(),
    ensures
        r == spec_checkadler32(data@, len as int),
{
    if len < 4 {
        return false;
    }
    let a = adler32(&data[0..len - 4]);
    let expected = u32_from_le(data[len - 4], data[len - 3], data[len - 2], data[len - 1]);
    a == expected
}

/// A buffer whose CRC-32 trailer was filled by `fillcrc32` passes `checkcrc32`.
pub proof fn lemma_fill_then_check_crc32(before: Seq<u8>, after: Seq<u8>, len: int)
    requires
        4 <= len <= before.len(),
        after == before.take(len - 4) + le_bytes_u32(spec_crc32(before.take(len - 4))) + before.skip(len),
    ensures
        spec_checkcrc32(after, len),
{
    assert(after.take(len - 4) =~= before.take(len - 4));
    lemma_le_u32_roundtrip(spec_crc32(before.take(len - 4)));
}

/// A buffer whose Adler-32 trailer was filled by `filladler32` passes `checkadler32`.
pub proof fn lemma_fill_then_check_adler32(before: Seq<u8>, after: Seq<u8>, len: int)
    requires
        4 <= len <= before.len(),
        after == before.take(len - 4) + le_bytes_u32(spec_adler32(before.take(len - 4))) + before.skip(len),
    ensures
        spec_checkadler32(after, len),
{
    assert(after.take(len - 4) =~= before.take(len - 4));
    lemma_le_u32_roundtrip(spec_adler32(before.take(len - 4)));
}

} // verus!
