use vstd::prelude::*;
use super::primitives::{hkdf_sha256_expand, hkdf_sha256_okm};

verus! {

/// HKDF with SHA-256: `out_len` bytes expanded from `salt`, `ikm` and `info`. HKDF-SHA256
/// produces at most 255 * 32 bytes.
pub fn sha256_hkdf(salt: &[u8], ikm: &[u8], info: &[u8], out_len: usize) -> (r: Vec<u8>)
    requires
        out_len <= 8160,
    ensures
        r@ == hkdf_sha256_okm(salt@, ikm@, info@, out_len as nat),
        r@.len() == out_len,
{
    hkdf_sha256_expand(salt, ikm, info, out_len)
}

} // verus!
