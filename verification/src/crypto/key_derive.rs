use vstd::prelude::*;
use vstd::slice::slice_to_vec;
use crate::obfs::obfsutil::{md5_digest, spec_md5};

verus! {

/// Digest `i` of the OpenSSL `EVP_BytesToKey` scheme with MD5 and one round:
/// `D_0 = MD5(password)` and `D_i = MD5(D_{i-1} + password)`.
pub open spec fn evp_block(password: Seq<u8>, i: nat) -> Seq<u8>
    decreases i,
{
    if i == 0 {
        spec_md5(password)
    } else {
        spec_md5(evp_block(password, (i - 1) as nat) + password)
    }
}

/// The first `n` digests, one after the other.
pub open spec fn evp_stream(password: Seq<u8>, n: nat) -> Seq<u8>
    decreases n,
{
    if n == 0 {
        Seq::empty()
    } else {
        evp_stream(password, (n - 1) as nat) + evp_block(password, (n - 1) as nat)
    }
}

/// The first `total` bytes of the digest stream of `password`.
pub open spec fn evp_bytes(password: Seq<u8>, total: nat) -> Seq<u8> {
    evp_stream(password, (total + 15) / 16).take(total as int)
}

/// The digest stream for `a` digests is the start of that for `b >= a` digests.
proof fn lemma_evp_stream_prefix(password: Seq<u8>, a: nat, b: nat)
    requires
        a <= b,
    ensures
        evp_stream(password, a).len() <= evp_stream(password, b).len(),
        evp_stream(password, b).take(evp_stream(password, a).len() as int) == evp_stream(password, a),
    decreases b,
{
    if a < b {
        lemma_evp_stream_prefix(password, a, (b - 1) as nat);
        let s = evp_stream(password, (b - 1) as nat);
        let t = evp_stream(password, b);
        let n = evp_stream(password, a).len() as int;
        assert(t == s + evp_block(password, (b - 1) as nat));
        assert(t.take(n) =~= s.take(n));
    } else {
        assert(evp_stream(password, b).take(evp_stream(password, b).len() as int) =~= evp_stream(password, b));
    }
}

/// Whether the digest stream of `password` reaches `total` bytes, as it does for every
/// length `bytes_to_key` and `crypto_derive_key` were asked for.
pub open spec fn evp_reaches(password: Seq<u8>, total: nat) -> bool {
    evp_stream(password, (total + 15) / 16).len() >= total
}

/// Law of the key derivation: the key for a shorter length is the start of the key for a
/// longer one, for lengths the digest stream reaches.
pub proof fn lemma_derived_key_prefix(password: Seq<u8>, m: nat, n: nat)
    requires
        m <= n,
        evp_reaches(password, m),
        evp_reaches(password, n),
    ensures
        evp_bytes(password, n).take(m as int) == evp_bytes(password, m),
{
    let a = (m + 15) / 16;
    let b = (n + 15) / 16;
    assert(a <= b) by (nonlinear_arith)
        requires
            m <= n,
            a == (m + 15) / 16,
            b == (n + 15) / 16,
    ;
    lemma_evp_stream_prefix(password, a, b);
    let sa = evp_stream(password, a);
    let sb = evp_stream(password, b);
    assert(sa.len() >= m);
    assert(sb.len() >= n);
    assert(sb.take(sa.len() as int) == sa);
    assert(sb.take(n as int).take(m as int) =~= sa.take(m as int));
}

/// OpenSSL's `EVP_BytesToKey` with MD5 and one round: the key is the first `key_len` bytes
/// of the digest stream, the IV the `iv_len` bytes after them (a digest may be split between
/// the two).
pub fn bytes_to_key(password: &[u8], key_len: usize, iv_len: usize) -> (r: (Vec<u8>, Vec<u8>))
    requires
        key_len + iv_len + 16 <= usize::MAX,
    ensures
        r.0@ == evp_bytes(password@, (key_len + iv_len) as nat).take(key_len as int),
        r.1@ == evp_bytes(password@, (key_len + iv_len) as nat).skip(key_len as int),
        evp_bytes(password@, (key_len + iv_len) as nat).len() == key_len + iv_len,
        r.0@.len() == key_len,
        r.1@.len() == iv_len,
        evp_reaches(password@, (key_len + iv_len) as nat),
{
    let total = key_len + iv_len;
    let mut all: Vec<u8> = Vec::new();
    let mut hash: Vec<u8> = Vec::new();
    let mut count: usize = 0;
    while all.len() < total
        invariant
            all@ == evp_stream(password@, count as nat),
            all@.len() == 16 * count,
            count > 0 ==> hash@ == evp_block(password@, (count - 1) as nat),
            all@.len() < total + 16,
            total + 16 <= usize::MAX,
        decreases total + 16 - all@.len(),
    {
        let input: Vec<u8> = if count == 0 {
            slice_to_vec(password)
        } else {
            let mut v = slice_to_vec(hash.as_slice());
            v.extend_from_slice(password);
            v
        };
        assert(input@ == (if count == 0 { password@ } else { evp_block(password@, (count - 1) as nat) + password@ }));
        hash = md5_digest(input.as_slice());
        assert(hash@ == evp_block(password@, count as nat));
        all.extend_from_slice(hash.as_slice());
        count = count + 1;
        assert(all@ =~= evp_stream(password@, count as nat));
    }
    assert(count == (total + 15) / 16) by (nonlinear_arith)
        requires
            16 * count >= total,
            16 * count < total + 16,
    ;
    let key = slice_to_vec(&all.as_slice()[0..key_len]);
    let iv = slice_to_vec(&all.as_slice()[key_len..total]);
    let ghost b = evp_bytes(password@, total as nat);
    assert(key@ =~= b.take(key_len as int));
    assert(iv@ =~= b.skip(key_len as int));
    (key, iv)
}

/// The key of an AEAD method: the first `key_len` bytes of the digest stream of `password`.
pub fn crypto_derive_key(password: &[u8], key_len: usize) -> (r: Vec<u8>)
    requires
        key_len + 16 <= usize::MAX,
    ensures
        r@ == evp_bytes(password@, key_len as nat),
        r@.len() == key_len,
        evp_reaches(password@, key_len as nat),
{
    let r = bytes_to_key(password, key_len, 0).0;
    assert(evp_bytes(password@, key_len as nat).take(key_len as int) =~= evp_bytes(password@, key_len as nat));
    r
}

} // verus!
