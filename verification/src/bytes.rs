use vstd::prelude::*;
use vstd::slice::slice_subrange;

verus! {

/// The four little-endian bytes of `v`.
pub open spec fn le_bytes_u32(v: u32) -> Seq<u8> {
    seq![(v & 0xff) as u8, ((v >> 8) & 0xff) as u8, ((v >> 16) & 0xff) as u8, ((v >> 24) & 0xff) as u8]
}

/// The value of four little-endian bytes.
pub open spec fn le_u32(b0: u8, b1: u8, b2: u8, b3: u8) -> u32 {
    (b0 as u32) | ((b1 as u32) << 8) | ((b2 as u32) << 16) | ((b3 as u32) << 24)
}

/// The value of two big-endian bytes.
pub open spec fn be_u16(b0: u8, b1: u8) -> u16 {
    (((b0 as u16) << 8) | (b1 as u16)) as u16
}

/// The two big-endian bytes of `v`.
pub open spec fn be_bytes_u16(v: u16) -> Seq<u8> {
    seq![(v >> 8) as u8, (v & 0xff) as u8]
}

pub proof fn lemma_le_u32_roundtrip(v: u32)
    ensures
        le_u32(le_bytes_u32(v)[0], le_bytes_u32(v)[1], le_bytes_u32(v)[2], le_bytes_u32(v)[3]) == v,
{
    let b0 = (v & 0xff) as u8;
    let b1 = ((v >> 8) & 0xff) as u8;
    let b2 = ((v >> 16) & 0xff) as u8;
    let b3 = ((v >> 24) & 0xff) as u8;
    assert((b0 as u32) | ((b1 as u32) << 8) | ((b2 as u32) << 16) | ((b3 as u32) << 24) == v)
        by (bit_vector)
        requires
            b0 == (v & 0xff) as u8,
            b1 == ((v >> 8) & 0xff) as u8,
            b2 == ((v >> 16) & 0xff) as u8,
            b3 == ((v >> 24) & 0xff) as u8,
    ;
}

pub proof fn lemma_be_u16_roundtrip(v: u16)
    ensures
        be_u16(be_bytes_u16(v)[0], be_bytes_u16(v)[1]) == v,
{
    let b0 = (v >> 8) as u8;
    let b1 = (v & 0xff) as u8;
    assert((((b0 as u16) << 8) | (b1 as u16)) as u16 == v) by (bit_vector)
        requires
            b0 == (v >> 8) as u8,
            b1 == (v & 0xff) as u8,
    ;
}

/// Little-endian value of four bytes.
pub fn u32_from_le(b0: u8, b1: u8, b2: u8, b3: u8) -> (r: u32)
    ensures
        r == le_u32(b0, b1, b2, b3),
{
    (b0 as u32) | ((b1 as u32) << 8) | ((b2 as u32) << 16) | ((b3 as u32) << 24)
}

/// Big-endian value of two bytes.
pub fn u16_from_be(b0: u8, b1: u8) -> (r: u16)
    ensures
        r == be_u16(b0, b1),
{
    ((b0 as u16) << 8) | (b1 as u16)
}

} // verus!

verus! {

/// The eight big-endian bytes of `v`.
pub open spec fn be_bytes_u64(v: u64) -> Seq<u8> {
    seq![
        (v >> 56u64) as u8, ((v >> 48u64) & 0xff) as u8, ((v >> 40u64) & 0xff) as u8, ((v >> 32u64) & 0xff) as u8,
        ((v >> 24u64) & 0xff) as u8, ((v >> 16u64) & 0xff) as u8, ((v >> 8u64) & 0xff) as u8, (v & 0xff) as u8,
    ]
}

/// The value of eight big-endian bytes.
pub open spec fn be_u64(b: Seq<u8>) -> u64 {
    ((b[0] as u64) << 56u64) | ((b[1] as u64) << 48u64) | ((b[2] as u64) << 40u64) | ((b[3] as u64) << 32u64)
        | ((b[4] as u64) << 24u64) | ((b[5] as u64) << 16u64) | ((b[6] as u64) << 8u64) | (b[7] as u64)
}

pub proof fn lemma_be_u64_roundtrip(v: u64)
    ensures
        be_u64(be_bytes_u64(v)) == v,
{
    let b = be_bytes_u64(v);
    let (b0, b1, b2, b3, b4, b5, b6, b7) = (b[0], b[1], b[2], b[3], b[4], b[5], b[6], b[7]);
    assert(((b0 as u64) << 56u64) | ((b1 as u64) << 48u64) | ((b2 as u64) << 40u64) | ((b3 as u64) << 32u64)
        | ((b4 as u64) << 24u64) | ((b5 as u64) << 16u64) | ((b6 as u64) << 8u64) | (b7 as u64) == v)
        by (bit_vector)
        requires
            b0 == (v >> 56u64) as u8,
            b1 == ((v >> 48u64) & 0xff) as u8,
            b2 == ((v >> 40u64) & 0xff) as u8,
            b3 == ((v >> 32u64) & 0xff) as u8,
            b4 == ((v >> 24u64) & 0xff) as u8,
            b5 == ((v >> 16u64) & 0xff) as u8,
            b6 == ((v >> 8u64) & 0xff) as u8,
            b7 == (v & 0xff) as u8,
    ;
}

/// Big-endian bytes of a u16.
pub fn u16_to_be(v: u16) -> (r: [u8; 2])
    ensures
        r@ == be_bytes_u16(v),
{
    let r = [(v >> 8u16) as u8, (v & 0xff) as u8];
    assert(r@ =~= be_bytes_u16(v));
    r
}

/// Big-endian bytes of a u64.
pub fn u64_to_be(v: u64) -> (r: [u8; 8])
    ensures
        r@ == be_bytes_u64(v),
{
    let r = [
        (v >> 56u64) as u8, ((v >> 48u64) & 0xff) as u8, ((v >> 40u64) & 0xff) as u8, ((v >> 32u64) & 0xff) as u8,
        ((v >> 24u64) & 0xff) as u8, ((v >> 16u64) & 0xff) as u8, ((v >> 8u64) & 0xff) as u8, (v & 0xff) as u8,
    ];
    assert(r@ =~= be_bytes_u64(v));
    r
}

/// Value of eight big-endian bytes at `s[at..at + 8]`.
pub fn u64_from_be_at(s: &[u8], at: usize) -> (r: u64)
    requires
        at + 8 <= s@.len(),
    ensures
        r == be_u64(s@.subrange(at as int, at + 8)),
{
    ((s[at] as u64) << 56u64) | ((s[at + 1] as u64) << 48u64) | ((s[at + 2] as u64) << 40u64) | ((s[at + 3] as u64) << 32u64)
        | ((s[at + 4] as u64) << 24u64) | ((s[at + 5] as u64) << 16u64) | ((s[at + 6] as u64) << 8u64) | (s[at + 7] as u64)
}

/// The value of eight little-endian bytes.
pub open spec fn le_u64(b: Seq<u8>) -> u64 {
    ((b[7] as u64) << 56u64) | ((b[6] as u64) << 48u64) | ((b[5] as u64) << 40u64) | ((b[4] as u64) << 32u64)
        | ((b[3] as u64) << 24u64) | ((b[2] as u64) << 16u64) | ((b[1] as u64) << 8u64) | (b[0] as u64)
}

/// Value of eight little-endian bytes at `s[at..at + 8]`.
pub fn u64_from_le_at(s: &[u8], at: usize) -> (r: u64)
    requires
        at + 8 <= s@.len(),
    ensures
        r == le_u64(s@.subrange(at as int, at + 8)),
{
    let len = s.len();
    assert(at + 8 <= len);
    let b = slice_subrange(s, at, at + 8);
    assert(b@ =~= s@.subrange(at as int, at + 8));
    ((b[7] as u64) << 56u64) | ((b[6] as u64) << 48u64) | ((b[5] as u64) << 40u64) | ((b[4] as u64) << 32u64)
        | ((b[3] as u64) << 24u64) | ((b[2] as u64) << 16u64) | ((b[1] as u64) << 8u64) | (b[0] as u64)
}

/// Byte-wise equality of two slices.
pub fn bytes_eq(a: &[u8], b: &[u8]) -> (r: bool)
    ensures
        r == (a@ == b@),
{
    if a.len() != b.len() {
        return false;
    }
    let mut i: usize = 0;
    while i < a.len()
        invariant
            i <= a@.len(),
            a@.len() == b@.len(),
            a@.take(i as int) == b@.take(i as int),
        decreases a@.len() - i,
    {
        if a[i] != b[i] {
            assert(a@[i as int] != b@[i as int]);
            return false;
        }
        assert(a@.take(i + 1) =~= a@.take(i as int).push(a@[i as int]));
        assert(b@.take(i + 1) =~= b@.take(i as int).push(b@[i as int]));
        i = i + 1;
    }
    assert(a@.take(a@.len() as int) =~= a@);
    assert(b@.take(b@.len() as int) =~= b@);
    true
}


/// Law of big-endian pairs: two bytes read big-endian have the value `256 * b0 + b1`, and
/// a 16-bit value is written as its high byte, then its low byte.
pub proof fn lemma_be_u16_value(b0: u8, b1: u8, v: u16)
    ensures
        be_u16(b0, b1) as int == 256 * (b0 as int) + (b1 as int),
        be_bytes_u16(v).len() == 2,
        be_bytes_u16(v)[0] as int == (v as int) / 256,
        be_bytes_u16(v)[1] as int == (v as int) % 256,
{
    assert((((b0 as u16) << 8) | (b1 as u16)) == 256 * (b0 as u16) + (b1 as u16)) by (bit_vector);
    assert(((v >> 8) as u8) as u16 == v / 256) by (bit_vector);
    assert(((v & 0xff) as u8) as u16 == v % 256) by (bit_vector);
}

/// The bytes of a 64-bit value, big-endian: byte `7 - k` holds bits `8k` to `8k + 7`.
pub proof fn lemma_be_bytes_u64_digits(n: u64)
    ensures
        be_bytes_u64(n)[7] == ((n >> 0u64) & 0xff) as u8,
        be_bytes_u64(n)[6] == ((n >> 8u64) & 0xff) as u8,
        be_bytes_u64(n)[5] == ((n >> 16u64) & 0xff) as u8,
        be_bytes_u64(n)[4] == ((n >> 24u64) & 0xff) as u8,
        be_bytes_u64(n)[3] == ((n >> 32u64) & 0xff) as u8,
        be_bytes_u64(n)[2] == ((n >> 40u64) & 0xff) as u8,
        be_bytes_u64(n)[1] == ((n >> 48u64) & 0xff) as u8,
        be_bytes_u64(n)[0] == ((n >> 56u64) & 0xff) as u8,
{
    assert((n & 0xff) as u8 == ((n >> 0u64) & 0xff) as u8) by (bit_vector);
    assert((n >> 56u64) as u8 == ((n >> 56u64) & 0xff) as u8) by (bit_vector);
}


/// Law of little-endian words: the four bytes of `v` are its base-256 digits, lowest first.
pub proof fn lemma_le_bytes_u32_value(v: u32)
    ensures
        le_bytes_u32(v).len() == 4,
        le_bytes_u32(v)[0] as int + 256 * (le_bytes_u32(v)[1] as int) + 65536 * (le_bytes_u32(v)[2] as int)
            + 16777216 * (le_bytes_u32(v)[3] as int) == v as int,
{
    let b0 = (v & 0xff) as u8;
    let b1 = ((v >> 8) & 0xff) as u8;
    let b2 = ((v >> 16) & 0xff) as u8;
    let b3 = ((v >> 24) & 0xff) as u8;
    assert(b0 as u32 + 256 * (b1 as u32) + 65536 * (b2 as u32) + 16777216 * (b3 as u32) == v) by (bit_vector)
        requires
            b0 == (v & 0xff) as u8,
            b1 == ((v >> 8) & 0xff) as u8,
            b2 == ((v >> 16) & 0xff) as u8,
            b3 == ((v >> 24) & 0xff) as u8,
    ;
}


/// Law of big-endian words: eight bytes read big-endian are their base-256 digits, highest first.
pub proof fn lemma_be_u64_value(b: Seq<u8>)
    requires
        b.len() >= 8,
    ensures
        be_u64(b) as int == 72057594037927936 * (b[0] as int) + 281474976710656 * (b[1] as int)
            + 1099511627776 * (b[2] as int) + 4294967296 * (b[3] as int) + 16777216 * (b[4] as int)
            + 65536 * (b[5] as int) + 256 * (b[6] as int) + (b[7] as int),
{
    let (b0, b1, b2, b3, b4, b5, b6, b7) = (b[0], b[1], b[2], b[3], b[4], b[5], b[6], b[7]);
    assert(((b0 as u64) << 56u64) | ((b1 as u64) << 48u64) | ((b2 as u64) << 40u64) | ((b3 as u64) << 32u64)
        | ((b4 as u64) << 24u64) | ((b5 as u64) << 16u64) | ((b6 as u64) << 8u64) | (b7 as u64)
        == 72057594037927936 * (b0 as int) + 281474976710656 * (b1 as int) + 1099511627776 * (b2 as int)
        + 4294967296 * (b3 as int) + 16777216 * (b4 as int) + 65536 * (b5 as int) + 256 * (b6 as int) + (b7 as int))
        by (bit_vector);
}

} // verus!
