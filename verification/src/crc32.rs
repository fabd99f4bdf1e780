use vstd::prelude::*;

verus! {

/// One bit step of the reflected CRC-32 (IEEE 802.3) register update.
pub open spec fn crc_bit(c: u32) -> u32 {
    if c & 1 == 1 {
        (c >> 1) ^ 0xEDB8_8320u32
    } else {
        c >> 1
    }
}

/// `n` bit steps of the CRC-32 register.
pub open spec fn crc_bits(c: u32, n: nat) -> u32
    decreases n,
{
    if n == 0 {
        c
    } else {
        crc_bit(crc_bits(c, (n - 1) as nat))
    }
}

/// Feeding one byte into the CRC-32 register.
pub open spec fn crc_update(c: u32, b: u8) -> u32 {
    crc_bits(c ^ (b as u32), 8)
}

/// Register value after feeding all of `s`, starting from all ones.
pub open spec fn crc_register(s: Seq<u8>) -> u32
    decreases s.len(),
{
    if s.len() == 0 {
        0xFFFF_FFFFu32
    } else {
        crc_update(crc_register(s.drop_last()), s.last())
    }
}

/// The standard CRC-32 checksum (zlib / IEEE polynomial) of `s`.
pub open spec fn spec_crc32(s: Seq<u8>) -> u32 {
    !crc_register(s)
}


/// The two Adler-32 running sums (a, b) after feeding all of `s`.
pub open spec fn adler_sums(s: Seq<u8>) -> (u32, u32)
    decreases s.len(),
{
    if s.len() == 0 {
        (1u32, 0u32)
    } else {
        let (a, b) = adler_sums(s.drop_last());
        let a2 = ((a + s.last()) % 65521) as u32;
        let b2 = ((b + a2) % 65521) as u32;
        (a2, b2)
    }
}

/// The standard Adler-32 checksum (zlib) of `s`.
pub open spec fn spec_adler32(s: Seq<u8>) -> u32 {
    let (a, b) = adler_sums(s);
    (b * 65536 + a) as u32
}

proof fn lemma_adler_sums_bounded(s: Seq<u8>)
    ensures
        adler_sums(s).0 < 65521,
        adler_sums(s).1 < 65521,
    decreases s.len(),
{
    if s.len() > 0 {
        lemma_adler_sums_bounded(s.drop_last());
    }
}

/// CRC-32 of `data`.
pub fn crc32(data: &[u8]) -> (r: u32)
    ensures
        r == spec_crc32(data@),
{
    let mut c: u32 = 0xFFFF_FFFF;
    let mut i: usize = 0;
    while i < data.len()
        invariant
            i <= data.len(),
            c == crc_register(data@.take(i as int)),
        decreases data.len() - i,
    {
        let ghost c0 = c ^ (data@[i as int] as u32);
        c = c ^ (data[i] as u32);
        let mut k: usize = 0;
        while k < 8
            invariant
                k <= 8,
                c == crc_bits(c0, k as nat),
            decreases 8 - k,
        {
            if c & 1 == 1 {
                c = (c >> 1) ^ 0xEDB8_8320u32;
            } else {
                c = c >> 1;
            }
            k = k + 1;
        }
        assert(data@.take(i + 1).drop_last() =~= data@.take(i as int));
        i = i + 1;
    }
    assert(data@.take(data.len() as int) =~= data@);
    !c
}

/// Adler-32 of `data`.
pub fn adler32(data: &[u8]) -> (r: u32)
    ensures
        r == spec_adler32(data@),
{
    let mut a: u32 = 1;
    let mut b: u32 = 0;
    let mut i: usize = 0;
    while i < data.len()
        invariant
            i <= data.len(),
            (a, b) == adler_sums(data@.take(i as int)),
            a < 65521,
            b < 65521,
        decreases data.len() - i,
    {
        assert(data@.take(i + 1).drop_last() =~= data@.take(i as int));
        a = (a + data[i] as u32) % 65521;
        b = (b + a) % 65521;
        i = i + 1;
    }
    assert(data@.take(data.len() as int) =~= data@);
    proof {
        lemma_adler_sums_bounded(data@);
    }
    b * 65536 + a
}


spec fn crc_byte_steps(c: u32) -> u32 {
    crc_bit(crc_bit(crc_bit(crc_bit(crc_bit(crc_bit(crc_bit(crc_bit(c))))))))
}

proof fn lemma_crc_update_steps(c: u32, b: u8)
    ensures
        crc_update(c, b) == crc_byte_steps(c ^ (b as u32)),
{
    reveal_with_fuel(crc_bits, 9);
}

/// Law of CRC-32 (the residue check of zlib's CRC): a message followed by its own CRC-32 in
/// four little-endian bytes has the CRC-32 `0x2144DF1C`, whatever the message.
pub proof fn lemma_crc32_residue(s: Seq<u8>)
    ensures
        ({
            let c = spec_crc32(s);
            spec_crc32(s + seq![(c & 0xff) as u8, ((c >> 8) & 0xff) as u8, ((c >> 16) & 0xff) as u8, ((c >> 24) & 0xff) as u8])
                == 0x2144DF1Cu32
        }),
{
    let r = crc_register(s);
    let c = spec_crc32(s);
    let b0 = (c & 0xff) as u8;
    let b1 = ((c >> 8) & 0xff) as u8;
    let b2 = ((c >> 16) & 0xff) as u8;
    let b3 = ((c >> 24) & 0xff) as u8;
    let t = s + seq![b0, b1, b2, b3];
    assert(t.drop_last() =~= s + seq![b0, b1, b2]);
    assert((s + seq![b0, b1, b2]).drop_last() =~= s + seq![b0, b1]);
    assert((s + seq![b0, b1]).drop_last() =~= s + seq![b0]);
    assert((s + seq![b0]).drop_last() =~= s);
    let r1 = crc_update(r, b0);
    let r2 = crc_update(r1, b1);
    let r3 = crc_update(r2, b2);
    let r4 = crc_update(r3, b3);
    assert(crc_register(s + seq![b0]) == r1) by {
        assert((s + seq![b0]).last() == b0);
    }
    assert(crc_register(s + seq![b0, b1]) == r2) by {
        assert((s + seq![b0, b1]).last() == b1);
    }
    assert(crc_register(s + seq![b0, b1, b2]) == r3) by {
        assert((s + seq![b0, b1, b2]).last() == b2);
    }
    assert(crc_register(t) == r4) by {
        assert(t.last() == b3);
    }
    lemma_crc_update_steps(r, b0);
    lemma_crc_update_steps(r1, b1);
    lemma_crc_update_steps(r2, b2);
    lemma_crc_update_steps(r3, b3);
    let x1 = crc_byte_steps(r ^ (b0 as u32));
    let x2 = crc_byte_steps(x1 ^ (b1 as u32));
    let x3 = crc_byte_steps(x2 ^ (b2 as u32));
    let x4 = crc_byte_steps(x3 ^ (b3 as u32));
    assert(!x4 == 0x2144DF1Cu32) by (bit_vector)
        requires
            c == !r,
            b0 == (c & 0xff) as u8,
            b1 == ((c >> 8) & 0xff) as u8,
            b2 == ((c >> 16) & 0xff) as u8,
            b3 == ((c >> 24) & 0xff) as u8,
            x1 == crc_byte_steps(r ^ (b0 as u32)),
            x2 == crc_byte_steps(x1 ^ (b1 as u32)),
            x3 == crc_byte_steps(x2 ^ (b2 as u32)),
            x4 == crc_byte_steps(x3 ^ (b3 as u32)),
    ;
}


/// The sum of the bytes of `s`.
pub open spec fn byte_sum(s: Seq<u8>) -> nat
    decreases s.len(),
{
    if s.len() == 0 {
        0
    } else {
        byte_sum(s.drop_last()) + (s.last() as nat)
    }
}

/// The sum, over the non-empty prefixes of `s`, of their byte sums.
pub open spec fn prefix_sum_total(s: Seq<u8>) -> nat
    decreases s.len(),
{
    if s.len() == 0 {
        0
    } else {
        prefix_sum_total(s.drop_last()) + byte_sum(s)
    }
}

proof fn lemma_adler_sums_value(s: Seq<u8>)
    ensures
        adler_sums(s).0 as int == (1 + byte_sum(s)) % 65521,
        adler_sums(s).1 as int == (s.len() + prefix_sum_total(s)) % 65521,
    decreases s.len(),
{
    if s.len() > 0 {
        let init = s.drop_last();
        lemma_adler_sums_value(init);
        lemma_adler_sums_bounded(init);
        let (a, b) = adler_sums(init);
        vstd::arithmetic::div_mod::lemma_add_mod_noop((1 + byte_sum(init)) as int, s.last() as int, 65521);
        vstd::arithmetic::div_mod::lemma_small_mod(s.last() as nat, 65521);
        assert((a + s.last()) % 65521 == (1 + byte_sum(s)) % 65521);
        let a2 = (1 + byte_sum(s)) % 65521;
        vstd::arithmetic::div_mod::lemma_add_mod_noop((init.len() + prefix_sum_total(init)) as int, (1 + byte_sum(s)) as int, 65521);
        vstd::arithmetic::div_mod::lemma_mod_twice((1 + byte_sum(s)) as int, 65521);
        assert((b + a2) % 65521 == (s.len() + prefix_sum_total(s)) % 65521);
    }
}

/// Law of Adler-32: the low sixteen bits are one plus the sum of the bytes, and the high
/// sixteen bits the length plus the sum of the byte sums of all non-empty prefixes, each
/// modulo 65521.
pub proof fn lemma_adler32_value(s: Seq<u8>)
    ensures
        spec_adler32(s) as int % 65536 == (1 + byte_sum(s)) % 65521,
        spec_adler32(s) as int / 65536 == (s.len() + prefix_sum_total(s)) % 65521,
{
    lemma_adler_sums_bounded(s);
    lemma_adler_sums_value(s);
    let (a, b) = adler_sums(s);
    assert(b * 65536 + a < 0x1_0000_0000) by (nonlinear_arith)
        requires a < 65521, b < 65521;
    assert((b * 65536 + a) % 65536 == a as int && (b * 65536 + a) / 65536 == b as int) by (nonlinear_arith)
        requires a < 65521, b < 65521;
}

} // verus!
