use vstd::prelude::*;
use crate::bytes::{le_u64, u64_from_le_at};
use crate::obfs::obfsutil::{md5_digest, spec_md5};

verus! {

/// One step of the xorshift64 generator (shifts 13, 7, 17).
pub open spec fn xorshift64_next(x: u64) -> u64 {
    let a = x ^ (x << 13u64);
    let b = a ^ (a >> 7u64);
    b ^ (b << 17u64)
}

/// `t` with the entries at `i` and `j` exchanged.
pub open spec fn swap_at(t: Seq<u8>, i: int, j: int) -> Seq<u8> {
    t.update(i, t[j]).update(j, t[i])
}

/// The first `m` steps of one shuffling pass over `t` with generator state `x`: step `p`
/// (for `p` from 1 to `m`) draws the next number and swaps position `p` with the drawn
/// position below or at it. Returns the table and the generator state.
pub open spec fn shuffle_pass(t: Seq<u8>, x: u64, m: nat) -> (Seq<u8>, u64)
    decreases m,
{
    if m == 0 {
        (t, x)
    } else {
        let (t0, x0) = shuffle_pass(t, x, (m - 1) as nat);
        let x1 = xorshift64_next(x0);
        let j = (x1 as usize) % ((m + 1) as usize);
        (swap_at(t0, m as int, j as int), x1)
    }
}

/// `r` full shuffling passes (positions 1 to 255 each).
pub open spec fn shuffle_rounds(t: Seq<u8>, x: u64, r: nat) -> (Seq<u8>, u64)
    decreases r,
{
    if r == 0 {
        (t, x)
    } else {
        let (t0, x0) = shuffle_rounds(t, x, (r - 1) as nat);
        shuffle_pass(t0, x0, 255)
    }
}

/// The table that maps every byte to itself.
pub open spec fn identity_table() -> Seq<u8> {
    Seq::new(256, |i: int| i as u8)
}

/// The generator seed of a password: the first eight bytes of its MD5 digest, little-endian.
pub open spec fn table_seed(password: Seq<u8>) -> u64 {
    le_u64(spec_md5(password))
}

/// The substitution table of a password: the identity shuffled by 1024 passes.
pub open spec fn encryption_table(password: Seq<u8>) -> Seq<u8> {
    shuffle_rounds(identity_table(), table_seed(password), 1024).0
}

/// The table built by writing `k` at position `t[k]` for every `k < n`, starting from zeros.
pub open spec fn fill_inverse(t: Seq<u8>, n: nat) -> Seq<u8>
    decreases n,
{
    if n == 0 {
        Seq::new(256, |i: int| 0u8)
    } else {
        fill_inverse(t, (n - 1) as nat).update(t[n - 1] as int, (n - 1) as u8)
    }
}

/// The reverse substitution table of a password.
pub open spec fn decryption_table(password: Seq<u8>) -> Seq<u8> {
    fill_inverse(encryption_table(password), 256)
}

/// Every byte of `data` replaced by its entry in `table`.
pub open spec fn substitute(table: Seq<u8>, data: Seq<u8>) -> Seq<u8> {
    Seq::new(data.len(), |i: int| table[data[i] as int])
}

/// No value occurs twice in `t`.
pub open spec fn all_distinct(t: Seq<u8>) -> bool {
    forall|a: int, b: int| 0 <= a < t.len() && 0 <= b < t.len() && a != b ==> t[a] != t[b]
}

proof fn lemma_swap_distinct(t: Seq<u8>, i: int, j: int)
    requires
        all_distinct(t),
        0 <= i < t.len(),
        0 <= j < t.len(),
    ensures
        all_distinct(swap_at(t, i, j)),
        swap_at(t, i, j).len() == t.len(),
{
    let s = swap_at(t, i, j);
    assert forall|a: int, b: int| 0 <= a < s.len() && 0 <= b < s.len() && a != b implies s[a] != s[b] by {
        let pa = if a == j { i } else if a == i { j } else { a };
        let pb = if b == j { i } else if b == i { j } else { b };
        assert(s[a] == t[pa]);
        assert(s[b] == t[pb]);
    }
}

proof fn lemma_pass_distinct(t: Seq<u8>, x: u64, m: nat)
    requires
        all_distinct(t),
        t.len() == 256,
        m <= 255,
    ensures
        all_distinct(shuffle_pass(t, x, m).0),
        shuffle_pass(t, x, m).0.len() == 256,
    decreases m,
{
    if m > 0 {
        lemma_pass_distinct(t, x, (m - 1) as nat);
        let (t0, x0) = shuffle_pass(t, x, (m - 1) as nat);
        let x1 = xorshift64_next(x0);
        let j = (x1 as usize) % ((m + 1) as usize);
        lemma_swap_distinct(t0, m as int, j as int);
    }
}

proof fn lemma_rounds_distinct(t: Seq<u8>, x: u64, r: nat)
    requires
        all_distinct(t),
        t.len() == 256,
    ensures
        all_distinct(shuffle_rounds(t, x, r).0),
        shuffle_rounds(t, x, r).0.len() == 256,
    decreases r,
{
    if r > 0 {
        lemma_rounds_distinct(t, x, (r - 1) as nat);
        let (t0, x0) = shuffle_rounds(t, x, (r - 1) as nat);
        lemma_pass_distinct(t0, x0, 255);
    }
}

proof fn lemma_fill_inverse(t: Seq<u8>, n: nat)
    requires
        all_distinct(t),
        t.len() == 256,
        n <= 256,
    ensures
        fill_inverse(t, n).len() == 256,
        forall|k: int| 0 <= k < n ==> #[trigger] fill_inverse(t, n)[t[k] as int] == k,
    decreases n,
{
    if n > 0 {
        lemma_fill_inverse(t, (n - 1) as nat);
        assert forall|k: int| 0 <= k < n implies #[trigger] fill_inverse(t, n)[t[k] as int] == k by {
            if k < n - 1 {
                assert(t[k] != t[n - 1]);
            }
        }
    }
}

/// The encryption table of any password is a permutation: no byte value occurs twice.
pub proof fn lemma_encryption_table_distinct(password: Seq<u8>)
    ensures
        all_distinct(encryption_table(password)),
        encryption_table(password).len() == 256,
{
    lemma_rounds_distinct(identity_table(), table_seed(password), 1024);
}

/// Decrypting with a password's table undoes encrypting with it.
pub proof fn lemma_table_roundtrip(password: Seq<u8>, data: Seq<u8>)
    ensures
        substitute(decryption_table(password), substitute(encryption_table(password), data)) == data,
{
    let t = encryption_table(password);
    lemma_encryption_table_distinct(password);
    lemma_fill_inverse(t, 256);
    let back = substitute(decryption_table(password), substitute(t, data));
    assert forall|i: int| 0 <= i < data.len() implies back[i] == data[i] by {
        let k = data[i] as int;
        assert(fill_inverse(t, 256)[t[k] as int] == k);
    }
    assert(back =~= data);
}

/// The byte value `v` occurs in `t`.
pub open spec fn present(t: Seq<u8>, v: u8) -> bool {
    exists|k: int| 0 <= k < t.len() && t[k] == v
}

/// Every byte value occurs in `t`.
pub open spec fn all_present(t: Seq<u8>) -> bool {
    forall|v: u8| #[trigger] present(t, v)
}

proof fn lemma_swap_present(t: Seq<u8>, i: int, j: int)
    requires
        all_present(t),
        0 <= i < t.len(),
        0 <= j < t.len(),
    ensures
        all_present(swap_at(t, i, j)),
{
    let s = swap_at(t, i, j);
    assert forall|v: u8| #[trigger] present(s, v) by {
        assert(present(t, v));
        let k = choose|k: int| 0 <= k < t.len() && t[k] == v;
        let q = if k == i { j } else if k == j { i } else { k };
        assert(s[q] == v);
    }
}

proof fn lemma_pass_present(t: Seq<u8>, x: u64, m: nat)
    requires
        all_present(t),
        t.len() == 256,
        m <= 255,
    ensures
        all_present(shuffle_pass(t, x, m).0),
        shuffle_pass(t, x, m).0.len() == 256,
    decreases m,
{
    if m > 0 {
        lemma_pass_present(t, x, (m - 1) as nat);
        let (t0, x0) = shuffle_pass(t, x, (m - 1) as nat);
        let x1 = xorshift64_next(x0);
        let j = (x1 as usize) % ((m + 1) as usize);
        lemma_swap_present(t0, m as int, j as int);
    }
}

proof fn lemma_rounds_present(t: Seq<u8>, x: u64, r: nat)
    requires
        all_present(t),
        t.len() == 256,
    ensures
        all_present(shuffle_rounds(t, x, r).0),
        shuffle_rounds(t, x, r).0.len() == 256,
    decreases r,
{
    if r > 0 {
        lemma_rounds_present(t, x, (r - 1) as nat);
        let (t0, x0) = shuffle_rounds(t, x, (r - 1) as nat);
        lemma_pass_present(t0, x0, 255);
    }
}

/// Every byte value occurs in the encryption table of any password.
pub proof fn lemma_encryption_table_onto(password: Seq<u8>)
    ensures
        all_present(encryption_table(password)),
{
    let id = identity_table();
    assert forall|v: u8| #[trigger] present(id, v) by {
        assert(id[v as int] == v);
    }
    lemma_rounds_present(id, table_seed(password), 1024);
}

/// Encrypting with a password's table undoes decrypting with it, so that the two tables are
/// each other's inverse.
pub proof fn lemma_table_roundtrip_reverse(password: Seq<u8>, data: Seq<u8>)
    ensures
        substitute(encryption_table(password), substitute(decryption_table(password), data)) == data,
{
    let t = encryption_table(password);
    lemma_encryption_table_distinct(password);
    lemma_encryption_table_onto(password);
    lemma_fill_inverse(t, 256);
    let back = substitute(t, substitute(decryption_table(password), data));
    assert forall|i: int| 0 <= i < data.len() implies back[i] == data[i] by {
        let v = data[i];
        assert(present(t, v));
        let k = choose|k: int| 0 <= k < t.len() && t[k] == v;
        assert(fill_inverse(t, 256)[t[k] as int] == k);
    }
    assert(back =~= data);
}

/// The xorshift64 generator that drives the table shuffle.
struct XorShift64 {
    state: u64,
}

impl XorShift64 {
    fn new(seed: u64) -> (r: Self)
        ensures
            r.state == seed,
    {
        XorShift64 { state: seed }
    }

    fn next(&mut self) -> (r: u64)
        ensures
            r == xorshift64_next(old(self).state),
            final(self).state == r,
    {
        let mut x = self.state;
        x = x ^ (x << 13u64);
        x = x ^ (x >> 7u64);
        x = x ^ (x << 17u64);
        self.state = x;
        x
    }
}

/// The `table` cipher: a byte substitution derived from the password.
pub struct TableCipher {
    enc_table: Vec<u8>,
    dec_table: Vec<u8>,
}

impl View for TableCipher {
    type V = (Seq<u8>, Seq<u8>);

    /// The encryption and the decryption table.
    closed spec fn view(&self) -> (Seq<u8>, Seq<u8>) {
        (self.enc_table@, self.dec_table@)
    }
}

impl TableCipher {
    #[verifier::type_invariant]
    spec fn wf(self) -> bool {
        self.enc_table@.len() == 256 && self.dec_table@.len() == 256
    }

    /// Builds both tables from the password.
    pub fn new(password: &[u8]) -> (r: Self)
        ensures
            r@.0 == encryption_table(password@),
            r@.1 == decryption_table(password@),
    {
        let mut enc: Vec<u8> = Vec::new();
        let mut k: usize = 0;
        while k < 256
            invariant
                k <= 256,
                enc@ == Seq::new(k as nat, |i: int| i as u8),
            decreases 256 - k,
        {
            enc.push(k as u8);
            k = k + 1;
            assert(enc@ =~= Seq::new(k as nat, |i: int| i as u8));
        }
        assert(enc@ =~= identity_table());
        let digest = md5_digest(password);
        let seed = u64_from_le_at(digest.as_slice(), 0);
        assert(le_u64(digest@.subrange(0, 8)) == le_u64(digest@));
        let mut rng = XorShift64::new(seed);
        let mut round: usize = 0;
        while round < 1024
            invariant
                round <= 1024,
                (enc@, rng.state) == shuffle_rounds(identity_table(), seed, round as nat),
                enc@.len() == 256,
            decreases 1024 - round,
        {
            let ghost t_start = enc@;
            let ghost x_start = rng.state;
            let mut i: usize = 1;
            while i < 256
                invariant
                    1 <= i <= 256,
                    (enc@, rng.state) == shuffle_pass(t_start, x_start, (i - 1) as nat),
                    enc@.len() == 256,
                decreases 256 - i,
            {
                let x = rng.next();
                let j = (x as usize) % (i + 1);
                let a = enc[i];
                let b = enc[j];
                enc.set(i, b);
                enc.set(j, a);
                assert(enc@ =~= swap_at(shuffle_pass(t_start, x_start, (i - 1) as nat).0, i as int, j as int));
                i = i + 1;
            }
            round = round + 1;
        }
        let mut dec: Vec<u8> = vec![0u8; 256];
        assert(dec@ =~= fill_inverse(enc@, 0));
        let mut n: usize = 0;
        while n < 256
            invariant
                n <= 256,
                enc@.len() == 256,
                dec@ == fill_inverse(enc@, n as nat),
                dec@.len() == 256,
            decreases 256 - n,
        {
            let v = enc[n];
            dec.set(v as usize, n as u8);
            n = n + 1;
        }
        TableCipher { enc_table: enc, dec_table: dec }
    }

    /// Replaces every byte of `data` by its entry in the encryption table.
    pub fn encrypt(&self, data: &mut [u8])
        ensures
            final(data)@ == substitute(self@.0, old(data)@),
    {
        proof {
            use_type_invariant(self);
        }
        let mut i: usize = 0;
        while i < data.len()
            invariant
                i <= data@.len(),
                data@.len() == old(data)@.len(),
                self.enc_table@.len() == 256,
                forall|k: int| 0 <= k < i ==> data@[k] == self.enc_table@[old(data)@[k] as int],
                forall|k: int| i <= k < data@.len() ==> data@[k] == old(data)@[k],
            decreases data@.len() - i,
        {
            let b = data[i];
            data[i] = self.enc_table[b as usize];
            i = i + 1;
        }
        assert(data@ =~= substitute(self@.0, old(data)@));
    }

    /// Replaces every byte of `data` by its entry in the decryption table.
    pub fn decrypt(&self, data: &mut [u8])
        ensures
            final(data)@ == substitute(self@.1, old(data)@),
    {
        proof {
            use_type_invariant(self);
        }
        let mut i: usize = 0;
        while i < data.len()
            invariant
                i <= data@.len(),
                data@.len() == old(data)@.len(),
                self.dec_table@.len() == 256,
                forall|k: int| 0 <= k < i ==> data@[k] == self.dec_table@[old(data)@[k] as int],
                forall|k: int| i <= k < data@.len() ==> data@[k] == old(data)@[k],
            decreases data@.len() - i,
        {
            let b = data[i];
            data[i] = self.dec_table[b as usize];
            i = i + 1;
        }
        assert(data@ =~= substitute(self@.1, old(data)@));
    }
}


proof fn lemma_pass_len(t: Seq<u8>, x: u64, m: nat)
    requires
        t.len() == 256,
        m <= 255,
    ensures
        shuffle_pass(t, x, m).0.len() == 256,
    decreases m,
{
    if m > 0 {
        lemma_pass_len(t, x, (m - 1) as nat);
    }
}

/// Law of the table shuffle: step `p` of a pass (from 1 to 255) advances the xorshift64
/// generator once and exchanges the entry at `p` with the one at the drawn number modulo
/// `p + 1` (which may be `p` itself), leaving every other entry in place.
pub proof fn lemma_shuffle_step(t: Seq<u8>, x: u64, p: nat)
    requires
        t.len() == 256,
        1 <= p <= 255,
    ensures
        ({
            let (before, x0) = shuffle_pass(t, x, (p - 1) as nat);
            let (after, x1) = shuffle_pass(t, x, p);
            let j = ((x1 as usize) % ((p + 1) as usize)) as int;
            &&& x1 == xorshift64_next(x0)
            &&& after.len() == 256
            &&& 0 <= j <= p
            &&& after[p as int] == before[j]
            &&& after[j] == before[p as int]
            &&& forall|k: int| 0 <= k < 256 && k != p && k != j ==> #[trigger] after[k] == before[k]
        }),
{
    lemma_pass_len(t, x, (p - 1) as nat);
    lemma_pass_len(t, x, p);
}


/// Law of the table seed: the generator starts from the first eight bytes of the password's
/// MD5 digest read as a little-endian number.
pub proof fn lemma_table_seed_value(password: Seq<u8>)
    ensures
        ({
            let d = spec_md5(password);
            table_seed(password) as int == d[0] as int + 256 * (d[1] as int) + 65536 * (d[2] as int)
                + 16777216 * (d[3] as int) + 4294967296 * (d[4] as int) + 1099511627776 * (d[5] as int)
                + 281474976710656 * (d[6] as int) + 72057594037927936 * (d[7] as int)
        }),
{
    let d = spec_md5(password);
    let (b0, b1, b2, b3, b4, b5, b6, b7) = (d[0], d[1], d[2], d[3], d[4], d[5], d[6], d[7]);
    assert(((b7 as u64) << 56u64) | ((b6 as u64) << 48u64) | ((b5 as u64) << 40u64) | ((b4 as u64) << 32u64)
        | ((b3 as u64) << 24u64) | ((b2 as u64) << 16u64) | ((b1 as u64) << 8u64) | (b0 as u64)
        == b0 as int + 256 * (b1 as int) + 65536 * (b2 as int) + 16777216 * (b3 as int) + 4294967296 * (b4 as int)
        + 1099511627776 * (b5 as int) + 281474976710656 * (b6 as int) + 72057594037927936 * (b7 as int)) by (bit_vector);
}

/// Law of the generator: one step of xorshift64 xors in the state shifted left by 13, then
/// the result shifted right by 7, then that result shifted left by 17, all in 64 bits.
pub proof fn lemma_xorshift64_step(x: u64)
    ensures
        ({
            let a = x ^ ((x as int * 8192) % 18446744073709551616) as u64;
            let b = a ^ (a as int / 128) as u64;
            xorshift64_next(x) == b ^ ((b as int * 131072) % 18446744073709551616) as u64
        }),
{
    let a = x ^ (x << 13u64);
    assert((x << 13u64) == ((x as int * 8192) % 18446744073709551616) as u64) by (bit_vector);
    assert((a >> 7u64) == (a as int / 128) as u64) by (bit_vector);
    let b = a ^ (a >> 7u64);
    assert((b << 17u64) == ((b as int * 131072) % 18446744073709551616) as u64) by (bit_vector);
}

} // verus!
