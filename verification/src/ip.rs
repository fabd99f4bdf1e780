use vstd::prelude::*;
use crate::text::{decimal, push_decimal, is_ascii_bytes, lemma_decimal_ascii};

verus! {

/// The value of an ASCII digit in base `radix` (10 or 16, either case), if it is one.
pub open spec fn digit_value(c: u8, radix: u32) -> Option<u32> {
    if 48 <= c <= 57 {
        Some((c - 48) as u32)
    } else if radix == 16 && 97 <= c <= 102 {
        Some((c - 87) as u32)
    } else if radix == 16 && 65 <= c <= 70 {
        Some((c - 55) as u32)
    } else {
        None
    }
}

/// The end of the run of digits of base `radix` that starts at `i`.
pub open spec fn digits_end(s: Seq<u8>, i: int, radix: u32) -> int
    decreases s.len() - i,
{
    if 0 <= i < s.len() && digit_value(s[i], radix) is Some {
        digits_end(s, i + 1, radix)
    } else {
        i
    }
}

/// The value of the digits `s[i..j]` in base `radix`.
pub open spec fn digits_value(s: Seq<u8>, i: int, j: int, radix: u32) -> nat
    decreases j - i,
{
    if j <= i {
        0
    } else {
        digits_value(s, i, j - 1, radix) * radix as nat + digit_value(s[j - 1], radix).unwrap() as nat
    }
}

/// Reading a number at `i`: the whole run of digits, at least one and at most `max_digits`,
/// without a leading zero unless `zero_prefix` (a lone zero is fine), whose value is at most
/// `max_value`. Gives the value and the position after it.
pub open spec fn read_number(s: Seq<u8>, i: int, radix: u32, max_digits: int, zero_prefix: bool, max_value: nat) -> Option<(nat, int)> {
    let j = digits_end(s, i, radix);
    let n = j - i;
    if n == 0 || n > max_digits || (!zero_prefix && s[i] == 48 && n > 1) || digits_value(s, i, j, radix) > max_value {
        None
    } else {
        Some((digits_value(s, i, j, radix), j))
    }
}

/// Reading an IPv4 address at `i`: four decimal fields of at most three digits and value at
/// most 255, no leading zeros, separated by dots. Gives the octets and the position after.
pub open spec fn read_ipv4(s: Seq<u8>, i: int) -> Option<(Seq<u8>, int)> {
    match read_number(s, i, 10, 3, false, 255) {
        None => None,
        Some((a, i1)) => if !(i1 < s.len() && s[i1] == 46) {
            None
        } else {
            match read_number(s, i1 + 1, 10, 3, false, 255) {
                None => None,
                Some((b, i2)) => if !(i2 < s.len() && s[i2] == 46) {
                    None
                } else {
                    match read_number(s, i2 + 1, 10, 3, false, 255) {
                        None => None,
                        Some((c, i3)) => if !(i3 < s.len() && s[i3] == 46) {
                            None
                        } else {
                            match read_number(s, i3 + 1, 10, 3, false, 255) {
                                None => None,
                                Some((d, i4)) => Some((seq![a as u8, b as u8, c as u8, d as u8], i4)),
                            }
                        },
                    }
                },
            }
        },
    }
}

/// The octets of IPv4 text, if all of it is an IPv4 address.
pub open spec fn parse_ipv4(s: Seq<u8>) -> Option<Seq<u8>> {
    match read_ipv4(s, 0) {
        Some((o, j)) => if j == s.len() { Some(o) } else { None },
        None => None,
    }
}

/// Where field number `idx` of an IPv6 group list starts when the list is at `pos`: after a
/// colon for every field but the first; nothing when that colon is missing.
pub open spec fn field_start(s: Seq<u8>, pos: int, idx: int) -> Option<int> {
    if idx == 0 {
        Some(pos)
    } else if 0 <= pos < s.len() && s[pos] == 58 {
        Some(pos + 1)
    } else {
        None
    }
}

/// Reading up to `limit - idx` more colon-separated hex groups (at most four digits each) at
/// `pos`, where `idx` groups were read already. A field may instead be an embedded IPv4
/// address (two groups) while at least two groups are left, which ends the list. Gives the
/// groups, the position after them, and whether an IPv4 address ended the list.
pub open spec fn read_groups(s: Seq<u8>, pos: int, idx: int, limit: int) -> (Seq<u16>, int, bool)
    decreases limit - idx,
{
    if idx >= limit {
        (Seq::empty(), pos, false)
    } else {
        let v4 = if idx < limit - 1 {
            match field_start(s, pos, idx) {
                Some(p) => read_ipv4(s, p),
                None => None,
            }
        } else {
            None
        };
        match v4 {
            Some((o, j)) => (seq![((o[0] as u16) * 256 + o[1] as u16) as u16, ((o[2] as u16) * 256 + o[3] as u16) as u16], j, true),
            None => match field_start(s, pos, idx) {
                None => (Seq::empty(), pos, false),
                Some(p) => match read_number(s, p, 16, 4, true, 65535) {
                    None => (Seq::empty(), pos, false),
                    Some((g, j)) => {
                        let (rest, end, ended_v4) = read_groups(s, j, idx + 1, limit);
                        (seq![g as u16] + rest, end, ended_v4)
                    },
                },
            },
        }
    }
}

/// The eight groups of IPv6 text, if all of it is an IPv6 address: up to eight groups, or
/// groups before and after one `::` that stands for at least one zero group.
pub open spec fn parse_ipv6(s: Seq<u8>) -> Option<Seq<u16>> {
    let (head, p, head_v4) = read_groups(s, 0, 0, 8);
    if head.len() == 8 {
        if p == s.len() { Some(head) } else { None }
    } else if head_v4 {
        None
    } else if !(p + 1 < s.len() && s[p] == 58 && s[p + 1] == 58) {
        None
    } else {
        let (tail, q, _) = read_groups(s, p + 2, 0, 7 - head.len());
        if q == s.len() {
            Some(head + Seq::new((8 - head.len() - tail.len()) as nat, |i: int| 0u16) + tail)
        } else {
            None
        }
    }
}

/// Dotted-decimal text of four octets.
pub open spec fn ipv4_text(o: Seq<u8>) -> Seq<u8> {
    decimal(o[0] as nat) + seq![46u8] + decimal(o[1] as nat) + seq![46u8] + decimal(o[2] as nat) + seq![46u8]
        + decimal(o[3] as nat)
}

/// Lower-case hexadecimal digits of `n`, without leading zeros.
pub open spec fn hex_lower(n: nat) -> Seq<u8>
    decreases n,
{
    if n < 16 {
        seq![(if n < 10 { 48 + n } else { 87 + n }) as u8]
    } else {
        hex_lower(n / 16).push((if n % 16 < 10 { 48 + n % 16 } else { 87 + n % 16 }) as u8)
    }
}

/// Groups in hexadecimal, separated by colons.
pub open spec fn groups_text(g: Seq<u16>) -> Seq<u8>
    decreases g.len(),
{
    if g.len() == 0 {
        Seq::empty()
    } else if g.len() == 1 {
        hex_lower(g[0] as nat)
    } else {
        groups_text(g.drop_last()) + seq![58u8] + hex_lower(g.last() as nat)
    }
}

/// `g[s..s + l]` are all zero.
pub open spec fn is_zero_run(g: Seq<u16>, s: int, l: int) -> bool {
    &&& 0 <= s
    &&& 0 <= l
    &&& s + l <= g.len()
    &&& forall|k: int| s <= k < s + l ==> g[k] == 0
}

/// `g[s..s + l]` is the first of the longest runs of zero groups.
pub open spec fn first_longest_zero_run(g: Seq<u16>, s: int, l: int) -> bool {
    &&& is_zero_run(g, s, l)
    &&& forall|s2: int, l2: int| #[trigger] is_zero_run(g, s2, l2) ==> l2 <= l
    &&& forall|s2: int| 0 <= s2 < s ==> !is_zero_run(g, s2, l)
}

/// Whether eight groups hold an IPv4-mapped address (`::ffff:a.b.c.d`).
pub open spec fn is_ipv4_mapped(g: Seq<u16>) -> bool {
    g[0] == 0 && g[1] == 0 && g[2] == 0 && g[3] == 0 && g[4] == 0 && g[5] == 0xffff
}

/// Text of eight IPv6 groups: IPv4-mapped addresses as `::ffff:` and dotted decimal;
/// otherwise hexadecimal groups where the first longest run of at least two zero groups
/// is written `::`.
pub open spec fn ipv6_text(g: Seq<u16>) -> Seq<u8> {
    if is_ipv4_mapped(g) {
        seq![58u8, 58u8, 102u8, 102u8, 102u8, 102u8, 58u8]
            + ipv4_text(seq![(g[6] / 256) as u8, (g[6] % 256) as u8, (g[7] / 256) as u8, (g[7] % 256) as u8])
    } else {
        let (s, l) = choose|s: int, l: int| first_longest_zero_run(g, s, l);
        if l > 1 {
            groups_text(g.take(s)) + seq![58u8, 58u8] + groups_text(g.skip(s + l))
        } else {
            groups_text(g)
        }
    }
}

/// The value of `c` as a digit in base `radix`, if it is one.
fn digit_of(c: u8, radix: u32) -> (r: Option<u32>)
    ensures
        r == digit_value(c, radix),
{
    if 48 <= c && c <= 57 {
        Some((c - 48) as u32)
    } else if radix == 16 && 97 <= c && c <= 102 {
        Some((c - 87) as u32)
    } else if radix == 16 && 65 <= c && c <= 70 {
        Some((c - 55) as u32)
    } else {
        None
    }
}

/// Largest value of `n` hexadecimal digits, for `n` up to four.
spec fn hex_cap(n: int) -> int {
    if n <= 0 {
        0
    } else if n == 1 {
        15
    } else if n == 2 {
        255
    } else if n == 3 {
        4095
    } else {
        65535
    }
}

/// Reads a number at `i` as `read_number` describes it (radix 10 or 16, at most four digits).
fn read_number_at(s: &[u8], i: usize, radix: u32, max_digits: usize, zero_prefix: bool, max_value: u32)
    -> (r: Option<(u32, usize)>)
    requires
        i <= s@.len(),
        radix == 10 || radix == 16,
        max_digits <= 4,
    ensures
        r is Some <==> read_number(s@, i as int, radix, max_digits as int, zero_prefix, max_value as nat) is Some,
        r matches Some((v, j)) ==> read_number(s@, i as int, radix, max_digits as int, zero_prefix, max_value as nat)
            == Some((v as nat, j as int)) && i <= j <= s@.len(),
{
    let mut j: usize = i;
    while j < s.len() && digit_of(s[j], radix).is_some()
        invariant
            i <= j <= s@.len(),
            digits_end(s@, i as int, radix) == digits_end(s@, j as int, radix),
            forall|k: int| i <= k < j ==> digit_value(s@[k], radix) is Some,
        decreases s@.len() - j,
    {
        j = j + 1;
    }
    let n = j - i;
    if n == 0 || n > max_digits {
        return None;
    }
    let mut v: u32 = 0;
    let mut k: usize = i;
    while k < j
        invariant
            i <= k <= j,
            j - i <= 4,
            j <= s@.len(),
            radix == 10 || radix == 16,
            forall|m: int| i <= m < j ==> digit_value(s@[m], radix) is Some,
            v == digits_value(s@, i as int, k as int, radix),
            v <= hex_cap(k - i),
        decreases j - k,
    {
        let d = digit_of(s[k], radix).unwrap();
        assert(d <= 15);
        assert(v * radix + d <= hex_cap(k - i) * 16 + 15) by (nonlinear_arith)
            requires
                v <= hex_cap(k - i),
                radix <= 16,
                d <= 15,
        ;
        v = v * radix + d;
        k = k + 1;
    }
    if !zero_prefix && s[i] == 48 && n > 1 {
        return None;
    }
    if v > max_value {
        return None;
    }
    Some((v, j))
}

/// Reads an IPv4 address at `i` as `read_ipv4` describes it.
fn read_ipv4_at(s: &[u8], i: usize) -> (r: Option<(Vec<u8>, usize)>)
    requires
        i <= s@.len(),
    ensures
        r is Some <==> read_ipv4(s@, i as int) is Some,
        r matches Some((v, e)) ==> read_ipv4(s@, i as int) == Some((v@, e as int)) && i <= e <= s@.len() && v@.len() == 4,
{
    let (a, i1) = match read_number_at(s, i, 10, 3, false, 255) {
        Some(x) => x,
        None => {
            return None;
        },
    };
    if !(i1 < s.len() && s[i1] == 46) {
        return None;
    }
    let (b, i2) = match read_number_at(s, i1 + 1, 10, 3, false, 255) {
        Some(x) => x,
        None => {
            return None;
        },
    };
    if !(i2 < s.len() && s[i2] == 46) {
        return None;
    }
    let (c, i3) = match read_number_at(s, i2 + 1, 10, 3, false, 255) {
        Some(x) => x,
        None => {
            return None;
        },
    };
    if !(i3 < s.len() && s[i3] == 46) {
        return None;
    }
    let (d, i4) = match read_number_at(s, i3 + 1, 10, 3, false, 255) {
        Some(x) => x,
        None => {
            return None;
        },
    };
    let v = vec![a as u8, b as u8, c as u8, d as u8];
    assert(v@ =~= seq![a as u8, b as u8, c as u8, d as u8]);
    Some((v, i4))
}

/// The octets of IPv4 text, if all of it is an IPv4 address.
pub fn parse_ipv4_text(s: &[u8]) -> (r: Option<Vec<u8>>)
    ensures
        match parse_ipv4(s@) {
            Some(o) => r matches Some(v) && v@ == o,
            None => r is None,
        },
{
    match read_ipv4_at(s, 0) {
        Some((o, j)) => if j == s.len() { Some(o) } else { None },
        None => None,
    }
}

/// Where field `idx` of a group list at `pos` starts.
fn field_start_at(s: &[u8], pos: usize, idx: usize) -> (r: Option<usize>)
    requires
        pos <= s@.len(),
    ensures
        r is Some <==> field_start(s@, pos as int, idx as int) is Some,
        r matches Some(p) ==> field_start(s@, pos as int, idx as int) == Some(p as int) && p <= s@.len(),
{
    if idx == 0 {
        Some(pos)
    } else if pos < s.len() && s[pos] == 58 {
        Some(pos + 1)
    } else {
        None
    }
}

proof fn lemma_read_groups_pos(s: Seq<u8>, pos: int, idx: int, limit: int)
    requires
        0 <= pos <= s.len(),
    ensures
        pos <= read_groups(s, pos, idx, limit).1 <= s.len(),
        read_groups(s, pos, idx, limit).0.len() <= if limit - idx > 0 { limit - idx } else { 0 },
    decreases limit - idx,
{
    if idx < limit {
        let v4 = if idx < limit - 1 {
            match field_start(s, pos, idx) {
                Some(p) => read_ipv4(s, p),
                None => None,
            }
        } else {
            None
        };
        if v4 is None {
            match field_start(s, pos, idx) {
                None => {},
                Some(p) => match read_number(s, p, 16, 4, true, 65535) {
                    None => {},
                    Some((g, j)) => {
                        lemma_digits_end_bound(s, p, 16);
                        lemma_read_groups_pos(s, j, idx + 1, limit);
                    },
                },
            }
        } else {
            let p = field_start(s, pos, idx).unwrap();
            lemma_read_ipv4_bound(s, p);
        }
    }
}

proof fn lemma_digits_end_bound(s: Seq<u8>, i: int, radix: u32)
    requires
        0 <= i <= s.len(),
    ensures
        i <= digits_end(s, i, radix) <= s.len(),
    decreases s.len() - i,
{
    if i < s.len() && digit_value(s[i], radix) is Some {
        lemma_digits_end_bound(s, i + 1, radix);
    }
}

proof fn lemma_read_ipv4_bound(s: Seq<u8>, i: int)
    requires
        0 <= i <= s.len(),
    ensures
        read_ipv4(s, i) matches Some((o, j)) ==> i <= j <= s.len() && o.len() == 4,
{
    lemma_digits_end_bound(s, i, 10);
    if let Some((a, i1)) = read_number(s, i, 10, 3, false, 255) {
        if i1 < s.len() {
            lemma_digits_end_bound(s, i1 + 1, 10);
            if let Some((b, i2)) = read_number(s, i1 + 1, 10, 3, false, 255) {
                if i2 < s.len() {
                    lemma_digits_end_bound(s, i2 + 1, 10);
                    if let Some((c, i3)) = read_number(s, i2 + 1, 10, 3, false, 255) {
                        if i3 < s.len() {
                            lemma_digits_end_bound(s, i3 + 1, 10);
                        }
                    }
                }
            }
        }
    }
}

/// Reads the group list at `pos` as `read_groups` describes it, from field 0 to `limit`.
fn read_groups_at(s: &[u8], pos: usize, limit: usize) -> (r: (Vec<u16>, usize, bool))
    requires
        pos <= s@.len(),
        limit <= 8,
    ensures
        (r.0@, r.1 as int, r.2) == read_groups(s@, pos as int, 0, limit as int),
{
    let mut groups: Vec<u16> = Vec::new();
    let mut p: usize = pos;
    let mut idx: usize = 0;
    let ghost whole = read_groups(s@, pos as int, 0, limit as int);
    assert(groups@ + read_groups(s@, p as int, 0, limit as int).0 =~= whole.0);
    while idx < limit
        invariant
            idx <= limit <= 8,
            p <= s@.len(),
            groups@.len() == idx,
            whole == read_groups(s@, pos as int, 0, limit as int),
            whole.0 == groups@ + read_groups(s@, p as int, idx as int, limit as int).0,
            whole.1 == read_groups(s@, p as int, idx as int, limit as int).1,
            whole.2 == read_groups(s@, p as int, idx as int, limit as int).2,
        decreases limit - idx,
    {
        if idx + 1 < limit {
            if let Some(f) = field_start_at(s, p, idx) {
                if let Some((o, j)) = read_ipv4_at(s, f) {
                    proof {
                        lemma_read_ipv4_bound(s@, f as int);
                    }
                    let g0 = ((o[0] as u16) * 256 + o[1] as u16) as u16;
                    let g1 = ((o[2] as u16) * 256 + o[3] as u16) as u16;
                    groups.push(g0);
                    groups.push(g1);
                    assert(groups@ =~= whole.0);
                    return (groups, j, true);
                }
            }
        }
        let f = match field_start_at(s, p, idx) {
            Some(f) => f,
            None => {
                assert(groups@ + Seq::<u16>::empty() =~= groups@);
                return (groups, p, false);
            },
        };
        match read_number_at(s, f, 16, 4, true, 65535) {
            None => {
                assert(groups@ + Seq::<u16>::empty() =~= groups@);
                return (groups, p, false);
            },
            Some((g, j)) => {
                proof {
                    lemma_digits_end_bound(s@, f as int, 16);
                }
                let ghost rest = read_groups(s@, j as int, idx + 1, limit as int);
                groups.push(g as u16);
                assert(whole.0 =~= groups@ + rest.0);
                p = j;
                idx = idx + 1;
            },
        }
    }
    assert(groups@ + Seq::<u16>::empty() =~= groups@);
    (groups, p, false)
}

/// The eight groups of IPv6 text, if all of it is an IPv6 address.
pub fn parse_ipv6_text(s: &[u8]) -> (r: Option<Vec<u16>>)
    ensures
        match parse_ipv6(s@) {
            Some(g) => r matches Some(v) && v@ == g,
            None => r is None,
        },
{
    let (head, p, head_v4) = read_groups_at(s, 0, 8);
    proof {
        lemma_read_groups_pos(s@, 0, 0, 8);
    }
    if head.len() == 8 {
        return if p == s.len() { Some(head) } else { None };
    }
    if head_v4 {
        return None;
    }
    if !(p < s.len() && s.len() - p > 1 && s[p] == 58 && s[p + 1] == 58) {
        return None;
    }
    let (tail, q, _) = read_groups_at(s, p + 2, 7 - head.len());
    proof {
        lemma_read_groups_pos(s@, p + 2, 0, 7 - head@.len());
    }
    if q != s.len() {
        return None;
    }
    let zeros = 8 - head.len() - tail.len();
    let mut out = head;
    let mut k: usize = 0;
    while k < zeros
        invariant
            k <= zeros,
            out@ == head@ + Seq::new(k as nat, |i: int| 0u16),
        decreases zeros - k,
    {
        out.push(0u16);
        k = k + 1;
        assert(out@ =~= head@ + Seq::new(k as nat, |i: int| 0u16));
    }
    out.extend_from_slice(tail.as_slice());
    Some(out)
}

/// Dotted-decimal text of four octets.
pub fn format_ipv4(o: &[u8]) -> (r: Vec<u8>)
    requires
        o@.len() == 4,
    ensures
        r@ == ipv4_text(o@),
{
    let mut out: Vec<u8> = Vec::new();
    push_decimal(&mut out, o[0] as usize);
    out.push(46u8);
    push_decimal(&mut out, o[1] as usize);
    out.push(46u8);
    push_decimal(&mut out, o[2] as usize);
    out.push(46u8);
    push_decimal(&mut out, o[3] as usize);
    assert(out@ =~= ipv4_text(o@));
    out
}

/// Appends the lower-case hexadecimal digits of `n`.
fn push_hex(out: &mut Vec<u8>, n: u16)
    ensures
        final(out)@ == old(out)@ + hex_lower(n as nat),
    decreases n,
{
    if n >= 16 {
        push_hex(out, n / 16);
    }
    let d = n % 16;
    let c: u8 = if d < 10 { 48u8 + d as u8 } else { 87u8 + d as u8 };
    out.push(c);
    assert(final(out)@ =~= old(out)@ + hex_lower(n as nat));
}

/// Groups in hexadecimal, separated by colons.
fn format_groups(g: &[u16]) -> (r: Vec<u8>)
    ensures
        r@ == groups_text(g@),
{
    let mut out: Vec<u8> = Vec::new();
    let mut k: usize = 0;
    assert(g@.take(0) =~= Seq::<u16>::empty());
    while k < g.len()
        invariant
            k <= g@.len(),
            out@ == groups_text(g@.take(k as int)),
        decreases g@.len() - k,
    {
        if k > 0 {
            out.push(58u8);
        }
        push_hex(&mut out, g[k]);
        let ghost t = g@.take(k + 1);
        assert(t.drop_last() =~= g@.take(k as int));
        assert(t.last() == g@[k as int]);
        k = k + 1;
    }
    assert(g@.take(g@.len() as int) =~= g@);
    out
}

proof fn lemma_first_longest_unique(g: Seq<u16>, s1: int, l1: int, s2: int, l2: int)
    requires
        first_longest_zero_run(g, s1, l1),
        first_longest_zero_run(g, s2, l2),
    ensures
        s1 == s2 && l1 == l2,
{
    assert(l2 <= l1);
    assert(l1 <= l2);
    if s1 < s2 {
        assert(!is_zero_run(g, s1, l2));
    } else if s2 < s1 {
        assert(!is_zero_run(g, s2, l1));
    }
}

/// Finds the first of the longest runs of zero groups.
fn first_longest_zero_run_of(g: &[u16]) -> (r: (usize, usize))
    ensures
        first_longest_zero_run(g@, r.0 as int, r.1 as int),
{
    let mut best_s: usize = 0;
    let mut best_l: usize = 0;
    let mut cur_s: usize = 0;
    let mut cur_l: usize = 0;
    let mut i: usize = 0;
    while i < g.len()
        invariant
            i <= g@.len(),
            cur_s + cur_l == i,
            is_zero_run(g@, cur_s as int, cur_l as int),
            cur_s > 0 ==> g@[cur_s - 1] != 0,
            is_zero_run(g@, best_s as int, best_l as int),
            best_s + best_l <= i,
            forall|s2: int, l2: int| is_zero_run(g@, s2, l2) && s2 + l2 <= i ==> l2 <= best_l,
            forall|s2: int| 0 <= s2 < best_s ==> !is_zero_run(g@, s2, best_l as int),
        decreases g@.len() - i,
    {
        if g[i] == 0 {
            cur_l = cur_l + 1;
            assert forall|s2: int, l2: int| is_zero_run(g@, s2, l2) && s2 + l2 <= i + 1 implies l2 <= best_l || l2 <= cur_l by {
                if s2 + l2 == i + 1 && l2 > cur_l {
                    assert(g@[cur_s - 1] == 0);
                }
            }
            if cur_l > best_l {
                assert forall|s2: int| 0 <= s2 < cur_s implies !is_zero_run(g@, s2, cur_l as int) by {
                    if is_zero_run(g@, s2, cur_l as int) {
                        if s2 + cur_l <= i {
                            assert(cur_l <= best_l);
                        } else {
                            assert(g@[cur_s - 1] == 0);
                        }
                    }
                }
                best_s = cur_s;
                best_l = cur_l;
            }
        } else {
            assert forall|s2: int, l2: int| is_zero_run(g@, s2, l2) && s2 + l2 <= i + 1 implies l2 <= best_l by {
                if s2 + l2 == i + 1 && l2 > 0 {
                    assert(g@[i as int] == 0);
                }
            }
            cur_s = i + 1;
            cur_l = 0;
        }
        i = i + 1;
    }
    (best_s, best_l)
}

/// Text of eight IPv6 groups, as `ipv6_text` describes it.
pub fn format_ipv6(g: &[u16]) -> (r: Vec<u8>)
    requires
        g@.len() == 8,
    ensures
        r@ == ipv6_text(g@),
{
    if g[0] == 0 && g[1] == 0 && g[2] == 0 && g[3] == 0 && g[4] == 0 && g[5] == 0xffff {
        let mut out: Vec<u8> = vec![58u8, 58u8, 102u8, 102u8, 102u8, 102u8, 58u8];
        let o = [(g[6] / 256) as u8, (g[6] % 256) as u8, (g[7] / 256) as u8, (g[7] % 256) as u8];
        let v4 = format_ipv4(&o);
        out.extend_from_slice(v4.as_slice());
        return out;
    }
    let (s, l) = first_longest_zero_run_of(g);
    proof {
        let (s2, l2) = choose|s2: int, l2: int| first_longest_zero_run(g@, s2, l2);
        lemma_first_longest_unique(g@, s as int, l as int, s2, l2);
    }
    if l > 1 {
        let mut out = format_groups(&g[0..s]);
        out.push(58u8);
        out.push(58u8);
        let back = format_groups(&g[s + l..8]);
        out.extend_from_slice(back.as_slice());
        assert(g@.subrange(0, s as int) =~= g@.take(s as int));
        assert(g@.subrange(s + l, 8) =~= g@.skip(s + l));
        assert(out@ =~= groups_text(g@.take(s as int)) + seq![58u8, 58u8] + groups_text(g@.skip(s + l)));
        out
    } else {
        format_groups(g)
    }
}

/// Dotted-decimal text is ASCII.
pub proof fn lemma_ipv4_text_ascii(o: Seq<u8>)
    ensures
        is_ascii_bytes(ipv4_text(o)),
{
    lemma_decimal_ascii(o[0] as nat);
    lemma_decimal_ascii(o[1] as nat);
    lemma_decimal_ascii(o[2] as nat);
    lemma_decimal_ascii(o[3] as nat);
}

proof fn lemma_hex_ascii(n: nat)
    ensures
        is_ascii_bytes(hex_lower(n)),
    decreases n,
{
    if n >= 16 {
        lemma_hex_ascii(n / 16);
    }
}

proof fn lemma_groups_ascii(g: Seq<u16>)
    ensures
        is_ascii_bytes(groups_text(g)),
    decreases g.len(),
{
    if g.len() == 1 {
        lemma_hex_ascii(g[0] as nat);
    } else if g.len() > 1 {
        lemma_groups_ascii(g.drop_last());
        lemma_hex_ascii(g.last() as nat);
    }
}

/// IPv6 text is ASCII.
pub proof fn lemma_ipv6_text_ascii(g: Seq<u16>)
    ensures
        is_ascii_bytes(ipv6_text(g)),
{
    if is_ipv4_mapped(g) {
        lemma_ipv4_text_ascii(seq![(g[6] / 256) as u8, (g[6] % 256) as u8, (g[7] / 256) as u8, (g[7] % 256) as u8]);
    } else {
        let (s, l) = choose|s: int, l: int| first_longest_zero_run(g, s, l);
        lemma_groups_ascii(g.take(s));
        lemma_groups_ascii(g.skip(s + l));
        lemma_groups_ascii(g);
    }
}

/// IPv6 text parses to eight groups.
pub proof fn lemma_parse_ipv6_len(s: Seq<u8>)
    ensures
        parse_ipv6(s) matches Some(g) ==> g.len() == 8,
{
    lemma_read_groups_pos(s, 0, 0, 8);
    let (head, p, head_v4) = read_groups(s, 0, 0, 8);
    if head.len() != 8 && !head_v4 && p + 1 < s.len() && s[p] == 58 && s[p + 1] == 58 {
        lemma_read_groups_pos(s, p + 2, 0, 7 - head.len());
    }
}

} // verus!
verus! {

/// The decimal digits of `v`, placed at `i` in `s`, read back as `v`.
proof fn lemma_decimal_value(s: Seq<u8>, i: int, v: nat)
    requires
        0 <= i,
        i + decimal(v).len() <= s.len(),
        s.subrange(i, i + decimal(v).len()) == decimal(v),
    ensures
        digits_value(s, i, i + decimal(v).len(), 10) == v,
        forall|k: int| i <= k < i + decimal(v).len() ==> #[trigger] digit_value(s[k], 10) is Some,
        decimal(v).len() >= 1,
        v < 10 <==> decimal(v).len() == 1,
        v >= 10 ==> s[i] != 48,
    decreases v,
{
    let d = decimal(v);
    if v < 10 {
        assert(s[i] == d[0]);
        assert(digits_value(s, i, i, 10) == 0);
        assert(digits_value(s, i, i + 1, 10) == digits_value(s, i, i, 10) * 10 + digit_value(s[i], 10).unwrap());
    } else {
        let d1 = decimal(v / 10);
        assert(d == d1.push((48 + v % 10) as u8));
        assert(s.subrange(i, i + d1.len()) =~= d1) by {
            assert forall|k: int| 0 <= k < d1.len() implies s.subrange(i, i + d1.len())[k] == d1[k] by {
                assert(s.subrange(i, i + d.len())[k] == d[k]);
            }
        }
        lemma_decimal_value(s, i, v / 10);
        assert(s[i + d1.len()] == d[d1.len() as int]) by {
            assert(s.subrange(i, i + d.len())[d1.len() as int] == d[d1.len() as int]);
        }
        assert forall|k: int| i <= k < i + d.len() implies #[trigger] digit_value(s[k], 10) is Some by {
            if k < i + d1.len() {
            } else {
                assert(k == i + d1.len());
            }
        }
        if v / 10 >= 10 {
        } else {
            assert(s[i] == d1[0]);
        }
        let j = i + d.len();
        assert(digits_value(s, i, j, 10) == digits_value(s, i, j - 1, 10) * 10 + digit_value(s[j - 1], 10).unwrap());
        assert(v == (v / 10) * 10 + v % 10) by (nonlinear_arith);
    }
}

proof fn lemma_decimal_len(v: nat)
    ensures
        v < 10 ==> decimal(v).len() == 1,
        v < 100 ==> decimal(v).len() <= 2,
        v < 1000 ==> decimal(v).len() <= 3,
    decreases v,
{
    if v >= 10 {
        lemma_decimal_len(v / 10);
    }
}

/// The run of digits that starts at `k` ends at `e` when `s[k..e]` are digits and `s[e]` is not.
proof fn lemma_digits_end(s: Seq<u8>, k: int, e: int)
    requires
        0 <= k <= e <= s.len(),
        forall|m: int| k <= m < e ==> #[trigger] digit_value(s[m], 10) is Some,
        e < s.len() ==> digit_value(s[e], 10) is None,
    ensures
        digits_end(s, k, 10) == e,
    decreases e - k,
{
    if k < e {
        lemma_digits_end(s, k + 1, e);
    }
}

/// A decimal field of at most 255 at `i`, ended by the end of `s` or a non-digit, reads as
/// its value.
proof fn lemma_read_decimal_field(s: Seq<u8>, i: int, v: nat)
    requires
        v <= 255,
        0 <= i,
        i + decimal(v).len() <= s.len(),
        s.subrange(i, i + decimal(v).len()) == decimal(v),
        i + decimal(v).len() < s.len() ==> s[i + decimal(v).len()] == 46,
    ensures
        read_number(s, i, 10, 3, false, 255) == Some((v, i + decimal(v).len())),
{
    lemma_decimal_value(s, i, v);
    let e = i + decimal(v).len();
    lemma_digits_end(s, i, e);
    lemma_decimal_len(v);
}

/// The dotted-decimal text of four octets, making up the end of `s` from `i`, reads as them.
proof fn lemma_read_ipv4_text(s: Seq<u8>, i: int, o: Seq<u8>)
    requires
        o.len() == 4,
        0 <= i <= s.len(),
        s.skip(i) == ipv4_text(o),
    ensures
        read_ipv4(s, i) == Some((o, s.len() as int)),
{
    let d0 = decimal(o[0] as nat);
    let d1 = decimal(o[1] as nat);
    let d2 = decimal(o[2] as nat);
    let d3 = decimal(o[3] as nat);
    let t = ipv4_text(o);
    let i1 = d0.len() as int;
    let i2 = i1 + 1 + d1.len();
    let i3 = i2 + 1 + d2.len();
    let i4 = i3 + 1 + d3.len();
    assert(t.len() == i4);
    assert(s.len() == i + i4);
    assert forall|k: int| 0 <= k < i4 implies s[i + k] == t[k] by {
        assert(s.skip(i)[k] == s[i + k]);
    }
    assert(t.subrange(0, i1) =~= d0);
    assert(t.subrange(i1 + 1, i2) =~= d1);
    assert(t.subrange(i2 + 1, i3) =~= d2);
    assert(t.subrange(i3 + 1, i4) =~= d3);
    assert(s.subrange(i, i + i1) =~= d0);
    assert(s.subrange(i + i1 + 1, i + i2) =~= d1);
    assert(s.subrange(i + i2 + 1, i + i3) =~= d2);
    assert(s.subrange(i + i3 + 1, i + i4) =~= d3);
    assert(s[i + i1] == t[i1] && s[i + i2] == t[i2] && s[i + i3] == t[i3]);
    lemma_read_decimal_field(s, i, o[0] as nat);
    lemma_read_decimal_field(s, i + i1 + 1, o[1] as nat);
    lemma_read_decimal_field(s, i + i2 + 1, o[2] as nat);
    lemma_read_decimal_field(s, i + i3 + 1, o[3] as nat);
    assert(seq![o[0], o[1], o[2], o[3]] =~= o);
}

/// Law of IPv4 text: reading the dotted-decimal text of four octets gives them back.
pub proof fn lemma_ipv4_text_roundtrip(o: Seq<u8>)
    requires
        o.len() == 4,
    ensures
        parse_ipv4(ipv4_text(o)) == Some(o),
{
    let t = ipv4_text(o);
    assert(t.skip(0) =~= t);
    lemma_read_ipv4_text(t, 0, o);
}

} // verus!
verus! {

/// The end of the run of digits of base `radix` that starts at `k` is `e` when `s[k..e]`
/// are such digits and `s[e]` is not.
proof fn lemma_digits_end_at(s: Seq<u8>, k: int, e: int, radix: u32)
    requires
        0 <= k <= e <= s.len(),
        forall|m: int| k <= m < e ==> #[trigger] digit_value(s[m], radix) is Some,
        e < s.len() ==> digit_value(s[e], radix) is None,
    ensures
        digits_end(s, k, radix) == e,
    decreases e - k,
{
    if k < e {
        lemma_digits_end_at(s, k + 1, e, radix);
    }
}

proof fn lemma_hex_len(v: nat)
    ensures
        hex_lower(v).len() >= 1,
        v < 16 ==> hex_lower(v).len() == 1,
        v < 256 ==> hex_lower(v).len() <= 2,
        v < 4096 ==> hex_lower(v).len() <= 3,
        v < 65536 ==> hex_lower(v).len() <= 4,
    decreases v,
{
    if v >= 16 {
        lemma_hex_len(v / 16);
    }
}

/// The hexadecimal digits of `v`, placed at `i` in `s`, read back as `v`; they are digits of
/// base 16 and neither dots nor colons.
proof fn lemma_hex_value(s: Seq<u8>, i: int, v: nat)
    requires
        0 <= i,
        i + hex_lower(v).len() <= s.len(),
        s.subrange(i, i + hex_lower(v).len()) == hex_lower(v),
    ensures
        digits_value(s, i, i + hex_lower(v).len(), 16) == v,
        forall|k: int| i <= k < i + hex_lower(v).len() ==> #[trigger] digit_value(s[k], 16) is Some
            && s[k] != 46 && s[k] != 58,
    decreases v,
{
    let d = hex_lower(v);
    lemma_hex_len(v);
    if v < 16 {
        assert(s[i] == d[0]);
        assert(digits_value(s, i, i, 16) == 0);
        assert(digits_value(s, i, i + 1, 16) == digits_value(s, i, i, 16) * 16 + digit_value(s[i], 16).unwrap());
    } else {
        let d1 = hex_lower(v / 16);
        lemma_hex_len(v / 16);
        let c = (if v % 16 < 10 { 48 + v % 16 } else { 87 + v % 16 }) as u8;
        assert(d == d1.push(c));
        assert(s.subrange(i, i + d1.len()) =~= d1) by {
            assert forall|k: int| 0 <= k < d1.len() implies s.subrange(i, i + d1.len())[k] == d1[k] by {
                assert(s.subrange(i, i + d.len())[k] == d[k]);
            }
        }
        lemma_hex_value(s, i, v / 16);
        assert(s[i + d1.len()] == c) by {
            assert(s.subrange(i, i + d.len())[d1.len() as int] == d[d1.len() as int]);
        }
        let j = i + d.len();
        assert(digits_value(s, i, j, 16) == digits_value(s, i, j - 1, 16) * 16 + digit_value(s[j - 1], 16).unwrap());
        assert(v == (v / 16) * 16 + v % 16) by (nonlinear_arith);
    }
}

/// Hexadecimal digits of a group, followed by the end of `s` or a byte that is not such a
/// digit, read as the group.
proof fn lemma_read_hex_field(s: Seq<u8>, i: int, v: nat)
    requires
        v < 65536,
        0 <= i,
        i + hex_lower(v).len() <= s.len(),
        s.subrange(i, i + hex_lower(v).len()) == hex_lower(v),
        i + hex_lower(v).len() < s.len() ==> digit_value(s[i + hex_lower(v).len()], 16) is None,
    ensures
        read_number(s, i, 16, 4, true, 65535) == Some((v, i + hex_lower(v).len())),
{
    lemma_hex_value(s, i, v);
    lemma_hex_len(v);
    lemma_digits_end_at(s, i, i + hex_lower(v).len(), 16);
}

} // verus!
verus! {

/// Group text read from the front: the first group, a colon, then the rest.
proof fn lemma_groups_text_cons(h: Seq<u16>)
    requires
        h.len() >= 2,
    ensures
        groups_text(h) == hex_lower(h[0] as nat) + seq![58u8] + groups_text(h.skip(1)),
    decreases h.len(),
{
    let t = h.skip(1);
    if h.len() == 2 {
        assert(h.drop_last().len() == 1);
        assert(groups_text(h.drop_last()) == hex_lower(h.drop_last()[0] as nat));
        assert(h.drop_last()[0] == h[0]);
        assert(t.len() == 1);
        assert(groups_text(t) == hex_lower(t[0] as nat));
        assert(t[0] == h.last());
    } else {
        lemma_groups_text_cons(h.drop_last());
        assert(h.drop_last().skip(1) =~= t.drop_last());
        assert(h.drop_last()[0] == h[0]);
        assert(t.last() == h.last());
        let a = hex_lower(h[0] as nat);
        let b = groups_text(t.drop_last());
        let c = hex_lower(h.last() as nat);
        assert(groups_text(t) == b + seq![58u8] + c);
        assert(a + seq![58u8] + b + seq![58u8] + c =~= a + seq![58u8] + (b + seq![58u8] + c));
    }
}

/// Group text is made of hexadecimal digits and colons, and starts with a digit.
proof fn lemma_groups_text_chars(h: Seq<u16>)
    ensures
        h.len() >= 1 ==> groups_text(h).len() >= 1 && digit_value(groups_text(h)[0], 16) is Some,
        forall|k: int| 0 <= k < groups_text(h).len() ==> #[trigger] groups_text(h)[k] != 46
            && (groups_text(h)[k] == 58 || digit_value(groups_text(h)[k], 16) is Some),
    decreases h.len(),
{
    if h.len() == 1 {
        let d = hex_lower(h[0] as nat);
        lemma_hex_len(h[0] as nat);
        assert(d.subrange(0, d.len() as int) =~= d);
        lemma_hex_value(d, 0, h[0] as nat);
    } else if h.len() > 1 {
        lemma_groups_text_chars(h.drop_last());
        let d = hex_lower(h.last() as nat);
        lemma_hex_len(h.last() as nat);
        assert(d.subrange(0, d.len() as int) =~= d);
        lemma_hex_value(d, 0, h.last() as nat);
        let a = groups_text(h.drop_last());
        assert(groups_text(h) == a + seq![58u8] + d);
        assert forall|k: int| 0 <= k < groups_text(h).len() implies #[trigger] groups_text(h)[k] != 46
            && (groups_text(h)[k] == 58 || digit_value(groups_text(h)[k], 16) is Some) by {
            if k < a.len() {
                assert(groups_text(h)[k] == a[k]);
            } else if k == a.len() {
            } else {
                assert(groups_text(h)[k] == d[k - a.len() - 1]);
            }
        }
        assert(groups_text(h)[0] == a[0]);
    }
}

/// Without a dot there is no IPv4 address to read.
proof fn lemma_no_dot_no_ipv4(s: Seq<u8>, i: int)
    requires
        0 <= i,
        forall|k: int| 0 <= k < s.len() ==> s[k] != 46,
    ensures
        read_ipv4(s, i) is None,
{
    match read_number(s, i, 10, 3, false, 255) {
        Some((a, i1)) => {
            lemma_digits_end_bound(s, i, 10);
            if i1 < s.len() {
                assert(s[i1] != 46);
            }
        },
        None => {},
    }
}

/// Nothing reads as a number where no digit stands.
proof fn lemma_no_number(s: Seq<u8>, i: int, radix: u32, max_digits: int, zero_prefix: bool, max_value: nat)
    requires
        0 <= i,
        i < s.len() ==> digit_value(s[i], radix) is None,
    ensures
        read_number(s, i, radix, max_digits, zero_prefix, max_value) is None,
{
    assert(digits_end(s, i, radix) == i);
}

} // verus!
verus! {

/// The text that field number `idx` onwards of a group list takes for the groups `h`: the
/// group text, after a colon unless it is the first field.
spec fn fields_text(h: Seq<u16>, idx: int) -> Seq<u8> {
    if idx == 0 { groups_text(h) } else { seq![58u8] + groups_text(h) }
}

/// Reading the group text of `h` from field `idx` at `pos` gives `h` back and stops after it,
/// when no dot occurs in `h` and the text is followed by the end of `h` or by `::`.
proof fn lemma_read_hex_groups(h: Seq<u16>, s: Seq<u8>, pos: int, idx: int, limit: int)
    requires
        0 <= idx,
        h.len() >= 1,
        idx + h.len() <= limit,
        0 <= pos,
        forall|k: int| 0 <= k < s.len() ==> s[k] != 46,
        pos + fields_text(h, idx).len() <= s.len(),
        s.subrange(pos, pos + fields_text(h, idx).len()) == fields_text(h, idx),
        ({
            let e = pos + fields_text(h, idx).len();
            e == s.len() || (e + 1 < s.len() && s[e] == 58 && s[e + 1] == 58)
        }),
    ensures
        read_groups(s, pos, idx, limit) == (h, pos + fields_text(h, idx).len(), false),
    decreases h.len(),
{
    let w = fields_text(h, idx);
    let e = pos + w.len();
    let p = if idx == 0 { pos } else { pos + 1 };
    if idx > 0 {
        assert(s[pos] == s.subrange(pos, e)[0]);
    }
    assert(field_start(s, pos, idx) == Some(p));
    lemma_no_dot_no_ipv4(s, p);
    let a = h[0];
    let hx = hex_lower(a as nat);
    lemma_hex_len(a as nat);
    let g = groups_text(h);
    if h.len() == 1 {
        assert(g == hx);
    } else {
        lemma_groups_text_cons(h);
    }
    assert(w == (if idx == 0 { Seq::<u8>::empty() } else { seq![58u8] }) + g);
    assert(s.subrange(p, p + hx.len()) =~= hx) by {
        assert forall|k: int| 0 <= k < hx.len() implies s.subrange(p, p + hx.len())[k] == hx[k] by {
            assert(s[p + k] == s.subrange(pos, e)[p + k - pos]);
            assert(g[k] == hx[k]);
        }
    }
    let j = p + hx.len();
    if j < s.len() {
        if h.len() == 1 {
            assert(j == e);
        } else {
            assert(s[j] == s.subrange(pos, e)[j - pos]);
            assert(g[hx.len() as int] == 58);
        }
        assert(s[j] == 58);
    }
    lemma_read_hex_field(s, p, a as nat);
    if h.len() == 1 {
        assert(j == e);
        if idx + 1 < limit && j < s.len() {
            assert(field_start(s, j, idx + 1) == Some(j + 1));
            lemma_no_dot_no_ipv4(s, j + 1);
            lemma_no_number(s, j + 1, 16, 4, true, 65535);
        }
        assert(read_groups(s, j, idx + 1, limit) == (Seq::<u16>::empty(), j, false));
        assert(seq![a] + Seq::<u16>::empty() =~= h);
    } else {
        let rest = h.skip(1);
        assert(fields_text(rest, idx + 1) == seq![58u8] + groups_text(rest));
        assert(j + fields_text(rest, idx + 1).len() == e);
        assert(s.subrange(j, e) =~= fields_text(rest, idx + 1)) by {
            assert forall|k: int| 0 <= k < e - j implies s.subrange(j, e)[k] == fields_text(rest, idx + 1)[k] by {
                assert(s[j + k] == s.subrange(pos, e)[j + k - pos]);
            }
        }
        lemma_read_hex_groups(rest, s, j, idx + 1, limit);
        assert(seq![a] + rest =~= h);
    }
}

} // verus!
verus! {

/// The first start of a zero run of length `l`, searching from `s0`, when one exists there.
proof fn lemma_first_run_start(g: Seq<u16>, l: int, s0: int) -> (s: int)
    requires
        0 <= s0,
        exists|s2: int| s0 <= s2 && is_zero_run(g, s2, l),
    ensures
        s0 <= s,
        is_zero_run(g, s, l),
        forall|s2: int| s0 <= s2 < s ==> !is_zero_run(g, s2, l),
    decreases g.len() - s0,
{
    if is_zero_run(g, s0, l) {
        s0
    } else {
        let w = choose|s2: int| s0 <= s2 && is_zero_run(g, s2, l);
        assert(s0 < w && w <= g.len());
        lemma_first_run_start(g, l, s0 + 1)
    }
}

/// There is a first longest run of zero groups, searching lengths from `l` down when no
/// run is longer than `l`.
proof fn lemma_longest_run_from(g: Seq<u16>, l: int) -> (r: (int, int))
    requires
        0 <= l,
        forall|s2: int, l2: int| #[trigger] is_zero_run(g, s2, l2) ==> l2 <= l,
    ensures
        first_longest_zero_run(g, r.0, r.1),
    decreases l,
{
    if exists|s2: int| 0 <= s2 && is_zero_run(g, s2, l) {
        let s = lemma_first_run_start(g, l, 0);
        (s, l)
    } else {
        assert(is_zero_run(g, 0, 0));
        assert(l > 0);
        assert forall|s2: int, l2: int| #[trigger] is_zero_run(g, s2, l2) implies l2 <= l - 1 by {
            if l2 == l {
                assert(0 <= s2);
            }
        }
        lemma_longest_run_from(g, l - 1)
    }
}

proof fn lemma_longest_run_exists(g: Seq<u16>)
    ensures
        exists|s: int, l: int| first_longest_zero_run(g, s, l),
{
    let r = lemma_longest_run_from(g, g.len() as int);
    assert(first_longest_zero_run(g, r.0, r.1));
}

} // verus!
verus! {

/// The text of an IPv4-mapped address reads back as its groups.
#[verifier::spinoff_prover]
#[verifier::rlimit(40)]
proof fn lemma_ipv6_mapped_roundtrip(g: Seq<u16>)
    requires
        g.len() == 8,
        is_ipv4_mapped(g),
    ensures
        parse_ipv6(ipv6_text(g)) == Some(g),
{
    let t = ipv6_text(g);
    let o = seq![(g[6] / 256) as u8, (g[6] % 256) as u8, (g[7] / 256) as u8, (g[7] % 256) as u8];
    let pre = seq![58u8, 58u8, 102u8, 102u8, 102u8, 102u8, 58u8];
    assert(t == pre + ipv4_text(o));
    assert(t[0] == 58 && t[1] == 58 && t[2] == 102 && t[6] == 58);
    // No group before the `::`.
    lemma_no_number(t, 0, 10, 3, false, 255);
    lemma_no_number(t, 0, 16, 4, true, 65535);
    assert(read_groups(t, 0, 0, 8) == (Seq::<u16>::empty(), 0int, false));
    // After it: `ffff`, then the IPv4 address.
    lemma_no_number(t, 2, 10, 3, false, 255);
    assert(hex_lower(65535) =~= seq![102u8, 102u8, 102u8, 102u8]) by {
        reveal_with_fuel(hex_lower, 5);
    }
    assert(t.subrange(2, 6) =~= hex_lower(65535));
    lemma_read_hex_field(t, 2, 65535);
    assert(t.skip(7) =~= ipv4_text(o));
    lemma_read_ipv4_text(t, 7, o);
    let hi = ((o[0] as u16) * 256 + o[1] as u16) as u16;
    let lo = ((o[2] as u16) * 256 + o[3] as u16) as u16;
    assert(hi == g[6] && lo == g[7]) by (nonlinear_arith)
        requires
            o[0] == (g[6] / 256) as u8,
            o[1] == (g[6] % 256) as u8,
            o[2] == (g[7] / 256) as u8,
            o[3] == (g[7] % 256) as u8,
            hi == ((o[0] as u16) * 256 + o[1] as u16) as u16,
            lo == ((o[2] as u16) * 256 + o[3] as u16) as u16,
    ;
    assert(read_groups(t, 6, 1, 7) == (seq![hi, lo], t.len() as int, true));
    assert(read_groups(t, 2, 0, 7) == (seq![65535u16] + seq![hi, lo], t.len() as int, true));
    assert(Seq::<u16>::empty() + Seq::new(5, |i: int| 0u16) + (seq![65535u16] + seq![hi, lo]) =~= g);
}

/// Text with the zero run `g[s0..s0 + l]` written `::` reads back as the groups.
#[verifier::spinoff_prover]
#[verifier::rlimit(40)]
proof fn lemma_ipv6_compressed_roundtrip(g: Seq<u16>, s0: int, l: int)
    requires
        g.len() == 8,
        is_zero_run(g, s0, l),
        l > 1,
    ensures
        ({
            let t = groups_text(g.take(s0)) + seq![58u8, 58u8] + groups_text(g.skip(s0 + l));
            parse_ipv6(t) == Some(g)
        }),
{
    let head = g.take(s0);
    let tail = g.skip(s0 + l);
    let a = groups_text(head);
    let b = groups_text(tail);
    let t = a + seq![58u8, 58u8] + b;
    lemma_groups_text_chars(head);
    lemma_groups_text_chars(tail);
    assert forall|k: int| 0 <= k < t.len() implies t[k] != 46 by {
        if k < a.len() {
            assert(t[k] == a[k]);
        } else if k >= a.len() + 2 {
            assert(t[k] == b[k - a.len() - 2]);
        }
    }
    let p = a.len() as int;
    assert(t[p] == 58 && t[p + 1] == 58);
    if s0 == 0 {
        assert(a.len() == 0);
        lemma_no_dot_no_ipv4(t, 0);
        lemma_no_number(t, 0, 16, 4, true, 65535);
        assert(read_groups(t, 0, 0, 8) == (Seq::<u16>::empty(), 0int, false));
        assert(head =~= Seq::<u16>::empty());
    } else {
        assert(t.subrange(0, p) =~= a);
        lemma_read_hex_groups(head, t, 0, 0, 8);
    }
    if tail.len() == 0 {
        assert(p + 2 == t.len());
        lemma_no_dot_no_ipv4(t, p + 2);
        lemma_no_number(t, p + 2, 16, 4, true, 65535);
        assert(read_groups(t, p + 2, 0, 7 - s0) == (Seq::<u16>::empty(), p + 2, false));
    } else {
        assert(t.subrange(p + 2, p + 2 + b.len()) =~= b);
        lemma_read_hex_groups(tail, t, p + 2, 0, 7 - s0);
    }
    assert(head + Seq::new((8 - head.len() - tail.len()) as nat, |i: int| 0u16) + tail =~= g);
}

/// Law of IPv6 text: reading the text of eight groups gives them back.
pub proof fn lemma_ipv6_text_roundtrip(g: Seq<u16>)
    requires
        g.len() == 8,
    ensures
        parse_ipv6(ipv6_text(g)) == Some(g),
{
    if is_ipv4_mapped(g) {
        lemma_ipv6_mapped_roundtrip(g);
    } else {
        lemma_longest_run_exists(g);
        let (s0, l) = choose|s: int, l: int| first_longest_zero_run(g, s, l);
        if l > 1 {
            lemma_ipv6_compressed_roundtrip(g, s0, l);
        } else {
            let t = groups_text(g);
            lemma_groups_text_chars(g);
            assert(t.subrange(0, t.len() as int) =~= t);
            lemma_read_hex_groups(g, t, 0, 0, 8);
        }
    }
}

} // verus!
verus! {

/// IPv6 text never reads as IPv4 text.
pub proof fn lemma_ipv6_text_not_ipv4(g: Seq<u16>)
    requires
        g.len() == 8,
    ensures
        parse_ipv4(ipv6_text(g)) is None,
{
    let t = ipv6_text(g);
    if is_ipv4_mapped(g) {
        let o = seq![(g[6] / 256) as u8, (g[6] % 256) as u8, (g[7] / 256) as u8, (g[7] % 256) as u8];
        assert(t == seq![58u8, 58u8, 102u8, 102u8, 102u8, 102u8, 58u8] + ipv4_text(o));
        assert(t[0] == 58);
        lemma_no_number(t, 0, 10, 3, false, 255);
    } else {
        lemma_longest_run_exists(g);
        let (s0, l) = choose|s: int, l: int| first_longest_zero_run(g, s, l);
        if l > 1 {
            let a = groups_text(g.take(s0));
            let b = groups_text(g.skip(s0 + l));
            assert(t == a + seq![58u8, 58u8] + b);
            lemma_groups_text_chars(g.take(s0));
            lemma_groups_text_chars(g.skip(s0 + l));
            assert forall|k: int| 0 <= k < t.len() implies t[k] != 46 by {
                if k < a.len() {
                    assert(t[k] == a[k]);
                } else if k >= a.len() + 2 {
                    assert(t[k] == b[k - a.len() - 2]);
                }
            }
        } else {
            lemma_groups_text_chars(g);
        }
        lemma_no_dot_no_ipv4(t, 0);
    }
}

} // verus!
