use vstd::prelude::*;
use vstd::string::StringSliceAdditionalSpecFns;
use crate::bytes::bytes_eq;

verus! {

/// ASCII decimal digits of `n`, most significant first, without leading zeros.
pub open spec fn decimal(n: nat) -> Seq<u8>
    decreases n,
{
    if n < 10 {
        seq![(48 + n) as u8]
    } else {
        decimal(n / 10).push((48 + n % 10) as u8)
    }
}

/// Appends the decimal digits of `n` to `out`.
pub fn push_decimal(out: &mut Vec<u8>, n: usize)
    ensures
        final(out)@ == old(out)@ + decimal(n as nat),
    decreases n,
{
    if n >= 10 {
        push_decimal(out, n / 10);
    }
    out.push(48u8 + (n % 10) as u8);
    assert(final(out)@ =~= old(out)@ + decimal(n as nat));
}

/// Whether every character of `s` is an ASCII decimal digit.
pub open spec fn all_ascii_digits(s: Seq<char>) -> bool {
    forall|i: int| 0 <= i < s.len() ==> '0' <= #[trigger] s[i] <= '9'
}

/// Whether two strings hold the same characters.
pub fn str_eq(a: &str, b: &str) -> (r: bool)
    ensures
        r == (a@ == b@),
{
    let r = bytes_eq(a.as_bytes(), b.as_bytes());
    proof {
        vstd::utf8::encode_utf8_decode_utf8(a@);
        vstd::utf8::encode_utf8_decode_utf8(b@);
    }
    r
}

/// The result of `str::to_lowercase` on the characters `s`.
pub uninterp spec fn str_to_lowercase(s: Seq<char>) -> Seq<char>;

/// Every character is ASCII.
pub open spec fn is_ascii_text(s: Seq<char>) -> bool {
    forall|i: int| 0 <= i < s.len() ==> (s[i] as u32) < 128
}

/// ASCII text with its capital letters `A` to `Z` turned into `a` to `z`.
pub open spec fn ascii_lowercase(s: Seq<char>) -> Seq<char> {
    Seq::new(s.len(), |i: int| if 65 <= (s[i] as u32) <= 90 { ((s[i] as u32) + 32) as char } else { s[i] })
}

/// Trusted: `str::to_lowercase`, which maps each character to its Unicode lowercase form and
/// depends on the characters alone. Claims the result is `str_to_lowercase` of the input,
/// and, as the documentation of the ASCII case gives, that for ASCII text it is the text with
/// its capital letters made small.
#[verifier::external_body]
pub(crate) fn to_lowercase(s: &str) -> (r: String)
    ensures
        r@ == str_to_lowercase(s@),
        is_ascii_text(s@) ==> r@ == ascii_lowercase(s@),
{
    s.to_lowercase()
}

/// Every byte is below 128.
pub open spec fn is_ascii_bytes(b: Seq<u8>) -> bool {
    forall|i: int| 0 <= i < b.len() ==> b[i] < 128
}

/// The characters of ASCII bytes.
pub open spec fn ascii_chars(b: Seq<u8>) -> Seq<char> {
    Seq::new(b.len(), |i: int| b[i] as char)
}

/// Trusted: `String::from_utf8` on ASCII bytes, which are valid UTF-8, so the conversion
/// succeeds and each byte becomes the character of the same value.
#[verifier::external_body]
pub(crate) fn ascii_string(b: Vec<u8>) -> (r: String)
    requires
        is_ascii_bytes(b@),
    ensures
        r@ == ascii_chars(b@),
{
    String::from_utf8(b).unwrap()
}

/// The characters that `String::from_utf8_lossy` makes of `b`.
pub uninterp spec fn utf8_lossy(b: Seq<u8>) -> Seq<char>;

/// Whether `utf8_lossy` decodes `b` unchanged when it is valid UTF-8, as every call of
/// `string_from_utf8_lossy` on `b` shows.
pub open spec fn lossy_decodes(b: Seq<u8>) -> bool {
    vstd::utf8::valid_utf8(b) ==> utf8_lossy(b) == vstd::utf8::decode_utf8(b)
}

/// Trusted: `String::from_utf8_lossy`, which decodes UTF-8 and puts U+FFFD in place of
/// invalid sequences, depending on the bytes alone; valid UTF-8 is decoded unchanged.
#[verifier::external_body]
pub(crate) fn string_from_utf8_lossy(b: &[u8]) -> (r: String)
    ensures
        r@ == utf8_lossy(b@),
        vstd::utf8::valid_utf8(b@) ==> r@ == vstd::utf8::decode_utf8(b@),
{
    String::from_utf8_lossy(b).to_string()
}

/// Decimal digits are ASCII.
pub proof fn lemma_decimal_ascii(n: nat)
    ensures
        is_ascii_bytes(decimal(n)),
        decimal(n).len() >= 1,
    decreases n,
{
    if n >= 10 {
        lemma_decimal_ascii(n / 10);
    }
}

/// The decimal digits of `n` as a string.
pub fn decimal_string(n: usize) -> (r: String)
    ensures
        r@ == ascii_chars(decimal(n as nat)),
{
    let mut d: Vec<u8> = Vec::new();
    push_decimal(&mut d, n);
    proof {
        lemma_decimal_ascii(n as nat);
        assert(d@ =~= decimal(n as nat));
    }
    ascii_string(d)
}

/// Position of the first `d` in `s`, or the length of `s` when there is none.
pub open spec fn first_index(s: Seq<u8>, d: u8) -> int
    decreases s.len(),
{
    if s.len() == 0 {
        0
    } else if s[0] == d {
        0
    } else {
        1 + first_index(s.skip(1), d)
    }
}

/// `i` is the first position of `d` in `s`, or the length when `d` does not occur.
pub proof fn lemma_first_index(s: Seq<u8>, d: u8, i: int)
    requires
        0 <= i <= s.len(),
        forall|k: int| 0 <= k < i ==> s[k] != d,
        i == s.len() || s[i] == d,
    ensures
        first_index(s, d) == i,
    decreases i,
{
    if i > 0 {
        assert forall|k: int| 0 <= k < i - 1 implies s.skip(1)[k] != d by {
            assert(s.skip(1)[k] == s[k + 1]);
        }
        lemma_first_index(s.skip(1), d, i - 1);
    }
}

pub proof fn lemma_ascii_head_boundary(b: Seq<u8>)
    requires
        vstd::utf8::valid_utf8(b),
        b.len() >= 1,
        b[0] < 128,
    ensures
        vstd::utf8::is_char_boundary(b, 1),
{
    reveal_with_fuel(vstd::utf8::is_char_boundary, 2);
    assert(vstd::utf8::length_of_first_scalar(b) == 1);
    assert(vstd::utf8::pop_first_scalar(b) =~= b.skip(1));
}

/// Cuts `s` at its first occurrence of the ASCII byte `d`: the text before and the text after
/// it; nothing when `d` does not occur.
pub fn cut_at<'a>(s: &'a str, d: u8) -> (r: Option<(&'a str, &'a str)>)
    requires
        d < 128,
    ensures
        r is Some <==> first_index(s.spec_bytes(), d) < s.spec_bytes().len(),
        r matches Some((a, b)) ==> a.spec_bytes() == s.spec_bytes().take(first_index(s.spec_bytes(), d))
            && b.spec_bytes() == s.spec_bytes().skip(first_index(s.spec_bytes(), d) + 1),
{
    let bytes = s.as_bytes();
    let mut i: usize = 0;
    while i < bytes.len() && bytes[i] != d
        invariant
            i <= bytes@.len(),
            forall|k: int| 0 <= k < i ==> bytes@[k] != d,
        decreases bytes@.len() - i,
    {
        i = i + 1;
    }
    proof {
        lemma_first_index(bytes@, d, i as int);
    }
    if i == bytes.len() {
        return None;
    }
    proof {
        vstd::utf8::encode_utf8_valid_utf8(s@);
        vstd::utf8::is_char_boundary_iff_is_leading_byte(bytes@, i as int);
    }
    let (a, rest) = s.split_at(i);
    proof {
        vstd::utf8::valid_utf8_split(bytes@, i as int);
        assert(rest.spec_bytes()[0] == d);
        lemma_ascii_head_boundary(rest.spec_bytes());
    }
    let (_, b) = rest.split_at(1);
    assert(b.spec_bytes() =~= s.spec_bytes().skip(i + 1));
    Some((a, b))
}

} // verus!
verus! {

/// The UTF-8 encoding of the characters of ASCII bytes is the bytes.
pub proof fn lemma_ascii_chars_bytes(b: Seq<u8>)
    requires
        is_ascii_bytes(b),
    ensures
        vstd::utf8::encode_utf8(ascii_chars(b)) == b,
{
    let c = ascii_chars(b);
    assert(vstd::utf8::is_ascii_chars(c)) by {
        assert forall|i: int| 0 <= i < c.len() implies '\0' <= #[trigger] c[i] <= '\u{7f}' by {
            assert(b[i] < 128);
        }
    }
    vstd::utf8::is_ascii_chars_encode_utf8(c);
    assert forall|i: int| 0 <= i < b.len() implies vstd::utf8::encode_utf8(c)[i] == b[i] by {
        assert(c[i] as u8 == vstd::utf8::encode_utf8(c)[i]);
        assert(c[i] == b[i] as char);
    }
    assert(vstd::utf8::encode_utf8(c) =~= b);
}

} // verus!
