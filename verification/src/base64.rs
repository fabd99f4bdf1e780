use vstd::prelude::*;
use vstd::utf8::encode_utf8;
use vstd::string::{StringSliceAdditionalSpecFns, StringExecFns};
use ::base64::Engine;
use crate::error::{Error, Result, msg};

verus! {

/// The base64 digit of value `v` (below 64): `A`-`Z`, `a`-`z`, `0`-`9`, then `+` and `/`,
/// or `-` and `_` in the URL-safe alphabet.
pub open spec fn b64_digit(v: int, url: bool) -> char {
    if v < 26 {
        (65 + v) as char
    } else if v < 52 {
        (97 + v - 26) as char
    } else if v < 62 {
        (48 + v - 52) as char
    } else if v == 62 {
        if url { '-' } else { '+' }
    } else {
        if url { '_' } else { '/' }
    }
}

/// RFC 4648 base64 text of `data`: each three bytes become four digits of six bits each, most
/// significant first; a last group of two bytes gives three digits and one of one byte two,
/// each followed by `=` up to four characters when `pad`.
pub open spec fn b64_text(data: Seq<u8>, url: bool, pad: bool) -> Seq<char>
    decreases data.len(),
{
    if data.len() == 0 {
        Seq::empty()
    } else if data.len() == 1 {
        let b0 = data[0] as int;
        seq![b64_digit(b0 / 4, url), b64_digit((b0 % 4) * 16, url)] + (if pad { seq!['=', '='] } else { Seq::empty() })
    } else if data.len() == 2 {
        let b0 = data[0] as int;
        let b1 = data[1] as int;
        seq![b64_digit(b0 / 4, url), b64_digit((b0 % 4) * 16 + b1 / 16, url), b64_digit((b1 % 16) * 4, url)]
            + (if pad { seq!['='] } else { Seq::empty() })
    } else {
        let b0 = data[0] as int;
        let b1 = data[1] as int;
        let b2 = data[2] as int;
        seq![b64_digit(b0 / 4, url), b64_digit((b0 % 4) * 16 + b1 / 16, url),
            b64_digit((b1 % 16) * 4 + b2 / 64, url), b64_digit(b2 % 64, url)] + b64_text(data.skip(3), url, pad)
    }
}

/// Standard base64 text (with padding) of `data`.
pub open spec fn b64_standard_encoded(data: Seq<u8>) -> Seq<char> {
    b64_text(data, false, true)
}

/// The bytes standard base64 text decodes to, if it is valid: the decoder is canonical, so a
/// text is valid exactly when it is the encoding of some bytes, which it then gives.
pub open spec fn b64_standard_decoded(text: Seq<u8>) -> Option<Seq<u8>> {
    if exists|d: Seq<u8>| encode_utf8(#[trigger] b64_text(d, false, true)) == text {
        Some(choose|d: Seq<u8>| encode_utf8(#[trigger] b64_text(d, false, true)) == text)
    } else {
        None
    }
}

/// URL-safe base64 text (without padding) of `data`.
pub open spec fn b64_url_encoded(data: Seq<u8>) -> Seq<char> {
    b64_text(data, true, false)
}

/// The bytes URL-safe unpadded base64 text decodes to, if it is valid: as for the standard
/// text, exactly the encodings are valid.
pub open spec fn b64_url_decoded(text: Seq<u8>) -> Option<Seq<u8>> {
    if exists|d: Seq<u8>| encode_utf8(#[trigger] b64_text(d, true, false)) == text {
        Some(choose|d: Seq<u8>| encode_utf8(#[trigger] b64_text(d, true, false)) == text)
    } else {
        None
    }
}

/// Characters of base64 text in one alphabet: its digits, and `=` when padded.
pub open spec fn b64_text_char(c: char, url: bool, pad: bool) -> bool {
    let u = c as u32;
    ||| 65 <= u <= 90
    ||| 97 <= u <= 122
    ||| 48 <= u <= 57
    ||| (url && (u == 45 || u == 95))
    ||| (!url && (u == 43 || u == 47))
    ||| (pad && u == 61)
}

proof fn lemma_b64_digit_alphabet(v: int, url: bool, pad: bool)
    requires
        0 <= v < 64,
    ensures
        b64_text_char(b64_digit(v, url), url, pad),
{
}

pub(crate) proof fn lemma_b64_text_alphabet(d: Seq<u8>, url: bool, pad: bool)
    ensures
        forall|i: int| 0 <= i < b64_text(d, url, pad).len() ==> b64_text_char(#[trigger] b64_text(d, url, pad)[i], url, pad),
    decreases d.len(),
{
    let t = b64_text(d, url, pad);
    if d.len() == 1 {
        let b0 = d[0] as int;
        lemma_b64_digit_alphabet(b0 / 4, url, pad);
        lemma_b64_digit_alphabet((b0 % 4) * 16, url, pad);
        let head = seq![b64_digit(b0 / 4, url), b64_digit((b0 % 4) * 16, url)];
        let tail: Seq<char> = if pad { seq!['=', '='] } else { Seq::empty() };
        assert(t == head + tail);
        assert forall|i: int| 0 <= i < t.len() implies b64_text_char(#[trigger] t[i], url, pad) by {
            if i < 2 {
                assert(t[i] == head[i]);
            } else {
                assert(t[i] == tail[i - 2]);
            }
        }
    } else if d.len() == 2 {
        let b0 = d[0] as int;
        let b1 = d[1] as int;
        lemma_b64_digit_alphabet(b0 / 4, url, pad);
        lemma_b64_digit_alphabet((b0 % 4) * 16 + b1 / 16, url, pad);
        lemma_b64_digit_alphabet((b1 % 16) * 4, url, pad);
        let head = seq![b64_digit(b0 / 4, url), b64_digit((b0 % 4) * 16 + b1 / 16, url), b64_digit((b1 % 16) * 4, url)];
        let tail: Seq<char> = if pad { seq!['='] } else { Seq::empty() };
        assert(t == head + tail);
        assert forall|i: int| 0 <= i < t.len() implies b64_text_char(#[trigger] t[i], url, pad) by {
            if i < 3 {
                assert(t[i] == head[i]);
            } else {
                assert(t[i] == tail[i - 3]);
            }
        }
    } else if d.len() >= 3 {
        let b0 = d[0] as int;
        let b1 = d[1] as int;
        let b2 = d[2] as int;
        lemma_b64_digit_alphabet(b0 / 4, url, pad);
        lemma_b64_digit_alphabet((b0 % 4) * 16 + b1 / 16, url, pad);
        lemma_b64_digit_alphabet((b1 % 16) * 4 + b2 / 64, url, pad);
        lemma_b64_digit_alphabet(b2 % 64, url, pad);
        lemma_b64_text_alphabet(d.skip(3), url, pad);
        let head = seq![b64_digit(b0 / 4, url), b64_digit((b0 % 4) * 16 + b1 / 16, url),
            b64_digit((b1 % 16) * 4 + b2 / 64, url), b64_digit(b2 % 64, url)];
        let tail = b64_text(d.skip(3), url, pad);
        assert(t == head + tail);
        assert forall|i: int| 0 <= i < t.len() implies b64_text_char(#[trigger] t[i], url, pad) by {
            if i < 4 {
                assert(t[i] == head[i]);
            } else {
                assert(t[i] == tail[i - 4]);
            }
        }
    }
}

proof fn lemma_b64_digit_injective(v: int, w: int, url: bool)
    requires
        0 <= v < 64,
        0 <= w < 64,
        b64_digit(v, url) == b64_digit(w, url),
    ensures
        v == w,
{
    let a = b64_digit(v, url);
    let b = b64_digit(w, url);
    vstd::utf8::char_u32_cast(a, a as u32);
    vstd::utf8::char_u32_cast(b, b as u32);
    assert(a as u32 == b as u32);
}

proof fn lemma_b64_digit_not_pad(v: int, url: bool)
    requires
        0 <= v < 64,
    ensures
        b64_digit(v, url) != '=',
{
}

/// Length of base64 text: four characters per full group of three bytes, and the tail.
pub(crate) proof fn lemma_b64_text_len(d: Seq<u8>, url: bool, pad: bool)
    ensures
        d.len() >= 3 ==> b64_text(d, url, pad).len() >= 4,
        d.len() > 0 ==> b64_text(d, url, pad).len() >= 2,
        d.len() == 0 ==> b64_text(d, url, pad).len() == 0,
        d.len() == 1 ==> b64_text(d, url, pad).len() == (if pad { 4int } else { 2int }),
        d.len() == 2 ==> b64_text(d, url, pad).len() == (if pad { 4int } else { 3int }),
        d.len() >= 3 && !pad ==> b64_text(d, url, pad).len() >= 4,
        d.len() >= 3 ==> b64_text(d, url, pad).len() == 4 + b64_text(d.skip(3), url, pad).len(),
{
}

/// Different bytes give different base64 text.
pub proof fn lemma_b64_text_injective(d1: Seq<u8>, d2: Seq<u8>, url: bool, pad: bool)
    requires
        b64_text(d1, url, pad) == b64_text(d2, url, pad),
    ensures
        d1 == d2,
    decreases d1.len(),
{
    let t = b64_text(d1, url, pad);
    lemma_b64_text_len(d1, url, pad);
    lemma_b64_text_len(d2, url, pad);
    if d1.len() == 0 || d2.len() == 0 {
        assert(d1.len() == 0 && d2.len() == 0);
        assert(d1 =~= d2);
        return;
    }
    let a0 = d1[0] as int;
    let c0 = d2[0] as int;
    // the group kinds agree
    if d1.len() >= 3 && d2.len() < 3 || d1.len() < 3 && d2.len() >= 3 {
        let (x, y) = if d1.len() >= 3 { (d1, d2) } else { (d2, d1) };
        let bx1 = x[1] as int;
        let bx2 = x[2] as int;
        lemma_b64_digit_not_pad((bx1 % 16) * 4 + bx2 / 64, url);
        lemma_b64_digit_not_pad(bx2 % 64, url);
        if pad {
            assert(b64_text(x, url, pad)[2] == b64_digit((bx1 % 16) * 4 + bx2 / 64, url));
            assert(b64_text(x, url, pad)[3] == b64_digit(bx2 % 64, url));
            if y.len() == 1 {
                assert(b64_text(y, url, pad)[2] == '=');
            } else {
                assert(b64_text(y, url, pad)[3] == '=');
            }
        }
        assert(false);
    }
    if d1.len() < 3 && d1.len() != d2.len() {
        let (x, y) = if d1.len() == 2 { (d1, d2) } else { (d2, d1) };
        let bx0 = x[0] as int;
        let bx1 = x[1] as int;
        lemma_b64_digit_not_pad((bx1 % 16) * 4, url);
        if pad {
            assert(b64_text(x, url, pad)[2] == b64_digit((bx1 % 16) * 4, url));
            assert(b64_text(y, url, pad)[2] == '=');
        }
        assert(false);
    }
    // first two digits
    assert(t[0] == b64_digit(a0 / 4, url) && t[0] == b64_digit(c0 / 4, url));
    lemma_b64_digit_injective(a0 / 4, c0 / 4, url);
    if d1.len() == 1 {
        assert(t[1] == b64_digit((a0 % 4) * 16, url) && t[1] == b64_digit((c0 % 4) * 16, url));
        lemma_b64_digit_injective((a0 % 4) * 16, (c0 % 4) * 16, url);
        assert(a0 == c0) by (nonlinear_arith)
            requires
                0 <= a0 < 256,
                0 <= c0 < 256,
                a0 / 4 == c0 / 4,
                (a0 % 4) * 16 == (c0 % 4) * 16,
        ;
        assert(d1 =~= d2);
        return;
    }
    let a1 = d1[1] as int;
    let c1 = d2[1] as int;
    assert(t[1] == b64_digit((a0 % 4) * 16 + a1 / 16, url) && t[1] == b64_digit((c0 % 4) * 16 + c1 / 16, url));
    lemma_b64_digit_injective((a0 % 4) * 16 + a1 / 16, (c0 % 4) * 16 + c1 / 16, url);
    if d1.len() == 2 {
        assert(t[2] == b64_digit((a1 % 16) * 4, url) && t[2] == b64_digit((c1 % 16) * 4, url));
        lemma_b64_digit_injective((a1 % 16) * 4, (c1 % 16) * 4, url);
        assert(a0 == c0 && a1 == c1) by (nonlinear_arith)
            requires
                0 <= a0 < 256,
                0 <= c0 < 256,
                0 <= a1 < 256,
                0 <= c1 < 256,
                a0 / 4 == c0 / 4,
                (a0 % 4) * 16 + a1 / 16 == (c0 % 4) * 16 + c1 / 16,
                (a1 % 16) * 4 == (c1 % 16) * 4,
        ;
        assert(d1 =~= d2);
        return;
    }
    let a2 = d1[2] as int;
    let c2 = d2[2] as int;
    assert(t[2] == b64_digit((a1 % 16) * 4 + a2 / 64, url) && t[2] == b64_digit((c1 % 16) * 4 + c2 / 64, url));
    lemma_b64_digit_injective((a1 % 16) * 4 + a2 / 64, (c1 % 16) * 4 + c2 / 64, url);
    assert(t[3] == b64_digit(a2 % 64, url) && t[3] == b64_digit(c2 % 64, url));
    lemma_b64_digit_injective(a2 % 64, c2 % 64, url);
    assert(a0 == c0 && a1 == c1 && a2 == c2) by (nonlinear_arith)
        requires
            0 <= a0 < 256,
            0 <= c0 < 256,
            0 <= a1 < 256,
            0 <= c1 < 256,
            0 <= a2 < 256,
            0 <= c2 < 256,
            a0 / 4 == c0 / 4,
            (a0 % 4) * 16 + a1 / 16 == (c0 % 4) * 16 + c1 / 16,
            (a1 % 16) * 4 + a2 / 64 == (c1 % 16) * 4 + c2 / 64,
            a2 % 64 == c2 % 64,
    ;
    let r1 = b64_text(d1.skip(3), url, pad);
    let r2 = b64_text(d2.skip(3), url, pad);
    assert(t.skip(4) =~= r1);
    assert(b64_text(d2, url, pad).skip(4) =~= r2);
    lemma_b64_text_injective(d1.skip(3), d2.skip(3), url, pad);
    assert(d1 =~= d2) by {
        assert forall|i: int| 0 <= i < d1.len() implies d1[i] == d2[i] by {
            if i >= 3 {
                assert(d1[i] == d1.skip(3)[i - 3]);
                assert(d2[i] == d2.skip(3)[i - 3]);
            }
        }
    }
}

/// Law of base64: decoding the encoding of any bytes gives them back, for both decoders.
pub proof fn lemma_b64_decode_encoded(d: Seq<u8>)
    ensures
        b64_standard_decoded(encode_utf8(b64_standard_encoded(d))) == Some(d),
        b64_url_decoded(encode_utf8(b64_url_encoded(d))) == Some(d),
{
    let ts = encode_utf8(b64_text(d, false, true));
    let d1 = choose|x: Seq<u8>| encode_utf8(#[trigger] b64_text(x, false, true)) == ts;
    vstd::utf8::encode_utf8_decode_utf8(b64_text(d1, false, true));
    vstd::utf8::encode_utf8_decode_utf8(b64_text(d, false, true));
    lemma_b64_text_injective(d1, d, false, true);
    let tu = encode_utf8(b64_text(d, true, false));
    let d2 = choose|x: Seq<u8>| encode_utf8(#[trigger] b64_text(x, true, false)) == tu;
    vstd::utf8::encode_utf8_decode_utf8(b64_text(d2, true, false));
    vstd::utf8::encode_utf8_decode_utf8(b64_text(d, true, false));
    lemma_b64_text_injective(d2, d, true, false);
}

/// Law of base64 decoding: text holding a byte that its alphabet does not have is refused.
/// The standard decoder refuses any byte but its digits and `=` (such as `@`); the URL-safe
/// one any byte but its digits (such as `@`, `+`, `/` or `=`).
pub proof fn lemma_b64_rejects_foreign_byte(text: Seq<u8>, i: int)
    requires
        0 <= i < text.len(),
    ensures
        !b64_text_char(text[i] as char, false, true) ==> b64_standard_decoded(text) is None,
        !b64_text_char(text[i] as char, true, false) ==> b64_url_decoded(text) is None,
{
    assert forall|d: Seq<u8>, url: bool, pad: bool| !b64_text_char(text[i] as char, url, pad)
        implies encode_utf8(#[trigger] b64_text(d, url, pad)) != text by {
        let c = b64_text(d, url, pad);
        lemma_b64_text_alphabet(d, url, pad);
        assert forall|k: int| 0 <= k < c.len() implies '\0' <= #[trigger] c[k] <= '\u{7f}' by {
            assert(b64_text_char(c[k], url, pad));
            vstd::utf8::char_u32_cast(c[k], c[k] as u32);
        }
        assert(vstd::utf8::is_ascii_chars(c));
        vstd::utf8::is_ascii_chars_encode_utf8(c);
        if encode_utf8(c) == text {
            assert(c[i] as u8 == text[i]);
            assert(b64_text_char(c[i], url, pad));
        }
    }
}

/// Trusted: `base64::engine::general_purpose::STANDARD.encode`. Claims the text is
/// `b64_standard_encoded(data)`, the RFC 4648 encoding with padding that the crate documents.
/// Inputs are at most
/// `isize::MAX` bytes long, as every slice is, so the length computation does not overflow.
#[verifier::external_body]
fn standard_encode(data: &[u8]) -> (r: String)
    requires
        data@.len() <= isize::MAX,
    ensures
        r@ == b64_standard_encoded(data@),
{
    ::base64::engine::general_purpose::STANDARD.encode(data)
}

/// Trusted: `base64::engine::general_purpose::STANDARD.decode`. Claims success exactly when
/// `b64_standard_decoded` has a value, and that value; the error text is not claimed.
#[verifier::external_body]
fn standard_decode(text: &[u8]) -> (r: core::result::Result<Vec<u8>, String>)
    ensures
        r is Ok <==> b64_standard_decoded(text@) is Some,
        r matches Ok(v) ==> Some(v@) == b64_standard_decoded(text@),
{
    ::base64::engine::general_purpose::STANDARD.decode(text).map_err(|e| e.to_string())
}

/// Trusted: `base64::engine::general_purpose::URL_SAFE_NO_PAD.encode`. Claims the text is
/// `b64_url_encoded(data)`, the RFC 4648 URL-safe encoding without padding that the crate
/// documents.
#[verifier::external_body]
fn url_encode(data: &[u8]) -> (r: String)
    requires
        data@.len() <= isize::MAX,
    ensures
        r@ == b64_url_encoded(data@),
{
    ::base64::engine::general_purpose::URL_SAFE_NO_PAD.encode(data)
}

/// Trusted: `base64::engine::general_purpose::URL_SAFE_NO_PAD.decode`. Claims success exactly
/// when `b64_url_decoded` has a value, and that value; the error text is not claimed.
#[verifier::external_body]
fn url_decode(text: &[u8]) -> (r: core::result::Result<Vec<u8>, String>)
    ensures
        r is Ok <==> b64_url_decoded(text@) is Some,
        r matches Ok(v) ==> Some(v@) == b64_url_decoded(text@),
{
    ::base64::engine::general_purpose::URL_SAFE_NO_PAD.decode(text).map_err(|e| e.to_string())
}

/// `prefix` followed by `detail`, as an owned message.
fn message(prefix: &str, detail: &str) -> (r: String)
    ensures
        r@ == prefix@ + detail@,
{
    let mut s = msg(prefix);
    s.append(detail);
    s
}

/// Standard base64 (with padding) of `data`; decoding the text gives `data` back.
pub fn encode(data: &[u8]) -> (r: String)
    requires
        data@.len() <= isize::MAX,
    ensures
        r@ == b64_standard_encoded(data@),
        b64_standard_decoded(encode_utf8(r@)) == Some(data@),
{
    let r = standard_encode(data);
    proof {
        lemma_b64_decode_encoded(data@);
    }
    r
}

/// Decodes standard base64 text; invalid text is an error.
pub fn decode(data: &str) -> (r: Result<Vec<u8>>)
    ensures
        match r {
            Ok(v) => b64_standard_decoded(data.spec_bytes()) == Some(v@),
            Err(e) => b64_standard_decoded(data.spec_bytes()) is None && e is Other,
        },
{
    match standard_decode(data.as_bytes()) {
        Ok(v) => Ok(v),
        Err(e) => Err(Error::Other(message("base64 decode: ", e.as_str()))),
    }
}

/// URL-safe unpadded base64 of `data`; decoding the text gives `data` back.
pub fn encode_urlsafe(data: &[u8]) -> (r: String)
    requires
        data@.len() <= isize::MAX,
    ensures
        r@ == b64_url_encoded(data@),
        b64_url_decoded(encode_utf8(r@)) == Some(data@),
{
    let r = url_encode(data);
    proof {
        lemma_b64_decode_encoded(data@);
    }
    r
}

/// Decodes URL-safe unpadded base64 text; invalid text is an error.
pub fn decode_urlsafe(data: &str) -> (r: Result<Vec<u8>>)
    ensures
        match r {
            Ok(v) => b64_url_decoded(data.spec_bytes()) == Some(v@),
            Err(e) => b64_url_decoded(data.spec_bytes()) is None && e is Other,
        },
{
    decode_urlsafe_bytes(data.as_bytes())
}

/// Decodes URL-safe unpadded base64 given as bytes; invalid text is an error.
pub(crate) fn decode_urlsafe_bytes(data: &[u8]) -> (r: Result<Vec<u8>>)
    ensures
        match r {
            Ok(v) => b64_url_decoded(data@) == Some(v@),
            Err(e) => b64_url_decoded(data@) is None && e is Other,
        },
{
    match url_decode(data) {
        Ok(v) => Ok(v),
        Err(e) => Err(Error::Other(message("base64 urlsafe decode: ", e.as_str()))),
    }
}


/// The value of a base64 digit of the given alphabet: `A`-`Z` are 0 to 25, `a`-`z` 26 to 51,
/// `0`-`9` 52 to 61, then `+` and `/` (standard) or `-` and `_` (URL-safe) 62 and 63.
pub open spec fn b64_value(c: char, url: bool) -> int {
    let u = c as u32 as int;
    if 65 <= u <= 90 {
        u - 65
    } else if 97 <= u <= 122 {
        u - 71
    } else if 48 <= u <= 57 {
        u + 4
    } else if u == (if url { 45int } else { 43int }) {
        62
    } else if u == (if url { 95int } else { 47int }) {
        63
    } else {
        -1
    }
}

proof fn lemma_b64_digit_value(v: int, url: bool)
    requires
        0 <= v < 64,
    ensures
        b64_value(b64_digit(v, url), url) == v,
{
    let c = b64_digit(v, url);
    if v < 26 {
        assert(c == (65 + v) as char);
        vstd::utf8::char_u32_cast(c, c as u32);
    } else if v < 52 {
        assert(c == (97 + v - 26) as char);
        vstd::utf8::char_u32_cast(c, c as u32);
    } else if v < 62 {
        assert(c == (48 + v - 52) as char);
        vstd::utf8::char_u32_cast(c, c as u32);
    }
}

/// Law of base64 groups: every three bytes of data become four digits whose values, six bits
/// each and most significant first, make up the 24 bits of the three bytes; a last group of two
/// bytes gives three digits holding those 16 bits and two zero bits, one of one byte two digits
/// holding its 8 bits and four zero bits, followed by `=` up to four characters when padded.
pub proof fn lemma_b64_groups(d: Seq<u8>, url: bool, pad: bool)
    ensures
        ({
            let t = b64_text(d, url, pad);
            &&& d.len() >= 3 ==> {
                &&& 262144 * b64_value(t[0], url) + 4096 * b64_value(t[1], url) + 64 * b64_value(t[2], url)
                    + b64_value(t[3], url) == 65536 * (d[0] as int) + 256 * (d[1] as int) + (d[2] as int)
                &&& 0 <= b64_value(t[0], url) && 0 <= b64_value(t[1], url) && 0 <= b64_value(t[2], url)
                    && 0 <= b64_value(t[3], url)
                &&& t.skip(4) == b64_text(d.skip(3), url, pad)
            }
            &&& d.len() == 2 ==> {
                &&& t.len() == (if pad { 4int } else { 3int })
                &&& 4096 * b64_value(t[0], url) + 64 * b64_value(t[1], url) + b64_value(t[2], url)
                    == 4 * (256 * (d[0] as int) + (d[1] as int))
                &&& 0 <= b64_value(t[0], url) && 0 <= b64_value(t[1], url) && 0 <= b64_value(t[2], url)
                &&& pad ==> t[3] == '='
            }
            &&& d.len() == 1 ==> {
                &&& t.len() == (if pad { 4int } else { 2int })
                &&& 64 * b64_value(t[0], url) + b64_value(t[1], url) == 16 * (d[0] as int)
                &&& 0 <= b64_value(t[0], url) && 0 <= b64_value(t[1], url)
                &&& pad ==> t[2] == '=' && t[3] == '='
            }
            &&& d.len() == 0 ==> t.len() == 0
        }),
{
    let t = b64_text(d, url, pad);
    if d.len() >= 3 {
        let b0 = d[0] as int;
        let b1 = d[1] as int;
        let b2 = d[2] as int;
        lemma_b64_digit_value(b0 / 4, url);
        lemma_b64_digit_value((b0 % 4) * 16 + b1 / 16, url);
        lemma_b64_digit_value((b1 % 16) * 4 + b2 / 64, url);
        lemma_b64_digit_value(b2 % 64, url);
        let head = seq![b64_digit(b0 / 4, url), b64_digit((b0 % 4) * 16 + b1 / 16, url),
            b64_digit((b1 % 16) * 4 + b2 / 64, url), b64_digit(b2 % 64, url)];
        assert(t == head + b64_text(d.skip(3), url, pad));
        assert(t[0] == head[0] && t[1] == head[1] && t[2] == head[2] && t[3] == head[3]);
        assert(t.skip(4) =~= b64_text(d.skip(3), url, pad));
    } else if d.len() == 2 {
        let b0 = d[0] as int;
        let b1 = d[1] as int;
        lemma_b64_digit_value(b0 / 4, url);
        lemma_b64_digit_value((b0 % 4) * 16 + b1 / 16, url);
        lemma_b64_digit_value((b1 % 16) * 4, url);
    } else if d.len() == 1 {
        let b0 = d[0] as int;
        lemma_b64_digit_value(b0 / 4, url);
        lemma_b64_digit_value((b0 % 4) * 16, url);
    }
}

} // verus!
