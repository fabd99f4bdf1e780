use vstd::prelude::*;
use vstd::utf8::{encode_utf8, decode_utf8, valid_utf8};
use vstd::string::{StringSliceAdditionalSpecFns, StringExecFns};
use crate::error::{Error, Result, msg};
use crate::text::{first_index, cut_at, str_eq, utf8_lossy, string_from_utf8_lossy, lemma_ascii_head_boundary,
    decimal, is_ascii_bytes, lossy_decodes, lemma_ascii_chars_bytes, ascii_chars};
use crate::bytes::bytes_eq;
use crate::ip::digit_value;
use crate::base64::{b64_url_decoded, b64_url_encoded, b64_text_char, decode_urlsafe, decode_urlsafe_bytes,
    lemma_b64_text_alphabet, lemma_b64_text_len, lemma_b64_decode_encoded};
use crate::config::{SsrConfig, ClientSettings};

verus! {

/// Whether `c` has the Unicode `White_Space` property, as `char::is_whitespace` documents:
/// tab to carriage return, space, next line, no-break space, ogham space mark, the spaces
/// from en quad to hair space, line and paragraph separators, narrow no-break space, medium
/// mathematical space and ideographic space.
pub open spec fn is_unicode_space(c: char) -> bool {
    let u = c as u32;
    ||| 0x09 <= u <= 0x0D
    ||| u == 0x20 || u == 0x85 || u == 0xA0 || u == 0x1680
    ||| 0x2000 <= u <= 0x200A
    ||| u == 0x2028 || u == 0x2029 || u == 0x202F || u == 0x205F || u == 0x3000
}

/// `s` without its leading white space.
pub open spec fn trim_start(s: Seq<char>) -> Seq<char>
    decreases s.len(),
{
    if s.len() > 0 && is_unicode_space(s[0]) {
        trim_start(s.skip(1))
    } else {
        s
    }
}

/// `s` without its trailing white space.
pub open spec fn trim_end(s: Seq<char>) -> Seq<char>
    decreases s.len(),
{
    if s.len() > 0 && is_unicode_space(s.last()) {
        trim_end(s.drop_last())
    } else {
        s
    }
}

/// The characters `str::trim` leaves of `s`: `s` without leading and trailing white space.
pub open spec fn str_trim(s: Seq<char>) -> Seq<char> {
    trim_end(trim_start(s))
}

/// Trusted: `str::trim`, documented to drop leading and trailing white space as
/// `char::is_whitespace` defines it. Claims the result is `str_trim` of the input.
#[verifier::external_body]
fn trim_str(s: &str) -> (r: &str)
    ensures
        r@ == str_trim(s@),
{
    s.trim()
}

/// The value of ASCII decimal digits.
pub open spec fn decimal_value(b: Seq<u8>) -> nat
    decreases b.len(),
{
    if b.len() == 0 {
        0
    } else {
        decimal_value(b.drop_last()) * 10 + (b.last() - 48) as nat
    }
}

/// The `u16` that text denotes: an optional `+` followed by at least one decimal digit, with a
/// value that fits.
pub open spec fn u16_text(b: Seq<u8>) -> Option<u16> {
    let d = if b.len() > 0 && b[0] == 43 { b.skip(1) } else { b };
    if d.len() > 0 && (forall|i: int| 0 <= i < d.len() ==> 48 <= #[trigger] d[i] <= 57) && decimal_value(d) <= 65535 {
        Some(decimal_value(d) as u16)
    } else {
        None
    }
}

/// Trusted: `str::parse::<u16>`, documented to accept an optional `+` followed by decimal
/// digits whose value fits, and nothing else. Claims the result is `u16_text` of the bytes.
#[verifier::external_body]
fn parse_u16_str(s: &str) -> (r: Option<u16>)
    ensures
        r == u16_text(s.spec_bytes()),
{
    s.parse::<u16>().ok()
}

/// Percent-decoding: `%` followed by two hexadecimal digits stands for the byte they denote;
/// every other byte stands for itself.
pub open spec fn percent_decoded(b: Seq<u8>) -> Seq<u8>
    decreases b.len(),
{
    if b.len() == 0 {
        Seq::empty()
    } else if b[0] == 37 && b.len() >= 3 && digit_value(b[1], 16) is Some && digit_value(b[2], 16) is Some {
        seq![(digit_value(b[1], 16).unwrap() * 16 + digit_value(b[2], 16).unwrap()) as u8] + percent_decoded(b.skip(3))
    } else {
        seq![b[0]] + percent_decoded(b.skip(1))
    }
}

/// Trusted: `percent_encoding::percent_decode`, collected into bytes. Claims the bytes are
/// `percent_decoded` of the input, as its iterator produces them.
#[verifier::external_body]
fn percent_decode_bytes(b: &[u8]) -> (r: Vec<u8>)
    ensures
        r@ == percent_decoded(b@),
{
    percent_encoding::percent_decode(b).collect()
}

/// Up to `n` pieces of `s` cut at `d`; the last piece holds the rest.
pub open spec fn split_n(s: Seq<u8>, n: nat, d: u8) -> Seq<Seq<u8>>
    decreases n,
{
    if n <= 1 || first_index(s, d) >= s.len() {
        seq![s]
    } else {
        seq![s.take(first_index(s, d))] + split_n(s.skip(first_index(s, d) + 1), (n - 1) as nat, d)
    }
}

/// All pieces of `s` cut at `d`.
pub open spec fn split_all(s: Seq<u8>, d: u8) -> Seq<Seq<u8>>
    decreases s.len(),
{
    proof {
        lemma_first_index_range(s, d);
    }
    if first_index(s, d) >= s.len() {
        seq![s]
    } else {
        seq![s.take(first_index(s, d))] + split_all(s.skip(first_index(s, d) + 1), d)
    }
}

/// `first_index` lies within the sequence.
pub proof fn lemma_first_index_range(s: Seq<u8>, d: u8)
    ensures
        0 <= first_index(s, d) <= s.len(),
    decreases s.len(),
{
    if s.len() > 0 && s[0] != d {
        lemma_first_index_range(s.skip(1), d);
    }
}

/// The value after one `key=value` parameter: the decoded value when the piece names `key`
/// and its value is valid base64, `cur` otherwise.
pub open spec fn param_update(cur: Seq<char>, piece: Seq<u8>, key: Seq<u8>) -> Seq<char> {
    let i = first_index(piece, 61);
    if i < piece.len() && piece.take(i) == key {
        match b64_url_decoded(piece.skip(i + 1)) {
            Some(b) => utf8_lossy(b),
            None => cur,
        }
    } else {
        cur
    }
}

/// The value of `key` after all parameter pieces, in order.
pub open spec fn apply_params(cur: Seq<char>, pieces: Seq<Seq<u8>>, key: Seq<u8>) -> Seq<char>
    decreases pieces.len(),
{
    if pieces.len() == 0 {
        cur
    } else {
        apply_params(param_update(cur, pieces[0], key), pieces.skip(1), key)
    }
}

/// What an `ssr://` link holds.
pub struct LinkFields {
    pub host: Seq<char>,
    pub port: u16,
    pub protocol: Seq<char>,
    pub method: Seq<char>,
    pub obfs: Seq<char>,
    pub password: Seq<char>,
    pub protocol_param: Seq<char>,
    pub obfs_param: Seq<char>,
}

/// The fields of an `ssr://` link: after trimming, the prefix `ssr://` and URL-safe base64 of
/// `host:port:protocol:method:obfs:password_base64/?params`, where the host is
/// percent-encoded and the parameters `obfsparam` and `protoparam` are base64 too. Nothing
/// when the prefix, the base64, the `/`, one of the five colons or the port is missing.
pub open spec fn link_fields(link: Seq<char>) -> Option<LinkFields> {
    let t = encode_utf8(str_trim(link));
    if !(t.len() >= 6 && t.take(6) == "ssr://".spec_bytes()) {
        None
    } else {
        match b64_url_decoded(t.skip(6)) {
            None => None,
            Some(dec) => {
                let d = encode_utf8(utf8_lossy(dec));
                let halves = split_n(d, 2, 47);
                if halves.len() < 2 {
                    None
                } else {
                    let params = if halves[1].len() > 0 && halves[1][0] == 63 { halves[1].skip(1) } else { halves[1] };
                    let bp = split_n(halves[0], 6, 58);
                    if bp.len() < 6 {
                        None
                    } else {
                        match u16_text(bp[1]) {
                            None => None,
                            Some(port) => Some(LinkFields {
                                host: utf8_lossy(percent_decoded(bp[0])),
                                port: port,
                                protocol: decode_utf8(bp[2]),
                                method: decode_utf8(bp[3]),
                                obfs: decode_utf8(bp[4]),
                                password: utf8_lossy(
                                    match b64_url_decoded(bp[5]) {
                                        Some(b) => b,
                                        None => Seq::empty(),
                                    },
                                ),
                                protocol_param: apply_params(Seq::empty(), split_all(params, 38), "protoparam".spec_bytes()),
                                obfs_param: apply_params(Seq::empty(), split_all(params, 38), "obfsparam".spec_bytes()),
                            }),
                        }
                    }
                }
            },
        }
    }
}

/// A configuration holds what a link holds, with the fixed client defaults.
pub open spec fn config_from_link(c: SsrConfig, f: LinkFields) -> bool {
    &&& c.password@ == f.password
    &&& c.method@ == f.method
    &&& c.protocol@ == f.protocol
    &&& c.protocol_param@ == f.protocol_param
    &&& c.obfs@ == f.obfs
    &&& c.obfs_param@ == f.obfs_param
    &&& !c.udp
    &&& c.idle_timeout == 300
    &&& c.connect_timeout == 6
    &&& c.udp_timeout == 6
    &&& c.server_settings is None
    &&& c.over_tls_settings is None
    &&& c.client_settings matches Some(s) && s.server@ == f.host && s.server_port == f.port
        && s.listen_address@ == "127.0.0.1"@ && s.listen_port == 1080
}

proof fn lemma_chars_of_bytes(s: &str)
    ensures
        s@ == decode_utf8(s.spec_bytes()),
{
    vstd::utf8::encode_utf8_decode_utf8(s@);
}

/// One step of the parameter fold: the pieces of `s` begin with `piece` and go on with the
/// pieces of `rest`.
proof fn lemma_split_all_step(s: Seq<u8>, d: u8, cur: Seq<char>, key: Seq<u8>)
    requires
        first_index(s, d) < s.len(),
    ensures
        apply_params(cur, split_all(s, d), key) == apply_params(param_update(cur, s.take(first_index(s, d)), key),
            split_all(s.skip(first_index(s, d) + 1), d), key),
{
    let x = split_all(s, d);
    assert(x[0] == s.take(first_index(s, d)));
    assert(x.skip(1) =~= split_all(s.skip(first_index(s, d) + 1), d));
}

/// The new value of a parameter after one piece.
fn update_param(cur: String, piece: &str, key: &str) -> (r: String)
    ensures
        r@ == param_update(cur@, piece.spec_bytes(), key.spec_bytes()),
{
    match cut_at(piece, 61) {
        Some((k, v)) => {
            proof {
                lemma_chars_of_bytes(k);
                lemma_chars_of_bytes(key);
            }
            if str_eq(k, key) {
                match decode_urlsafe(v) {
                    Ok(b) => string_from_utf8_lossy(b.as_slice()),
                    Err(_) => cur,
                }
            } else {
                cur
            }
        },
        None => cur,
    }
}

/// Reads an `ssr://` link into a client configuration.
pub fn decode_ssr_link(link: &str) -> (r: Result<SsrConfig>)
    ensures
        match link_fields(link@) {
            Some(f) => r matches Ok(c) && config_from_link(c, f),
            None => r matches Err(e) && e is Other,
        },
{
    let link = trim_str(link);
    let lb = link.as_bytes();
    if lb.len() < 6 || !bytes_eq(&lb[0..6], "ssr://".as_bytes()) {
        proof {
            if lb@.len() >= 6 {
                assert(lb@.subrange(0, 6) =~= lb@.take(6));
            }
        }
        return Err(Error::Other(msg("not an ssr link")));
    }
    assert(lb@.subrange(0, 6) =~= lb@.take(6));
    let b64 = &lb[6..lb.len()];
    assert(b64@ =~= lb@.skip(6));
    let decoded = match decode_urlsafe_bytes(b64) {
        Ok(v) => v,
        Err(e) => {
            return Err(e);
        },
    };
    let decoded_string = string_from_utf8_lossy(decoded.as_slice());
    let ds = decoded_string.as_str();
    let ghost d = ds.spec_bytes();
    let (base_info, rest) = match cut_at(ds, 47) {
        Some(x) => x,
        None => {
            assert(split_n(d, 2, 47) == seq![d]);
            return Err(Error::Other(msg("invalid ssr link")));
        },
    };
    proof {
        lemma_first_index_range(d, 47);
        assert(split_n(rest.spec_bytes(), 1, 47) == seq![rest.spec_bytes()]);
        assert(split_n(d, 2, 47) =~= seq![base_info.spec_bytes(), rest.spec_bytes()]);
    }
    let param_part: &str = if rest.as_bytes().len() > 0 && rest.as_bytes()[0] == 63 {
        proof {
            vstd::utf8::encode_utf8_valid_utf8(rest@);
            lemma_ascii_head_boundary(rest.spec_bytes());
        }
        let (_, p) = rest.split_at(1);
        assert(p.spec_bytes() =~= rest.spec_bytes().skip(1));
        p
    } else {
        rest
    };
    let ghost pp = param_part.spec_bytes();
    let ghost b0 = base_info.spec_bytes();
    let (host_enc, r0) = match cut_at(base_info, 58) {
        Some(x) => x,
        None => {
            assert(split_n(b0, 6, 58) == seq![b0]);
            return Err(Error::Other(msg("invalid ssr link base")));
        },
    };
    let ghost b1 = r0.spec_bytes();
    assert(split_n(b0, 6, 58) == seq![host_enc.spec_bytes()] + split_n(b1, 5, 58));
    let (port_text, r1) = match cut_at(r0, 58) {
        Some(x) => x,
        None => {
            assert(split_n(b1, 5, 58) == seq![b1]);
            return Err(Error::Other(msg("invalid ssr link base")));
        },
    };
    let ghost b2 = r1.spec_bytes();
    assert(split_n(b1, 5, 58) == seq![port_text.spec_bytes()] + split_n(b2, 4, 58));
    let (protocol_text, r2) = match cut_at(r1, 58) {
        Some(x) => x,
        None => {
            assert(split_n(b2, 4, 58) == seq![b2]);
            return Err(Error::Other(msg("invalid ssr link base")));
        },
    };
    let ghost b3 = r2.spec_bytes();
    assert(split_n(b2, 4, 58) == seq![protocol_text.spec_bytes()] + split_n(b3, 3, 58));
    let (method_text, r3) = match cut_at(r2, 58) {
        Some(x) => x,
        None => {
            assert(split_n(b3, 3, 58) == seq![b3]);
            return Err(Error::Other(msg("invalid ssr link base")));
        },
    };
    let ghost b4 = r3.spec_bytes();
    assert(split_n(b3, 3, 58) == seq![method_text.spec_bytes()] + split_n(b4, 2, 58));
    let (obfs_text, password_b64) = match cut_at(r3, 58) {
        Some(x) => x,
        None => {
            assert(split_n(b4, 2, 58) == seq![b4]);
            return Err(Error::Other(msg("invalid ssr link base")));
        },
    };
    proof {
        let b5 = password_b64.spec_bytes();
        assert(split_n(b5, 1, 58) == seq![b5]);
        assert(split_n(b4, 2, 58) == seq![obfs_text.spec_bytes()] + split_n(b5, 1, 58));
        assert(split_n(b0, 6, 58) =~= seq![host_enc.spec_bytes(), port_text.spec_bytes(), protocol_text.spec_bytes(),
            method_text.spec_bytes(), obfs_text.spec_bytes(), b5]);
    }
    let host = string_from_utf8_lossy(percent_decode_bytes(host_enc.as_bytes()).as_slice());
    let port = match parse_u16_str(port_text) {
        Some(p) => p,
        None => {
            return Err(Error::Other(msg("invalid port")));
        },
    };
    proof {
        lemma_chars_of_bytes(protocol_text);
        lemma_chars_of_bytes(method_text);
        lemma_chars_of_bytes(obfs_text);
    }
    let protocol = String::from_str(protocol_text);
    let method = String::from_str(method_text);
    let obfs = String::from_str(obfs_text);
    let password_bytes = match decode_urlsafe(password_b64) {
        Ok(b) => b,
        Err(_) => Vec::new(),
    };
    let password = string_from_utf8_lossy(password_bytes.as_slice());
    let mut obfs_param = String::new();
    let mut protocol_param = String::new();
    let mut remaining: &str = param_part;
    loop
        invariant
            apply_params(Seq::empty(), split_all(pp, 38), "obfsparam".spec_bytes())
                == apply_params(obfs_param@, split_all(remaining.spec_bytes(), 38), "obfsparam".spec_bytes()),
            apply_params(Seq::empty(), split_all(pp, 38), "protoparam".spec_bytes())
                == apply_params(protocol_param@, split_all(remaining.spec_bytes(), 38), "protoparam".spec_bytes()),
        ensures
            apply_params(Seq::empty(), split_all(pp, 38), "obfsparam".spec_bytes()) == obfs_param@,
            apply_params(Seq::empty(), split_all(pp, 38), "protoparam".spec_bytes()) == protocol_param@,
        decreases remaining.spec_bytes().len(),
    {
        match cut_at(remaining, 38) {
            Some((piece, next)) => {
                proof {
                    lemma_first_index_range(remaining.spec_bytes(), 38);
                    lemma_split_all_step(remaining.spec_bytes(), 38, obfs_param@, "obfsparam".spec_bytes());
                    lemma_split_all_step(remaining.spec_bytes(), 38, protocol_param@, "protoparam".spec_bytes());
                }
                obfs_param = update_param(obfs_param, piece, "obfsparam");
                protocol_param = update_param(protocol_param, piece, "protoparam");
                remaining = next;
            },
            None => {
                let ghost rb = remaining.spec_bytes();
                let ghost o0 = obfs_param@;
                let ghost p0 = protocol_param@;
                assert(split_all(rb, 38) == seq![rb]);
                assert(seq![rb].skip(1) =~= Seq::<Seq<u8>>::empty());
                obfs_param = update_param(obfs_param, remaining, "obfsparam");
                protocol_param = update_param(protocol_param, remaining, "protoparam");
                assert(apply_params(obfs_param@, Seq::<Seq<u8>>::empty(), "obfsparam".spec_bytes()) == obfs_param@);
                assert(apply_params(protocol_param@, Seq::<Seq<u8>>::empty(), "protoparam".spec_bytes()) == protocol_param@);
                assert(apply_params(o0, seq![rb], "obfsparam".spec_bytes()) == obfs_param@);
                assert(apply_params(p0, seq![rb], "protoparam".spec_bytes()) == protocol_param@);
                break;
            },
        }
    }
    Ok(SsrConfig {
        password,
        method,
        protocol,
        protocol_param,
        obfs,
        obfs_param,
        udp: false,
        idle_timeout: 300,
        connect_timeout: 6,
        udp_timeout: 6,
        server_settings: None,
        client_settings: Some(ClientSettings {
            server: host,
            server_port: port,
            listen_address: msg("127.0.0.1"),
            listen_port: 1080,
        }),
        over_tls_settings: None,
    })
}

/// The pieces joined with `d` between neighbours.
pub open spec fn join_with(pieces: Seq<Seq<u8>>, d: u8) -> Seq<u8>
    decreases pieces.len(),
{
    if pieces.len() == 0 {
        Seq::empty()
    } else if pieces.len() == 1 {
        pieces[0]
    } else {
        pieces[0] + seq![d] + join_with(pieces.drop_first(), d)
    }
}

/// `d` does not occur in `s`.
pub open spec fn lacks(s: Seq<u8>, d: u8) -> bool {
    forall|k: int| 0 <= k < s.len() ==> s[k] != d
}

/// Pieces none of which holds `d`.
pub open spec fn all_lack(pieces: Seq<Seq<u8>>, d: u8) -> bool {
    forall|i: int| 0 <= i < pieces.len() ==> lacks(#[trigger] pieces[i], d)
}

proof fn lemma_first_index_after(a: Seq<u8>, b: Seq<u8>, d: u8)
    requires
        lacks(a, d),
    ensures
        first_index(a + seq![d] + b, d) == a.len(),
        (a + seq![d] + b).take(a.len() as int) == a,
        (a + seq![d] + b).skip((a.len() + 1) as int) == b,
{
    let s = a + seq![d] + b;
    crate::text::lemma_first_index(s, d, a.len() as int);
    assert(s.take(a.len() as int) =~= a);
    assert(s.skip((a.len() + 1) as int) =~= b);
}

proof fn lemma_first_index_absent(a: Seq<u8>, d: u8)
    requires
        lacks(a, d),
    ensures
        first_index(a, d) == a.len(),
{
    crate::text::lemma_first_index(a, d, a.len() as int);
}

proof fn lemma_join_lacks(pieces: Seq<Seq<u8>>, d: u8, e: u8)
    requires
        all_lack(pieces, e),
        d != e,
    ensures
        lacks(join_with(pieces, d), e),
    decreases pieces.len(),
{
    if pieces.len() >= 2 {
        let t = pieces.drop_first();
        assert forall|i: int| 0 <= i < t.len() implies lacks(#[trigger] t[i], e) by {
            assert(t[i] == pieces[i + 1]);
        }
        lemma_join_lacks(t, d, e);
        assert(lacks(pieces[0], e));
        let j = pieces[0] + seq![d] + join_with(t, d);
        assert forall|k: int| 0 <= k < j.len() implies j[k] != e by {
            if k < pieces[0].len() {
            } else if k == pieces[0].len() {
            } else {
                assert(j[k] == join_with(t, d)[k - pieces[0].len() - 1]);
            }
        }
    } else if pieces.len() == 1 {
        assert(lacks(pieces[0], e));
    }
}

/// Cutting pieces joined with `d` into as many pieces gives them back, when none holds `d`.
proof fn lemma_split_n_join(pieces: Seq<Seq<u8>>, d: u8)
    requires
        pieces.len() >= 1,
        all_lack(pieces, d),
    ensures
        split_n(join_with(pieces, d), pieces.len(), d) == pieces,
        split_all(join_with(pieces, d), d) == pieces,
    decreases pieces.len(),
{
    assert(lacks(pieces[0], d));
    if pieces.len() == 1 {
        lemma_first_index_absent(pieces[0], d);
        assert(seq![pieces[0]] =~= pieces);
    } else {
        let t = pieces.drop_first();
        assert forall|i: int| 0 <= i < t.len() implies lacks(#[trigger] t[i], d) by {
            assert(t[i] == pieces[i + 1]);
        }
        lemma_split_n_join(t, d);
        lemma_first_index_after(pieces[0], join_with(t, d), d);
        let j = join_with(pieces, d);
        assert(j == pieces[0] + seq![d] + join_with(t, d));
        assert(seq![pieces[0]] + t =~= pieces);
    }
}


/// The UTF-8 encoding of joined characters is the joined encodings.
proof fn lemma_encode_utf8_concat(a: Seq<char>, b: Seq<char>)
    ensures
        encode_utf8(a + b) == encode_utf8(a) + encode_utf8(b),
    decreases a.len(),
{
    if a.len() == 0 {
        assert(a + b =~= b);
        assert(encode_utf8(a) =~= Seq::<u8>::empty());
        assert(encode_utf8(a) + encode_utf8(b) =~= encode_utf8(b));
    } else {
        lemma_encode_utf8_concat(a.drop_first(), b);
        assert((a + b).drop_first() =~= a.drop_first() + b);
        assert((a + b)[0] == a[0]);
        assert(encode_utf8(a + b) =~= encode_utf8(a) + encode_utf8(b));
    }
}

proof fn lemma_ascii_valid(b: Seq<u8>)
    requires
        is_ascii_bytes(b),
    ensures
        valid_utf8(b),
{
    lemma_ascii_chars_bytes(b);
    vstd::utf8::encode_utf8_valid_utf8(ascii_chars(b));
}

proof fn lemma_lacks_concat(a: Seq<u8>, b: Seq<u8>, d: u8)
    requires
        lacks(a, d),
        lacks(b, d),
    ensures
        lacks(a + b, d),
{
    assert forall|k: int| 0 <= k < (a + b).len() implies (a + b)[k] != d by {
        if k >= a.len() {
            assert((a + b)[k] == b[k - a.len()]);
        }
    }
}

proof fn lemma_join_valid(pieces: Seq<Seq<u8>>, d: u8)
    requires
        forall|i: int| 0 <= i < pieces.len() ==> valid_utf8(#[trigger] pieces[i]),
        d < 128,
    ensures
        valid_utf8(join_with(pieces, d)),
    decreases pieces.len(),
{
    if pieces.len() == 0 {
        assert(valid_utf8(Seq::<u8>::empty()));
    } else if pieces.len() == 1 {
        assert(valid_utf8(pieces[0]));
    } else {
        let t = pieces.drop_first();
        assert forall|i: int| 0 <= i < t.len() implies valid_utf8(#[trigger] t[i]) by {
            assert(t[i] == pieces[i + 1]);
        }
        lemma_join_valid(t, d);
        lemma_ascii_valid(seq![d]);
        assert(valid_utf8(pieces[0]));
        vstd::utf8::valid_utf8_concat(pieces[0], seq![d]);
        vstd::utf8::valid_utf8_concat(pieces[0] + seq![d], join_with(t, d));
    }
}

/// Decimal digits of `n` are digits, and read back as `n`.
proof fn lemma_decimal_value(n: nat)
    ensures
        decimal(n).len() >= 1,
        forall|i: int| 0 <= i < decimal(n).len() ==> 48 <= #[trigger] decimal(n)[i] <= 57,
        decimal_value(decimal(n)) == n,
    decreases n,
{
    let t = decimal(n);
    if n >= 10 {
        lemma_decimal_value(n / 10);
        assert(t.drop_last() =~= decimal(n / 10));
        assert forall|i: int| 0 <= i < t.len() implies 48 <= #[trigger] t[i] <= 57 by {
            if i < t.len() - 1 {
                assert(t[i] == decimal(n / 10)[i]);
            }
        }
        assert(t.last() == (48 + n % 10) as u8);
        assert(decimal_value(t) == decimal_value(t.drop_last()) * 10 + (t.last() - 48) as nat);
        assert((n / 10) * 10 + n % 10 == n);
    } else {
        assert(t.drop_last() =~= Seq::<u8>::empty());
        assert(decimal_value(Seq::<u8>::empty()) == 0);
        assert(decimal_value(t) == decimal_value(t.drop_last()) * 10 + (t.last() - 48) as nat);
    }
}

/// URL-safe unpadded base64 text of `data`, as bytes.
pub open spec fn url_b64_bytes(data: Seq<u8>) -> Seq<u8> {
    encode_utf8(b64_url_encoded(data))
}

proof fn lemma_url_b64_bytes(data: Seq<u8>)
    ensures
        is_ascii_bytes(url_b64_bytes(data)),
        lacks(url_b64_bytes(data), 38),
        lacks(url_b64_bytes(data), 47),
        lacks(url_b64_bytes(data), 58),
        data.len() > 0 ==> url_b64_bytes(data).len() > 0,
        valid_utf8(url_b64_bytes(data)),
        b64_url_decoded(url_b64_bytes(data)) == Some(data),
{
    let c = b64_url_encoded(data);
    lemma_b64_text_alphabet(data, true, false);
    lemma_b64_text_len(data, true, false);
    assert forall|k: int| 0 <= k < c.len() implies '\0' <= #[trigger] c[k] <= '\u{7f}' by {
        assert(b64_text_char(c[k], true, false));
        vstd::utf8::char_u32_cast(c[k], c[k] as u32);
    }
    assert(vstd::utf8::is_ascii_chars(c));
    vstd::utf8::is_ascii_chars_encode_utf8(c);
    let b = url_b64_bytes(data);
    assert forall|k: int| 0 <= k < b.len() implies #[trigger] b[k] < 128 && b[k] != 38 && b[k] != 47 && b[k] != 58 by {
        assert(c[k] as u8 == b[k]);
        assert(b64_text_char(c[k], true, false));
    }
    vstd::utf8::encode_utf8_valid_utf8(c);
    lemma_b64_decode_encoded(data);
}

proof fn lemma_letters_bytes(s: Seq<char>)
    requires
        forall|i: int| 0 <= i < s.len() ==> 'a' <= #[trigger] s[i] <= 'z',
    ensures
        encode_utf8(s).len() == s.len(),
        is_ascii_bytes(encode_utf8(s)),
        lacks(encode_utf8(s), 61),
        lacks(encode_utf8(s), 38),
{
    assert(vstd::utf8::is_ascii_chars(s));
    vstd::utf8::is_ascii_chars_encode_utf8(s);
    let b = encode_utf8(s);
    assert forall|k: int| 0 <= k < b.len() implies 97 <= #[trigger] b[k] <= 122 by {
        assert(s[k] as u8 == b[k]);
    }
}

proof fn lemma_link_literals()
    ensures
        "ssr://".spec_bytes().len() == 6,
        "ssr://"@.len() == 6,
        "ssr://"@[0] == 's',
        "obfsparam".spec_bytes().len() == 9,
        is_ascii_bytes("obfsparam".spec_bytes()),
        lacks("obfsparam".spec_bytes(), 61),
        lacks("obfsparam".spec_bytes(), 38),
        "protoparam".spec_bytes().len() == 10,
        is_ascii_bytes("protoparam".spec_bytes()),
        lacks("protoparam".spec_bytes(), 61),
        lacks("protoparam".spec_bytes(), 38),
{
    reveal_strlit("ssr://");
    reveal_strlit("obfsparam");
    reveal_strlit("protoparam");
    let l = "ssr://"@;
    assert forall|i: int| 0 <= i < l.len() implies '\0' <= #[trigger] l[i] <= '\u{7f}' by {}
    assert(vstd::utf8::is_ascii_chars(l));
    vstd::utf8::is_ascii_chars_encode_utf8(l);
    lemma_letters_bytes("obfsparam"@);
    lemma_letters_bytes("protoparam"@);
}


proof fn lemma_percent_plain(b: Seq<u8>)
    requires
        lacks(b, 37),
    ensures
        percent_decoded(b) == b,
    decreases b.len(),
{
    if b.len() > 0 {
        let t = b.skip(1);
        assert forall|k: int| 0 <= k < t.len() implies t[k] != 37 by {
            assert(t[k] == b[k + 1]);
        }
        lemma_percent_plain(t);
        assert(seq![b[0]] + t =~= b);
    }
}

/// The text an `ssr://` link carries: host, port, protocol, method, obfuscation and the
/// URL-safe base64 of the password, joined by `:`; then `/?obfsparam=` and the base64 of the
/// obfuscation parameter; then `&protoparam=` and the base64 of the protocol parameter.
pub open spec fn ssr_link_body(host: Seq<char>, port: u16, protocol: Seq<char>, method: Seq<char>, obfs: Seq<char>,
    password: Seq<char>, obfs_param: Seq<char>, protocol_param: Seq<char>) -> Seq<u8> {
    join_with(seq![encode_utf8(host), decimal(port as nat), encode_utf8(protocol), encode_utf8(method),
        encode_utf8(obfs), url_b64_bytes(encode_utf8(password))], 58)
        + seq![47u8, 63u8] + "obfsparam".spec_bytes() + seq![61u8] + url_b64_bytes(encode_utf8(obfs_param))
        + seq![38u8] + "protoparam".spec_bytes() + seq![61u8] + url_b64_bytes(encode_utf8(protocol_param))
}

/// An `ssr://` link: the prefix, then the URL-safe base64 of the text it carries.
pub open spec fn ssr_link(body: Seq<u8>) -> Seq<char> {
    "ssr://"@ + b64_url_encoded(body)
}

proof fn lemma_link_outer(body: Seq<u8>)
    requires
        body.len() > 0,
    ensures
        encode_utf8(str_trim(ssr_link(body))).len() >= 6,
        encode_utf8(str_trim(ssr_link(body))).take(6) == "ssr://".spec_bytes(),
        encode_utf8(str_trim(ssr_link(body))).skip(6) == url_b64_bytes(body),
{
    lemma_link_literals();
    let c = b64_url_encoded(body);
    let l = ssr_link(body);
    lemma_b64_text_alphabet(body, true, false);
    lemma_b64_text_len(body, true, false);
    assert(l[0] == 's');
    assert(l.last() == c[c.len() - 1]);
    assert(b64_text_char(c[c.len() - 1], true, false));
    assert(trim_start(l) == l);
    assert(trim_end(l) == l);
    lemma_encode_utf8_concat("ssr://"@, c);
    let t = encode_utf8(l);
    assert(t.take(6) =~= "ssr://".spec_bytes());
    assert(t.skip(6) =~= url_b64_bytes(body));
}

/// How the pieces of the parameter text fold into each value.
proof fn lemma_link_params(obfs_param: Seq<char>, protocol_param: Seq<char>)
    requires
        lossy_decodes(encode_utf8(obfs_param)),
        lossy_decodes(encode_utf8(protocol_param)),
    ensures
        ({
            let q1 = "obfsparam".spec_bytes() + seq![61u8] + url_b64_bytes(encode_utf8(obfs_param));
            let q2 = "protoparam".spec_bytes() + seq![61u8] + url_b64_bytes(encode_utf8(protocol_param));
            let params = q1 + seq![38u8] + q2;
            &&& apply_params(Seq::empty(), split_all(params, 38), "obfsparam".spec_bytes()) == obfs_param
            &&& apply_params(Seq::empty(), split_all(params, 38), "protoparam".spec_bytes()) == protocol_param
            &&& is_ascii_bytes(params)
        }),
{
    let ok = "obfsparam".spec_bytes();
    let pk = "protoparam".spec_bytes();
    let vo = url_b64_bytes(encode_utf8(obfs_param));
    let vp = url_b64_bytes(encode_utf8(protocol_param));
    let q1 = ok + seq![61u8] + vo;
    let q2 = pk + seq![61u8] + vp;
    let params = q1 + seq![38u8] + q2;
    lemma_link_literals();
    lemma_url_b64_bytes(encode_utf8(obfs_param));
    lemma_url_b64_bytes(encode_utf8(protocol_param));
    vstd::utf8::encode_utf8_valid_utf8(obfs_param);
    vstd::utf8::encode_utf8_valid_utf8(protocol_param);
    vstd::utf8::encode_utf8_decode_utf8(obfs_param);
    vstd::utf8::encode_utf8_decode_utf8(protocol_param);
    assert(lacks(seq![61u8], 38));
    lemma_lacks_concat(ok, seq![61u8], 38);
    lemma_lacks_concat(ok + seq![61u8], vo, 38);
    lemma_lacks_concat(pk, seq![61u8], 38);
    lemma_lacks_concat(pk + seq![61u8], vp, 38);
    let ps = seq![q1, q2];
    assert(all_lack(ps, 38)) by {
        assert forall|i: int| 0 <= i < ps.len() implies lacks(#[trigger] ps[i], 38) by {
            if i == 0 {
                assert(ps[i] == q1);
            } else {
                assert(ps[i] == q2);
            }
        }
    }
    assert(ps.drop_first() =~= seq![q2]);
    assert(join_with(seq![q2], 38) == q2);
    assert(ps[0] == q1);
    assert(join_with(ps, 38) == params);
    lemma_split_n_join(ps, 38);
    lemma_first_index_after(ok, vo, 61);
    lemma_first_index_after(pk, vp, 61);
    assert(q1 == ok + seq![61u8] + vo);
    assert(ps.skip(1) =~= seq![q2]);
    assert(seq![q2].skip(1) =~= Seq::<Seq<u8>>::empty());
    let e = Seq::<char>::empty();
    assert(param_update(e, q1, ok) == obfs_param);
    assert(param_update(obfs_param, q2, ok) == obfs_param) by {
        assert(q2.take(10).len() != ok.len());
    }
    assert(param_update(e, q1, pk) == e) by {
        assert(q1.take(9).len() != pk.len());
    }
    assert(param_update(e, q2, pk) == protocol_param);
    assert(apply_params(e, ps, ok) == apply_params(obfs_param, seq![q2], ok));
    assert(apply_params(obfs_param, seq![q2], ok) == apply_params(obfs_param, Seq::<Seq<u8>>::empty(), ok));
    assert(apply_params(e, ps, pk) == apply_params(e, seq![q2], pk));
    assert(apply_params(e, seq![q2], pk) == apply_params(protocol_param, Seq::<Seq<u8>>::empty(), pk));
    assert(is_ascii_bytes(params)) by {
        assert forall|k: int| 0 <= k < params.len() implies #[trigger] params[k] < 128 by {
            if k < ok.len() {
                assert(params[k] == ok[k]);
            } else if k == ok.len() {
            } else if k < q1.len() {
                assert(params[k] == vo[k - ok.len() - 1]);
            } else if k == q1.len() {
            } else if k < q1.len() + 1 + pk.len() {
                assert(params[k] == pk[k - q1.len() - 1]);
            } else if k == q1.len() + 1 + pk.len() {
            } else {
                assert(params[k] == vp[k - q1.len() - 2 - pk.len()]);
            }
        }
    }
}


/// Law of link reading: a link built from settings reads back as those settings. The link is
/// `ssr://` and the URL-safe base64 of the host, port, protocol, method and obfuscation joined
/// by `:` with the base64 of the password, followed by the base64 of the two parameters. The
/// host holds no `:`, `/` or `%`, and protocol, method and obfuscation no `:` or `/`. The
/// `lossy_decodes` premises say of `String::from_utf8_lossy` what each of its calls states,
/// for the valid UTF-8 that reading the link decodes.
pub proof fn lemma_ssr_link_roundtrip(host: Seq<char>, port: u16, protocol: Seq<char>, method: Seq<char>,
    obfs: Seq<char>, password: Seq<char>, obfs_param: Seq<char>, protocol_param: Seq<char>)
    requires
        lacks(encode_utf8(host), 58),
        lacks(encode_utf8(host), 47),
        lacks(encode_utf8(host), 37),
        lacks(encode_utf8(protocol), 58),
        lacks(encode_utf8(protocol), 47),
        lacks(encode_utf8(method), 58),
        lacks(encode_utf8(method), 47),
        lacks(encode_utf8(obfs), 58),
        lacks(encode_utf8(obfs), 47),
        lossy_decodes(ssr_link_body(host, port, protocol, method, obfs, password, obfs_param, protocol_param)),
        lossy_decodes(encode_utf8(host)),
        lossy_decodes(encode_utf8(password)),
        lossy_decodes(encode_utf8(obfs_param)),
        lossy_decodes(encode_utf8(protocol_param)),
    ensures
        link_fields(ssr_link(ssr_link_body(host, port, protocol, method, obfs, password, obfs_param, protocol_param)))
            == Some(LinkFields { host, port, protocol, method, obfs, password, protocol_param, obfs_param }),
{
    let hb = encode_utf8(host);
    let pb = encode_utf8(protocol);
    let mb = encode_utf8(method);
    let ob = encode_utf8(obfs);
    let dp = decimal(port as nat);
    let wb = url_b64_bytes(encode_utf8(password));
    let p6 = seq![hb, dp, pb, mb, ob, wb];
    let q1 = "obfsparam".spec_bytes() + seq![61u8] + url_b64_bytes(encode_utf8(obfs_param));
    let q2 = "protoparam".spec_bytes() + seq![61u8] + url_b64_bytes(encode_utf8(protocol_param));
    let params = q1 + seq![38u8] + q2;
    let rest = seq![63u8] + params;
    let base = join_with(p6, 58);
    let body = ssr_link_body(host, port, protocol, method, obfs, password, obfs_param, protocol_param);
    assert(body =~= base + seq![47u8] + rest);
    lemma_link_params(obfs_param, protocol_param);
    lemma_decimal_value(port as nat);
    lemma_url_b64_bytes(encode_utf8(password));
    vstd::utf8::encode_utf8_valid_utf8(host);
    vstd::utf8::encode_utf8_valid_utf8(protocol);
    vstd::utf8::encode_utf8_valid_utf8(method);
    vstd::utf8::encode_utf8_valid_utf8(obfs);
    vstd::utf8::encode_utf8_valid_utf8(password);
    vstd::utf8::encode_utf8_decode_utf8(host);
    vstd::utf8::encode_utf8_decode_utf8(protocol);
    vstd::utf8::encode_utf8_decode_utf8(method);
    vstd::utf8::encode_utf8_decode_utf8(obfs);
    vstd::utf8::encode_utf8_decode_utf8(password);
    // The pieces before `/` hold neither `/` nor `:`.
    assert(is_ascii_bytes(dp) && lacks(dp, 47) && lacks(dp, 58)) by {
        assert forall|k: int| 0 <= k < dp.len() implies #[trigger] dp[k] < 128 && dp[k] != 47 && dp[k] != 58 by {
            assert(48 <= dp[k] <= 57);
        }
    }
    assert(p6[0] == hb && p6[1] == dp && p6[2] == pb && p6[3] == mb && p6[4] == ob && p6[5] == wb);
    assert(all_lack(p6, 47) && all_lack(p6, 58)) by {
        assert forall|i: int| 0 <= i < p6.len() implies lacks(#[trigger] p6[i], 47) && lacks(p6[i], 58) by {
            if i == 0 {
            } else if i == 1 {
            } else if i == 2 {
            } else if i == 3 {
            } else if i == 4 {
            } else {
            }
        }
    }
    lemma_join_lacks(p6, 58, 47);
    lemma_split_n_join(p6, 58);
    lemma_first_index_after(base, rest, 47);
    assert(split_n(rest, 1, 47) == seq![rest]);
    assert(split_n(body, 2, 47) =~= seq![base, rest]);
    // The text is valid UTF-8, so reading it back as text keeps it.
    lemma_ascii_valid(dp);
    assert forall|i: int| 0 <= i < p6.len() implies valid_utf8(#[trigger] p6[i]) by {
        if i == 0 {
        } else if i == 1 {
        } else if i == 2 {
        } else if i == 3 {
        } else if i == 4 {
        } else {
        }
    }
    lemma_join_valid(p6, 58);
    assert(is_ascii_bytes(rest)) by {
        assert forall|k: int| 0 <= k < rest.len() implies #[trigger] rest[k] < 128 by {
            if k > 0 {
                assert(rest[k] == params[k - 1]);
            }
        }
    }
    lemma_ascii_valid(rest);
    lemma_ascii_valid(seq![47u8]);
    vstd::utf8::valid_utf8_concat(base, seq![47u8]);
    vstd::utf8::valid_utf8_concat(base + seq![47u8], rest);
    vstd::utf8::decode_utf8_encode_utf8(body);
    assert(encode_utf8(utf8_lossy(body)) == body);
    assert(rest.skip(1) =~= params);
    lemma_percent_plain(hb);
    assert(u16_text(dp) == Some(port)) by {
        assert(dp[0] != 43);
    }
    lemma_link_outer(body);
    lemma_url_b64_bytes(body);
}

} // verus!
