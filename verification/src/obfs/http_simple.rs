use vstd::prelude::*;
use vstd::slice::slice_to_vec;
use vstd::string::StringSliceAdditionalSpecFns;
use vstd::utf8::encode_utf8;
use crate::error::Result;
use crate::text::{decimal, push_decimal};
use super::obfs::{Obfs, ServerInfo, is_default_info, passes_through};
use super::obfsutil::rand_bytes;

verus! {

/// The host named in client requests when the server info names none.
pub open spec fn default_host() -> Seq<u8> {
    "www.baidu.com".spec_bytes()
}

/// The user agent picked by `choice`.
pub open spec fn user_agent(choice: u8) -> Seq<u8> {
    if choice % 4 == 0 {
        "Mozilla/5.0 (Windows NT 10.0; Win64; x64) AppleWebKit/537.36".spec_bytes()
    } else if choice % 4 == 1 {
        "Mozilla/5.0 (Windows NT 6.1; WOW64) AppleWebKit/537.36".spec_bytes()
    } else if choice % 4 == 2 {
        "Mozilla/5.0 (Macintosh; Intel Mac OS X 10_12_6) AppleWebKit/537.36".spec_bytes()
    } else {
        "Mozilla/5.0 (iPhone; CPU iPhone OS 12_0 like Mac OS X) AppleWebKit/537.36".spec_bytes()
    }
}

/// The HTTP header put in front of `data_len` bytes: a response header on the server side,
/// a GET or POST request to `host` (or the default host when empty) on the client side.
pub open spec fn spec_http_header(host: Seq<u8>, data_len: nat, is_post: bool, is_server: bool, choice: u8) -> Seq<u8> {
    if is_server {
        "HTTP/1.1 200 OK\r\nContent-Length: ".spec_bytes() + decimal(data_len)
            + "\r\nContent-Type: application/octet-stream\r\nConnection: keep-alive\r\n\r\n".spec_bytes()
    } else {
        (if is_post { "POST".spec_bytes() } else { "GET".spec_bytes() })
            + " /udp151df/ HTTP/1.1\r\nHost: ".spec_bytes()
            + (if host.len() == 0 { default_host() } else { host })
            + "\r\nUser-Agent: ".spec_bytes() + user_agent(choice)
            + "\r\nAccept: text/html,application/xhtml+xml,application/xml;q=0.9,*/*;q=0.8\r\nAccept-Language: en-US,en;q=0.8\r\nAccept-Encoding: gzip, deflate\r\nConnection: keep-alive\r\nContent-Length: ".spec_bytes()
            + decimal(data_len) + "\r\n\r\n".spec_bytes()
    }
}

/// Builds the HTTP header for `data_len` bytes with the user agent picked by `choice`.
pub fn generate_http_header_with(host: &str, data_len: usize, is_post: bool, is_server: bool, choice: u8) -> (r: Vec<u8>)
    ensures
        r@ == spec_http_header(host.spec_bytes(), data_len as nat, is_post, is_server, choice),
{
    let mut out: Vec<u8> = Vec::new();
    if is_server {
        out.extend_from_slice("HTTP/1.1 200 OK\r\nContent-Length: ".as_bytes());
        push_decimal(&mut out, data_len);
        out.extend_from_slice("\r\nContent-Type: application/octet-stream\r\nConnection: keep-alive\r\n\r\n".as_bytes());
    } else {
        let method = if is_post { "POST" } else { "GET" };
        out.extend_from_slice(method.as_bytes());
        out.extend_from_slice(" /udp151df/ HTTP/1.1\r\nHost: ".as_bytes());
        let hb = host.as_bytes();
        if hb.len() == 0 {
            out.extend_from_slice("www.baidu.com".as_bytes());
        } else {
            out.extend_from_slice(hb);
        }
        out.extend_from_slice("\r\nUser-Agent: ".as_bytes());
        let ua = if choice % 4 == 0 {
            "Mozilla/5.0 (Windows NT 10.0; Win64; x64) AppleWebKit/537.36"
        } else if choice % 4 == 1 {
            "Mozilla/5.0 (Windows NT 6.1; WOW64) AppleWebKit/537.36"
        } else if choice % 4 == 2 {
            "Mozilla/5.0 (Macintosh; Intel Mac OS X 10_12_6) AppleWebKit/537.36"
        } else {
            "Mozilla/5.0 (iPhone; CPU iPhone OS 12_0 like Mac OS X) AppleWebKit/537.36"
        };
        out.extend_from_slice(ua.as_bytes());
        out.extend_from_slice("\r\nAccept: text/html,application/xhtml+xml,application/xml;q=0.9,*/*;q=0.8\r\nAccept-Language: en-US,en;q=0.8\r\nAccept-Encoding: gzip, deflate\r\nConnection: keep-alive\r\nContent-Length: ".as_bytes());
        push_decimal(&mut out, data_len);
        out.extend_from_slice("\r\n\r\n".as_bytes());
    }
    assert(out@ =~= spec_http_header(host.spec_bytes(), data_len as nat, is_post, is_server, choice));
    out
}

/// Builds the HTTP header for `data_len` bytes; client requests carry a randomly picked
/// user agent.
fn generate_http_header(host: &str, data_len: usize, is_post: bool, is_server: bool) -> (r: Vec<u8>)
    ensures
        exists|choice: u8| r@ == spec_http_header(host.spec_bytes(), data_len as nat, is_post, is_server, choice),
{
    let choice = rand_bytes(1)[0];
    generate_http_header_with(host, data_len, is_post, is_server, choice)
}

/// Whether `d[p..p + 4]` is an empty line ending a header block.
pub open spec fn blank_line_at(d: Seq<u8>, p: int) -> bool {
    0 <= p && p + 4 <= d.len() && d[p] == 13 && d[p + 1] == 10 && d[p + 2] == 13 && d[p + 3] == 10
}

/// Position just after the first blank line (`\r\n\r\n`) in `data`.
fn find_http_header_end(data: &[u8]) -> (r: Option<usize>)
    ensures
        match r {
            Some(e) => blank_line_at(data@, e - 4) && forall|q: int| 0 <= q < e - 4 ==> !blank_line_at(data@, q),
            None => forall|q: int| !blank_line_at(data@, q),
        },
{
    if data.len() < 4 {
        return None;
    }
    let last: usize = data.len() - 3;
    let mut p: usize = 0;
    while p < last
        invariant
            p <= last,
            last + 3 == data@.len(),
            forall|q: int| 0 <= q < p ==> !blank_line_at(data@, q),
        decreases last - p,
    {
        if data[p] == 13 && data[p + 1] == 10 && data[p + 2] == 13 && data[p + 3] == 10 {
            return Some(p + 4);
        }
        p = p + 1;
    }
    None
}

/// What a decoder hands out for `buf` once `data` was appended: the body after the header
/// and an emptied buffer, or nothing yet and the grown buffer.
pub open spec fn http_decode(buf: Seq<u8>, data: Seq<u8>) -> (Seq<u8>, Seq<u8>) {
    let b = buf + data;
    if exists|p: int| blank_line_at(b, p) {
        let p = choose|p: int| blank_line_at(b, p) && forall|q: int| 0 <= q < p ==> !blank_line_at(b, q);
        (b.skip(p + 4), Seq::empty())
    } else {
        (Seq::empty(), b)
    }
}

/// Mathematical state of an HTTP obfuscator.
pub struct HttpModel {
    pub info: ServerInfo,
    pub buffer: Seq<u8>,
    pub is_first: bool,
}

proof fn lemma_first_blank(b: Seq<u8>, e: int)
    requires
        blank_line_at(b, e - 4),
        forall|q: int| 0 <= q < e - 4 ==> !blank_line_at(b, q),
    ensures
        http_decode(Seq::empty(), b) == (b.skip(e), Seq::<u8>::empty()),
{
    assert(Seq::<u8>::empty() + b =~= b);
    let p = choose|p: int| blank_line_at(b, p) && forall|q: int| 0 <= q < p ==> !blank_line_at(b, q);
    assert(p == e - 4) by {
        if p < e - 4 {
        } else if p > e - 4 {
            assert(!blank_line_at(b, e - 4));
        }
    }
}

/// No blank line (`\r\n\r\n`) starts anywhere in `s`.
pub open spec fn no_blank_line(s: Seq<u8>) -> bool {
    forall|q: int| !#[trigger] blank_line_at(s, q)
}

/// Every carriage return of `s` has two more bytes after it, the second of which is not a
/// carriage return.
spec fn cr_safe(s: Seq<u8>) -> bool {
    forall|p: int| 0 <= p < s.len() && #[trigger] s[p] == 13 ==> p + 2 < s.len() && s[p + 2] != 13
}

proof fn lemma_cr_safe_no_blank(s: Seq<u8>)
    requires
        cr_safe(s),
    ensures
        no_blank_line(s),
{
    assert forall|q: int| !#[trigger] blank_line_at(s, q) by {
        if blank_line_at(s, q) {
            assert(s[q] == 13);
        }
    }
}

proof fn lemma_cr_safe_concat(a: Seq<u8>, b: Seq<u8>)
    requires
        cr_safe(a),
        cr_safe(b),
    ensures
        cr_safe(a + b),
{
    let s = a + b;
    assert forall|p: int| 0 <= p < s.len() && #[trigger] s[p] == 13 implies p + 2 < s.len() && s[p + 2] != 13 by {
        if p < a.len() {
            assert(a[p] == 13);
        } else {
            assert(b[p - a.len()] == 13);
        }
    }
}

/// Joining two pieces without blank lines makes none when a byte at the seam is neither
/// a carriage return nor a line feed.
proof fn lemma_no_blank_join(x: Seq<u8>, y: Seq<u8>)
    requires
        no_blank_line(x),
        no_blank_line(y),
        (x.len() > 0 && x.last() != 13 && x.last() != 10) || (y.len() > 0 && y[0] != 13 && y[0] != 10),
    ensures
        no_blank_line(x + y),
{
    let s = x + y;
    assert forall|q: int| !#[trigger] blank_line_at(s, q) by {
        if blank_line_at(s, q) {
            if q + 4 <= x.len() {
                assert(blank_line_at(x, q));
            } else if q >= x.len() {
                assert(blank_line_at(y, q - x.len()));
            } else {
                if x.len() > 0 && x.last() != 13 && x.last() != 10 {
                    let k = x.len() - 1 - q;
                    assert(s[q + k] == x.last());
                } else {
                    let k = x.len() - q;
                    assert(s[q + k] == y[0]);
                }
            }
        }
    }
}

proof fn lemma_decimal_digits(n: nat)
    ensures
        decimal(n).len() >= 1,
        forall|i: int| 0 <= i < decimal(n).len() ==> 48 <= #[trigger] decimal(n)[i] <= 57,
    decreases n,
{
    if n >= 10 {
        lemma_decimal_digits(n / 10);
    }
}

/// A sequence of digits has no carriage return.
proof fn lemma_decimal_cr_safe(n: nat)
    ensures
        cr_safe(decimal(n)),
        decimal(n).len() >= 1,
        48 <= decimal(n).last() <= 57,
{
    lemma_decimal_digits(n);
    let d = decimal(n);
    assert forall|p: int| 0 <= p < d.len() && #[trigger] d[p] == 13 implies p + 2 < d.len() && d[p + 2] != 13 by {
        assert(48 <= d[p]);
    }
    assert(d.last() == d[d.len() - 1]);
}

proof fn lemma_user_agent_cr_safe(choice: u8)
    ensures
        cr_safe(user_agent(choice)),
{
    reveal_strlit("Mozilla/5.0 (Windows NT 10.0; Win64; x64) AppleWebKit/537.36");
    reveal_strlit("Mozilla/5.0 (Windows NT 6.1; WOW64) AppleWebKit/537.36");
    reveal_strlit("Mozilla/5.0 (Macintosh; Intel Mac OS X 10_12_6) AppleWebKit/537.36");
    reveal_strlit("Mozilla/5.0 (iPhone; CPU iPhone OS 12_0 like Mac OS X) AppleWebKit/537.36");
    assert(vstd::string::is_ascii("Mozilla/5.0 (Windows NT 10.0; Win64; x64) AppleWebKit/537.36"));
    assert(vstd::string::is_ascii("Mozilla/5.0 (Windows NT 6.1; WOW64) AppleWebKit/537.36"));
    assert(vstd::string::is_ascii("Mozilla/5.0 (Macintosh; Intel Mac OS X 10_12_6) AppleWebKit/537.36"));
    assert(vstd::string::is_ascii("Mozilla/5.0 (iPhone; CPU iPhone OS 12_0 like Mac OS X) AppleWebKit/537.36"));
}

/// The header minus its final blank line has no blank line, and its last byte is neither a
/// carriage return nor a line feed.
#[verifier::spinoff_prover]
#[verifier::rlimit(40)]
proof fn lemma_header_body(host: Seq<u8>, n: nat, is_post: bool, is_server: bool, choice: u8)
    requires
        is_server || host.len() == 0 || no_blank_line(host + seq![13u8, 10u8]),
    ensures
        ({
            let h = spec_http_header(host, n, is_post, is_server, choice);
            &&& h.len() >= 5
            &&& no_blank_line(h.take(h.len() - 4))
            &&& h.skip(h.len() - 4) == seq![13u8, 10u8, 13u8, 10u8]
            &&& h[h.len() - 5] != 13 && h[h.len() - 5] != 10
        }),
{
    lemma_decimal_cr_safe(n);
    let dn = decimal(n);
    if is_server {
        let a = "HTTP/1.1 200 OK\r\nContent-Length: ".spec_bytes();
        let b = "\r\nContent-Type: application/octet-stream\r\nConnection: keep-alive\r\n\r\n".spec_bytes();
        reveal_strlit("HTTP/1.1 200 OK\r\nContent-Length: ");
        reveal_strlit("\r\nContent-Type: application/octet-stream\r\nConnection: keep-alive\r\n\r\n");
        assert(vstd::string::is_ascii("HTTP/1.1 200 OK\r\nContent-Length: "));
        assert(vstd::string::is_ascii("\r\nContent-Type: application/octet-stream\r\nConnection: keep-alive\r\n\r\n"));
        let b1 = b.take(b.len() - 4);
        assert(cr_safe(a));
        assert(cr_safe(b1));
        lemma_cr_safe_concat(a, dn);
        lemma_cr_safe_concat(a + dn, b1);
        let h = spec_http_header(host, n, is_post, is_server, choice);
        assert(h == a + dn + b);
        assert(h.take(h.len() - 4) =~= a + dn + b1);
        lemma_cr_safe_no_blank(a + dn + b1);
        assert(h.skip(h.len() - 4) =~= seq![13u8, 10u8, 13u8, 10u8]);
        assert(h[h.len() - 5] == b1.last());
    } else {
        let m = if is_post { "POST".spec_bytes() } else { "GET".spec_bytes() };
        let l1 = " /udp151df/ HTTP/1.1\r\nHost: ".spec_bytes();
        let hh = if host.len() == 0 { default_host() } else { host };
        let l2 = "\r\nUser-Agent: ".spec_bytes();
        let ua = user_agent(choice);
        let l3 = "\r\nAccept: text/html,application/xhtml+xml,application/xml;q=0.9,*/*;q=0.8\r\nAccept-Language: en-US,en;q=0.8\r\nAccept-Encoding: gzip, deflate\r\nConnection: keep-alive\r\nContent-Length: ".spec_bytes();
        let l4 = "\r\n\r\n".spec_bytes();
        reveal_strlit("POST");
        reveal_strlit("GET");
        reveal_strlit(" /udp151df/ HTTP/1.1\r\nHost: ");
        reveal_strlit("\r\nUser-Agent: ");
        reveal_strlit("\r\nAccept: text/html,application/xhtml+xml,application/xml;q=0.9,*/*;q=0.8\r\nAccept-Language: en-US,en;q=0.8\r\nAccept-Encoding: gzip, deflate\r\nConnection: keep-alive\r\nContent-Length: ");
        reveal_strlit("\r\n\r\n");
        reveal_strlit("www.baidu.com");
        assert(vstd::string::is_ascii("POST"));
        assert(vstd::string::is_ascii("GET"));
        assert(vstd::string::is_ascii(" /udp151df/ HTTP/1.1\r\nHost: "));
        assert(vstd::string::is_ascii("\r\nUser-Agent: "));
        assert(vstd::string::is_ascii("\r\nAccept: text/html,application/xhtml+xml,application/xml;q=0.9,*/*;q=0.8\r\nAccept-Language: en-US,en;q=0.8\r\nAccept-Encoding: gzip, deflate\r\nConnection: keep-alive\r\nContent-Length: "));
        assert(vstd::string::is_ascii("\r\n\r\n"));
        assert(vstd::string::is_ascii("www.baidu.com"));
        // The request line and the host field name.
        let x1 = m + l1;
        assert(cr_safe(m));
        assert(cr_safe(l1));
        lemma_cr_safe_concat(m, l1);
        lemma_cr_safe_no_blank(x1);
        assert(x1.last() == 32);
        // The host and the line break after it.
        let crlf = seq![13u8, 10u8];
        let x2 = hh + crlf;
        if host.len() == 0 {
            let d = default_host();
            assert forall|q: int| !#[trigger] blank_line_at(d + crlf, q) by {
                if blank_line_at(d + crlf, q) {
                    assert((d + crlf)[q] == 13);
                    assert(q >= d.len());
                }
            }
        }
        lemma_no_blank_join(x1, x2);
        // The remaining fields up to the length's value.
        let x3 = l2.skip(2) + ua + l3;
        assert(l2 =~= crlf + l2.skip(2));
        assert(cr_safe(l2.skip(2)));
        assert(cr_safe(l3));
        lemma_user_agent_cr_safe(choice);
        lemma_cr_safe_concat(l2.skip(2), ua);
        lemma_cr_safe_concat(l2.skip(2) + ua, l3);
        lemma_cr_safe_no_blank(x3);
        assert(x3[0] == 85);
        lemma_no_blank_join(x1 + x2, x3);
        lemma_cr_safe_no_blank(dn);
        lemma_no_blank_join(x1 + x2 + x3, dn);
        let p = x1 + x2 + x3 + dn;
        let h = spec_http_header(host, n, is_post, is_server, choice);
        assert(h =~= p + l4);
        assert(h.take(h.len() - 4) =~= p);
        assert(h.skip(h.len() - 4) =~= seq![13u8, 10u8, 13u8, 10u8]);
        assert(h[h.len() - 5] == dn.last());
    }
}

/// A header whose only blank line ends it, and whose byte before that line is neither a
/// carriage return nor a line feed, is taken off whatever data follows it.
proof fn lemma_strip_header(h: Seq<u8>, d: Seq<u8>)
    requires
        h.len() >= 5,
        no_blank_line(h.take(h.len() - 4)),
        h.skip(h.len() - 4) == seq![13u8, 10u8, 13u8, 10u8],
        h[h.len() - 5] != 13 && h[h.len() - 5] != 10,
    ensures
        http_decode(Seq::empty(), h + d) == (d, Seq::<u8>::empty()),
{
    let b = h + d;
    let e = h.len() as int;
    let p = h.take(e - 4);
    assert(h[e - 4] == h.skip(e - 4)[0] && h[e - 3] == h.skip(e - 4)[1]);
    assert(h[e - 2] == h.skip(e - 4)[2] && h[e - 1] == h.skip(e - 4)[3]);
    assert(blank_line_at(b, e - 4));
    assert forall|q: int| 0 <= q < e - 4 implies !blank_line_at(b, q) by {
        if blank_line_at(b, q) {
            if q + 4 <= e - 4 {
                assert(blank_line_at(p, q));
            } else {
                let k = e - 5 - q;
                assert(b[q + k] == h[e - 5]);
            }
        }
    }
    lemma_first_blank(b, e);
    assert(b.skip(e) =~= d);
}

/// Law of the HTTP framing: a decoder with nothing buffered hands back exactly the data that
/// follows a generated header, and keeps nothing. Only a client header whose host, followed
/// by a line break, holds a blank line breaks it (the decoder then stops at that line).
pub proof fn lemma_http_frame_roundtrip(host: Seq<u8>, d: Seq<u8>, is_post: bool, is_server: bool, choice: u8)
    requires
        is_server || host.len() == 0 || no_blank_line(host + seq![13u8, 10u8]),
    ensures
        http_decode(Seq::empty(), spec_http_header(host, d.len(), is_post, is_server, choice) + d)
            == (d, Seq::<u8>::empty()),
{
    lemma_header_body(host, d.len(), is_post, is_server, choice);
    lemma_strip_header(spec_http_header(host, d.len(), is_post, is_server, choice), d);
}

/// Appends `data` to `buffer` and takes out the body once the header is complete.
fn take_body(buffer: &mut Vec<u8>, data: &[u8]) -> (r: Vec<u8>)
    ensures
        (r@, final(buffer)@) == http_decode(old(buffer)@, data@),
{
    buffer.extend_from_slice(data);
    let ghost b = buffer@;
    assert(b =~= old(buffer)@ + data@);
    match find_http_header_end(buffer.as_slice()) {
        Some(pos) => {
            let body = slice_to_vec(&buffer[pos..buffer.len()]);
            assert(body@ =~= b.skip(pos as int));
            *buffer = Vec::new();
            proof {
                lemma_first_blank(b, pos as int);
                assert(Seq::<u8>::empty() + b =~= b);
            }
            body
        },
        None => {
            Vec::new()
        },
    }
}

/// `header` followed by `data`.
fn join(header: Vec<u8>, data: &[u8]) -> (r: Vec<u8>)
    ensures
        r@ == header@ + data@,
{
    let mut out = header;
    out.extend_from_slice(data);
    out
}


/// Whether the next client request of an `http_mix` obfuscator in state `m` is a POST:
/// every request but the first.
pub open spec fn sends_post(m: HttpModel) -> bool {
    !m.is_first
}
/// The `http_simple` obfuscator: traffic framed as HTTP requests and responses.
pub struct HttpSimple {
    server_info: ServerInfo,
    buffer: Vec<u8>,
}

impl View for HttpSimple {
    type V = HttpModel;

    closed spec fn view(&self) -> HttpModel {
        HttpModel { info: self.server_info, buffer: self.buffer@, is_first: false }
    }
}

impl HttpSimple {
    pub fn new() -> (r: Self)
        ensures
            is_default_info(r@.info),
            r@.buffer == Seq::<u8>::empty(),
            r@.is_first == false,
    {
        HttpSimple { server_info: ServerInfo::default(), buffer: Vec::new() }
    }
}

impl Obfs for HttpSimple {
    open spec fn client_decode_pre(&self, data: Seq<u8>) -> bool {
        true
    }

    open spec fn server_decode_pre(&self, data: Seq<u8>) -> bool {
        true
    }

    fn name(&self) -> (r: &str)
        ensures
            r@ == "http_simple"@,
    {
        "http_simple"
    }

    fn client_pre_encrypt(&mut self, data: &[u8]) -> (r: Result<Vec<u8>>)
        ensures
            passes_through(data@, r),
            final(self)@ == old(self)@,
    {
        Ok(slice_to_vec(data))
    }

    fn client_post_decrypt(&mut self, data: &[u8]) -> (r: Result<Vec<u8>>)
        ensures
            passes_through(data@, r),
            final(self)@ == old(self)@,
    {
        Ok(slice_to_vec(data))
    }

    fn server_pre_encrypt(&mut self, data: &[u8]) -> (r: Result<Vec<u8>>)
        ensures
            passes_through(data@, r),
            final(self)@ == old(self)@,
    {
        Ok(slice_to_vec(data))
    }

    fn server_post_decrypt(&mut self, data: &[u8]) -> (r: Result<Vec<u8>>)
        ensures
            passes_through(data@, r),
            final(self)@ == old(self)@,
    {
        Ok(slice_to_vec(data))
    }

    fn client_encode(&mut self, data: &[u8]) -> (r: Result<Vec<u8>>)
        ensures
            r matches Ok(v) && exists|choice: u8| v@ == #[trigger] spec_http_header(encode_utf8(old(self)@.info.host@), data@.len(), false, false, choice) + data@,
            final(self)@ == old(self)@,
    {
        let is_post = false;
        let host = self.server_info.host.as_str();
        let header = generate_http_header(host, data.len(), is_post, false);
        proof {
            let c = choose|c: u8| header@ == spec_http_header(host.spec_bytes(), data@.len(), is_post, false, c);
            assert(header@ + data@ == spec_http_header(encode_utf8(old(self)@.info.host@), data@.len(), false, false, c) + data@);
        }
        Ok(join(header, data))
    }

    fn client_decode(&mut self, data: &[u8]) -> (r: Result<Vec<u8>>)
        ensures
            r matches Ok(v) && (v@, final(self)@.buffer) == http_decode(old(self)@.buffer, data@),
            final(self)@.info == old(self)@.info,
            final(self)@.is_first == old(self)@.is_first,
    {
        Ok(take_body(&mut self.buffer, data))
    }

    fn server_encode(&mut self, data: &[u8]) -> (r: Result<Vec<u8>>)
        ensures
            r matches Ok(v) && exists|choice: u8| v@ == #[trigger] spec_http_header(Seq::empty(), data@.len(), false, true, choice) + data@,
            final(self)@ == old(self)@,
    {
        let header = generate_http_header("", data.len(), false, true);
        proof {
            let c = choose|c: u8| header@ == spec_http_header("".spec_bytes(), data@.len(), false, true, c);
            assert(header@ + data@ == spec_http_header(Seq::empty(), data@.len(), false, true, c) + data@);
        }
        Ok(join(header, data))
    }

    fn server_decode(&mut self, data: &[u8]) -> (r: Result<Vec<u8>>)
        ensures
            r matches Ok(v) && (v@, final(self)@.buffer) == http_decode(old(self)@.buffer, data@),
            final(self)@.info == old(self)@.info,
            final(self)@.is_first == old(self)@.is_first,
    {
        Ok(take_body(&mut self.buffer, data))
    }

    fn set_server_info(&mut self, info: ServerInfo)
        ensures
            final(self)@ == (HttpModel { info: info, ..old(self)@ }),
    {
        self.server_info = info;
    }

    fn get_server_info(&self) -> (r: &ServerInfo)
        ensures
            *r == self@.info,
    {
        &self.server_info
    }

    fn dispose(&mut self)
        ensures
            final(self)@ == (HttpModel { buffer: Seq::empty(), ..old(self)@ }),
    {
        self.buffer.clear();
    }
}

/// The `http_post` obfuscator: traffic framed as HTTP requests and responses.
pub struct HttpPost {
    server_info: ServerInfo,
    buffer: Vec<u8>,
}

impl View for HttpPost {
    type V = HttpModel;

    closed spec fn view(&self) -> HttpModel {
        HttpModel { info: self.server_info, buffer: self.buffer@, is_first: false }
    }
}

impl HttpPost {
    pub fn new() -> (r: Self)
        ensures
            is_default_info(r@.info),
            r@.buffer == Seq::<u8>::empty(),
            r@.is_first == false,
    {
        HttpPost { server_info: ServerInfo::default(), buffer: Vec::new() }
    }
}

impl Obfs for HttpPost {
    open spec fn client_decode_pre(&self, data: Seq<u8>) -> bool {
        true
    }

    open spec fn server_decode_pre(&self, data: Seq<u8>) -> bool {
        true
    }

    fn name(&self) -> (r: &str)
        ensures
            r@ == "http_post"@,
    {
        "http_post"
    }

    fn client_pre_encrypt(&mut self, data: &[u8]) -> (r: Result<Vec<u8>>)
        ensures
            passes_through(data@, r),
            final(self)@ == old(self)@,
    {
        Ok(slice_to_vec(data))
    }

    fn client_post_decrypt(&mut self, data: &[u8]) -> (r: Result<Vec<u8>>)
        ensures
            passes_through(data@, r),
            final(self)@ == old(self)@,
    {
        Ok(slice_to_vec(data))
    }

    fn server_pre_encrypt(&mut self, data: &[u8]) -> (r: Result<Vec<u8>>)
        ensures
            passes_through(data@, r),
            final(self)@ == old(self)@,
    {
        Ok(slice_to_vec(data))
    }

    fn server_post_decrypt(&mut self, data: &[u8]) -> (r: Result<Vec<u8>>)
        ensures
            passes_through(data@, r),
            final(self)@ == old(self)@,
    {
        Ok(slice_to_vec(data))
    }

    fn client_encode(&mut self, data: &[u8]) -> (r: Result<Vec<u8>>)
        ensures
            r matches Ok(v) && exists|choice: u8| v@ == #[trigger] spec_http_header(encode_utf8(old(self)@.info.host@), data@.len(), true, false, choice) + data@,
            final(self)@ == old(self)@,
    {
        let is_post = true;
        let host = self.server_info.host.as_str();
        let header = generate_http_header(host, data.len(), is_post, false);
        proof {
            let c = choose|c: u8| header@ == spec_http_header(host.spec_bytes(), data@.len(), is_post, false, c);
            assert(header@ + data@ == spec_http_header(encode_utf8(old(self)@.info.host@), data@.len(), true, false, c) + data@);
        }
        Ok(join(header, data))
    }

    fn client_decode(&mut self, data: &[u8]) -> (r: Result<Vec<u8>>)
        ensures
            r matches Ok(v) && (v@, final(self)@.buffer) == http_decode(old(self)@.buffer, data@),
            final(self)@.info == old(self)@.info,
            final(self)@.is_first == old(self)@.is_first,
    {
        Ok(take_body(&mut self.buffer, data))
    }

    fn server_encode(&mut self, data: &[u8]) -> (r: Result<Vec<u8>>)
        ensures
            r matches Ok(v) && exists|choice: u8| v@ == #[trigger] spec_http_header(Seq::empty(), data@.len(), false, true, choice) + data@,
            final(self)@ == old(self)@,
    {
        let header = generate_http_header("", data.len(), false, true);
        proof {
            let c = choose|c: u8| header@ == spec_http_header("".spec_bytes(), data@.len(), false, true, c);
            assert(header@ + data@ == spec_http_header(Seq::empty(), data@.len(), false, true, c) + data@);
        }
        Ok(join(header, data))
    }

    fn server_decode(&mut self, data: &[u8]) -> (r: Result<Vec<u8>>)
        ensures
            r matches Ok(v) && (v@, final(self)@.buffer) == http_decode(old(self)@.buffer, data@),
            final(self)@.info == old(self)@.info,
            final(self)@.is_first == old(self)@.is_first,
    {
        Ok(take_body(&mut self.buffer, data))
    }

    fn set_server_info(&mut self, info: ServerInfo)
        ensures
            final(self)@ == (HttpModel { info: info, ..old(self)@ }),
    {
        self.server_info = info;
    }

    fn get_server_info(&self) -> (r: &ServerInfo)
        ensures
            *r == self@.info,
    {
        &self.server_info
    }

    fn dispose(&mut self)
        ensures
            final(self)@ == (HttpModel { buffer: Seq::empty(), ..old(self)@ }),
    {
        self.buffer.clear();
    }
}

/// The `http_mix` obfuscator: traffic framed as HTTP requests and responses.
pub struct HttpMix {
    server_info: ServerInfo,
    buffer: Vec<u8>,
    is_first: bool,
}

impl View for HttpMix {
    type V = HttpModel;

    closed spec fn view(&self) -> HttpModel {
        HttpModel { info: self.server_info, buffer: self.buffer@, is_first: self.is_first }
    }
}

impl HttpMix {
    pub fn new() -> (r: Self)
        ensures
            is_default_info(r@.info),
            r@.buffer == Seq::<u8>::empty(),
            r@.is_first == true,
    {
        HttpMix { server_info: ServerInfo::default(), buffer: Vec::new(), is_first: true }
    }
}

impl Obfs for HttpMix {
    open spec fn client_decode_pre(&self, data: Seq<u8>) -> bool {
        true
    }

    open spec fn server_decode_pre(&self, data: Seq<u8>) -> bool {
        true
    }

    fn name(&self) -> (r: &str)
        ensures
            r@ == "http_mix"@,
    {
        "http_mix"
    }

    fn client_pre_encrypt(&mut self, data: &[u8]) -> (r: Result<Vec<u8>>)
        ensures
            passes_through(data@, r),
            final(self)@ == old(self)@,
    {
        Ok(slice_to_vec(data))
    }

    fn client_post_decrypt(&mut self, data: &[u8]) -> (r: Result<Vec<u8>>)
        ensures
            passes_through(data@, r),
            final(self)@ == old(self)@,
    {
        Ok(slice_to_vec(data))
    }

    fn server_pre_encrypt(&mut self, data: &[u8]) -> (r: Result<Vec<u8>>)
        ensures
            passes_through(data@, r),
            final(self)@ == old(self)@,
    {
        Ok(slice_to_vec(data))
    }

    fn server_post_decrypt(&mut self, data: &[u8]) -> (r: Result<Vec<u8>>)
        ensures
            passes_through(data@, r),
            final(self)@ == old(self)@,
    {
        Ok(slice_to_vec(data))
    }

    fn client_encode(&mut self, data: &[u8]) -> (r: Result<Vec<u8>>)
        ensures
            r matches Ok(v) && exists|choice: u8| v@ == #[trigger] spec_http_header(encode_utf8(old(self)@.info.host@), data@.len(), sends_post(old(self)@), false, choice) + data@,
            final(self)@ == (HttpModel { is_first: false, ..old(self)@ }),
    {
        let is_post = !self.is_first;
        let host = self.server_info.host.as_str();
        let header = generate_http_header(host, data.len(), is_post, false);
        proof {
            let c = choose|c: u8| header@ == spec_http_header(host.spec_bytes(), data@.len(), is_post, false, c);
            assert(header@ + data@ == spec_http_header(encode_utf8(old(self)@.info.host@), data@.len(), sends_post(old(self)@), false, c) + data@);
        }
        self.is_first = false;
        Ok(join(header, data))
    }

    fn client_decode(&mut self, data: &[u8]) -> (r: Result<Vec<u8>>)
        ensures
            r matches Ok(v) && (v@, final(self)@.buffer) == http_decode(old(self)@.buffer, data@),
            final(self)@.info == old(self)@.info,
            final(self)@.is_first == old(self)@.is_first,
    {
        Ok(take_body(&mut self.buffer, data))
    }

    fn server_encode(&mut self, data: &[u8]) -> (r: Result<Vec<u8>>)
        ensures
            r matches Ok(v) && exists|choice: u8| v@ == #[trigger] spec_http_header(Seq::empty(), data@.len(), false, true, choice) + data@,
            final(self)@ == old(self)@,
    {
        let header = generate_http_header("", data.len(), false, true);
        proof {
            let c = choose|c: u8| header@ == spec_http_header("".spec_bytes(), data@.len(), false, true, c);
            assert(header@ + data@ == spec_http_header(Seq::empty(), data@.len(), false, true, c) + data@);
        }
        Ok(join(header, data))
    }

    fn server_decode(&mut self, data: &[u8]) -> (r: Result<Vec<u8>>)
        ensures
            r matches Ok(v) && (v@, final(self)@.buffer) == http_decode(old(self)@.buffer, data@),
            final(self)@.info == old(self)@.info,
            final(self)@.is_first == old(self)@.is_first,
    {
        Ok(take_body(&mut self.buffer, data))
    }

    fn set_server_info(&mut self, info: ServerInfo)
        ensures
            final(self)@ == (HttpModel { info: info, ..old(self)@ }),
    {
        self.server_info = info;
    }

    fn get_server_info(&self) -> (r: &ServerInfo)
        ensures
            *r == self@.info,
    {
        &self.server_info
    }

    fn dispose(&mut self)
        ensures
            final(self)@ == (HttpModel { buffer: Seq::empty(), ..old(self)@ }),
    {
        self.buffer.clear();
    }
}

/// The `plain` plugin: every stage hands its input through unchanged.
pub struct Plain {
    server_info: ServerInfo,
}

impl Plain {
    /// The settings this plugin was given.
    pub closed spec fn info(&self) -> ServerInfo {
        self.server_info
    }

    pub fn new() -> (r: Self)
        ensures
            is_default_info(r.info()),
    {
        Plain { server_info: ServerInfo::default() }
    }
}

impl Obfs for Plain {
    open spec fn client_decode_pre(&self, data: Seq<u8>) -> bool {
        true
    }

    open spec fn server_decode_pre(&self, data: Seq<u8>) -> bool {
        true
    }

    fn name(&self) -> (r: &str)
        ensures
            r@ == "plain"@,
    {
        "plain"
    }

    fn client_pre_encrypt(&mut self, data: &[u8]) -> (r: Result<Vec<u8>>)
        ensures
            passes_through(data@, r),
            final(self).info() == old(self).info(),
    {
        Ok(slice_to_vec(data))
    }

    fn client_post_decrypt(&mut self, data: &[u8]) -> (r: Result<Vec<u8>>)
        ensures
            passes_through(data@, r),
            final(self).info() == old(self).info(),
    {
        Ok(slice_to_vec(data))
    }

    fn server_pre_encrypt(&mut self, data: &[u8]) -> (r: Result<Vec<u8>>)
        ensures
            passes_through(data@, r),
            final(self).info() == old(self).info(),
    {
        Ok(slice_to_vec(data))
    }

    fn server_post_decrypt(&mut self, data: &[u8]) -> (r: Result<Vec<u8>>)
        ensures
            passes_through(data@, r),
            final(self).info() == old(self).info(),
    {
        Ok(slice_to_vec(data))
    }

    fn client_encode(&mut self, data: &[u8]) -> (r: Result<Vec<u8>>)
        ensures
            passes_through(data@, r),
            final(self).info() == old(self).info(),
    {
        Ok(slice_to_vec(data))
    }

    fn client_decode(&mut self, data: &[u8]) -> (r: Result<Vec<u8>>)
        ensures
            passes_through(data@, r),
            final(self).info() == old(self).info(),
    {
        Ok(slice_to_vec(data))
    }

    fn server_encode(&mut self, data: &[u8]) -> (r: Result<Vec<u8>>)
        ensures
            passes_through(data@, r),
            final(self).info() == old(self).info(),
    {
        Ok(slice_to_vec(data))
    }

    fn server_decode(&mut self, data: &[u8]) -> (r: Result<Vec<u8>>)
        ensures
            passes_through(data@, r),
            final(self).info() == old(self).info(),
    {
        Ok(slice_to_vec(data))
    }

    fn set_server_info(&mut self, info: ServerInfo)
        ensures
            final(self).info() == info,
    {
        self.server_info = info;
    }

    fn get_server_info(&self) -> (r: &ServerInfo)
        ensures
            *r == self.info(),
    {
        &self.server_info
    }

    fn dispose(&mut self)
        ensures
            final(self).info() == old(self).info(),
    {
    }
}

} // verus!
