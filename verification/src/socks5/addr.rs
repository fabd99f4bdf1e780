use vstd::prelude::*;
use vstd::utf8::encode_utf8;
use vstd::string::{StringSliceAdditionalSpecFns, StringExecFns};
use crate::error::{Error, Result, msg};
use crate::bytes::{be_u16, be_bytes_u16, u16_to_be, u16_from_be};
use crate::text::{ascii_chars, ascii_string, utf8_lossy, string_from_utf8_lossy, decimal, decimal_string, lossy_decodes};
use crate::ip::{ipv4_text, ipv6_text, parse_ipv4, parse_ipv6, parse_ipv4_text, parse_ipv6_text, format_ipv4,
    format_ipv6, lemma_ipv4_text_ascii, lemma_ipv6_text_ascii, lemma_parse_ipv6_len};

verus! {

/// The eight big-endian groups of sixteen address bytes.
pub open spec fn groups_of(b: Seq<u8>) -> Seq<u16> {
    Seq::new(8, |i: int| ((b[2 * i] as u16) * 256 + b[2 * i + 1] as u16) as u16)
}

/// The sixteen big-endian bytes of eight groups.
pub open spec fn octets_of(g: Seq<u16>) -> Seq<u8> {
    Seq::new(16, |i: int| if i % 2 == 0 { (g[i / 2] / 256) as u8 } else { (g[i / 2] % 256) as u8 })
}

/// The host text of a wire address (type byte first) and the position after the address
/// bytes: dotted decimal for IPv4, the bytes decoded as UTF-8 (invalid sequences replaced)
/// for a domain, IPv6 text for IPv6; nothing when the data is cut short or the type unknown.
pub open spec fn wire_host(d: Seq<u8>) -> Option<(Seq<char>, int)> {
    if d.len() == 0 {
        None
    } else if d[0] == 1 {
        if d.len() < 5 {
            None
        } else {
            Some((ascii_chars(ipv4_text(d.subrange(1, 5))), 5))
        }
    } else if d[0] == 3 {
        if d.len() < 2 || d.len() < 2 + d[1] {
            None
        } else {
            Some((utf8_lossy(d.subrange(2, 2 + d[1])), 2 + d[1]))
        }
    } else if d[0] == 4 {
        if d.len() < 17 {
            None
        } else {
            Some((ascii_chars(ipv6_text(groups_of(d.subrange(1, 17)))), 17))
        }
    } else {
        None
    }
}

/// A wire address at the start of `d`: type, host text, port, and bytes used.
pub open spec fn wire_addr(d: Seq<u8>) -> Option<(u8, Seq<char>, u16, int)> {
    match wire_host(d) {
        None => None,
        Some((h, off)) => if d.len() < off + 2 {
            None
        } else {
            Some((d[0], h, be_u16(d[off], d[off + 1]), off + 2))
        },
    }
}

/// The wire form of an address: the type byte; four octets for IPv4 (zeros when the host is
/// not IPv4 text), a length byte and the host bytes for a domain, sixteen octets for IPv6
/// (zeros when the host is not IPv6 text), nothing for other types; then the port.
pub open spec fn addr_wire(addr_type: u8, host: Seq<char>, port: u16) -> Seq<u8> {
    let hb = encode_utf8(host);
    seq![addr_type] + (if addr_type == 1 {
        match parse_ipv4(hb) {
            Some(o) => o,
            None => seq![0u8, 0u8, 0u8, 0u8],
        }
    } else if addr_type == 3 {
        seq![hb.len() as u8] + hb
    } else if addr_type == 4 {
        match parse_ipv6(hb) {
            Some(g) => octets_of(g),
            None => Seq::new(16, |i: int| 0u8),
        }
    } else {
        Seq::empty()
    }) + be_bytes_u16(port)
}

/// The eight big-endian groups of the first sixteen bytes of `b`.
pub(crate) fn groups_from_bytes(b: &[u8]) -> (r: Vec<u16>)
    requires
        b@.len() >= 16,
    ensures
        r@ == groups_of(b@.take(16)),
{
    let mut groups: Vec<u16> = Vec::new();
    let mut k: usize = 0;
    while k < 8
        invariant
            k <= 8,
            b@.len() >= 16,
            groups@ == groups_of(b@.take(16)).take(k as int),
        decreases 8 - k,
    {
        let g = u16_from_be(b[2 * k], b[2 * k + 1]);
        let ghost hi = b@[2 * k];
        let ghost lo = b@[2 * k + 1];
        assert(g == ((hi as u16) * 256 + lo as u16) as u16) by (bit_vector)
            requires
                g == (((hi as u16) << 8) | (lo as u16)) as u16,
        ;
        groups.push(g);
        k = k + 1;
        assert(groups@ =~= groups_of(b@.take(16)).take(k as int));
    }
    assert(groups@ =~= groups_of(b@.take(16)));
    groups
}

/// A SOCKS5 address: type (1 IPv4, 3 domain, 4 IPv6), host text and port.
#[derive(Debug, Clone, PartialEq, Eq)]
pub struct Socks5Addr {
    pub addr_type: u8,
    pub host: String,
    pub port: u16,
}

impl Socks5Addr {
    /// An address from its parts.
    pub fn new(addr_type: u8, host: String, port: u16) -> (r: Self)
        ensures
            r.addr_type == addr_type,
            r.host@ == host@,
            r.port == port,
    {
        Socks5Addr { addr_type, host, port }
    }

    /// The address of a host name or IP text: IPv4 and IPv6 text become IP addresses in
    /// canonical text, anything else a domain.
    #[verifier::spinoff_prover]
    #[verifier::rlimit(30)]
    pub fn from_host_port(host: &str, port: u16) -> (r: Self)
        ensures
            r.port == port,
            match parse_ipv4(host.spec_bytes()) {
                Some(o) => r.addr_type == 1 && r.host@ == ascii_chars(ipv4_text(o)),
                None => match parse_ipv6(host.spec_bytes()) {
                    Some(g) => r.addr_type == 4 && r.host@ == ascii_chars(ipv6_text(g)),
                    None => r.addr_type == 3 && r.host@ == host@,
                },
            },
    {
        let hb = host.as_bytes();
        if let Some(o) = parse_ipv4_text(hb) {
            let t = format_ipv4(o.as_slice());
            proof {
                lemma_ipv4_text_ascii(o@);
            }
            Socks5Addr { addr_type: 1, host: ascii_string(t), port }
        } else if let Some(g) = parse_ipv6_text(hb) {
            proof {
                assert(g@.len() == 8) by {
                    lemma_parse_ipv6_len(hb@);
                }
                lemma_ipv6_text_ascii(g@);
            }
            let t = format_ipv6(g.as_slice());
            Socks5Addr { addr_type: 4, host: ascii_string(t), port }
        } else {
            Socks5Addr { addr_type: 3, host: String::from_str(host), port }
        }
    }

    /// Reads an address in wire form (type, address, port) at the start of `data`; gives the
    /// address and the number of bytes it took.
    pub fn parse(data: &[u8]) -> (r: Result<(Socks5Addr, usize)>)
        ensures
            match r {
                Ok((a, n)) => wire_addr(data@) == Some((a.addr_type, a.host@, a.port, n as int)),
                Err(e) => wire_addr(data@) is None && e is Socks5,
            },
            data@.len() >= 2 && data@[0] == 3 && data@.len() >= 2 + data@[1]
                ==> lossy_decodes(data@.subrange(2, 2 + data@[1])),
    {
        if data.len() == 0 {
            return Err(Error::Socks5(msg("empty addr")));
        }
        let addr_type = data[0];
        let (host, offset): (String, usize) = if addr_type == 1 {
            if data.len() < 5 {
                return Err(Error::Socks5(msg("short IPv4")));
            }
            let o = &data[1..5];
            proof {
                lemma_ipv4_text_ascii(o@);
            }
            (ascii_string(format_ipv4(o)), 5)
        } else if addr_type == 3 {
            if data.len() < 2 {
                return Err(Error::Socks5(msg("short domain")));
            }
            let len = data[1] as usize;
            if data.len() < 2 + len {
                return Err(Error::Socks5(msg("short domain body")));
            }
            (string_from_utf8_lossy(&data[2..2 + len]), 2 + len)
        } else if addr_type == 4 {
            if data.len() < 17 {
                return Err(Error::Socks5(msg("short IPv6")));
            }
            let groups = groups_from_bytes(&data[1..17]);
            assert(data@.subrange(1, 17).take(16) =~= data@.subrange(1, 17));
            proof {
                lemma_ipv6_text_ascii(groups@);
            }
            (ascii_string(format_ipv6(groups.as_slice())), 17)
        } else {
            let mut m = msg("unknown atyp ");
            m.append(decimal_string(addr_type as usize).as_str());
            return Err(Error::Socks5(m));
        };
        if data.len() < offset + 2 {
            return Err(Error::Socks5(msg("short port")));
        }
        let port = u16_from_be(data[offset], data[offset + 1]);
        Ok((Socks5Addr { addr_type, host, port }, offset + 2))
    }

    /// The wire form of this address.
    pub fn encode(&self) -> (r: Vec<u8>)
        ensures
            r@ == addr_wire(self.addr_type, self.host@, self.port),
    {
        let mut buf: Vec<u8> = Vec::new();
        buf.push(self.addr_type);
        let hb = self.host.as_str().as_bytes();
        if self.addr_type == 1 {
            match parse_ipv4_text(hb) {
                Some(o) => buf.extend_from_slice(o.as_slice()),
                None => buf.extend_from_slice(&[0u8, 0u8, 0u8, 0u8]),
            }
        } else if self.addr_type == 3 {
            buf.push(hb.len() as u8);
            buf.extend_from_slice(hb);
        } else if self.addr_type == 4 {
            match parse_ipv6_text(hb) {
                Some(g) => {
                    proof {
                        lemma_parse_ipv6_len(hb@);
                    }
                    let mut k: usize = 0;
                    let ghost start = buf@;
                    while k < 8
                        invariant
                            k <= 8,
                            g@.len() == 8,
                            buf@ == start + octets_of(g@).take(2 * k),
                        decreases 8 - k,
                    {
                        let b = u16_to_be(g[k]);
                        let ghost v = g@[k as int];
                        assert((v >> 8) as u8 == (v / 256) as u8 && (v & 0xff) as u8 == (v % 256) as u8) by (bit_vector);
                        buf.push(b[0]);
                        buf.push(b[1]);
                        k = k + 1;
                        assert(buf@ =~= start + octets_of(g@).take(2 * k));
                    }
                    assert(octets_of(g@).take(16) =~= octets_of(g@));
                },
                None => buf.extend_from_slice(&[0u8; 16]),
            }
        }
        let p = u16_to_be(self.port);
        buf.extend_from_slice(&p);
        buf
    }

    /// Number of bytes of the wire form.
    pub fn encoded_size(&self) -> (r: usize)
        requires
            encode_utf8(self.host@).len() + 4 <= usize::MAX,
        ensures
            r == 1 + (if self.addr_type == 1 {
                4
            } else if self.addr_type == 3 {
                1 + encode_utf8(self.host@).len()
            } else if self.addr_type == 4 {
                16
            } else {
                0
            }) + 2,
    {
        let body: usize = if self.addr_type == 1 {
            4
        } else if self.addr_type == 3 {
            1 + self.host.as_str().len()
        } else if self.addr_type == 4 {
            16
        } else {
            0
        };
        1 + body + 2
    }

    /// `host:port` text.
    pub fn to_string(&self) -> (r: String)
        ensures
            r@ == self.host@ + ":"@ + ascii_chars(decimal(self.port as nat)),
    {
        let mut s = self.host.clone();
        s.append(":");
        s.append(decimal_string(self.port as usize).as_str());
        s
    }

    /// Whether the address is IPv4.
    pub fn is_ipv4(&self) -> (r: bool)
        ensures
            r == (self.addr_type == 1),
    {
        self.addr_type == 1
    }

    /// Whether the address is a domain.
    pub fn is_domain(&self) -> (r: bool)
        ensures
            r == (self.addr_type == 3),
    {
        self.addr_type == 3
    }

    /// Whether the address is IPv6.
    pub fn is_ipv6(&self) -> (r: bool)
        ensures
            r == (self.addr_type == 4),
    {
        self.addr_type == 4
    }
}

} // verus!
verus! {

/// Law of IPv4 wire addresses: an IPv4 address in dotted-decimal text, written in wire form,
/// reads back as the same type, text and port, whatever follows it.
pub proof fn lemma_addr_wire_ipv4(o: Seq<u8>, port: u16, rest: Seq<u8>)
    requires
        o.len() == 4,
    ensures
        wire_addr(addr_wire(1, ascii_chars(ipv4_text(o)), port) + rest)
            == Some((1u8, ascii_chars(ipv4_text(o)), port, 7int)),
{
    let t = ipv4_text(o);
    lemma_ipv4_text_ascii(o);
    crate::text::lemma_ascii_chars_bytes(t);
    crate::ip::lemma_ipv4_text_roundtrip(o);
    let d = addr_wire(1, ascii_chars(t), port) + rest;
    assert(d =~= seq![1u8] + o + be_bytes_u16(port) + rest);
    assert(d.subrange(1, 5) =~= o);
    assert(d[5] == be_bytes_u16(port)[0] && d[6] == be_bytes_u16(port)[1]);
    crate::bytes::lemma_be_u16_roundtrip(port);
}

/// Law of domain wire addresses: a domain name shorter than 256 bytes, written in wire form,
/// reads back as the same type and port and the name decoded from its bytes, whatever
/// follows it.
pub proof fn lemma_addr_wire_domain(host: Seq<char>, port: u16, rest: Seq<u8>)
    requires
        encode_utf8(host).len() < 256,
    ensures
        wire_addr(addr_wire(3, host, port) + rest)
            == Some((3u8, utf8_lossy(encode_utf8(host)), port, (encode_utf8(host).len() + 4) as int)),
{
    let hb = encode_utf8(host);
    let d = addr_wire(3, host, port) + rest;
    assert(d =~= seq![3u8, hb.len() as u8] + hb + be_bytes_u16(port) + rest);
    assert((hb.len() as u8) as int == hb.len());
    let off: int = 2 + hb.len() as int;
    assert(d.subrange(2, off) =~= hb);
    assert(d[off] == be_bytes_u16(port)[0] && d[off + 1] == be_bytes_u16(port)[1]);
    crate::bytes::lemma_be_u16_roundtrip(port);
}

/// Addresses that read back from their wire form as they are: IPv4 or IPv6 addresses in
/// their canonical text, and domain names shorter than 256 bytes that are decoded unchanged
/// (as `Socks5Addr::parse` shows for the bytes it reads).
pub open spec fn canonical_addr(t: u8, host: Seq<char>) -> bool {
    ||| t == 1 && exists|o: Seq<u8>| o.len() == 4 && host == ascii_chars(ipv4_text(o))
    ||| t == 3 && encode_utf8(host).len() < 256 && lossy_decodes(encode_utf8(host))
    ||| t == 4 && exists|g: Seq<u16>| g.len() == 8 && host == ascii_chars(ipv6_text(g))
}

/// Law of wire addresses: a canonical address written in wire form reads back as the same
/// type, host and port, using exactly the bytes written, whatever follows them.
pub proof fn lemma_addr_wire_roundtrip(t: u8, host: Seq<char>, port: u16, rest: Seq<u8>)
    requires
        canonical_addr(t, host),
    ensures
        wire_addr(addr_wire(t, host, port) + rest) == Some((t, host, port, addr_wire(t, host, port).len() as int)),
{
    if t == 1 {
        let o = choose|o: Seq<u8>| o.len() == 4 && host == ascii_chars(ipv4_text(o));
        lemma_addr_wire_ipv4(o, port, rest);
        lemma_ipv4_text_ascii(o);
        crate::text::lemma_ascii_chars_bytes(ipv4_text(o));
        crate::ip::lemma_ipv4_text_roundtrip(o);
    } else if t == 3 {
        let hb = encode_utf8(host);
        lemma_addr_wire_domain(host, port, rest);
        vstd::utf8::encode_utf8_valid_utf8(host);
        vstd::utf8::encode_utf8_decode_utf8(host);
    } else {
        let g = choose|g: Seq<u16>| g.len() == 8 && host == ascii_chars(ipv6_text(g));
        lemma_addr_wire_ipv6(g, port, rest);
        lemma_ipv6_text_ascii(g);
        crate::text::lemma_ascii_chars_bytes(ipv6_text(g));
        crate::ip::lemma_ipv6_text_roundtrip(g);
    }
}

/// Law of address sizes: the wire form of an address has one type byte, four octets for
/// IPv4, a length byte and the name bytes for a domain, sixteen octets for IPv6, nothing
/// for other types, and two port bytes, the size `Socks5Addr::encoded_size` gives.
pub proof fn lemma_addr_wire_len(t: u8, host: Seq<char>, port: u16)
    ensures
        addr_wire(t, host, port).len() == 1 + (if t == 1 {
            4
        } else if t == 3 {
            1 + encode_utf8(host).len()
        } else if t == 4 {
            16
        } else {
            0
        }) + 2,
{
    let hb = encode_utf8(host);
    if t == 1 {
    } else if t == 4 {
        match parse_ipv6(hb) {
            Some(g) => {
                lemma_parse_ipv6_len(hb);
            },
            None => {},
        }
    }
}

/// Groups written as big-endian bytes read back as the groups.
proof fn lemma_groups_of_octets(g: Seq<u16>)
    requires
        g.len() == 8,
    ensures
        groups_of(octets_of(g)) == g,
{
    let b = octets_of(g);
    assert forall|i: int| 0 <= i < 8 implies #[trigger] groups_of(b)[i] == g[i] by {
        assert(b[2 * i] == (g[i] / 256) as u8);
        assert(b[2 * i + 1] == (g[i] % 256) as u8);
        let x = g[i];
        assert((((x / 256) as u8 as u16) * 256 + ((x % 256) as u8) as u16) as u16 == x) by (nonlinear_arith);
    }
    assert(groups_of(b) =~= g);
}

/// Law of IPv6 wire addresses: an IPv6 address in canonical text, written in wire form,
/// reads back as the same type, text and port, whatever follows it.
pub proof fn lemma_addr_wire_ipv6(g: Seq<u16>, port: u16, rest: Seq<u8>)
    requires
        g.len() == 8,
    ensures
        wire_addr(addr_wire(4, ascii_chars(ipv6_text(g)), port) + rest)
            == Some((4u8, ascii_chars(ipv6_text(g)), port, 19int)),
{
    let t = ipv6_text(g);
    lemma_ipv6_text_ascii(g);
    crate::text::lemma_ascii_chars_bytes(t);
    crate::ip::lemma_ipv6_text_roundtrip(g);
    let d = addr_wire(4, ascii_chars(t), port) + rest;
    assert(d =~= seq![4u8] + octets_of(g) + be_bytes_u16(port) + rest);
    assert(d.subrange(1, 17) =~= octets_of(g));
    lemma_groups_of_octets(g);
    assert(d[17] == be_bytes_u16(port)[0] && d[18] == be_bytes_u16(port)[1]);
    crate::bytes::lemma_be_u16_roundtrip(port);
}

/// Sixteen bytes read as groups and written back are the same bytes.
pub proof fn lemma_octets_of_groups(b: Seq<u8>)
    requires
        b.len() == 16,
    ensures
        octets_of(groups_of(b)) == b,
{
    let g = groups_of(b);
    assert forall|i: int| 0 <= i < 16 implies #[trigger] octets_of(g)[i] == b[i] by {
        let j = i / 2;
        assert(0 <= j < 8);
        let hi = b[2 * j];
        let lo = b[2 * j + 1];
        let x = g[j];
        assert(x == ((hi as u16) * 256 + lo as u16) as u16);
        assert((x / 256) as u8 == hi && (x % 256) as u8 == lo) by (nonlinear_arith)
            requires
                x == ((hi as u16) * 256 + lo as u16) as u16,
        ;
        if i % 2 == 0 {
            assert(i == 2 * j);
        } else {
            assert(i == 2 * j + 1);
        }
    }
    assert(octets_of(g) =~= b);
}

} // verus!
