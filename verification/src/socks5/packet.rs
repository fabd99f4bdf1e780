use vstd::prelude::*;
use vstd::slice::slice_to_vec;
use vstd::utf8::encode_utf8;
use vstd::string::StringSliceAdditionalSpecFns;
use crate::bytes::{be_u16, be_bytes_u16};
use crate::text::{utf8_lossy, ascii_chars, lossy_decodes};
use crate::ip::{parse_ipv4, parse_ipv6, ipv4_text, ipv6_text};
use super::addr::{Socks5Addr, wire_addr, wire_host, addr_wire, canonical_addr, lemma_addr_wire_roundtrip};

verus! {

pub const SOCKS5_VER: u8 = 0x05;
pub const METHOD_NOAUTH: u8 = 0x00;
pub const METHOD_GSSAPI: u8 = 0x01;
pub const METHOD_USERPASS: u8 = 0x02;
pub const METHOD_NONE: u8 = 0xFF;
pub const CMD_CONNECT: u8 = 0x01;
pub const CMD_BIND: u8 = 0x02;
pub const CMD_UDP_ASSOC: u8 = 0x03;
pub const ATYP_IPV4: u8 = 0x01;
pub const ATYP_DOMAIN: u8 = 0x03;
pub const ATYP_IPV6: u8 = 0x04;
pub const REP_SUCCESS: u8 = 0x00;
pub const REP_FAILURE: u8 = 0x01;
pub const REP_DENIED: u8 = 0x02;
pub const REP_NETUNREACH: u8 = 0x03;
pub const REP_HOSTUNREACH: u8 = 0x04;
pub const REP_REFUSED: u8 = 0x05;
pub const REP_TTLEXPIRED: u8 = 0x06;
pub const REP_CMDUNSUPP: u8 = 0x07;
pub const REP_ADDRUNSUPP: u8 = 0x08;

/// Method selection reply: version and chosen method.
pub fn build_method_response(method: u8) -> (r: Vec<u8>)
    ensures
        r@ == seq![SOCKS5_VER, method],
{
    let r = vec![SOCKS5_VER, method];
    assert(r@ =~= seq![SOCKS5_VER, method]);
    r
}

/// The address type and host text that `Socks5Addr::from_host_port` gives for `host`.
pub open spec fn host_addr(host: Seq<char>) -> (u8, Seq<char>) {
    match parse_ipv4(encode_utf8(host)) {
        Some(o) => (1u8, ascii_chars(ipv4_text(o))),
        None => match parse_ipv6(encode_utf8(host)) {
            Some(g) => (4u8, ascii_chars(ipv6_text(g))),
            None => (3u8, host),
        },
    }
}

/// CONNECT request for a host and port: version, command, reserved byte, then the address
/// of `host` in wire form.
pub fn build_connect_request(host: &str, port: u16) -> (r: Vec<u8>)
    ensures
        r@ == seq![SOCKS5_VER, CMD_CONNECT, 0u8] + addr_wire(host_addr(host@).0, host_addr(host@).1, port),
{
    let addr = Socks5Addr::from_host_port(host, port);
    let mut buf = vec![SOCKS5_VER, CMD_CONNECT, 0x00];
    let enc = addr.encode();
    buf.extend_from_slice(enc.as_slice());
    buf
}

/// Reply with the IPv4 bind address 0.0.0.0:0.
pub fn build_response(rep: u8) -> (r: Vec<u8>)
    ensures
        r@ == seq![SOCKS5_VER, rep, 0u8, ATYP_IPV4, 0u8, 0u8, 0u8, 0u8, 0u8, 0u8],
{
    let buf = vec![SOCKS5_VER, rep, 0x00, ATYP_IPV4, 0, 0, 0, 0, 0, 0];
    assert(buf@ =~= seq![SOCKS5_VER, rep, 0u8, ATYP_IPV4, 0u8, 0u8, 0u8, 0u8, 0u8, 0u8]);
    buf
}

/// Reply carrying a bind address.
pub fn build_response_with_bind(rep: u8, bind_addr: &Socks5Addr) -> (r: Vec<u8>)
    ensures
        r@ == seq![SOCKS5_VER, rep, 0u8] + addr_wire(bind_addr.addr_type, bind_addr.host@, bind_addr.port),
{
    let mut buf = vec![SOCKS5_VER, rep, 0x00];
    let enc = bind_addr.encode();
    buf.extend_from_slice(enc.as_slice());
    buf
}

/// UDP ASSOCIATE reply carrying the relay address.
pub fn build_udp_assoc_response(rep: u8, bind_addr: &Socks5Addr) -> (r: Vec<u8>)
    ensures
        r@ == seq![SOCKS5_VER, rep, 0u8] + addr_wire(bind_addr.addr_type, bind_addr.host@, bind_addr.port),
{
    let mut buf = vec![SOCKS5_VER, rep, 0x00];
    let enc = bind_addr.encode();
    buf.extend_from_slice(enc.as_slice());
    buf
}

/// A UDP datagram: reserved bytes, fragment number zero, a wire address, then the payload.
/// Gives the address (type, host text, port) and the payload; nothing when the datagram is
/// short, fragmented, or its address does not read.
pub open spec fn udp_datagram(d: Seq<u8>) -> Option<(u8, Seq<char>, u16, Seq<u8>)> {
    if d.len() < 3 || d[2] != 0 {
        None
    } else {
        match wire_addr(d.skip(3)) {
            None => None,
            Some((t, h, p, used)) => Some((t, h, p, d.skip(3 + used))),
        }
    }
}

/// Reads a UDP datagram.
pub fn parse_udp_datagram(data: &[u8]) -> (r: Option<(Socks5Addr, Vec<u8>)>)
    ensures
        match udp_datagram(data@) {
            Some((t, h, p, payload)) => r matches Some((a, v)) && a.addr_type == t && a.host@ == h && a.port == p
                && v@ == payload,
            None => r is None,
        },
        data@.len() >= 5 && data@[2] == 0 && data@[3] == 3 && data@.len() >= 5 + data@[4]
            ==> lossy_decodes(data@.subrange(5, 5 + data@[4])),
{
    if data.len() < 3 {
        return None;
    }
    let frag = data[2];
    if frag != 0 {
        return None;
    }
    let rest = &data[3..data.len()];
    assert(rest@ =~= data@.skip(3));
    assert(rest@.len() >= 2 && rest@[0] == 3 && rest@.len() >= 2 + rest@[1] ==> rest@.subrange(2, 2 + rest@[1])
        =~= data@.subrange(5, 5 + data@[4]));
    match Socks5Addr::parse(rest) {
        Ok((addr, used)) => {
            let payload = slice_to_vec(&data[3 + used..data.len()]);
            assert(payload@ =~= data@.skip(3 + used));
            Some((addr, payload))
        },
        Err(_) => None,
    }
}

/// Builds a UDP datagram to `dst` carrying `payload`.
pub fn build_udp_datagram(dst: &Socks5Addr, payload: &[u8]) -> (r: Vec<u8>)
    ensures
        r@ == seq![0u8, 0u8, 0u8] + addr_wire(dst.addr_type, dst.host@, dst.port) + payload@,
{
    let mut buf = vec![0x00, 0x00, 0x00];
    let enc = dst.encode();
    buf.extend_from_slice(enc.as_slice());
    buf.extend_from_slice(payload);
    assert(buf@ =~= seq![0u8, 0u8, 0u8] + addr_wire(dst.addr_type, dst.host@, dst.port) + payload@);
    buf
}

/// Username/password authentication reply: version 1 and the status.
pub fn build_userpass_response(status: u8) -> (r: Vec<u8>)
    ensures
        r@ == seq![1u8, status],
{
    let r = vec![0x01, status];
    assert(r@ =~= seq![1u8, status]);
    r
}

/// Law of UDP datagrams: reading a datagram built for a canonical address gives back the
/// address's type, host and port and the payload.
pub proof fn lemma_udp_datagram_roundtrip(t: u8, host: Seq<char>, port: u16, payload: Seq<u8>)
    requires
        canonical_addr(t, host),
    ensures
        udp_datagram(seq![0u8, 0u8, 0u8] + addr_wire(t, host, port) + payload) == Some((t, host, port, payload)),
{
    let w = addr_wire(t, host, port);
    let d = seq![0u8, 0u8, 0u8] + w + payload;
    assert(d.skip(3) =~= w + payload);
    lemma_addr_wire_roundtrip(t, host, port, payload);
    assert(d.skip(3 + w.len() as int) =~= payload);
}

/// Law of UDP datagrams to a domain: reading a datagram built for a domain address whose name
/// is shorter than 256 bytes gives the same type and port, the name decoded from its bytes,
/// and the payload.
pub proof fn lemma_udp_datagram_domain(host: Seq<char>, port: u16, payload: Seq<u8>)
    requires
        encode_utf8(host).len() < 256,
    ensures
        udp_datagram(seq![0u8, 0u8, 0u8] + addr_wire(3, host, port) + payload)
            == Some((3u8, utf8_lossy(encode_utf8(host)), port, payload)),
{
    let hb = encode_utf8(host);
    let d = seq![0u8, 0u8, 0u8] + addr_wire(3, host, port) + payload;
    let w = d.skip(3);
    assert(w =~= seq![3u8, hb.len() as u8] + hb + be_bytes_u16(port) + payload);
    assert((hb.len() as u8) as int == hb.len());
    let off: int = 2 + hb.len() as int;
    assert(w.subrange(2, off) =~= hb);
    assert(w[off] == be_bytes_u16(port)[0] && w[off + 1] == be_bytes_u16(port)[1]);
    crate::bytes::lemma_be_u16_roundtrip(port);
    assert(d.skip(3 + off + 2) =~= payload);
}

} // verus!
