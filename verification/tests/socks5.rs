use ssr_native_rs::error::Error;
use ssr_native_rs::socks5::packet::{ATYP_DOMAIN, ATYP_IPV4, ATYP_IPV6, CMD_CONNECT, SOCKS5_VER};
use ssr_native_rs::socks5::{
    build_connect_request, build_method_response, build_response, build_response_with_bind,
    build_udp_assoc_response, build_udp_datagram, build_userpass_response, parse_udp_datagram, S5AuthMethod,
    S5Parser, S5Result, Socks5Addr, REP_SUCCESS,
};

#[test]
fn parser_no_auth_connect_ipv4() {
    let mut p = S5Parser::new();
    assert_eq!(p.parse(&[5, 1, 0]), (S5Result::AuthSelect, 3));
    assert!(p.has_method(S5AuthMethod::NoAuth));
    assert!(!p.has_method(S5AuthMethod::Passwd));
    assert_eq!(p.supported_methods(), vec![S5AuthMethod::NoAuth]);
    p.select_auth(S5AuthMethod::NoAuth);
    assert_eq!(p.parse(&[5, 1, 0, 1, 127, 0, 0, 1, 0x1f, 0x90]), (S5Result::ExecCmd, 10));
    assert_eq!(p.cmd, 1);
    assert_eq!(p.atyp, 1);
    assert_eq!(p.daddr, vec![127, 0, 0, 1]);
    assert_eq!(p.dport, 8080);
    assert_eq!(p.requested_atyp(), 1);
    assert_eq!(p.requested_addr(), &vec![127, 0, 0, 1]);
    assert_eq!(p.requested_port(), 8080);
    assert_eq!(p.addr_str(), "127.0.0.1");
    assert!(p.is_dead());
    assert_eq!(p.parse(&[1, 2, 3]), (S5Result::NeedMore, 1));
}

#[test]
fn parser_fed_byte_by_byte() {
    let mut p = S5Parser::new();
    let hello = [5u8, 2, 0, 2];
    for (k, b) in hello.iter().enumerate() {
        let want = if k == 3 { S5Result::AuthSelect } else { S5Result::NeedMore };
        assert_eq!(p.parse(&[*b]), (want, 1));
    }
    assert_eq!(p.supported_methods(), vec![S5AuthMethod::NoAuth, S5AuthMethod::Passwd]);
    p.select_auth(S5AuthMethod::Passwd);
    assert_eq!(p.parse(&[1, 3, b'b', b'o', b'b', 2, b'p', b'w']), (S5Result::AuthVerify, 8));
    assert_eq!(p.username, b"bob".to_vec());
    assert_eq!(p.password, b"pw".to_vec());
    let req = [5u8, 1, 0, 3, 11, b'e', b'x', b'a', b'm', b'p', b'l', b'e', b'.', b'o', b'r', b'g', 1, 187];
    assert_eq!(p.parse(&req[..6]), (S5Result::NeedMore, 6));
    assert_eq!(p.parse(&req[6..]), (S5Result::ExecCmd, req.len() - 6));
    assert_eq!(p.addr_str(), "example.org");
    assert_eq!(p.dport, 443);
}

#[test]
fn parser_ipv6_request() {
    let mut p = S5Parser::new();
    assert_eq!(p.parse(&[5, 1, 0]), (S5Result::AuthSelect, 3));
    p.select_auth(S5AuthMethod::NoAuth);
    let mut req = vec![5u8, 3, 0, 4];
    req.extend_from_slice(&[0x20, 0x01, 0x0d, 0xb8, 0, 0, 0, 0, 0, 0, 0, 0, 0, 0, 0, 1]);
    req.extend_from_slice(&[0, 53]);
    assert_eq!(p.parse(&req), (S5Result::ExecCmd, req.len()));
    assert_eq!(p.cmd, 3);
    assert_eq!(p.addr_str(), "2001:db8::1");
    assert_eq!(p.dport, 53);
}

#[test]
fn parser_errors() {
    let mut p = S5Parser::new();
    assert_eq!(p.parse(&[4, 1, 0]), (S5Result::BadVersion, 1));
    let mut p = S5Parser::new();
    assert_eq!(p.parse(&[5, 1, 0]), (S5Result::AuthSelect, 3));
    p.select_auth(S5AuthMethod::NoAuth);
    assert_eq!(p.parse(&[5, 9]), (S5Result::BadCmd, 2));
    let mut p = S5Parser::new();
    assert_eq!(p.parse(&[5, 1, 0]), (S5Result::AuthSelect, 3));
    p.select_auth(S5AuthMethod::NoAuth);
    assert_eq!(p.parse(&[5, 1, 0, 2]), (S5Result::BadAtyp, 4));
    let mut p = S5Parser::new();
    assert_eq!(p.parse(&[5, 1, 2]), (S5Result::AuthSelect, 3));
    p.select_auth(S5AuthMethod::Passwd);
    assert_eq!(p.parse(&[2]), (S5Result::BadVersion, 1));
}

#[test]
fn parser_zero_methods_takes_one_more_byte() {
    let mut p = S5Parser::new();
    assert_eq!(p.parse(&[5, 0]), (S5Result::NeedMore, 2));
    assert_eq!(p.parse(&[9, 9]), (S5Result::AuthSelect, 1));
    assert!(p.supported_methods().is_empty());
    p.reset();
    assert!(!p.is_dead());
    assert_eq!(p.parse(&[5, 1, 2]), (S5Result::AuthSelect, 3));
    assert!(p.has_method(S5AuthMethod::Passwd));
}

#[test]
fn addr_from_host_port_classifies() {
    let a = Socks5Addr::from_host_port("10.1.2.3", 80);
    assert_eq!((a.addr_type, a.host.as_str(), a.port), (ATYP_IPV4, "10.1.2.3", 80));
    assert!(a.is_ipv4());
    let b = Socks5Addr::from_host_port("2001:0db8:0:0:0:0:0:0001", 443);
    assert_eq!((b.addr_type, b.host.as_str()), (ATYP_IPV6, "2001:db8::1"));
    assert!(b.is_ipv6());
    let c = Socks5Addr::from_host_port("example.com", 8388);
    assert_eq!((c.addr_type, c.host.as_str()), (ATYP_DOMAIN, "example.com"));
    assert!(c.is_domain());
    assert_eq!(c.to_string(), "example.com:8388");
}

#[test]
fn addr_encode_parse_roundtrip() {
    let a = Socks5Addr::new(ATYP_IPV4, "1.2.3.4".to_string(), 0x1234);
    let wire = a.encode();
    assert_eq!(wire, vec![1, 1, 2, 3, 4, 0x12, 0x34]);
    assert_eq!(a.encoded_size(), 7);
    let (back, used) = Socks5Addr::parse(&wire).unwrap();
    assert_eq!(back, a);
    assert_eq!(used, 7);

    let d = Socks5Addr::new(ATYP_DOMAIN, "abc".to_string(), 1);
    let wire = d.encode();
    assert_eq!(wire, vec![3, 3, b'a', b'b', b'c', 0, 1]);
    assert_eq!(d.encoded_size(), 7);
    assert_eq!(Socks5Addr::parse(&wire).unwrap(), (d, 7));

    let v6 = Socks5Addr::new(ATYP_IPV6, "::1".to_string(), 2);
    let wire = v6.encode();
    assert_eq!(wire.len(), 19);
    assert_eq!(wire[16], 1);
    assert_eq!(v6.encoded_size(), 19);
    assert_eq!(Socks5Addr::parse(&wire).unwrap(), (v6, 19));
}

#[test]
fn addr_parse_errors() {
    assert!(matches!(Socks5Addr::parse(&[]), Err(Error::Socks5(_))));
    assert!(matches!(Socks5Addr::parse(&[1, 1, 2, 3]), Err(Error::Socks5(_))));
    assert!(matches!(Socks5Addr::parse(&[3]), Err(Error::Socks5(_))));
    assert!(matches!(Socks5Addr::parse(&[3, 5, b'a']), Err(Error::Socks5(_))));
    assert!(matches!(Socks5Addr::parse(&[4, 0, 0]), Err(Error::Socks5(_))));
    assert!(matches!(Socks5Addr::parse(&[1, 1, 2, 3, 4, 0]), Err(Error::Socks5(_))));
    match Socks5Addr::parse(&[9, 0, 0]) {
        Err(Error::Socks5(m)) => assert_eq!(m, "unknown atyp 9"),
        _ => panic!("expected an error"),
    }
}

#[test]
fn addr_parse_invalid_utf8_domain_is_lossy() {
    let (a, used) = Socks5Addr::parse(&[3, 2, 0xff, b'a', 0, 80]).unwrap();
    assert_eq!(a.host, "\u{fffd}a");
    assert_eq!(used, 6);
}

#[test]
fn packet_builders() {
    assert_eq!(build_method_response(0), vec![SOCKS5_VER, 0]);
    assert_eq!(build_userpass_response(0), vec![1, 0]);
    assert_eq!(build_response(REP_SUCCESS), vec![5, 0, 0, 1, 0, 0, 0, 0, 0, 0]);
    assert_eq!(
        build_connect_request("example.com", 443),
        [vec![5, CMD_CONNECT, 0, 3, 11], b"example.com".to_vec(), vec![1, 187]].concat()
    );
    assert_eq!(build_connect_request("8.8.8.8", 53), vec![5, 1, 0, 1, 8, 8, 8, 8, 0, 53]);
    let bind = Socks5Addr::new(ATYP_IPV4, "127.0.0.1".to_string(), 1080);
    assert_eq!(build_response_with_bind(0, &bind), vec![5, 0, 0, 1, 127, 0, 0, 1, 4, 56]);
    assert_eq!(build_udp_assoc_response(1, &bind), vec![5, 1, 0, 1, 127, 0, 0, 1, 4, 56]);
}

#[test]
fn udp_datagram_roundtrip() {
    let dst = Socks5Addr::new(ATYP_DOMAIN, "dns.google".to_string(), 53);
    let pkt = build_udp_datagram(&dst, b"query");
    assert_eq!(&pkt[..3], &[0, 0, 0]);
    let (addr, payload) = parse_udp_datagram(&pkt).unwrap();
    assert_eq!(addr, dst);
    assert_eq!(payload, b"query".to_vec());
}

#[test]
fn udp_datagram_rejects_fragments_and_short_input() {
    let dst = Socks5Addr::new(ATYP_IPV4, "9.9.9.9".to_string(), 53);
    let mut pkt = build_udp_datagram(&dst, b"x");
    pkt[2] = 1;
    assert!(parse_udp_datagram(&pkt).is_none());
    assert!(parse_udp_datagram(&[0, 0]).is_none());
    assert!(parse_udp_datagram(&[0, 0, 0, 1, 1, 2]).is_none());
}

#[test]
fn udp_datagram_to_domain_reads_back() {
    let dst = Socks5Addr::new(ATYP_DOMAIN, "example.org".to_string(), 53);
    let pkt = build_udp_datagram(&dst, b"query");
    let (a, payload) = parse_udp_datagram(&pkt).unwrap();
    assert_eq!(a.addr_type, ATYP_DOMAIN);
    assert_eq!(a.host, "example.org");
    assert_eq!(a.port, 53);
    assert_eq!(payload, b"query".to_vec());
    assert_eq!(dst.encoded_size(), dst.encode().len());
}
