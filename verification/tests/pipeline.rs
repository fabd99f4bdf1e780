use ssr_native_rs::config::{
    default_connect_timeout, default_idle_timeout, default_server_domain, default_udp_timeout, ClientSettings,
    SsrConfig,
};
use ssr_native_rs::error::Error;
use ssr_native_rs::obfs::http_simple::generate_http_header_with;
use ssr_native_rs::obfs::obfs::ServerInfo;
use ssr_native_rs::obfs::obfsutil::{
    checkadler32, checkcrc32, filladler32, fillcrc32, fillcrc32to, get_s5_head_size, memintcopy_lt, xorshift128plus,
};
use ssr_native_rs::protocol::{create_obfs, create_protocol, TunnelCipherCtx};
use ssr_native_rs::qr_code::decode_ssr_link;
use ssr_native_rs::session::{server_first_packet, ClientAction, ClientHandshake};
use ssr_native_rs::base64::encode_urlsafe;
use ssr_native_rs::crc32::crc32;

fn config(method: &str, protocol: &str, obfs: &str) -> SsrConfig {
    SsrConfig {
        password: "secret".to_string(),
        method: method.to_string(),
        protocol: protocol.to_string(),
        protocol_param: String::new(),
        obfs: obfs.to_string(),
        obfs_param: String::new(),
        udp: false,
        idle_timeout: 300,
        connect_timeout: 6,
        udp_timeout: 6,
        server_settings: None,
        client_settings: Some(ClientSettings {
            server: "example.com".to_string(),
            server_port: 8388,
            listen_address: "127.0.0.1".to_string(),
            listen_port: 1080,
        }),
        over_tls_settings: None,
    }
}

fn roundtrip(method: &str, protocol: &str, obfs: &str) {
    let cfg = config(method, protocol, obfs);
    let mut client = TunnelCipherCtx::new(&cfg, false).unwrap();
    let mut server = TunnelCipherCtx::new(&cfg, true).unwrap();
    let up = client.client_encrypt(b"\x03\x0bexample.org\x01\xbbGET / HTTP/1.1").unwrap();
    assert_eq!(server.server_decrypt(&up).unwrap(), b"\x03\x0bexample.org\x01\xbbGET / HTTP/1.1".to_vec());
    let down = server.server_encrypt(b"HTTP/1.1 200 OK").unwrap();
    assert_eq!(client.client_decrypt(&down).unwrap(), b"HTTP/1.1 200 OK".to_vec());
}

#[test]
fn pipeline_aead_roundtrip() {
    roundtrip("chacha20-ietf-poly1305", "origin", "plain");
    roundtrip("aes-256-gcm", "auth_sha1_v4", "http_simple");
}

#[test]
fn pipeline_stream_roundtrip_without_plugins() {
    roundtrip("aes-256-ctr", "origin", "plain");
    roundtrip("chacha20-ietf", "", "");
    roundtrip("table", "origin", "plain");
}

#[test]
fn pipeline_stream_roundtrip_with_http_obfs() {
    roundtrip("aes-128-ctr", "origin", "http_simple");
    roundtrip("salsa20", "origin", "http_post");
}

#[test]
fn pipeline_stream_roundtrip_with_auth_sha1_v4() {
    roundtrip("aes-256-ctr", "auth_sha1_v4", "plain");
    roundtrip("chacha20", "auth_sha1_v4", "http_simple");
}

#[test]
fn pipeline_method_name_and_unknown_cipher() {
    let ctx = TunnelCipherCtx::new(&config("AES-256-CTR", "origin", "plain"), false).unwrap();
    assert_eq!(ctx.method_name(), "aes-256-ctr");
    assert!(matches!(TunnelCipherCtx::new(&config("nope", "origin", "plain"), false), Err(Error::Config(_))));
}

#[test]
fn pipeline_http_obfs_frames_first_write() {
    let cfg = config("aes-256-ctr", "origin", "http_simple");
    let mut client = TunnelCipherCtx::new(&cfg, false).unwrap();
    let up = client.client_encrypt(b"data").unwrap();
    assert!(up.starts_with(b"GET /udp151df/ HTTP/1.1\r\nHost: example.com\r\n"));
}

#[test]
fn plugin_factories() {
    assert_eq!(create_protocol("auth_chain_a").unwrap().name(), "auth_chain_a");
    assert_eq!(create_protocol("auth_sha1_v4").unwrap().name(), "auth_sha1_v4");
    assert!(create_protocol("auth_unknown").is_none());
    assert_eq!(create_obfs("tls1.2_ticket_auth").unwrap().name(), "tls1.2_ticket_auth");
    assert_eq!(create_obfs("http_mix").unwrap().name(), "http_mix");
    assert!(create_obfs("obfs_unknown").is_none());
}

#[test]
fn http_obfs_encode_then_decode() {
    let mut client = create_obfs("http_simple").unwrap();
    let mut server = create_obfs("http_simple").unwrap();
    let wire = client.client_encode(b"payload").unwrap();
    assert!(wire.ends_with(b"\r\n\r\npayload"));
    assert_eq!(server.server_decode(&wire[..10]).unwrap(), Vec::<u8>::new());
    assert_eq!(server.server_decode(&wire[10..]).unwrap(), b"payload".to_vec());
    let back = server.server_encode(b"reply").unwrap();
    assert!(back.starts_with(b"HTTP/1.1 200 OK\r\nContent-Length: 5\r\n"));
    assert_eq!(client.client_decode(&back).unwrap(), b"reply".to_vec());
}

#[test]
fn http_obfs_host_ending_in_line_break_cuts_early() {
    let mut client = create_obfs("http_simple").unwrap();
    let mut info = ServerInfo::empty();
    info.host = "h\r\n".to_string();
    client.set_server_info(info);
    let mut server = create_obfs("http_simple").unwrap();
    let wire = client.client_encode(b"payload").unwrap();
    let got = server.server_decode(&wire).unwrap();
    assert!(got.starts_with(b"User-Agent: "));
    assert!(got.ends_with(b"payload"));
}

#[test]
fn http_header_shapes() {
    let h = generate_http_header_with("", 12, true, false, 1);
    let text = String::from_utf8(h).unwrap();
    assert!(text.starts_with("POST /udp151df/ HTTP/1.1\r\nHost: www.baidu.com\r\nUser-Agent: Mozilla/5.0 (Windows NT 6.1; WOW64)"));
    assert!(text.ends_with("Content-Length: 12\r\n\r\n"));
    let s = String::from_utf8(generate_http_header_with("h", 0, false, true, 0)).unwrap();
    assert_eq!(
        s,
        "HTTP/1.1 200 OK\r\nContent-Length: 0\r\nContent-Type: application/octet-stream\r\nConnection: keep-alive\r\n\r\n"
    );
}

#[test]
fn checksum_fill_and_check() {
    let mut buf = b"abcdefgh\0\0\0\0tail".to_vec();
    fillcrc32(&mut buf, 12);
    assert_eq!(&buf[8..12], &crc32(b"abcdefgh").to_le_bytes());
    assert!(checkcrc32(&buf, 12));
    buf[0] ^= 1;
    assert!(!checkcrc32(&buf, 12));
    let mut a = b"wiki\0\0\0\0".to_vec();
    filladler32(&mut a, 8);
    assert!(checkadler32(&a, 8));
    assert!(!checkadler32(&a, 3));
    let mut out = [9u8; 3];
    fillcrc32to(b"abcdefgh", 8, &mut out);
    assert_eq!(&out[..2], &crc32(b"abcdefgh").to_le_bytes()[..2]);
    assert_eq!(out[2], 9);
    let mut m = [0u8; 5];
    memintcopy_lt(&mut m, 0x0403_0201);
    assert_eq!(m, [1, 2, 3, 4, 0]);
}

#[test]
fn s5_head_size_and_xorshift() {
    assert_eq!(get_s5_head_size(&[1, 0]), 7);
    assert_eq!(get_s5_head_size(&[3, 11]), 15);
    assert_eq!(get_s5_head_size(&[4, 0]), 19);
    assert_eq!(get_s5_head_size(&[9, 0]), 0);
    assert_eq!(get_s5_head_size(&[1]), 0);
    let mut seed: u64 = 1;
    let r = xorshift128plus(&mut seed);
    let x = 1u64 ^ (1u64 << 23);
    let next = x ^ 1 ^ (x >> 17) ^ (1 >> 26);
    assert_eq!(seed, next);
    assert_eq!(r, next.wrapping_add(1));
}

#[test]
fn server_info_defaults() {
    let a = ServerInfo::default();
    assert!(a.host.is_empty() && a.port == 0 && a.key.is_empty() && !a.udp);
    let mut b = ServerInfo::empty();
    b.host = "h".to_string();
    b.key = vec![1, 2];
    let c = b.duplicate();
    assert_eq!(c.host, "h");
    assert_eq!(c.key, vec![1, 2]);
}

#[test]
fn config_defaults() {
    assert_eq!(default_idle_timeout(), 300);
    assert_eq!(default_connect_timeout(), 6);
    assert_eq!(default_udp_timeout(), 6);
    assert_eq!(default_server_domain(), "goodsitesample.com");
}

fn link(host: &str, port: &str, pw: &str, params: &str) -> String {
    let body = format!("{}:{}:auth_aes128_md5:aes-256-cfb:tls1.2_ticket_auth:{}/{}", host, port, encode_urlsafe(pw.as_bytes()), params);
    format!("ssr://{}", encode_urlsafe(body.as_bytes()))
}

#[test]
fn ssr_link_decodes() {
    let params = format!("?obfsparam={}&protoparam={}&remarks=abc", encode_urlsafe(b"cdn.example"), encode_urlsafe(b"32:pw"));
    let l = link("my%2Dhost.net", "443", "pass:word", &params);
    let c = decode_ssr_link(&format!("  {}\n", l)).unwrap();
    assert_eq!(c.password, "pass:word");
    assert_eq!(c.method, "aes-256-cfb");
    assert_eq!(c.protocol, "auth_aes128_md5");
    assert_eq!(c.obfs, "tls1.2_ticket_auth");
    assert_eq!(c.obfs_param, "cdn.example");
    assert_eq!(c.protocol_param, "32:pw");
    let s = c.client_settings.unwrap();
    assert_eq!((s.server.as_str(), s.server_port), ("my-host.net", 443));
    assert_eq!((s.listen_address.as_str(), s.listen_port), ("127.0.0.1", 1080));
    assert_eq!((c.idle_timeout, c.connect_timeout, c.udp_timeout, c.udp), (300, 6, 6, false));
}

#[test]
fn ssr_link_built_from_settings_reads_back() {
    let body = format!(
        "{}:{}:{}:{}:{}:{}/?obfsparam={}&protoparam={}",
        "\u{4f8b}.example.jp",
        65535u16,
        "auth_sha1_v4",
        "chacha20-ietf",
        "http_simple",
        encode_urlsafe("p\u{e4}ss w\u{f6}rd".as_bytes()),
        encode_urlsafe("cdn.example".as_bytes()),
        encode_urlsafe("".as_bytes()),
    );
    let c = decode_ssr_link(&format!("ssr://{}", encode_urlsafe(body.as_bytes()))).unwrap();
    assert_eq!(c.protocol, "auth_sha1_v4");
    assert_eq!(c.method, "chacha20-ietf");
    assert_eq!(c.obfs, "http_simple");
    assert_eq!(c.password, "p\u{e4}ss w\u{f6}rd");
    assert_eq!(c.obfs_param, "cdn.example");
    assert_eq!(c.protocol_param, "");
    let s = c.client_settings.unwrap();
    assert_eq!((s.server.as_str(), s.server_port), ("\u{4f8b}.example.jp", 65535));
}

#[test]
fn ssr_link_errors() {
    assert!(matches!(decode_ssr_link("ss://abc"), Err(Error::Other(_))));
    assert!(matches!(decode_ssr_link("ssr://!!!"), Err(Error::Other(_))));
    let no_slash = format!("ssr://{}", encode_urlsafe(b"h:1:origin:none:plain:cHc"));
    assert!(matches!(decode_ssr_link(&no_slash), Err(Error::Other(_))));
    assert!(matches!(decode_ssr_link(&link("h", "70000", "pw", "")), Err(Error::Other(_))));
    let few = format!("ssr://{}", encode_urlsafe(b"h:1:origin:none/"));
    assert!(matches!(decode_ssr_link(&few), Err(Error::Other(_))));
}

#[test]
fn ssr_link_bad_password_base64_gives_empty_password() {
    let c = decode_ssr_link(&link("h", "1", "", "")).unwrap();
    assert_eq!(c.password, "");
    let body = b"h:1:origin:none:plain:***/";
    let c = decode_ssr_link(&format!("ssr://{}", encode_urlsafe(body))).unwrap();
    assert_eq!(c.password, "");
    assert_eq!(c.obfs_param, "");
}

#[test]
fn client_handshake_opens_tunnel_for_connect() {
    let mut hs = ClientHandshake::new();
    match hs.on_read(&[5, 2, 0, 2]) {
        ClientAction::Reply(r) => assert_eq!(r, vec![5, 0]),
        _ => panic!("expected a method reply"),
    }
    match hs.on_read(&[5, 1, 0, 3, 3, b'a', b'.', b'b', 0, 80]) {
        ClientAction::Open { reply, target } => {
            assert_eq!(reply, vec![5, 0, 0, 1, 0, 0, 0, 0, 0, 0]);
            assert_eq!(target, vec![3, 3, b'a', b'.', b'b', 0, 80]);
        }
        _ => panic!("expected the tunnel to open"),
    }
    assert!(matches!(hs.on_read(&[1]), ClientAction::Close));
}

#[test]
fn client_handshake_refusals() {
    let mut hs = ClientHandshake::new();
    match hs.on_read(&[5, 1, 2]) {
        ClientAction::ReplyClose(r) => assert_eq!(r, vec![5, 0xff]),
        _ => panic!("expected a refusal"),
    }
    let mut hs = ClientHandshake::new();
    assert!(matches!(hs.on_read(&[5, 1, 0]), ClientAction::Reply(_)));
    match hs.on_read(&[5, 2, 0, 1, 1, 2, 3, 4, 0, 1]) {
        ClientAction::ReplyClose(r) => assert_eq!(r, vec![5, 7, 0, 1, 0, 0, 0, 0, 0, 0]),
        _ => panic!("expected command not supported"),
    }
    let mut hs = ClientHandshake::new();
    assert!(matches!(hs.on_read(&[4, 1, 0]), ClientAction::Close));
    let mut hs = ClientHandshake::new();
    assert!(matches!(hs.on_read(&[5, 1]), ClientAction::Close));
}

#[test]
fn client_handshake_ip_target_in_wire_form() {
    let mut hs = ClientHandshake::new();
    assert!(matches!(hs.on_read(&[5, 1, 0]), ClientAction::Reply(_)));
    match hs.on_read(&[5, 1, 0, 1, 10, 0, 0, 1, 0x1f, 0x90]) {
        ClientAction::Open { target, .. } => assert_eq!(target, vec![1, 10, 0, 0, 1, 0x1f, 0x90]),
        _ => panic!("expected the tunnel to open"),
    }
}

#[test]
fn server_reads_first_packet() {
    let cfg = config("aes-256-ctr", "auth_sha1_v4", "http_simple");
    let mut client = TunnelCipherCtx::new(&cfg, false).unwrap();
    let mut server = TunnelCipherCtx::new(&cfg, true).unwrap();
    let up = client.client_encrypt(&[3, 7, b'e', b'x', b'.', b'o', b'r', b'g', b'!', 1, 187, b'h', b'i']).unwrap();
    let (target, rest) = server_first_packet(&mut server, &up).unwrap();
    assert_eq!(target, "ex.org!:443");
    assert_eq!(rest, b"hi".to_vec());

    let mut client = TunnelCipherCtx::new(&config("aes-256-ctr", "origin", "plain"), false).unwrap();
    let mut server = TunnelCipherCtx::new(&config("aes-256-ctr", "origin", "plain"), true).unwrap();
    let up = client.client_encrypt(&[9, 9, 9]).unwrap();
    assert!(matches!(server_first_packet(&mut server, &up), Err(Error::Socks5(_))));
}

#[test]
fn pipeline_every_write_read_back_in_turn() {
    let cfg = config("aes-256-cfb", "auth_sha1_v4", "http_simple");
    let mut client = TunnelCipherCtx::new(&cfg, false).unwrap();
    let mut server = TunnelCipherCtx::new(&cfg, true).unwrap();
    let writes: [&[u8]; 3] = [b"\x03\x0bexample.org\x01\xbbGET /", b" HTTP/1.1\r\n", b"Host: example.org\r\n\r\n"];
    for w in writes.iter() {
        let up = client.client_encrypt(w).unwrap();
        assert_eq!(server.server_decrypt(&up).unwrap(), w.to_vec());
    }
    let mut client_in = TunnelCipherCtx::new(&cfg, false).unwrap();
    let mut server_out = TunnelCipherCtx::new(&cfg, true).unwrap();
    for w in [&b"HTTP/1.1 200 OK\r\n"[..], &b"\r\nbody"[..]].iter() {
        let down = server_out.server_encrypt(w).unwrap();
        assert_eq!(client_in.client_decrypt(&down).unwrap(), w.to_vec());
    }
}

#[test]
fn auth_sha1_v4_server_rejects_bad_header_with_obfs_error() {
    let mut p = create_protocol("auth_sha1_v4").unwrap();
    let bad = [0u8, 12, 1, 2, 3, 4, 5, 6, 7, 8, 9, 10];
    assert!(matches!(p.server_post_decrypt(&bad), Err(Error::Obfs(_))));
}

#[test]
fn checked_pipeline_reads_back_and_refuses_out_of_bounds_headers() {
    let cfg = config("aes-128-ctr", "auth_sha1_v4", "plain");
    let mut client = TunnelCipherCtx::new(&cfg, false).unwrap();
    let mut server = TunnelCipherCtx::new(&cfg, true).unwrap();
    let up = client.client_encrypt_checked(b"\x03\x0bexample.org\x01\xbbhello").unwrap();
    assert_eq!(server.server_decrypt_checked(&up).unwrap(), b"\x03\x0bexample.org\x01\xbbhello".to_vec());
    let down = server.server_encrypt_checked(b"reply").unwrap();
    assert_eq!(client.client_decrypt_checked(&down).unwrap(), b"reply".to_vec());

    let mut p = create_protocol("auth_sha1_v4").unwrap();
    let short_header = [0u8, 5, 1, 2, 3, 4, 5, 6, 7, 8, 9, 10];
    assert!(matches!(p.server_post_decrypt_checked(&short_header), Err(Error::Obfs(_))));
}

#[test]
fn server_first_packet_checked_reads_target() {
    let cfg = config("aes-256-cfb", "", "");
    let mut client = TunnelCipherCtx::new(&cfg, false).unwrap();
    let mut server = TunnelCipherCtx::new(&cfg, true).unwrap();
    let up = client.client_encrypt_checked(&[3, 7, b'e', b'x', b'.', b'o', b'r', b'g', b'!', 1, 187, b'h', b'i']).unwrap();
    let (target, rest) = ssr_native_rs::session::server_first_packet_checked(&mut server, &up).unwrap();
    assert_eq!(target, "ex.org!:443");
    assert_eq!(rest, b"hi".to_vec());
}

#[test]
fn client_handshake_colon_domain_that_is_not_ipv6_closes() {
    let mut hs = ClientHandshake::new();
    assert!(matches!(hs.on_read(&[5, 1, 0]), ClientAction::Reply(_)));
    match hs.on_read(&[5, 1, 0, 3, 3, b'a', b':', b'b', 0, 80]) {
        ClientAction::ReplyClose(r) => assert_eq!(r, vec![5, 0, 0, 1, 0, 0, 0, 0, 0, 0]),
        _ => panic!("expected the connection to close"),
    }
    let mut hs = ClientHandshake::new();
    assert!(matches!(hs.on_read(&[5, 1, 0]), ClientAction::Reply(_)));
    match hs.on_read(&[5, 1, 0, 3, 3, b':', b':', b'1', 0, 80]) {
        ClientAction::Open { target, .. } => {
            let mut want = vec![4u8];
            want.extend_from_slice(&[0; 15]);
            want.extend_from_slice(&[1, 0, 80]);
            assert_eq!(target, want);
        }
        _ => panic!("expected the tunnel to open"),
    }
}
