use ssr_native_rs::base64::{decode, decode_urlsafe, encode, encode_urlsafe};
use ssr_native_rs::buffer::Buffer;
use ssr_native_rs::bytes::{bytes_eq, u16_from_be, u16_to_be, u32_from_le, u64_from_be_at, u64_from_le_at, u64_to_be};
use ssr_native_rs::cache::{is_live, Cache};
use ssr_native_rs::crc32::{adler32, crc32};
use ssr_native_rs::error::Error;
use ssr_native_rs::ip::{format_ipv4, format_ipv6, parse_ipv4_text, parse_ipv6_text};
use ssr_native_rs::text::{cut_at, decimal_string, push_decimal, str_eq};
use ssr_native_rs::utils::is_numeric;
use ssr_native_rs::websocket::WebSocketFrame;

#[test]
fn crc32_check_value() {
    assert_eq!(crc32(b"123456789"), 0xCBF4_3926);
    assert_eq!(crc32(b""), 0);
}

#[test]
fn adler32_known_values() {
    assert_eq!(adler32(b"Wikipedia"), 0x11E6_0398);
    assert_eq!(adler32(b""), 1);
}

#[test]
fn byte_order_helpers() {
    assert_eq!(u32_from_le(0x78, 0x56, 0x34, 0x12), 0x1234_5678);
    assert_eq!(u16_from_be(0x12, 0x34), 0x1234);
    assert_eq!(u16_to_be(0xABCD), [0xAB, 0xCD]);
    assert_eq!(u64_to_be(0x0102_0304_0506_0708), [1, 2, 3, 4, 5, 6, 7, 8]);
    let s = [9u8, 1, 2, 3, 4, 5, 6, 7, 8];
    assert_eq!(u64_from_be_at(&s, 1), 0x0102_0304_0506_0708);
    assert_eq!(u64_from_le_at(&s, 1), 0x0807_0605_0403_0201);
    assert!(bytes_eq(b"abc", b"abc"));
    assert!(!bytes_eq(b"abc", b"abd"));
    assert!(!bytes_eq(b"abc", b"ab"));
}

#[test]
fn base64_standard_and_urlsafe() {
    assert_eq!(encode(b"hello"), "aGVsbG8=");
    assert_eq!(decode("aGVsbG8=").unwrap(), b"hello".to_vec());
    assert_eq!(encode_urlsafe(b"hello"), "aGVsbG8");
    assert_eq!(decode_urlsafe("aGVsbG8").unwrap(), b"hello".to_vec());
    assert_eq!(encode(&[0xfb, 0xff]), "+/8=");
    assert_eq!(encode_urlsafe(&[0xfb, 0xff]), "-_8");
}

#[test]
fn base64_decode_errors() {
    assert!(matches!(decode("a!b="), Err(Error::Other(_))));
    assert!(matches!(decode_urlsafe("aGVsbG8="), Err(Error::Other(_))));
}

#[test]
fn base64_roundtrip() {
    let data: Vec<u8> = (0u8..=255).collect();
    assert_eq!(decode(&encode(&data)).unwrap(), data);
    assert_eq!(decode_urlsafe(&encode_urlsafe(&data)).unwrap(), data);
}

#[test]
fn text_helpers() {
    assert_eq!(decimal_string(0), "0");
    assert_eq!(decimal_string(65535), "65535");
    let mut out = b"x".to_vec();
    push_decimal(&mut out, 407);
    assert_eq!(out, b"x407".to_vec());
    assert!(str_eq("abc", "abc"));
    assert!(!str_eq("abc", "abC"));
    assert_eq!(cut_at("host:443", b':'), Some(("host", "443")));
    assert_eq!(cut_at("host", b':'), None);
}

#[test]
fn is_numeric_cases() {
    assert!(is_numeric("0123456789"));
    assert!(is_numeric(""));
    assert!(!is_numeric("12a"));
    assert!(!is_numeric("-1"));
    assert!(!is_numeric("１２"));
}

#[test]
fn buffer_operations() {
    let mut b = Buffer::new();
    assert!(b.is_empty());
    b.append(b"hello");
    b.append_byte(b'!');
    assert_eq!(b.as_slice(), b"hello!");
    assert_eq!(b.len(), 6);
    b.insert(0, b">> ");
    assert_eq!(b.as_slice(), b">> hello!");
    b.insert(9, b"?");
    assert_eq!(b.as_slice(), b">> hello!?");
    b.shorten(3);
    assert_eq!(b.as_slice(), b"hello!?");
    let rest = b.split_off(5);
    assert_eq!(rest, b"!?".to_vec());
    assert_eq!(b.as_slice(), b"hello");
    b.as_mut_slice()[0] = b'j';
    assert_eq!(b.into_inner(), b"jello".to_vec());
}

#[test]
fn buffer_shorten_past_end_empties() {
    let mut b = Buffer::from(vec![1, 2, 3]);
    b.shorten(3);
    assert!(b.is_empty());
    let mut c = Buffer::with_capacity(16);
    c.append(&[7, 8]);
    c.shorten(10);
    assert_eq!(c.len(), 0);
    let mut d: Buffer = Buffer::default();
    d.append_byte(1);
    d.clear();
    assert!(d.is_empty());
    let e: Buffer = From::from(vec![4u8, 5]);
    assert_eq!(e.as_slice(), &[4, 5]);
    let r: &[u8] = e.as_ref();
    assert_eq!(r, &[4, 5]);
}

#[test]
fn cache_insert_get_remove() {
    let mut c: Cache<u64, String> = Cache::new(60);
    assert_eq!(c.get(&1), None);
    c.insert(1, "one".to_string());
    c.insert(2, "two".to_string());
    assert_eq!(c.get(&1).map(|s| s.as_str()), Some("one"));
    c.insert(1, "uno".to_string());
    assert_eq!(c.get(&1).map(|s| s.as_str()), Some("uno"));
    c.remove(&1);
    assert_eq!(c.get(&1), None);
    assert_eq!(c.get(&2).map(|s| s.as_str()), Some("two"));
    c.clear();
    assert_eq!(c.get(&2), None);
}

#[test]
fn cache_zero_ttl_serves_nothing() {
    let mut c: Cache<u64, u32> = Cache::new(0);
    c.insert(5, 50);
    assert_eq!(c.get(&5), None);
    assert!(is_live(0, 1));
    assert!(!is_live(1, 1));
    assert!(!is_live(0, 0));
}

#[test]
fn ipv4_text_parse_and_format() {
    assert_eq!(parse_ipv4_text(b"192.168.1.20"), Some(vec![192, 168, 1, 20]));
    assert_eq!(parse_ipv4_text(b"256.1.1.1"), None);
    assert_eq!(parse_ipv4_text(b"1.2.3"), None);
    assert_eq!(parse_ipv4_text(b"01.2.3.4"), None);
    assert_eq!(parse_ipv4_text(b"1.2.3.4 "), None);
    assert_eq!(format_ipv4(&[10, 0, 0, 255]), b"10.0.0.255".to_vec());
}

#[test]
fn ipv6_text_parse_and_format() {
    assert_eq!(parse_ipv6_text(b"::1"), Some(vec![0, 0, 0, 0, 0, 0, 0, 1]));
    assert_eq!(
        parse_ipv6_text(b"2001:db8::8a2e:370:7334"),
        Some(vec![0x2001, 0xdb8, 0, 0, 0, 0x8a2e, 0x370, 0x7334])
    );
    assert_eq!(parse_ipv6_text(b"::ffff:1.2.3.4"), Some(vec![0, 0, 0, 0, 0, 0xffff, 0x0102, 0x0304]));
    assert_eq!(parse_ipv6_text(b"1::2::3"), None);
    assert_eq!(parse_ipv6_text(b"12345::"), None);
    assert_eq!(format_ipv6(&[0, 0, 0, 0, 0, 0, 0, 1]), b"::1".to_vec());
    assert_eq!(format_ipv6(&[0, 0, 0, 0, 0, 0, 0, 0]), b"::".to_vec());
    assert_eq!(format_ipv6(&[0x2001, 0xdb8, 0, 0, 1, 0, 0, 1]), b"2001:db8::1:0:0:1".to_vec());
    assert_eq!(format_ipv6(&[1, 0, 2, 0, 3, 0, 4, 0]), b"1:0:2:0:3:0:4:0".to_vec());
}

#[test]
fn ipv6_text_canonical_forms() {
    assert_eq!(format_ipv6(&[0, 0, 0, 0, 0, 0xffff, 0xc000, 0x0280]), b"::ffff:192.0.2.128".to_vec());
    assert_eq!(format_ipv6(&[0xfe80, 0, 0, 0, 0x1ff, 0xfe23, 0x4567, 0x890a]), b"fe80::1ff:fe23:4567:890a".to_vec());
    assert_eq!(format_ipv6(&[1, 2, 3, 4, 5, 6, 7, 8]), b"1:2:3:4:5:6:7:8".to_vec());
    assert_eq!(format_ipv6(&[0, 0, 1, 0, 0, 0, 0, 0]), b"0:0:1::".to_vec());
    assert_eq!(format_ipv6(&[0, 0, 0, 0, 0, 0, 0x0102, 0x0304]), b"::102:304".to_vec());
}

#[test]
fn websocket_roundtrip_with_mask() {
    let payload = b"websocket payload".to_vec();
    let frame = WebSocketFrame::encode_with_mask(&payload, 2, [1, 2, 3, 4]);
    assert_eq!(frame[0], 0x82);
    assert_eq!(frame[1], 0x80 | payload.len() as u8);
    assert_eq!(&frame[2..6], &[1, 2, 3, 4]);
    assert_eq!(frame[6], b'w' ^ 1);
    let (decoded, used) = WebSocketFrame::decode(&frame).unwrap();
    assert_eq!(decoded, payload);
    assert_eq!(used, frame.len());
}

#[test]
fn websocket_lengths_and_partial_frames() {
    let long = vec![0x5au8; 300];
    let frame = WebSocketFrame::encode(&long, 1);
    assert_eq!(frame[1], 0x80 | 126);
    assert_eq!(&frame[2..4], &[0x01, 0x2c]);
    let (decoded, used) = WebSocketFrame::decode(&frame).unwrap();
    assert_eq!(decoded, long);
    assert_eq!(used, 4 + 4 + 300);
    assert_eq!(WebSocketFrame::decode(&frame[..frame.len() - 1]), None);
    assert_eq!(WebSocketFrame::decode(&[0x81]), None);
    let unmasked = [0x81u8, 3, b'a', b'b', b'c', 0xff];
    assert_eq!(WebSocketFrame::decode(&unmasked), Some((b"abc".to_vec(), 5)));
}

#[test]
fn ipv4_format_then_parse_gives_octets() {
    for o in [[0u8, 0, 0, 0], [255, 255, 255, 255], [1, 20, 100, 9], [10, 0, 99, 200]] {
        assert_eq!(parse_ipv4_text(&format_ipv4(&o)), Some(o.to_vec()));
    }
}

#[test]
fn ipv6_format_then_parse_gives_groups() {
    let cases: [[u16; 8]; 6] = [
        [0, 0, 0, 0, 0, 0, 0, 0],
        [0, 0, 0, 0, 0, 0xffff, 0x0a00, 0x0001],
        [0x2001, 0xdb8, 0, 0, 1, 0, 0, 1],
        [1, 0, 2, 0, 3, 0, 4, 0],
        [0xfe80, 0, 0, 0, 0, 0, 0, 0],
        [0xabcd, 0xef01, 0x2345, 0x6789, 0xabcd, 0xef01, 0x2345, 0x6789],
    ];
    for g in cases.iter() {
        assert_eq!(parse_ipv6_text(&format_ipv6(g)), Some(g.to_vec()));
    }
}

#[test]
fn error_messages_carry_their_kind() {
    assert_eq!(Error::Config("bad".to_string()).message(), "Config error: bad");
    assert_eq!(Error::Obfs("x".to_string()).message(), "Obfuscation error: x");
    assert_eq!(Error::Socks5("y".to_string()).message(), "SOCKS5 error: y");
    assert_eq!(Error::Websocket("z".to_string()).message(), "WebSocket error: z");
    assert_eq!(Error::Other("w".to_string()).message(), "Error: w");
}

#[test]
fn cache_serves_by_age() {
    let mut c: Cache<u64, String> = Cache::new(60);
    c.insert(1, "one".to_string());
    assert_eq!(c.get_aged(&1, 10).map(|s| s.as_str()), Some("one"));
    assert_eq!(c.get_aged(&1, 59).map(|s| s.as_str()), Some("one"));
    assert_eq!(c.get_aged(&1, 60), None);
    assert_eq!(c.get_aged(&2, 0), None);
}

#[test]
fn base64_rejects_foreign_characters() {
    assert!(matches!(decode("@@@@"), Err(Error::Other(_))));
    assert!(matches!(decode_urlsafe("ab+c"), Err(Error::Other(_))));
    assert!(matches!(decode_urlsafe("ab/c"), Err(Error::Other(_))));
    assert!(matches!(decode_urlsafe("YQ=="), Err(Error::Other(_))));
    assert!(matches!(decode("a-_b"), Err(Error::Other(_))));
    assert_eq!(encode_urlsafe(&[0xfb, 0xff]), "-_8");
    assert_eq!(decode_urlsafe("-_8").unwrap(), vec![0xfb, 0xff]);
}
