use ssr_native_rs::crypto::aead::{AeadMethod, AeadTcpCipher, AeadUdpCipher};
use ssr_native_rs::crypto::hkdf::sha256_hkdf;
use ssr_native_rs::crypto::key_derive::{bytes_to_key, crypto_derive_key};
use ssr_native_rs::crypto::stream::{CipherMethod, StreamCipher, TableCipher};
use ssr_native_rs::crypto::SsrCipher;
use ssr_native_rs::error::Error;
use ssr_native_rs::obfs::obfsutil::{hmac_sha1, ss_md5_hash_func, ss_md5_hmac_with_key, ss_sha1_hash_func, ss_sha1_hmac_with_key};

fn hex(s: &str) -> Vec<u8> {
    (0..s.len()).step_by(2).map(|i| u8::from_str_radix(&s[i..i + 2], 16).unwrap()).collect()
}

#[test]
fn evp_bytes_to_key_md5() {
    let (key, iv) = bytes_to_key(b"password", 16, 16);
    assert_eq!(key, hex("5f4dcc3b5aa765d61d8327deb882cf99"));
    let mut second = key.clone();
    second.extend_from_slice(b"password");
    assert_eq!(iv, ss_md5_hash_func(&second));
    let (k24, iv8) = bytes_to_key(b"password", 24, 8);
    assert_eq!(&k24[..16], &key[..]);
    assert_eq!(&k24[16..], &iv[..8]);
    assert_eq!(&iv8[..], &iv[8..]);
    let (k32, none) = bytes_to_key(b"password", 32, 0);
    assert_eq!(&k32[..16], &key[..]);
    assert_eq!(&k32[16..], &iv[..]);
    assert!(none.is_empty());
    assert_eq!(crypto_derive_key(b"password", 32), k32);
    assert_eq!(crypto_derive_key(b"password", 16), key);
}

#[test]
fn digests_and_hmac() {
    assert_eq!(ss_md5_hash_func(b""), hex("d41d8cd98f00b204e9800998ecf8427e"));
    assert_eq!(ss_sha1_hash_func(b"abc"), hex("a9993e364706816aba3e25717850c26c9cd0d89d"));
    assert_eq!(
        hmac_sha1(b"Jefe", b"what do ya want for nothing?"),
        hex("effcdf6ae5eb2fa2d27416d5f184df9c259a7c79")
    );
}

#[test]
fn hkdf_sha256_rfc5869_case1() {
    let ikm = [0x0bu8; 22];
    let salt = hex("000102030405060708090a0b0c");
    let info = hex("f0f1f2f3f4f5f6f7f8f9");
    assert_eq!(
        sha256_hkdf(&salt, &ikm, &info, 42),
        hex("3cb25f25faacd57a90434f64d0362f2a2d2d0a90cf1a5a4c5db02d56ecc4c5bf34007208d5b887185865")
    );
}

#[test]
fn method_names_and_lengths() {
    assert_eq!(CipherMethod::from_name("AES-256-CFB"), Some(CipherMethod::Aes256Cfb));
    assert_eq!(CipherMethod::from_name("rc4-md5-6"), Some(CipherMethod::Rc4Md5_6));
    assert_eq!(CipherMethod::from_name("aes-256-gcm"), None);
    assert_eq!(CipherMethod::Aes192Ctr.name(), "aes-192-ctr");
    assert_eq!(CipherMethod::Aes192Ctr.key_len(), 24);
    assert_eq!(CipherMethod::Aes192Ctr.iv_len(), 16);
    assert_eq!(CipherMethod::ChaCha20.iv_len(), 8);
    assert_eq!(CipherMethod::ChaCha20Ietf.iv_len(), 12);
    assert_eq!(CipherMethod::Rc4Md5_6.iv_len(), 6);
    assert_eq!(CipherMethod::Table.iv_len(), 0);
    assert!(CipherMethod::Aes128Cfb.need_iv_prepend());
    assert!(CipherMethod::Rc4Md5.need_iv_prepend());
    assert!(CipherMethod::Rc4Md5_6.need_iv_prepend());
    assert!(!CipherMethod::Rc4.need_iv_prepend());
    assert_eq!(AeadMethod::from_name("ChaCha20-IETF-Poly1305"), Some(AeadMethod::ChaCha20Poly1305));
    assert_eq!(AeadMethod::from_name("aes-256-cfb"), None);
    assert_eq!(AeadMethod::XChaCha20Poly1305.nonce_len(), 24);
    assert_eq!(AeadMethod::Aes128Gcm.key_len(), 16);
    assert_eq!(AeadMethod::Aes128Gcm.tag_len(), 16);
    assert_eq!(AeadMethod::Aes128Gcm.salt_len(), 32);
    assert_eq!(AeadMethod::Aes256Gcm.name(), "aes-256-gcm");
}

#[test]
fn aes128_ctr_known_answer() {
    let mut c = StreamCipher::new(CipherMethod::Aes128Ctr, hex("2b7e151628aed2a6abf7158809cf4f3c"));
    let iv = hex("f0f1f2f3f4f5f6f7f8f9fafbfcfdfeff");
    let out = c.encrypt_with_iv(&hex("6bc1bee22e409f96e93d7e117393172a"), &iv).unwrap();
    assert_eq!(&out[..16], &iv[..]);
    assert_eq!(&out[16..], &hex("874d6191b620e3261bef6864990db6ce")[..]);
    assert!(c.initialized());
    assert_eq!(c.method(), CipherMethod::Aes128Ctr);
}

#[test]
fn aes128_cfb_known_answer() {
    let mut c = StreamCipher::new(CipherMethod::Aes128Cfb, hex("2b7e151628aed2a6abf7158809cf4f3c"));
    let iv = hex("000102030405060708090a0b0c0d0e0f");
    let out = c.encrypt_with_iv(&hex("6bc1bee22e409f96e93d7e117393172a"), &iv).unwrap();
    assert_eq!(&out[16..], &hex("3b3fd92eb72dad20333449f8e83cfb4a")[..]);
    let mut d = StreamCipher::new(CipherMethod::Aes128Cfb, hex("2b7e151628aed2a6abf7158809cf4f3c"));
    assert_eq!(d.decrypt(&out).unwrap(), hex("6bc1bee22e409f96e93d7e117393172a"));
}

#[test]
fn chacha20_ietf_zero_key_keystream() {
    let mut c = StreamCipher::new(CipherMethod::ChaCha20Ietf, vec![0u8; 32]);
    let out = c.encrypt_with_iv(&[0u8; 32], &[0u8; 12]).unwrap();
    assert_eq!(&out[12..], &hex("76b8e0ada0f13d90405d6ae55386bd28bdd219b8a08ded1aa836efcc8b770dc7")[..]);
}

fn stream_roundtrip(method: &str) {
    let m = CipherMethod::from_name(method).unwrap();
    let key = if m == CipherMethod::Table {
        b"secret".to_vec()
    } else {
        bytes_to_key(b"secret", m.key_len(), m.iv_len()).0
    };
    let mut enc = StreamCipher::new(m, key.clone());
    let mut dec = StreamCipher::new(m, key);
    let c1 = enc.encrypt(b"first message").unwrap();
    let c2 = enc.encrypt(b", then the second").unwrap();
    assert_eq!(c1.len(), 13 + m.iv_len());
    if m != CipherMethod::NoEncryption {
        assert_ne!(&c1[c1.len() - 13..], b"first message");
    }
    assert_eq!(dec.decrypt(&c1).unwrap(), b"first message".to_vec());
    assert_eq!(dec.decrypt(&c2).unwrap(), b", then the second".to_vec());
}

#[test]
fn stream_roundtrip_every_keystream_method() {
    for m in [
        "none", "table", "rc4", "aes-128-ctr", "aes-256-ctr", "salsa20", "chacha20", "chacha20-ietf",
        "aes-128-cfb", "aes-256-cfb", "camellia-128-cfb", "camellia-256-cfb", "bf-cfb", "cast5-cfb",
        "rc4-md5", "rc4-md5-6",
    ] {
        stream_roundtrip(m);
    }
}

#[test]
fn stream_decrypt_of_whole_stream_at_once() {
    let key = bytes_to_key(b"k", 32, 16).0;
    let mut enc = StreamCipher::new(CipherMethod::Aes256Ctr, key.clone());
    let mut all = enc.encrypt(b"abc").unwrap();
    all.extend(enc.encrypt(b"defgh").unwrap());
    let mut dec = StreamCipher::new(CipherMethod::Aes256Ctr, key);
    assert_eq!(dec.decrypt(&all).unwrap(), b"abcdefgh".to_vec());
}

#[test]
fn stream_decrypt_short_iv_is_error() {
    let key = bytes_to_key(b"k", 32, 16).0;
    let mut dec = StreamCipher::new(CipherMethod::Aes256Ctr, key);
    assert!(matches!(dec.decrypt(&[1, 2, 3]), Err(Error::Crypto(_))));
    assert!(!dec.initialized());
}

#[test]
fn table_cipher_roundtrip() {
    let t = TableCipher::new(b"foobar!");
    let mut data = b"table cipher data".to_vec();
    t.encrypt(&mut data);
    assert_ne!(data, b"table cipher data".to_vec());
    t.decrypt(&mut data);
    assert_eq!(data, b"table cipher data".to_vec());
}

#[test]
fn aead_tcp_roundtrip_each_method() {
    for m in [AeadMethod::Aes128Gcm, AeadMethod::Aes192Gcm, AeadMethod::Aes256Gcm, AeadMethod::ChaCha20Poly1305, AeadMethod::XChaCha20Poly1305] {
        let key = crypto_derive_key(b"pw", m.key_len());
        let mut enc = AeadTcpCipher::new(m, key.clone());
        let mut dec = AeadTcpCipher::new(m, key);
        let c1 = enc.encrypt(b"hello").unwrap();
        assert!(enc.is_initialized());
        let c2 = enc.encrypt(b"world!").unwrap();
        assert_eq!(dec.decrypt(&c1).unwrap(), b"hello".to_vec());
        assert_eq!(dec.decrypt(&c2).unwrap(), b"world!".to_vec());
        assert_eq!(enc.method(), m);
    }
}

#[test]
fn aead_tcp_deterministic_with_salt_and_tamper_detected() {
    let key = crypto_derive_key(b"pw", 32);
    let salt = [7u8; 32];
    let mut a = AeadTcpCipher::new(AeadMethod::ChaCha20Poly1305, key.clone());
    let mut b = AeadTcpCipher::new(AeadMethod::ChaCha20Poly1305, key.clone());
    let ca = a.encrypt_with_salt(b"same", &salt).unwrap();
    let cb = b.encrypt_with_salt(b"same", &salt).unwrap();
    assert_eq!(ca, cb);
    assert_eq!(&ca[..32], &salt[..]);
    let mut bad = ca.clone();
    let last = bad.len() - 1;
    bad[last] ^= 1;
    let mut dec = AeadTcpCipher::new(AeadMethod::ChaCha20Poly1305, key);
    assert!(matches!(dec.decrypt(&bad), Err(Error::Crypto(_))));
}

#[test]
fn aead_aes192_gcm_udp_roundtrip() {
    let key = crypto_derive_key(b"pw", 24);
    let c = AeadUdpCipher::new(AeadMethod::Aes192Gcm, key.clone());
    let pkt = c.encrypt(b"x").unwrap();
    assert_eq!(pkt.len(), 32 + 1 + 16);
    let d = AeadUdpCipher::new(AeadMethod::Aes192Gcm, key);
    assert_eq!(d.decrypt(&pkt).unwrap(), b"x".to_vec());
}

#[test]
fn aead_udp_roundtrip() {
    let key = crypto_derive_key(b"udp", 32);
    let c = AeadUdpCipher::new(AeadMethod::Aes256Gcm, key.clone());
    let pkt = c.encrypt(b"datagram").unwrap();
    assert_eq!(pkt.len(), 32 + 8 + 16);
    let d = AeadUdpCipher::new(AeadMethod::Aes256Gcm, key);
    assert_eq!(d.decrypt(&pkt).unwrap(), b"datagram".to_vec());
    assert!(matches!(d.decrypt(&pkt[..20]), Err(Error::Crypto(_))));
}

#[test]
fn ssr_cipher_by_name() {
    let mut enc = SsrCipher::new("aes-256-ctr", "pw").unwrap();
    let mut dec = SsrCipher::new("AES-256-CTR", "pw").unwrap();
    assert!(!enc.is_aead());
    assert_eq!(enc.method_name(), "aes-256-ctr");
    let c = enc.encrypt(b"payload").unwrap();
    assert!(enc.is_initialized());
    assert_eq!(dec.decrypt(&c).unwrap(), b"payload".to_vec());

    let mut a = SsrCipher::new("aes-128-gcm", "pw").unwrap();
    let mut b = SsrCipher::new("aes-128-gcm", "pw").unwrap();
    assert!(a.is_aead());
    let c = a.encrypt(b"aead payload").unwrap();
    assert_eq!(b.decrypt(&c).unwrap(), b"aead payload".to_vec());

    assert!(matches!(SsrCipher::new("rot13", "pw"), Err(Error::Crypto(_))));
    for m in ["aes-192-cfb", "aes-192-ctr", "camellia-192-cfb", "des-cfb"] {
        let mut e = SsrCipher::new(m, "pw").unwrap();
        let mut d = SsrCipher::new(m, "pw").unwrap();
        let c = e.encrypt(b"split digest keys").unwrap();
        assert_eq!(d.decrypt(&c).unwrap(), b"split digest keys".to_vec());
    }
    assert!(SsrCipher::new_udp("chacha20-ietf-poly1305", "pw").is_ok());
    assert!(matches!(SsrCipher::new_udp("aes-256-cfb", "pw"), Err(Error::Crypto(_))));
}

fn cfb_first_block(method: CipherMethod, key: &str, iv: &str, len: usize) -> Vec<u8> {
    let mut c = StreamCipher::new(method, hex(key));
    let iv = hex(iv);
    let out = c.encrypt_with_iv(&vec![0u8; len], &iv).unwrap();
    assert_eq!(&out[..iv.len()], &iv[..]);
    out[iv.len()..].to_vec()
}

#[test]
fn cfb_block_ciphers_known_answers() {
    assert_eq!(
        cfb_first_block(CipherMethod::Camellia128Cfb, "0123456789abcdeffedcba9876543210", "0123456789abcdeffedcba9876543210", 16),
        hex("67673138549669730857065648eabe43")
    );
    assert_eq!(
        cfb_first_block(CipherMethod::BfCfb, "00000000000000000000000000000000", "0000000000000000", 8),
        hex("4ef997456198dd78")
    );
    assert_eq!(
        cfb_first_block(CipherMethod::Cast5Cfb, "0123456712345678234567893456789a", "0123456789abcdef", 8),
        hex("238b4fe5847e44b2")
    );
    assert_eq!(cfb_first_block(CipherMethod::DesCfb, "133457799bbcdff1", "0123456789abcdef", 8), hex("85e813540f0ab405"));
}

#[test]
fn md5_hmac_rfc2104() {
    assert_eq!(
        ss_md5_hmac_with_key(b"what do ya want for nothing?", b"Jefe"),
        hex("750c783e6ab0b503eaa86e310a5db738")
    );
    assert_eq!(
        ss_sha1_hmac_with_key(b"what do ya want for nothing?", b"Jefe"),
        hex("effcdf6ae5eb2fa2d27416d5f184df9c259a7c79")
    );
}

#[test]
fn aes128_cfb_four_blocks_in_pieces() {
    let key = hex("2b7e151628aed2a6abf7158809cf4f3c");
    let iv = hex("000102030405060708090a0b0c0d0e0f");
    let pt = hex(&[
        "6bc1bee22e409f96e93d7e117393172a",
        "ae2d8a571e03ac9c9eb76fac45af8e51",
        "30c81c46a35ce411e5fbc1191a0a52ef",
        "f69f2445df4f9b17ad2b417be66c3710",
    ]
    .concat());
    let ct = hex(&[
        "3b3fd92eb72dad20333449f8e83cfb4a",
        "c8a64537a0b3a93fcde3cdad9f1ce58b",
        "26751f67a3cbb140b1808cf187a4f4df",
        "c04b05357c5d1c0eeac4c66f9ff7f2e6",
    ]
    .concat());
    let mut enc = StreamCipher::new(CipherMethod::Aes128Cfb, key.clone());
    let mut out = enc.encrypt_with_iv(&pt[..5], &iv).unwrap();
    out.extend(enc.encrypt(&pt[5..37]).unwrap());
    out.extend(enc.encrypt(&pt[37..]).unwrap());
    assert_eq!(&out[..16], &iv[..]);
    assert_eq!(&out[16..], &ct[..]);
    let mut dec = StreamCipher::new(CipherMethod::Aes128Cfb, key);
    let mut back = dec.decrypt(&out[..20]).unwrap();
    back.extend(dec.decrypt(&out[20..]).unwrap());
    assert_eq!(back, pt);
}

#[test]
fn aead_tcp_two_writes_in_one_read() {
    let key = crypto_derive_key(b"pw", 16);
    let mut enc = AeadTcpCipher::new(AeadMethod::Aes128Gcm, key.clone());
    let mut dec = AeadTcpCipher::new(AeadMethod::Aes128Gcm, key);
    let mut both = enc.encrypt(b"first ").unwrap();
    both.extend_from_slice(&enc.encrypt(b"second").unwrap());
    assert_eq!(dec.decrypt(&both).unwrap(), b"first second".to_vec());
}

#[test]
fn ssr_cipher_decrypts_what_it_encrypts() {
    for m in [
        "aes-256-cfb", "aes-128-ctr", "chacha20", "chacha20-ietf", "rc4-md5", "rc4-md5-6", "rc4", "table", "none",
        "aes-128-gcm", "aes-192-gcm", "chacha20-ietf-poly1305",
    ] {
        let mut c = SsrCipher::new(m, "my_password").unwrap();
        let ct = c.encrypt(b"hello world").unwrap();
        assert_eq!(c.decrypt(&ct).unwrap(), b"hello world".to_vec());
        let ct2 = c.encrypt(b"and more").unwrap();
        assert_eq!(c.decrypt(&ct2).unwrap(), b"and more".to_vec());
    }
}

#[test]
fn ssr_cipher_first_output_carries_iv() {
    let mut c = SsrCipher::new("aes-256-cfb", "my_password").unwrap();
    assert!(!c.is_initialized());
    let ct = c.encrypt(b"hello world").unwrap();
    assert_eq!(ct.len(), 16 + 11);
    assert!(c.is_initialized());
    let mut u = SsrCipher::new_udp("aes-128-gcm", "my_password").unwrap();
    let packet = u.encrypt(b"udp data").unwrap();
    assert_eq!(packet.len(), 32 + 8 + 16);
    assert_eq!(u.decrypt(&packet).unwrap(), b"udp data".to_vec());
    u = SsrCipher::new_udp("aes-128-gcm", "my_password").unwrap();
    assert!(matches!(u.decrypt(&packet[..47]), Err(Error::Crypto(_))));
}

#[test]
fn derived_keys_are_prefixes() {
    assert_eq!(crypto_derive_key(b"", 16), hex("d41d8cd98f00b204e9800998ecf8427e"));
    let long = crypto_derive_key(b"pw", 32);
    let short = crypto_derive_key(b"pw", 16);
    assert_eq!(long.len(), 32);
    assert_eq!(&long[..16], &short[..]);
}

#[test]
fn table_decrypt_then_encrypt_restores() {
    let t = TableCipher::new(b"foobar!");
    let all: Vec<u8> = (0..=255u8).collect();
    let mut data = all.clone();
    t.decrypt(&mut data);
    t.encrypt(&mut data);
    assert_eq!(data, all);
}

#[test]
fn aead_tcp_many_writes_in_order() {
    let key = crypto_derive_key(b"pw", 32);
    let mut a = AeadTcpCipher::new(AeadMethod::ChaCha20Poly1305, key.clone());
    let mut b = AeadTcpCipher::new(AeadMethod::ChaCha20Poly1305, key.clone());
    let mut all = Vec::new();
    let mut cts = Vec::new();
    for p in [&b"one"[..], &b"two"[..], &b"three"[..]] {
        let c = a.encrypt(p).unwrap();
        assert_eq!(b.decrypt(&c).unwrap(), p.to_vec());
        all.extend_from_slice(&c);
        cts.push(c);
    }
    let mut whole = AeadTcpCipher::new(AeadMethod::ChaCha20Poly1305, key);
    assert_eq!(whole.decrypt(&all).unwrap(), b"onetwothree".to_vec());
    let mut short = AeadTcpCipher::new(AeadMethod::ChaCha20Poly1305, crypto_derive_key(b"pw", 32));
    assert!(matches!(short.decrypt(&cts[0][..20]), Err(Error::Crypto(_))));
    assert!(!short.is_initialized());
}
