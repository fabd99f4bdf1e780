# ssr-native-rs

ShadowsocksR (SSR) in Rust: a SOCKS5 client front end and an SSR server, built on a
library whose logic is specified and proved with Verus.

## Layout

- `src/` — the verified library.
  - `crypto/` — stream ciphers (table, RC4, AES/Camellia/Blowfish/CAST5/DES in CFB, AES-CTR,
    Salsa20, ChaCha20), AEAD ciphers (AES-GCM, ChaCha20-Poly1305, XChaCha20-Poly1305) with
    their chunked TCP framing, EVP_BytesToKey and HKDF key derivation. The block ciphers,
    keystreams and AEAD primitives of the RustCrypto crates are called through small trusted
    wrappers in `crypto/primitives.rs`.
  - `obfs/` — protocol plugins (`auth_sha1_v4` and the pass-through ones) and obfuscation
    plugins (`http_simple`, `http_post`, `http_mix`, the TLS ticket ones), with the checksum
    and HMAC helpers they share.
  - `protocol/` — `TunnelCipherCtx`, the protocol → cipher → obfuscation pipeline.
  - `socks5/` — the SOCKS5 parser state machine, address codec and packet builders.
  - `session.rs` — the decisions of a client connection's handshake and of a server's first
    packet.
  - `ip.rs`, `text.rs`, `bytes.rs`, `crc32.rs`, `base64.rs`, `websocket.rs`, `buffer.rs`,
    `cache.rs`, `qr_code.rs`, `config.rs`, `utils.rs` — the rest of the library.
- `tests/` — tests on concrete values.
- `app/` — the program: command line, configuration file, sockets, TLS, DNS and the relay
  loop, around the library.

Laws of the library are public proof functions named `lemma_*`, for example
`protocol::ssr_executive::lemma_pipeline_roundtrip` (a receiver in step with a sender reads
back each write and stays in step), `protocol::ssr_executive::lemma_pipelines_start_in_step`
(two pipelines built from one configuration start in step),
`obfs::http_simple::lemma_http_frame_roundtrip`, `crypto::stream::lemma_stream_step`,
`crypto::aead::lemma_aead_tcp_decrypt_concat`, `crypto::lemma_ssr_cipher_roundtrip` (an
`SsrCipher` decrypts what it encrypts: each one keeps a separate state per direction),
`crypto::key_derive::lemma_derived_key_prefix`, `socks5::packet::lemma_udp_datagram_roundtrip`,
`websocket::lemma_ws_prefix_incomplete`,
`socks5::s5::lemma_s5_run_pieces` (input may arrive in pieces), `ip::lemma_ipv6_text_roundtrip`,
`session::lemma_request_target_ip`, `crypto::table::lemma_table_roundtrip_reverse` (encrypting
undoes decrypting), `crypto::aead::lemma_aead_tcp_decrypt_chain` (a receiver decrypts a chain
of writes one by one, in order), `base64::lemma_b64_decode_encoded`,
`base64::lemma_b64_rejects_foreign_byte` and `qr_code::lemma_ssr_link_roundtrip` (a link built
from settings reads back as them).
