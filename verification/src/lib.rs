//! ShadowsocksR in Rust, verified with Verus: the cipher pipeline (protocol plugin, stream or
//! AEAD cipher, obfuscation plugin), the SOCKS5 handshake and address codec, WebSocket
//! framing, `ssr://` links and the helpers they share.

pub mod error;
pub mod bytes;
pub mod text;
pub mod crc32;
pub mod clock;
pub mod base64;
pub mod buffer;
pub mod cache;
pub mod utils;
pub mod ip;
pub mod config;
pub mod crypto;
pub mod obfs;
pub mod protocol;
pub mod socks5;
pub mod session;
pub mod websocket;
pub mod qr_code;
pub mod prelude;
