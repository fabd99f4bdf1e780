pub mod ssr_executive;

pub use ssr_executive::{TunnelCipherCtx, CipherKind, ProtocolPlugin, ObfsPlugin, create_protocol, create_obfs};
