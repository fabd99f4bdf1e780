//! The items most users of the library need, in one place.

pub use crate::error::{Error, Result};
pub use crate::config::{SsrConfig, ServerSettings, ClientSettings, OverTlsSettings};
pub use crate::crypto::{SsrCipher, SsrState};
pub use crate::crypto::stream::{CipherMethod, StreamCipher};
pub use crate::crypto::aead::{AeadMethod, AeadTcpCipher, AeadUdpCipher};
pub use crate::protocol::{TunnelCipherCtx, CipherKind, ProtocolPlugin, ObfsPlugin, create_protocol, create_obfs};
