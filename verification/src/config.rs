use vstd::prelude::*;
use crate::error::msg;

verus! {

/// Settings of one proxy instance: cipher, plugins and the sides it runs.
#[derive(Debug, Clone)]
pub struct SsrConfig {
    pub password: String,
    pub method: String,
    pub protocol: String,
    pub protocol_param: String,
    pub obfs: String,
    pub obfs_param: String,
    pub udp: bool,
    pub idle_timeout: u64,
    pub connect_timeout: u64,
    pub udp_timeout: u64,
    pub server_settings: Option<ServerSettings>,
    pub client_settings: Option<ClientSettings>,
    pub over_tls_settings: Option<OverTlsSettings>,
}

/// Where a server listens.
#[derive(Debug, Clone)]
pub struct ServerSettings {
    pub listen_address: String,
    pub listen_port: u16,
}

/// The server a client connects to, and where the client listens.
#[derive(Debug, Clone)]
pub struct ClientSettings {
    pub server: String,
    pub server_port: u16,
    pub listen_address: String,
    pub listen_port: u16,
}

/// Settings of the TLS transport.
#[derive(Debug, Clone)]
pub struct OverTlsSettings {
    pub enable: bool,
    pub server_domain: String,
    pub path: String,
    pub root_cert_file: String,
}

/// Idle timeout in seconds when the settings give none.
pub fn default_idle_timeout() -> (r: u64)
    ensures
        r == 300,
{
    300
}

/// Connect timeout in seconds when the settings give none.
pub fn default_connect_timeout() -> (r: u64)
    ensures
        r == 6,
{
    6
}

/// UDP timeout in seconds when the settings give none.
pub fn default_udp_timeout() -> (r: u64)
    ensures
        r == 6,
{
    6
}

/// TLS server domain when the settings give none.
pub fn default_server_domain() -> (r: String)
    ensures
        r@ == "goodsitesample.com"@,
{
    msg("goodsitesample.com")
}

} // verus!
