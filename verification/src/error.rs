use vstd::prelude::*;

verus! {

/// Errors reported by the library. Each variant carries a human-readable message.
#[derive(Debug)]
pub enum Error {
    Config(String),
    Crypto(String),
    Protocol(String),
    Obfs(String),
    Socks5(String),
    Dns(String),
    Tunnel(String),
    Tls(String),
    Websocket(String),
    Buffer(String),
    Other(String),
}

pub type Result<T> = core::result::Result<T, Error>;

/// The text of an error: a label for its kind, a colon, a space, then its message.
pub open spec fn error_text(e: Error) -> Seq<char> {
    match e {
        Error::Config(s) => "Config error: "@ + s@,
        Error::Crypto(s) => "Crypto error: "@ + s@,
        Error::Protocol(s) => "Protocol error: "@ + s@,
        Error::Obfs(s) => "Obfuscation error: "@ + s@,
        Error::Socks5(s) => "SOCKS5 error: "@ + s@,
        Error::Dns(s) => "DNS error: "@ + s@,
        Error::Tunnel(s) => "Tunnel error: "@ + s@,
        Error::Tls(s) => "TLS error: "@ + s@,
        Error::Websocket(s) => "WebSocket error: "@ + s@,
        Error::Buffer(s) => "Buffer error: "@ + s@,
        Error::Other(s) => "Error: "@ + s@,
    }
}

/// `label` followed by `text`, as an owned string.
fn labelled(label: &str, text: &str) -> (r: String)
    ensures
        r@ == label@ + text@,
{
    let mut out = String::from_str(label);
    out.append(text);
    out
}

impl Error {
    /// The text of the error, as it is shown to a user.
    pub fn message(&self) -> (r: String)
        ensures
            r@ == error_text(*self),
    {
        match self {
            Error::Config(s) => labelled("Config error: ", s.as_str()),
            Error::Crypto(s) => labelled("Crypto error: ", s.as_str()),
            Error::Protocol(s) => labelled("Protocol error: ", s.as_str()),
            Error::Obfs(s) => labelled("Obfuscation error: ", s.as_str()),
            Error::Socks5(s) => labelled("SOCKS5 error: ", s.as_str()),
            Error::Dns(s) => labelled("DNS error: ", s.as_str()),
            Error::Tunnel(s) => labelled("Tunnel error: ", s.as_str()),
            Error::Tls(s) => labelled("TLS error: ", s.as_str()),
            Error::Websocket(s) => labelled("WebSocket error: ", s.as_str()),
            Error::Buffer(s) => labelled("Buffer error: ", s.as_str()),
            Error::Other(s) => labelled("Error: ", s.as_str()),
        }
    }
}

/// Builds an owned message from a string literal.
pub fn msg(s: &str) -> (r: String)
    ensures
        r@ == s@,
{
    String::from_str(s)
}

} // verus!
