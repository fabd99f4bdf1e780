use vstd::prelude::*;
use vstd::slice::slice_to_vec;
use crate::error::Result;

verus! {

/// Parameters shared by a connection's protocol and obfuscation plugins.
#[derive(Debug, Clone)]
pub struct ServerInfo {
    pub host: String,
    pub port: u16,
    pub param: String,
    pub key: Vec<u8>,
    pub recv_iv: Vec<u8>,
    pub send_iv: Vec<u8>,
    pub udp: bool,
}

/// Whether `info` holds the default (empty) settings.
pub open spec fn is_default_info(info: ServerInfo) -> bool {
    &&& info.host@ == Seq::<char>::empty()
    &&& info.port == 0
    &&& info.param@ == Seq::<char>::empty()
    &&& info.key@ == Seq::<u8>::empty()
    &&& info.recv_iv@ == Seq::<u8>::empty()
    &&& info.send_iv@ == Seq::<u8>::empty()
    &&& !info.udp
}

impl ServerInfo {
    /// Settings with empty host, parameter, key and IVs.
    pub fn empty() -> (r: ServerInfo)
        ensures
            is_default_info(r),
    {
        ServerInfo {
            host: String::new(),
            port: 0,
            param: String::new(),
            key: Vec::new(),
            recv_iv: Vec::new(),
            send_iv: Vec::new(),
            udp: false,
        }
    }
}

impl ServerInfo {
    /// A copy of these settings.
    pub fn duplicate(&self) -> (r: ServerInfo)
        ensures
            r.host@ == self.host@,
            r.port == self.port,
            r.param@ == self.param@,
            r.key@ == self.key@,
            r.recv_iv@ == self.recv_iv@,
            r.send_iv@ == self.send_iv@,
            r.udp == self.udp,
    {
        ServerInfo {
            host: self.host.clone(),
            port: self.port,
            param: self.param.clone(),
            key: slice_to_vec(self.key.as_slice()),
            recv_iv: slice_to_vec(self.recv_iv.as_slice()),
            send_iv: slice_to_vec(self.send_iv.as_slice()),
            udp: self.udp,
        }
    }
}

/// Two settings that hold the same values.
pub open spec fn same_info(a: ServerInfo, b: ServerInfo) -> bool {
    &&& a.host@ == b.host@
    &&& a.port == b.port
    &&& a.param@ == b.param@
    &&& a.key@ == b.key@
    &&& a.recv_iv@ == b.recv_iv@
    &&& a.send_iv@ == b.send_iv@
    &&& a.udp == b.udp
}

impl Default for ServerInfo {
    fn default() -> (r: ServerInfo)
        ensures
            is_default_info(r),
    {
        ServerInfo::empty()
    }
}

/// An obfuscation plugin: wraps encrypted traffic so that it looks like another protocol.
pub trait Obfs {
    /// Inputs on which `client_decode` is defined.
    spec fn client_decode_pre(&self, data: Seq<u8>) -> bool;

    /// Inputs on which `server_decode` is defined.
    spec fn server_decode_pre(&self, data: Seq<u8>) -> bool;

    fn name(&self) -> &str;

    fn client_pre_encrypt(&mut self, data: &[u8]) -> Result<Vec<u8>>;

    fn client_post_decrypt(&mut self, data: &[u8]) -> Result<Vec<u8>>;

    fn server_pre_encrypt(&mut self, data: &[u8]) -> Result<Vec<u8>>;

    fn server_post_decrypt(&mut self, data: &[u8]) -> Result<Vec<u8>>;

    fn client_encode(&mut self, data: &[u8]) -> Result<Vec<u8>>;

    fn client_decode(&mut self, data: &[u8]) -> Result<Vec<u8>>
        requires
            old(self).client_decode_pre(data@),
    ;

    fn server_encode(&mut self, data: &[u8]) -> Result<Vec<u8>>;

    fn server_decode(&mut self, data: &[u8]) -> Result<Vec<u8>>
        requires
            old(self).server_decode_pre(data@),
    ;

    fn set_server_info(&mut self, info: ServerInfo);

    fn get_server_info(&self) -> &ServerInfo;

    fn dispose(&mut self);
}

/// A protocol plugin: frames and authenticates plaintext before encryption.
pub trait Protocol {
    /// Inputs on which `client_post_decrypt` is defined.
    spec fn client_post_decrypt_pre(&self, data: Seq<u8>) -> bool;

    /// Inputs on which `server_post_decrypt` is defined.
    spec fn server_post_decrypt_pre(&self, data: Seq<u8>) -> bool;

    fn name(&self) -> &str;

    fn client_pre_encrypt(&mut self, data: &[u8]) -> Result<Vec<u8>>;

    fn client_post_decrypt(&mut self, data: &[u8]) -> Result<Vec<u8>>
        requires
            old(self).client_post_decrypt_pre(data@),
    ;

    fn server_pre_encrypt(&mut self, data: &[u8]) -> Result<Vec<u8>>;

    fn server_post_decrypt(&mut self, data: &[u8]) -> Result<Vec<u8>>
        requires
            old(self).server_post_decrypt_pre(data@),
    ;

    fn set_server_info(&mut self, info: ServerInfo);

    fn get_server_info(&self) -> &ServerInfo;

    fn dispose(&mut self);
}

/// The result of a plugin stage that hands its input through unchanged.
pub open spec fn passes_through(data: Seq<u8>, r: Result<Vec<u8>>) -> bool {
    r matches Ok(v) && v@ == data
}

} // verus!
