use vstd::prelude::*;
use vstd::slice::slice_to_vec;
use crate::error::Result;
use super::obfs::{Protocol, ServerInfo, is_default_info, passes_through};

verus! {

/// The `auth_chain_a` plugin: every stage hands its input through unchanged.
pub struct AuthChainA {
    server_info: ServerInfo,
}

impl AuthChainA {
    /// The settings this plugin was given.
    pub closed spec fn info(&self) -> ServerInfo {
        self.server_info
    }

    pub fn new() -> (r: Self)
        ensures
            is_default_info(r.info()),
    {
        AuthChainA { server_info: ServerInfo::default() }
    }
}

impl Protocol for AuthChainA {
    open spec fn client_post_decrypt_pre(&self, data: Seq<u8>) -> bool {
        true
    }

    open spec fn server_post_decrypt_pre(&self, data: Seq<u8>) -> bool {
        true
    }

    fn name(&self) -> (r: &str)
        ensures
            r@ == "auth_chain_a"@,
    {
        "auth_chain_a"
    }

    fn client_pre_encrypt(&mut self, data: &[u8]) -> (r: Result<Vec<u8>>)
        ensures
            passes_through(data@, r),
            final(self).info() == old(self).info(),
    {
        Ok(slice_to_vec(data))
    }

    fn client_post_decrypt(&mut self, data: &[u8]) -> (r: Result<Vec<u8>>)
        ensures
            passes_through(data@, r),
            final(self).info() == old(self).info(),
    {
        Ok(slice_to_vec(data))
    }

    fn server_pre_encrypt(&mut self, data: &[u8]) -> (r: Result<Vec<u8>>)
        ensures
            passes_through(data@, r),
            final(self).info() == old(self).info(),
    {
        Ok(slice_to_vec(data))
    }

    fn server_post_decrypt(&mut self, data: &[u8]) -> (r: Result<Vec<u8>>)
        ensures
            passes_through(data@, r),
            final(self).info() == old(self).info(),
    {
        Ok(slice_to_vec(data))
    }

    fn set_server_info(&mut self, info: ServerInfo)
        ensures
            final(self).info() == info,
    {
        self.server_info = info;
    }

    fn get_server_info(&self) -> (r: &ServerInfo)
        ensures
            *r == self.info(),
    {
        &self.server_info
    }

    fn dispose(&mut self)
        ensures
            final(self).info() == old(self).info(),
    {
    }
}

/// The `auth_chain_b` plugin: every stage hands its input through unchanged.
pub struct AuthChainB {
    server_info: ServerInfo,
}

impl AuthChainB {
    /// The settings this plugin was given.
    pub closed spec fn info(&self) -> ServerInfo {
        self.server_info
    }

    pub fn new() -> (r: Self)
        ensures
            is_default_info(r.info()),
    {
        AuthChainB { server_info: ServerInfo::default() }
    }
}

impl Protocol for AuthChainB {
    open spec fn client_post_decrypt_pre(&self, data: Seq<u8>) -> bool {
        true
    }

    open spec fn server_post_decrypt_pre(&self, data: Seq<u8>) -> bool {
        true
    }

    fn name(&self) -> (r: &str)
        ensures
            r@ == "auth_chain_b"@,
    {
        "auth_chain_b"
    }

    fn client_pre_encrypt(&mut self, data: &[u8]) -> (r: Result<Vec<u8>>)
        ensures
            passes_through(data@, r),
            final(self).info() == old(self).info(),
    {
        Ok(slice_to_vec(data))
    }

    fn client_post_decrypt(&mut self, data: &[u8]) -> (r: Result<Vec<u8>>)
        ensures
            passes_through(data@, r),
            final(self).info() == old(self).info(),
    {
        Ok(slice_to_vec(data))
    }

    fn server_pre_encrypt(&mut self, data: &[u8]) -> (r: Result<Vec<u8>>)
        ensures
            passes_through(data@, r),
            final(self).info() == old(self).info(),
    {
        Ok(slice_to_vec(data))
    }

    fn server_post_decrypt(&mut self, data: &[u8]) -> (r: Result<Vec<u8>>)
        ensures
            passes_through(data@, r),
            final(self).info() == old(self).info(),
    {
        Ok(slice_to_vec(data))
    }

    fn set_server_info(&mut self, info: ServerInfo)
        ensures
            final(self).info() == info,
    {
        self.server_info = info;
    }

    fn get_server_info(&self) -> (r: &ServerInfo)
        ensures
            *r == self.info(),
    {
        &self.server_info
    }

    fn dispose(&mut self)
        ensures
            final(self).info() == old(self).info(),
    {
    }
}

/// The `auth_chain_c` plugin: every stage hands its input through unchanged.
pub struct AuthChainC {
    server_info: ServerInfo,
}

impl AuthChainC {
    /// The settings this plugin was given.
    pub closed spec fn info(&self) -> ServerInfo {
        self.server_info
    }

    pub fn new() -> (r: Self)
        ensures
            is_default_info(r.info()),
    {
        AuthChainC { server_info: ServerInfo::default() }
    }
}

impl Protocol for AuthChainC {
    open spec fn client_post_decrypt_pre(&self, data: Seq<u8>) -> bool {
        true
    }

    open spec fn server_post_decrypt_pre(&self, data: Seq<u8>) -> bool {
        true
    }

    fn name(&self) -> (r: &str)
        ensures
            r@ == "auth_chain_c"@,
    {
        "auth_chain_c"
    }

    fn client_pre_encrypt(&mut self, data: &[u8]) -> (r: Result<Vec<u8>>)
        ensures
            passes_through(data@, r),
            final(self).info() == old(self).info(),
    {
        Ok(slice_to_vec(data))
    }

    fn client_post_decrypt(&mut self, data: &[u8]) -> (r: Result<Vec<u8>>)
        ensures
            passes_through(data@, r),
            final(self).info() == old(self).info(),
    {
        Ok(slice_to_vec(data))
    }

    fn server_pre_encrypt(&mut self, data: &[u8]) -> (r: Result<Vec<u8>>)
        ensures
            passes_through(data@, r),
            final(self).info() == old(self).info(),
    {
        Ok(slice_to_vec(data))
    }

    fn server_post_decrypt(&mut self, data: &[u8]) -> (r: Result<Vec<u8>>)
        ensures
            passes_through(data@, r),
            final(self).info() == old(self).info(),
    {
        Ok(slice_to_vec(data))
    }

    fn set_server_info(&mut self, info: ServerInfo)
        ensures
            final(self).info() == info,
    {
        self.server_info = info;
    }

    fn get_server_info(&self) -> (r: &ServerInfo)
        ensures
            *r == self.info(),
    {
        &self.server_info
    }

    fn dispose(&mut self)
        ensures
            final(self).info() == old(self).info(),
    {
    }
}

/// The `auth_chain_d` plugin: every stage hands its input through unchanged.
pub struct AuthChainD {
    server_info: ServerInfo,
}

impl AuthChainD {
    /// The settings this plugin was given.
    pub closed spec fn info(&self) -> ServerInfo {
        self.server_info
    }

    pub fn new() -> (r: Self)
        ensures
            is_default_info(r.info()),
    {
        AuthChainD { server_info: ServerInfo::default() }
    }
}

impl Protocol for AuthChainD {
    open spec fn client_post_decrypt_pre(&self, data: Seq<u8>) -> bool {
        true
    }

    open spec fn server_post_decrypt_pre(&self, data: Seq<u8>) -> bool {
        true
    }

    fn name(&self) -> (r: &str)
        ensures
            r@ == "auth_chain_d"@,
    {
        "auth_chain_d"
    }

    fn client_pre_encrypt(&mut self, data: &[u8]) -> (r: Result<Vec<u8>>)
        ensures
            passes_through(data@, r),
            final(self).info() == old(self).info(),
    {
        Ok(slice_to_vec(data))
    }

    fn client_post_decrypt(&mut self, data: &[u8]) -> (r: Result<Vec<u8>>)
        ensures
            passes_through(data@, r),
            final(self).info() == old(self).info(),
    {
        Ok(slice_to_vec(data))
    }

    fn server_pre_encrypt(&mut self, data: &[u8]) -> (r: Result<Vec<u8>>)
        ensures
            passes_through(data@, r),
            final(self).info() == old(self).info(),
    {
        Ok(slice_to_vec(data))
    }

    fn server_post_decrypt(&mut self, data: &[u8]) -> (r: Result<Vec<u8>>)
        ensures
            passes_through(data@, r),
            final(self).info() == old(self).info(),
    {
        Ok(slice_to_vec(data))
    }

    fn set_server_info(&mut self, info: ServerInfo)
        ensures
            final(self).info() == info,
    {
        self.server_info = info;
    }

    fn get_server_info(&self) -> (r: &ServerInfo)
        ensures
            *r == self.info(),
    {
        &self.server_info
    }

    fn dispose(&mut self)
        ensures
            final(self).info() == old(self).info(),
    {
    }
}

/// The `auth_chain_e` plugin: every stage hands its input through unchanged.
pub struct AuthChainE {
    server_info: ServerInfo,
}

impl AuthChainE {
    /// The settings this plugin was given.
    pub closed spec fn info(&self) -> ServerInfo {
        self.server_info
    }

    pub fn new() -> (r: Self)
        ensures
            is_default_info(r.info()),
    {
        AuthChainE { server_info: ServerInfo::default() }
    }
}

impl Protocol for AuthChainE {
    open spec fn client_post_decrypt_pre(&self, data: Seq<u8>) -> bool {
        true
    }

    open spec fn server_post_decrypt_pre(&self, data: Seq<u8>) -> bool {
        true
    }

    fn name(&self) -> (r: &str)
        ensures
            r@ == "auth_chain_e"@,
    {
        "auth_chain_e"
    }

    fn client_pre_encrypt(&mut self, data: &[u8]) -> (r: Result<Vec<u8>>)
        ensures
            passes_through(data@, r),
            final(self).info() == old(self).info(),
    {
        Ok(slice_to_vec(data))
    }

    fn client_post_decrypt(&mut self, data: &[u8]) -> (r: Result<Vec<u8>>)
        ensures
            passes_through(data@, r),
            final(self).info() == old(self).info(),
    {
        Ok(slice_to_vec(data))
    }

    fn server_pre_encrypt(&mut self, data: &[u8]) -> (r: Result<Vec<u8>>)
        ensures
            passes_through(data@, r),
            final(self).info() == old(self).info(),
    {
        Ok(slice_to_vec(data))
    }

    fn server_post_decrypt(&mut self, data: &[u8]) -> (r: Result<Vec<u8>>)
        ensures
            passes_through(data@, r),
            final(self).info() == old(self).info(),
    {
        Ok(slice_to_vec(data))
    }

    fn set_server_info(&mut self, info: ServerInfo)
        ensures
            final(self).info() == info,
    {
        self.server_info = info;
    }

    fn get_server_info(&self) -> (r: &ServerInfo)
        ensures
            *r == self.info(),
    {
        &self.server_info
    }

    fn dispose(&mut self)
        ensures
            final(self).info() == old(self).info(),
    {
    }
}

/// The `auth_chain_f` plugin: every stage hands its input through unchanged.
pub struct AuthChainF {
    server_info: ServerInfo,
}

impl AuthChainF {
    /// The settings this plugin was given.
    pub closed spec fn info(&self) -> ServerInfo {
        self.server_info
    }

    pub fn new() -> (r: Self)
        ensures
            is_default_info(r.info()),
    {
        AuthChainF { server_info: ServerInfo::default() }
    }
}

impl Protocol for AuthChainF {
    open spec fn client_post_decrypt_pre(&self, data: Seq<u8>) -> bool {
        true
    }

    open spec fn server_post_decrypt_pre(&self, data: Seq<u8>) -> bool {
        true
    }

    fn name(&self) -> (r: &str)
        ensures
            r@ == "auth_chain_f"@,
    {
        "auth_chain_f"
    }

    fn client_pre_encrypt(&mut self, data: &[u8]) -> (r: Result<Vec<u8>>)
        ensures
            passes_through(data@, r),
            final(self).info() == old(self).info(),
    {
        Ok(slice_to_vec(data))
    }

    fn client_post_decrypt(&mut self, data: &[u8]) -> (r: Result<Vec<u8>>)
        ensures
            passes_through(data@, r),
            final(self).info() == old(self).info(),
    {
        Ok(slice_to_vec(data))
    }

    fn server_pre_encrypt(&mut self, data: &[u8]) -> (r: Result<Vec<u8>>)
        ensures
            passes_through(data@, r),
            final(self).info() == old(self).info(),
    {
        Ok(slice_to_vec(data))
    }

    fn server_post_decrypt(&mut self, data: &[u8]) -> (r: Result<Vec<u8>>)
        ensures
            passes_through(data@, r),
            final(self).info() == old(self).info(),
    {
        Ok(slice_to_vec(data))
    }

    fn set_server_info(&mut self, info: ServerInfo)
        ensures
            final(self).info() == info,
    {
        self.server_info = info;
    }

    fn get_server_info(&self) -> (r: &ServerInfo)
        ensures
            *r == self.info(),
    {
        &self.server_info
    }

    fn dispose(&mut self)
        ensures
            final(self).info() == old(self).info(),
    {
    }
}

} // verus!

