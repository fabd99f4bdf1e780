use vstd::prelude::*;
use vstd::slice::slice_to_vec;
use crate::error::Result;
use super::obfs::{Protocol, ServerInfo, is_default_info, passes_through};

verus! {

/// The `verify_simple` plugin: every stage hands its input through unchanged.
pub struct VerifySimple {
    server_info: ServerInfo,
}

impl VerifySimple {
    /// The settings this plugin was given.
    pub closed spec fn info(&self) -> ServerInfo {
        self.server_info
    }

    pub fn new() -> (r: Self)
        ensures
            is_default_info(r.info()),
    {
        VerifySimple { server_info: ServerInfo::default() }
    }
}

impl Protocol for VerifySimple {
    open spec fn client_post_decrypt_pre(&self, data: Seq<u8>) -> bool {
        true
    }

    open spec fn server_post_decrypt_pre(&self, data: Seq<u8>) -> bool {
        true
    }

    fn name(&self) -> (r: &str)
        ensures
            r@ == "verify_simple"@,
    {
        "verify_simple"
    }

    fn client_pre_encrypt(&mut self, data: &[u8]) -> (r: Result<Vec<u8>>)
        ensures
            passes_through(data@, r),
            final(self).info() == old(self).info(),
    {
        Ok(slice_to_vec(data))
    }

    fn client_post_decrypt(&mut self, data: &[u8]) -> (r: Result<Vec<u8>>)
        ensures
            passes_through(data@, r),
            final(self).info() == old(self).info(),
    {
        Ok(slice_to_vec(data))
    }

    fn server_pre_encrypt(&mut self, data: &[u8]) -> (r: Result<Vec<u8>>)
        ensures
            passes_through(data@, r),
            final(self).info() == old(self).info(),
    {
        Ok(slice_to_vec(data))
    }

    fn server_post_decrypt(&mut self, data: &[u8]) -> (r: Result<Vec<u8>>)
        ensures
            passes_through(data@, r),
            final(self).info() == old(self).info(),
    {
        Ok(slice_to_vec(data))
    }

    fn set_server_info(&mut self, info: ServerInfo)
        ensures
            final(self).info() == info,
    {
        self.server_info = info;
    }

    fn get_server_info(&self) -> (r: &ServerInfo)
        ensures
            *r == self.info(),
    {
        &self.server_info
    }

    fn dispose(&mut self)
        ensures
            final(self).info() == old(self).info(),
    {
    }
}

} // verus!

