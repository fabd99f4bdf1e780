use vstd::prelude::*;
use vstd::slice::slice_to_vec;
use crate::error::Result;
use super::obfs::{Obfs, ServerInfo, is_default_info, passes_through};

verus! {

/// The `tls1.2_ticket_auth` plugin: every stage hands its input through unchanged.
pub struct Tls12TicketAuth {
    server_info: ServerInfo,
}

impl Tls12TicketAuth {
    /// The settings this plugin was given.
    pub closed spec fn info(&self) -> ServerInfo {
        self.server_info
    }

    pub fn new() -> (r: Self)
        ensures
            is_default_info(r.info()),
    {
        Tls12TicketAuth { server_info: ServerInfo::default() }
    }
}

impl Obfs for Tls12TicketAuth {
    open spec fn client_decode_pre(&self, data: Seq<u8>) -> bool {
        true
    }

    open spec fn server_decode_pre(&self, data: Seq<u8>) -> bool {
        true
    }

    fn name(&self) -> (r: &str)
        ensures
            r@ == "tls1.2_ticket_auth"@,
    {
        "tls1.2_ticket_auth"
    }

    fn client_pre_encrypt(&mut self, data: &[u8]) -> (r: Result<Vec<u8>>)
        ensures
            passes_through(data@, r),
            final(self).info() == old(self).info(),
    {
        Ok(slice_to_vec(data))
    }

    fn client_post_decrypt(&mut self, data: &[u8]) -> (r: Result<Vec<u8>>)
        ensures
            passes_through(data@, r),
            final(self).info() == old(self).info(),
    {
        Ok(slice_to_vec(data))
    }

    fn server_pre_encrypt(&mut self, data: &[u8]) -> (r: Result<Vec<u8>>)
        ensures
            passes_through(data@, r),
            final(self).info() == old(self).info(),
    {
        Ok(slice_to_vec(data))
    }

    fn server_post_decrypt(&mut self, data: &[u8]) -> (r: Result<Vec<u8>>)
        ensures
            passes_through(data@, r),
            final(self).info() == old(self).info(),
    {
        Ok(slice_to_vec(data))
    }

    fn client_encode(&mut self, data: &[u8]) -> (r: Result<Vec<u8>>)
        ensures
            passes_through(data@, r),
            final(self).info() == old(self).info(),
    {
        Ok(slice_to_vec(data))
    }

    fn client_decode(&mut self, data: &[u8]) -> (r: Result<Vec<u8>>)
        ensures
            passes_through(data@, r),
            final(self).info() == old(self).info(),
    {
        Ok(slice_to_vec(data))
    }

    fn server_encode(&mut self, data: &[u8]) -> (r: Result<Vec<u8>>)
        ensures
            passes_through(data@, r),
            final(self).info() == old(self).info(),
    {
        Ok(slice_to_vec(data))
    }

    fn server_decode(&mut self, data: &[u8]) -> (r: Result<Vec<u8>>)
        ensures
            passes_through(data@, r),
            final(self).info() == old(self).info(),
    {
        Ok(slice_to_vec(data))
    }

    fn set_server_info(&mut self, info: ServerInfo)
        ensures
            final(self).info() == info,
    {
        self.server_info = info;
    }

    fn get_server_info(&self) -> (r: &ServerInfo)
        ensures
            *r == self.info(),
    {
        &self.server_info
    }

    fn dispose(&mut self)
        ensures
            final(self).info() == old(self).info(),
    {
    }
}

/// The `tls1.2_ticket_fastauth` plugin: every stage hands its input through unchanged.
pub struct Tls12TicketFastAuth {
    server_info: ServerInfo,
}

impl Tls12TicketFastAuth {
    /// The settings this plugin was given.
    pub closed spec fn info(&self) -> ServerInfo {
        self.server_info
    }

    pub fn new() -> (r: Self)
        ensures
            is_default_info(r.info()),
    {
        Tls12TicketFastAuth { server_info: ServerInfo::default() }
    }
}

impl Obfs for Tls12TicketFastAuth {
    open spec fn client_decode_pre(&self, data: Seq<u8>) -> bool {
        true
    }

    open spec fn server_decode_pre(&self, data: Seq<u8>) -> bool {
        true
    }

    fn name(&self) -> (r: &str)
        ensures
            r@ == "tls1.2_ticket_fastauth"@,
    {
        "tls1.2_ticket_fastauth"
    }

    fn client_pre_encrypt(&mut self, data: &[u8]) -> (r: Result<Vec<u8>>)
        ensures
            passes_through(data@, r),
            final(self).info() == old(self).info(),
    {
        Ok(slice_to_vec(data))
    }

    fn client_post_decrypt(&mut self, data: &[u8]) -> (r: Result<Vec<u8>>)
        ensures
            passes_through(data@, r),
            final(self).info() == old(self).info(),
    {
        Ok(slice_to_vec(data))
    }

    fn server_pre_encrypt(&mut self, data: &[u8]) -> (r: Result<Vec<u8>>)
        ensures
            passes_through(data@, r),
            final(self).info() == old(self).info(),
    {
        Ok(slice_to_vec(data))
    }

    fn server_post_decrypt(&mut self, data: &[u8]) -> (r: Result<Vec<u8>>)
        ensures
            passes_through(data@, r),
            final(self).info() == old(self).info(),
    {
        Ok(slice_to_vec(data))
    }

    fn client_encode(&mut self, data: &[u8]) -> (r: Result<Vec<u8>>)
        ensures
            passes_through(data@, r),
            final(self).info() == old(self).info(),
    {
        Ok(slice_to_vec(data))
    }

    fn client_decode(&mut self, data: &[u8]) -> (r: Result<Vec<u8>>)
        ensures
            passes_through(data@, r),
            final(self).info() == old(self).info(),
    {
        Ok(slice_to_vec(data))
    }

    fn server_encode(&mut self, data: &[u8]) -> (r: Result<Vec<u8>>)
        ensures
            passes_through(data@, r),
            final(self).info() == old(self).info(),
    {
        Ok(slice_to_vec(data))
    }

    fn server_decode(&mut self, data: &[u8]) -> (r: Result<Vec<u8>>)
        ensures
            passes_through(data@, r),
            final(self).info() == old(self).info(),
    {
        Ok(slice_to_vec(data))
    }

    fn set_server_info(&mut self, info: ServerInfo)
        ensures
            final(self).info() == info,
    {
        self.server_info = info;
    }

    fn get_server_info(&self) -> (r: &ServerInfo)
        ensures
            *r == self.info(),
    {
        &self.server_info
    }

    fn dispose(&mut self)
        ensures
            final(self).info() == old(self).info(),
    {
    }
}

} // verus!

