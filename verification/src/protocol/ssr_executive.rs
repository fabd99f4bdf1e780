use vstd::prelude::*;
use vstd::slice::slice_to_vec;
use vstd::utf8::encode_utf8;
use crate::error::{Error, Result, msg};
use crate::text::str_eq;
use crate::config::SsrConfig;
use crate::obfs::obfs::{Obfs, Protocol, ServerInfo, is_default_info, same_info};
use crate::obfs::auth::{Origin, VerifySimple, AuthSimple, AuthSha1, AuthSha1V2, AuthSha1V4, AuthAes128Md5, AuthAes128Sha1,
    V4Model, V4Post, v4_client_pre, v4_client_post, v4_server_post, v4_chunks, v4_unit, lemma_v4_handshake,
    lemma_v4_client_to_server_data, lemma_v4_server_to_client, v4_time_diff, v4_max_time_diff};
use crate::obfs::auth_chain::{AuthChainA, AuthChainB, AuthChainC, AuthChainD, AuthChainE, AuthChainF};
use crate::obfs::http_simple::{HttpSimple, HttpPost, HttpMix, Plain, HttpModel, spec_http_header, http_decode, sends_post,
    no_blank_line, lemma_http_frame_roundtrip};
use crate::obfs::tls1_2_ticket::{Tls12TicketAuth, Tls12TicketFastAuth};
use crate::crypto::{SsrCipher, SsrState, ssr_cipher_for, ssr_encrypt_fits, ssr_decrypt_fits, cipher_encrypted,
    cipher_decrypted, cipher_pair_ok, lemma_cipher_pair_read};
use crate::crypto::stream::{CipherMethod, StreamCipher, stream_encrypt, stream_decrypt, cipher_iv_len, cipher_name,
    stream_roundtrips, lemma_stream_step};
use crate::crypto::key_derive::{bytes_to_key, crypto_derive_key};
use vstd::string::{StringSliceAdditionalSpecFns, StringExecFns};
use crate::crypto::aead::{AeadMethod, AeadTcpCipher, aead_tcp_encrypt, aead_tcp_decrypt, aead_name};
use crate::text::str_to_lowercase;

verus! {

/// Mathematical state of a protocol plugin: the plugins that hand data through carry only
/// their name and settings.
pub enum ProtocolState {
    Passthrough(Seq<char>, ServerInfo),
    AuthSha1V4(V4Model),
}

/// The settings a protocol plugin holds.
pub open spec fn protocol_info(s: ProtocolState) -> ServerInfo {
    match s {
        ProtocolState::Passthrough(_, i) => i,
        ProtocolState::AuthSha1V4(m) => m.info,
    }
}

/// The name of a protocol plugin.
pub open spec fn protocol_name(s: ProtocolState) -> Seq<char> {
    match s {
        ProtocolState::Passthrough(n, _) => n,
        ProtocolState::AuthSha1V4(_) => "auth_sha1_v4"@,
    }
}

/// A protocol plugin as its constructor leaves it.
pub open spec fn protocol_fresh(s: ProtocolState) -> bool {
    match s {
        ProtocolState::Passthrough(_, i) => is_default_info(i),
        ProtocolState::AuthSha1V4(m) => is_default_info(m.info) && !m.has_sent_header && !m.has_recv_header
            && m.recv_buffer == Seq::<u8>::empty() && m.extra_wait_size < 1024,
    }
}

/// The names `create_protocol` knows.
pub open spec fn protocol_known(name: Seq<char>) -> bool {
    name == "origin"@ || name == "verify_simple"@ || name == "auth_simple"@ || name == "auth_sha1"@ || name == "auth_sha1_v2"@ || name == "auth_sha1_v4"@ || name == "auth_aes128_md5"@ || name == "auth_aes128_sha1"@ || name == "auth_chain_a"@ || name == "auth_chain_b"@ || name == "auth_chain_c"@ || name == "auth_chain_d"@ || name == "auth_chain_e"@ || name == "auth_chain_f"@
}

/// An `auth_sha1_v4` client write turned `data` into `out`, moving from `m` to `m2`, for some
/// clock reading, client id and connection id.
pub open spec fn v4_client_sent(m: V4Model, data: Seq<u8>, out: Seq<u8>, m2: V4Model) -> bool {
    exists|now: u32, id: Seq<u8>, conn: u32| id.len() == 4 && #[trigger] v4_client_pre(m, data, now, id, conn) == (out, m2)
}

/// A pre-encrypt stage of a protocol plugin turned `data` into `out`, moving from `s` to `next`
/// (on the client side when `client`).
pub open spec fn protocol_pre_encrypt(s: ProtocolState, data: Seq<u8>, out: Seq<u8>, next: ProtocolState, client: bool) -> bool {
    match s {
        ProtocolState::Passthrough(..) => out == data && next == s,
        ProtocolState::AuthSha1V4(m) => if client {
            next matches ProtocolState::AuthSha1V4(m2) && v4_client_sent(m, data, out, m2)
        } else {
            out == v4_chunks(data, v4_unit()) && next == s
        },
    }
}

/// Inputs on which a post-decrypt stage is defined.
pub open spec fn protocol_post_ready(s: ProtocolState, data: Seq<u8>, client: bool) -> bool {
    match s {
        ProtocolState::Passthrough(..) => true,
        ProtocolState::AuthSha1V4(m) => if client {
            !(v4_client_post(m, data) is Stuck)
        } else {
            forall|now: u32| !(#[trigger] v4_server_post(m, data, now) is Stuck)
        },
    }
}

/// Whether an `auth_sha1_v4` read outcome is the output `out` (nothing on an error) and the
/// state `next`.
pub open spec fn v4_post_is(p: V4Post, out: Option<Seq<u8>>, next: ProtocolState) -> bool {
    match p {
        V4Post::Accepted(o, m2) => out == Some(o) && next == ProtocolState::AuthSha1V4(m2),
        V4Post::Rejected(m2) => out is None && next == ProtocolState::AuthSha1V4(m2),
        V4Post::Stuck => false,
    }
}

/// A post-decrypt stage of a protocol plugin turned `data` into `out` (nothing on an error),
/// moving from `s` to `next`.
pub open spec fn protocol_post_decrypt(s: ProtocolState, data: Seq<u8>, out: Option<Seq<u8>>, next: ProtocolState, client: bool) -> bool {
    match s {
        ProtocolState::Passthrough(..) => out == Some(data) && next == s,
        ProtocolState::AuthSha1V4(m) => if client {
            v4_post_is(v4_client_post(m, data), out, next)
        } else {
            exists|now: u32| v4_post_is(#[trigger] v4_server_post(m, data, now), out, next)
        },
    }
}

/// Whether an `auth_sha1_v4` read outcome, read with the checks that turn out-of-bounds
/// input into an error, is the output `out` and the state `next`.
pub open spec fn v4_post_checked_is(p: V4Post, out: Option<Seq<u8>>, next: ProtocolState) -> bool {
    match p {
        V4Post::Stuck => out is None && next is AuthSha1V4,
        _ => v4_post_is(p, out, next),
    }
}

/// A post-decrypt stage run with those checks turned `data` into `out` (nothing on an
/// error), moving from `s` to `next`.
pub open spec fn protocol_post_checked(s: ProtocolState, data: Seq<u8>, out: Option<Seq<u8>>, next: ProtocolState, client: bool) -> bool {
    match s {
        ProtocolState::Passthrough(..) => out == Some(data) && next == s,
        ProtocolState::AuthSha1V4(m) => if client {
            v4_post_checked_is(v4_client_post(m, data), out, next)
        } else {
            exists|now: u32| v4_post_checked_is(#[trigger] v4_server_post(m, data, now), out, next)
        },
    }
}

/// The output a result carries, if any.
pub open spec fn output_of(r: Result<Vec<u8>>) -> Option<Seq<u8>> {
    match r {
        Ok(v) => Some(v@),
        Err(_) => None,
    }
}

/// A protocol plugin, one variant per known protocol.
pub enum ProtocolPlugin {
    Origin(Origin),
    VerifySimple(VerifySimple),
    AuthSimple(AuthSimple),
    AuthSha1(AuthSha1),
    AuthSha1V2(AuthSha1V2),
    AuthSha1V4(AuthSha1V4),
    AuthAes128Md5(AuthAes128Md5),
    AuthAes128Sha1(AuthAes128Sha1),
    AuthChainA(AuthChainA),
    AuthChainB(AuthChainB),
    AuthChainC(AuthChainC),
    AuthChainD(AuthChainD),
    AuthChainE(AuthChainE),
    AuthChainF(AuthChainF),
}

impl View for ProtocolPlugin {
    type V = ProtocolState;

    open spec fn view(&self) -> ProtocolState {
        match self {
            ProtocolPlugin::Origin(p) => ProtocolState::Passthrough("origin"@, p.info()),
            ProtocolPlugin::VerifySimple(p) => ProtocolState::Passthrough("verify_simple"@, p.info()),
            ProtocolPlugin::AuthSimple(p) => ProtocolState::Passthrough("auth_simple"@, p.info()),
            ProtocolPlugin::AuthSha1(p) => ProtocolState::Passthrough("auth_sha1"@, p.info()),
            ProtocolPlugin::AuthSha1V2(p) => ProtocolState::Passthrough("auth_sha1_v2"@, p.info()),
            ProtocolPlugin::AuthSha1V4(p) => ProtocolState::AuthSha1V4(p@),
            ProtocolPlugin::AuthAes128Md5(p) => ProtocolState::Passthrough("auth_aes128_md5"@, p.info()),
            ProtocolPlugin::AuthAes128Sha1(p) => ProtocolState::Passthrough("auth_aes128_sha1"@, p.info()),
            ProtocolPlugin::AuthChainA(p) => ProtocolState::Passthrough("auth_chain_a"@, p.info()),
            ProtocolPlugin::AuthChainB(p) => ProtocolState::Passthrough("auth_chain_b"@, p.info()),
            ProtocolPlugin::AuthChainC(p) => ProtocolState::Passthrough("auth_chain_c"@, p.info()),
            ProtocolPlugin::AuthChainD(p) => ProtocolState::Passthrough("auth_chain_d"@, p.info()),
            ProtocolPlugin::AuthChainE(p) => ProtocolState::Passthrough("auth_chain_e"@, p.info()),
            ProtocolPlugin::AuthChainF(p) => ProtocolState::Passthrough("auth_chain_f"@, p.info()),
        }
    }
}

impl ProtocolPlugin {
    /// The plugin's name.
    pub fn name(&self) -> (r: &str)
        ensures
            r@ == protocol_name(self@),
    {
        match self {
            ProtocolPlugin::Origin(p) => p.name(),
            ProtocolPlugin::VerifySimple(p) => p.name(),
            ProtocolPlugin::AuthSimple(p) => p.name(),
            ProtocolPlugin::AuthSha1(p) => p.name(),
            ProtocolPlugin::AuthSha1V2(p) => p.name(),
            ProtocolPlugin::AuthSha1V4(p) => p.name(),
            ProtocolPlugin::AuthAes128Md5(p) => p.name(),
            ProtocolPlugin::AuthAes128Sha1(p) => p.name(),
            ProtocolPlugin::AuthChainA(p) => p.name(),
            ProtocolPlugin::AuthChainB(p) => p.name(),
            ProtocolPlugin::AuthChainC(p) => p.name(),
            ProtocolPlugin::AuthChainD(p) => p.name(),
            ProtocolPlugin::AuthChainE(p) => p.name(),
            ProtocolPlugin::AuthChainF(p) => p.name(),
        }
    }

    /// Hands the settings to the plugin.
    pub fn set_server_info(&mut self, info: ServerInfo)
        ensures
            protocol_info(final(self)@) == info,
            protocol_name(final(self)@) == protocol_name(old(self)@),
            final(self)@ is AuthSha1V4 <==> old(self)@ is AuthSha1V4,
            old(self)@ matches ProtocolState::AuthSha1V4(m) ==> final(self)@ == ProtocolState::AuthSha1V4(V4Model { info: info, ..m }),
    {
        match self {
            ProtocolPlugin::Origin(p) => p.set_server_info(info),
            ProtocolPlugin::VerifySimple(p) => p.set_server_info(info),
            ProtocolPlugin::AuthSimple(p) => p.set_server_info(info),
            ProtocolPlugin::AuthSha1(p) => p.set_server_info(info),
            ProtocolPlugin::AuthSha1V2(p) => p.set_server_info(info),
            ProtocolPlugin::AuthSha1V4(p) => p.set_server_info(info),
            ProtocolPlugin::AuthAes128Md5(p) => p.set_server_info(info),
            ProtocolPlugin::AuthAes128Sha1(p) => p.set_server_info(info),
            ProtocolPlugin::AuthChainA(p) => p.set_server_info(info),
            ProtocolPlugin::AuthChainB(p) => p.set_server_info(info),
            ProtocolPlugin::AuthChainC(p) => p.set_server_info(info),
            ProtocolPlugin::AuthChainD(p) => p.set_server_info(info),
            ProtocolPlugin::AuthChainE(p) => p.set_server_info(info),
            ProtocolPlugin::AuthChainF(p) => p.set_server_info(info),
        }
    }

    /// The plugin's `client_pre_encrypt` stage.
    #[verifier::spinoff_prover]
    pub fn client_pre_encrypt(&mut self, data: &[u8]) -> (r: Result<Vec<u8>>)
        ensures
            r matches Ok(v) && protocol_pre_encrypt(old(self)@, data@, v@, final(self)@, true),
    {
        match self {
            ProtocolPlugin::Origin(p) => p.client_pre_encrypt(data),
            ProtocolPlugin::VerifySimple(p) => p.client_pre_encrypt(data),
            ProtocolPlugin::AuthSimple(p) => p.client_pre_encrypt(data),
            ProtocolPlugin::AuthSha1(p) => p.client_pre_encrypt(data),
            ProtocolPlugin::AuthSha1V2(p) => p.client_pre_encrypt(data),
            ProtocolPlugin::AuthSha1V4(p) => {
                let ghost m = p@;
                let r = p.client_pre_encrypt(data);
                proof {
                    let v = r->Ok_0@;
                    let (now, id, conn) = choose|now: u32, id: Seq<u8>, conn: u32|
                        id.len() == 4 && (v, p@) == #[trigger] v4_client_pre(m, data@, now, id, conn);
                    assert(v4_client_pre(m, data@, now, id, conn) == (v, p@));
                    assert(v4_client_sent(m, data@, v, p@));
                }
                r
            },
            ProtocolPlugin::AuthAes128Md5(p) => p.client_pre_encrypt(data),
            ProtocolPlugin::AuthAes128Sha1(p) => p.client_pre_encrypt(data),
            ProtocolPlugin::AuthChainA(p) => p.client_pre_encrypt(data),
            ProtocolPlugin::AuthChainB(p) => p.client_pre_encrypt(data),
            ProtocolPlugin::AuthChainC(p) => p.client_pre_encrypt(data),
            ProtocolPlugin::AuthChainD(p) => p.client_pre_encrypt(data),
            ProtocolPlugin::AuthChainE(p) => p.client_pre_encrypt(data),
            ProtocolPlugin::AuthChainF(p) => p.client_pre_encrypt(data),
        }
    }

    /// The plugin's `server_pre_encrypt` stage.
    #[verifier::spinoff_prover]
    pub fn server_pre_encrypt(&mut self, data: &[u8]) -> (r: Result<Vec<u8>>)
        ensures
            r matches Ok(v) && protocol_pre_encrypt(old(self)@, data@, v@, final(self)@, false),
    {
        match self {
            ProtocolPlugin::Origin(p) => p.server_pre_encrypt(data),
            ProtocolPlugin::VerifySimple(p) => p.server_pre_encrypt(data),
            ProtocolPlugin::AuthSimple(p) => p.server_pre_encrypt(data),
            ProtocolPlugin::AuthSha1(p) => p.server_pre_encrypt(data),
            ProtocolPlugin::AuthSha1V2(p) => p.server_pre_encrypt(data),
            ProtocolPlugin::AuthSha1V4(p) => p.server_pre_encrypt(data),
            ProtocolPlugin::AuthAes128Md5(p) => p.server_pre_encrypt(data),
            ProtocolPlugin::AuthAes128Sha1(p) => p.server_pre_encrypt(data),
            ProtocolPlugin::AuthChainA(p) => p.server_pre_encrypt(data),
            ProtocolPlugin::AuthChainB(p) => p.server_pre_encrypt(data),
            ProtocolPlugin::AuthChainC(p) => p.server_pre_encrypt(data),
            ProtocolPlugin::AuthChainD(p) => p.server_pre_encrypt(data),
            ProtocolPlugin::AuthChainE(p) => p.server_pre_encrypt(data),
            ProtocolPlugin::AuthChainF(p) => p.server_pre_encrypt(data),
        }
    }

    /// The plugin's `client_post_decrypt` stage.
    #[verifier::spinoff_prover]
    pub fn client_post_decrypt(&mut self, data: &[u8]) -> (r: Result<Vec<u8>>)
        requires
            protocol_post_ready(old(self)@, data@, true),
        ensures
            protocol_post_decrypt(old(self)@, data@, output_of(r), final(self)@, true),
            r matches Err(e) ==> e is Obfs,
    {
        match self {
            ProtocolPlugin::Origin(p) => p.client_post_decrypt(data),
            ProtocolPlugin::VerifySimple(p) => p.client_post_decrypt(data),
            ProtocolPlugin::AuthSimple(p) => p.client_post_decrypt(data),
            ProtocolPlugin::AuthSha1(p) => p.client_post_decrypt(data),
            ProtocolPlugin::AuthSha1V2(p) => p.client_post_decrypt(data),
            ProtocolPlugin::AuthSha1V4(p) => p.client_post_decrypt(data),
            ProtocolPlugin::AuthAes128Md5(p) => p.client_post_decrypt(data),
            ProtocolPlugin::AuthAes128Sha1(p) => p.client_post_decrypt(data),
            ProtocolPlugin::AuthChainA(p) => p.client_post_decrypt(data),
            ProtocolPlugin::AuthChainB(p) => p.client_post_decrypt(data),
            ProtocolPlugin::AuthChainC(p) => p.client_post_decrypt(data),
            ProtocolPlugin::AuthChainD(p) => p.client_post_decrypt(data),
            ProtocolPlugin::AuthChainE(p) => p.client_post_decrypt(data),
            ProtocolPlugin::AuthChainF(p) => p.client_post_decrypt(data),
        }
    }

    /// The plugin's `server_post_decrypt` stage.
    #[verifier::spinoff_prover]
    pub fn server_post_decrypt(&mut self, data: &[u8]) -> (r: Result<Vec<u8>>)
        requires
            protocol_post_ready(old(self)@, data@, false),
        ensures
            protocol_post_decrypt(old(self)@, data@, output_of(r), final(self)@, false),
            r matches Err(e) ==> e is Obfs,
    {
        match self {
            ProtocolPlugin::Origin(p) => p.server_post_decrypt(data),
            ProtocolPlugin::VerifySimple(p) => p.server_post_decrypt(data),
            ProtocolPlugin::AuthSimple(p) => p.server_post_decrypt(data),
            ProtocolPlugin::AuthSha1(p) => p.server_post_decrypt(data),
            ProtocolPlugin::AuthSha1V2(p) => p.server_post_decrypt(data),
            ProtocolPlugin::AuthSha1V4(p) => p.server_post_decrypt(data),
            ProtocolPlugin::AuthAes128Md5(p) => p.server_post_decrypt(data),
            ProtocolPlugin::AuthAes128Sha1(p) => p.server_post_decrypt(data),
            ProtocolPlugin::AuthChainA(p) => p.server_post_decrypt(data),
            ProtocolPlugin::AuthChainB(p) => p.server_post_decrypt(data),
            ProtocolPlugin::AuthChainC(p) => p.server_post_decrypt(data),
            ProtocolPlugin::AuthChainD(p) => p.server_post_decrypt(data),
            ProtocolPlugin::AuthChainE(p) => p.server_post_decrypt(data),
            ProtocolPlugin::AuthChainF(p) => p.server_post_decrypt(data),
        }
    }

    /// The plugin's `client_post_decrypt` stage, where input that the stage would read out
    /// of bounds gives an error.
    pub fn client_post_decrypt_checked(&mut self, data: &[u8]) -> (r: Result<Vec<u8>>)
        ensures
            protocol_post_checked(old(self)@, data@, output_of(r), final(self)@, true),
            r matches Err(e) ==> e is Obfs,
    {
        match self {
            ProtocolPlugin::AuthSha1V4(p) => p.client_post_decrypt_checked(data),
            _ => self.client_post_decrypt(data),
        }
    }

    /// The plugin's `server_post_decrypt` stage, where input that the stage would read out
    /// of bounds gives an error.
    pub fn server_post_decrypt_checked(&mut self, data: &[u8]) -> (r: Result<Vec<u8>>)
        ensures
            protocol_post_checked(old(self)@, data@, output_of(r), final(self)@, false),
            r matches Err(e) ==> e is Obfs,
    {
        match self {
            ProtocolPlugin::AuthSha1V4(p) => p.server_post_decrypt_checked(data),
            _ => self.server_post_decrypt(data),
        }
    }
}

/// The protocol plugin of a name (exact case), fresh; nothing for an unknown name.
pub fn create_protocol(name: &str) -> (r: Option<ProtocolPlugin>)
    ensures
        r is Some <==> protocol_known(name@),
        r matches Some(p) ==> protocol_name(p@) == name@ && protocol_fresh(p@),
        r matches Some(p) ==> (p@ is AuthSha1V4 <==> name@ == "auth_sha1_v4"@),
{
    if str_eq(name, "auth_sha1_v4") {
        Some(ProtocolPlugin::AuthSha1V4(AuthSha1V4::new()))
    } else if str_eq(name, "origin") {
        Some(ProtocolPlugin::Origin(Origin::new()))
    } else if str_eq(name, "verify_simple") {
        Some(ProtocolPlugin::VerifySimple(VerifySimple::new()))
    } else if str_eq(name, "auth_simple") {
        Some(ProtocolPlugin::AuthSimple(AuthSimple::new()))
    } else if str_eq(name, "auth_sha1") {
        Some(ProtocolPlugin::AuthSha1(AuthSha1::new()))
    } else if str_eq(name, "auth_sha1_v2") {
        Some(ProtocolPlugin::AuthSha1V2(AuthSha1V2::new()))
    } else if str_eq(name, "auth_aes128_md5") {
        Some(ProtocolPlugin::AuthAes128Md5(AuthAes128Md5::new()))
    } else if str_eq(name, "auth_aes128_sha1") {
        Some(ProtocolPlugin::AuthAes128Sha1(AuthAes128Sha1::new()))
    } else if str_eq(name, "auth_chain_a") {
        Some(ProtocolPlugin::AuthChainA(AuthChainA::new()))
    } else if str_eq(name, "auth_chain_b") {
        Some(ProtocolPlugin::AuthChainB(AuthChainB::new()))
    } else if str_eq(name, "auth_chain_c") {
        Some(ProtocolPlugin::AuthChainC(AuthChainC::new()))
    } else if str_eq(name, "auth_chain_d") {
        Some(ProtocolPlugin::AuthChainD(AuthChainD::new()))
    } else if str_eq(name, "auth_chain_e") {
        Some(ProtocolPlugin::AuthChainE(AuthChainE::new()))
    } else if str_eq(name, "auth_chain_f") {
        Some(ProtocolPlugin::AuthChainF(AuthChainF::new()))
    } else {
        None
    }
}

/// The three HTTP obfuscation plugins.
pub enum HttpKind {
    Simple,
    Post,
    Mix,
}

/// The name of an HTTP obfuscation plugin.
pub open spec fn http_kind_name(k: HttpKind) -> Seq<char> {
    match k {
        HttpKind::Simple => "http_simple"@,
        HttpKind::Post => "http_post"@,
        HttpKind::Mix => "http_mix"@,
    }
}

/// Mathematical state of an obfuscation plugin: HTTP plugins carry their model, the others
/// only their name and settings.
pub enum ObfsState {
    Passthrough(Seq<char>, ServerInfo),
    Http(HttpKind, HttpModel),
}

/// The settings an obfuscation plugin holds.
pub open spec fn obfs_info(s: ObfsState) -> ServerInfo {
    match s {
        ObfsState::Passthrough(_, i) => i,
        ObfsState::Http(_, m) => m.info,
    }
}

/// The name of an obfuscation plugin.
pub open spec fn obfs_name(s: ObfsState) -> Seq<char> {
    match s {
        ObfsState::Passthrough(n, _) => n,
        ObfsState::Http(k, _) => http_kind_name(k),
    }
}

/// An obfuscation plugin as its constructor leaves it.
pub open spec fn obfs_fresh(s: ObfsState) -> bool {
    match s {
        ObfsState::Passthrough(_, i) => is_default_info(i),
        ObfsState::Http(k, m) => is_default_info(m.info) && m.buffer == Seq::<u8>::empty()
            && m.is_first == (k is Mix),
    }
}

/// The names `create_obfs` knows.
pub open spec fn obfs_known(name: Seq<char>) -> bool {
    name == "plain"@ || name == "http_simple"@ || name == "http_post"@ || name == "http_mix"@ || name == "tls1.2_ticket_auth"@ || name == "tls1.2_ticket_fastauth"@
}

/// Whether the next client request of an HTTP plugin is a POST.
pub open spec fn http_posts(k: HttpKind, m: HttpModel) -> bool {
    match k {
        HttpKind::Simple => false,
        HttpKind::Post => true,
        HttpKind::Mix => sends_post(m),
    }
}

/// An encode stage of an obfuscation plugin turned `data` into `out`, moving from `s` to
/// `next` (on the client side when `client`).
pub open spec fn obfs_encode(s: ObfsState, data: Seq<u8>, out: Seq<u8>, next: ObfsState, client: bool) -> bool {
    match s {
        ObfsState::Passthrough(..) => out == data && next == s,
        ObfsState::Http(k, m) => if client {
            &&& next == ObfsState::Http(k, if k is Mix { HttpModel { is_first: false, ..m } } else { m })
            &&& exists|choice: u8| out == #[trigger] spec_http_header(encode_utf8(m.info.host@), data.len(), http_posts(k, m), false, choice) + data
        } else {
            &&& next == s
            &&& exists|choice: u8| out == #[trigger] spec_http_header(Seq::empty(), data.len(), false, true, choice) + data
        },
    }
}

/// What a decode stage of an obfuscation plugin makes of `data`: the output and the next state.
pub open spec fn obfs_decode(s: ObfsState, data: Seq<u8>) -> (Seq<u8>, ObfsState) {
    match s {
        ObfsState::Passthrough(..) => (data, s),
        ObfsState::Http(k, m) => (http_decode(m.buffer, data).0, ObfsState::Http(k, HttpModel { buffer: http_decode(m.buffer, data).1, ..m })),
    }
}

/// An obfuscation plugin, one variant per known name.
pub enum ObfsPlugin {
    Plain(Plain),
    HttpSimple(HttpSimple),
    HttpPost(HttpPost),
    HttpMix(HttpMix),
    Tls12TicketAuth(Tls12TicketAuth),
    Tls12TicketFastAuth(Tls12TicketFastAuth),
}

impl View for ObfsPlugin {
    type V = ObfsState;

    open spec fn view(&self) -> ObfsState {
        match self {
            ObfsPlugin::Plain(p) => ObfsState::Passthrough("plain"@, p.info()),
            ObfsPlugin::HttpSimple(p) => ObfsState::Http(HttpKind::Simple, p@),
            ObfsPlugin::HttpPost(p) => ObfsState::Http(HttpKind::Post, p@),
            ObfsPlugin::HttpMix(p) => ObfsState::Http(HttpKind::Mix, p@),
            ObfsPlugin::Tls12TicketAuth(p) => ObfsState::Passthrough("tls1.2_ticket_auth"@, p.info()),
            ObfsPlugin::Tls12TicketFastAuth(p) => ObfsState::Passthrough("tls1.2_ticket_fastauth"@, p.info()),
        }
    }
}

impl ObfsPlugin {
    /// The plugin's name.
    pub fn name(&self) -> (r: &str)
        ensures
            r@ == obfs_name(self@),
    {
        match self {
            ObfsPlugin::Plain(p) => p.name(),
            ObfsPlugin::HttpSimple(p) => p.name(),
            ObfsPlugin::HttpPost(p) => p.name(),
            ObfsPlugin::HttpMix(p) => p.name(),
            ObfsPlugin::Tls12TicketAuth(p) => p.name(),
            ObfsPlugin::Tls12TicketFastAuth(p) => p.name(),
        }
    }

    /// Hands the settings to the plugin.
    pub fn set_server_info(&mut self, info: ServerInfo)
        ensures
            obfs_info(final(self)@) == info,
            obfs_name(final(self)@) == obfs_name(old(self)@),
            final(self)@ is Http <==> old(self)@ is Http,
            old(self)@ matches ObfsState::Http(k, m) ==> final(self)@ == ObfsState::Http(k, HttpModel { info: info, ..m }),
    {
        match self {
            ObfsPlugin::Plain(p) => p.set_server_info(info),
            ObfsPlugin::HttpSimple(p) => p.set_server_info(info),
            ObfsPlugin::HttpPost(p) => p.set_server_info(info),
            ObfsPlugin::HttpMix(p) => p.set_server_info(info),
            ObfsPlugin::Tls12TicketAuth(p) => p.set_server_info(info),
            ObfsPlugin::Tls12TicketFastAuth(p) => p.set_server_info(info),
        }
    }

    /// The plugin's `client_encode` stage.
    #[verifier::spinoff_prover]
    pub fn client_encode(&mut self, data: &[u8]) -> (r: Result<Vec<u8>>)
        ensures
            r matches Ok(v) && obfs_encode(old(self)@, data@, v@, final(self)@, true),
    {
        match self {
            ObfsPlugin::Plain(p) => p.client_encode(data),
            ObfsPlugin::HttpSimple(p) => {
                let ghost m = p@;
                let r = p.client_encode(data);
                proof {
                    let v = r->Ok_0@;
                    let c = choose|c: u8| v == spec_http_header(encode_utf8(m.info.host@), data@.len(), false, false, c) + data@;
                    assert(v == spec_http_header(encode_utf8(m.info.host@), data@.len(), http_posts(HttpKind::Simple, m), false, c) + data@);
                }
                r
            },
            ObfsPlugin::HttpPost(p) => {
                let ghost m = p@;
                let r = p.client_encode(data);
                proof {
                    let v = r->Ok_0@;
                    let c = choose|c: u8| v == spec_http_header(encode_utf8(m.info.host@), data@.len(), true, false, c) + data@;
                    assert(v == spec_http_header(encode_utf8(m.info.host@), data@.len(), http_posts(HttpKind::Post, m), false, c) + data@);
                }
                r
            },
            ObfsPlugin::HttpMix(p) => {
                let ghost m = p@;
                let r = p.client_encode(data);
                proof {
                    let v = r->Ok_0@;
                    let c = choose|c: u8| v == spec_http_header(encode_utf8(m.info.host@), data@.len(), sends_post(m), false, c) + data@;
                    assert(v == spec_http_header(encode_utf8(m.info.host@), data@.len(), http_posts(HttpKind::Mix, m), false, c) + data@);
                }
                r
            },
            ObfsPlugin::Tls12TicketAuth(p) => p.client_encode(data),
            ObfsPlugin::Tls12TicketFastAuth(p) => p.client_encode(data),
        }
    }

    /// The plugin's `server_encode` stage.
    #[verifier::spinoff_prover]
    pub fn server_encode(&mut self, data: &[u8]) -> (r: Result<Vec<u8>>)
        ensures
            r matches Ok(v) && obfs_encode(old(self)@, data@, v@, final(self)@, false),
    {
        match self {
            ObfsPlugin::Plain(p) => p.server_encode(data),
            ObfsPlugin::HttpSimple(p) => {
                let ghost m = p@;
                let r = p.server_encode(data);
                proof {
                    let v = r->Ok_0@;
                    let c = choose|c: u8| v == spec_http_header(Seq::empty(), data@.len(), false, true, c) + data@;
                    assert(v == spec_http_header(Seq::empty(), data@.len(), false, true, c) + data@);
                }
                r
            },
            ObfsPlugin::HttpPost(p) => {
                let ghost m = p@;
                let r = p.server_encode(data);
                proof {
                    let v = r->Ok_0@;
                    let c = choose|c: u8| v == spec_http_header(Seq::empty(), data@.len(), false, true, c) + data@;
                    assert(v == spec_http_header(Seq::empty(), data@.len(), false, true, c) + data@);
                }
                r
            },
            ObfsPlugin::HttpMix(p) => {
                let ghost m = p@;
                let r = p.server_encode(data);
                proof {
                    let v = r->Ok_0@;
                    let c = choose|c: u8| v == spec_http_header(Seq::empty(), data@.len(), false, true, c) + data@;
                    assert(v == spec_http_header(Seq::empty(), data@.len(), false, true, c) + data@);
                }
                r
            },
            ObfsPlugin::Tls12TicketAuth(p) => p.server_encode(data),
            ObfsPlugin::Tls12TicketFastAuth(p) => p.server_encode(data),
        }
    }

    /// The plugin's `client_decode` stage.
    #[verifier::spinoff_prover]
    pub fn client_decode(&mut self, data: &[u8]) -> (r: Result<Vec<u8>>)
        ensures
            r matches Ok(v) && (v@, final(self)@) == obfs_decode(old(self)@, data@),
    {
        match self {
            ObfsPlugin::Plain(p) => p.client_decode(data),
            ObfsPlugin::HttpSimple(p) => p.client_decode(data),
            ObfsPlugin::HttpPost(p) => p.client_decode(data),
            ObfsPlugin::HttpMix(p) => p.client_decode(data),
            ObfsPlugin::Tls12TicketAuth(p) => p.client_decode(data),
            ObfsPlugin::Tls12TicketFastAuth(p) => p.client_decode(data),
        }
    }

    /// The plugin's `server_decode` stage.
    #[verifier::spinoff_prover]
    pub fn server_decode(&mut self, data: &[u8]) -> (r: Result<Vec<u8>>)
        ensures
            r matches Ok(v) && (v@, final(self)@) == obfs_decode(old(self)@, data@),
    {
        match self {
            ObfsPlugin::Plain(p) => p.server_decode(data),
            ObfsPlugin::HttpSimple(p) => p.server_decode(data),
            ObfsPlugin::HttpPost(p) => p.server_decode(data),
            ObfsPlugin::HttpMix(p) => p.server_decode(data),
            ObfsPlugin::Tls12TicketAuth(p) => p.server_decode(data),
            ObfsPlugin::Tls12TicketFastAuth(p) => p.server_decode(data),
        }
    }
}

/// The obfuscation plugin of a name (exact case), fresh; nothing for an unknown name.
#[verifier::spinoff_prover]
pub fn create_obfs(name: &str) -> (r: Option<ObfsPlugin>)
    ensures
        r is Some <==> obfs_known(name@),
        r matches Some(p) ==> obfs_name(p@) == name@ && obfs_fresh(p@),
        r matches Some(p) ==> (p@ is Http <==> http_obfs_name(name@)),
{
    if str_eq(name, "http_simple") {
        Some(ObfsPlugin::HttpSimple(HttpSimple::new()))
    } else if str_eq(name, "http_post") {
        Some(ObfsPlugin::HttpPost(HttpPost::new()))
    } else if str_eq(name, "http_mix") {
        Some(ObfsPlugin::HttpMix(HttpMix::new()))
    } else if str_eq(name, "plain") {
        Some(ObfsPlugin::Plain(Plain::new()))
    } else if str_eq(name, "tls1.2_ticket_auth") {
        Some(ObfsPlugin::Tls12TicketAuth(Tls12TicketAuth::new()))
    } else if str_eq(name, "tls1.2_ticket_fastauth") {
        Some(ObfsPlugin::Tls12TicketFastAuth(Tls12TicketFastAuth::new()))
    } else {
        None
    }
}

/// The names of the HTTP obfuscation plugins.
pub open spec fn http_obfs_name(name: Seq<char>) -> bool {
    name == "http_simple"@ || name == "http_post"@ || name == "http_mix"@
}

/// The cipher stage of a tunnel.
pub type CipherKind = SsrCipher;

/// Mathematical state of a tunnel's pipeline.
pub struct TunnelState {
    pub protocol: Option<ProtocolState>,
    pub obfs: Option<ObfsState>,
    pub cipher: SsrState,
}

/// The protocol stage of a pipeline turned `data` into `out` before encryption.
pub open spec fn pre_stage(p: Option<ProtocolState>, data: Seq<u8>, out: Seq<u8>, next: Option<ProtocolState>, client: bool) -> bool {
    match p {
        None => out == data && next is None,
        Some(s) => next matches Some(n) && protocol_pre_encrypt(s, data, out, n, client),
    }
}

/// Inputs on which the protocol stage after decryption is defined.
pub open spec fn post_ready(p: Option<ProtocolState>, data: Seq<u8>, client: bool) -> bool {
    match p {
        None => true,
        Some(s) => protocol_post_ready(s, data, client),
    }
}

/// The protocol stage of a pipeline turned decrypted `data` into `out` (nothing on an error).
pub open spec fn post_stage(p: Option<ProtocolState>, data: Seq<u8>, out: Option<Seq<u8>>, next: Option<ProtocolState>, client: bool) -> bool {
    match p {
        None => out == Some(data) && next is None,
        Some(s) => next matches Some(n) && protocol_post_decrypt(s, data, out, n, client),
    }
}

/// The obfuscation stage of a pipeline turned encrypted `data` into `out`.
pub open spec fn encode_stage(o: Option<ObfsState>, data: Seq<u8>, out: Seq<u8>, next: Option<ObfsState>, client: bool) -> bool {
    match o {
        None => out == data && next is None,
        Some(s) => next matches Some(n) && obfs_encode(s, data, out, n, client),
    }
}

/// What the obfuscation stage of a pipeline makes of received `data`.
pub open spec fn decode_stage(o: Option<ObfsState>, data: Seq<u8>) -> (Seq<u8>, Option<ObfsState>) {
    match o {
        None => (data, None),
        Some(s) => (obfs_decode(s, data).0, Some(obfs_decode(s, data).1)),
    }
}

/// A write through the pipeline: protocol stage to `x1`, cipher stage to `x2`, obfuscation
/// stage to `out`; a cipher failure ends the write with nothing.
pub open spec fn pipeline_write(t0: TunnelState, data: Seq<u8>, x1: Seq<u8>, x2: Option<Seq<u8>>,
    out: Option<Seq<u8>>, t1: TunnelState, client: bool) -> bool {
    &&& pre_stage(t0.protocol, data, x1, t1.protocol, client)
    &&& cipher_encrypted(t0.cipher, x1, x2, t1.cipher)
    &&& match x2 {
        None => out is None && t1.obfs == t0.obfs,
        Some(y) => out matches Some(v) && encode_stage(t0.obfs, y, v, t1.obfs, client),
    }
}

/// Writes through the pipeline stay within what the cipher can do, whatever the protocol
/// stage produces.
pub open spec fn pipeline_write_fits(t0: TunnelState, data: Seq<u8>, client: bool) -> bool {
    forall|x: Seq<u8>, p: Option<ProtocolState>| #[trigger] pre_stage(t0.protocol, data, x, p, client)
        ==> ssr_encrypt_fits(t0.cipher, x)
}

/// A read through the pipeline: obfuscation stage, cipher stage, then the protocol stage
/// on what the cipher gave (nothing on a failure).
pub open spec fn pipeline_read(t0: TunnelState, data: Seq<u8>, out: Option<Seq<u8>>, t1: TunnelState, client: bool) -> bool {
    let (x1, o1) = decode_stage(t0.obfs, data);
    let (x2, c1) = cipher_decrypted(t0.cipher, x1);
    &&& t1.obfs == o1
    &&& t1.cipher == c1
    &&& match x2 {
        None => out is None && t1.protocol == t0.protocol,
        Some(y) => post_stage(t0.protocol, y, out, t1.protocol, client),
    }
}

/// A receiving obfuscation stage that gives back what the sending stage `s` encodes: none
/// for none; a pass-through plugin for a pass-through plugin; an HTTP plugin with nothing
/// buffered for an HTTP plugin, whose host (when it sends requests) has no blank line before
/// the line break that follows it.
pub open spec fn obfs_pair_ok(s: Option<ObfsState>, r: Option<ObfsState>, client: bool) -> bool {
    match (s, r) {
        (None, None) => true,
        (Some(ObfsState::Passthrough(..)), Some(ObfsState::Passthrough(..))) => true,
        (Some(ObfsState::Http(_, a)), Some(ObfsState::Http(_, b))) => {
            &&& b.buffer == Seq::<u8>::empty()
            &&& client ==> encode_utf8(a.info.host@).len() == 0
                || no_blank_line(encode_utf8(a.info.host@) + seq![13u8, 10u8])
        },
        _ => false,
    }
}

/// A receiving HTTP stage with nothing buffered decodes what the sending HTTP stage
/// encoded, and has nothing buffered afterwards.
#[verifier::spinoff_prover]
proof fn lemma_http_pair_decode(k: HttpKind, a: HttpModel, k2: HttpKind, b: HttpModel, y: Seq<u8>, v: Seq<u8>,
    next: ObfsState, client: bool)
    requires
        obfs_pair_ok(Some(ObfsState::Http(k, a)), Some(ObfsState::Http(k2, b)), client),
        obfs_encode(ObfsState::Http(k, a), y, v, next, client),
    ensures
        http_decode(b.buffer, v) == (y, Seq::<u8>::empty()),
        next matches ObfsState::Http(k3, a3) && a3.info == a.info,
{
    assert(b.buffer + v =~= v);
    if client {
        let host = encode_utf8(a.info.host@);
        let c = choose|c: u8| v == #[trigger] spec_http_header(host, y.len(), http_posts(k, a), false, c) + y;
        lemma_http_frame_roundtrip(host, y, http_posts(k, a), false, c);
    } else {
        let c = choose|c: u8| v == #[trigger] spec_http_header(Seq::empty(), y.len(), false, true, c) + y;
        lemma_http_frame_roundtrip(Seq::empty(), y, false, true, c);
    }
}

/// A matching receiving obfuscation stage decodes what the sending stage encoded, and the
/// two stages still match afterwards.
#[verifier::spinoff_prover]
proof fn lemma_obfs_pair_decode(s: Option<ObfsState>, r: Option<ObfsState>, y: Seq<u8>, v: Seq<u8>,
    next: Option<ObfsState>, client: bool)
    requires
        obfs_pair_ok(s, r, client),
        encode_stage(s, y, v, next, client),
    ensures
        decode_stage(r, v).0 == y,
        obfs_pair_ok(next, decode_stage(r, v).1, client),
{
    match (s, r) {
        (Some(ObfsState::Http(k, a)), Some(ObfsState::Http(k2, b))) => {
            let n = next.unwrap();
            lemma_http_pair_decode(k, a, k2, b, y, v, n, client);
            let d = http_decode(b.buffer, v);
            let r1 = ObfsState::Http(k2, HttpModel { buffer: d.1, ..b });
            assert(obfs_decode(r.unwrap(), v) == (d.0, r1));
            assert(decode_stage(r, v) == (y, Some(r1)));
        },
        (Some(ObfsState::Passthrough(..)), Some(ObfsState::Passthrough(..))) => {
            assert(decode_stage(r, v) == (v, r));
        },
        _ => {
            assert(s is None && r is None);
        },
    }
}

/// A protocol stage that hands data through: none, or a pass-through plugin.
pub open spec fn protocol_passes(p: Option<ProtocolState>) -> bool {
    match p {
        None => true,
        Some(ProtocolState::Passthrough(..)) => true,
        Some(ProtocolState::AuthSha1V4(..)) => false,
    }
}

/// A receiving protocol stage that gives back what the sending stage `s` is handed:
/// pass-through stages on both sides; or `auth_sha1_v4` on both sides with nothing buffered
/// at the receiver, where a client sender has sent its header exactly when the server
/// receiver has read one, and both have the same key and IV.
pub open spec fn protocol_pair_ok(s: Option<ProtocolState>, r: Option<ProtocolState>, client: bool) -> bool {
    ||| protocol_passes(s) && protocol_passes(r)
    ||| match (s, r) {
        (Some(ProtocolState::AuthSha1V4(c)), Some(ProtocolState::AuthSha1V4(v))) => {
            &&& v.recv_buffer == Seq::<u8>::empty()
            &&& client ==> {
                &&& c.has_sent_header == v.has_recv_header
                &&& v.info.key@ == c.info.key@
                &&& v.info.recv_iv@ == c.info.recv_iv@
            }
        },
        _ => false,
    }
}

/// Writes that a matching receiver reads back: an `auth_sha1_v4` client that has not sent its
/// header sends it with the first data, so that write must carry some.
pub open spec fn protocol_write_ok(s: Option<ProtocolState>, data: Seq<u8>, client: bool) -> bool {
    match s {
        Some(ProtocolState::AuthSha1V4(c)) => client && !c.has_sent_header ==> data.len() > 0,
        _ => true,
    }
}

/// The receiving protocol stage after it read a write: an `auth_sha1_v4` server has then
/// read the header; other stages stay as they are.
pub open spec fn protocol_after_read(r: Option<ProtocolState>, client: bool) -> Option<ProtocolState> {
    match r {
        Some(ProtocolState::AuthSha1V4(m)) => if client {
            Some(ProtocolState::AuthSha1V4(V4Model { has_recv_header: true, ..m }))
        } else {
            r
        },
        _ => r,
    }
}

/// An `auth_sha1_v4` server in step with the client reads back what the client wrote; both
/// have then passed the header.
#[verifier::spinoff_prover]
proof fn lemma_v4_pair_from_client(c: V4Model, v: V4Model, data: Seq<u8>, x1: Seq<u8>, m2: V4Model)
    requires
        v4_client_sent(c, data, x1, m2),
        v.recv_buffer == Seq::<u8>::empty(),
        c.has_sent_header == v.has_recv_header,
        v.info.key@ == c.info.key@,
        v.info.recv_iv@ == c.info.recv_iv@,
        !c.has_sent_header ==> data.len() > 0,
    ensures
        exists|now: u32| v4_post_is(#[trigger] v4_server_post(v, x1, now), Some(data),
            ProtocolState::AuthSha1V4(V4Model { has_recv_header: true, ..v })),
        m2.has_sent_header,
        m2.info == c.info,
{
    let (now, id, conn) = choose|now: u32, id: Seq<u8>, conn: u32| id.len() == 4
        && #[trigger] v4_client_pre(c, data, now, id, conn) == (x1, m2);
    reveal(v4_client_pre);
    if !c.has_sent_header {
        assert(v4_time_diff(now, now) == 0);
        lemma_v4_handshake(c, v, data, now, id, conn, now);
    } else {
        assert(x1 == v4_chunks(data, v4_unit()));
        lemma_v4_client_to_server_data(v, data, now);
        assert(V4Model { has_recv_header: true, ..v } == v);
    }
    assert(v4_post_is(v4_server_post(v, x1, now), Some(data), ProtocolState::AuthSha1V4(V4Model { has_recv_header: true, ..v })));
}

/// The protocol stage of a matching receiver gives back what the sender was handed, and the
/// two stages still match afterwards.
proof fn lemma_protocol_pair_read(s: Option<ProtocolState>, r: Option<ProtocolState>, data: Seq<u8>, x1: Seq<u8>,
    next: Option<ProtocolState>, client: bool)
    requires
        protocol_pair_ok(s, r, client),
        protocol_write_ok(s, data, client),
        pre_stage(s, data, x1, next, client),
    ensures
        post_stage(r, x1, Some(data), protocol_after_read(r, client), !client),
        protocol_pair_ok(next, protocol_after_read(r, client), client),
{
    if protocol_passes(s) && protocol_passes(r) {
        assert(x1 == data);
    } else {
        match (s, r, next) {
            (Some(ProtocolState::AuthSha1V4(c)), Some(ProtocolState::AuthSha1V4(v)), Some(ProtocolState::AuthSha1V4(m2))) => {
                if client {
                    lemma_v4_pair_from_client(c, v, data, x1, m2);
                } else {
                    lemma_v4_server_to_client(v, data);
                }
            },
            _ => {},
        }
    }
}

/// A receiver that reads what the sender `t` writes back: matching protocol and obfuscation
/// stages, and a cipher in the state the sender's cipher is in.
pub open spec fn pipeline_synced(t: TunnelState, r: TunnelState, client: bool) -> bool {
    &&& protocol_pair_ok(t.protocol, r.protocol, client)
    &&& obfs_pair_ok(t.obfs, r.obfs, client)
    &&& cipher_pair_ok(t.cipher, r.cipher)
}

/// Law of the pipeline: a receiver in step with the sender (`pipeline_synced`) reads back
/// exactly what each write of the sender carried, and is in step with the sender again
/// afterwards, so that every write of a connection is read back in turn.
#[verifier::spinoff_prover]
pub proof fn lemma_pipeline_roundtrip(t0: TunnelState, r0: TunnelState, data: Seq<u8>, x1: Seq<u8>,
    x2: Option<Seq<u8>>, v: Seq<u8>, t1: TunnelState, client: bool)
    requires
        pipeline_synced(t0, r0, client),
        protocol_write_ok(t0.protocol, data, client),
        pipeline_write(t0, data, x1, x2, Some(v), t1, client),
    ensures
        ({
            let (y, o1) = decode_stage(r0.obfs, v);
            let r1 = TunnelState {
                protocol: protocol_after_read(r0.protocol, client),
                obfs: o1,
                cipher: cipher_decrypted(r0.cipher, y).1,
            };
            &&& pipeline_read(r0, v, Some(data), r1, !client)
            &&& pipeline_synced(t1, r1, client)
        }),
{
    let y = x2.unwrap();
    lemma_obfs_pair_decode(t0.obfs, r0.obfs, y, v, t1.obfs, client);
    lemma_protocol_pair_read(t0.protocol, r0.protocol, data, x1, t1.protocol, client);
    lemma_cipher_pair_read(t0.cipher, r0.cipher, x1, y, t1.cipher);
}

/// Law of a connection's start: two pipelines built from one configuration are in step in
/// both directions, so that each reads back every write of the other, when the cipher's
/// decryption undoes its encryption and the configured host, followed by a line break, has
/// no blank line.
pub proof fn lemma_pipelines_start_in_step(config: SsrConfig, c: TunnelState, ci: ServerInfo, s: TunnelState,
    si: ServerInfo)
    requires
        pipeline_built(config, c, ci),
        pipeline_built(config, s, si),
        c.cipher matches SsrState::Stream(st, _) ==> stream_roundtrips(st.method),
        encode_utf8(config_host(config)).len() == 0 || no_blank_line(encode_utf8(config_host(config)) + seq![13u8, 10u8]),
    ensures
        pipeline_synced(c, s, true),
        pipeline_synced(s, c, false),
{
    assert(c.cipher == s.cipher);
    match (c.protocol, s.protocol) {
        (Some(p), Some(q)) => {
            assert(p is AuthSha1V4 <==> q is AuthSha1V4);
        },
        _ => {},
    }
    match (c.obfs, s.obfs) {
        (Some(o), Some(w)) => {
            assert(o is Http <==> w is Http);
        },
        _ => {},
    }
}

/// The protocol stage after decryption, run with the checks that turn out-of-bounds input
/// into an error, turned `data` into `out`.
pub open spec fn post_stage_checked(p: Option<ProtocolState>, data: Seq<u8>, out: Option<Seq<u8>>, next: Option<ProtocolState>, client: bool) -> bool {
    match p {
        None => out == Some(data) && next is None,
        Some(s) => next matches Some(n) && protocol_post_checked(s, data, out, n, client),
    }
}

/// A checked write through the pipeline: a write as `pipeline_write` describes it, or, when
/// what the protocol stage made does not fit the cipher, nothing, with the cipher and the
/// obfuscation stage untouched.
pub open spec fn pipeline_write_checked(t0: TunnelState, data: Seq<u8>, out: Option<Seq<u8>>, t1: TunnelState, client: bool) -> bool {
    ||| exists|x1: Seq<u8>, x2: Option<Seq<u8>>| #[trigger] pipeline_write(t0, data, x1, x2, out, t1, client)
    ||| {
        &&& out is None
        &&& t1.cipher == t0.cipher
        &&& t1.obfs == t0.obfs
        &&& exists|x1: Seq<u8>| #[trigger] pre_stage(t0.protocol, data, x1, t1.protocol, client)
            && !ssr_encrypt_fits(t0.cipher, x1)
    }
}

/// A checked read through the pipeline: obfuscation stage; then nothing when the data does
/// not fit the cipher, otherwise the cipher stage and the checked protocol stage.
pub open spec fn pipeline_read_checked(t0: TunnelState, data: Seq<u8>, out: Option<Seq<u8>>, t1: TunnelState, client: bool) -> bool {
    let (x1, o1) = decode_stage(t0.obfs, data);
    &&& t1.obfs == o1
    &&& if !ssr_decrypt_fits(t0.cipher, x1) {
        out is None && t1.cipher == t0.cipher && t1.protocol == t0.protocol
    } else {
        let (x2, c1) = cipher_decrypted(t0.cipher, x1);
        &&& t1.cipher == c1
        &&& match x2 {
            None => out is None && t1.protocol == t0.protocol,
            Some(y) => post_stage_checked(t0.protocol, y, out, t1.protocol, client),
        }
    }
}

/// Reads through the pipeline stay within what the cipher and the protocol stage can do.
pub open spec fn pipeline_read_fits(t0: TunnelState, data: Seq<u8>, client: bool) -> bool {
    let (x1, o1) = decode_stage(t0.obfs, data);
    &&& ssr_decrypt_fits(t0.cipher, x1)
    &&& cipher_decrypted(t0.cipher, x1).0 matches Some(y) ==> post_ready(t0.protocol, y, client)
}

/// The server host a configuration names for clients (empty without client settings).
pub open spec fn config_host(config: SsrConfig) -> Seq<char> {
    match config.client_settings {
        Some(s) => s.server@,
        None => Seq::empty(),
    }
}

/// The server port a configuration names for clients (zero without client settings).
pub open spec fn config_port(config: SsrConfig) -> u16 {
    match config.client_settings {
        Some(s) => s.server_port,
        None => 0,
    }
}

/// The key a cipher state runs under.
pub open spec fn cipher_key(c: SsrState) -> Seq<u8> {
    match c {
        SsrState::Stream(s, _) => s.key,
        SsrState::AeadTcp(a, _) => a.key,
    }
}

/// A protocol plugin holds settings equal to `info` and is otherwise as constructed.
pub open spec fn protocol_set_up(s: ProtocolState, info: ServerInfo) -> bool {
    &&& same_info(protocol_info(s), info)
    &&& s matches ProtocolState::AuthSha1V4(m) ==> !m.has_sent_header && !m.has_recv_header
        && m.recv_buffer == Seq::<u8>::empty() && m.extra_wait_size < 1024
}

/// An obfuscation plugin holds settings equal to `info` and is otherwise as constructed.
pub open spec fn obfs_set_up(s: ObfsState, info: ServerInfo) -> bool {
    &&& same_info(obfs_info(s), info)
    &&& s matches ObfsState::Http(k, m) ==> m.buffer == Seq::<u8>::empty() && m.is_first == (k is Mix)
}

/// The pipeline `t`, with settings `info`, that a configuration gives: the cipher its method
/// and password name; settings from the configuration and the cipher's key; for AEAD methods
/// no plugins; for stream methods the configured protocol and obfuscation plugins (none for
/// empty names, `origin`, `plain`, and names that are not known), each holding the settings
/// and otherwise as constructed.
pub open spec fn pipeline_built(config: SsrConfig, t: TunnelState, info: ServerInfo) -> bool {
    &&& ssr_cipher_for(str_to_lowercase(config.method@), encode_utf8(config.password@)) == Some(t.cipher)
    &&& info.host@ == config_host(config)
    &&& info.port == config_port(config)
    &&& info.key@ == cipher_key(t.cipher)
    &&& info.recv_iv@ == Seq::<u8>::empty()
    &&& info.send_iv@ == Seq::<u8>::empty()
    &&& info.udp == config.udp
    &&& info.param@ == (if t.cipher is AeadTcp { Seq::empty() } else { config.protocol_param@ })
    &&& t.cipher is AeadTcp ==> t.protocol is None && t.obfs is None
    &&& t.cipher is Stream ==> {
        &&& (t.protocol is None <==> (config.protocol@.len() == 0 || config.protocol@ == "origin"@
            || !protocol_known(config.protocol@)))
        &&& (t.obfs is None <==> (config.obfs@.len() == 0 || config.obfs@ == "plain"@
            || !obfs_known(config.obfs@)))
    }
    &&& t.protocol matches Some(p) ==> protocol_name(p) == config.protocol@ && protocol_set_up(p, info)
        && (p is AuthSha1V4 <==> config.protocol@ == "auth_sha1_v4"@)
    &&& t.obfs matches Some(o) ==> obfs_name(o) == config.obfs@ && obfs_set_up(o, info)
        && (o is Http <==> http_obfs_name(config.obfs@))
}

/// The combined pipeline of one connection: protocol plugin, cipher, obfuscation plugin.
pub struct TunnelCipherCtx {
    pub server_info: ServerInfo,
    pub protocol: Option<ProtocolPlugin>,
    pub obfs: Option<ObfsPlugin>,
    pub cipher: CipherKind,
}

impl View for TunnelCipherCtx {
    type V = TunnelState;

    open spec fn view(&self) -> TunnelState {
        TunnelState {
            protocol: match self.protocol {
                Some(p) => Some(p@),
                None => None,
            },
            obfs: match self.obfs {
                Some(o) => Some(o@),
                None => None,
            },
            cipher: self.cipher@,
        }
    }
}

/// `prefix` followed by `name`, as an owned message.
fn config_message(prefix: &str, name: &str) -> (r: String)
    ensures
        r@ == prefix@ + name@,
{
    let mut s = msg(prefix);
    s.append(name);
    s
}

impl TunnelCipherCtx {
    /// Builds the pipeline of a configuration. AEAD methods run without plugins; stream
    /// methods get the configured protocol and obfuscation plugins (none for empty names,
    /// `origin`, `plain`, and names that are not known), each handed the settings.
    pub fn new(config: &SsrConfig, is_server: bool) -> (r: Result<Self>)
        ensures
            match r {
                Ok(ctx) => pipeline_built(*config, ctx@, ctx.server_info),
                Err(e) => ssr_cipher_for(str_to_lowercase(config.method@), encode_utf8(config.password@)) is None
                    && e is Config,
            },
    {
        let pw = config.password.as_str().as_bytes();
        let host = match &config.client_settings {
            Some(s) => s.server.clone(),
            None => String::new(),
        };
        let port = match &config.client_settings {
            Some(s) => s.server_port,
            None => 0,
        };
        if let Some(method) = AeadMethod::from_name(config.method.as_str()) {
            let key = crypto_derive_key(pw, method.key_len());
            let cipher = SsrCipher::AeadTcp(AeadTcpCipher::new(method, slice_to_vec(key.as_slice())),
                AeadTcpCipher::new(method, slice_to_vec(key.as_slice())));
            let server_info = ServerInfo {
                host,
                port,
                param: String::new(),
                key,
                recv_iv: Vec::new(),
                send_iv: Vec::new(),
                udp: config.udp,
            };
            return Ok(TunnelCipherCtx { server_info, protocol: None, obfs: None, cipher });
        }
        let method = match CipherMethod::from_name(config.method.as_str()) {
            Some(m) => m,
            None => {
                return Err(Error::Config(config_message("unknown cipher: ", config.method.as_str())));
            },
        };
        let der_key = if method == CipherMethod::Table {
            slice_to_vec(pw)
        } else {
            bytes_to_key(pw, method.key_len(), method.iv_len()).0
        };
        let cipher = SsrCipher::Stream(StreamCipher::new(method, slice_to_vec(der_key.as_slice())),
            StreamCipher::new(method, slice_to_vec(der_key.as_slice())));
        let mut protocol = if config.protocol.as_str().is_empty() || str_eq(config.protocol.as_str(), "origin") {
            None
        } else {
            create_protocol(config.protocol.as_str())
        };
        let mut obfs = if config.obfs.as_str().is_empty() || str_eq(config.obfs.as_str(), "plain") {
            None
        } else {
            create_obfs(config.obfs.as_str())
        };
        let server_info = ServerInfo {
            host,
            port,
            param: config.protocol_param.clone(),
            key: der_key,
            recv_iv: Vec::new(),
            send_iv: Vec::new(),
            udp: config.udp,
        };
        match &mut protocol {
            Some(p) => p.set_server_info(server_info.duplicate()),
            None => {},
        }
        match &mut obfs {
            Some(o) => o.set_server_info(server_info.duplicate()),
            None => {},
        }
        Ok(TunnelCipherCtx { server_info, protocol, obfs, cipher })
    }
}

impl TunnelCipherCtx {
    /// Runs the cipher stage on `data`.
    fn cipher_encrypt(&mut self, data: &[u8]) -> (r: Result<Vec<u8>>)
        requires
            ssr_encrypt_fits(old(self).cipher@, data@),
        ensures
            cipher_encrypted(old(self).cipher@, data@, output_of(r), final(self).cipher@),
            final(self).protocol == old(self).protocol,
            final(self).obfs == old(self).obfs,
    {
        let r = self.cipher.encrypt(data);
        proof {
            if r is Ok {
                assert(output_of(r) == Some(r->Ok_0@));
            }
        }
        r
    }

    /// Runs the cipher stage on received `data`.
    fn cipher_decrypt(&mut self, data: &[u8]) -> (r: Result<Vec<u8>>)
        requires
            ssr_decrypt_fits(old(self).cipher@, data@),
        ensures
            (output_of(r), final(self).cipher@) == cipher_decrypted(old(self).cipher@, data@),
            final(self).protocol == old(self).protocol,
            final(self).obfs == old(self).obfs,
    {
        self.cipher.decrypt(data)
    }

    /// Client side, outgoing: protocol, cipher, obfuscation.
    #[verifier::spinoff_prover]
    pub fn client_encrypt(&mut self, data: &[u8]) -> (r: Result<Vec<u8>>)
        requires
            pipeline_write_fits(old(self)@, data@, true),
        ensures
            exists|x1: Seq<u8>, x2: Option<Seq<u8>>| #[trigger] pipeline_write(old(self)@, data@, x1, x2, output_of(r), final(self)@, true),
    {
        let ghost t0 = self@;
        let x1 = match &mut self.protocol {
            Some(p) => p.client_pre_encrypt(data).unwrap(),
            None => slice_to_vec(data),
        };
        let ghost t1 = self@;
        assert(pre_stage(t0.protocol, data@, x1@, t1.protocol, true));
        let x2 = match self.cipher_encrypt(x1.as_slice()) {
            Ok(v) => v,
            Err(e) => {
                assert(pipeline_write(t0, data@, x1@, None, None, self@, true));
                return Err(e);
            },
        };
        let ghost t2 = self@;
        let out = match &mut self.obfs {
            Some(o) => o.client_encode(x2.as_slice()).unwrap(),
            None => x2,
        };
        assert(pipeline_write(t0, data@, x1@, Some(x2@), Some(out@), self@, true));
        Ok(out)
    }

    /// Server side, outgoing: protocol, cipher, obfuscation.
    #[verifier::spinoff_prover]
    pub fn server_encrypt(&mut self, data: &[u8]) -> (r: Result<Vec<u8>>)
        requires
            pipeline_write_fits(old(self)@, data@, false),
        ensures
            exists|x1: Seq<u8>, x2: Option<Seq<u8>>| #[trigger] pipeline_write(old(self)@, data@, x1, x2, output_of(r), final(self)@, false),
    {
        let ghost t0 = self@;
        let x1 = match &mut self.protocol {
            Some(p) => p.server_pre_encrypt(data).unwrap(),
            None => slice_to_vec(data),
        };
        let ghost t1 = self@;
        assert(pre_stage(t0.protocol, data@, x1@, t1.protocol, false));
        let x2 = match self.cipher_encrypt(x1.as_slice()) {
            Ok(v) => v,
            Err(e) => {
                assert(pipeline_write(t0, data@, x1@, None, None, self@, false));
                return Err(e);
            },
        };
        let out = match &mut self.obfs {
            Some(o) => o.server_encode(x2.as_slice()).unwrap(),
            None => x2,
        };
        assert(pipeline_write(t0, data@, x1@, Some(x2@), Some(out@), self@, false));
        Ok(out)
    }

    /// Client side, incoming: obfuscation, cipher, protocol.
    #[verifier::spinoff_prover]
    pub fn client_decrypt(&mut self, data: &[u8]) -> (r: Result<Vec<u8>>)
        requires
            pipeline_read_fits(old(self)@, data@, true),
        ensures
            pipeline_read(old(self)@, data@, output_of(r), final(self)@, true),
    {
        let ghost t0 = self@;
        let x1 = match &mut self.obfs {
            Some(o) => o.client_decode(data).unwrap(),
            None => slice_to_vec(data),
        };
        assert((x1@, self@.obfs) == decode_stage(t0.obfs, data@));
        let x2 = match self.cipher_decrypt(x1.as_slice()) {
            Ok(v) => v,
            Err(e) => {
                return Err(e);
            },
        };
        let out = match &mut self.protocol {
            Some(p) => p.client_post_decrypt(x2.as_slice()),
            None => Ok(x2),
        };
        out
    }

    /// Server side, incoming: obfuscation, cipher, protocol.
    #[verifier::spinoff_prover]
    pub fn server_decrypt(&mut self, data: &[u8]) -> (r: Result<Vec<u8>>)
        requires
            pipeline_read_fits(old(self)@, data@, false),
        ensures
            pipeline_read(old(self)@, data@, output_of(r), final(self)@, false),
    {
        let ghost t0 = self@;
        let x1 = match &mut self.obfs {
            Some(o) => o.server_decode(data).unwrap(),
            None => slice_to_vec(data),
        };
        assert((x1@, self@.obfs) == decode_stage(t0.obfs, data@));
        let x2 = match self.cipher_decrypt(x1.as_slice()) {
            Ok(v) => v,
            Err(e) => {
                return Err(e);
            },
        };
        let out = match &mut self.protocol {
            Some(p) => p.server_post_decrypt(x2.as_slice()),
            None => Ok(x2),
        };
        out
    }

    /// Client side, outgoing, for any input: as `client_encrypt`, but when what the
    /// protocol stage made does not fit the cipher the write ends with an error.
    #[verifier::spinoff_prover]
    pub fn client_encrypt_checked(&mut self, data: &[u8]) -> (r: Result<Vec<u8>>)
        ensures
            pipeline_write_checked(old(self)@, data@, output_of(r), final(self)@, true),
            pipeline_write_fits(old(self)@, data@, true) ==> exists|x1: Seq<u8>, x2: Option<Seq<u8>>|
                #[trigger] pipeline_write(old(self)@, data@, x1, x2, output_of(r), final(self)@, true),
    {
        let ghost t0 = self@;
        let x1 = match &mut self.protocol {
            Some(p) => p.client_pre_encrypt(data).unwrap(),
            None => slice_to_vec(data),
        };
        let ghost t1 = self@;
        assert(pre_stage(t0.protocol, data@, x1@, t1.protocol, true));
        if !self.cipher.can_encrypt(x1.as_slice()) {
            return Err(Error::Crypto(msg("too much data for the cipher")));
        }
        let x2 = match self.cipher_encrypt(x1.as_slice()) {
            Ok(v) => v,
            Err(e) => {
                assert(pipeline_write(t0, data@, x1@, None, None, self@, true));
                return Err(e);
            },
        };
        let out = match &mut self.obfs {
            Some(o) => o.client_encode(x2.as_slice()).unwrap(),
            None => x2,
        };
        assert(pipeline_write(t0, data@, x1@, Some(x2@), Some(out@), self@, true));
        Ok(out)
    }

    /// Client side, incoming, for any input: as `client_decrypt`, but data that does not
    /// fit the cipher, and input the protocol stage would read out of bounds, give an error.
    #[verifier::spinoff_prover]
    #[verifier::rlimit(60)]
    pub fn client_decrypt_checked(&mut self, data: &[u8]) -> (r: Result<Vec<u8>>)
        ensures
            pipeline_read_checked(old(self)@, data@, output_of(r), final(self)@, true),
    {
        let ghost t0 = self@;
        let x1 = match &mut self.obfs {
            Some(o) => o.client_decode(data).unwrap(),
            None => slice_to_vec(data),
        };
        assert((x1@, self@.obfs) == decode_stage(t0.obfs, data@));
        if !self.cipher.can_decrypt(x1.as_slice()) {
            return Err(Error::Crypto(msg("too much data for the cipher")));
        }
        let x2 = match self.cipher_decrypt(x1.as_slice()) {
            Ok(v) => v,
            Err(e) => {
                return Err(e);
            },
        };
        let out = match &mut self.protocol {
            Some(p) => p.client_post_decrypt_checked(x2.as_slice()),
            None => Ok(x2),
        };
        out
    }

    /// Server side, outgoing, for any input: as `server_encrypt`, but when what the
    /// protocol stage made does not fit the cipher the write ends with an error.
    #[verifier::spinoff_prover]
    pub fn server_encrypt_checked(&mut self, data: &[u8]) -> (r: Result<Vec<u8>>)
        ensures
            pipeline_write_checked(old(self)@, data@, output_of(r), final(self)@, false),
            pipeline_write_fits(old(self)@, data@, false) ==> exists|x1: Seq<u8>, x2: Option<Seq<u8>>|
                #[trigger] pipeline_write(old(self)@, data@, x1, x2, output_of(r), final(self)@, false),
    {
        let ghost t0 = self@;
        let x1 = match &mut self.protocol {
            Some(p) => p.server_pre_encrypt(data).unwrap(),
            None => slice_to_vec(data),
        };
        let ghost t1 = self@;
        assert(pre_stage(t0.protocol, data@, x1@, t1.protocol, false));
        if !self.cipher.can_encrypt(x1.as_slice()) {
            return Err(Error::Crypto(msg("too much data for the cipher")));
        }
        let x2 = match self.cipher_encrypt(x1.as_slice()) {
            Ok(v) => v,
            Err(e) => {
                assert(pipeline_write(t0, data@, x1@, None, None, self@, false));
                return Err(e);
            },
        };
        let out = match &mut self.obfs {
            Some(o) => o.server_encode(x2.as_slice()).unwrap(),
            None => x2,
        };
        assert(pipeline_write(t0, data@, x1@, Some(x2@), Some(out@), self@, false));
        Ok(out)
    }

    /// Server side, incoming, for any input: as `server_decrypt`, but data that does not
    /// fit the cipher, and input the protocol stage would read out of bounds, give an error.
    #[verifier::spinoff_prover]
    #[verifier::rlimit(60)]
    pub fn server_decrypt_checked(&mut self, data: &[u8]) -> (r: Result<Vec<u8>>)
        ensures
            pipeline_read_checked(old(self)@, data@, output_of(r), final(self)@, false),
    {
        let ghost t0 = self@;
        let x1 = match &mut self.obfs {
            Some(o) => o.server_decode(data).unwrap(),
            None => slice_to_vec(data),
        };
        assert((x1@, self@.obfs) == decode_stage(t0.obfs, data@));
        if !self.cipher.can_decrypt(x1.as_slice()) {
            return Err(Error::Crypto(msg("too much data for the cipher")));
        }
        let x2 = match self.cipher_decrypt(x1.as_slice()) {
            Ok(v) => v,
            Err(e) => {
                return Err(e);
            },
        };
        let out = match &mut self.protocol {
            Some(p) => p.server_post_decrypt_checked(x2.as_slice()),
            None => Ok(x2),
        };
        out
    }

    /// The canonical name of the cipher method.
    pub fn method_name(&self) -> (r: &'static str)
        ensures
            r@ == match self.cipher@ {
                SsrState::Stream(s, _) => cipher_name(s.method),
                SsrState::AeadTcp(a, _) => aead_name(a.method),
            },
    {
        self.cipher.method_name()
    }
}

} // verus!
