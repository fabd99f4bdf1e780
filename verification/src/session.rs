use vstd::prelude::*;
use vstd::string::{StringExecFns, StringSliceAdditionalSpecFns};
use vstd::utf8::encode_utf8;
use crate::error::{Error, Result};
use crate::text::{ascii_chars, decimal, lemma_ascii_chars_bytes};
use crate::socks5::s5::{S5Parser, S5Model, S5Result, S5AuthMethod, Stage, s5_run, s5_addr_text, spec_initial};
use crate::socks5::addr::{Socks5Addr, addr_wire, wire_addr, groups_of, lemma_octets_of_groups};
use crate::bytes::be_bytes_u16;
use crate::ip::{ipv4_text, ipv6_text, lemma_ipv4_text_ascii, lemma_ipv6_text_ascii, lemma_ipv4_text_roundtrip,
    lemma_ipv6_text_roundtrip, lemma_ipv6_text_not_ipv4};
use crate::socks5::packet::{build_method_response, build_response, host_addr, REP_SUCCESS, REP_CMDUNSUPP,
    METHOD_NOAUTH, METHOD_NONE, SOCKS5_VER, ATYP_IPV4};
use crate::protocol::ssr_executive::{TunnelCipherCtx, pipeline_read, pipeline_read_fits, pipeline_read_checked, output_of};

verus! {

/// Where the local side of a client connection stands.
#[derive(Debug, Clone, Copy, PartialEq, Eq, Structural)]
pub enum Phase {
    /// Waiting for the method greeting.
    Greeting,
    /// Waiting for the request.
    Request,
    /// The handshake is over.
    Finished,
}

/// What the connection should do after a read from the local client.
pub enum ClientAction {
    /// Send the bytes to the local client and read again.
    Reply(Vec<u8>),
    /// Send the bytes to the local client and close.
    ReplyClose(Vec<u8>),
    /// Close without replying.
    Close,
    /// Send `reply` to the local client, open the tunnel to the server and send `target`
    /// (the destination in wire form) through it, then relay.
    Open { reply: Vec<u8>, target: Vec<u8> },
}

/// Mathematical form of a `ClientAction`.
pub enum ClientStep {
    Reply(Seq<u8>),
    ReplyClose(Seq<u8>),
    Close,
    Open(Seq<u8>, Seq<u8>),
}

impl View for ClientAction {
    type V = ClientStep;

    open spec fn view(&self) -> ClientStep {
        match self {
            ClientAction::Reply(v) => ClientStep::Reply(v@),
            ClientAction::ReplyClose(v) => ClientStep::ReplyClose(v@),
            ClientAction::Close => ClientStep::Close,
            ClientAction::Open { reply, target } => ClientStep::Open(reply@, target@),
        }
    }
}

/// The success reply: bind address 0.0.0.0:0.
pub open spec fn success_reply() -> Seq<u8> {
    seq![SOCKS5_VER, REP_SUCCESS, 0u8, ATYP_IPV4, 0u8, 0u8, 0u8, 0u8, 0u8, 0u8]
}

/// The destination a finished request names, in wire form: its address text read back as a
/// host (IP text becomes an IP address) and its port.
pub open spec fn request_target(m: S5Model) -> Seq<u8> {
    let (t, h) = host_addr(s5_addr_text(m));
    addr_wire(t, h, m.dport)
}

/// Whether the text of a requested address holds a colon (the client then takes it for IPv6
/// text).
pub open spec fn has_colon(text: Seq<char>) -> bool {
    exists|i: int| 0 <= i < encode_utf8(text).len() && encode_utf8(text)[i] == 58u8
}

/// One read of the local client: the action, the parser's next state and the next phase.
/// Only the no-authentication method is offered; only CONNECT requests open a tunnel. A
/// requested address whose text holds a colon but is not IPv6 text gets the success reply,
/// then the connection closes without a tunnel.
pub open spec fn client_step(phase: Phase, m: S5Model, data: Seq<u8>) -> (ClientStep, S5Model, Phase) {
    let (m1, res, _used) = s5_run(m, data, 0);
    match phase {
        Phase::Greeting => if res == S5Result::AuthSelect {
            if m1.methods & 1 != 0 {
                (ClientStep::Reply(seq![SOCKS5_VER, METHOD_NOAUTH]), S5Model { stage: Stage::ReqVersion, ..m1 }, Phase::Request)
            } else {
                (ClientStep::ReplyClose(seq![SOCKS5_VER, METHOD_NONE]), m1, Phase::Finished)
            }
        } else {
            (ClientStep::Close, m1, Phase::Finished)
        },
        Phase::Request => if res == S5Result::ExecCmd {
            if m1.cmd != 1 {
                (ClientStep::ReplyClose(seq![SOCKS5_VER, REP_CMDUNSUPP, 0u8, ATYP_IPV4, 0u8, 0u8, 0u8, 0u8, 0u8, 0u8]), m1, Phase::Finished)
            } else if has_colon(s5_addr_text(m1)) && host_addr(s5_addr_text(m1)).0 != 4 {
                (ClientStep::ReplyClose(success_reply()), m1, Phase::Finished)
            } else {
                (ClientStep::Open(success_reply(), request_target(m1)), m1, Phase::Finished)
            }
        } else {
            (ClientStep::Close, m1, Phase::Finished)
        },
        Phase::Finished => (ClientStep::Close, m, Phase::Finished),
    }
}

/// The SOCKS5 handshake of a client connection, read by read.
pub struct ClientHandshake {
    parser: S5Parser,
    phase: Phase,
}

impl ClientHandshake {
    /// The parser is in a state it can reach.
    pub closed spec fn wf(&self) -> bool {
        self.parser.wf()
    }

    /// The parser's state.
    pub closed spec fn parser_state(&self) -> S5Model {
        self.parser@
    }

    pub closed spec fn phase(&self) -> Phase {
        self.phase
    }

    pub fn new() -> (r: Self)
        ensures
            r.parser_state() == spec_initial(),
            r.phase() == Phase::Greeting,
            r.wf(),
    {
        ClientHandshake { parser: S5Parser::new(), phase: Phase::Greeting }
    }

    /// Handles the bytes of one read from the local client.
    pub fn on_read(&mut self, data: &[u8]) -> (a: ClientAction)
        requires
            old(self).wf(),
        ensures
            final(self).wf(),
            (a@, final(self).parser_state(), final(self).phase())
                == client_step(old(self).phase(), old(self).parser_state(), data@),
    {
        match self.phase {
            Phase::Greeting => {
                let (res, _used) = self.parser.parse(data);
                if res == S5Result::AuthSelect {
                    if self.parser.has_method(S5AuthMethod::NoAuth) {
                        self.parser.select_auth(S5AuthMethod::NoAuth);
                        self.phase = Phase::Request;
                        ClientAction::Reply(build_method_response(METHOD_NOAUTH))
                    } else {
                        self.phase = Phase::Finished;
                        ClientAction::ReplyClose(build_method_response(METHOD_NONE))
                    }
                } else {
                    self.phase = Phase::Finished;
                    ClientAction::Close
                }
            },
            Phase::Request => {
                let (res, _used) = self.parser.parse(data);
                self.phase = Phase::Finished;
                if res == S5Result::ExecCmd {
                    if self.parser.requested_cmd() != 1 {
                        ClientAction::ReplyClose(build_response(REP_CMDUNSUPP))
                    } else {
                        let host = self.parser.addr_str();
                        let addr = Socks5Addr::from_host_port(host.as_str(), self.parser.requested_port());
                        if has_byte(host.as_str().as_bytes(), 58u8) && addr.addr_type != 4 {
                            ClientAction::ReplyClose(build_response(REP_SUCCESS))
                        } else {
                            ClientAction::Open { reply: build_response(REP_SUCCESS), target: addr.encode() }
                        }
                    }
                } else {
                    ClientAction::Close
                }
            },
            Phase::Finished => ClientAction::Close,
        }
    }
}

/// Whether `b` occurs in `s`.
fn has_byte(s: &[u8], b: u8) -> (r: bool)
    ensures
        r == exists|i: int| 0 <= i < s@.len() && s@[i] == b,
{
    let mut i: usize = 0;
    while i < s.len()
        invariant
            i <= s@.len(),
            forall|j: int| 0 <= j < i ==> s@[j] != b,
        decreases s@.len() - i,
    {
        if s[i] == b {
            return true;
        }
        i = i + 1;
    }
    false
}

/// What the server makes of a client's first packet: the pipeline's output, the destination
/// it starts with (type, host, port and length in wire form), nothing when either fails.
pub open spec fn first_packet(out: Option<Seq<u8>>) -> Option<(u8, Seq<char>, u16, int)> {
    match out {
        Some(d) => wire_addr(d),
        None => None,
    }
}

/// Reads a client's first packet on the server: decrypts it through the pipeline and takes
/// the destination off its front. Gives the destination as `host:port` text and the bytes
/// that follow it.
pub fn server_first_packet(ctx: &mut TunnelCipherCtx, data: &[u8]) -> (r: Result<(String, Vec<u8>)>)
    requires
        pipeline_read_fits(old(ctx)@, data@, false),
    ensures
        exists|out: Option<Seq<u8>>| {
            &&& #[trigger] pipeline_read(old(ctx)@, data@, out, final(ctx)@, false)
            &&& match (r, first_packet(out)) {
                (Ok((t, rest)), Some((_ty, h, p, n))) => t@ == h + ":"@ + ascii_chars(decimal(p as nat))
                    && rest@ == out.unwrap().skip(n),
                (Err(_), None) => true,
                _ => false,
            }
        },
{
    let decrypted = ctx.server_decrypt(data);
    let ghost out = output_of(decrypted);
    match decrypted {
        Err(e) => Err(e),
        Ok(d) => match Socks5Addr::parse(d.as_slice()) {
            Err(e) => Err(e),
            Ok((addr, used)) => {
                let rest = vstd::slice::slice_to_vec(&d.as_slice()[used..d.len()]);
                assert(rest@ =~= d@.skip(used as int));
                Ok((addr.to_string(), rest))
            },
        },
    }
}

/// Reads a client's first packet on the server, for any input: as `server_first_packet`, but
/// data that does not fit the cipher, and input the protocol stage would read out of bounds,
/// give an error.
pub fn server_first_packet_checked(ctx: &mut TunnelCipherCtx, data: &[u8]) -> (r: Result<(String, Vec<u8>)>)
    ensures
        exists|out: Option<Seq<u8>>| {
            &&& #[trigger] pipeline_read_checked(old(ctx)@, data@, out, final(ctx)@, false)
            &&& match (r, first_packet(out)) {
                (Ok((t, rest)), Some((_ty, h, p, n))) => t@ == h + ":"@ + ascii_chars(decimal(p as nat))
                    && rest@ == out.unwrap().skip(n),
                (Err(_), None) => true,
                _ => false,
            }
        },
{
    let decrypted = ctx.server_decrypt_checked(data);
    let ghost out = output_of(decrypted);
    match decrypted {
        Err(e) => Err(e),
        Ok(d) => match Socks5Addr::parse(d.as_slice()) {
            Err(e) => Err(e),
            Ok((addr, used)) => {
                let rest = vstd::slice::slice_to_vec(&d.as_slice()[used..d.len()]);
                assert(rest@ =~= d@.skip(used as int));
                Ok((addr.to_string(), rest))
            },
        },
    }
}

/// Law of the client handshake: for a request to an IP address, the target sent through the
/// tunnel is the requested address bytes and port, in wire form.
pub proof fn lemma_request_target_ip(m: S5Model)
    requires
        (m.atyp == 1 && m.daddr.len() >= 4) || (m.atyp == 4 && m.daddr.len() >= 16),
    ensures
        request_target(m) == seq![m.atyp] + m.daddr.take(if m.atyp == 1 { 4int } else { 16int })
            + be_bytes_u16(m.dport),
{
    if m.atyp == 1 {
        let o = m.daddr.take(4);
        let t = ipv4_text(o);
        lemma_ipv4_text_ascii(o);
        lemma_ascii_chars_bytes(t);
        lemma_ipv4_text_roundtrip(o);
        assert(host_addr(s5_addr_text(m)) == (1u8, ascii_chars(t)));
    } else {
        let b = m.daddr.take(16);
        let g = groups_of(b);
        let t = ipv6_text(g);
        lemma_ipv6_text_ascii(g);
        lemma_ascii_chars_bytes(t);
        lemma_ipv6_text_not_ipv4(g);
        lemma_ipv6_text_roundtrip(g);
        lemma_octets_of_groups(b);
        assert(host_addr(s5_addr_text(m)) == (4u8, ascii_chars(t)));
    }
}

} // verus!
