use vstd::prelude::*;
use crate::text::{ascii_chars, ascii_string, utf8_lossy, string_from_utf8_lossy};
use crate::ip::{ipv4_text, ipv6_text, format_ipv4, format_ipv6, lemma_ipv4_text_ascii, lemma_ipv6_text_ascii};
use super::addr::{groups_of, groups_from_bytes};

verus! {

/// Outcome of feeding bytes to the SOCKS5 parser.
#[derive(Debug, Clone, Copy, PartialEq, Eq, Structural)]
pub enum S5Result {
    /// More bytes are needed.
    NeedMore,
    /// The client's methods were read; the caller must select one.
    AuthSelect,
    /// Username and password were read; the caller must verify them.
    AuthVerify,
    /// A full request was read; the caller must execute it.
    ExecCmd,
    BadVersion,
    BadCmd,
    BadAtyp,
}

#[derive(Debug, Clone, Copy, PartialEq, Eq, Structural)]
pub enum S5Atyp {
    Ipv4,
    Domain,
    Ipv6,
}

impl S5Atyp {
    /// The wire code of the address type.
    pub fn code(&self) -> (r: u8)
        ensures
            r == spec_atyp_code(*self),
    {
        match self {
            S5Atyp::Ipv4 => 1,
            S5Atyp::Domain => 3,
            S5Atyp::Ipv6 => 4,
        }
    }
}

pub open spec fn spec_atyp_code(a: S5Atyp) -> u8 {
    match a {
        S5Atyp::Ipv4 => 1,
        S5Atyp::Domain => 3,
        S5Atyp::Ipv6 => 4,
    }
}

#[derive(Debug, Clone, Copy, PartialEq, Eq, Structural)]
pub enum S5Cmd {
    TcpConnect,
    TcpBind,
    UdpAssoc,
}

impl S5Cmd {
    /// The wire code of the command.
    pub fn code(&self) -> (r: u8)
        ensures
            r == spec_cmd_code(*self),
    {
        match self {
            S5Cmd::TcpConnect => 1,
            S5Cmd::TcpBind => 2,
            S5Cmd::UdpAssoc => 3,
        }
    }
}

pub open spec fn spec_cmd_code(c: S5Cmd) -> u8 {
    match c {
        S5Cmd::TcpConnect => 1,
        S5Cmd::TcpBind => 2,
        S5Cmd::UdpAssoc => 3,
    }
}

#[derive(Debug, Clone, Copy, PartialEq, Eq, Structural)]
pub enum S5AuthMethod {
    NoAuth,
    Gssapi,
    Passwd,
}

impl S5AuthMethod {
    /// The wire code of the authentication method.
    pub fn code(&self) -> (r: u8)
        ensures
            r == spec_method_code(*self),
    {
        match self {
            S5AuthMethod::NoAuth => 0,
            S5AuthMethod::Gssapi => 1,
            S5AuthMethod::Passwd => 2,
        }
    }
}

pub open spec fn spec_method_code(m: S5AuthMethod) -> u8 {
    match m {
        S5AuthMethod::NoAuth => 0,
        S5AuthMethod::Gssapi => 1,
        S5AuthMethod::Passwd => 2,
    }
}

/// Where the parser stands in the SOCKS5 exchange.
#[derive(Debug, Clone, Copy, PartialEq, Eq, Structural)]
pub enum Stage {
    Version,
    Nmethods,
    Methods,
    AuthPwVersion,
    AuthPwUserLen,
    AuthPwUsername,
    AuthPwPassLen,
    AuthPwPassword,
    ReqVersion,
    ReqCmd,
    ReqRsv,
    ReqAtyp,
    ReqAtypHost,
    ReqDaddr,
    ReqDport0,
    ReqDport1,
    Dead,
}

/// Mathematical state of the parser.
pub struct S5Model {
    pub stage: Stage,
    pub arg0: int,
    pub arg1: int,
    pub methods: u8,
    pub cmd: u8,
    pub atyp: u8,
    pub daddr: Seq<u8>,
    pub dport: u16,
    pub username: Seq<u8>,
    pub password: Seq<u8>,
}

/// What one byte does to the parser.
pub enum S5Step {
    /// Keep reading with the new state.
    Continue(S5Model),
    /// Stop after this byte and report a result.
    Report(S5Model, S5Result),
    /// The parser is finished; stop after this byte.
    Halt(S5Model),
}

/// The bit recorded in the method mask for a method byte, 0 for unknown methods.
pub open spec fn method_bit(c: u8) -> u8 {
    if c == 0 {
        1
    } else if c == 1 {
        2
    } else if c == 2 {
        4
    } else {
        0
    }
}

pub open spec fn spec_initial() -> S5Model {
    S5Model {
        stage: Stage::Version,
        arg0: 0,
        arg1: 0,
        methods: 0,
        cmd: 0,
        atyp: 0,
        daddr: Seq::empty(),
        dport: 0,
        username: Seq::empty(),
        password: Seq::empty(),
    }
}

/// The effect of one input byte `c` on state `m`.
pub open spec fn s5_step(m: S5Model, c: u8) -> S5Step {
    match m.stage {
        Stage::Version => if c != 5 {
            S5Step::Report(m, S5Result::BadVersion)
        } else {
            S5Step::Continue(S5Model { stage: Stage::Nmethods, ..m })
        },
        Stage::Nmethods => S5Step::Continue(
            S5Model { arg0: 0, arg1: c as int, methods: 0, stage: Stage::Methods, ..m },
        ),
        Stage::Methods => {
            let m2 = if m.arg0 < m.arg1 {
                S5Model { methods: m.methods | method_bit(c), arg0: m.arg0 + 1, ..m }
            } else {
                m
            };
            if m2.arg0 == m2.arg1 {
                S5Step::Report(m2, S5Result::AuthSelect)
            } else {
                S5Step::Continue(m2)
            }
        },
        Stage::AuthPwVersion => if c != 1 {
            S5Step::Report(m, S5Result::BadVersion)
        } else {
            S5Step::Continue(S5Model { stage: Stage::AuthPwUserLen, ..m })
        },
        Stage::AuthPwUserLen => S5Step::Continue(
            S5Model {
                arg0: 0,
                username: Seq::new(c as nat, |i: int| 0u8),
                stage: Stage::AuthPwUsername,
                ..m
            },
        ),
        Stage::AuthPwUsername => {
            let m2 = if m.arg0 < m.username.len() {
                S5Model { username: m.username.update(m.arg0, c), arg0: m.arg0 + 1, ..m }
            } else {
                m
            };
            if m2.arg0 == m2.username.len() {
                S5Step::Continue(S5Model { stage: Stage::AuthPwPassLen, ..m2 })
            } else {
                S5Step::Continue(m2)
            }
        },
        Stage::AuthPwPassLen => S5Step::Continue(
            S5Model {
                arg0: 0,
                password: Seq::new(c as nat, |i: int| 0u8),
                stage: Stage::AuthPwPassword,
                ..m
            },
        ),
        Stage::AuthPwPassword => {
            let m2 = if m.arg0 < m.password.len() {
                S5Model { password: m.password.update(m.arg0, c), arg0: m.arg0 + 1, ..m }
            } else {
                m
            };
            if m2.arg0 == m2.password.len() {
                S5Step::Report(S5Model { stage: Stage::ReqVersion, ..m2 }, S5Result::AuthVerify)
            } else {
                S5Step::Continue(m2)
            }
        },
        Stage::ReqVersion => if c != 5 {
            S5Step::Report(m, S5Result::BadVersion)
        } else {
            S5Step::Continue(S5Model { stage: Stage::ReqCmd, ..m })
        },
        Stage::ReqCmd => if 1 <= c <= 3 {
            S5Step::Continue(S5Model { cmd: c, stage: Stage::ReqRsv, ..m })
        } else {
            S5Step::Report(m, S5Result::BadCmd)
        },
        Stage::ReqRsv => S5Step::Continue(S5Model { stage: Stage::ReqAtyp, ..m }),
        Stage::ReqAtyp => if c == 1 {
            S5Step::Continue(S5Model { arg0: 0, atyp: 1, arg1: 4, stage: Stage::ReqDaddr, ..m })
        } else if c == 3 {
            S5Step::Continue(S5Model { arg0: 0, atyp: 3, arg1: 0, stage: Stage::ReqAtypHost, ..m })
        } else if c == 4 {
            S5Step::Continue(S5Model { arg0: 0, atyp: 4, arg1: 16, stage: Stage::ReqDaddr, ..m })
        } else {
            S5Step::Report(S5Model { arg0: 0, ..m }, S5Result::BadAtyp)
        },
        Stage::ReqAtypHost => S5Step::Continue(
            S5Model { arg1: c as int, stage: Stage::ReqDaddr, ..m },
        ),
        Stage::ReqDaddr => {
            let d1 = if m.arg0 == 0 {
                Seq::new(m.arg1 as nat, |i: int| 0u8)
            } else {
                m.daddr
            };
            let m2 = if m.arg0 < m.arg1 {
                S5Model { daddr: d1.update(m.arg0, c), arg0: m.arg0 + 1, ..m }
            } else {
                S5Model { daddr: d1, ..m }
            };
            if m2.arg0 == m2.arg1 {
                S5Step::Continue(S5Model { stage: Stage::ReqDport0, ..m2 })
            } else {
                S5Step::Continue(m2)
            }
        },
        Stage::ReqDport0 => S5Step::Continue(
            S5Model { dport: ((c as u16) << 8u16) as u16, stage: Stage::ReqDport1, ..m },
        ),
        Stage::ReqDport1 => S5Step::Report(
            S5Model { dport: m.dport | (c as u16), stage: Stage::Dead, ..m },
            S5Result::ExecCmd,
        ),
        Stage::Dead => S5Step::Halt(m),
    }
}

/// Feeding `data[i..]` to state `m`: the final state, the result and the number of bytes
/// of `data` consumed in total.
pub open spec fn s5_run(m: S5Model, data: Seq<u8>, i: int) -> (S5Model, S5Result, int)
    decreases data.len() - i,
{
    if i < 0 || i >= data.len() {
        (m, S5Result::NeedMore, i)
    } else {
        match s5_step(m, data[i]) {
            S5Step::Continue(m2) => s5_run(m2, data, i + 1),
            S5Step::Report(m2, r) => (m2, r, i + 1),
            S5Step::Halt(m2) => (m2, S5Result::NeedMore, i + 1),
        }
    }
}

/// What the executable step reports.
enum StepOutcome {
    Continue,
    Report(S5Result),
    Halt,
}

spec fn step_matches(s: S5Step, m: S5Model, r: StepOutcome) -> bool {
    match s {
        S5Step::Continue(m2) => r is Continue && m == m2,
        S5Step::Report(m2, res) => r == StepOutcome::Report(res) && m == m2,
        S5Step::Halt(m2) => r is Halt && m == m2,
    }
}

/// SOCKS5 parser state machine.
pub struct S5Parser {
    stage: Stage,
    arg0: usize,
    arg1: usize,
    methods: u8,
    pub cmd: u8,
    pub atyp: u8,
    pub daddr: Vec<u8>,
    pub dport: u16,
    pub username: Vec<u8>,
    pub password: Vec<u8>,
}

impl View for S5Parser {
    type V = S5Model;

    closed spec fn view(&self) -> S5Model {
        S5Model {
            stage: self.stage,
            arg0: self.arg0 as int,
            arg1: self.arg1 as int,
            methods: self.methods,
            cmd: self.cmd,
            atyp: self.atyp,
            daddr: self.daddr@,
            dport: self.dport,
            username: self.username@,
            password: self.password@,
        }
    }
}

/// The bounds every reachable parser state keeps.
pub open spec fn model_wf(m: S5Model) -> bool {
    &&& 0 <= m.arg0
    &&& 0 <= m.arg1 <= 255
    &&& m.stage == Stage::Methods ==> m.arg0 <= m.arg1
    &&& m.stage == Stage::AuthPwUsername ==> m.arg0 <= m.username.len()
    &&& m.stage == Stage::AuthPwPassword ==> m.arg0 <= m.password.len()
    &&& m.stage == Stage::ReqAtypHost ==> m.arg0 == 0
    &&& m.stage == Stage::ReqDaddr ==> m.arg0 <= m.arg1 && (m.arg0 > 0 ==> m.daddr.len() == m.arg1)
}

pub proof fn lemma_step_wf(m: S5Model, c: u8)
    requires
        model_wf(m),
    ensures
        match s5_step(m, c) {
            S5Step::Continue(m2) => model_wf(m2),
            S5Step::Report(m2, _) => model_wf(m2),
            S5Step::Halt(m2) => model_wf(m2),
        },
{
}

impl S5Parser {
    pub open spec fn wf(&self) -> bool {
        model_wf(self@)
    }

    pub fn new() -> (r: Self)
        ensures
            r@ == spec_initial(),
            r.wf(),
    {
        let r = S5Parser {
            stage: Stage::Version,
            arg0: 0,
            arg1: 0,
            methods: 0,
            cmd: 0,
            atyp: 0,
            daddr: Vec::new(),
            dport: 0,
            username: Vec::new(),
            password: Vec::new(),
        };
        assert(r@ =~= spec_initial());
        r
    }

    pub fn reset(&mut self)
        ensures
            final(self)@ == spec_initial(),
            final(self).wf(),
    {
        *self = S5Parser::new();
    }

    /// Processes one input byte.
    fn step(&mut self, c: u8) -> (r: StepOutcome)
        requires
            old(self).wf(),
        ensures
            final(self).wf(),
            step_matches(s5_step(old(self)@, c), final(self)@, r),
    {
        proof {
            lemma_step_wf(self@, c);
        }
        match self.stage {
            Stage::Version => {
                if c != 0x05 {
                    return StepOutcome::Report(S5Result::BadVersion);
                }
                self.stage = Stage::Nmethods;
            },
            Stage::Nmethods => {
                self.arg0 = 0;
                self.arg1 = c as usize;
                self.methods = 0;
                self.stage = Stage::Methods;
            },
            Stage::Methods => {
                if self.arg0 < self.arg1 {
                    if c == 0 {
                        self.methods = self.methods | 1;
                    } else if c == 1 {
                        self.methods = self.methods | 2;
                    } else if c == 2 {
                        self.methods = self.methods | 4;
                    } else {
                        assert(self.methods | 0 == self.methods) by (bit_vector);
                    }
                    self.arg0 = self.arg0 + 1;
                }
                if self.arg0 == self.arg1 {
                    return StepOutcome::Report(S5Result::AuthSelect);
                }
            },
            Stage::AuthPwVersion => {
                if c != 0x01 {
                    return StepOutcome::Report(S5Result::BadVersion);
                }
                self.stage = Stage::AuthPwUserLen;
            },
            Stage::AuthPwUserLen => {
                self.arg0 = 0;
                self.username = vec![0u8; c as usize];
                assert(self.username@ =~= Seq::new(c as nat, |k: int| 0u8));
                self.stage = Stage::AuthPwUsername;
            },
            Stage::AuthPwUsername => {
                let ulen = self.username.len();
                if self.arg0 < ulen {
                    let a = self.arg0;
                    self.username[a] = c;
                    self.arg0 = self.arg0 + 1;
                }
                if self.arg0 == ulen {
                    self.stage = Stage::AuthPwPassLen;
                }
            },
            Stage::AuthPwPassLen => {
                self.arg0 = 0;
                self.password = vec![0u8; c as usize];
                assert(self.password@ =~= Seq::new(c as nat, |k: int| 0u8));
                self.stage = Stage::AuthPwPassword;
            },
            Stage::AuthPwPassword => {
                let plen = self.password.len();
                if self.arg0 < plen {
                    let a = self.arg0;
                    self.password[a] = c;
                    self.arg0 = self.arg0 + 1;
                }
                if self.arg0 == plen {
                    self.stage = Stage::ReqVersion;
                    return StepOutcome::Report(S5Result::AuthVerify);
                }
            },
            Stage::ReqVersion => {
                if c != 0x05 {
                    return StepOutcome::Report(S5Result::BadVersion);
                }
                self.stage = Stage::ReqCmd;
            },
            Stage::ReqCmd => {
                if c == 1 {
                    self.cmd = 1;
                } else if c == 2 {
                    self.cmd = 2;
                } else if c == 3 {
                    self.cmd = 3;
                } else {
                    return StepOutcome::Report(S5Result::BadCmd);
                }
                self.stage = Stage::ReqRsv;
            },
            Stage::ReqRsv => {
                self.stage = Stage::ReqAtyp;
            },
            Stage::ReqAtyp => {
                self.arg0 = 0;
                if c == 1 {
                    self.atyp = 1;
                    self.arg1 = 4;
                    self.stage = Stage::ReqDaddr;
                } else if c == 3 {
                    self.atyp = 3;
                    self.arg1 = 0;
                    self.stage = Stage::ReqAtypHost;
                } else if c == 4 {
                    self.atyp = 4;
                    self.arg1 = 16;
                    self.stage = Stage::ReqDaddr;
                } else {
                    return StepOutcome::Report(S5Result::BadAtyp);
                }
            },
            Stage::ReqAtypHost => {
                self.arg1 = c as usize;
                self.stage = Stage::ReqDaddr;
            },
            Stage::ReqDaddr => {
                if self.arg0 == 0 {
                    self.daddr = vec![0u8; self.arg1];
                    assert(self.daddr@ =~= Seq::new(self.arg1 as nat, |k: int| 0u8));
                }
                if self.arg0 < self.arg1 {
                    let a = self.arg0;
                    self.daddr[a] = c;
                    self.arg0 = self.arg0 + 1;
                }
                if self.arg0 == self.arg1 {
                    self.stage = Stage::ReqDport0;
                }
            },
            Stage::ReqDport0 => {
                self.dport = (c as u16) << 8u16;
                self.stage = Stage::ReqDport1;
            },
            Stage::ReqDport1 => {
                self.dport = self.dport | (c as u16);
                self.stage = Stage::Dead;
                return StepOutcome::Report(S5Result::ExecCmd);
            },
            Stage::Dead => {
                return StepOutcome::Halt;
            },
        }
        StepOutcome::Continue
    }

    /// Feeds `data` to the state machine until a decision point is reached or the data runs
    /// out; returns the result and how many bytes were consumed.
    pub fn parse(&mut self, data: &[u8]) -> (r: (S5Result, usize))
        requires
            old(self).wf(),
        ensures
            final(self).wf(),
            (final(self)@, r.0, r.1 as int) == s5_run(old(self)@, data@, 0),
    {
        let mut i: usize = 0;
        let n = data.len();
        while i < n
            invariant
                n == data@.len(),
                i <= n,
                self.wf(),
                s5_run(old(self)@, data@, 0) == s5_run(self@, data@, i as int),
            decreases n - i,
        {
            let c = data[i];
            i = i + 1;
            match self.step(c) {
                StepOutcome::Continue => {},
                StepOutcome::Report(res) => {
                    return (res, i);
                },
                StepOutcome::Halt => {
                    return (S5Result::NeedMore, i);
                },
            }
        }
        (S5Result::NeedMore, i)
    }

    /// Selects the authentication method to continue with.
    pub fn select_auth(&mut self, method: S5AuthMethod)
        requires
            old(self).wf(),
        ensures
            final(self).wf(),
            final(self)@ == (match method {
                S5AuthMethod::NoAuth => S5Model { stage: Stage::ReqVersion, ..old(self)@ },
                S5AuthMethod::Passwd => S5Model { stage: Stage::AuthPwVersion, ..old(self)@ },
                S5AuthMethod::Gssapi => old(self)@,
            }),
    {
        match method {
            S5AuthMethod::NoAuth => self.stage = Stage::ReqVersion,
            S5AuthMethod::Passwd => self.stage = Stage::AuthPwVersion,
            _ => {},
        }
    }

    /// Whether the client offered `method`.
    pub fn has_method(&self, method: S5AuthMethod) -> (r: bool)
        ensures
            r == (self@.methods & method_bit(spec_method_code(method)) != 0),
    {
        let bit: u8 = match method {
            S5AuthMethod::NoAuth => 1,
            S5AuthMethod::Gssapi => 2,
            S5AuthMethod::Passwd => 4,
        };
        (self.methods & bit) != 0
    }

    /// The methods the client offered, in the order None, Gssapi, Passwd.
    pub fn supported_methods(&self) -> (r: Vec<S5AuthMethod>)
        ensures
            r@ == (if self@.methods & 1 != 0 { seq![S5AuthMethod::NoAuth] } else { seq![] })
                + (if self@.methods & 2 != 0 { seq![S5AuthMethod::Gssapi] } else { seq![] })
                + (if self@.methods & 4 != 0 { seq![S5AuthMethod::Passwd] } else { seq![] }),
    {
        let mut v = Vec::new();
        if self.methods & 1 != 0 {
            v.push(S5AuthMethod::NoAuth);
        }
        if self.methods & 2 != 0 {
            v.push(S5AuthMethod::Gssapi);
        }
        if self.methods & 4 != 0 {
            v.push(S5AuthMethod::Passwd);
        }
        assert(v@ =~= (if self@.methods & 1 != 0 { seq![S5AuthMethod::NoAuth] } else { seq![] })
            + (if self@.methods & 2 != 0 { seq![S5AuthMethod::Gssapi] } else { seq![] })
            + (if self@.methods & 4 != 0 { seq![S5AuthMethod::Passwd] } else { seq![] }));
        v
    }

    /// The command of the request read so far.
    pub fn requested_cmd(&self) -> (r: u8)
        ensures
            r == self@.cmd,
    {
        self.cmd
    }

    /// The destination port of the request read so far.
    pub fn requested_port(&self) -> (r: u16)
        ensures
            r == self@.dport,
    {
        self.dport
    }

    /// The address type of the request read so far (the public field `atyp`).
    pub fn requested_atyp(&self) -> (r: u8)
        ensures
            r == self@.atyp,
    {
        self.atyp
    }

    /// The destination address bytes of the request read so far (the public field `daddr`).
    pub fn requested_addr(&self) -> (r: &Vec<u8>)
        ensures
            r@ == self@.daddr,
    {
        &self.daddr
    }

    pub fn is_dead(&self) -> (r: bool)
        ensures
            r == (self@.stage == Stage::Dead),
    {
        self.stage == Stage::Dead
    }

    /// Text of the requested destination address: dotted decimal for IPv4, the bytes decoded
    /// as UTF-8 (invalid sequences replaced) for a domain, IPv6 text for IPv6; empty when the
    /// address is incomplete or of another type.
    pub fn addr_str(&self) -> (r: String)
        ensures
            r@ == s5_addr_text(self@),
            self@.atyp == 3 && vstd::utf8::valid_utf8(self@.daddr) ==> r@ == vstd::utf8::decode_utf8(self@.daddr),
    {
        if self.atyp == 1 {
            if self.daddr.len() >= 4 {
                let o = &self.daddr.as_slice()[0..4];
                proof {
                    lemma_ipv4_text_ascii(o@);
                    assert(o@ =~= self.daddr@.take(4));
                }
                ascii_string(format_ipv4(o))
            } else {
                String::new()
            }
        } else if self.atyp == 3 {
            string_from_utf8_lossy(self.daddr.as_slice())
        } else if self.atyp == 4 {
            if self.daddr.len() >= 16 {
                let g = groups_from_bytes(self.daddr.as_slice());
                proof {
                    lemma_ipv6_text_ascii(g@);
                }
                ascii_string(format_ipv6(g.as_slice()))
            } else {
                String::new()
            }
        } else {
            String::new()
        }
    }
}

/// Text of the destination address a parser holds.
pub open spec fn s5_addr_text(m: S5Model) -> Seq<char> {
    if m.atyp == 1 {
        if m.daddr.len() >= 4 {
            ascii_chars(ipv4_text(m.daddr.take(4)))
        } else {
            Seq::empty()
        }
    } else if m.atyp == 3 {
        utf8_lossy(m.daddr)
    } else if m.atyp == 4 {
        if m.daddr.len() >= 16 {
            ascii_chars(ipv6_text(groups_of(m.daddr.take(16))))
        } else {
            Seq::empty()
        }
    } else {
        Seq::empty()
    }
}

} // verus!
verus! {

/// Running over `a + b` from inside `b` is running over `b`, counted from the start of `a`.
proof fn lemma_s5_run_shift(m: S5Model, a: Seq<u8>, b: Seq<u8>, j: int)
    requires
        0 <= j,
    ensures
        ({
            let (m1, r1, n1) = s5_run(m, b, j);
            s5_run(m, a + b, a.len() + j) == (m1, r1, a.len() + n1)
        }),
    decreases b.len() - j,
{
    if j < b.len() {
        assert((a + b)[a.len() + j] == b[j]);
        match s5_step(m, b[j]) {
            S5Step::Continue(m2) => lemma_s5_run_shift(m2, a, b, j + 1),
            _ => {},
        }
    }
}

proof fn lemma_s5_run_prefix(m: S5Model, a: Seq<u8>, b: Seq<u8>, i: int)
    requires
        0 <= i <= a.len(),
        s5_run(m, a, i).1 == S5Result::NeedMore,
        s5_run(m, a, i).2 == a.len(),
        s5_run(m, a, i).0.stage != Stage::Dead,
    ensures
        ({
            let (m2, r, n) = s5_run(s5_run(m, a, i).0, b, 0);
            s5_run(m, a + b, i) == (m2, r, a.len() + n)
        }),
    decreases a.len() - i,
{
    if i == a.len() {
        lemma_s5_run_shift(m, a, b, 0);
    } else {
        assert((a + b)[i] == a[i]);
        match s5_step(m, a[i]) {
            S5Step::Continue(m2) => lemma_s5_run_prefix(m2, a, b, i + 1),
            _ => {},
        }
    }
}

/// Law of the SOCKS5 parser: bytes may arrive in pieces. When a first piece is used up
/// without a result (and the parser is not finished), feeding the rest to the state it
/// left gives the state and result that feeding both at once gives, and the bytes consumed
/// add up.
pub proof fn lemma_s5_run_pieces(m: S5Model, a: Seq<u8>, b: Seq<u8>)
    requires
        s5_run(m, a, 0).1 == S5Result::NeedMore,
        s5_run(m, a, 0).2 == a.len(),
        s5_run(m, a, 0).0.stage != Stage::Dead,
    ensures
        ({
            let (m2, r, n) = s5_run(s5_run(m, a, 0).0, b, 0);
            s5_run(m, a + b, 0) == (m2, r, a.len() + n)
        }),
{
    lemma_s5_run_prefix(m, a, b, 0);
}

} // verus!
