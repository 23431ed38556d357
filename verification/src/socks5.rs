//! The SOCKS5 handler: method negotiation and request parsing over the bytes
//! the client has sent so far, the fixed replies, and the session that walks
//! a connection from greeting to relay.

use vstd::prelude::*;
use crate::address::{Address, AddressView, IpBytes, SockAddrParts};
use crate::error::{ProxyError, ProxyErrorView};
use crate::relay::{RelayStart, begin_relay};
use crate::text::{dec_str, push_dec, utf8_to_string};
use vstd::utf8::{valid_utf8, decode_utf8};

verus! {

/// The message for a greeting with the wrong version octet.
pub open spec fn bad_version_msg(v: u8) -> Seq<char> {
    "invalid socks version: "@ + dec_str(v as int)
}

/// The message for a command other than CONNECT.
pub open spec fn bad_cmd_msg(c: u8) -> Seq<char> {
    "unsupported cmd: "@ + dec_str(c as int)
}

/// The message for an address type this proxy does not know.
pub open spec fn bad_atyp_msg(a: u8) -> Seq<char> {
    "unknown ATYP type: "@ + dec_str(a as int)
}

/// What the method-negotiation bytes seen so far amount to.
#[verifier::ext_equal]
pub enum AuthSpec {
    /// The greeting is not complete: this many bytes decide it.
    NeedMore { need: int },
    /// A well-formed greeting of this many bytes.
    Accepted { consumed: int },
    /// The version octet is wrong.
    Rejected { version: u8 },
}

/// The method-negotiation grammar: `[VER, NMETHODS]`, then `NMETHODS` method
/// octets, with `VER` fixed at five.
pub open spec fn auth_spec(s: Seq<u8>) -> AuthSpec {
    if s.len() < 2 {
        AuthSpec::NeedMore { need: 2 }
    } else if s[0] != 5 {
        AuthSpec::Rejected { version: s[0] }
    } else if s.len() < 2 + s[1] {
        AuthSpec::NeedMore { need: 2 + s[1] as int }
    } else {
        AuthSpec::Accepted { consumed: 2 + s[1] as int }
    }
}

/// What the request bytes seen so far amount to.
#[verifier::ext_equal]
pub enum RequestSpec {
    /// The request is not complete: this many bytes decide the next step.
    NeedMore { need: int },
    /// A well-formed CONNECT request for this target.
    Parsed { addr: AddressView, consumed: int },
    /// A malformed or unsupported request.
    RejectedProtocol { msg: Seq<char> },
    /// A domain whose bytes are not a string.
    RejectedInvalid { msg: Seq<char> },
}

/// The request grammar: `[VER, CMD, RSV, ATYP]`, then an address of the form
/// the ATYP octet names, then a big-endian port. Only CONNECT is supported.
pub open spec fn request_spec(s: Seq<u8>) -> RequestSpec {
    if s.len() < 4 {
        RequestSpec::NeedMore { need: 4 }
    } else if s[1] != 1 {
        RequestSpec::RejectedProtocol { msg: bad_cmd_msg(s[1]) }
    } else if s[3] == 1 {
        if s.len() < 10 {
            RequestSpec::NeedMore { need: 10 }
        } else {
            RequestSpec::Parsed {
                addr: AddressView::V4 {
                    ip: s.subrange(4, 8),
                    port: (s[8] * 256 + s[9]) as u16,
                },
                consumed: 10,
            }
        }
    } else if s[3] == 3 {
        if s.len() < 5 {
            RequestSpec::NeedMore { need: 5 }
        } else if s[4] == 0 {
            // a domain host is never empty
            RequestSpec::RejectedInvalid { msg: "invalid domain"@ }
        } else if s.len() < 7 + s[4] {
            RequestSpec::NeedMore { need: 7 + s[4] as int }
        } else {
            let host = s.subrange(5, 5 + s[4] as int);
            if valid_utf8(host) {
                RequestSpec::Parsed {
                    addr: AddressView::Domain {
                        host: decode_utf8(host),
                        port: (s[5 + s[4] as int] * 256 + s[6 + s[4] as int]) as u16,
                    },
                    consumed: 7 + s[4] as int,
                }
            } else {
                RequestSpec::RejectedInvalid { msg: "invalid domain"@ }
            }
        }
    } else if s[3] == 4 {
        if s.len() < 22 {
            RequestSpec::NeedMore { need: 22 }
        } else {
            RequestSpec::Parsed {
                addr: AddressView::V6 {
                    ip: s.subrange(4, 20),
                    port: (s[20] * 256 + s[21]) as u16,
                },
                consumed: 22,
            }
        }
    } else {
        RequestSpec::RejectedProtocol { msg: bad_atyp_msg(s[3]) }
    }
}

/// What `parse_auth` found in the buffered bytes.
pub enum AuthParse {
    /// Not enough bytes yet: this many decide it.
    NeedMore { need: usize },
    /// The greeting is well formed and this long.
    Accepted { consumed: usize },
    /// The greeting names the wrong protocol version.
    Rejected(ProxyError),
}

/// What `parse_request` found in the buffered bytes.
pub enum RequestParse {
    /// Not enough bytes yet: this many decide the next step.
    NeedMore { need: usize },
    /// A well-formed CONNECT request for this target, this long.
    Parsed { addr: Address, consumed: usize },
    /// A malformed or unsupported request.
    Rejected(ProxyError),
}

/// Read the method-negotiation greeting from the bytes the client has sent.
pub fn parse_auth(input: &[u8]) -> (r: AuthParse)
    ensures
        match r {
            AuthParse::NeedMore { need } => auth_spec(input@) == (AuthSpec::NeedMore {
                need: need as int,
            }),
            AuthParse::Accepted { consumed } => auth_spec(input@) == (AuthSpec::Accepted {
                consumed: consumed as int,
            }),
            AuthParse::Rejected(e) => auth_spec(input@) == (AuthSpec::Rejected {
                version: input@[0],
            }) && e@ == (ProxyErrorView::ProtocolFail { msg: bad_version_msg(input@[0]) }),
        },
{
    if input.len() < 2 {
        return AuthParse::NeedMore { need: 2 };
    }
    let ver = input[0];
    if ver != 5 {
        let mut m = String::new();
        m.append("invalid socks version: ");
        push_dec(&mut m, ver as u64);
        proof {
            assert(m@ =~= bad_version_msg(ver));
        }
        return AuthParse::Rejected(ProxyError::ProtocolFail(m));
    }
    let need = 2 + (input[1] as usize);
    if input.len() < need {
        AuthParse::NeedMore { need }
    } else {
        AuthParse::Accepted { consumed: need }
    }
}

/// The reply that accepts no-auth negotiation.
pub fn method_reply() -> (r: Vec<u8>)
    ensures
        r@ == seq![5u8, 0u8],
{
    let mut v: Vec<u8> = Vec::new();
    v.push(5);
    v.push(0);
    proof {
        assert(v@ =~= seq![5u8, 0u8]);
    }
    v
}

/// The success reply, with the fixed any-address bound field.
pub fn reply_success() -> (r: Vec<u8>)
    ensures
        r@ == seq![5u8, 0u8, 0u8, 1u8, 0u8, 0u8, 0u8, 0u8, 0u8, 0u8],
{
    let mut v: Vec<u8> = Vec::new();
    v.push(5);
    v.push(0);
    v.push(0);
    v.push(1);
    v.push(0);
    v.push(0);
    v.push(0);
    v.push(0);
    v.push(0);
    v.push(0);
    proof {
        assert(v@ =~= seq![5u8, 0u8, 0u8, 1u8, 0u8, 0u8, 0u8, 0u8, 0u8, 0u8]);
    }
    v
}

/// The general-failure reply, with the fixed any-address bound field.
pub fn reply_failure() -> (r: Vec<u8>)
    ensures
        r@ == seq![5u8, 1u8, 0u8, 1u8, 0u8, 0u8, 0u8, 0u8, 0u8, 0u8],
{
    let mut v: Vec<u8> = Vec::new();
    v.push(5);
    v.push(1);
    v.push(0);
    v.push(1);
    v.push(0);
    v.push(0);
    v.push(0);
    v.push(0);
    v.push(0);
    v.push(0);
    proof {
        assert(v@ =~= seq![5u8, 1u8, 0u8, 1u8, 0u8, 0u8, 0u8, 0u8, 0u8, 0u8]);
    }
    v
}

/// Copy `input[from..to]` into a fresh vector.
fn bytes_range(input: &[u8], from: usize, to: usize) -> (r: Vec<u8>)
    requires
        from <= to <= input@.len(),
    ensures
        r@ == input@.subrange(from as int, to as int),
{
    let mut v: Vec<u8> = Vec::new();
    let mut i: usize = from;
    while i < to
        invariant
            from <= i <= to <= input@.len(),
            v@ == input@.subrange(from as int, i as int),
        decreases to - i,
    {
        v.push(input[i]);
        proof {
            assert(v@ =~= input@.subrange(from as int, i + 1));
        }
        i += 1;
    }
    v
}

/// Read the CONNECT request from the bytes the client has sent after the
/// greeting.
pub fn parse_request(input: &[u8]) -> (r: RequestParse)
    ensures
        match r {
            RequestParse::NeedMore { need } => request_spec(input@) == (RequestSpec::NeedMore {
                need: need as int,
            }),
            RequestParse::Parsed { addr, consumed } => request_spec(input@)
                == (RequestSpec::Parsed { addr: addr@, consumed: consumed as int }),
            RequestParse::Rejected(e) => match e@ {
                ProxyErrorView::ProtocolFail { msg } => request_spec(input@)
                    == (RequestSpec::RejectedProtocol { msg }),
                ProxyErrorView::InvalidData { msg } => request_spec(input@)
                    == (RequestSpec::RejectedInvalid { msg }),
                _ => false,
            },
        },
{
    if input.len() < 4 {
        return RequestParse::NeedMore { need: 4 };
    }
    let cmd = input[1];
    if cmd != 1 {
        let mut m = String::new();
        m.append("unsupported cmd: ");
        push_dec(&mut m, cmd as u64);
        proof {
            assert(m@ =~= bad_cmd_msg(cmd));
        }
        return RequestParse::Rejected(ProxyError::ProtocolFail(m));
    }
    let atyp = input[3];
    if atyp == 1 {
        if input.len() < 10 {
            return RequestParse::NeedMore { need: 10 };
        }
        let ip: [u8; 4] = [input[4], input[5], input[6], input[7]];
        let port = (input[8] as u16) * 256 + (input[9] as u16);
        proof {
            assert(ip@ =~= input@.subrange(4, 8));
        }
        RequestParse::Parsed {
            addr: Address::Sock(SockAddrParts { ip: IpBytes::V4(ip), port }),
            consumed: 10,
        }
    } else if atyp == 3 {
        if input.len() < 5 {
            return RequestParse::NeedMore { need: 5 };
        }
        let n = input[4] as usize;
        if n == 0 {
            proof {
                reveal_strlit("invalid domain");
            }
            return RequestParse::Rejected(
                ProxyError::InvalidData(String::from_str("invalid domain")),
            );
        }
        if input.len() < 7 + n {
            return RequestParse::NeedMore { need: 7 + n };
        }
        let host = bytes_range(input, 5, 5 + n);
        let port = (input[5 + n] as u16) * 256 + (input[6 + n] as u16);
        match utf8_to_string(host) {
            Some(domain) => RequestParse::Parsed {
                addr: Address::Domain(domain, port),
                consumed: 7 + n,
            },
            None => {
                proof {
                    reveal_strlit("invalid domain");
                }
                RequestParse::Rejected(
                    ProxyError::InvalidData(String::from_str("invalid domain")),
                )
            },
        }
    } else if atyp == 4 {
        if input.len() < 22 {
            return RequestParse::NeedMore { need: 22 };
        }
        let ip: [u8; 16] = [
            input[4],
            input[5],
            input[6],
            input[7],
            input[8],
            input[9],
            input[10],
            input[11],
            input[12],
            input[13],
            input[14],
            input[15],
            input[16],
            input[17],
            input[18],
            input[19],
        ];
        let port = (input[20] as u16) * 256 + (input[21] as u16);
        proof {
            assert(ip@ =~= input@.subrange(4, 20));
        }
        RequestParse::Parsed {
            addr: Address::Sock(SockAddrParts { ip: IpBytes::V6(ip), port }),
            consumed: 22,
        }
    } else {
        let mut m = String::new();
        m.append("unknown ATYP type: ");
        push_dec(&mut m, atyp as u64);
        proof {
            assert(m@ =~= bad_atyp_msg(atyp));
        }
        RequestParse::Rejected(ProxyError::ProtocolFail(m))
    }
}

/// The error for a clean end of input where the domain length octet was due.
pub fn eof_request_error() -> (r: ProxyError)
    ensures
        r@ == (ProxyErrorView::ProtocolFail { msg: "unexpected EOF"@ }),
{
    ProxyError::ProtocolFail(String::from_str("unexpected EOF"))
}

/// Does a clean end of input here mean the domain length octet is missing,
/// rather than a plain transport fault?
pub fn eof_at_domain_length(input: &[u8]) -> (r: bool)
    ensures
        r == (input@.len() == 4 && input@[1] == 1 && input@[3] == 3),
{
    input.len() == 4 && input[1] == 1 && input[3] == 3
}

/// SOCKS5 round-trip: a no-auth greeting and a domain CONNECT request,
/// followed by any payload, negotiate in three bytes, parse to the domain
/// target, and leave exactly the payload for the relay.
pub proof fn lemma_socks5_round_trip(host: Seq<u8>, port_hi: u8, port_lo: u8, payload: Seq<u8>)
    requires
        0 < host.len() <= 255,
        valid_utf8(host),
    ensures
        ({
            let greeting = seq![5u8, 1u8, 0u8];
            let request = seq![5u8, 1u8, 0u8, 3u8, host.len() as u8] + host + seq![
                port_hi,
                port_lo,
            ];
            let stream = greeting + request + payload;
            &&& auth_spec(stream) == (AuthSpec::Accepted { consumed: 3 })
            &&& request_spec(stream.skip(3)) == (RequestSpec::Parsed {
                addr: AddressView::Domain {
                    host: decode_utf8(host),
                    port: (port_hi * 256 + port_lo) as u16,
                },
                consumed: 7 + host.len() as int,
            })
            &&& stream.skip(3).skip(7 + host.len() as int) == payload
        }),
{
    let greeting = seq![5u8, 1u8, 0u8];
    let request = seq![5u8, 1u8, 0u8, 3u8, host.len() as u8] + host + seq![port_hi, port_lo];
    let stream = greeting + request + payload;
    assert(stream[0] == 5 && stream[1] == 1);
    assert(auth_spec(stream) == (AuthSpec::Accepted { consumed: 3 }));
    let rest = stream.skip(3);
    assert(rest =~= request + payload);
    let n = host.len() as int;
    assert(rest[0] == 5 && rest[1] == 1 && rest[3] == 3 && rest[4] == host.len() as u8);
    assert(rest.len() >= 7 + n);
    assert(rest.subrange(5, 5 + n) =~= host);
    assert(rest[5 + n] == port_hi && rest[6 + n] == port_lo);
    assert(request_spec(rest) == (RequestSpec::Parsed {
        addr: AddressView::Domain {
            host: decode_utf8(host),
            port: (port_hi * 256 + port_lo) as u16,
        },
        consumed: 7 + host.len() as int,
    }));
    assert(rest.skip(7 + n) =~= payload);
}

/// The stateless SOCKS5 handler.
pub struct Socks5Handle {}

/// Where a SOCKS5 session stands.
pub enum Socks5Phase {
    /// Waiting for the method-negotiation greeting.
    Auth,
    /// Waiting for the CONNECT request.
    Request,
    /// Waiting for the upstream connection to this target.
    Connect { addr: Address },
    /// Relaying bytes for this target.
    Relay { addr: Address },
    /// The session ended in an error.
    Failed,
}

/// One client connection's walk through the SOCKS5 handshake.
pub struct Socks5Session {
    pub phase: Socks5Phase,
}

/// What the session asks its driver to do with the bytes seen so far.
pub enum Socks5Io {
    /// Read until this many bytes of the current message are buffered.
    Need { need: usize },
    /// Consume the greeting and send this reply to the client.
    ReplyAuth { reply: Vec<u8>, consumed: usize },
    /// Consume the request and connect upstream to this target.
    ConnectTo { addr: Address, consumed: usize },
    /// Stop with this error.
    Fail(ProxyError),
}

/// What the session does with the upstream connection attempt's outcome.
pub enum ConnectStep {
    /// Send the success reply to the client and begin the relay.
    Established { reply: Vec<u8> },
    /// Best-effort send the failure reply, then stop with this error.
    Aborted { reply: Vec<u8>, err: ProxyError },
}

impl Socks5Handle {
    /// The handler; it holds no state.
    pub fn new() -> (r: Self) {
        Socks5Handle {  }
    }
}

impl Socks5Session {
    /// A session at the greeting.
    pub fn new() -> (r: Self)
        ensures
            r.phase is Auth,
    {
        Socks5Session { phase: Socks5Phase::Auth }
    }

    /// Drive the handshake with the bytes of the current message buffered so
    /// far. The driver consumes what the result says and acts on it.
    pub fn on_bytes(&mut self, input: &[u8]) -> (r: Socks5Io)
        requires
            old(self).phase is Auth || old(self).phase is Request,
        ensures
            old(self).phase is Auth ==> match auth_spec(input@) {
                AuthSpec::NeedMore { need } => (r matches Socks5Io::Need { need: nd } && nd
                    == need) && final(self).phase is Auth,
                AuthSpec::Accepted { consumed } => (r matches Socks5Io::ReplyAuth {
                    reply,
                    consumed: c,
                } && reply@ == seq![5u8, 0u8] && c == consumed) && final(self).phase is Request,
                AuthSpec::Rejected { version } => final(self).phase is Failed && (r matches
                Socks5Io::Fail(e) && e@ == (ProxyErrorView::ProtocolFail {
                    msg: bad_version_msg(version),
                })),
            },
            old(self).phase is Request ==> match request_spec(input@) {
                RequestSpec::NeedMore { need } => (r matches Socks5Io::Need { need: nd } && nd
                    == need) && final(self).phase is Request,
                RequestSpec::Parsed { addr, consumed } => (r matches Socks5Io::ConnectTo {
                    addr: a,
                    consumed: c,
                } && a@ == addr && c == consumed) && (final(self).phase matches Socks5Phase::Connect {
                    addr: pa,
                } && pa@ == addr),
                RequestSpec::RejectedProtocol { msg } => (r matches Socks5Io::Fail(e) && e@
                    == (ProxyErrorView::ProtocolFail { msg })) && final(self).phase is Failed,
                RequestSpec::RejectedInvalid { msg } => (r matches Socks5Io::Fail(e) && e@
                    == (ProxyErrorView::InvalidData { msg })) && final(self).phase is Failed,
            },
    {
        match &self.phase {
            Socks5Phase::Auth => match parse_auth(input) {
                AuthParse::NeedMore { need } => Socks5Io::Need { need },
                AuthParse::Accepted { consumed } => {
                    self.phase = Socks5Phase::Request;
                    Socks5Io::ReplyAuth { reply: method_reply(), consumed }
                },
                AuthParse::Rejected(e) => {
                    self.phase = Socks5Phase::Failed;
                    Socks5Io::Fail(e)
                },
            },
            _ => match parse_request(input) {
                RequestParse::NeedMore { need } => Socks5Io::Need { need },
                RequestParse::Parsed { addr, consumed } => {
                    let kept = addr.duplicate();
                    self.phase = Socks5Phase::Connect { addr: kept };
                    Socks5Io::ConnectTo { addr, consumed }
                },
                RequestParse::Rejected(e) => {
                    self.phase = Socks5Phase::Failed;
                    Socks5Io::Fail(e)
                },
            },
        }
    }

    /// The upstream connection attempt came back: reply success and relay, or
    /// reply failure and stop with the connect error.
    pub fn on_connect(&mut self, ok: bool, cause: &str) -> (r: ConnectStep)
        requires
            old(self).phase is Connect,
        ensures
            ({
                let addr = old(self).phase->Connect_addr;
                if ok {
                    (r matches ConnectStep::Established { reply } && reply@ == seq![
                        5u8,
                        0u8,
                        0u8,
                        1u8,
                        0u8,
                        0u8,
                        0u8,
                        0u8,
                        0u8,
                        0u8,
                    ]) && (final(self).phase matches Socks5Phase::Relay { addr: pa } && pa@
                        == addr@)
                } else {
                    (r matches ConnectStep::Aborted { reply, err } && reply@ == seq![
                        5u8,
                        1u8,
                        0u8,
                        1u8,
                        0u8,
                        0u8,
                        0u8,
                        0u8,
                        0u8,
                        0u8,
                    ] && err@ == (ProxyErrorView::ConnectRemoteFail { addr: addr@, msg: cause@ }))
                        && final(self).phase is Failed
                }
            }),
    {
        let mut phase = Socks5Phase::Failed;
        core::mem::swap(&mut phase, &mut self.phase);
        match phase {
            Socks5Phase::Connect { addr } => {
                if ok {
                    self.phase = Socks5Phase::Relay { addr };
                    ConnectStep::Established { reply: reply_success() }
                } else {
                    let err = ProxyError::ConnectRemoteFail(addr, String::from_str(cause));
                    ConnectStep::Aborted { reply: reply_failure(), err }
                }
            },
            _ => vstd::pervasive::unreached(),
        }
    }

    /// Begin the relay: whatever the client reader still buffers is replayed
    /// to upstream first.
    pub fn start_relay(&self, buffered: Vec<u8>) -> (r: RelayStart)
        requires
            self.phase is Relay,
        ensures
            r.replay@ == buffered@,
            crate::copy::duplex_wf(r.duplex),
            r.duplex.left.reader_label@ == crate::relay::local_label_chars(
                self.phase->Relay_addr@,
            ),
            r.duplex.left.writer_label@ == crate::relay::remote_label_chars(
                self.phase->Relay_addr@,
            ),
            r.duplex.right.reader_label@ == crate::relay::remote_label_chars(
                self.phase->Relay_addr@,
            ),
            r.duplex.right.writer_label@ == crate::relay::local_label_chars(
                self.phase->Relay_addr@,
            ),
            r.duplex.left.flush_on_pending == true,
            r.duplex.right.flush_on_pending == false,
            !r.duplex.left.writer_done && !r.duplex.right.writer_done,
            !r.duplex.left_done && !r.duplex.right_done,
            r.duplex.left.written@ == Seq::<u8>::empty(),
            r.duplex.right.written@ == Seq::<u8>::empty(),
            crate::relay::upstream_delivery(r.replay@, r.duplex.left.written@) == buffered@,
    {
        match &self.phase {
            Socks5Phase::Relay { addr } => begin_relay(addr, buffered),
            _ => vstd::pervasive::unreached(),
        }
    }
}

} // verus!
