//! A protocol-multiplexing TCP proxy core: SOCKS5 and HTTP(S) CONNECT /
//! forward-proxy handshakes, buffered-reader utilities, and the duplex
//! byte-relay engine, each specified and verified as a state machine over
//! plain byte sequences. Asynchronous transports drive these machines from
//! outside the library.

mod address;
mod bufio;
pub mod copy;
mod error;
mod http;
mod relay;
mod server;
mod socks5;
mod text;

pub use address::{Address, AddressView, InvalidAddress, IpBytes, SockAddrParts};
pub use bufio::{ReadUntilState, ReadUntilStep, end_of};
pub use copy::DuplexCopy;
pub use error::ProxyError;
pub use http::{HeaderStep, HttpConnectStep, HttpHandle, HttpPhase, HttpRequest, HttpSession, UrlHost, UrlParts, http_ok_reply, head_line_fail_error, parse_http_request};
pub use relay::{RelayStart, begin_relay};
pub use server::{ClientHandle, Route, accept_fail_error, local_read_fail_error};
pub use socks5::{AuthParse, ConnectStep, RequestParse, Socks5Handle, Socks5Io, Socks5Phase, Socks5Session, eof_at_domain_length, eof_request_error, method_reply, parse_auth, parse_request, reply_failure, reply_success};
pub use text::{dec_string, parse_u16};
