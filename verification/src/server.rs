//! The per-connection demultiplexer: one peeked byte routes a client to the
//! SOCKS5 or the HTTP handler, and the server-level error messages.

use vstd::prelude::*;
use crate::error::{ProxyError, ProxyErrorView};
use crate::http::HttpHandle;
use crate::socks5::Socks5Handle;

verus! {

/// Where a fresh connection goes.
#[derive(Debug, PartialEq, Eq, Structural)]
pub enum Route {
    /// The first byte is the SOCKS version octet.
    Socks5,
    /// Any other first byte: HTTP.
    Http,
    /// End of input before any byte: close without a word.
    CloseSilently,
}

/// The shared per-connection handler: the two protocol handlers, routed by
/// the first byte a client sends.
pub struct ClientHandle {
    pub socks5_handle: Socks5Handle,
    pub http_handle: HttpHandle,
}

impl ClientHandle {
    /// A handler over both protocols.
    pub fn new() -> (r: Self) {
        ClientHandle { socks5_handle: Socks5Handle::new(), http_handle: HttpHandle::new() }
    }

    /// Route a connection by its peeked first byte.
    pub fn route(&self, first: Option<u8>) -> (r: Route)
        ensures
            r is Socks5 <==> first == Some(5u8),
            r is CloseSilently <==> first is None,
            r is Http <==> (first matches Some(b) && b != 5),
    {
        match first {
            Some(5u8) => Route::Socks5,
            Some(_) => Route::Http,
            None => Route::CloseSilently,
        }
    }
}

/// The fatal error when accepting a connection fails.
pub fn accept_fail_error(cause: &str) -> (r: ProxyError)
    ensures
        r@ == (ProxyErrorView::Other { msg: "accept incoming fail: "@ + cause@ }),
{
    let mut m = String::new();
    m.append("accept incoming fail: ");
    m.append(cause);
    proof {
        assert(m@ =~= "accept incoming fail: "@ + cause@);
    }
    ProxyError::Other(m)
}

/// The per-connection error when the first peek fails.
pub fn local_read_fail_error(peer: &str, cause: &str) -> (r: ProxyError)
    ensures
        r@ == (ProxyErrorView::Other {
            msg: "read local socket("@ + peer@ + ") fail: "@ + cause@,
        }),
{
    let mut m = String::new();
    m.append("read local socket(");
    m.append(peer);
    m.append(") fail: ");
    m.append(cause);
    proof {
        assert(m@ =~= "read local socket("@ + peer@ + ") fail: "@ + cause@);
    }
    ProxyError::Other(m)
}

} // verus!
