//! The proxy's error taxonomy, and the exact message each error shows.

use vstd::prelude::*;
use crate::address::{Address, AddressView, addr_chars};

verus! {

/// A failure of the proxy: a transport fault, unacceptable field content,
/// a malformed or unsupported protocol sequence, an unreachable upstream, or
/// a composite condition.
#[derive(Debug)]
pub enum ProxyError {
    Io(String),
    InvalidData(String),
    ProtocolFail(String),
    ConnectRemoteFail(Address, String),
    Other(String),
}

/// Mathematical image of a `ProxyError`.
#[verifier::ext_equal]
pub enum ProxyErrorView {
    Io { msg: Seq<char> },
    InvalidData { msg: Seq<char> },
    ProtocolFail { msg: Seq<char> },
    ConnectRemoteFail { addr: AddressView, msg: Seq<char> },
    Other { msg: Seq<char> },
}

impl View for ProxyError {
    type V = ProxyErrorView;

    open spec fn view(&self) -> ProxyErrorView {
        match self {
            ProxyError::Io(m) => ProxyErrorView::Io { msg: m@ },
            ProxyError::InvalidData(m) => ProxyErrorView::InvalidData { msg: m@ },
            ProxyError::ProtocolFail(m) => ProxyErrorView::ProtocolFail { msg: m@ },
            ProxyError::ConnectRemoteFail(a, m) => ProxyErrorView::ConnectRemoteFail {
                addr: a@,
                msg: m@,
            },
            ProxyError::Other(m) => ProxyErrorView::Other { msg: m@ },
        }
    }
}

/// The message an error displays.
pub open spec fn error_chars(e: ProxyErrorView) -> Seq<char> {
    match e {
        ProxyErrorView::Io { msg } => msg,
        ProxyErrorView::InvalidData { msg } => msg,
        ProxyErrorView::ProtocolFail { msg } => "protocol parse fail: "@ + msg,
        ProxyErrorView::ConnectRemoteFail { addr, msg } => "conntect remote("@ + addr_chars(addr)
            + ") fail: "@ + msg,
        ProxyErrorView::Other { msg } => msg,
    }
}

impl ProxyError {
    /// The message this error displays.
    pub fn message(&self) -> (r: String)
        ensures
            r@ == error_chars(self@),
    {
        match self {
            ProxyError::Io(m) => m.clone(),
            ProxyError::InvalidData(m) => m.clone(),
            ProxyError::ProtocolFail(m) => {
                let mut s = String::new();
                s.append("protocol parse fail: ");
                s.append(m.as_str());
                proof {
                    assert(s@ =~= error_chars(self@));
                }
                s
            },
            ProxyError::ConnectRemoteFail(a, m) => {
                let mut s = String::new();
                s.append("conntect remote(");
                let shown = a.display_string();
                s.append(shown.as_str());
                s.append(") fail: ");
                s.append(m.as_str());
                proof {
                    assert(s@ =~= error_chars(self@));
                }
                s
            },
            ProxyError::Other(m) => m.clone(),
        }
    }
}

} // verus!
