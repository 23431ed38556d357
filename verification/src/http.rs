//! The HTTP handler: request-line parsing, the CONNECT and forward-proxy
//! branches, the rewritten server-relative request line, and the session that
//! walks a connection from request line to relay.

use vstd::prelude::*;
use crate::address::{Address, AddressView, IpBytes, SockAddrParts};
use crate::error::{ProxyError, ProxyErrorView};
use crate::relay::{RelayStart, begin_relay};
use crate::text::{hex_digit_char, hex_digit_of, u16_from_chars, parse_u16, utf8_to_string};
use vstd::string::StrSliceExecFns;
use vstd::slice::slice_to_vec;
use vstd::utf8::{valid_utf8, decode_utf8};

verus! {

/// A host as a URL carries it.
pub enum UrlHost {
    Domain(String),
    V4([u8; 4]),
    V6([u8; 16]),
}

/// What the proxy reads from an absolute URL.
pub struct UrlParts {
    pub host: Option<UrlHost>,
    pub port: Option<u16>,
    pub path: String,
    pub query: Option<String>,
    pub fragment: Option<String>,
}

/// Mathematical image of a `UrlHost`.
#[verifier::ext_equal]
pub enum UrlHostView {
    Domain(Seq<char>),
    V4(Seq<u8>),
    V6(Seq<u8>),
}

/// Mathematical image of a `UrlParts`.
#[verifier::ext_equal]
pub struct UrlPartsView {
    pub host: Option<UrlHostView>,
    pub port: Option<u16>,
    pub path: Seq<char>,
    pub query: Option<Seq<char>>,
    pub fragment: Option<Seq<char>>,
}

impl View for UrlHost {
    type V = UrlHostView;

    open spec fn view(&self) -> UrlHostView {
        match self {
            UrlHost::Domain(d) => UrlHostView::Domain(d@),
            UrlHost::V4(ip) => UrlHostView::V4(ip@),
            UrlHost::V6(ip) => UrlHostView::V6(ip@),
        }
    }
}

impl View for UrlParts {
    type V = UrlPartsView;

    open spec fn view(&self) -> UrlPartsView {
        UrlPartsView {
            host: match &self.host {
                Some(h) => Some(h@),
                None => None,
            },
            port: self.port,
            path: self.path@,
            query: match &self.query {
                Some(q) => Some(q@),
                None => None,
            },
            fragment: match &self.fragment {
                Some(f) => Some(f@),
                None => None,
            },
        }
    }
}

/// What parsing an absolute URL yields, as a function of the string alone.
pub uninterp spec fn url_parts_of(s: Seq<char>) -> Option<UrlPartsView>;

/// Relies on `url::Url::parse` and its accessors `host`,
/// `port_or_known_default`, `path`, `query` and `fragment`: for a given
/// string they are functions of that string alone.
#[verifier::external_body]
fn parse_absolute_url(s: &str) -> (r: Option<UrlParts>)
    ensures
        match r {
            Some(p) => url_parts_of(s@) == Some(p@),
            None => url_parts_of(s@) is None,
        },
{
    let u = match url::Url::parse(s) {
        Ok(u) => u,
        Err(_) => return None,
    };
    let host = match u.host() {
        Some(url::Host::Domain(d)) => Some(UrlHost::Domain(d.to_string())),
        Some(url::Host::Ipv4(a)) => Some(UrlHost::V4(a.octets())),
        Some(url::Host::Ipv6(a)) => Some(UrlHost::V6(a.octets())),
        None => None,
    };
    Some(UrlParts { host, port: u.port_or_known_default(), path: u.path().to_string(),
        query: u.query().map(|q| q.to_string()),
        fragment: u.fragment().map(|f| f.to_string()) })
}

/// The escape of one byte in a debug-rendered byte string: the named
/// escapes, printable ASCII as itself, and anything else in hexadecimal.
pub open spec fn byte_debug_char(b: u8) -> Seq<char> {
    if b == 10 {
        seq!['\\', 'n']
    } else if b == 13 {
        seq!['\\', 'r']
    } else if b == 9 {
        seq!['\\', 't']
    } else if b == 92 {
        seq!['\\', '\\']
    } else if b == 34 {
        seq!['\\', '"']
    } else if b == 0 {
        seq!['\\', '0']
    } else if 0x20 <= b < 0x7f {
        seq![b as char]
    } else {
        seq!['\\', 'x', hex_digit_char(b as int / 16), hex_digit_char(b as int % 16)]
    }
}

/// The escapes of every byte, in order.
pub open spec fn byte_escapes(bs: Seq<u8>) -> Seq<char>
    decreases bs.len(),
{
    if bs.len() == 0 {
        Seq::empty()
    } else {
        byte_escapes(bs.drop_last()) + byte_debug_char(bs.last())
    }
}

/// A byte sequence debug-rendered as a quoted byte-string literal.
pub open spec fn bytes_debug_chars(bs: Seq<u8>) -> Seq<char> {
    seq!['b', '"'] + byte_escapes(bs) + seq!['"']
}

/// Render bytes as a quoted byte-string literal, character by character.
fn bytes_debug_vec(bytes: &[u8]) -> (r: Vec<char>)
    ensures
        r@ == bytes_debug_chars(bytes@),
{
    let mut out: Vec<char> = Vec::new();
    out.push('b');
    out.push('"');
    let mut i: usize = 0;
    while i < bytes.len()
        invariant
            i <= bytes@.len(),
            out@ == seq!['b', '"'] + byte_escapes(bytes@.take(i as int)),
        decreases bytes@.len() - i,
    {
        let b = bytes[i];
        if b == 10 {
            out.push('\\');
            out.push('n');
        } else if b == 13 {
            out.push('\\');
            out.push('r');
        } else if b == 9 {
            out.push('\\');
            out.push('t');
        } else if b == 92 {
            out.push('\\');
            out.push('\\');
        } else if b == 34 {
            out.push('\\');
            out.push('"');
        } else if b == 0 {
            out.push('\\');
            out.push('0');
        } else if 0x20 <= b && b < 0x7f {
            out.push(b as char);
        } else {
            out.push('\\');
            out.push('x');
            out.push(hex_digit_of(b / 16));
            out.push(hex_digit_of(b % 16));
        }
        proof {
            assert(bytes@.take(i + 1).drop_last() =~= bytes@.take(i as int));
            assert(bytes@.take(i + 1).last() == bytes@[i as int]);
            assert(out@ =~= seq!['b', '"'] + byte_escapes(bytes@.take(i + 1)));
        }
        i += 1;
    }
    out.push('"');
    proof {
        assert(bytes@.take(bytes@.len() as int) =~= bytes@);
        assert(out@ =~= bytes_debug_chars(bytes@));
    }
    out
}

/// The characters HTTP token splitting treats as spaces.
pub open spec fn is_ws_char(c: char) -> bool {
    ||| c == ' '
    ||| c == '\u{9}'
    ||| c == '\u{a}'
    ||| c == '\u{b}'
    ||| c == '\u{c}'
    ||| c == '\u{d}'
    ||| c == '\u{85}'
    ||| c == '\u{a0}'
    ||| c == '\u{1680}'
    ||| ('\u{2000}' <= c && c <= '\u{200a}')
    ||| c == '\u{2028}'
    ||| c == '\u{2029}'
    ||| c == '\u{202f}'
    ||| c == '\u{205f}'
    ||| c == '\u{3000}'
}

/// The first space or the end, at or after `i`.
pub open spec fn token_end(s: Seq<char>, i: int) -> int
    decreases s.len() - i,
    when 0 <= i <= s.len()
{
    if i >= s.len() || is_ws_char(s[i]) {
        i
    } else {
        token_end(s, i + 1)
    }
}

proof fn lemma_token_end(s: Seq<char>, i: int)
    requires
        0 <= i <= s.len(),
    ensures
        i <= token_end(s, i) <= s.len(),
        i < s.len() && !is_ws_char(s[i]) ==> token_end(s, i) > i,
    decreases s.len() - i,
{
    if i < s.len() && !is_ws_char(s[i]) {
        lemma_token_end(s, i + 1);
    }
}

/// The space-separated tokens of `s` from `i` on.
pub open spec fn tokens_from(s: Seq<char>, i: int) -> Seq<Seq<char>>
    decreases s.len() - i,
    when 0 <= i <= s.len()
    via tokens_from_dec
{
    if i >= s.len() {
        Seq::empty()
    } else if is_ws_char(s[i]) {
        tokens_from(s, i + 1)
    } else {
        seq![s.subrange(i, token_end(s, i))] + tokens_from(s, token_end(s, i))
    }
}

#[via_fn]
proof fn tokens_from_dec(s: Seq<char>, i: int) {
    if 0 <= i < s.len() && !is_ws_char(s[i]) {
        lemma_token_end(s, i);
    }
}

/// Is this character a space for token splitting?
fn is_ws(c: char) -> (r: bool)
    ensures
        r == is_ws_char(c),
{
    c == ' ' || c == '\u{9}' || c == '\u{a}' || c == '\u{b}' || c == '\u{c}' || c == '\u{d}'
        || c == '\u{85}' || c == '\u{a0}' || c == '\u{1680}' || ('\u{2000}' <= c && c
        <= '\u{200a}') || c == '\u{2028}' || c == '\u{2029}' || c == '\u{202f}' || c == '\u{205f}'
        || c == '\u{3000}'
}

/// The characters of a string, one by one.
pub(crate) fn string_chars(s: &str) -> (r: Vec<char>)
    ensures
        r@ == s@,
{
    let n = s.unicode_len();
    let mut v: Vec<char> = Vec::new();
    let mut i: usize = 0;
    while i < n
        invariant
            i <= n,
            n == s@.len(),
            v@ == s@.subrange(0, i as int),
        decreases n - i,
    {
        v.push(s.get_char(i));
        proof {
            assert(v@ =~= s@.subrange(0, i + 1));
        }
        i += 1;
    }
    proof {
        assert(v@ =~= s@);
    }
    v
}

/// Relies on `String`'s `FromIterator` over `char`: the collected string has
/// exactly the given characters.
#[verifier::external_body]
pub(crate) fn chars_to_string(v: &Vec<char>, from: usize, to: usize) -> (r: String)
    requires
        from <= to <= v@.len(),
    ensures
        r@ == v@.subrange(from as int, to as int),
{
    v[from..to].iter().collect()
}

/// The token pieces that index pairs cut from `s`.
pub open spec fn token_views(pairs: Seq<(usize, usize)>, s: Seq<char>) -> Seq<Seq<char>> {
    pairs.map(|t: int, p: (usize, usize)| s.subrange(p.0 as int, p.1 as int))
}

proof fn lemma_token_end_value(s: Seq<char>, i: int, e: int)
    requires
        0 <= i <= e <= s.len(),
        forall|j: int| i <= j < e ==> !is_ws_char(#[trigger] s[j]),
        e == s.len() || is_ws_char(s[e]),
    ensures
        token_end(s, i) == e,
    decreases e - i,
{
    if i < e {
        lemma_token_end_value(s, i + 1, e);
    }
}

/// Split `v` on spaces, dropping empty pieces: the index pairs of the tokens.
fn split_ws_tokens(v: &Vec<char>) -> (r: Vec<(usize, usize)>)
    ensures
        token_views(r@, v@) == tokens_from(v@, 0),
        forall|t: int| 0 <= t < r@.len() ==> (#[trigger] r@[t]).0 <= r@[t].1 && r@[t].1 <= v@.len(),
{
    let mut out: Vec<(usize, usize)> = Vec::new();
    let mut i: usize = 0;
    while i < v.len()
        invariant
            i <= v@.len(),
            tokens_from(v@, 0) == token_views(out@, v@) + tokens_from(v@, i as int),
            forall|t: int|
                0 <= t < out@.len() ==> (#[trigger] out@[t]).0 <= out@[t].1 && out@[t].1
                    <= v@.len(),
        decreases v@.len() - i,
    {
        if is_ws(v[i]) {
            i += 1;
        } else {
            let start = i;
            let mut e = i;
            while e < v.len() && !is_ws(v[e])
                invariant
                    start <= e <= v@.len(),
                    forall|j: int| start <= j < e ==> !is_ws_char(#[trigger] v@[j]),
                decreases v@.len() - e,
            {
                e += 1;
            }
            proof {
                lemma_token_end_value(v@, start as int, e as int);
            }
            let ghost before = out@;
            out.push((start, e));
            proof {
                assert(token_views(out@, v@) =~= token_views(before, v@) + seq![
                    v@.subrange(start as int, e as int),
                ]);
                assert(tokens_from(v@, 0) =~= token_views(out@, v@) + tokens_from(v@, e as int));
            }
            i = e;
        }
    }
    proof {
        assert(tokens_from(v@, 0) =~= token_views(out@, v@));
    }
    out
}

/// The first index of `c` at or after `i`, or the length.
pub open spec fn find_char(s: Seq<char>, c: char, i: int) -> int
    decreases s.len() - i,
    when 0 <= i <= s.len()
{
    if i >= s.len() || s[i] == c {
        i
    } else {
        find_char(s, c, i + 1)
    }
}

/// Find `c` in `v` at or after `i`.
fn find_char_vec(v: &Vec<char>, c: char, i: usize) -> (r: usize)
    requires
        i <= v@.len(),
    ensures
        r == find_char(v@, c, i as int),
        i <= r <= v@.len(),
    decreases v@.len() - i,
{
    if i >= v.len() || v[i] == c {
        i
    } else {
        find_char_vec(v, c, i + 1)
    }
}

/// Copy `v[from..to]` into a fresh vector.
pub(crate) fn chars_range(v: &Vec<char>, from: usize, to: usize) -> (r: Vec<char>)
    requires
        from <= to <= v@.len(),
    ensures
        r@ == v@.subrange(from as int, to as int),
{
    let mut out: Vec<char> = Vec::new();
    let mut i: usize = from;
    while i < to
        invariant
            from <= i <= to <= v@.len(),
            out@ == v@.subrange(from as int, i as int),
        decreases to - i,
    {
        out.push(v[i]);
        proof {
            assert(out@ =~= v@.subrange(from as int, i + 1));
        }
        i += 1;
    }
    out
}

/// Is `v[from..to]` the CONNECT method name?
fn is_connect_range(v: &Vec<char>, from: usize, to: usize) -> (r: bool)
    requires
        from <= to <= v@.len(),
    ensures
        r == (v@.subrange(from as int, to as int) == "CONNECT"@),
{
    if to - from != 7 {
        proof {
            reveal_strlit("CONNECT");
            assert("CONNECT"@.len() == 7);
        }
        return false;
    }
    proof {
        reveal_strlit("CONNECT");
    }
    let r = v[from] == 'C' && v[from + 1] == 'O' && v[from + 2] == 'N' && v[from + 3] == 'N'
        && v[from + 4] == 'E' && v[from + 5] == 'C' && v[from + 6] == 'T';
    proof {
        let t = v@.subrange(from as int, to as int);
        if r {
            assert(t =~= "CONNECT"@);
        } else {
            if t == "CONNECT"@ {
                assert(t[0] == 'C' && t[1] == 'O' && t[2] == 'N' && t[3] == 'N' && t[4] == 'E'
                    && t[5] == 'C' && t[6] == 'T');
            }
        }
    }
    r
}

/// Is this string the CONNECT method name?
fn method_is_connect(m: &str) -> (r: bool)
    ensures
        r == (m@ == "CONNECT"@),
{
    let chars = string_chars(m);
    let r = is_connect_range(&chars, 0, chars.len());
    proof {
        assert(chars@.subrange(0, chars@.len() as int) =~= m@);
    }
    r
}

/// The host and port texts of a CONNECT target, split at its single colon.
/// A domain host is never empty, so a target beginning with the colon names
/// no host.
pub open spec fn connect_split(t: Seq<char>) -> Option<(Seq<char>, Seq<char>)> {
    let p = find_char(t, ':', 0);
    if 0 < p < t.len() && find_char(t, ':', p + 1) == t.len() {
        Some((t.take(p), t.skip(p + 1)))
    } else {
        None
    }
}

/// An HTTP request line as the proxy reads it: the upstream target, the
/// method and protocol tokens, and for a forward-proxy request the URL parts.
pub struct HttpRequest {
    pub addr: Address,
    pub method: String,
    pub url: Option<UrlParts>,
    pub protocol: String,
}

/// What `parse_http_request` returns for the bytes of a request line.
pub open spec fn http_parse_post(line: Seq<u8>, r: Result<HttpRequest, ProxyError>) -> bool {
    let cs = decode_utf8(line);
    let toks = tokens_from(cs, 0);
    if !valid_utf8(line) {
        r matches Err(e) && e@ == (ProxyErrorView::Other {
            msg: "invalid HTTP data: "@ + bytes_debug_chars(line),
        })
    } else if toks.len() != 3 {
        r matches Err(e) && e@ == (ProxyErrorView::Other { msg: "invalid http data: "@ + cs })
    } else if toks[0] == "CONNECT"@ {
        match connect_split(toks[1]) {
            Some(hp) => match u16_from_chars(hp.1) {
                Some(port) => r matches Ok(req) && req.addr@ == (AddressView::Domain {
                    host: hp.0,
                    port,
                }) && req.method@ == toks[0] && req.protocol@ == toks[2] && req.url is None,
                None => r matches Err(e) && e@ == (ProxyErrorView::Other {
                    msg: "invalid CONNECT address: "@ + toks[1],
                }),
            },
            None => r matches Err(e) && e@ == (ProxyErrorView::InvalidData {
                msg: "invalid CONNECT address: "@ + toks[1],
            }),
        }
    } else {
        match url_parts_of(toks[1]) {
            None => r matches Err(e) && e@ == (ProxyErrorView::Other {
                msg: "invalid url: "@ + toks[1],
            }),
            Some(parts) => match parts.port {
                None => r matches Err(e) && e@ == (ProxyErrorView::InvalidData {
                    msg: "invalid proxy url: "@ + toks[1],
                }),
                Some(port) => match parts.host {
                    None => r matches Err(e) && e@ == (ProxyErrorView::InvalidData {
                        msg: "invalid proxy url: "@ + toks[1],
                    }),
                    Some(h) => r matches Ok(req) && req.method@ == toks[0] && req.protocol@
                        == toks[2] && (req.url matches Some(u) && u@ == parts) && req.addr@
                        == (match h {
                        UrlHostView::Domain(d) => AddressView::Domain { host: d, port },
                        UrlHostView::V4(ip) => AddressView::V4 { ip, port },
                        UrlHostView::V6(ip) => AddressView::V6 { ip, port },
                    }),
                },
            },
        }
    }
}

/// Read a request line: the method, target and protocol tokens, with the
/// target parsed as `host:port` after CONNECT and as an absolute URL
/// otherwise.
pub fn parse_http_request(line: &[u8]) -> (r: Result<HttpRequest, ProxyError>)
    ensures
        http_parse_post(line@, r),
{
    let line_str = match utf8_to_string(slice_to_vec(line)) {
        Some(s) => s,
        None => {
            let mut m = String::new();
            m.append("invalid HTTP data: ");
            let rendered = bytes_debug_vec(line);
            let shown = chars_to_string(&rendered, 0, rendered.len());
            m.append(shown.as_str());
            proof {
                assert(m@ =~= "invalid HTTP data: "@ + bytes_debug_chars(line@));
            }
            return Err(ProxyError::Other(m));
        },
    };
    let chars = string_chars(line_str.as_str());
    let toks = split_ws_tokens(&chars);
    let ghost cs = decode_utf8(line@);
    let ghost tokens = tokens_from(cs, 0);
    if toks.len() != 3 {
        let mut m = String::new();
        m.append("invalid http data: ");
        m.append(line_str.as_str());
        proof {
            assert(m@ =~= "invalid http data: "@ + cs);
        }
        return Err(ProxyError::Other(m));
    }
    let t0 = toks[0];
    let t1 = toks[1];
    let t2 = toks[2];
    proof {
        assert(v_token(toks@, chars@, 0) == tokens[0]);
        assert(v_token(toks@, chars@, 1) == tokens[1]);
        assert(v_token(toks@, chars@, 2) == tokens[2]);
    }
    let method = chars_to_string(&chars, t0.0, t0.1);
    let protocol = chars_to_string(&chars, t2.0, t2.1);
    if is_connect_range(&chars, t0.0, t0.1) {
        let target = chars_range(&chars, t1.0, t1.1);
        let p = find_char_vec(&target, ':', 0);
        let two_parts = if p > 0 && p < target.len() {
            find_char_vec(&target, ':', p + 1) == target.len()
        } else {
            false
        };
        if !two_parts {
            let mut m = String::new();
            m.append("invalid CONNECT address: ");
            let shown = chars_to_string(&chars, t1.0, t1.1);
            m.append(shown.as_str());
            proof {
                assert(m@ =~= "invalid CONNECT address: "@ + tokens[1]);
            }
            return Err(ProxyError::InvalidData(m));
        }
        let ptxt = chars_range(&target, p + 1, target.len());
        proof {
            assert(ptxt@ =~= target@.skip(p + 1));
        }
        match parse_u16(&ptxt) {
            Some(port) => {
                let host = chars_to_string(&target, 0, p);
                proof {
                    assert(host@ =~= target@.take(p as int));
                }
                Ok(HttpRequest { addr: Address::Domain(host, port), method, url: None, protocol })
            },
            None => {
                let mut m = String::new();
                m.append("invalid CONNECT address: ");
                let shown = chars_to_string(&chars, t1.0, t1.1);
                m.append(shown.as_str());
                proof {
                    assert(m@ =~= "invalid CONNECT address: "@ + tokens[1]);
                }
                Err(ProxyError::Other(m))
            },
        }
    } else {
        let target = chars_to_string(&chars, t1.0, t1.1);
        match parse_absolute_url(target.as_str()) {
            None => {
                let mut m = String::new();
                m.append("invalid url: ");
                m.append(target.as_str());
                proof {
                    assert(m@ =~= "invalid url: "@ + tokens[1]);
                }
                Err(ProxyError::Other(m))
            },
            Some(parts) => {
                let port = match parts.port {
                    Some(port) => port,
                    None => {
                        let mut m = String::new();
                        m.append("invalid proxy url: ");
                        m.append(target.as_str());
                        proof {
                            assert(m@ =~= "invalid proxy url: "@ + tokens[1]);
                        }
                        return Err(ProxyError::InvalidData(m));
                    },
                };
                let addr = match &parts.host {
                    Some(UrlHost::Domain(d)) => Address::Domain(d.clone(), port),
                    Some(UrlHost::V4(ip)) => Address::Sock(
                        SockAddrParts { ip: IpBytes::V4(*ip), port },
                    ),
                    Some(UrlHost::V6(ip)) => Address::Sock(
                        SockAddrParts { ip: IpBytes::V6(*ip), port },
                    ),
                    None => {
                        let mut m = String::new();
                        m.append("invalid proxy url: ");
                        m.append(target.as_str());
                        proof {
                            assert(m@ =~= "invalid proxy url: "@ + tokens[1]);
                        }
                        return Err(ProxyError::InvalidData(m));
                    },
                };
                Ok(HttpRequest { addr, method, url: Some(parts), protocol })
            },
        }
    }
}

/// One indexed token piece.
pub open spec fn v_token(pairs: Seq<(usize, usize)>, s: Seq<char>, t: int) -> Seq<char> {
    s.subrange(pairs[t].0 as int, pairs[t].1 as int)
}

/// The server-relative request line for a forward-proxy request:
/// `METHOD SP path[?query][#fragment] SP PROTOCOL CRLF`.
pub open spec fn http_line_chars(method: Seq<char>, u: UrlPartsView, protocol: Seq<char>) -> Seq<
    char,
> {
    method + seq![' '] + u.path + (match u.query {
        Some(q) => seq!['?'] + q,
        None => Seq::<char>::empty(),
    }) + (match u.fragment {
        Some(f) => seq!['#'] + f,
        None => Seq::<char>::empty(),
    }) + seq![' '] + protocol + seq!['\r', '\n']
}

impl HttpRequest {
    /// The rewritten request line, present exactly when the request carried
    /// an absolute URL.
    pub fn build_http_line(&self) -> (r: Option<String>)
        ensures
            match self.url {
                Some(_) => r matches Some(s) && s@ == http_line_chars(
                    self.method@,
                    self.url->0@,
                    self.protocol@,
                ),
                None => r is None,
            },
    {
        let u = match &self.url {
            Some(u) => u,
            None => {
                return None;
            },
        };
        proof {
            reveal_strlit(" ");
            assert(" "@ =~= seq![' ']);
            reveal_strlit("?");
            assert("?"@ =~= seq!['?']);
            reveal_strlit("#");
            assert("#"@ =~= seq!['#']);
            reveal_strlit("\r\n");
            assert("\r\n"@ =~= seq!['\r', '\n']);
        }
        let mut s = String::new();
        s.append(self.method.as_str());
        s.append(" ");
        s.append(u.path.as_str());
        match &u.query {
            Some(q) => {
                s.append("?");
                s.append(q.as_str());
            },
            None => {},
        }
        match &u.fragment {
            Some(f) => {
                s.append("#");
                s.append(f.as_str());
            },
            None => {},
        }
        s.append(" ");
        s.append(self.protocol.as_str());
        s.append("\r\n");
        proof {
            assert(s@ =~= http_line_chars(self.method@, self.url->0@, self.protocol@));
        }
        Some(s)
    }
}

/// The reply that opens a CONNECT tunnel.
pub fn http_ok_reply() -> (r: String)
    ensures
        r@ == "HTTP/1.1 200 Ok\r\n\r\n"@,
{
    String::from_str("HTTP/1.1 200 Ok\r\n\r\n")
}

/// The error for a transport fault while the request line was being read.
pub fn head_line_fail_error(cause: &str) -> (r: ProxyError)
    ensures
        r@ == (ProxyErrorView::Io { msg: "read http head line fail: "@ + cause@ }),
{
    let mut m = String::new();
    m.append("read http head line fail: ");
    m.append(cause);
    proof {
        assert(m@ =~= "read http head line fail: "@ + cause@);
    }
    ProxyError::Io(m)
}

/// The stateless HTTP handler.
pub struct HttpHandle {}

impl HttpHandle {
    /// The handler; it holds no state.
    pub fn new() -> (r: Self) {
        HttpHandle {  }
    }
}

impl Default for HttpHandle {
    /// The handler; it holds no state.
    fn default() -> (r: Self) {
        HttpHandle {  }
    }
}

/// Where an HTTP session stands.
pub enum HttpPhase {
    /// Waiting for the request line.
    RequestLine,
    /// Waiting for the upstream connection for this request.
    Connect { req: HttpRequest },
    /// CONNECT accepted: discarding the remaining request headers.
    DrainHeaders { addr: Address },
    /// Forward request: the rewritten line is on its way upstream.
    Forward { addr: Address },
    /// Relaying bytes for this target.
    Relay { addr: Address },
    /// The session ended in an error.
    Failed,
}

/// One client connection's walk through the HTTP handshake.
pub struct HttpSession {
    pub phase: HttpPhase,
}

/// What the session does with the upstream connection attempt's outcome.
pub enum HttpConnectStep {
    /// CONNECT: read header lines until the blank one, then reply.
    DrainHeaders,
    /// Forward request: send this rewritten line upstream.
    WriteUpstream { line: String },
    /// Stop with this error.
    Abort { err: ProxyError },
}

/// What the session does with one drained header line.
pub enum HeaderStep {
    /// A header: keep draining.
    MoreHeaders,
    /// The blank line: send this reply to the client and relay.
    EndOfHeaders { reply: String },
}

impl HttpSession {
    /// A session at the request line.
    pub fn new() -> (r: Self)
        ensures
            r.phase is RequestLine,
    {
        HttpSession { phase: HttpPhase::RequestLine }
    }

    /// The request line arrived: parse it and pick the upstream target.
    pub fn on_request_line(&mut self, line: &[u8]) -> (r: Result<Address, ProxyError>)
        requires
            old(self).phase is RequestLine,
        ensures
            match r {
                Ok(a) => (final(self).phase matches HttpPhase::Connect { req }
                    && http_parse_post(line@, Ok(req)) && a@ == req.addr@),
                Err(e) => final(self).phase is Failed && http_parse_post(line@, Err(e)),
            },
    {
        match parse_http_request(line) {
            Ok(req) => {
                let a = req.addr.duplicate();
                self.phase = HttpPhase::Connect { req };
                Ok(a)
            },
            Err(e) => {
                self.phase = HttpPhase::Failed;
                Err(e)
            },
        }
    }

    /// The upstream connection attempt came back: drain headers for CONNECT,
    /// send the rewritten line for a forward request, or stop.
    pub fn on_connect(&mut self, ok: bool, cause: &str) -> (r: HttpConnectStep)
        requires
            old(self).phase is Connect,
        ensures
            ({
                let req = old(self).phase->Connect_req;
                if !ok {
                    (r matches HttpConnectStep::Abort { err } && err@
                        == (ProxyErrorView::ConnectRemoteFail { addr: req.addr@, msg: cause@ }))
                        && final(self).phase is Failed
                } else if req.method@ == "CONNECT"@ {
                    r is DrainHeaders && (final(self).phase matches HttpPhase::DrainHeaders {
                        addr,
                    } && addr@ == req.addr@)
                } else if req.url is Some {
                    (r matches HttpConnectStep::WriteUpstream { line } && line@
                        == http_line_chars(req.method@, req.url->0@, req.protocol@)) && (
                    final(self).phase matches HttpPhase::Forward { addr } && addr@ == req.addr@)
                } else {
                    (r matches HttpConnectStep::Abort { err } && err@ == (ProxyErrorView::Other {
                        msg: "missing http url"@,
                    })) && final(self).phase is Failed
                }
            }),
    {
        let mut phase = HttpPhase::Failed;
        core::mem::swap(&mut phase, &mut self.phase);
        match phase {
            HttpPhase::Connect { req } => {
                if !ok {
                    let err = ProxyError::ConnectRemoteFail(req.addr, String::from_str(cause));
                    return HttpConnectStep::Abort { err };
                }
                if method_is_connect(req.method.as_str()) {
                    self.phase = HttpPhase::DrainHeaders { addr: req.addr };
                    return HttpConnectStep::DrainHeaders;
                }
                match req.build_http_line() {
                    Some(line) => {
                        self.phase = HttpPhase::Forward { addr: req.addr };
                        HttpConnectStep::WriteUpstream { line }
                    },
                    None => HttpConnectStep::Abort {
                        err: ProxyError::Other(String::from_str("missing http url")),
                    },
                }
            },
            _ => vstd::pervasive::unreached(),
        }
    }

    /// A drained header line of this length arrived: the blank line (bare
    /// CRLF) ends the headers and opens the tunnel.
    pub fn on_header_line(&mut self, len: usize) -> (r: HeaderStep)
        requires
            old(self).phase is DrainHeaders,
        ensures
            len > 2 ==> r is MoreHeaders && *final(self) == *old(self),
            len <= 2 ==> (r matches HeaderStep::EndOfHeaders { reply } && reply@
                == "HTTP/1.1 200 Ok\r\n\r\n"@) && (final(self).phase matches HttpPhase::Relay {
                addr,
            } && addr@ == old(self).phase->DrainHeaders_addr@),
    {
        if len > 2 {
            return HeaderStep::MoreHeaders;
        }
        let mut phase = HttpPhase::Failed;
        core::mem::swap(&mut phase, &mut self.phase);
        match phase {
            HttpPhase::DrainHeaders { addr } => {
                self.phase = HttpPhase::Relay { addr };
                HeaderStep::EndOfHeaders { reply: http_ok_reply() }
            },
            _ => vstd::pervasive::unreached(),
        }
    }

    /// The rewritten request line reached upstream: relay from here on.
    pub fn on_forward_sent(&mut self)
        requires
            old(self).phase is Forward,
        ensures
            final(self).phase matches HttpPhase::Relay { addr } && addr@
                == old(self).phase->Forward_addr@,
    {
        let mut phase = HttpPhase::Failed;
        core::mem::swap(&mut phase, &mut self.phase);
        match phase {
            HttpPhase::Forward { addr } => {
                self.phase = HttpPhase::Relay { addr };
            },
            _ => vstd::pervasive::unreached(),
        }
    }

    /// Begin the relay: whatever the client reader still buffers is replayed
    /// to upstream first.
    pub fn start_relay(&self, buffered: Vec<u8>) -> (r: RelayStart)
        requires
            self.phase is Relay,
        ensures
            r.replay@ == buffered@,
            crate::copy::duplex_wf(r.duplex),
            r.duplex.left.reader_label@ == crate::relay::local_label_chars(
                self.phase->Relay_addr@,
            ),
            r.duplex.left.writer_label@ == crate::relay::remote_label_chars(
                self.phase->Relay_addr@,
            ),
            r.duplex.right.reader_label@ == crate::relay::remote_label_chars(
                self.phase->Relay_addr@,
            ),
            r.duplex.right.writer_label@ == crate::relay::local_label_chars(
                self.phase->Relay_addr@,
            ),
            r.duplex.left.flush_on_pending == true,
            r.duplex.right.flush_on_pending == false,
            !r.duplex.left.writer_done && !r.duplex.right.writer_done,
            !r.duplex.left_done && !r.duplex.right_done,
            r.duplex.left.written@ == Seq::<u8>::empty(),
            r.duplex.right.written@ == Seq::<u8>::empty(),
            crate::relay::upstream_delivery(r.replay@, r.duplex.left.written@) == buffered@,
    {
        match &self.phase {
            HttpPhase::Relay { addr } => begin_relay(addr, buffered),
            _ => vstd::pervasive::unreached(),
        }
    }
}

} // verus!
