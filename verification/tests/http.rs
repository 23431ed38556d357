//! HTTP request lines walked through the parser and the session machine.

use proxies::{
    Address, HeaderStep, HttpConnectStep, HttpSession, ProxyError, head_line_fail_error,
    http_ok_reply, parse_http_request,
};

#[test]
fn http_connect_tunnel() {
    let mut ses = HttpSession::new();
    let addr = ses
        .on_request_line(b"CONNECT example.com:443 HTTP/1.1\r\n")
        .expect("a well-formed CONNECT line");
    assert_eq!(addr.display_string(), "example.com:443");
    match ses.on_connect(true, "") {
        HttpConnectStep::DrainHeaders => {}
        _ => panic!("expected the headers drained"),
    }
    match ses.on_header_line(b"Host: example.com\r\n".len()) {
        HeaderStep::MoreHeaders => {}
        _ => panic!("expected a header to be discarded"),
    }
    match ses.on_header_line(b"\r\n".len()) {
        HeaderStep::EndOfHeaders { reply } => {
            assert_eq!(reply, "HTTP/1.1 200 Ok\r\n\r\n");
        }
        _ => panic!("expected the blank line to end the headers"),
    }
    // upstream receives only what came after the blank line
    let start = ses.start_relay(b"early body".to_vec());
    assert_eq!(start.replay, b"early body".to_vec());
    assert_eq!(start.duplex.left.reader_label, "local(to example.com:443)");
    assert_eq!(start.duplex.left.writer_label, "remote(example.com:443)");
}

#[test]
fn http_forward_get() {
    let mut ses = HttpSession::new();
    let addr = ses
        .on_request_line(b"GET http://example.com/a?b=1 HTTP/1.1\r\n")
        .expect("a well-formed forward line");
    match &addr {
        Address::Domain(host, port) => {
            assert_eq!(host, "example.com");
            assert_eq!(*port, 80);
        }
        _ => panic!("expected a domain target"),
    }
    match ses.on_connect(true, "") {
        HttpConnectStep::WriteUpstream { line } => {
            assert_eq!(line, "GET /a?b=1 HTTP/1.1\r\n");
        }
        _ => panic!("expected the rewritten request line"),
    }
    ses.on_forward_sent();
    let start = ses.start_relay(b"Host: example.com\r\n\r\n".to_vec());
    assert_eq!(start.replay, b"Host: example.com\r\n\r\n".to_vec());
}

#[test]
fn http_forward_https_default_port() {
    let req = parse_http_request(b"HEAD https://example.com/ HTTP/1.1\r\n")
        .expect("a well-formed forward line");
    assert_eq!(req.addr.port(), 443);
    assert_eq!(req.method, "HEAD");
    assert_eq!(req.protocol, "HTTP/1.1");
}

#[test]
fn http_forward_with_fragment() {
    let req = parse_http_request(b"GET http://example.com/p?q=2#frag HTTP/1.1\r\n")
        .expect("a well-formed forward line");
    let line = req.build_http_line().expect("a forward request has a URL");
    assert_eq!(line, "GET /p?q=2#frag HTTP/1.1\r\n");
}

#[test]
fn http_forward_ipv4_host() {
    let req = parse_http_request(b"GET http://192.0.2.7:8080/x HTTP/1.1\r\n")
        .expect("a well-formed forward line");
    assert_eq!(req.addr.display_string(), "192.0.2.7:8080");
}

#[test]
fn http_bad_token_count() {
    match parse_http_request(b"GET /\r\n") {
        Err(ProxyError::Other(m)) => {
            assert_eq!(m, "invalid http data: GET /\r\n");
        }
        _ => panic!("expected the line rejected"),
    }
}

#[test]
fn http_bad_utf8() {
    match parse_http_request(&[0xFF, 0xFE, b' ', b'x', b' ', b'y', b'\r', b'\n']) {
        Err(ProxyError::Other(m)) => {
            assert_eq!(m, "invalid HTTP data: b\"\\xff\\xfe x y\\r\\n\"");
        }
        _ => panic!("expected the line rejected"),
    }
}

#[test]
fn http_bad_connect_target() {
    match parse_http_request(b"CONNECT example.com HTTP/1.1\r\n") {
        Err(ProxyError::InvalidData(m)) => {
            assert_eq!(m, "invalid CONNECT address: example.com");
        }
        _ => panic!("expected the target rejected"),
    }
    // a target that begins with the colon names no host
    match parse_http_request(b"CONNECT :443 HTTP/1.1\r\n") {
        Err(ProxyError::InvalidData(m)) => {
            assert_eq!(m, "invalid CONNECT address: :443");
        }
        _ => panic!("expected the empty host rejected"),
    }
    match parse_http_request(b"CONNECT example.com:https HTTP/1.1\r\n") {
        Err(ProxyError::Other(m)) => {
            assert_eq!(m, "invalid CONNECT address: example.com:https");
        }
        _ => panic!("expected the port rejected"),
    }
}

#[test]
fn http_bad_url() {
    match parse_http_request(b"GET not-a-url HTTP/1.1\r\n") {
        Err(ProxyError::Other(m)) => assert_eq!(m, "invalid url: not-a-url"),
        _ => panic!("expected the URL rejected"),
    }
    // a scheme without a known default port
    match parse_http_request(b"GET foo://example.com/ HTTP/1.1\r\n") {
        Err(ProxyError::InvalidData(m)) => {
            assert_eq!(m, "invalid proxy url: foo://example.com/");
        }
        _ => panic!("expected the port rejected"),
    }
    // a URL without a host
    match parse_http_request(b"GET data:text/plain,x HTTP/1.1\r\n") {
        Err(ProxyError::InvalidData(m)) => {
            assert_eq!(m, "invalid proxy url: data:text/plain,x");
        }
        _ => panic!("expected the host rejected"),
    }
}

#[test]
fn http_connect_failure() {
    let mut ses = HttpSession::new();
    let _ = ses
        .on_request_line(b"CONNECT example.com:443 HTTP/1.1\r\n")
        .expect("a well-formed CONNECT line");
    match ses.on_connect(false, "timed out") {
        HttpConnectStep::Abort { err } => {
            assert_eq!(err.message(), "conntect remote(example.com:443) fail: timed out");
        }
        _ => panic!("expected the connect failure"),
    }
}

#[test]
fn http_errors_and_reply() {
    assert_eq!(http_ok_reply(), "HTTP/1.1 200 Ok\r\n\r\n");
    match head_line_fail_error("unexpected EOF") {
        ProxyError::Io(m) => assert_eq!(m, "read http head line fail: unexpected EOF"),
        _ => panic!("expected a transport error"),
    }
}
