//! SOCKS5 handshakes walked through the session machine.

use proxies::{
    Address, ConnectStep, IpBytes, ProxyError, Socks5Io, Socks5Session, eof_at_domain_length,
    eof_request_error, method_reply, parse_auth, parse_request, reply_failure, reply_success,
    AuthParse, RequestParse,
};

#[test]
fn socks5_connect_to_ipv4() {
    let mut ses = Socks5Session::new();
    match ses.on_bytes(&[0x05, 0x01, 0x00]) {
        Socks5Io::ReplyAuth { reply, consumed } => {
            assert_eq!(reply, vec![0x05, 0x00]);
            assert_eq!(consumed, 3);
        }
        _ => panic!("expected the no-auth reply"),
    }
    match ses.on_bytes(&[0x05, 0x01, 0x00, 0x01, 0x7F, 0x00, 0x00, 0x01, 0x00, 0x50]) {
        Socks5Io::ConnectTo { addr, consumed } => {
            assert_eq!(consumed, 10);
            assert_eq!(addr.port(), 80);
            assert_eq!(addr.display_string(), "127.0.0.1:80");
            match addr {
                Address::Sock(sa) => match sa.ip {
                    IpBytes::V4(ip) => assert_eq!(ip, [127, 0, 0, 1]),
                    _ => panic!("expected a version-four address"),
                },
                _ => panic!("expected a socket address"),
            }
        }
        _ => panic!("expected an upstream connect"),
    }
    match ses.on_connect(true, "") {
        ConnectStep::Established { reply } => {
            assert_eq!(reply, vec![0x05, 0x00, 0x00, 0x01, 0, 0, 0, 0, 0, 0]);
        }
        _ => panic!("expected the success reply"),
    }
    let start = ses.start_relay(vec![1, 2, 3]);
    assert_eq!(start.replay, vec![1, 2, 3]);
    assert_eq!(start.duplex.left.reader_label, "local(to 127.0.0.1:80)");
    assert_eq!(start.duplex.left.writer_label, "remote(127.0.0.1:80)");
    assert!(start.duplex.left.flush_on_pending);
    assert!(!start.duplex.right.flush_on_pending);
}

#[test]
fn socks5_connect_to_domain() {
    let mut ses = Socks5Session::new();
    match ses.on_bytes(&[0x05, 0x01, 0x00]) {
        Socks5Io::ReplyAuth { reply, .. } => assert_eq!(reply, vec![0x05, 0x00]),
        _ => panic!("expected the no-auth reply"),
    }
    let req = [
        0x05, 0x01, 0x00, 0x03, 0x0B, 0x65, 0x78, 0x61, 0x6D, 0x70, 0x6C, 0x65, 0x2E, 0x63,
        0x6F, 0x6D, 0x01, 0xBB,
    ];
    match ses.on_bytes(&req) {
        Socks5Io::ConnectTo { addr, consumed } => {
            assert_eq!(consumed, 18);
            assert_eq!(addr.display_string(), "example.com:443");
            match addr {
                Address::Domain(host, port) => {
                    assert_eq!(host, "example.com");
                    assert_eq!(port, 443);
                }
                _ => panic!("expected a domain address"),
            }
        }
        _ => panic!("expected an upstream connect"),
    }
}

#[test]
fn socks5_unsupported_cmd() {
    let mut ses = Socks5Session::new();
    match ses.on_bytes(&[0x05, 0x01, 0x00]) {
        Socks5Io::ReplyAuth { .. } => {}
        _ => panic!("expected the no-auth reply"),
    }
    match ses.on_bytes(&[0x05, 0x02, 0x00, 0x01, 1, 2, 3, 4, 0, 80]) {
        Socks5Io::Fail(e) => match &e {
            ProxyError::ProtocolFail(m) => {
                assert_eq!(m, "unsupported cmd: 2");
                assert_eq!(e.message(), "protocol parse fail: unsupported cmd: 2");
            }
            _ => panic!("expected a protocol failure"),
        },
        _ => panic!("expected the handshake to fail"),
    }
}

#[test]
fn socks5_bad_version() {
    match parse_auth(&[0x04, 0x01]) {
        AuthParse::Rejected(ProxyError::ProtocolFail(m)) => {
            assert_eq!(m, "invalid socks version: 4");
        }
        _ => panic!("expected a version rejection"),
    }
}

#[test]
fn socks5_auth_needs_methods() {
    match parse_auth(&[0x05]) {
        AuthParse::NeedMore { need } => assert_eq!(need, 2),
        _ => panic!("expected more bytes wanted"),
    }
    match parse_auth(&[0x05, 0x02, 0x00]) {
        AuthParse::NeedMore { need } => assert_eq!(need, 4),
        _ => panic!("expected the method octets wanted"),
    }
    match parse_auth(&[0x05, 0x02, 0x00, 0x01]) {
        AuthParse::Accepted { consumed } => assert_eq!(consumed, 4),
        _ => panic!("expected the greeting accepted"),
    }
}

#[test]
fn socks5_unknown_atyp() {
    match parse_request(&[0x05, 0x01, 0x00, 0x05]) {
        RequestParse::Rejected(ProxyError::ProtocolFail(m)) => {
            assert_eq!(m, "unknown ATYP type: 5");
        }
        _ => panic!("expected an address-type rejection"),
    }
}

#[test]
fn socks5_empty_domain() {
    // a zero-length domain names no host
    let req = [0x05, 0x01, 0x00, 0x03, 0x00, 0x01, 0xBB];
    match parse_request(&req) {
        RequestParse::Rejected(ProxyError::InvalidData(m)) => assert_eq!(m, "invalid domain"),
        _ => panic!("expected the empty domain rejected"),
    }
}

#[test]
fn socks5_invalid_domain_bytes() {
    // two bytes that are not a string
    let req = [0x05, 0x01, 0x00, 0x03, 0x02, 0xFF, 0xFE, 0x01, 0xBB];
    match parse_request(&req) {
        RequestParse::Rejected(ProxyError::InvalidData(m)) => assert_eq!(m, "invalid domain"),
        _ => panic!("expected the domain rejected"),
    }
}

#[test]
fn socks5_ipv6_request() {
    let mut req = vec![0x05, 0x01, 0x00, 0x04];
    req.extend_from_slice(&[0, 0, 0, 0, 0, 0, 0, 0, 0, 0, 0, 0, 0, 0, 0, 1]);
    req.extend_from_slice(&[0x01, 0xBB]);
    match parse_request(&req) {
        RequestParse::Parsed { addr, consumed } => {
            assert_eq!(consumed, 22);
            assert_eq!(addr.display_string(), "[::1]:443");
        }
        _ => panic!("expected a version-six target"),
    }
}

#[test]
fn socks5_connect_failure_reply() {
    let mut ses = Socks5Session::new();
    let _ = ses.on_bytes(&[0x05, 0x01, 0x00]);
    let _ = ses.on_bytes(&[0x05, 0x01, 0x00, 0x01, 0x7F, 0x00, 0x00, 0x01, 0x00, 0x50]);
    match ses.on_connect(false, "connection refused") {
        ConnectStep::Aborted { reply, err } => {
            assert_eq!(reply, vec![0x05, 0x01, 0x00, 0x01, 0, 0, 0, 0, 0, 0]);
            assert_eq!(
                err.message(),
                "conntect remote(127.0.0.1:80) fail: connection refused"
            );
        }
        _ => panic!("expected the failure reply"),
    }
}

#[test]
fn socks5_replies_and_eof() {
    assert_eq!(method_reply(), vec![0x05, 0x00]);
    assert_eq!(reply_success(), vec![0x05, 0x00, 0x00, 0x01, 0, 0, 0, 0, 0, 0]);
    assert_eq!(reply_failure(), vec![0x05, 0x01, 0x00, 0x01, 0, 0, 0, 0, 0, 0]);
    match eof_request_error() {
        ProxyError::ProtocolFail(m) => assert_eq!(m, "unexpected EOF"),
        _ => panic!("expected a protocol failure"),
    }
    assert!(eof_at_domain_length(&[0x05, 0x01, 0x00, 0x03]));
    assert!(!eof_at_domain_length(&[0x05, 0x01, 0x00, 0x01]));
    assert!(!eof_at_domain_length(&[0x05, 0x01, 0x00]));
}

#[test]
fn socks5_round_trip_relays_payload() {
    // the payload after the handshake is exactly what the relay replays
    let mut ses = Socks5Session::new();
    let stream: Vec<u8> = [
        vec![0x05u8, 0x01, 0x00],
        vec![0x05, 0x01, 0x00, 0x03, 0x03, b'a', b'b', b'c', 0x00, 0x50],
        b"payload".to_vec(),
    ]
    .concat();
    let io1 = ses.on_bytes(&stream);
    let consumed1 = match io1 {
        Socks5Io::ReplyAuth { consumed, .. } => consumed,
        _ => panic!("expected the no-auth reply"),
    };
    let io2 = ses.on_bytes(&stream[consumed1..]);
    let consumed2 = match io2 {
        Socks5Io::ConnectTo { addr, consumed } => {
            assert_eq!(addr.display_string(), "abc:80");
            consumed
        }
        _ => panic!("expected an upstream connect"),
    };
    let _ = ses.on_connect(true, "");
    let start = ses.start_relay(stream[consumed1 + consumed2..].to_vec());
    assert_eq!(start.replay, b"payload".to_vec());
}
