//! Address parsing, rendering, and the port accessor.

use std::str::FromStr;

use proxies::{Address, IpBytes, SockAddrParts, parse_u16, dec_string};

#[test]
fn address_display_forms() {
    let d = Address::Domain("example.com".to_string(), 443);
    assert_eq!(d.display_string(), "example.com:443");
    assert_eq!(d.port(), 443);

    let v4 = Address::Sock(SockAddrParts { ip: IpBytes::V4([127, 0, 0, 1]), port: 80 });
    assert_eq!(v4.display_string(), "127.0.0.1:80");
    assert_eq!(v4.port(), 80);
}

#[test]
fn address_display_v6_compression() {
    let lo = Address::Sock(SockAddrParts {
        ip: IpBytes::V6([0, 0, 0, 0, 0, 0, 0, 0, 0, 0, 0, 0, 0, 0, 0, 1]),
        port: 443,
    });
    assert_eq!(lo.display_string(), "[::1]:443");

    let doc = Address::Sock(SockAddrParts {
        ip: IpBytes::V6([0x20, 0x01, 0x0d, 0xb8, 0, 0, 0, 0, 0, 0, 0, 0, 0, 0, 0, 1]),
        port: 80,
    });
    assert_eq!(doc.display_string(), "[2001:db8::1]:80");

    // the longest zero run collapses, not the first
    let longest = Address::Sock(SockAddrParts {
        ip: IpBytes::V6([0, 1, 0, 0, 0, 0, 0, 2, 0, 0, 0, 0, 0, 0, 0, 3]),
        port: 1,
    });
    assert_eq!(longest.display_string(), "[1:0:0:2::3]:1");

    // the leftmost of two equally long zero runs collapses
    let two = Address::Sock(SockAddrParts {
        ip: IpBytes::V6([0, 1, 0, 0, 0, 0, 0, 2, 0, 0, 0, 0, 0, 3, 0, 4]),
        port: 1,
    });
    assert_eq!(two.display_string(), "[1::2:0:0:3:4]:1");

    // no run of two or more zero groups: nothing collapses
    let full = Address::Sock(SockAddrParts {
        ip: IpBytes::V6([0, 1, 0, 0, 0, 3, 0, 4, 0, 5, 0, 6, 0, 7, 0, 8]),
        port: 2,
    });
    assert_eq!(full.display_string(), "[1:0:3:4:5:6:7:8]:2");
}

#[test]
fn address_display_v4_mapped() {
    let m = Address::Sock(SockAddrParts {
        ip: IpBytes::V6([0, 0, 0, 0, 0, 0, 0, 0, 0, 0, 0xff, 0xff, 192, 0, 2, 1]),
        port: 8080,
    });
    assert_eq!(m.display_string(), "[::ffff:192.0.2.1]:8080");
}

#[test]
fn address_parse_forms() {
    match Address::from_str("127.0.0.1:80") {
        Ok(Address::Sock(sa)) => {
            assert_eq!(sa.port, 80);
            match sa.ip {
                IpBytes::V4(ip) => assert_eq!(ip, [127, 0, 0, 1]),
                _ => panic!("expected a version-four address"),
            }
        }
        _ => panic!("expected a socket address"),
    }
    match Address::from_str("example.com:8080") {
        Ok(Address::Domain(host, port)) => {
            assert_eq!(host, "example.com");
            assert_eq!(port, 8080);
        }
        _ => panic!("expected a domain"),
    }
    // an octet with a leading zero is no socket address; the string is a domain
    match Address::from_str("1.2.3.04:80") {
        Ok(Address::Domain(host, port)) => {
            assert_eq!(host, "1.2.3.04");
            assert_eq!(port, 80);
        }
        _ => panic!("expected a domain"),
    }
    match Address::from_str("[::1]:443") {
        Ok(Address::Sock(sa)) => {
            assert_eq!(sa.port, 443);
            match sa.ip {
                IpBytes::V6(ip) => {
                    assert_eq!(ip, [0, 0, 0, 0, 0, 0, 0, 0, 0, 0, 0, 0, 0, 0, 0, 1]);
                }
                _ => panic!("expected a version-six address"),
            }
        }
        _ => panic!("expected a socket address"),
    }
    match Address::from_str("[2001:db8::8:800:200C:417A]:80") {
        Ok(Address::Sock(sa)) => match sa.ip {
            IpBytes::V6(ip) => assert_eq!(
                ip,
                [0x20, 0x01, 0x0d, 0xb8, 0, 0, 0, 0, 0, 8, 8, 0, 0x20, 0x0c, 0x41, 0x7a]
            ),
            _ => panic!("expected a version-six address"),
        },
        _ => panic!("expected a socket address"),
    }
    match Address::from_str("[1:2:3:4:5:6:7:8]:1") {
        Ok(Address::Sock(sa)) => match sa.ip {
            IpBytes::V6(ip) => {
                assert_eq!(ip, [0, 1, 0, 2, 0, 3, 0, 4, 0, 5, 0, 6, 0, 7, 0, 8]);
            }
            _ => panic!("expected a version-six address"),
        },
        _ => panic!("expected a socket address"),
    }
    match Address::from_str("[::]:0") {
        Ok(Address::Sock(sa)) => match sa.ip {
            IpBytes::V6(ip) => assert_eq!(ip, [0u8; 16]),
            _ => panic!("expected a version-six address"),
        },
        _ => panic!("expected a socket address"),
    }
    // a malformed bracket form is read as a domain split at the last colon
    match Address::from_str("[:::1]:443") {
        Ok(Address::Domain(host, port)) => {
            assert_eq!(host, "[:::1]");
            assert_eq!(port, 443);
        }
        _ => panic!("expected a domain"),
    }
    // eight groups beside a double colon name no socket address
    match Address::from_str("[1:2:3:4:5:6:7:8::]:1") {
        Ok(Address::Domain(host, _)) => assert_eq!(host, "[1:2:3:4:5:6:7:8::]"),
        _ => panic!("expected a domain"),
    }
    // a mapped version-four tail round-trips through its textual form
    match Address::from_str("[::ffff:192.0.2.1]:8080") {
        Ok(Address::Sock(sa)) => match sa.ip {
            IpBytes::V6(ip) => {
                assert_eq!(ip, [0, 0, 0, 0, 0, 0, 0, 0, 0, 0, 0xff, 0xff, 192, 0, 2, 1]);
                let back = Address::Sock(SockAddrParts { ip: IpBytes::V6(ip), port: sa.port });
                assert_eq!(back.display_string(), "[::ffff:192.0.2.1]:8080");
            }
            _ => panic!("expected a version-six address"),
        },
        _ => panic!("expected a socket address"),
    }
    assert!(Address::from_str("localhost").is_err());
    assert!(Address::from_str("host:99999").is_err());
    assert!(Address::from_str("host:").is_err());
    // a domain host is never empty
    assert!(Address::from_str(":80").is_err());
}

#[test]
fn port_token_values() {
    assert_eq!(parse_u16(&"80".chars().collect()), Some(80));
    assert_eq!(parse_u16(&"+80".chars().collect()), Some(80));
    assert_eq!(parse_u16(&"0080".chars().collect()), Some(80));
    assert_eq!(parse_u16(&"65535".chars().collect()), Some(65535));
    assert_eq!(parse_u16(&"65536".chars().collect()), None);
    assert_eq!(parse_u16(&"".chars().collect()), None);
    assert_eq!(parse_u16(&"8a".chars().collect()), None);
    assert_eq!(parse_u16(&"-1".chars().collect()), None);
}

#[test]
fn decimal_rendering() {
    assert_eq!(dec_string(0), "0");
    assert_eq!(dec_string(65535), "65535");
    assert_eq!(dec_string(443), "443");
}
