//! The pattern scan and the resumable matcher, window by window.

use proxies::{end_of, ReadUntilState, ReadUntilStep};

#[test]
fn test_end_of() {
    assert_eq!(end_of(b"123456", b"123"), Ok(3));
    assert_eq!(end_of(b"123456", b"234"), Ok(4));
    assert_eq!(end_of(b"123456", b"456"), Ok(6));

    assert_eq!(end_of(b"123456", b"23a"), Err(0));
    assert_eq!(end_of(b"123456", b"abc"), Err(0));
    assert_eq!(end_of(b"123456", b"567"), Err(2));
    assert_eq!(end_of(b"123456", b"67"), Err(1));
}

#[test]
fn read_until_single_window() {
    let mut st = ReadUntilState::new(vec![b'\r', b'\n']);
    match st.step(b"GET / HTTP/1.1\r\nHost: x\r\n") {
        ReadUntilStep::Done { data, consumed } => {
            assert_eq!(data, b"GET / HTTP/1.1\r\n".to_vec());
            assert_eq!(consumed, 16);
        }
        _ => panic!("expected a completed line"),
    }
}

#[test]
fn read_until_split_match() {
    // the delimiter straddles two fill windows
    let mut st = ReadUntilState::new(vec![b'\r', b'\n']);
    match st.step(b"ab\r") {
        ReadUntilStep::More { consumed } => assert_eq!(consumed, 3),
        _ => panic!("expected the matcher to ask for more"),
    }
    match st.step(b"\ncd") {
        ReadUntilStep::Done { data, consumed } => {
            assert_eq!(data, b"ab\r\n".to_vec());
            assert_eq!(consumed, 1);
        }
        _ => panic!("expected the split match to complete"),
    }
}

#[test]
fn read_until_discarded_tentative_match() {
    // a tentative prefix that the next window does not continue
    let mut st = ReadUntilState::new(vec![b'\r', b'\n']);
    match st.step(b"ab\r") {
        ReadUntilStep::More { consumed } => assert_eq!(consumed, 3),
        _ => panic!("expected the matcher to ask for more"),
    }
    match st.step(b"cd\r\n") {
        ReadUntilStep::Done { data, consumed } => {
            assert_eq!(data, b"ab\rcd\r\n".to_vec());
            assert_eq!(consumed, 4);
        }
        _ => panic!("expected the match within the second window"),
    }
}

#[test]
fn read_until_end_of_input() {
    let mut st = ReadUntilState::new(vec![b'\r', b'\n']);
    assert!(matches!(st.step(b""), ReadUntilStep::EndOfInput));
}
