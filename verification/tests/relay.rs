//! The duplex-copy machine: half-close, byte counts, and the demultiplexer.

use proxies::copy::{DataStep, DuplexCopy, PendingStep, WriteStep};
use proxies::{ClientHandle, ProxyError, Route, accept_fail_error, local_read_fail_error};

#[test]
fn duplex_half_close_completes_other_side() {
    let mut dc = DuplexCopy::with_pending("left".to_string(), false, "right".to_string(), true);
    assert_eq!(dc.left.reader_label, "left");
    assert_eq!(dc.left.writer_label, "right");
    assert!(dc.left.flush_on_pending);
    assert!(!dc.right.flush_on_pending);
    assert_eq!(dc.result(), None);

    // the left reader reaches end of input after writing five bytes
    match dc.left.on_written(b"hello", 5) {
        WriteStep::Continue => {}
        _ => panic!("expected the bytes counted"),
    }
    dc.on_left_complete();
    assert_eq!(dc.left_amt, 5);

    // the right half now completes on its next pending poll
    dc.right.begin_poll();
    assert_eq!(dc.right.on_read_pending(), PendingStep::Complete);
    // and further right-side data is an error naming the closed writer
    match dc.right.on_data(7) {
        DataStep::FailUnexpectedClosed(m) => {
            assert_eq!(m, "left unexpected closed, remain 7 bytes to write");
        }
        _ => panic!("expected the closed-writer error"),
    }
    dc.on_right_complete();
    assert_eq!(dc.result(), Some((5, 0)));
}

#[test]
fn copy_counts_every_written_byte() {
    let mut c = proxies::copy::Copy::new("a".to_string(), "b".to_string(), false);
    assert_eq!(c.amt, 0);
    match c.on_written(b"xyz", 3) {
        WriteStep::Continue => {}
        _ => panic!("expected the bytes counted"),
    }
    match c.on_written(b"pq", 2) {
        WriteStep::Continue => {}
        _ => panic!("expected the bytes counted"),
    }
    assert_eq!(c.result_amt(), 5);
    // a zero-length write fails and changes nothing
    match c.on_written(b"pq", 0) {
        WriteStep::FailZeroWrite(m) => assert_eq!(m, "write b zero bytes"),
        _ => panic!("expected the zero write refused"),
    }
    assert_eq!(c.result_amt(), 5);
}

#[test]
fn copy_flush_on_pending() {
    let mut c = proxies::copy::Copy::new("a".to_string(), "b".to_string(), true);
    c.begin_poll();
    assert_eq!(c.on_read_pending(), PendingStep::FlushThenSuspend);
    c.on_flush_ok_pending();
    c.begin_poll();
    assert_eq!(c.on_read_pending(), PendingStep::Suspend);
    // a write makes the next pending flush again
    match c.on_written(b"x", 1) {
        WriteStep::Continue => {}
        _ => panic!("expected the byte counted"),
    }
    assert_eq!(c.on_read_pending(), PendingStep::FlushThenSuspend);
}

#[test]
fn copy_error_messages() {
    let c = proxies::copy::Copy::new("local(to x:1)".to_string(), "remote(x:1)".to_string(), false);
    assert_eq!(c.read_fail_message("broken pipe"), "read local(to x:1) fail: broken pipe");
    assert_eq!(c.flush_fail_message("broken pipe"), "flush remote(x:1) fail: broken pipe");
    assert_eq!(c.write_fail_message("broken pipe"), "write remote(x:1) fail: broken pipe");
}

#[test]
fn demux_on_first_byte() {
    let h = ClientHandle::new();
    assert_eq!(h.route(Some(0x05)), Route::Socks5);
    assert_eq!(h.route(Some(b'G')), Route::Http);
    assert_eq!(h.route(Some(0x00)), Route::Http);
    assert_eq!(h.route(None), Route::CloseSilently);
}

#[test]
fn server_error_messages() {
    match accept_fail_error("too many open files") {
        ProxyError::Other(m) => assert_eq!(m, "accept incoming fail: too many open files"),
        _ => panic!("expected a server error"),
    }
    match local_read_fail_error("10.0.0.1:5555", "reset") {
        ProxyError::Other(m) => {
            assert_eq!(m, "read local socket(10.0.0.1:5555) fail: reset");
        }
        _ => panic!("expected a per-connection error"),
    }
}
