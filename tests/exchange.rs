use bare_http::exchange::{OutgoingRequest, ResponseBuffer, WriteStep};
use bare_http::uri::URI;

#[test]
fn short_writes_deliver_the_whole_request() {
    let text = URI::new("http://example.com/foo/bar?x=1").unwrap().request();
    let mut out = OutgoingRequest::new(&text);
    let mut peer: Vec<u8> = Vec::new();
    let mut writes = 0;
    while !out.is_complete() {
        let pending = out.pending();
        let n = std::cmp::min(3, pending.len());
        peer.extend_from_slice(&pending[..n]);
        let step = out.record_write(n);
        writes += 1;
        if out.is_complete() {
            assert_eq!(step, WriteStep::Done);
        } else {
            assert_eq!(step, WriteStep::More);
        }
    }
    assert_eq!(peer, text.as_bytes());
    assert_eq!(writes, (text.len() + 2) / 3);
}

#[test]
fn one_byte_writes_deliver_the_whole_request() {
    let text = "GET / HTTP/1.1\r\n\r\n";
    let mut out = OutgoingRequest::new(text);
    let mut peer: Vec<u8> = Vec::new();
    while !out.is_complete() {
        peer.push(out.pending()[0]);
        out.record_write(1);
    }
    assert_eq!(peer, text.as_bytes());
}

#[test]
fn full_write_is_done_at_once() {
    let mut out = OutgoingRequest::new("abc");
    assert_eq!(out.pending(), b"abc");
    assert_eq!(out.record_write(3), WriteStep::Done);
    assert!(out.is_complete());
    assert_eq!(out.pending(), b"");
}

#[test]
fn write_that_takes_nothing_stalls() {
    let mut out = OutgoingRequest::new("abc");
    assert_eq!(out.record_write(1), WriteStep::More);
    assert_eq!(out.record_write(0), WriteStep::Stalled);
    assert_eq!(out.pending(), b"bc");
}

#[test]
fn empty_request_is_complete_from_the_start() {
    let mut out = OutgoingRequest::new("");
    assert!(out.is_complete());
    assert_eq!(out.record_write(0), WriteStep::Done);
}

#[test]
fn reads_accumulate_until_the_peer_closes() {
    let reply = b"HTTP/1.1 200 OK\r\nContent-Length: 2\r\n\r\nhi";
    let mut response = ResponseBuffer::new();
    for chunk in reply.chunks(5) {
        assert!(!response.record_read(chunk));
        assert!(!response.is_closed());
    }
    assert!(response.record_read(&[]));
    assert!(response.is_closed());
    assert_eq!(response.bytes(), &reply[..]);
    assert_eq!(response.text(), "HTTP/1.1 200 OK\r\nContent-Length: 2\r\n\r\nhi");
}

#[test]
fn immediate_close_gives_empty_text() {
    let mut response = ResponseBuffer::new();
    assert!(response.record_read(&[]));
    assert_eq!(response.text(), "");
}

#[test]
fn invalid_bytes_are_replaced_in_the_text() {
    let mut response = ResponseBuffer::new();
    response.record_read(&[b'o', b'k', 0xFF, b'!']);
    response.record_read(&[]);
    assert_eq!(response.text(), "ok\u{FFFD}!");
    assert_eq!(response.bytes(), &[b'o', b'k', 0xFF, b'!']);
}
