use tv::ipc::session::{
    ConnectResult, Connection, ReadResult, Step, WriteResult, RETRY_INTERVAL,
};
use tv::ipc::{
    connect_delay, decode, encode, message_length, socket_dir, socket_path, too_large, MAX_MESSAGE_SIZE,
};

#[test]
fn socket_paths() {
    assert_eq!(socket_path(1000), "/tmp/tv-1000/tv.sock");
    assert_eq!(socket_dir(0), "/tmp/tv-0");
}

#[test]
fn frames() {
    assert_eq!(encode(b"{}"), b"\0\0\0\x02{}");
    let long = vec![7u8; 70_000];
    assert_eq!(encode(&long)[..5], [0, 1, 0x11, 0x70, 7]);
}

#[test]
fn a_framed_message_reads_back() {
    let mut buf = encode(b"hello");
    buf.extend_from_slice(b"rest");
    assert_eq!(decode(&buf), Ok(Some((&b"hello"[..], 9))));
    assert_eq!(decode(&encode(b"")), Ok(Some((&b""[..], 4))));
}

#[test]
fn a_partial_message_is_not_read() {
    let buf = encode(b"hello");
    for n in 0..buf.len() {
        assert_eq!(decode(&buf[..n]), Ok(None));
    }
}

#[test]
fn messages_that_are_too_large() {
    let text = "message too large: 16777217 bytes (max 16777216)";
    assert_eq!(decode(&[1, 0, 0, 1]), Err(text.to_string()));
    assert_eq!(too_large(16_777_217), text);
    assert_eq!(message_length(&[1, 0, 0, 1]), Err(16_777_217));
    assert_eq!(message_length(&[1, 0, 0, 0]), Ok(MAX_MESSAGE_SIZE));
    assert_eq!(message_length(&[0xff; 4]), Err(u32::MAX));
    assert_eq!(decode(&[1, 0, 0, 0]), Ok(None));
}

#[test]
fn a_stream_of_messages_reads_back() {
    let mut stream = Vec::new();
    for m in ["a", "", "bcd"] {
        stream.extend(encode(m.as_bytes()));
    }
    stream.extend_from_slice(&encode(b"last")[..5]);
    let mut c = Connection::new();
    for chunk in stream.chunks(3) {
        let step = c.read_into_buffer(chunk, ReadResult::Read(chunk.len()), 0);
        assert_eq!(step, Step::Continue);
    }
    assert_eq!(c.try_recv(), Ok(Some(b"a".to_vec())));
    assert_eq!(c.try_recv(), Ok(Some(b"".to_vec())));
    assert_eq!(c.try_recv(), Ok(Some(b"bcd".to_vec())));
    assert_eq!(c.try_recv(), Ok(None));
    let step = c.read_into_buffer(b"ast", ReadResult::Read(3), 0);
    assert_eq!(step, Step::Continue);
    assert_eq!(c.try_recv(), Ok(Some(b"last".to_vec())));
}

#[test]
fn reading_from_the_socket() {
    let mut c = Connection::new();
    assert!(c.is_connected());
    assert_eq!(c.read_into_buffer(b"xx", ReadResult::WouldBlock, 0), Step::Done(true));
    assert_eq!(c.read_into_buffer(b"xx", ReadResult::Interrupted, 0), Step::Continue);
    assert!(c.is_connected());
    assert_eq!(c.read_into_buffer(b"xx", ReadResult::Read(0), 5), Step::Done(false));
    assert!(!c.is_connected());
    let mut c = Connection::new();
    assert_eq!(c.read_into_buffer(&[1, 0, 0, 1], ReadResult::Read(4), 0), Step::Continue);
    assert_eq!(c.try_recv(), Err(too_large(16_777_217)));
    assert_eq!(c.read_into_buffer(b"", ReadResult::Failed, 5), Step::Fail);
    assert!(!c.is_connected());
    assert_eq!(c.try_recv(), Ok(None));
}

#[test]
fn output_stays_in_order() {
    let mut c = Connection::new();
    assert!(!c.has_pending_writes());
    assert_eq!(c.next_write(), None);
    c.queue_send(b"ab");
    c.queue_send(b"c");
    assert!(c.has_pending_writes());
    let mut out = Vec::new();
    while let Some(piece) = c.next_write() {
        let n = piece.len().min(4);
        out.extend_from_slice(&piece[..n]);
        assert_eq!(c.flush(WriteResult::Wrote(n), 0), Step::Continue);
    }
    assert_eq!(out, b"\0\0\0\x02ab\0\0\0\x01c");
    assert!(!c.has_pending_writes());
}

#[test]
fn writing_to_the_socket() {
    let mut c = Connection::new();
    c.queue_send(b"ab");
    assert_eq!(c.flush(WriteResult::WouldBlock, 0), Step::Done(false));
    assert_eq!(c.flush(WriteResult::Interrupted, 0), Step::Continue);
    assert_eq!(c.next_write(), Some(&b"\0\0\0\x02ab"[..]));
    assert_eq!(c.flush(WriteResult::Failed, 0), Step::Fail);
    assert!(!c.is_connected());
    assert!(!c.has_pending_writes());
}

#[test]
fn output_remains_without_a_connection() {
    let mut c = Connection::new();
    c.handle_disconnect(0);
    assert_eq!(c.flush(WriteResult::WouldBlock, 1), Step::Done(true));
    c.queue_send(b"ab");
    assert_eq!(c.flush(WriteResult::Wrote(6), 1), Step::Done(false));
    assert_eq!(c.next_write(), Some(&b"\0\0\0\x02ab"[..]));
    assert!(c.try_reconnect(ConnectResult::Connected, RETRY_INTERVAL));
    assert_eq!(c.flush(WriteResult::Wrote(6), 1), Step::Continue);
    assert!(!c.has_pending_writes());
}

#[test]
fn connecting_again() {
    let mut c = Connection::new();
    assert!(!c.should_retry(1));
    c.handle_disconnect(10);
    assert!(!c.should_retry(10 + RETRY_INTERVAL - 1));
    assert!(c.should_retry(10 + RETRY_INTERVAL));
    let now = 10 + RETRY_INTERVAL;
    assert!(!c.try_reconnect(ConnectResult::NotListening, now));
    assert!(!c.should_retry(now));
    assert!(c.should_retry(now + RETRY_INTERVAL));
    assert!(!c.try_reconnect(ConnectResult::Failed, now + RETRY_INTERVAL));
    assert!(c.should_retry(now + RETRY_INTERVAL));
    assert!(c.try_reconnect(ConnectResult::Connected, now + RETRY_INTERVAL));
    assert!(c.is_connected());
    assert!(!c.should_retry(u64::MAX));
}

#[test]
fn attempts_to_connect() {
    assert_eq!(connect_delay(0), None);
    assert_eq!(connect_delay(1), Some(50));
    assert_eq!(connect_delay(3), Some(150));
    assert_eq!(connect_delay(11), None);
    let total: u64 = (1..).map_while(connect_delay).sum();
    assert_eq!(total, 2750);
}
