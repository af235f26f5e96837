use zlink::connection::read::ReadState;
use zlink::connection::write::{Chunk, EnqueueStep, WriteState};
use zlink::connection::{Error, BUFFER_SIZE, MAX_BUFFER_SIZE};

fn frames(msgs: &[&str]) -> Vec<u8> {
    let mut out = Vec::new();
    for m in msgs {
        out.extend_from_slice(m.as_bytes());
        out.push(0);
    }
    out
}

#[test]
fn buffer_limits() {
    assert_eq!(BUFFER_SIZE, 256);
    assert_eq!(MAX_BUFFER_SIZE, 100 * 1024 * 1024);
}

#[test]
fn messages_of_one_burst_come_out_one_by_one() {
    let mut r = ReadState::new();
    assert!(r.needs_read());
    let data = frames(&[r#"{"a":1}"#, r#"{"b":2}"#]);
    assert!(r.spare_len() >= data.len());
    assert_eq!(r.read_from_socket(&data), Ok(true));

    assert!(r.can_consume(7));
    let first = r.read_message(7);
    assert_eq!(first, br#"{"a":1}"#);
    assert!(!r.needs_read());
    assert!(r.pending().starts_with(br#"{"b":2}"#));

    let second = r.read_message(7);
    assert_eq!(second, br#"{"b":2}"#);
    // The burst is over: the next message needs a fresh read.
    assert!(r.needs_read());
}

#[test]
fn a_partial_message_asks_for_more() {
    let mut r = ReadState::new();
    assert_eq!(r.read_from_socket(br#"{"a":"#), Ok(false));
    assert_eq!(r.read_from_socket(b"1}\0"), Ok(true));
    assert_eq!(r.read_message(7), br#"{"a":1}"#);
    assert!(r.needs_read());
}

#[test]
fn nothing_read_is_end_of_file() {
    let mut r = ReadState::new();
    assert_eq!(r.read_from_socket(b""), Err(Error::UnexpectedEof));
}

#[test]
fn a_full_buffer_grows() {
    let mut r = ReadState::new();
    let big = vec![b'x'; BUFFER_SIZE];
    assert_eq!(r.read_from_socket(&big), Ok(false));
    assert!(r.spare_len() > 0);
    assert_eq!(r.spare_len(), BUFFER_SIZE);
}

#[test]
fn leftover_bytes_after_the_last_message_are_kept() {
    let mut r = ReadState::new();
    let mut data = frames(&["{}"]);
    data.extend_from_slice(b"\0raw");
    r.read_from_socket(&data).unwrap();
    let _ = r.read_message(2);
    assert_eq!(r.leftover(), b"\0raw");
}

#[test]
fn enqueued_messages_are_framed_in_order() {
    let mut w = WriteState::new();
    let m1 = br#"{"method":"a.b.C"}"#;
    let m2 = br#"{"method":"a.b.D"}"#;
    assert!(w.spare_len() >= m1.len());
    assert_eq!(
        w.enqueue_step(Ok(m1), false),
        Ok(EnqueueStep::Queued { offset: 0, len: m1.len() + 1 })
    );
    assert_eq!(
        w.enqueue_step(Ok(m2), true),
        Ok(EnqueueStep::Queued { offset: m1.len() + 1, len: m2.len() + 1 })
    );
    let expected = frames(&[r#"{"method":"a.b.C"}"#, r#"{"method":"a.b.D"}"#]);
    assert_eq!(w.bytes(0, w.position()), expected.as_slice());

    let plan = w.flush_plan();
    assert_eq!(
        plan,
        vec![
            Chunk { start: 0, end: m1.len() + 1, with_fds: false },
            Chunk { start: m1.len() + 1, end: expected.len(), with_fds: true },
        ]
    );
    assert_eq!(w.pop_span(), Some((m1.len() + 1, m2.len() + 1)));
    assert_eq!(w.pop_span(), None);
    w.flushed();
    assert_eq!(w.position(), 0);
    assert!(w.flush_plan().is_empty());
}

#[test]
fn a_message_that_did_not_fit_grows_the_buffer() {
    let mut w = WriteState::new();
    let before = w.spare_len();
    assert_eq!(
        w.enqueue_step(Err(zlink::json::Error::BufferTooSmall), false),
        Ok(EnqueueStep::Retry)
    );
    assert_eq!(w.spare_len(), before + BUFFER_SIZE);
}

#[test]
fn a_non_string_key_is_a_json_error() {
    let mut w = WriteState::new();
    assert_eq!(
        w.enqueue_step(Err(zlink::json::Error::KeyMustBeAString), false),
        Err(Error::Json("key must be a string".to_string()))
    );
}

#[test]
fn a_message_filling_the_buffer_grows_it_for_the_terminator() {
    let mut w = WriteState::new();
    let msg = vec![b'x'; BUFFER_SIZE];
    assert_eq!(
        w.enqueue_step(Ok(&msg), false),
        Ok(EnqueueStep::Queued { offset: 0, len: BUFFER_SIZE + 1 })
    );
    assert_eq!(w.position(), BUFFER_SIZE + 1);
}

#[test]
fn flush_plan_sends_gaps_without_descriptors() {
    let mut w = WriteState::new();
    w.push_message(b"{}", false).unwrap();
    w.push_message(b"[]", true).unwrap();
    w.push_message(b"1", false).unwrap();
    assert_eq!(
        w.flush_plan(),
        vec![
            Chunk { start: 0, end: 3, with_fds: false },
            Chunk { start: 3, end: 6, with_fds: true },
            Chunk { start: 6, end: 8, with_fds: false },
        ]
    );
}
