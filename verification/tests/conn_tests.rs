use tinykv::conn::{ConnState, Connection, IoAction, ReadEvent, WriteEvent};
use tinykv::store::Store;

/// Feeds one request line in a single read, dispatches it, and flushes
/// the whole reply in one write; returns the reply bytes.
fn run_request(conn: &mut Connection, store: &mut Store, line: &[u8]) -> Vec<u8> {
    assert_eq!(conn.state(), ConnState::AwaitingRequest);
    conn.on_read(ReadEvent::Received(line.to_vec()));
    assert_eq!(conn.state(), ConnState::AwaitingDispatch);
    conn.dispatch(store);
    assert_eq!(conn.state(), ConnState::AwaitingFlush);
    let out = conn.pending_output();
    conn.on_write(WriteEvent::Wrote(out.len()));
    assert_eq!(conn.state(), ConnState::AwaitingRequest);
    out
}

#[test]
fn scenario_set_then_get_integer() {
    let mut store = Store::new();
    let mut conn = Connection::new(0);
    assert_eq!(run_request(&mut conn, &mut store, b"SET foo :42\r"), b":42\r".to_vec());
    assert_eq!(run_request(&mut conn, &mut store, b"GET foo\r"), b":42\r".to_vec());
}

#[test]
fn scenario_set_then_get_raw() {
    let mut store = Store::new();
    let mut conn = Connection::new(0);
    assert_eq!(run_request(&mut conn, &mut store, b"SET bar hello\r"), b"hello\r".to_vec());
    assert_eq!(run_request(&mut conn, &mut store, b"GET bar\r"), b"hello\r".to_vec());
}

#[test]
fn scenario_get_missing_is_nil() {
    let mut store = Store::new();
    let mut conn = Connection::new(0);
    assert_eq!(run_request(&mut conn, &mut store, b"GET missing\r"), b"\r".to_vec());
}

#[test]
fn scenario_bad_integer_keeps_connection_usable() {
    let mut store = Store::new();
    let mut conn = Connection::new(0);
    assert_eq!(run_request(&mut conn, &mut store, b"SET x :abc\r"), b"-bad integer\r".to_vec());
    assert_eq!(run_request(&mut conn, &mut store, b"SET x :1\r"), b":1\r".to_vec());
    assert_eq!(run_request(&mut conn, &mut store, b"GET x\r"), b":1\r".to_vec());
}

#[test]
fn scenario_unknown_operation_keeps_connection_open() {
    let mut store = Store::new();
    let mut conn = Connection::new(0);
    assert_eq!(run_request(&mut conn, &mut store, b"BOGUS foo\r"), b"-unknown op\r".to_vec());
    assert_eq!(run_request(&mut conn, &mut store, b"PING\r"), b"\r".to_vec());
}

#[test]
fn scenario_del_acknowledges_with_nil() {
    let mut store = Store::new();
    let mut conn = Connection::new(0);
    assert_eq!(run_request(&mut conn, &mut store, b"SET k :7\r"), b":7\r".to_vec());
    assert_eq!(run_request(&mut conn, &mut store, b"DEL k\r"), b"\r".to_vec());
    assert_eq!(run_request(&mut conn, &mut store, b"GET k\r"), b"\r".to_vec());
}

#[test]
fn split_read_decodes_like_single_read() {
    let mut store1 = Store::new();
    let mut conn1 = Connection::new(0);
    conn1.on_read(ReadEvent::Received(b"GET f".to_vec()));
    assert_eq!(conn1.state(), ConnState::AwaitingRequest);
    conn1.on_read(ReadEvent::Received(b"oo\r".to_vec()));
    assert_eq!(conn1.state(), ConnState::AwaitingDispatch);
    conn1.dispatch(&mut store1);
    let split_reply = conn1.pending_output();

    let mut store2 = Store::new();
    let mut conn2 = Connection::new(0);
    let whole_reply = run_request(&mut conn2, &mut store2, b"GET foo\r");
    assert_eq!(split_reply, whole_reply);
}

#[test]
fn pipelined_bytes_are_preserved() {
    let mut store = Store::new();
    let mut conn = Connection::new(0);
    conn.on_read(ReadEvent::Received(b"SET a :1\rGET a\r".to_vec()));
    assert_eq!(conn.state(), ConnState::AwaitingDispatch);
    conn.dispatch(&mut store);
    assert_eq!(conn.pending_output(), b":1\r".to_vec());
    conn.on_write(WriteEvent::Wrote(3));
    // The second request's bytes stayed buffered; one more byte is not
    // needed, but the machine reads before dispatching again.
    conn.on_read(ReadEvent::Received(b"PING\r".to_vec()));
    assert_eq!(conn.state(), ConnState::AwaitingDispatch);
    conn.dispatch(&mut store);
    assert_eq!(conn.pending_output(), b":1\r".to_vec());
}

#[test]
fn partial_writes_deliver_byte_for_byte() {
    let mut store = Store::new();
    let mut conn = Connection::new(0);
    conn.on_read(ReadEvent::Received(b"SET long string-of-some-length\r".to_vec()));
    conn.dispatch(&mut store);
    let whole = conn.pending_output();
    assert_eq!(whole, b"string-of-some-length\r".to_vec());

    let mut delivered: Vec<u8> = Vec::new();
    for chunk in [1usize, 5, 9] {
        assert_eq!(conn.state(), ConnState::AwaitingFlush);
        let pending = conn.pending_output();
        delivered.extend_from_slice(&pending[..chunk]);
        conn.on_write(WriteEvent::Wrote(chunk));
    }
    assert_eq!(conn.state(), ConnState::AwaitingFlush);
    let pending = conn.pending_output();
    delivered.extend_from_slice(&pending);
    conn.on_write(WriteEvent::Wrote(pending.len()));
    assert_eq!(conn.state(), ConnState::AwaitingRequest);
    assert_eq!(delivered, whole);
}

#[test]
fn would_block_is_a_no_op() {
    let mut conn = Connection::new(9);
    conn.on_read(ReadEvent::WouldBlock);
    assert_eq!(conn.state(), ConnState::AwaitingRequest);
    assert_eq!(conn.last_active(), 9);
}

#[test]
fn peer_close_and_errors_close_connection() {
    let mut conn = Connection::new(0);
    conn.on_read(ReadEvent::Received(Vec::new()));
    assert_eq!(conn.state(), ConnState::Closed);

    let mut conn2 = Connection::new(0);
    conn2.on_read(ReadEvent::Failed);
    assert_eq!(conn2.state(), ConnState::Closed);

    let mut store = Store::new();
    let mut conn3 = Connection::new(0);
    conn3.on_read(ReadEvent::Received(b"PING\r".to_vec()));
    conn3.dispatch(&mut store);
    conn3.on_write(WriteEvent::Failed);
    assert_eq!(conn3.state(), ConnState::Closed);
}

#[test]
fn next_action_follows_state() {
    let mut store = Store::new();
    let mut conn = Connection::new(0);
    assert_eq!(conn.next_action(), IoAction::NeedRead);
    conn.on_read(ReadEvent::Received(b"PING\r".to_vec()));
    assert_eq!(conn.next_action(), IoAction::RunDispatch);
    conn.dispatch(&mut store);
    assert_eq!(conn.next_action(), IoAction::NeedWrite);
    conn.on_write(WriteEvent::Failed);
    assert_eq!(conn.next_action(), IoAction::NoAction);
}

#[test]
fn touch_updates_last_active() {
    let mut conn = Connection::new(1);
    conn.touch(5);
    assert_eq!(conn.last_active(), 5);
    assert_eq!(conn.state(), ConnState::AwaitingRequest);
}
