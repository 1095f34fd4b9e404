use tinykv::conn::{ConnState, ReadEvent, WriteEvent};
use tinykv::manager::ConnectionManager;
use tinykv::store::Store;

#[test]
fn accept_hands_out_fresh_identifiers() {
    let mut mgr = ConnectionManager::new();
    assert_eq!(mgr.accept(0), 0);
    assert_eq!(mgr.accept(0), 1);
    assert_eq!(mgr.accept(0), 2);
    assert_eq!(mgr.len(), 3);
    assert_eq!(mgr.conns[2].id, 2);
    assert_eq!(mgr.conns[2].conn.state(), ConnState::AwaitingRequest);
}

#[test]
fn reap_on_all_live_removes_nothing() {
    let mut mgr = ConnectionManager::new();
    mgr.accept(0);
    mgr.accept(0);
    let removed = mgr.reap_closed();
    assert!(removed.is_empty());
    assert_eq!(mgr.len(), 2);
}

#[test]
fn reap_removes_exactly_the_closed_connections() {
    let mut mgr = ConnectionManager::new();
    for _ in 0..4 {
        mgr.accept(7);
    }
    // Give the survivor some buffered state before anything closes.
    let mut store = Store::new();
    mgr.conns[1].conn.on_read(ReadEvent::Received(b"SET a :1\r".to_vec()));
    mgr.conns[1].conn.dispatch(&mut store);

    // Close three connections in the same tick, in different ways.
    mgr.conns[0].conn.on_read(ReadEvent::Failed);
    mgr.conns[2].conn.on_read(ReadEvent::Received(Vec::new()));
    mgr.conns[3].conn.on_read(ReadEvent::Failed);

    let removed = mgr.reap_closed();
    assert_eq!(removed, vec![0, 2, 3]);
    assert_eq!(mgr.len(), 1);

    // The survivor kept its identifier, state and buffers untouched.
    assert_eq!(mgr.conns[0].id, 1);
    assert_eq!(mgr.conns[0].conn.state(), ConnState::AwaitingFlush);
    assert_eq!(mgr.conns[0].conn.pending_output(), b":1\r".to_vec());
    mgr.conns[0].conn.on_write(WriteEvent::Wrote(3));
    assert_eq!(mgr.conns[0].conn.state(), ConnState::AwaitingRequest);
}

#[test]
fn identifiers_stay_fresh_after_reaping() {
    let mut mgr = ConnectionManager::new();
    mgr.accept(0);
    mgr.conns[0].conn.on_read(ReadEvent::Failed);
    let removed = mgr.reap_closed();
    assert_eq!(removed, vec![0]);
    assert_eq!(mgr.accept(0), 1);
}
