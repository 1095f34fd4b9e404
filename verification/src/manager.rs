//! The connection manager: the set of live connections, keyed by a
//! stable identifier, and the reconciliation of closed ones.
//!
//! Connections are never removed while a tick is scanning them: a pass
//! first observes which have reached the terminal state, and removal
//! happens afterwards, by identifier, so the positions of not-yet
//! visited entries stay valid.

use vstd::prelude::*;
use crate::conn::{conn_wf, ConnState, Connection};

verus! {

/// A live connection under its stable identifier.
pub struct ManagedConn {
    pub id: u64,
    pub conn: Connection,
}

/// Owns all live connections and hands out fresh identifiers.
pub struct ConnectionManager {
    pub conns: Vec<ManagedConn>,
    pub next_id: u64,
}

/// Whether this entry's connection has not reached the terminal state.
pub open spec fn is_live(mc: ManagedConn) -> bool {
    !(mc.conn@.state is Closed)
}

/// The entries that survive a reconciliation pass, in their order.
pub open spec fn live_only(s: Seq<ManagedConn>) -> Seq<ManagedConn>
    decreases s.len(),
{
    if s.len() == 0 {
        s
    } else if is_live(s[0]) {
        seq![s[0]] + live_only(s.skip(1))
    } else {
        live_only(s.skip(1))
    }
}

/// The identifiers of the entries a reconciliation pass removes, in
/// their order.
pub open spec fn closed_ids(s: Seq<ManagedConn>) -> Seq<u64>
    decreases s.len(),
{
    if s.len() == 0 {
        Seq::empty()
    } else if is_live(s[0]) {
        closed_ids(s.skip(1))
    } else {
        seq![s[0].id] + closed_ids(s.skip(1))
    }
}

/// Reaping keeps exactly the entries that are not closed, each one
/// untouched: an entry survives if and only if it was there and live.
pub proof fn lemma_reap_exact(s: Seq<ManagedConn>, mc: ManagedConn)
    ensures
        live_only(s).contains(mc) <==> s.contains(mc) && is_live(mc),
    decreases s.len(),
{
    if s.len() > 0 {
        lemma_reap_exact(s.skip(1), mc);
        if s.contains(mc) && is_live(mc) {
            let w = choose|w: int| 0 <= w < s.len() && s[w] == mc;
            if w == 0 {
                if is_live(s[0]) {
                    assert(live_only(s)[0] == mc);
                }
            } else {
                assert(s.skip(1)[w - 1] == mc);
                assert(s.skip(1).contains(mc));
                let v = choose|v: int| 0 <= v < live_only(s.skip(1)).len() && live_only(
                    s.skip(1),
                )[v] == mc;
                if is_live(s[0]) {
                    assert(live_only(s)[v + 1] == mc);
                }
            }
        }
        if live_only(s).contains(mc) {
            let w = choose|w: int| 0 <= w < live_only(s).len() && live_only(s)[w] == mc;
            if is_live(s[0]) {
                if w == 0 {
                    assert(s[0] == mc);
                } else {
                    assert(live_only(s.skip(1))[w - 1] == mc);
                    assert(live_only(s.skip(1)).contains(mc));
                    let v = choose|v: int| 0 <= v < s.skip(1).len() && s.skip(1)[v] == mc;
                    assert(s[v + 1] == mc);
                }
            } else {
                assert(live_only(s.skip(1))[w] == mc);
                assert(live_only(s.skip(1)).contains(mc));
                let v = choose|v: int| 0 <= v < s.skip(1).len() && s.skip(1)[v] == mc;
                assert(s[v + 1] == mc);
            }
        }
    }
}

impl ConnectionManager {
    /// Identifiers are unique, below the next fresh one, and every
    /// held connection satisfies its own invariant.
    pub open spec fn wf(&self) -> bool {
        &&& forall|i: int, j: int|
            0 <= i < j < self.conns@.len() ==> self.conns@[i].id != self.conns@[j].id
        &&& forall|i: int| 0 <= i < self.conns@.len() ==> #[trigger] self.conns@[i].id
            < self.next_id
        &&& forall|i: int| 0 <= i < self.conns@.len() ==> conn_wf(#[trigger] self.conns@[i].conn@)
    }

    /// Creates a manager with no connections.
    pub fn new() -> (m: ConnectionManager)
        ensures
            m.wf(),
            m.conns@ == Seq::<ManagedConn>::empty(),
            m.next_id == 0,
    {
        let m = ConnectionManager { conns: Vec::new(), next_id: 0 };
        proof {
            assert(m.conns@ =~= Seq::<ManagedConn>::empty());
        }
        m
    }

    /// Registers a just-accepted connection under a fresh identifier;
    /// it starts by awaiting the client's first request line.
    pub fn accept(&mut self, now: u64) -> (id: u64)
        requires
            old(self).wf(),
            old(self).next_id < u64::MAX,
        ensures
            final(self).wf(),
            id == old(self).next_id,
            final(self).next_id == old(self).next_id + 1,
            final(self).conns@.len() == old(self).conns@.len() + 1,
            final(self).conns@.subrange(0, old(self).conns@.len() as int) == old(self).conns@,
            final(self).conns@.last().id == id,
            final(self).conns@.last().conn@.state is AwaitingRequest,
            final(self).conns@.last().conn@.inbound.len() == 0,
            final(self).conns@.last().conn@.outbound.len() == 0,
            final(self).conns@.last().conn@.last_active == now,
    {
        let id = self.next_id;
        self.next_id = self.next_id + 1;
        let ghost pre = self.conns@;
        self.conns.push(ManagedConn { id, conn: Connection::new(now) });
        proof {
            assert(self.conns@.subrange(0, pre.len() as int) =~= pre);
            assert(forall|i: int| 0 <= i < pre.len() ==> self.conns@[i] == pre[i]);
        }
        id
    }

    /// How many connections are live.
    pub fn len(&self) -> (n: usize)
        ensures
            n == self.conns@.len(),
    {
        self.conns.len()
    }

    /// Two-phase reconciliation: removes exactly the connections that
    /// have reached the terminal state, preserves every other entry and
    /// their order, and returns the removed identifiers in order.
    pub fn reap_closed(&mut self) -> (removed: Vec<u64>)
        requires
            old(self).wf(),
        ensures
            final(self).wf(),
            final(self).conns@ == live_only(old(self).conns@),
            removed@ == closed_ids(old(self).conns@),
            final(self).next_id == old(self).next_id,
    {
        let mut kept: Vec<ManagedConn> = Vec::new();
        let mut removed: Vec<u64> = Vec::new();
        proof {
            assert(kept@ + live_only(self.conns@) =~= live_only(old(self).conns@));
            assert(removed@ + closed_ids(self.conns@) =~= closed_ids(old(self).conns@));
        }
        while self.conns.len() > 0
            invariant
                live_only(old(self).conns@) == kept@ + live_only(self.conns@),
                closed_ids(old(self).conns@) == removed@ + closed_ids(self.conns@),
                self.next_id == old(self).next_id,
                forall|i: int, j: int|
                    0 <= i < j < self.conns@.len() ==> self.conns@[i].id != self.conns@[j].id,
                forall|i: int| 0 <= i < self.conns@.len() ==> #[trigger] self.conns@[i].id
                    < self.next_id,
                forall|i: int|
                    0 <= i < self.conns@.len() ==> conn_wf(#[trigger] self.conns@[i].conn@),
                forall|i: int, j: int|
                    0 <= i < j < kept@.len() ==> kept@[i].id != kept@[j].id,
                forall|i: int| 0 <= i < kept@.len() ==> #[trigger] kept@[i].id < self.next_id,
                forall|i: int| 0 <= i < kept@.len() ==> conn_wf(#[trigger] kept@[i].conn@),
                forall|i: int, j: int|
                    0 <= i < kept@.len() && 0 <= j < self.conns@.len() ==> kept@[i].id
                        != self.conns@[j].id,
            decreases self.conns@.len(),
        {
            let ghost s = self.conns@;
            let mc = self.conns.remove(0);
            proof {
                assert(mc == s[0]);
                assert(self.conns@ =~= s.skip(1));
            }
            let ghost kept_pre = kept@;
            let ghost removed_pre = removed@;
            if matches!(mc.conn.state(), ConnState::Closed) {
                proof {
                    assert(!is_live(mc));
                    assert(live_only(s) == live_only(s.skip(1)));
                    assert(closed_ids(s) == seq![s[0].id] + closed_ids(s.skip(1)));
                }
                removed.push(mc.id);
                proof {
                    assert(removed@ =~= removed_pre.push(mc.id));
                    assert(removed_pre.push(mc.id) + closed_ids(self.conns@) =~= removed_pre + (
                    seq![mc.id] + closed_ids(self.conns@)));
                }
            } else {
                proof {
                    assert(is_live(mc));
                    assert(live_only(s) == seq![s[0]] + live_only(s.skip(1)));
                    assert(closed_ids(s) == closed_ids(s.skip(1)));
                }
                kept.push(mc);
                proof {
                    assert(kept@ =~= kept_pre.push(mc));
                    assert(kept_pre.push(mc) + live_only(self.conns@) =~= kept_pre + (seq![mc]
                        + live_only(self.conns@)));
                }
            }
        }
        proof {
            assert(self.conns@.len() == 0);
            assert(live_only(self.conns@) =~= Seq::<ManagedConn>::empty());
            assert(closed_ids(self.conns@) =~= Seq::<u64>::empty());
            assert(kept@ + live_only(self.conns@) =~= kept@);
            assert(removed@ + closed_ids(self.conns@) =~= removed@);
        }
        self.conns = kept;
        removed
    }
}

} // verus!
