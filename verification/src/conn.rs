//! One client connection: its buffers, its state tag, and the state
//! machine that makes non-blocking progress each tick.
//!
//! The socket itself lives outside; each tick the caller performs the
//! non-blocking read or write the current state asks for and hands the
//! outcome in as an event. Every transition of the table is a verified
//! step over the connection's model.

use vstd::prelude::*;
use crate::codec::{
    decode_request, decode_request_spec, encode_reply, encode_reply_spec, find_delim, first_occ,
    is_complete, lemma_first_occ, line_complete, Reply, ReplyError, ReplyV, Request, RequestV,
    DELIM,
};
use crate::store::Store;
use crate::value::{decode_value, decode_value_spec, ValueV};

verus! {

/// The mode a connection is in; `Closed` is terminal.
#[derive(Clone, Copy, PartialEq, Eq, Structural, Debug)]
pub enum ConnState {
    AwaitingRequest,
    AwaitingDispatch,
    AwaitingFlush,
    Closed,
}

/// One accepted client connection.
pub struct Connection {
    state: ConnState,
    inbound: Vec<u8>,
    outbound: Vec<u8>,
    cursor: usize,
    last_active: u64,
}

/// Mathematical model of a [`Connection`].
#[verifier::ext_equal]
pub struct ConnView {
    pub state: ConnState,
    pub inbound: Seq<u8>,
    pub outbound: Seq<u8>,
    pub cursor: int,
    pub last_active: u64,
}

impl View for Connection {
    type V = ConnView;

    closed spec fn view(&self) -> ConnView {
        ConnView {
            state: self.state,
            inbound: self.inbound@,
            outbound: self.outbound@,
            cursor: self.cursor as int,
            last_active: self.last_active,
        }
    }
}

/// The connection's invariant: the write cursor never passes the
/// outbound buffer; a connection awaiting dispatch holds a complete
/// line; one awaiting a request has nothing left to flush.
pub open spec fn conn_wf(c: ConnView) -> bool {
    &&& 0 <= c.cursor <= c.outbound.len()
    &&& (c.state is AwaitingDispatch ==> line_complete(c.inbound))
    &&& (c.state is AwaitingRequest ==> c.outbound.len() == 0 && c.cursor == 0)
}

/// Outcome of one non-blocking read attempt, as the caller saw it.
/// Zero bytes received with no error means the peer closed.
pub enum ReadEvent {
    Received(Vec<u8>),
    WouldBlock,
    Failed,
}

/// Mathematical model of a [`ReadEvent`].
pub enum ReadEventV {
    Received(Seq<u8>),
    WouldBlock,
    Failed,
}

impl View for ReadEvent {
    type V = ReadEventV;

    open spec fn view(&self) -> ReadEventV {
        match self {
            ReadEvent::Received(d) => ReadEventV::Received(d@),
            ReadEvent::WouldBlock => ReadEventV::WouldBlock,
            ReadEvent::Failed => ReadEventV::Failed,
        }
    }
}

/// Outcome of one non-blocking write attempt: how many bytes the peer
/// took, or no capacity, or a fatal error.
#[derive(Clone, Copy, PartialEq, Eq, Structural, Debug)]
pub enum WriteEvent {
    Wrote(usize),
    WouldBlock,
    Failed,
}

/// The read transition: peer closure and fatal errors close the
/// connection; received bytes are appended, and a complete line moves
/// the connection on to dispatch; would-block is a no-op.
pub open spec fn read_step(c: ConnView, ev: ReadEventV) -> ConnView {
    match ev {
        ReadEventV::Received(d) => {
            if d.len() == 0 {
                ConnView { state: ConnState::Closed, ..c }
            } else {
                let nb = c.inbound + d;
                ConnView {
                    state: if line_complete(nb) {
                        ConnState::AwaitingDispatch
                    } else {
                        ConnState::AwaitingRequest
                    },
                    inbound: nb,
                    ..c
                }
            }
        }
        ReadEventV::WouldBlock => c,
        ReadEventV::Failed => ConnView { state: ConnState::Closed, ..c },
    }
}

/// The reply a request earns against a given key space: a get of an
/// absent key, a ping, and a delete acknowledge with nil; a successful
/// set echoes the value it stored, type prefix and all.
pub open spec fn exec_request_reply(r: RequestV, m: Map<Seq<u8>, ValueV>) -> ReplyV {
    match r {
        RequestV::Ping => ReplyV::Nil,
        RequestV::Get(k) => if m.contains_key(k) {
            ReplyV::Value(m[k])
        } else {
            ReplyV::Nil
        },
        RequestV::Del(k) => ReplyV::Nil,
        RequestV::SetKv(k, v) => match decode_value_spec(v) {
            Ok(val) => ReplyV::Value(val),
            Err(e) => ReplyV::Error(ReplyError::Decode(e)),
        },
    }
}

/// The key space a request leaves behind.
pub open spec fn exec_request_map(r: RequestV, m: Map<Seq<u8>, ValueV>) -> Map<Seq<u8>, ValueV> {
    match r {
        RequestV::Ping => m,
        RequestV::Get(k) => m,
        RequestV::Del(k) => m.remove(k),
        RequestV::SetKv(k, v) => match decode_value_spec(v) {
            Ok(val) => m.insert(k, val),
            Err(e) => m,
        },
    }
}

/// Executes a decoded request against the store and forms the reply.
pub fn execute_request(req: &Request, store: &mut Store) -> (r: Reply)
    requires
        old(store).wf(),
    ensures
        final(store).wf(),
        r@ == exec_request_reply(req@, old(store)@),
        final(store)@ == exec_request_map(req@, old(store)@),
{
    match req {
        Request::Ping => Reply::Nil,
        Request::Get(k) => match store.get(k.as_slice()) {
            Some(v) => Reply::Value(v.clone()),
            None => Reply::Nil,
        },
        Request::Del(k) => {
            store.delete(k.as_slice());
            Reply::Nil
        }
        Request::SetKv(k, v) => match decode_value(v.as_slice()) {
            Ok(val) => {
                let res = store.set(k.as_slice(), v.as_slice());
                proof {
                    assert(res is Ok);
                }
                Reply::Value(val)
            }
            Err(e) => Reply::Error(ReplyError::Decode(e)),
        },
    }
}

/// The reply a whole request line earns: a decode failure is itself
/// replied to, it never closes the connection.
pub open spec fn line_reply_spec(line: Seq<u8>, m: Map<Seq<u8>, ValueV>) -> ReplyV {
    match decode_request_spec(line) {
        Ok(r) => exec_request_reply(r, m),
        Err(e) => ReplyV::Error(ReplyError::Protocol(e)),
    }
}

/// The key space a whole request line leaves behind.
pub open spec fn line_map_spec(line: Seq<u8>, m: Map<Seq<u8>, ValueV>) -> Map<Seq<u8>, ValueV> {
    match decode_request_spec(line) {
        Ok(r) => exec_request_map(r, m),
        Err(e) => m,
    }
}

/// The dispatch transition: the first line is consumed — bytes past
/// the delimiter stay for the next request — its reply is encoded into
/// the outbound buffer, and the connection turns to flushing.
pub open spec fn dispatch_step(c: ConnView, m: Map<Seq<u8>, ValueV>) -> (ConnView, Map<
    Seq<u8>,
    ValueV,
>)
    recommends
        line_complete(c.inbound),
{
    let i = first_occ(c.inbound, DELIM);
    let line = c.inbound.take(i);
    let rest = c.inbound.skip(i + 1);
    (
        ConnView {
            state: ConnState::AwaitingFlush,
            inbound: rest,
            outbound: encode_reply_spec(line_reply_spec(line, m)),
            cursor: 0,
            ..c
        },
        line_map_spec(line, m),
    )
}

/// The write transition: written bytes advance the cursor; once the
/// whole buffer is out it is cleared and the connection awaits the next
/// request; would-block is a no-op, a fatal error closes.
pub open spec fn write_step(c: ConnView, ev: WriteEvent) -> ConnView {
    match ev {
        WriteEvent::Wrote(n) => {
            if c.cursor + n == c.outbound.len() {
                ConnView {
                    state: ConnState::AwaitingRequest,
                    outbound: Seq::empty(),
                    cursor: 0,
                    ..c
                }
            } else {
                ConnView { cursor: c.cursor + n, ..c }
            }
        }
        WriteEvent::WouldBlock => c,
        WriteEvent::Failed => ConnView { state: ConnState::Closed, ..c },
    }
}

/// What one scheduling tick should do for a connection: the decision
/// side of servicing, with the I/O itself left to the caller.
#[derive(Clone, Copy, PartialEq, Eq, Structural, Debug)]
pub enum IoAction {
    NeedRead,
    RunDispatch,
    NeedWrite,
    NoAction,
}

/// The action each state asks for on its tick.
pub open spec fn action_of(s: ConnState) -> IoAction {
    match s {
        ConnState::AwaitingRequest => IoAction::NeedRead,
        ConnState::AwaitingDispatch => IoAction::RunDispatch,
        ConnState::AwaitingFlush => IoAction::NeedWrite,
        ConnState::Closed => IoAction::NoAction,
    }
}

impl Connection {
    /// Decides what this connection's tick must attempt.
    pub fn next_action(&self) -> (a: IoAction)
        ensures
            a == action_of(self@.state),
    {
        match self.state {
            ConnState::AwaitingRequest => IoAction::NeedRead,
            ConnState::AwaitingDispatch => IoAction::RunDispatch,
            ConnState::AwaitingFlush => IoAction::NeedWrite,
            ConnState::Closed => IoAction::NoAction,
        }
    }

    /// Creates a connection for a just-accepted socket: request-driven,
    /// so it starts by awaiting the client's first line.
    pub fn new(now: u64) -> (c: Connection)
        ensures
            c@ == (ConnView {
                state: ConnState::AwaitingRequest,
                inbound: Seq::empty(),
                outbound: Seq::empty(),
                cursor: 0,
                last_active: now,
            }),
            conn_wf(c@),
    {
        let c = Connection {
            state: ConnState::AwaitingRequest,
            inbound: Vec::new(),
            outbound: Vec::new(),
            cursor: 0,
            last_active: now,
        };
        proof {
            assert(c@ =~= (ConnView {
                state: ConnState::AwaitingRequest,
                inbound: Seq::empty(),
                outbound: Seq::empty(),
                cursor: 0,
                last_active: now,
            }));
        }
        c
    }

    /// The connection's current state tag.
    pub fn state(&self) -> (s: ConnState)
        ensures
            s == self@.state,
    {
        self.state
    }

    /// The last-activity timestamp (kept for idle-timeout policy).
    pub fn last_active(&self) -> (t: u64)
        ensures
            t == self@.last_active,
    {
        self.last_active
    }

    /// Records activity at `now`; nothing else changes.
    pub fn touch(&mut self, now: u64)
        ensures
            final(self)@ == (ConnView { last_active: now, ..old(self)@ }),
    {
        self.last_active = now;
        proof {
            assert(self@ =~= (ConnView { last_active: now, ..old(self)@ }));
        }
    }

    /// Applies the outcome of one non-blocking read attempt.
    pub fn on_read(&mut self, ev: ReadEvent)
        requires
            old(self)@.state is AwaitingRequest,
            conn_wf(old(self)@),
        ensures
            final(self)@ == read_step(old(self)@, ev@),
            conn_wf(final(self)@),
    {
        match ev {
            ReadEvent::Received(d) => {
                if d.len() == 0 {
                    self.state = ConnState::Closed;
                } else {
                    let mut d = d;
                    self.inbound.append(&mut d);
                    if is_complete(self.inbound.as_slice()) {
                        self.state = ConnState::AwaitingDispatch;
                    }
                }
            }
            ReadEvent::WouldBlock => {}
            ReadEvent::Failed => {
                self.state = ConnState::Closed;
            }
        }
        proof {
            assert(self@ =~= read_step(old(self)@, ev@));
        }
    }

    /// Consumes the buffered line, runs it against the store, and loads
    /// the encoded reply for flushing. A malformed request produces an
    /// error reply and keeps the connection alive.
    pub fn dispatch(&mut self, store: &mut Store)
        requires
            old(self)@.state is AwaitingDispatch,
            conn_wf(old(self)@),
            old(store).wf(),
        ensures
            final(self)@ == dispatch_step(old(self)@, old(store)@).0,
            final(store)@ == dispatch_step(old(self)@, old(store)@).1,
            conn_wf(final(self)@),
            final(store).wf(),
    {
        proof {
            lemma_first_occ(self.inbound@, DELIM);
        }
        let n = self.inbound.len();
        let idx = find_delim(self.inbound.as_slice());
        proof {
            assert(self.inbound@.contains(DELIM));
            assert(idx < n);
        }
        let line = vstd::slice::slice_to_vec(
            vstd::slice::slice_subrange(self.inbound.as_slice(), 0, idx),
        );
        proof {
            assert(line@ =~= self.inbound@.take(idx as int));
        }
        let rest = vstd::slice::slice_to_vec(
            vstd::slice::slice_subrange(self.inbound.as_slice(), idx + 1, n),
        );
        proof {
            assert(rest@ =~= self.inbound@.skip(idx + 1));
        }
        let reply = match decode_request(line.as_slice()) {
            Ok(req) => execute_request(&req, store),
            Err(e) => Reply::Error(ReplyError::Protocol(e)),
        };
        self.outbound = encode_reply(&reply);
        self.cursor = 0;
        self.inbound = rest;
        self.state = ConnState::AwaitingFlush;
        proof {
            assert(self@ =~= dispatch_step(old(self)@, old(store)@).0);
        }
    }

    /// The bytes still to be flushed, from the cursor on.
    pub fn pending_output(&self) -> (r: Vec<u8>)
        requires
            conn_wf(self@),
        ensures
            r@ == self@.outbound.skip(self@.cursor),
    {
        vstd::slice::slice_to_vec(
            vstd::slice::slice_subrange(self.outbound.as_slice(), self.cursor, self.outbound.len()),
        )
    }

    /// Applies the outcome of one non-blocking write attempt on the
    /// pending bytes.
    pub fn on_write(&mut self, ev: WriteEvent)
        requires
            old(self)@.state is AwaitingFlush,
            conn_wf(old(self)@),
            ev matches WriteEvent::Wrote(n) ==> old(self)@.cursor + n <= old(self)@.outbound.len(),
        ensures
            final(self)@ == write_step(old(self)@, ev),
            conn_wf(final(self)@),
    {
        match ev {
            WriteEvent::Wrote(n) => {
                let l = self.outbound.len();
                self.cursor = self.cursor + n;
                if self.cursor == self.outbound.len() {
                    self.outbound = Vec::new();
                    self.cursor = 0;
                    self.state = ConnState::AwaitingRequest;
                }
            }
            WriteEvent::WouldBlock => {}
            WriteEvent::Failed => {
                self.state = ConnState::Closed;
            }
        }
        proof {
            assert(self@ =~= write_step(old(self)@, ev));
        }
    }
}

/// A request split across several reads is decoded exactly as one
/// delivered whole: as long as no read completes the line, appending
/// piecewise and appending all at once reach the same connection.
pub proof fn lemma_split_read(c: ConnView, d1: Seq<u8>, d2: Seq<u8>)
    requires
        c.state is AwaitingRequest,
        d1.len() > 0,
        d2.len() > 0,
        !line_complete(c.inbound + d1),
    ensures
        read_step(read_step(c, ReadEventV::Received(d1)), ReadEventV::Received(d2)) == read_step(
            c,
            ReadEventV::Received(d1 + d2),
        ),
{
    let mid = read_step(c, ReadEventV::Received(d1));
    assert(mid.inbound + d2 =~= c.inbound + (d1 + d2));
    assert(read_step(mid, ReadEventV::Received(d2)) =~= read_step(
        c,
        ReadEventV::Received(d1 + d2),
    ));
}

/// A reply longer than one write attempt is delivered across several
/// flush ticks byte-for-byte as a single write would deliver it: two
/// partial writes move the connection exactly as their sum, and the
/// bytes they hand out concatenate to the same range.
pub proof fn lemma_split_write(c: ConnView, n1: usize, n2: usize)
    requires
        c.state is AwaitingFlush,
        conn_wf(c),
        c.outbound.len() <= usize::MAX,
        c.cursor + n1 < c.outbound.len(),
        c.cursor + n1 + n2 <= c.outbound.len(),
    ensures
        write_step(write_step(c, WriteEvent::Wrote(n1)), WriteEvent::Wrote(n2)) == write_step(
            c,
            WriteEvent::Wrote((n1 + n2) as usize),
        ),
        c.outbound.subrange(c.cursor, c.cursor + n1) + c.outbound.subrange(
            c.cursor + n1,
            c.cursor + n1 + n2,
        ) == c.outbound.subrange(c.cursor, c.cursor + n1 + n2),
{
    let mid = write_step(c, WriteEvent::Wrote(n1));
    assert(write_step(mid, WriteEvent::Wrote(n2)) =~= write_step(
        c,
        WriteEvent::Wrote((n1 + n2) as usize),
    ));
    assert(c.outbound.subrange(c.cursor, c.cursor + n1) + c.outbound.subrange(
        c.cursor + n1,
        c.cursor + n1 + n2,
    ) =~= c.outbound.subrange(c.cursor, c.cursor + n1 + n2));
}

/// A write of everything still pending completes the flush: the
/// connection returns to awaiting a request with an empty buffer.
pub proof fn lemma_flush_completes(c: ConnView)
    requires
        c.state is AwaitingFlush,
        conn_wf(c),
        c.outbound.len() <= usize::MAX,
    ensures
        write_step(c, WriteEvent::Wrote((c.outbound.len() - c.cursor) as usize)).state
            is AwaitingRequest,
        c.outbound.subrange(c.cursor, c.outbound.len() as int) == c.outbound.skip(c.cursor),
{
    assert(c.outbound.subrange(c.cursor, c.outbound.len() as int) =~= c.outbound.skip(c.cursor));
}

} // verus!
