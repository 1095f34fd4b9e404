//! The line protocol: framing, request decoding, reply encoding.
//!
//! One request per line, terminated by a single carriage-return byte.
//! A line is space-separated tokens: the operation name first, then its
//! positional arguments.

use vstd::prelude::*;
use crate::value::{
    decode_value_spec, encode_value, encode_value_spec, DecodeError, Value, ValueV, INT_PREFIX,
};

verus! {

/// Byte that terminates a request line and a reply (ASCII carriage return).
pub const DELIM: u8 = 13;

/// Byte that separates the tokens of a request line (ASCII space).
pub const SP: u8 = 32;

/// Longest operation name the protocol accepts, in bytes.
pub const MAX_OP_LEN: usize = 8;

/// Index of the first occurrence of `b` in `s`, or `s.len()` if absent.
pub open spec fn first_occ(s: Seq<u8>, b: u8) -> int
    decreases s.len(),
{
    if s.len() == 0 {
        0
    } else if s[0] == b {
        0
    } else {
        1 + first_occ(s.skip(1), b)
    }
}

/// `first_occ` is in bounds, hits `b`, and nothing before it is `b`.
pub proof fn lemma_first_occ(s: Seq<u8>, b: u8)
    ensures
        0 <= first_occ(s, b) <= s.len(),
        first_occ(s, b) < s.len() ==> s[first_occ(s, b)] == b,
        forall|j: int| 0 <= j < first_occ(s, b) ==> s[j] != b,
        s.contains(b) ==> first_occ(s, b) < s.len(),
    decreases s.len(),
{
    if s.len() == 0 {
    } else if s[0] == b {
    } else {
        lemma_first_occ(s.skip(1), b);
        assert forall|j: int| 0 <= j < first_occ(s, b) implies s[j] != b by {
            if j > 0 {
                assert(s.skip(1)[j - 1] == s[j]);
            }
        }
        if s.contains(b) {
            let w = choose|w: int| 0 <= w < s.len() && s[w] == b;
            assert(s.skip(1)[w - 1] == b);
            assert(s.skip(1).contains(b));
        }
    }
}

/// Whether the buffered bytes hold at least one complete request line.
pub open spec fn line_complete(b: Seq<u8>) -> bool {
    b.contains(DELIM)
}

/// Framing scan: true exactly when the delimiter occurs in `buf`.
pub fn is_complete(buf: &[u8]) -> (r: bool)
    ensures
        r == line_complete(buf@),
{
    let mut i: usize = 0;
    while i < buf.len()
        invariant
            0 <= i <= buf@.len(),
            forall|j: int| 0 <= j < i ==> buf@[j] != DELIM,
        decreases buf@.len() - i,
    {
        if *vstd::slice::slice_index_get(buf, i) == DELIM {
            assert(line_complete(buf@)) by {
                assert(buf@[i as int] == DELIM);
            }
            return true;
        }
        i += 1;
    }
    false
}

/// Finds the first delimiter in `buf`.
#[verifier::loop_isolation(false)]
pub fn find_delim(buf: &[u8]) -> (r: usize)
    ensures
        r == first_occ(buf@, DELIM),
{
    proof {
        lemma_first_occ(buf@, DELIM);
    }
    let mut i: usize = 0;
    while i < buf.len()
        invariant
            0 <= i <= buf@.len(),
            forall|j: int| 0 <= j < i ==> buf@[j] != DELIM,
        decreases buf@.len() - i,
    {
        if *vstd::slice::slice_index_get(buf, i) == DELIM {
            proof {
                let f = first_occ(buf@, DELIM);
                if f < i {
                    assert(buf@[f] != DELIM);
                } else if f > i {
                    assert(buf@[i as int] != DELIM);
                }
            }
            return i;
        }
        i += 1;
    }
    proof {
        let f = first_occ(buf@, DELIM);
        if f < buf@.len() {
            assert(buf@[f] != DELIM);
        }
    }
    i
}

/// The tokens of a line, split on every space byte; consecutive spaces
/// give empty tokens, as the wire format allows exactly one space
/// between tokens.
pub open spec fn split_sp(s: Seq<u8>) -> Seq<Seq<u8>>
    decreases s.len(),
{
    let i = first_occ(s, SP);
    if 0 <= i && i < s.len() {
        seq![s.take(i)] + split_sp(s.skip(i + 1))
    } else {
        seq![s]
    }
}

/// Splitting yields at least the one token.
pub proof fn lemma_split_sp_len(s: Seq<u8>)
    ensures
        split_sp(s).len() >= 1,
{
    lemma_first_occ(s, SP);
}

/// Splits a line into its space-separated tokens.
#[verifier::loop_isolation(false)]
pub fn split_spaces(s: &[u8]) -> (toks: Vec<Vec<u8>>)
    ensures
        toks.deep_view() == split_sp(s@),
{
    let mut toks: Vec<Vec<u8>> = Vec::new();
    let mut start: usize = 0;
    let mut i: usize = 0;
    proof {
        assert(toks.deep_view() =~= Seq::<Seq<u8>>::empty());
        assert(s@.skip(0) =~= s@);
        assert(Seq::<Seq<u8>>::empty() + split_sp(s@) =~= split_sp(s@));
    }
    while i < s.len()
        invariant
            0 <= start <= i <= s@.len(),
            forall|j: int| start <= j < i ==> s@[j] != SP,
            split_sp(s@) == toks.deep_view() + split_sp(s@.skip(start as int)),
        decreases s@.len() - i,
    {
        if *vstd::slice::slice_index_get(s, i) == SP {
            let ghost prev = toks.deep_view();
            let tok = vstd::slice::slice_subrange(s, start, i);
            let tok_v = vstd::slice::slice_to_vec(tok);
            proof {
                let rest = s@.skip(start as int);
                lemma_first_occ(rest, SP);
                let f = first_occ(rest, SP);
                assert(rest[i - start] == s@[i as int]);
                if f < i - start {
                    assert(rest[f] == s@[start + f]);
                    assert(false);
                }
                assert(f == i - start);
                assert(rest.take(f) =~= s@.subrange(start as int, i as int));
                assert(rest.skip(f + 1) =~= s@.skip(i + 1));
                assert(split_sp(rest) == seq![tok_v@] + split_sp(s@.skip(i + 1)));
            }
            toks.push(tok_v);
            proof {
                assert(toks.deep_view() =~~= prev.push(tok_v@));
                assert(toks.deep_view() + split_sp(s@.skip(i + 1)) =~= prev + (seq![tok_v@]
                    + split_sp(s@.skip(i + 1))));
            }
            start = i + 1;
        }
        i += 1;
    }
    let ghost prev = toks.deep_view();
    let tok = vstd::slice::slice_subrange(s, start, s.len());
    let tok_v = vstd::slice::slice_to_vec(tok);
    proof {
        let rest = s@.skip(start as int);
        lemma_first_occ(rest, SP);
        let f = first_occ(rest, SP);
        if f < rest.len() {
            assert(rest[f] == s@[start + f]);
            assert(false);
        }
        assert(split_sp(rest) == seq![rest]);
        assert(rest =~= s@.subrange(start as int, s@.len() as int));
    }
    toks.push(tok_v);
    proof {
        assert(toks.deep_view() =~~= prev.push(tok_v@));
        assert(prev.push(tok_v@) =~= prev + seq![tok_v@]);
    }
    toks
}

/// A decoded request.
#[derive(Debug, PartialEq, Eq)]
pub enum Request {
    Ping,
    Get(Vec<u8>),
    Del(Vec<u8>),
    SetKv(Vec<u8>, Vec<u8>),
}

/// Mathematical model of a [`Request`].
pub enum RequestV {
    Ping,
    Get(Seq<u8>),
    Del(Seq<u8>),
    SetKv(Seq<u8>, Seq<u8>),
}

impl View for Request {
    type V = RequestV;

    open spec fn view(&self) -> RequestV {
        match self {
            Request::Ping => RequestV::Ping,
            Request::Get(k) => RequestV::Get(k@),
            Request::Del(k) => RequestV::Del(k@),
            Request::SetKv(k, v) => RequestV::SetKv(k@, v@),
        }
    }
}

/// Error of decoding a request line.
#[derive(Clone, Copy, PartialEq, Eq, Structural, Debug)]
pub enum ProtocolError {
    UnknownOperation,
    WrongArity,
    OversizedOperation,
}

/// What a request can fail with; both kinds are surfaced to the client
/// as an error reply and leave the connection open.
#[derive(Clone, Copy, PartialEq, Eq, Structural, Debug)]
pub enum ReplyError {
    Protocol(ProtocolError),
    Decode(DecodeError),
}

/// A reply: a value payload, the nil acknowledgement, or an error.
#[derive(Debug, PartialEq, Eq)]
pub enum Reply {
    Value(Value),
    Nil,
    Error(ReplyError),
}

/// Mathematical model of a [`Reply`].
pub enum ReplyV {
    Value(ValueV),
    Nil,
    Error(ReplyError),
}

impl View for Reply {
    type V = ReplyV;

    open spec fn view(&self) -> ReplyV {
        match self {
            Reply::Value(v) => ReplyV::Value(v@),
            Reply::Nil => ReplyV::Nil,
            Reply::Error(e) => ReplyV::Error(*e),
        }
    }
}

/// The operation name `PING`.
pub open spec fn op_ping() -> Seq<u8> {
    seq![80, 73, 78, 71]
}

/// The operation name `GET`.
pub open spec fn op_get() -> Seq<u8> {
    seq![71, 69, 84]
}

/// The operation name `DEL`.
pub open spec fn op_del() -> Seq<u8> {
    seq![68, 69, 76]
}

/// The operation name `SET`.
pub open spec fn op_set() -> Seq<u8> {
    seq![83, 69, 84]
}

/// The meaning of a request line: its tokens are an operation name of
/// accepted length and the arity that operation asks for.
pub open spec fn decode_request_spec(line: Seq<u8>) -> Result<RequestV, ProtocolError> {
    let toks = split_sp(line);
    let op = toks[0];
    if op.len() > MAX_OP_LEN {
        Err(ProtocolError::OversizedOperation)
    } else if op == op_ping() {
        if toks.len() == 1 {
            Ok(RequestV::Ping)
        } else {
            Err(ProtocolError::WrongArity)
        }
    } else if op == op_get() {
        if toks.len() == 2 {
            Ok(RequestV::Get(toks[1]))
        } else {
            Err(ProtocolError::WrongArity)
        }
    } else if op == op_del() {
        if toks.len() == 2 {
            Ok(RequestV::Del(toks[1]))
        } else {
            Err(ProtocolError::WrongArity)
        }
    } else if op == op_set() {
        if toks.len() == 3 {
            Ok(RequestV::SetKv(toks[1], toks[2]))
        } else {
            Err(ProtocolError::WrongArity)
        }
    } else {
        Err(ProtocolError::UnknownOperation)
    }
}

/// Compares two byte strings.
pub fn bytes_eq(a: &[u8], b: &[u8]) -> (r: bool)
    ensures
        r == (a@ == b@),
{
    if a.len() != b.len() {
        return false;
    }
    let mut i: usize = 0;
    while i < a.len()
        invariant
            0 <= i <= a@.len(),
            a@.len() == b@.len(),
            forall|j: int| 0 <= j < i ==> a@[j] == b@[j],
        decreases a@.len() - i,
    {
        if *vstd::slice::slice_index_get(a, i) != *vstd::slice::slice_index_get(b, i) {
            return false;
        }
        i += 1;
    }
    proof {
        assert(a@ =~= b@);
    }
    true
}

/// Matches a token against a three-byte operation name.
fn is_op3(t: &Vec<u8>, b0: u8, b1: u8, b2: u8) -> (r: bool)
    ensures
        r == (t@ == seq![b0, b1, b2]),
{
    let r = t.len() == 3 && t[0] == b0 && t[1] == b1 && t[2] == b2;
    proof {
        if r {
            assert(t@ =~= seq![b0, b1, b2]);
        } else {
            if t@ == seq![b0, b1, b2] {
                assert(t@.len() == 3);
                assert(t@[0] == b0 && t@[1] == b1 && t@[2] == b2);
            }
        }
    }
    r
}

/// Matches a token against a four-byte operation name.
fn is_op4(t: &Vec<u8>, b0: u8, b1: u8, b2: u8, b3: u8) -> (r: bool)
    ensures
        r == (t@ == seq![b0, b1, b2, b3]),
{
    let r = t.len() == 4 && t[0] == b0 && t[1] == b1 && t[2] == b2 && t[3] == b3;
    proof {
        if r {
            assert(t@ =~= seq![b0, b1, b2, b3]);
        } else {
            if t@ == seq![b0, b1, b2, b3] {
                assert(t@.len() == 4);
                assert(t@[0] == b0 && t@[1] == b1 && t@[2] == b2 && t@[3] == b3);
            }
        }
    }
    r
}

/// Decodes a request line into an operation and its arguments.
pub fn decode_request(line: &[u8]) -> (r: Result<Request, ProtocolError>)
    ensures
        r is Ok <==> decode_request_spec(line@) is Ok,
        r matches Ok(req) ==> decode_request_spec(line@) == Ok::<RequestV, ProtocolError>(req@),
        r matches Err(e) ==> decode_request_spec(line@) == Err::<RequestV, ProtocolError>(e),
{
    let mut toks = split_spaces(line);
    let ghost all = split_sp(line@);
    proof {
        lemma_split_sp_len(line@);
        assert(toks@.len() == all.len());
        assert(toks@[0].deep_view() == all[0]);
    }
    let op = vstd::std_specs::vec::vec_index(&toks, 0);
    proof {
        assert(op.deep_view() =~= op@);
        assert(op@ == all[0]);
    }
    let oversized = op.len() > MAX_OP_LEN;
    let is_ping = is_op4(op, 80, 73, 78, 71);
    let is_get = is_op3(op, 71, 69, 84);
    let is_del = is_op3(op, 68, 69, 76);
    let is_set = is_op3(op, 83, 69, 84);
    if oversized {
        Err(ProtocolError::OversizedOperation)
    } else if is_ping {
        if toks.len() == 1 {
            Ok(Request::Ping)
        } else {
            Err(ProtocolError::WrongArity)
        }
    } else if is_get {
        if toks.len() == 2 {
            let k = toks.pop().unwrap();
            proof {
                assert(k.deep_view() =~= k@);
                assert(k@ == all[1]);
            }
            Ok(Request::Get(k))
        } else {
            Err(ProtocolError::WrongArity)
        }
    } else if is_del {
        if toks.len() == 2 {
            let k = toks.pop().unwrap();
            proof {
                assert(k.deep_view() =~= k@);
                assert(k@ == all[1]);
            }
            Ok(Request::Del(k))
        } else {
            Err(ProtocolError::WrongArity)
        }
    } else if is_set {
        if toks.len() == 3 {
            let v = toks.pop().unwrap();
            let k = toks.pop().unwrap();
            proof {
                assert(v.deep_view() =~= v@);
                assert(v@ == all[2]);
                assert(k.deep_view() =~= k@);
                assert(k@ == all[1]);
            }
            Ok(Request::SetKv(k, v))
        } else {
            Err(ProtocolError::WrongArity)
        }
    } else {
        Err(ProtocolError::UnknownOperation)
    }
}

/// The message rendered for each error reply.
pub open spec fn msg_bytes(e: ReplyError) -> Seq<u8> {
    match e {
        // "unknown op"
        ReplyError::Protocol(ProtocolError::UnknownOperation) => seq![
            117, 110, 107, 110, 111, 119, 110, 32, 111, 112,
        ],
        // "wrong arity"
        ReplyError::Protocol(ProtocolError::WrongArity) => seq![
            119, 114, 111, 110, 103, 32, 97, 114, 105, 116, 121,
        ],
        // "op too long"
        ReplyError::Protocol(ProtocolError::OversizedOperation) => seq![
            111, 112, 32, 116, 111, 111, 32, 108, 111, 110, 103,
        ],
        // "bad integer"
        ReplyError::Decode(DecodeError::BadInteger) => seq![
            98, 97, 100, 32, 105, 110, 116, 101, 103, 101, 114,
        ],
    }
}

/// The wire rendering of a reply: the value payload, nothing for nil,
/// `-` and a message for an error; each terminated by the delimiter.
pub open spec fn encode_reply_spec(r: ReplyV) -> Seq<u8> {
    match r {
        ReplyV::Value(v) => encode_value_spec(v) + seq![DELIM],
        ReplyV::Nil => seq![DELIM],
        ReplyV::Error(e) => seq![45] + msg_bytes(e) + seq![DELIM],
    }
}

/// Pushes the message for `e` after the bytes already in `out`.
fn push_msg(e: ReplyError, out: &mut Vec<u8>)
    ensures
        final(out)@ == old(out)@ + msg_bytes(e),
{
    match e {
        ReplyError::Protocol(ProtocolError::UnknownOperation) => {
            out.push(117);
            out.push(110);
            out.push(107);
            out.push(110);
            out.push(111);
            out.push(119);
            out.push(110);
            out.push(32);
            out.push(111);
            out.push(112);
        }
        ReplyError::Protocol(ProtocolError::WrongArity) => {
            out.push(119);
            out.push(114);
            out.push(111);
            out.push(110);
            out.push(103);
            out.push(32);
            out.push(97);
            out.push(114);
            out.push(105);
            out.push(116);
            out.push(121);
        }
        ReplyError::Protocol(ProtocolError::OversizedOperation) => {
            out.push(111);
            out.push(112);
            out.push(32);
            out.push(116);
            out.push(111);
            out.push(111);
            out.push(32);
            out.push(108);
            out.push(111);
            out.push(110);
            out.push(103);
        }
        ReplyError::Decode(DecodeError::BadInteger) => {
            out.push(98);
            out.push(97);
            out.push(100);
            out.push(32);
            out.push(105);
            out.push(110);
            out.push(116);
            out.push(101);
            out.push(103);
            out.push(101);
            out.push(114);
        }
    }
    assert(out@ =~= old(out)@ + msg_bytes(e));
}

/// Renders a reply into wire bytes.
pub fn encode_reply(r: &Reply) -> (out: Vec<u8>)
    ensures
        out@ == encode_reply_spec(r@),
{
    match r {
        Reply::Value(v) => {
            let mut out = encode_value(v);
            out.push(DELIM);
            assert(out@ =~= encode_reply_spec(r@));
            out
        }
        Reply::Nil => {
            let mut out: Vec<u8> = Vec::new();
            out.push(DELIM);
            assert(out@ =~= encode_reply_spec(r@));
            out
        }
        Reply::Error(e) => {
            let mut out: Vec<u8> = Vec::new();
            out.push(45);
            assert(out@ =~= seq![45]);
            push_msg(*e, &mut out);
            out.push(DELIM);
            assert(out@ =~= encode_reply_spec(r@));
            out
        }
    }
}

} // verus!
