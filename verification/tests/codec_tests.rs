use tinykv::codec::{
    decode_request, encode_reply, is_complete, ProtocolError, Reply, ReplyError, Request,
};
use tinykv::value::{DecodeError, Value};

#[test]
fn complete_only_with_delimiter() {
    assert!(!is_complete(b""));
    assert!(!is_complete(b"GET foo"));
    assert!(is_complete(b"GET foo\r"));
    assert!(is_complete(b"\rGET foo"));
}

#[test]
fn decode_ping() {
    assert_eq!(decode_request(b"PING"), Ok(Request::Ping));
}

#[test]
fn decode_get() {
    assert_eq!(decode_request(b"GET foo"), Ok(Request::Get(b"foo".to_vec())));
}

#[test]
fn decode_del() {
    assert_eq!(decode_request(b"DEL foo"), Ok(Request::Del(b"foo".to_vec())));
}

#[test]
fn decode_set() {
    assert_eq!(
        decode_request(b"SET foo :42"),
        Ok(Request::SetKv(b"foo".to_vec(), b":42".to_vec()))
    );
}

#[test]
fn decode_unknown_operation() {
    assert_eq!(
        decode_request(b"BOGUS foo"),
        Err(ProtocolError::UnknownOperation)
    );
    assert_eq!(decode_request(b""), Err(ProtocolError::UnknownOperation));
}

#[test]
fn decode_wrong_arity() {
    assert_eq!(decode_request(b"GET"), Err(ProtocolError::WrongArity));
    assert_eq!(decode_request(b"GET a b"), Err(ProtocolError::WrongArity));
    assert_eq!(decode_request(b"DEL"), Err(ProtocolError::WrongArity));
    assert_eq!(decode_request(b"SET k"), Err(ProtocolError::WrongArity));
    assert_eq!(decode_request(b"SET k v w"), Err(ProtocolError::WrongArity));
    assert_eq!(decode_request(b"PING x"), Err(ProtocolError::WrongArity));
}

#[test]
fn decode_oversized_operation() {
    assert_eq!(
        decode_request(b"OPERATION k"),
        Err(ProtocolError::OversizedOperation)
    );
}

#[test]
fn encode_nil_reply() {
    assert_eq!(encode_reply(&Reply::Nil), b"\r".to_vec());
}

#[test]
fn encode_value_reply() {
    assert_eq!(
        encode_reply(&Reply::Value(Value::Integer(42))),
        b":42\r".to_vec()
    );
    assert_eq!(
        encode_reply(&Reply::Value(Value::RawString(b"hello".to_vec()))),
        b"hello\r".to_vec()
    );
}

#[test]
fn encode_error_replies() {
    assert_eq!(
        encode_reply(&Reply::Error(ReplyError::Protocol(
            ProtocolError::UnknownOperation
        ))),
        b"-unknown op\r".to_vec()
    );
    assert_eq!(
        encode_reply(&Reply::Error(ReplyError::Protocol(ProtocolError::WrongArity))),
        b"-wrong arity\r".to_vec()
    );
    assert_eq!(
        encode_reply(&Reply::Error(ReplyError::Protocol(
            ProtocolError::OversizedOperation
        ))),
        b"-op too long\r".to_vec()
    );
    assert_eq!(
        encode_reply(&Reply::Error(ReplyError::Decode(DecodeError::BadInteger))),
        b"-bad integer\r".to_vec()
    );
}
