use tinykv::value::{decode_value, encode_value, DecodeError, Value};

#[test]
fn decode_integer_payload() {
    let v = decode_value(b":42").unwrap();
    assert_eq!(v, Value::Integer(42));
}

#[test]
fn decode_raw_payload() {
    let v = decode_value(b"hello").unwrap();
    assert_eq!(v, Value::RawString(b"hello".to_vec()));
}

#[test]
fn decode_empty_payload_is_raw() {
    let v = decode_value(b"").unwrap();
    assert_eq!(v, Value::RawString(Vec::new()));
}

#[test]
fn decode_bad_integer_payload() {
    assert_eq!(decode_value(b":abc"), Err(DecodeError::BadInteger));
    assert_eq!(decode_value(b":"), Err(DecodeError::BadInteger));
    assert_eq!(decode_value(b":4a2"), Err(DecodeError::BadInteger));
}

#[test]
fn decode_integer_bounds() {
    let v = decode_value(b":18446744073709551615").unwrap();
    assert_eq!(v, Value::Integer(u64::MAX));
    assert_eq!(
        decode_value(b":18446744073709551616"),
        Err(DecodeError::BadInteger)
    );
}

#[test]
fn decode_leading_zeros() {
    let v = decode_value(b":007").unwrap();
    assert_eq!(v, Value::Integer(7));
}

#[test]
fn encode_integer_value() {
    assert_eq!(encode_value(&Value::Integer(42)), b":42".to_vec());
    assert_eq!(encode_value(&Value::Integer(0)), b":0".to_vec());
    assert_eq!(
        encode_value(&Value::Integer(u64::MAX)),
        b":18446744073709551615".to_vec()
    );
}

#[test]
fn encode_raw_value() {
    assert_eq!(
        encode_value(&Value::RawString(b"hello".to_vec())),
        b"hello".to_vec()
    );
    assert_eq!(encode_value(&Value::RawString(Vec::new())), Vec::<u8>::new());
}

#[test]
fn value_round_trip_concrete() {
    let v = decode_value(b":123").unwrap();
    assert_eq!(encode_value(&v), b":123".to_vec());
    let w = decode_value(b"plain").unwrap();
    assert_eq!(encode_value(&w), b"plain".to_vec());
}
