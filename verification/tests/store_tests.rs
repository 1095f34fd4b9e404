use tinykv::store::Store;
use tinykv::value::{DecodeError, Value};

#[test]
fn set_then_get_integer() {
    let mut s = Store::new();
    assert_eq!(s.set(b"foo", b":42"), Ok(()));
    assert_eq!(s.get(b"foo"), Some(&Value::Integer(42)));
}

#[test]
fn set_then_get_raw() {
    let mut s = Store::new();
    assert_eq!(s.set(b"bar", b"hello"), Ok(()));
    assert_eq!(s.get(b"bar"), Some(&Value::RawString(b"hello".to_vec())));
}

#[test]
fn get_absent_key() {
    let s = Store::new();
    assert_eq!(s.get(b"missing"), None);
}

#[test]
fn set_replaces_whole_entry() {
    let mut s = Store::new();
    assert_eq!(s.set(b"k", b":1"), Ok(()));
    assert_eq!(s.set(b"k", b"text"), Ok(()));
    assert_eq!(s.get(b"k"), Some(&Value::RawString(b"text".to_vec())));
}

#[test]
fn set_bad_integer_leaves_store_unchanged() {
    let mut s = Store::new();
    assert_eq!(s.set(b"k", b":1"), Ok(()));
    assert_eq!(s.set(b"k", b":abc"), Err(DecodeError::BadInteger));
    assert_eq!(s.get(b"k"), Some(&Value::Integer(1)));
}

#[test]
fn delete_absent_then_present() {
    let mut s = Store::new();
    assert!(!s.delete(b"k"));
    assert_eq!(s.set(b"k", b":5"), Ok(()));
    assert!(s.delete(b"k"));
    assert_eq!(s.get(b"k"), None);
    assert!(!s.delete(b"k"));
}

#[test]
fn delete_leaves_other_keys() {
    let mut s = Store::new();
    assert_eq!(s.set(b"a", b":1"), Ok(()));
    assert_eq!(s.set(b"b", b":2"), Ok(()));
    assert!(s.delete(b"a"));
    assert_eq!(s.get(b"a"), None);
    assert_eq!(s.get(b"b"), Some(&Value::Integer(2)));
}
