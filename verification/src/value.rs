//! Stored values and their wire encoding.
//!
//! A value is either an unsigned 64-bit integer or a raw byte string.
//! On the wire a value payload whose first byte is `:` is an integer,
//! decoded from the remaining bytes as an unsigned decimal literal; any
//! other payload (including the empty one) is a raw string taken
//! literally.

use vstd::prelude::*;

verus! {

/// Leading byte that marks an integer-encoded value payload (ASCII `:`).
pub const INT_PREFIX: u8 = 58;

/// A stored value: the store's two-variant type system.
#[derive(Debug, PartialEq, Eq)]
pub enum Value {
    Integer(u64),
    RawString(Vec<u8>),
}

/// Mathematical model of a [`Value`].
pub enum ValueV {
    Integer(u64),
    RawString(Seq<u8>),
}

impl View for Value {
    type V = ValueV;

    open spec fn view(&self) -> ValueV {
        match self {
            Value::Integer(n) => ValueV::Integer(*n),
            Value::RawString(b) => ValueV::RawString(b@),
        }
    }
}

impl Clone for Value {
    fn clone(&self) -> (r: Self)
        ensures
            r@ == self@,
    {
        match self {
            Value::Integer(n) => Value::Integer(*n),
            Value::RawString(b) => Value::RawString(vstd::slice::slice_to_vec(b.as_slice())),
        }
    }
}

/// Error of decoding a value payload: the payload announced an integer
/// but the bytes after the prefix are not a valid unsigned decimal.
#[derive(Clone, Copy, PartialEq, Eq, Structural, Debug)]
pub enum DecodeError {
    BadInteger,
}

/// Whether `b` is an ASCII decimal digit.
pub open spec fn is_digit(b: u8) -> bool {
    48 <= b <= 57
}

/// Whether every byte of `s` is an ASCII decimal digit.
pub open spec fn all_digits(s: Seq<u8>) -> bool {
    forall|i: int| 0 <= i < s.len() ==> is_digit(#[trigger] s[i])
}

/// The number denoted by the digit string `s`, most significant first.
pub open spec fn dec_val(s: Seq<u8>) -> int
    decreases s.len(),
{
    if s.len() == 0 {
        0
    } else {
        dec_val(s.drop_last()) * 10 + (s.last() - 48)
    }
}

/// The shortest decimal digit string denoting `n`.
pub open spec fn dec_rep(n: nat) -> Seq<u8>
    decreases n,
{
    if n < 10 {
        seq![(48 + n) as u8]
    } else {
        dec_rep(n / 10).push((48 + n % 10) as u8)
    }
}

/// Whether `s` is a digit string that denotes a number fitting in `u64`.
pub open spec fn valid_u64_digits(s: Seq<u8>) -> bool {
    s.len() > 0 && all_digits(s) && dec_val(s) <= u64::MAX
}

proof fn lemma_dec_val_nonneg(s: Seq<u8>)
    requires
        all_digits(s),
    ensures
        dec_val(s) >= 0,
    decreases s.len(),
{
    if s.len() > 0 {
        assert(all_digits(s.drop_last()));
        lemma_dec_val_nonneg(s.drop_last());
    }
}

/// A digit string denotes at least what any of its prefixes denotes.
proof fn lemma_dec_val_take_le(s: Seq<u8>, i: int)
    requires
        all_digits(s),
        0 <= i <= s.len(),
    ensures
        dec_val(s.take(i)) <= dec_val(s),
    decreases s.len(),
{
    if i == s.len() {
        assert(s.take(i) =~= s);
    } else {
        assert(all_digits(s.drop_last()));
        lemma_dec_val_take_le(s.drop_last(), i);
        assert(s.drop_last().take(i) =~= s.take(i));
        lemma_dec_val_nonneg(s.drop_last());
    }
}

proof fn lemma_dec_rep_digits(n: nat)
    ensures
        dec_rep(n).len() >= 1,
        all_digits(dec_rep(n)),
    decreases n,
{
    if n >= 10 {
        lemma_dec_rep_digits(n / 10);
        assert forall|i: int| 0 <= i < dec_rep(n).len() implies is_digit(#[trigger] dec_rep(n)[i]) by {
            if i < dec_rep(n / 10).len() {
                assert(dec_rep(n)[i] == dec_rep(n / 10)[i]);
            }
        }
    }
}

proof fn lemma_dec_rep_val(n: nat)
    ensures
        dec_val(dec_rep(n)) == n,
    decreases n,
{
    if n < 10 {
        assert(dec_rep(n).drop_last() =~= Seq::<u8>::empty());
        assert(dec_val(Seq::<u8>::empty()) == 0);
        assert(dec_rep(n).last() == (48 + n) as u8);
    } else {
        lemma_dec_rep_val(n / 10);
        assert(dec_rep(n).drop_last() =~= dec_rep(n / 10));
        vstd::arithmetic::div_mod::lemma_fundamental_div_mod(n as int, 10);
        assert(dec_rep(n).last() == (48 + n % 10) as u8);
    }
}

/// The meaning of a value payload: integer when prefixed, else the raw
/// bytes, with a malformed integer payload rejected.
pub open spec fn decode_value_spec(v: Seq<u8>) -> Result<ValueV, DecodeError> {
    if v.len() > 0 && v[0] == INT_PREFIX {
        let digits = v.skip(1);
        if valid_u64_digits(digits) {
            Ok(ValueV::Integer(dec_val(digits) as u64))
        } else {
            Err(DecodeError::BadInteger)
        }
    } else {
        Ok(ValueV::RawString(v))
    }
}

/// The wire rendering of a value: `:` and decimal digits for an integer,
/// the literal bytes for a raw string.
pub open spec fn encode_value_spec(v: ValueV) -> Seq<u8> {
    match v {
        ValueV::Integer(n) => seq![INT_PREFIX] + dec_rep(n as nat),
        ValueV::RawString(b) => b,
    }
}

/// A value the codec can have produced: a raw string never starts with
/// the integer prefix, so encoding stays unambiguous.
pub open spec fn value_wf(v: ValueV) -> bool {
    match v {
        ValueV::Integer(_) => true,
        ValueV::RawString(b) => b.len() == 0 || b[0] != INT_PREFIX,
    }
}

/// Decoding only ever yields well-formed values.
pub proof fn lemma_decode_wf(v: Seq<u8>)
    ensures
        decode_value_spec(v) matches Ok(val) ==> value_wf(val),
{
}

/// Round trip: encoding a well-formed value and decoding the result
/// gives the value back, variant and payload alike.
pub proof fn lemma_value_round_trip(v: ValueV)
    requires
        value_wf(v),
    ensures
        decode_value_spec(encode_value_spec(v)) == Ok::<ValueV, DecodeError>(v),
{
    match v {
        ValueV::Integer(n) => {
            let e = seq![INT_PREFIX] + dec_rep(n as nat);
            assert(e.skip(1) =~= dec_rep(n as nat));
            lemma_dec_rep_digits(n as nat);
            lemma_dec_rep_val(n as nat);
        }
        ValueV::RawString(b) => {}
    }
}

/// Parses an unsigned decimal literal.
///
/// Returns the denoted number exactly when `s` is non-empty, all digits,
/// and the number fits in `u64`.
pub fn parse_u64(s: &[u8]) -> (r: Option<u64>)
    ensures
        r is Some <==> valid_u64_digits(s@),
        r matches Some(n) ==> n == dec_val(s@),
{
    if s.len() == 0 {
        return None;
    }
    let mut acc: u64 = 0;
    let mut i: usize = 0;
    while i < s.len()
        invariant
            0 <= i <= s@.len(),
            all_digits(s@.take(i as int)),
            acc == dec_val(s@.take(i as int)),
        decreases s@.len() - i,
    {
        let b = *vstd::slice::slice_index_get(s, i);
        if b < 48 || b > 57 {
            assert(!all_digits(s@)) by {
                assert(s@[i as int] == b);
            }
            return None;
        }
        let d: u64 = (b - 48) as u64;
        proof {
            assert(s@.take(i + 1).drop_last() =~= s@.take(i as int));
            assert(s@.take(i + 1).last() == b);
            assert(all_digits(s@.take(i + 1)));
        }
        if acc > (u64::MAX - d) / 10 {
            proof {
                assert(dec_val(s@.take(i + 1)) == acc * 10 + d);
                assert(acc * 10 + d > u64::MAX);
                if all_digits(s@) {
                    lemma_dec_val_take_le(s@, i + 1);
                }
            }
            return None;
        }
        acc = acc * 10 + d;
        i += 1;
    }
    proof {
        assert(s@.take(i as int) =~= s@);
    }
    Some(acc)
}

/// Writes the decimal digits of `n` after the bytes already in `out`.
fn push_dec(n: u64, out: &mut Vec<u8>)
    ensures
        final(out)@ == old(out)@ + dec_rep(n as nat),
    decreases n,
{
    if n < 10 {
        out.push(48 + n as u8);
        assert(out@ =~= old(out)@ + dec_rep(n as nat));
    } else {
        push_dec(n / 10, out);
        out.push(48 + (n % 10) as u8);
        assert(out@ =~= old(out)@ + dec_rep(n as nat));
    }
}

/// Decodes a value payload by the type-prefix rule.
pub fn decode_value(v: &[u8]) -> (r: Result<Value, DecodeError>)
    ensures
        r is Ok <==> decode_value_spec(v@) is Ok,
        r matches Ok(val) ==> decode_value_spec(v@) == Ok::<ValueV, DecodeError>(val@),
        r matches Ok(val) ==> value_wf(val@),
{
    if v.len() > 0 && *vstd::slice::slice_index_get(v, 0) == INT_PREFIX {
        let digits = vstd::slice::slice_subrange(v, 1, v.len());
        proof {
            assert(digits@ =~= v@.skip(1));
        }
        match parse_u64(digits) {
            Some(n) => Ok(Value::Integer(n)),
            None => Err(DecodeError::BadInteger),
        }
    } else {
        let r = Value::RawString(vstd::slice::slice_to_vec(v));
        proof {
            lemma_decode_wf(v@);
        }
        Ok(r)
    }
}

/// Encodes a value by the type-prefix rule.
pub fn encode_value(v: &Value) -> (r: Vec<u8>)
    ensures
        r@ == encode_value_spec(v@),
{
    match v {
        Value::Integer(n) => {
            let mut out: Vec<u8> = Vec::new();
            out.push(INT_PREFIX);
            proof {
                assert(out@ =~= seq![INT_PREFIX]);
            }
            push_dec(*n, &mut out);
            out
        }
        Value::RawString(b) => vstd::slice::slice_to_vec(b.as_slice()),
    }
}

} // verus!
