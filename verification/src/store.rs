//! The in-memory store: a mapping from byte-string keys to typed values.
//!
//! Modelled as a `Map<Seq<u8>, ValueV>`; the representation keeps one
//! entry per key, so absence of a key is a distinguishable state.

use vstd::prelude::*;
use crate::codec::bytes_eq;
use crate::value::{decode_value, decode_value_spec, encode_value_spec, DecodeError, Value, ValueV};

verus! {

/// One key together with its stored value.
pub struct StoreEntry {
    pub key: Vec<u8>,
    pub value: Value,
}

/// The key space: every key held at most once.
pub struct Store {
    entries: Vec<StoreEntry>,
}

/// Whether `s` holds no key twice.
pub open spec fn keys_uniq(s: Seq<StoreEntry>) -> bool {
    forall|i: int, j: int| 0 <= i < j < s.len() ==> s[i].key@ != s[j].key@
}

/// The mapping denoted by a sequence of entries, later entries winning.
pub open spec fn entries_map(s: Seq<StoreEntry>) -> Map<Seq<u8>, ValueV>
    decreases s.len(),
{
    if s.len() == 0 {
        Map::empty()
    } else {
        entries_map(s.drop_last()).insert(s.last().key@, s.last().value@)
    }
}

impl View for Store {
    type V = Map<Seq<u8>, ValueV>;

    closed spec fn view(&self) -> Map<Seq<u8>, ValueV> {
        entries_map(self.entries@)
    }
}

/// A key is in the mapping exactly when some entry holds it.
proof fn lemma_map_domain(s: Seq<StoreEntry>, k: Seq<u8>)
    ensures
        entries_map(s).contains_key(k) <==> exists|i: int| 0 <= i < s.len() && s[i].key@ == k,
    decreases s.len(),
{
    if s.len() > 0 {
        lemma_map_domain(s.drop_last(), k);
        if s.last().key@ == k {
            assert(s[s.len() - 1].key@ == k);
        } else {
            if exists|i: int| 0 <= i < s.len() && s[i].key@ == k {
                let w = choose|i: int| 0 <= i < s.len() && s[i].key@ == k;
                assert(s.drop_last()[w] == s[w]);
            }
        }
    }
}

/// With unique keys, the entry holding a key gives the mapping's value.
proof fn lemma_map_at(s: Seq<StoreEntry>, i: int)
    requires
        keys_uniq(s),
        0 <= i < s.len(),
    ensures
        entries_map(s).contains_key(s[i].key@),
        entries_map(s)[s[i].key@] == s[i].value@,
    decreases s.len(),
{
    if i < s.len() - 1 {
        assert(keys_uniq(s.drop_last()));
        assert(s.drop_last()[i] == s[i]);
        lemma_map_at(s.drop_last(), i);
        assert(s.last().key@ != s[i].key@);
    }
}

/// Removing the entry that holds a key removes the key from the mapping.
proof fn lemma_map_remove(s: Seq<StoreEntry>, i: int)
    requires
        keys_uniq(s),
        0 <= i < s.len(),
    ensures
        entries_map(s.remove(i)) == entries_map(s).remove(s[i].key@),
    decreases s.len(),
{
    let k = s[i].key@;
    if i == s.len() - 1 {
        assert(s.remove(i) =~= s.drop_last());
        lemma_map_domain(s.drop_last(), k);
        if entries_map(s.drop_last()).contains_key(k) {
            let w = choose|w: int| 0 <= w < s.drop_last().len() && s.drop_last()[w].key@ == k;
            assert(s[w] == s.drop_last()[w]);
            assert(false);
        }
        assert(entries_map(s.drop_last()).insert(k, s.last().value@).remove(k) =~= entries_map(
            s.drop_last(),
        ));
    } else {
        assert(keys_uniq(s.drop_last()));
        assert(s.drop_last()[i] == s[i]);
        lemma_map_remove(s.drop_last(), i);
        assert(s.remove(i).drop_last() =~= s.drop_last().remove(i));
        assert(s.remove(i).last() == s.last());
        assert(s.last().key@ != k);
        assert(entries_map(s.drop_last()).remove(k).insert(s.last().key@, s.last().value@)
            =~= entries_map(s.drop_last()).insert(s.last().key@, s.last().value@).remove(k));
    }
}

/// Round trip through the store: setting a valid encoded value and
/// getting the key back yields a value of the same variant and payload,
/// and re-encoding it decodes to that same value.
pub proof fn lemma_set_then_get(m: Map<Seq<u8>, ValueV>, k: Seq<u8>, v: Seq<u8>)
    requires
        decode_value_spec(v) is Ok,
    ensures
        m.insert(k, decode_value_spec(v)->Ok_0).contains_key(k),
        m.insert(k, decode_value_spec(v)->Ok_0)[k] == decode_value_spec(v)->Ok_0,
        decode_value_spec(encode_value_spec(decode_value_spec(v)->Ok_0)) == Ok::<
            ValueV,
            DecodeError,
        >(decode_value_spec(v)->Ok_0),
{
    crate::value::lemma_decode_wf(v);
    crate::value::lemma_value_round_trip(decode_value_spec(v)->Ok_0);
}

/// Deleting a key answers whether it existed and leaves it absent: a
/// get after the delete finds nothing under that key, and every other
/// key is untouched.
pub proof fn lemma_del_then_get(m: Map<Seq<u8>, ValueV>, k: Seq<u8>)
    ensures
        !m.remove(k).contains_key(k),
        forall|k2: Seq<u8>|
            k2 != k ==> (#[trigger] m.remove(k).contains_key(k2) <==> m.contains_key(k2)),
        forall|k2: Seq<u8>|
            k2 != k && m.contains_key(k2) ==> #[trigger] m.remove(k)[k2] == m[k2],
{
}

impl Store {
    /// No key held twice: the representation denotes its mapping faithfully.
    pub closed spec fn wf(&self) -> bool {
        keys_uniq(self.entries@)
    }

    /// Creates the empty store.
    pub fn new() -> (s: Store)
        ensures
            s.wf(),
            s@ == Map::<Seq<u8>, ValueV>::empty(),
    {
        Store { entries: Vec::new() }
    }

    /// Looks a key up; no side effects.
    pub fn get(&self, key: &[u8]) -> (r: Option<&Value>)
        requires
            self.wf(),
        ensures
            r is Some <==> self@.contains_key(key@),
            r matches Some(v) ==> self@[key@] == v@,
    {
        let mut i: usize = 0;
        while i < self.entries.len()
            invariant
                0 <= i <= self.entries@.len(),
                forall|j: int| 0 <= j < i ==> self.entries@[j].key@ != key@,
                self.wf(),
            decreases self.entries@.len() - i,
        {
            let e = vstd::std_specs::vec::vec_index(&self.entries, i);
            if bytes_eq(e.key.as_slice(), key) {
                proof {
                    lemma_map_at(self.entries@, i as int);
                }
                return Some(&e.value);
            }
            i += 1;
        }
        proof {
            lemma_map_domain(self.entries@, key@);
        }
        None
    }

    /// Finds the index of the entry holding `key`, if any.
    fn find(&self, key: &[u8]) -> (r: Option<usize>)
        requires
            self.wf(),
        ensures
            r matches Some(i) ==> i < self.entries@.len() && self.entries@[i as int].key@ == key@,
            r is None ==> forall|j: int|
                0 <= j < self.entries@.len() ==> self.entries@[j].key@ != key@,
    {
        let mut i: usize = 0;
        while i < self.entries.len()
            invariant
                0 <= i <= self.entries@.len(),
                forall|j: int| 0 <= j < i ==> self.entries@[j].key@ != key@,
            decreases self.entries@.len() - i,
        {
            let e = vstd::std_specs::vec::vec_index(&self.entries, i);
            if bytes_eq(e.key.as_slice(), key) {
                return Some(i);
            }
            i += 1;
        }
        None
    }

    /// Removes the entry for `key` if present; reports whether it existed,
    /// so deleting an absent key is distinguishable from deleting a
    /// present one. Afterwards the key is absent.
    pub fn delete(&mut self, key: &[u8]) -> (r: bool)
        requires
            old(self).wf(),
        ensures
            final(self).wf(),
            r == old(self)@.contains_key(key@),
            final(self)@ == old(self)@.remove(key@),
    {
        proof {
            lemma_map_domain(self.entries@, key@);
        }
        match self.find(key) {
            Some(i) => {
                proof {
                    lemma_map_remove(self.entries@, i as int);
                    let s = self.entries@;
                    assert forall|a: int, b: int|
                        0 <= a < b < s.remove(i as int).len() implies s.remove(i as int)[a].key@
                        != s.remove(i as int)[b].key@ by {
                        if a < i {
                            assert(s.remove(i as int)[a] == s[a]);
                        } else {
                            assert(s.remove(i as int)[a] == s[a + 1]);
                        }
                        if b < i {
                            assert(s.remove(i as int)[b] == s[b]);
                        } else {
                            assert(s.remove(i as int)[b] == s[b + 1]);
                        }
                    }
                }
                self.entries.remove(i);
                true
            }
            None => {
                proof {
                    assert(old(self)@.remove(key@) =~= old(self)@);
                }
                false
            }
        }
    }

    /// Decodes `value` by the type-prefix rule and stores it under `key`,
    /// inserting or replacing the whole entry. A malformed integer
    /// payload is rejected and the store is left unchanged.
    pub fn set(&mut self, key: &[u8], value: &[u8]) -> (r: Result<(), DecodeError>)
        requires
            old(self).wf(),
        ensures
            final(self).wf(),
            r is Ok <==> decode_value_spec(value@) is Ok,
            r is Ok ==> final(self)@ == old(self)@.insert(
                key@,
                decode_value_spec(value@)->Ok_0,
            ),
            r matches Err(e) ==> decode_value_spec(value@) == Err::<ValueV, DecodeError>(e)
                && final(self)@ == old(self)@,
    {
        match decode_value(value) {
            Ok(val) => {
                self.delete(key);
                proof {
                    lemma_map_domain(self.entries@, key@);
                }
                let ghost pre = self.entries@;
                self.entries.push(StoreEntry { key: vstd::slice::slice_to_vec(key), value: val });
                proof {
                    assert(self.entries@.drop_last() =~= pre);
                    assert(forall|j: int| 0 <= j < pre.len() ==> pre[j].key@ != key@);
                    assert(keys_uniq(self.entries@)) by {
                        assert(forall|j: int|
                            0 <= j < pre.len() ==> self.entries@[j] == pre[j]);
                    }
                    assert(entries_map(self.entries@) == entries_map(pre).insert(key@, val@));
                    assert(old(self)@.remove(key@).insert(key@, val@) =~= old(self)@.insert(
                        key@,
                        val@,
                    ));
                }
                Ok(())
            }
            Err(e) => Err(e),
        }
    }
}

} // verus!
