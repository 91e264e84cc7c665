//! A small insertion-ordered map from a closed set of field names to octet
//! strings. Header blocks and directive tables are instances of it.

use vstd::prelude::*;

verus! {

/// A field name: a plain value that can be told apart from another.
pub trait Field: Sized + Copy {
    /// Whether two field names are the same name.
    fn same(&self, other: &Self) -> (r: bool)
        ensures
            r == (*self == *other),
    ;
}

/// Some entry of `s` is keyed by `k`.
pub open spec fn has_key<K>(s: Seq<(K, Seq<u8>)>, k: K) -> bool {
    exists|i: int| 0 <= i < s.len() && (#[trigger] s[i]).0 == k
}

/// The position of an entry keyed by `k`.
pub open spec fn key_index<K>(s: Seq<(K, Seq<u8>)>, k: K) -> int {
    choose|i: int| 0 <= i < s.len() && (#[trigger] s[i]).0 == k
}

/// The value stored under `k`, if any.
pub open spec fn lookup<K>(s: Seq<(K, Seq<u8>)>, k: K) -> Option<Seq<u8>> {
    if has_key(s, k) {
        Some(s[key_index(s, k)].1)
    } else {
        None
    }
}

/// `s` with `v` stored under `k`: in place where `k` is present, at the end
/// where it is new.
pub open spec fn upsert<K>(s: Seq<(K, Seq<u8>)>, k: K, v: Seq<u8>) -> Seq<(K, Seq<u8>)> {
    if has_key(s, k) {
        s.update(key_index(s, k), (k, v))
    } else {
        s.push((k, v))
    }
}

/// `s` without the entry keyed by `k`.
pub open spec fn without<K>(s: Seq<(K, Seq<u8>)>, k: K) -> Seq<(K, Seq<u8>)> {
    if has_key(s, k) {
        s.remove(key_index(s, k))
    } else {
        s
    }
}

/// No two entries of `s` share a key.
pub open spec fn distinct_keys<K>(s: Seq<(K, Seq<u8>)>) -> bool {
    forall|i: int, j: int| 0 <= i < j < s.len() ==> (#[trigger] s[i]).0 != (#[trigger] s[j]).0
}

/// With distinct keys, the entry found under a key is the only one.
pub proof fn lemma_key_index_unique<K>(s: Seq<(K, Seq<u8>)>, k: K, i: int)
    requires
        distinct_keys(s),
        0 <= i < s.len(),
        s[i].0 == k,
    ensures
        has_key(s, k),
        key_index(s, k) == i,
{
    let j = key_index(s, k);
    if j < i {
        assert(s[j].0 != s[i].0);
    } else if i < j {
        assert(s[i].0 != s[j].0);
    }
}

/// Storing a value keeps the keys distinct, and makes it the value found.
pub proof fn lemma_upsert<K>(s: Seq<(K, Seq<u8>)>, k: K, v: Seq<u8>)
    requires
        distinct_keys(s),
    ensures
        distinct_keys(upsert(s, k, v)),
        lookup(upsert(s, k, v), k) == Some(v),
        forall|other: K| other != k ==> lookup(upsert(s, k, v), other) == lookup(s, other),
{
    let t = upsert(s, k, v);
    if has_key(s, k) {
        let i = key_index(s, k);
        assert(t[i].0 == k);
        lemma_key_index_unique(t, k, i);
        assert forall|other: K| other != k implies lookup(t, other) == lookup(s, other) by {
            if has_key(s, other) {
                let j = key_index(s, other);
                assert(t[j] == s[j]);
                lemma_key_index_unique(t, other, j);
            } else if has_key(t, other) {
                let j = key_index(t, other);
                assert(s[j].0 == other);
            }
        }
    } else {
        let i = s.len() as int;
        assert(t[i].0 == k);
        assert forall|a: int, b: int| 0 <= a < b < t.len() implies (#[trigger] t[a]).0 != (
        #[trigger] t[b]).0 by {
            if b == i {
                assert(s[a].0 != k);
            }
        }
        lemma_key_index_unique(t, k, i);
        assert forall|other: K| other != k implies lookup(t, other) == lookup(s, other) by {
            if has_key(s, other) {
                let j = key_index(s, other);
                assert(t[j] == s[j]);
                lemma_key_index_unique(t, other, j);
            } else if has_key(t, other) {
                let j = key_index(t, other);
                assert(s[j].0 == other);
            }
        }
    }
}

/// Removing a key keeps the keys distinct, and leaves nothing under it.
pub proof fn lemma_without<K>(s: Seq<(K, Seq<u8>)>, k: K)
    requires
        distinct_keys(s),
    ensures
        distinct_keys(without(s, k)),
        lookup(without(s, k), k) is None,
{
    let t = without(s, k);
    if has_key(s, k) {
        let i = key_index(s, k);
        assert forall|a: int, b: int| 0 <= a < b < t.len() implies (#[trigger] t[a]).0 != (
        #[trigger] t[b]).0 by {
            let a0 = if a < i { a } else { a + 1 };
            let b0 = if b < i { b } else { b + 1 };
            assert(s[a0].0 != s[b0].0);
        }
        if has_key(t, k) {
            let j = key_index(t, k);
            let j0 = if j < i { j } else { j + 1 };
            assert(s[j0].0 == k);
            lemma_key_index_unique(s, k, j0);
        }
    }
}

/// An insertion-ordered map from field names to octet strings, with at most
/// one entry per name.
#[derive(Debug)]
pub struct FieldMap<K: Field> {
    entries: Vec<(K, Vec<u8>)>,
}

impl<K: Field> View for FieldMap<K> {
    type V = Seq<(K, Seq<u8>)>;

    closed spec fn view(&self) -> Seq<(K, Seq<u8>)> {
        Seq::new(self.entries@.len(), |i: int| (self.entries@[i].0, self.entries@[i].1@))
    }
}

impl<K: Field> FieldMap<K> {
    #[verifier::type_invariant]
    spec fn distinct(&self) -> bool {
        distinct_keys(self@)
    }

    /// The empty map.
    pub fn new() -> (r: Self)
        ensures
            r@ == Seq::<(K, Seq<u8>)>::empty(),
    {
        let r = FieldMap { entries: Vec::new() };
        assert(r@ =~= Seq::<(K, Seq<u8>)>::empty());
        r
    }

    /// The number of entries.
    pub fn len(&self) -> (r: usize)
        ensures
            r == self@.len(),
            distinct_keys(self@),
    {
        proof {
            use_type_invariant(self);
        }
        self.entries.len()
    }

    /// The name and the value of the `i`-th entry, in insertion order.
    pub fn entry(&self, i: usize) -> (r: (K, &Vec<u8>))
        requires
            i < self@.len(),
        ensures
            r.0 == self@[i as int].0,
            r.1@ == self@[i as int].1,
    {
        (self.entries[i].0, &self.entries[i].1)
    }

    fn position(&self, key: K) -> (r: Option<usize>)
        ensures
            distinct_keys(self@),
            r is Some <==> has_key(self@, key),
            r matches Some(i) ==> i < self@.len() && key_index(self@, key) == i,
    {
        proof {
            use_type_invariant(self);
        }
        let mut i: usize = 0;
        while i < self.entries.len()
            invariant
                i <= self.entries@.len(),
                self@.len() == self.entries@.len(),
                distinct_keys(self@),
                forall|j: int| 0 <= j < i ==> (#[trigger] self@[j]).0 != key,
            decreases self.entries.len() - i,
        {
            if self.entries[i].0.same(&key) {
                proof {
                    lemma_key_index_unique(self@, key, i as int);
                }
                return Some(i);
            }
            i += 1;
        }
        None
    }

    /// The value stored under `key`.
    pub fn get(&self, key: K) -> (r: Option<&Vec<u8>>)
        ensures
            distinct_keys(self@),
            r is Some <==> lookup(self@, key) is Some,
            r matches Some(v) ==> lookup(self@, key) == Some(v@),
    {
        match self.position(key) {
            Some(i) => Some(&self.entries[i].1),
            None => None,
        }
    }

    /// Stores `value` under `key`, replacing what was there.
    pub fn insert(&mut self, key: K, value: Vec<u8>)
        ensures
            final(self)@ == upsert(old(self)@, key, value@),
            distinct_keys(final(self)@),
    {
        proof {
            use_type_invariant(&*self);
            lemma_upsert(self@, key, value@);
        }
        let found = self.position(key);
        let mut entries: Vec<(K, Vec<u8>)> = Vec::new();
        std::mem::swap(&mut self.entries, &mut entries);
        match found {
            Some(i) => {
                entries.set(i, (key, value));
            },
            None => {
                entries.push((key, value));
            },
        }
        assert(Seq::new(entries@.len(), |i: int| (entries@[i].0, entries@[i].1@)) =~= upsert(
            old(self)@,
            key,
            value@,
        ));
        std::mem::swap(&mut self.entries, &mut entries);
    }

    /// Removes the entry stored under `key`, if there is one.
    pub fn remove(&mut self, key: K)
        ensures
            final(self)@ == without(old(self)@, key),
            distinct_keys(final(self)@),
    {
        proof {
            use_type_invariant(&*self);
            lemma_without(self@, key);
        }
        let found = self.position(key);
        let mut entries: Vec<(K, Vec<u8>)> = Vec::new();
        std::mem::swap(&mut self.entries, &mut entries);
        match found {
            Some(i) => {
                entries.remove(i);
            },
            None => {},
        }
        assert(Seq::new(entries@.len(), |i: int| (entries@[i].0, entries@[i].1@)) =~= without(
            old(self)@,
            key,
        ));
        std::mem::swap(&mut self.entries, &mut entries);
    }
}

impl<K: Field> Clone for FieldMap<K> {
    /// A copy with the same entries in the same order.
    fn clone(&self) -> (r: Self)
        ensures
            r@ == self@,
    {
        proof {
            use_type_invariant(self);
        }
        let mut entries: Vec<(K, Vec<u8>)> = Vec::new();
        let mut i: usize = 0;
        while i < self.entries.len()
            invariant
                i <= self.entries@.len(),
                entries@.len() == i,
                forall|j: int|
                    0 <= j < i ==> (#[trigger] entries@[j]).0 == self.entries@[j].0 && entries@[j].1@
                        == self.entries@[j].1@,
            decreases self.entries.len() - i,
        {
            let mut value: Vec<u8> = Vec::new();
            value.extend_from_slice(self.entries[i].1.as_slice());
            assert(value@ =~= self.entries@[i as int].1@);
            entries.push((self.entries[i].0, value));
            i += 1;
        }
        assert(Seq::new(entries@.len(), |i: int| (entries@[i].0, entries@[i].1@)) =~= self@);
        FieldMap { entries }
    }
}

} // verus!
