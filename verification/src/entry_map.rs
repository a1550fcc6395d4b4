//! A map over keys compared by their view (byte strings, text), held as a
//! list of entries with distinct keys.
use vstd::prelude::*;
use crate::bytes::bytes_eq;
use crate::keymap::{
    entries_map, distinct_entry_keys, lemma_entries_map, lemma_entries_map_update,
    lemma_entries_map_push, lemma_entries_map_remove,
};

verus! {

/// A key that can be compared by its view.
pub trait MapKey: View + Sized {
    /// True exactly when the two keys have the same view.
    fn key_eq(&self, other: &Self) -> (r: bool)
        ensures
            r == (self@ == other@);
}

impl MapKey for Vec<u8> {
    fn key_eq(&self, other: &Self) -> (r: bool) {
        bytes_eq(self.as_slice(), other.as_slice())
    }
}

impl MapKey for u64 {
    fn key_eq(&self, other: &Self) -> (r: bool) {
        *self == *other
    }
}

impl MapKey for String {
    fn key_eq(&self, other: &Self) -> (r: bool) {
        *self == *other
    }
}

/// A map from keys (by their view) to values.
#[derive(Debug, Clone)]
pub struct EntryMap<K, V> {
    entries: Vec<(K, V)>,
}

impl<K: MapKey, V> EntryMap<K, V> {
    /// The entries by key view, in insertion order.
    pub closed spec fn entry_seq(&self) -> Seq<(K::V, V)> {
        self.entries@.map_values(|e: (K, V)| (e.0@, e.1))
    }

    /// The map.
    pub closed spec fn view_map(&self) -> Map<K::V, V> {
        entries_map(self.entry_seq())
    }

    /// No key is held twice.
    pub closed spec fn wf(&self) -> bool {
        distinct_entry_keys(self.entry_seq())
    }

    /// The empty map.
    pub fn new() -> (r: EntryMap<K, V>)
        ensures
            r.wf(),
            r.view_map() == Map::<K::V, V>::empty(),
            r.entry_seq().len() == 0,
    {
        let r = EntryMap { entries: Vec::new() };
        assert(r.view_map() =~= Map::<K::V, V>::empty());
        r
    }

    fn index_of(&self, k: &K) -> (r: Option<usize>)
        requires
            self.wf(),
        ensures
            r is Some <==> self.view_map().dom().contains(k@),
            r matches Some(i) ==> i < self.entries@.len() && self.entry_seq()[i as int].0 == k@,
    {
        proof {
            lemma_entries_map(self.entry_seq());
        }
        let mut i: usize = 0;
        while i < self.entries.len()
            invariant
                i <= self.entries@.len(),
                self.wf(),
                forall|j: int| 0 <= j < i ==> #[trigger] self.entry_seq()[j].0 != k@,
            decreases self.entries@.len() - i,
        {
            if self.entries[i].0.key_eq(k) {
                proof {
                    lemma_entries_map(self.entry_seq());
                    assert(self.entry_seq()[i as int].0 == k@);
                }
                return Some(i);
            }
            i += 1;
        }
        proof {
            if self.view_map().dom().contains(k@) {
                let j = choose|j: int| 0 <= j < self.entry_seq().len() && self.entry_seq()[j].0 == k@;
                assert(self.entry_seq()[j].0 != k@);
            }
        }
        None
    }

    /// The value at `k`, if any.
    pub fn get(&self, k: &K) -> (r: Option<&V>)
        requires
            self.wf(),
        ensures
            r is Some <==> self.view_map().dom().contains(k@),
            r matches Some(v) ==> *v == self.view_map()[k@],
    {
        match self.index_of(k) {
            Some(i) => {
                proof {
                    lemma_entries_map(self.entry_seq());
                    assert(self.entry_seq()[i as int].1 == self.entries@[i as int].1);
                }
                Some(&self.entries[i].1)
            },
            None => None,
        }
    }

    /// Whether `k` has a value.
    pub fn contains_key(&self, k: &K) -> (r: bool)
        requires
            self.wf(),
        ensures
            r == self.view_map().dom().contains(k@),
    {
        self.index_of(k).is_some()
    }

    /// Sets the value at `k` to `v`.
    pub fn insert(&mut self, k: K, v: V)
        requires
            old(self).wf(),
        ensures
            final(self).wf(),
            final(self).view_map() == old(self).view_map().insert(k@, v),
    {
        let ghost before = self.entry_seq();
        match self.index_of(&k) {
            Some(i) => {
                let ghost kv = k@;
                self.entries.set(i, (k, v));
                proof {
                    assert(self.entry_seq() =~= before.update(i as int, (before[i as int].0, v)));
                    lemma_entries_map_update(before, i as int, v);
                }
            },
            None => {
                let ghost kv = k@;
                self.entries.push((k, v));
                proof {
                    assert(self.entry_seq() =~= before.push((kv, v)));
                    lemma_entries_map_push(before, kv, v);
                }
            },
        }
    }

    /// Removes the value at `k`, returning it.
    pub fn remove(&mut self, k: &K) -> (r: Option<V>)
        requires
            old(self).wf(),
        ensures
            final(self).wf(),
            final(self).view_map() == old(self).view_map().remove(k@),
            r is Some <==> old(self).view_map().dom().contains(k@),
            r matches Some(v) ==> v == old(self).view_map()[k@],
    {
        proof {
            lemma_entries_map(self.entry_seq());
        }
        match self.index_of(k) {
            Some(i) => {
                let ghost before = self.entry_seq();
                let (_key, v) = self.entries.remove(i);
                proof {
                    assert(self.entry_seq() =~= before.remove(i as int));
                    lemma_entries_map_remove(before, i as int);
                }
                Some(v)
            },
            None => {
                proof {
                    assert(self.view_map() =~= self.view_map().remove(k@));
                }
                None
            },
        }
    }

    /// Number of keys.
    pub fn len(&self) -> (r: usize)
        requires
            self.wf(),
        ensures
            r == self.view_map().dom().len(),
    {
        proof {
            lemma_entries_map(self.entry_seq());
        }
        self.entries.len()
    }

    /// Whether the map has no keys.
    pub fn is_empty(&self) -> (r: bool)
        requires
            self.wf(),
        ensures
            r == (self.view_map().dom().len() == 0),
    {
        self.len() == 0
    }
}

/// Sum of the key and value lengths of byte entries.
pub open spec fn byte_entries_size(s: Seq<(Seq<u8>, Vec<u8>)>) -> nat
    decreases s.len(),
{
    if s.len() == 0 {
        0
    } else {
        byte_entries_size(s.drop_last()) + s.last().0.len() + s.last().1@.len()
    }
}

impl EntryMap<Vec<u8>, Vec<u8>> {
    /// Bytes held by the keys and values together.
    pub closed spec fn byte_size(&self) -> nat {
        byte_entries_size(self.entry_seq())
    }

    /// The empty map holds no bytes.
    pub proof fn lemma_empty_byte_size(&self)
        requires
            self.view_map().dom().len() == 0,
            self.wf(),
        ensures
            self.byte_size() == 0,
    {
        lemma_entries_map(self.entry_seq());
    }

    /// Bytes held by the keys and values together (see `byte_size`).
    pub fn total_len(&self) -> (r: usize)
        requires
            self.byte_size() <= usize::MAX,
        ensures
            r == self.byte_size(),
    {
        let ghost s = self.entry_seq();
        let mut total: usize = 0;
        let mut i: usize = 0;
        while i < self.entries.len()
            invariant
                i <= self.entries@.len(),
                s == self.entry_seq(),
                byte_entries_size(s) <= usize::MAX,
                total == byte_entries_size(s.subrange(0, i as int)),
            decreases self.entries@.len() - i,
        {
            proof {
                assert(s.subrange(0, i + 1).drop_last() =~= s.subrange(0, i as int));
                lemma_prefix_size_bounded(s, i + 1);
            }
            total = total + self.entries[i].0.len() + self.entries[i].1.len();
            i += 1;
        }
        assert(s.subrange(0, s.len() as int) =~= s);
        total
    }
}

proof fn lemma_prefix_size_bounded(s: Seq<(Seq<u8>, Vec<u8>)>, n: int)
    requires
        0 <= n <= s.len(),
    ensures
        byte_entries_size(s.subrange(0, n)) <= byte_entries_size(s),
    decreases s.len() - n,
{
    if n < s.len() {
        lemma_prefix_size_bounded(s, n + 1);
        assert(s.subrange(0, n + 1).drop_last() =~= s.subrange(0, n));
    } else {
        assert(s.subrange(0, n) =~= s);
    }
}

} // verus!
