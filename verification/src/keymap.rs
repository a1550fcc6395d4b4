//! Maps held as lists of entries with distinct keys: the map of such a
//! list, and a map from 32-byte keys to values.
use vstd::prelude::*;

verus! {

broadcast use vstd::array::group_array_axioms;

/// The map of a list of (key, value) entries (later entries win).
pub open spec fn entries_map<K, V>(s: Seq<(K, V)>) -> Map<K, V>
    decreases s.len(),
{
    if s.len() == 0 {
        Map::empty()
    } else {
        entries_map(s.drop_last()).insert(s.last().0, s.last().1)
    }
}

/// No key occurs twice.
pub open spec fn distinct_entry_keys<K, V>(s: Seq<(K, V)>) -> bool {
    forall|i: int, j: int| 0 <= i < j < s.len() ==> #[trigger] s[i].0 != #[trigger] s[j].0
}

/// The map of distinct entries: its keys are the entries' keys, its value at
/// each entry's key is that entry's value, and it has one key per entry.
pub proof fn lemma_entries_map<K, V>(s: Seq<(K, V)>)
    requires
        distinct_entry_keys(s),
    ensures
        entries_map(s).dom().finite(),
        entries_map(s).dom().len() == s.len(),
        forall|k: K| #[trigger] entries_map(s).dom().contains(k) <==> exists|i: int| 0 <= i < s.len() && s[i].0 == k,
        forall|i: int| 0 <= i < s.len() ==> #[trigger] entries_map(s)[s[i].0] == s[i].1,
    decreases s.len(),
{
    if s.len() > 0 {
        let t = s.drop_last();
        assert forall|i: int, j: int| 0 <= i < j < t.len() implies #[trigger] t[i].0 != #[trigger] t[j].0 by {
            assert(t[i] == s[i] && t[j] == s[j]);
        }
        lemma_entries_map(t);
        let x = s.last();
        assert(!entries_map(t).dom().contains(x.0)) by {
            if entries_map(t).dom().contains(x.0) {
                let i = choose|i: int| 0 <= i < t.len() && t[i].0 == x.0;
                assert(s[i] == t[i]);
                assert(s[i].0 != s[s.len() - 1].0);
            }
        }
        assert forall|k: K| #[trigger] entries_map(s).dom().contains(k) <==> exists|i: int| 0 <= i < s.len() && s[i].0 == k by {
            if entries_map(s).dom().contains(k) {
                if k == x.0 {
                    assert(s[s.len() - 1].0 == k);
                } else {
                    let i = choose|i: int| 0 <= i < t.len() && t[i].0 == k;
                    assert(s[i] == t[i]);
                }
            }
            if exists|i: int| 0 <= i < s.len() && s[i].0 == k {
                let i = choose|i: int| 0 <= i < s.len() && s[i].0 == k;
                if i < s.len() - 1 {
                    assert(t[i] == s[i]);
                }
            }
        }
        assert forall|i: int| 0 <= i < s.len() implies #[trigger] entries_map(s)[s[i].0] == s[i].1 by {
            if i < s.len() - 1 {
                assert(t[i] == s[i]);
                assert(s[i].0 != x.0);
            }
        }
    }
}

/// Replacing the value of an entry replaces the map's value at its key.
pub proof fn lemma_entries_map_update<K, V>(s: Seq<(K, V)>, i: int, v: V)
    requires
        distinct_entry_keys(s),
        0 <= i < s.len(),
    ensures
        distinct_entry_keys(s.update(i, (s[i].0, v))),
        entries_map(s.update(i, (s[i].0, v))) == entries_map(s).insert(s[i].0, v),
{
    let k = s[i].0;
    let after = s.update(i, (k, v));
    lemma_entries_map(s);
    assert forall|a: int, b: int| 0 <= a < b < after.len() implies #[trigger] after[a].0 != #[trigger] after[b].0 by {
        assert(after[a].0 == s[a].0 && after[b].0 == s[b].0);
    }
    lemma_entries_map(after);
    assert forall|kk: K| #[trigger] entries_map(after).dom().contains(kk) <==> entries_map(s).insert(k, v).dom().contains(kk) by {
        if entries_map(after).dom().contains(kk) {
            let j = choose|j: int| 0 <= j < after.len() && after[j].0 == kk;
            assert(s[j].0 == kk);
        }
        if entries_map(s).dom().contains(kk) {
            let j = choose|j: int| 0 <= j < s.len() && s[j].0 == kk;
            assert(after[j].0 == kk);
        }
    }
    assert forall|kk: K| #[trigger] entries_map(after).dom().contains(kk) implies entries_map(after)[kk] == entries_map(s).insert(k, v)[kk] by {
        let j = choose|j: int| 0 <= j < after.len() && after[j].0 == kk;
        if j != i {
            assert(after[j] == s[j]);
        }
    }
    assert(entries_map(after) =~= entries_map(s).insert(k, v));
}

/// Appending an entry with a new key inserts it into the map.
pub proof fn lemma_entries_map_push<K, V>(s: Seq<(K, V)>, k: K, v: V)
    requires
        distinct_entry_keys(s),
        !entries_map(s).dom().contains(k),
    ensures
        distinct_entry_keys(s.push((k, v))),
        entries_map(s.push((k, v))) == entries_map(s).insert(k, v),
{
    lemma_entries_map(s);
    let after = s.push((k, v));
    assert(after.drop_last() =~= s);
    assert forall|a: int, b: int| 0 <= a < b < after.len() implies #[trigger] after[a].0 != #[trigger] after[b].0 by {
        if b == after.len() - 1 {
            assert(after[a] == s[a]);
        } else {
            assert(after[a] == s[a] && after[b] == s[b]);
        }
    }
}

/// Removing an entry removes its key from the map.
pub proof fn lemma_entries_map_remove<K, V>(s: Seq<(K, V)>, i: int)
    requires
        distinct_entry_keys(s),
        0 <= i < s.len(),
    ensures
        distinct_entry_keys(s.remove(i)),
        entries_map(s.remove(i)) == entries_map(s).remove(s[i].0),
{
    let k = s[i].0;
    let after = s.remove(i);
    lemma_entries_map(s);
    assert forall|a: int, b: int| 0 <= a < b < after.len() implies #[trigger] after[a].0 != #[trigger] after[b].0 by {
        let aa = if a < i { a } else { a + 1 };
        let bb = if b < i { b } else { b + 1 };
        assert(after[a] == s[aa] && after[b] == s[bb]);
    }
    lemma_entries_map(after);
    assert forall|kk: K| #[trigger] entries_map(after).dom().contains(kk) <==> entries_map(s).remove(k).dom().contains(kk) by {
        if entries_map(after).dom().contains(kk) {
            let j = choose|j: int| 0 <= j < after.len() && after[j].0 == kk;
            let jj = if j < i { j } else { j + 1 };
            assert(after[j] == s[jj]);
            assert(s[jj].0 != s[i].0);
        }
        if entries_map(s).remove(k).dom().contains(kk) {
            let j = choose|j: int| 0 <= j < s.len() && s[j].0 == kk;
            assert(j != i);
            let jj = if j < i { j } else { j - 1 };
            assert(after[jj] == s[j]);
        }
    }
    assert forall|kk: K| #[trigger] entries_map(after).dom().contains(kk) implies entries_map(after)[kk] == entries_map(s)[kk] by {
        let j = choose|j: int| 0 <= j < after.len() && after[j].0 == kk;
        let jj = if j < i { j } else { j + 1 };
        assert(after[j] == s[jj]);
    }
    assert(entries_map(after) =~= entries_map(s).remove(k));
}

/// Entries of `s` whose value satisfies `keep`, in order.
pub open spec fn entries_where<V>(s: Seq<([u8; 32], V)>, keep: spec_fn(V) -> bool) -> Seq<([u8; 32], V)>
    decreases s.len(),
{
    if s.len() == 0 {
        Seq::empty()
    } else if keep(s.last().1) {
        entries_where(s.drop_last(), keep).push(s.last())
    } else {
        entries_where(s.drop_last(), keep)
    }
}

/// The entries of `m` whose value satisfies `keep`.
pub open spec fn map_where<V>(m: Map<[u8; 32], V>, keep: spec_fn(V) -> bool) -> Map<[u8; 32], V> {
    m.restrict(m.dom().filter(|k: [u8; 32]| keep(m[k])))
}

proof fn lemma_entries_where<V>(s: Seq<([u8; 32], V)>, keep: spec_fn(V) -> bool)
    requires
        distinct_entry_keys(s),
    ensures
        distinct_entry_keys(entries_where(s, keep)),
        forall|i: int| 0 <= i < entries_where(s, keep).len() ==>
            exists|k: int| 0 <= k < s.len() && #[trigger] entries_where(s, keep)[i] == s[k],
        entries_map(entries_where(s, keep)) == map_where(entries_map(s), keep),
    decreases s.len(),
{
    let m = entries_map(s);
    let want = map_where(m, keep);
    if s.len() == 0 {
        assert(want =~= Map::empty());
    } else {
        let t = s.drop_last();
        assert forall|i: int, j: int| 0 <= i < j < t.len() implies #[trigger] t[i].0 != #[trigger] t[j].0 by {
            assert(t[i] == s[i] && t[j] == s[j]);
        }
        lemma_entries_where(t, keep);
        lemma_entries_map(t);
        let x = s.last();
        assert(!entries_map(t).dom().contains(x.0)) by {
            if entries_map(t).dom().contains(x.0) {
                let i = choose|i: int| 0 <= i < t.len() && t[i].0 == x.0;
                assert(s[i] == t[i]);
                assert(s[i].0 != s[s.len() - 1].0);
            }
        }
        let f = entries_where(t, keep);
        let wt = map_where(entries_map(t), keep);
        assert forall|i: int| 0 <= i < f.len() implies exists|k: int| 0 <= k < s.len() && #[trigger] f[i] == s[k] by {
            let k = choose|k: int| 0 <= k < t.len() && f[i] == t[k];
            assert(t[k] == s[k]);
        }
        if keep(x.1) {
            let g = f.push(x);
            assert forall|i: int| 0 <= i < f.len() implies #[trigger] f[i].0 != x.0 by {
                let k = choose|k: int| 0 <= k < t.len() && f[i] == t[k];
                assert(t[k] == s[k]);
                assert(s[k].0 != s[s.len() - 1].0);
            }
            assert forall|i: int, j: int| 0 <= i < j < g.len() implies #[trigger] g[i].0 != #[trigger] g[j].0 by {
                if j < f.len() {
                    assert(g[i] == f[i] && g[j] == f[j]);
                } else {
                    assert(g[i] == f[i]);
                }
            }
            assert forall|i: int| 0 <= i < g.len() implies exists|k: int| 0 <= k < s.len() && #[trigger] g[i] == s[k] by {
                if i < f.len() {
                    assert(g[i] == f[i]);
                } else {
                    assert(g[i] == s[s.len() - 1]);
                }
            }
            assert(want =~= wt.insert(x.0, x.1));
            assert(entries_where(s, keep) == g);
            assert(g.drop_last() =~= f);
        } else {
            assert(want =~= wt);
            assert(entries_where(s, keep) == f);
        }
    }
}

/// A map from 32-byte keys to values.
#[derive(Debug, Clone)]
pub struct KeyMap<V> {
    entries: Vec<([u8; 32], V)>,
}

impl<V> KeyMap<V> {
    /// The map.
    pub closed spec fn view_map(&self) -> Map<[u8; 32], V> {
        entries_map(self.entries@)
    }

    /// The entries in insertion order.
    pub closed spec fn entry_seq(&self) -> Seq<([u8; 32], V)> {
        self.entries@
    }

    /// The keys in insertion order.
    pub closed spec fn key_seq(&self) -> Seq<[u8; 32]> {
        self.entries@.map_values(|e: ([u8; 32], V)| e.0)
    }

    /// The keys in insertion order are the map's keys, each once.
    pub proof fn lemma_key_seq(&self)
        requires
            self.wf(),
        ensures
            self.key_seq().len() == self.view_map().dom().len(),
            self.key_seq().no_duplicates(),
            forall|k: [u8; 32]| #[trigger] self.view_map().dom().contains(k) <==> self.key_seq().contains(k),
    {
        lemma_entries_map(self.entries@);
        let ks = self.key_seq();
        assert forall|k: [u8; 32]| #[trigger] self.view_map().dom().contains(k) <==> ks.contains(k) by {
            if self.view_map().dom().contains(k) {
                let i = choose|i: int| 0 <= i < self.entries@.len() && self.entries@[i].0 == k;
                assert(ks[i] == k);
            }
            if ks.contains(k) {
                let i = choose|i: int| 0 <= i < ks.len() && ks[i] == k;
                assert(self.entries@[i].0 == k);
            }
        }
        assert forall|i: int, j: int| 0 <= i < ks.len() && 0 <= j < ks.len() && i != j implies ks[i] != ks[j] by {
            if i < j {
                assert(self.entries@[i].0 != self.entries@[j].0);
            } else {
                assert(self.entries@[j].0 != self.entries@[i].0);
            }
        }
    }

    /// No key is held twice.
    pub closed spec fn wf(&self) -> bool {
        distinct_entry_keys(self.entries@)
    }

    /// The empty map.
    pub fn new() -> (r: KeyMap<V>)
        ensures
            r.wf(),
            r.view_map() == Map::<[u8; 32], V>::empty(),
            r.entry_seq().len() == 0,
    {
        KeyMap { entries: Vec::new() }
    }

    fn index_of(&self, k: &[u8; 32]) -> (r: Option<usize>)
        requires
            self.wf(),
        ensures
            r is Some <==> self.view_map().dom().contains(*k),
            r matches Some(i) ==> i < self.entries@.len() && self.entries@[i as int].0 == *k,
    {
        let mut i: usize = 0;
        while i < self.entries.len()
            invariant
                i <= self.entries@.len(),
                self.wf(),
                forall|j: int| 0 <= j < i ==> #[trigger] self.entries@[j].0 != *k,
            decreases self.entries@.len() - i,
        {
            if crate::bytes::bytes32_eq(&self.entries[i].0, k) {
                proof {
                    lemma_entries_map(self.entries@);
                    assert(self.entries@[i as int].0 == *k);
                }
                return Some(i);
            }
            i += 1;
        }
        proof {
            lemma_entries_map(self.entries@);
        }
        None
    }

    /// The value at `k`, if any.
    pub fn get(&self, k: &[u8; 32]) -> (r: Option<&V>)
        requires
            self.wf(),
        ensures
            r is Some <==> self.view_map().dom().contains(*k),
            r matches Some(v) ==> *v == self.view_map()[*k],
    {
        match self.index_of(k) {
            Some(i) => {
                proof {
                    lemma_entries_map(self.entries@);
                }
                Some(&self.entries[i].1)
            },
            None => None,
        }
    }

    /// Whether `k` has a value.
    pub fn contains_key(&self, k: &[u8; 32]) -> (r: bool)
        requires
            self.wf(),
        ensures
            r == self.view_map().dom().contains(*k),
    {
        self.index_of(k).is_some()
    }

    /// Sets the value at `k` to `v`.
    pub fn insert(&mut self, k: [u8; 32], v: V)
        requires
            old(self).wf(),
        ensures
            final(self).wf(),
            final(self).view_map() == old(self).view_map().insert(k, v),
    {
        let ghost before = self.entries@;
        match self.index_of(&k) {
            Some(i) => {
                self.entries.set(i, (k, v));
                proof {
                    assert(self.entries@ =~= before.update(i as int, (before[i as int].0, v)));
                    lemma_entries_map_update(before, i as int, v);
                }
            },
            None => {
                self.entries.push((k, v));
                proof {
                    lemma_entries_map_push(before, k, v);
                }
            },
        }
    }

    /// Removes the value at `k`, returning it.
    pub fn remove(&mut self, k: &[u8; 32]) -> (r: Option<V>)
        requires
            old(self).wf(),
        ensures
            final(self).wf(),
            final(self).view_map() == old(self).view_map().remove(*k),
            r is Some <==> old(self).view_map().dom().contains(*k),
            r matches Some(v) ==> v == old(self).view_map()[*k],
    {
        proof {
            lemma_entries_map(self.entries@);
        }
        match self.index_of(k) {
            Some(i) => {
                let ghost before = self.entries@;
                let (_key, v) = self.entries.remove(i);
                proof {
                    assert(self.entries@ =~= before.remove(i as int));
                    lemma_entries_map_remove(before, i as int);
                }
                Some(v)
            },
            None => {
                proof {
                    assert(entries_map(self.entries@) =~= entries_map(self.entries@).remove(*k));
                }
                None
            },
        }
    }

    /// Number of keys.
    pub fn len(&self) -> (r: usize)
        requires
            self.wf(),
        ensures
            r == self.view_map().dom().len(),
    {
        proof {
            lemma_entries_map(self.entries@);
        }
        self.entries.len()
    }

    /// The keys, in insertion order.
    pub fn keys(&self) -> (r: Vec<[u8; 32]>)
        requires
            self.wf(),
        ensures
            r@ == self.key_seq(),
            r@.len() == self.view_map().dom().len(),
            forall|k: [u8; 32]| self.view_map().dom().contains(k) <==> r@.contains(k),
    {
        proof {
            lemma_entries_map(self.entries@);
        }
        let mut out: Vec<[u8; 32]> = Vec::new();
        let mut i: usize = 0;
        while i < self.entries.len()
            invariant
                i <= self.entries@.len(),
                out@.len() == i,
                forall|j: int| 0 <= j < i ==> #[trigger] out@[j] == self.entries@[j].0,
            decreases self.entries@.len() - i,
        {
            out.push(self.entries[i].0);
            i += 1;
        }
        proof {
            assert(out@ =~= self.key_seq());
            assert forall|k: [u8; 32]| self.view_map().dom().contains(k) <==> out@.contains(k) by {
                if self.view_map().dom().contains(k) {
                    let j = choose|j: int| 0 <= j < self.entries@.len() && self.entries@[j].0 == k;
                    assert(out@[j] == k);
                }
                if out@.contains(k) {
                    let j = choose|j: int| 0 <= j < out@.len() && out@[j] == k;
                    assert(self.entries@[j].0 == k);
                }
            }
        }
        out
    }
}

/// Values strictly above `bound`.
pub open spec fn above(bound: u64) -> spec_fn(u64) -> bool {
    |v: u64| v > bound
}

impl KeyMap<u64> {
    /// Keeps the entries whose value is above `bound`.
    pub fn retain_above(&mut self, bound: u64)
        requires
            old(self).wf(),
        ensures
            final(self).wf(),
            final(self).view_map() == map_where(old(self).view_map(), above(bound)),
    {
        let ghost orig = self.entries@;
        let mut kept: Vec<([u8; 32], u64)> = Vec::new();
        let mut i: usize = 0;
        while i < self.entries.len()
            invariant
                i <= self.entries@.len(),
                self.entries@ == orig,
                kept@ == entries_where(orig.subrange(0, i as int), above(bound)),
            decreases self.entries@.len() - i,
        {
            proof {
                assert(orig.subrange(0, i + 1).drop_last() =~= orig.subrange(0, i as int));
            }
            let e = self.entries[i];
            if e.1 > bound {
                kept.push(e);
            }
            i += 1;
        }
        proof {
            assert(orig.subrange(0, orig.len() as int) =~= orig);
            lemma_entries_where(orig, above(bound));
        }
        self.entries = kept;
    }
}

} // verus!
