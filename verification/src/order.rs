//! Lexicographic order on public keys and a stable selection sort by key.
use vstd::prelude::*;
use crate::account::Pubkey;
use vstd::multiset::Multiset;

verus! {

broadcast use vstd::array::group_array_axioms;

/// Lexicographic "less than" of `a` and `b`, looking from index `i` on.
pub open spec fn lex_lt_from(a: Seq<u8>, b: Seq<u8>, i: int) -> bool
    decreases a.len() - i,
{
    if i < 0 || i >= a.len() || i >= b.len() {
        false
    } else if a[i] < b[i] {
        true
    } else if a[i] > b[i] {
        false
    } else {
        lex_lt_from(a, b, i + 1)
    }
}

/// Lexicographic (byte-wise, big-endian) "less than" of two byte strings.
pub open spec fn lex_lt(a: Seq<u8>, b: Seq<u8>) -> bool {
    lex_lt_from(a, b, 0)
}

/// The order is irreflexive.
pub proof fn lemma_lex_irreflexive(a: Seq<u8>, i: int)
    requires
        0 <= i,
    ensures
        !lex_lt_from(a, a, i),
    decreases a.len() - i,
{
    if i < a.len() {
        lemma_lex_irreflexive(a, i + 1);
    }
}

/// The order is asymmetric.
pub proof fn lemma_lex_asymmetric(a: Seq<u8>, b: Seq<u8>, i: int)
    requires
        0 <= i,
        lex_lt_from(a, b, i),
    ensures
        !lex_lt_from(b, a, i),
    decreases a.len() - i,
{
    if i < a.len() && i < b.len() && a[i] == b[i] {
        lemma_lex_asymmetric(a, b, i + 1);
    }
}

/// The order is transitive.
pub proof fn lemma_lex_transitive(a: Seq<u8>, b: Seq<u8>, c: Seq<u8>, i: int)
    requires
        0 <= i,
        lex_lt_from(a, b, i),
        lex_lt_from(b, c, i),
    ensures
        lex_lt_from(a, c, i),
    decreases a.len() - i,
{
    if a[i] == b[i] && b[i] == c[i] {
        lemma_lex_transitive(a, b, c, i + 1);
    }
}

/// Two strings of equal length that are not ordered either way agree from `i` on.
pub proof fn lemma_lex_total(a: Seq<u8>, b: Seq<u8>, i: int)
    requires
        0 <= i <= a.len(),
        a.len() == b.len(),
        !lex_lt_from(a, b, i),
        !lex_lt_from(b, a, i),
    ensures
        forall|j: int| i <= j < a.len() ==> a[j] == b[j],
    decreases a.len() - i,
{
    if i < a.len() {
        lemma_lex_total(a, b, i + 1);
    }
}

/// Two keys of equal length, neither less than the other, are equal.
pub proof fn lemma_lex_antisymmetric(a: Seq<u8>, b: Seq<u8>)
    requires
        a.len() == b.len(),
        !lex_lt(a, b),
        !lex_lt(b, a),
    ensures
        a == b,
{
    lemma_lex_total(a, b, 0);
    assert(a =~= b);
}

/// `a < b` in the lexicographic order of their bytes.
pub fn pubkey_lt(a: &Pubkey, b: &Pubkey) -> (r: bool)
    ensures
        r == lex_lt(a.0@, b.0@),
{
    let mut i: usize = 0;
    while i < 32
        invariant
            i <= 32,
            a.0@.len() == 32,
            b.0@.len() == 32,
            lex_lt(a.0@, b.0@) == lex_lt_from(a.0@, b.0@, i as int),
        decreases 32 - i,
    {
        if a.0[i] < b.0[i] {
            return true;
        }
        if a.0[i] > b.0[i] {
            return false;
        }
        i += 1;
    }
    false
}

/// Values that carry a 32-byte key by which they are found and ordered.
pub trait Keyed: Sized {
    /// The key of this value.
    spec fn key(&self) -> [u8; 32];

    /// The key of this value.
    fn key_exec(&self) -> (r: [u8; 32])
        ensures
            r == self.key(),
    ;
}

/// `s` is in ascending order of keys.
pub open spec fn sorted_by_key<T: Keyed>(s: Seq<T>) -> bool {
    forall|i: int, j: int| 0 <= i < j < s.len() ==> !lex_lt(#[trigger] s[j].key()@, #[trigger] s[i].key()@)
}

/// Index of the first element with the least key in `v` (which is not empty).
fn index_of_min_key<T: Keyed>(v: &Vec<T>) -> (r: usize)
    requires
        v@.len() > 0,
    ensures
        r < v@.len(),
        forall|j: int| 0 <= j < v@.len() ==> !lex_lt(#[trigger] v@[j].key()@, v@[r as int].key()@),
{
    let mut best: usize = 0;
    let mut best_key = Pubkey(v[0].key_exec());
    let mut i: usize = 1;
    proof {
        lemma_lex_irreflexive(v@[0].key()@, 0);
    }
    while i < v.len()
        invariant
            1 <= i <= v@.len(),
            best < v@.len(),
            best_key.0@ == v@[best as int].key()@,
            forall|j: int| 0 <= j < i ==> !lex_lt(#[trigger] v@[j].key()@, v@[best as int].key()@),
        decreases v@.len() - i,
    {
        let k = Pubkey(v[i].key_exec());
        if pubkey_lt(&k, &best_key) {
            proof {
                assert forall|j: int| 0 <= j < i implies !lex_lt(#[trigger] v@[j].key()@, v@[i as int].key()@) by {
                    if lex_lt(v@[j].key()@, v@[i as int].key()@) {
                        lemma_lex_transitive(v@[j].key()@, v@[i as int].key()@, v@[best as int].key()@, 0);
                    }
                }
                lemma_lex_irreflexive(v@[i as int].key()@, 0);
            }
            best = i;
            best_key = k;
        }
        i += 1;
    }
    best
}

/// Sorts `v` by key, ascending; among equal keys the earlier element comes first.
pub fn sort_by_pubkey<T: Keyed>(v: Vec<T>) -> (r: Vec<T>)
    ensures
        r@.to_multiset() == v@.to_multiset(),
        sorted_by_key(r@),
{
    broadcast use vstd::seq_lib::group_to_multiset_ensures;
    broadcast use vstd::multiset::group_multiset_axioms;
    let ghost orig = v@;
    let mut rest = v;
    let mut out: Vec<T> = Vec::new();
    while rest.len() > 0
        invariant
            out@.to_multiset().add(rest@.to_multiset()) == orig.to_multiset(),
            sorted_by_key(out@),
            forall|p: int, q: int| 0 <= p < out@.len() && 0 <= q < rest@.len()
                ==> !lex_lt(#[trigger] rest@[q].key()@, #[trigger] out@[p].key()@),
        decreases rest@.len(),
    {
        let idx = index_of_min_key(&rest);
        let ghost old_rest = rest@;
        let ghost old_out = out@;
        let x = rest.remove(idx);
        out.push(x);
        proof {
            old_rest.to_multiset_ensures();
            old_out.to_multiset_ensures();
            assert(old_rest.remove(idx as int) == rest@);
            assert(old_rest.remove(idx as int).to_multiset() == old_rest.to_multiset().remove(old_rest[idx as int]));
            assert(rest@.to_multiset() == old_rest.to_multiset().remove(x));
            assert(old_out.push(x) == out@);
            assert(out@.to_multiset() == old_out.to_multiset().insert(x));
            assert(old_rest.to_multiset().count(x) > 0);
            assert(out@.to_multiset().add(rest@.to_multiset()) =~= orig.to_multiset());
            assert forall|p: int, q: int| 0 <= p < out@.len() && 0 <= q < rest@.len()
                implies !lex_lt(#[trigger] rest@[q].key()@, #[trigger] out@[p].key()@) by {
                if q < idx {
                    assert(rest@[q] == old_rest[q]);
                } else {
                    assert(rest@[q] == old_rest[q + 1]);
                }
                if p < old_out.len() {
                    assert(out@[p] == old_out[p]);
                }
            }
            assert forall|i: int, j: int| 0 <= i < j < out@.len()
                implies !lex_lt(#[trigger] out@[j].key()@, #[trigger] out@[i].key()@) by {
                if j < old_out.len() {
                    assert(out@[j] == old_out[j]);
                    assert(out@[i] == old_out[i]);
                } else {
                    assert(out@[j] == old_rest[idx as int]);
                    assert(out@[i] == old_out[i]);
                }
            }
        }
    }
    assert(rest@.to_multiset() =~= Multiset::empty());
    out
}

} // verus!

verus! {

/// No two elements of `s` share a key.
pub open spec fn distinct_keys<T: Keyed>(s: Seq<T>) -> bool {
    forall|i: int, j: int| 0 <= i < s.len() && 0 <= j < s.len() && i != j ==> #[trigger] s[i].key() != #[trigger] s[j].key()
}

/// Some element of `s` has key `k`.
pub open spec fn has_key<T: Keyed>(s: Seq<T>, k: [u8; 32]) -> bool {
    exists|i: int| 0 <= i < s.len() && #[trigger] s[i].key() == k
}

/// An index of an element of `s` with key `k` (meaningful when there is one).
pub open spec fn key_index<T: Keyed>(s: Seq<T>, k: [u8; 32]) -> int {
    choose|i: int| 0 <= i < s.len() && #[trigger] s[i].key() == k
}

/// The map from key to element that `s` stands for.
pub open spec fn keyed_map<T: Keyed>(s: Seq<T>) -> Map<[u8; 32], T> {
    Map::new(|k: [u8; 32]| has_key(s, k), |k: [u8; 32]| s[key_index(s, k)])
}

/// With distinct keys, an element is found again by its key.
pub proof fn lemma_key_index<T: Keyed>(s: Seq<T>, i: int)
    requires
        distinct_keys(s),
        0 <= i < s.len(),
    ensures
        has_key(s, s[i].key()),
        key_index(s, s[i].key()) == i,
        keyed_map(s).dom().contains(s[i].key()),
        keyed_map(s)[s[i].key()] == s[i],
{
    assert(has_key(s, s[i].key()));
    let j = key_index(s, s[i].key());
    assert(s[j].key() == s[i].key());
}

/// Appending an element with a new key inserts it into the map.
pub proof fn lemma_keyed_push<T: Keyed>(s: Seq<T>, x: T)
    requires
        distinct_keys(s),
        !has_key(s, x.key()),
    ensures
        distinct_keys(s.push(x)),
        keyed_map(s.push(x)) == keyed_map(s).insert(x.key(), x),
{
    let t = s.push(x);
    assert forall|i: int, j: int| 0 <= i < t.len() && 0 <= j < t.len() && i != j implies #[trigger] t[i].key() != #[trigger] t[j].key() by {
        if i < s.len() && j < s.len() {
            assert(t[i] == s[i] && t[j] == s[j]);
        } else if i < s.len() {
            assert(t[i] == s[i]);
        } else {
            assert(t[j] == s[j]);
        }
    }
    assert forall|k: [u8; 32]| #[trigger] keyed_map(t).dom().contains(k) <==> keyed_map(s).insert(x.key(), x).dom().contains(k) by {
        if has_key(s, k) {
            let i = key_index(s, k);
            assert(t[i] == s[i]);
        }
        if has_key(t, k) && k != x.key() {
            let i = key_index(t, k);
            assert(i < s.len());
            assert(s[i] == t[i]);
        }
        assert(t[s.len() as int] == x);
    }
    assert forall|k: [u8; 32]| #[trigger] keyed_map(t).dom().contains(k) implies keyed_map(t)[k] == keyed_map(s).insert(x.key(), x)[k] by {
        let i = key_index(t, k);
        lemma_key_index(t, i);
        if k == x.key() {
            lemma_key_index(t, s.len() as int);
        } else {
            assert(i < s.len());
            assert(t[i] == s[i]);
            lemma_key_index(s, i);
        }
    }
    assert(keyed_map(t) =~= keyed_map(s).insert(x.key(), x));
}

/// Replacing an element by one with the same key updates the map at that key.
pub proof fn lemma_keyed_update<T: Keyed>(s: Seq<T>, i: int, x: T)
    requires
        distinct_keys(s),
        0 <= i < s.len(),
        x.key() == s[i].key(),
    ensures
        distinct_keys(s.update(i, x)),
        keyed_map(s.update(i, x)) == keyed_map(s).insert(x.key(), x),
{
    let t = s.update(i, x);
    assert forall|a: int, b: int| 0 <= a < t.len() && 0 <= b < t.len() && a != b implies #[trigger] t[a].key() != #[trigger] t[b].key() by {
        assert(t[a].key() == s[a].key());
        assert(t[b].key() == s[b].key());
    }
    lemma_key_index(s, i);
    assert forall|k: [u8; 32]| #[trigger] keyed_map(t).dom().contains(k) <==> keyed_map(s).insert(x.key(), x).dom().contains(k) by {
        if has_key(s, k) {
            let j = key_index(s, k);
            assert(t[j].key() == s[j].key());
        }
        if has_key(t, k) {
            let j = key_index(t, k);
            assert(t[j].key() == s[j].key());
        }
    }
    assert forall|k: [u8; 32]| #[trigger] keyed_map(t).dom().contains(k) implies keyed_map(t)[k] == keyed_map(s).insert(x.key(), x)[k] by {
        let j = key_index(t, k);
        lemma_key_index(t, j);
        if j != i {
            assert(t[j] == s[j]);
            lemma_key_index(s, j);
        }
    }
    assert(keyed_map(t) =~= keyed_map(s).insert(x.key(), x));
}

/// Removing an element removes its key from the map.
pub proof fn lemma_keyed_remove<T: Keyed>(s: Seq<T>, i: int)
    requires
        distinct_keys(s),
        0 <= i < s.len(),
    ensures
        distinct_keys(s.remove(i)),
        keyed_map(s.remove(i)) == keyed_map(s).remove(s[i].key()),
{
    let t = s.remove(i);
    assert forall|a: int| 0 <= a < t.len() implies #[trigger] t[a] == s[if a < i { a } else { a + 1 }] by {}
    assert forall|a: int, b: int| 0 <= a < t.len() && 0 <= b < t.len() && a != b implies #[trigger] t[a].key() != #[trigger] t[b].key() by {
        let a2 = if a < i { a } else { a + 1 };
        let b2 = if b < i { b } else { b + 1 };
        assert(t[a] == s[a2]);
        assert(t[b] == s[b2]);
    }
    assert forall|k: [u8; 32]| #[trigger] keyed_map(t).dom().contains(k) <==> keyed_map(s).remove(s[i].key()).dom().contains(k) by {
        if has_key(t, k) {
            let a = key_index(t, k);
            let a2 = if a < i { a } else { a + 1 };
            assert(t[a] == s[a2]);
        }
        if has_key(s, k) && k != s[i].key() {
            let a = key_index(s, k);
            assert(a != i);
            let a1 = if a < i { a } else { a - 1 };
            assert(t[a1] == s[a]);
        }
    }
    assert forall|k: [u8; 32]| #[trigger] keyed_map(t).dom().contains(k) implies keyed_map(t)[k] == keyed_map(s).remove(s[i].key())[k] by {
        let a = key_index(t, k);
        lemma_key_index(t, a);
        let a2 = if a < i { a } else { a + 1 };
        assert(t[a] == s[a2]);
        lemma_key_index(s, a2);
    }
    assert(keyed_map(t) =~= keyed_map(s).remove(s[i].key()));
}

/// Position of the element of `v` with key `k`, if any.
pub fn find_key<T: Keyed>(v: &Vec<T>, k: &[u8; 32]) -> (r: Option<usize>)
    ensures
        r matches Some(i) ==> i < v@.len() && v@[i as int].key() == *k,
        r is None ==> !has_key(v@, *k),
{
    let mut i: usize = 0;
    while i < v.len()
        invariant
            i <= v@.len(),
            forall|j: int| 0 <= j < i ==> #[trigger] v@[j].key() != *k,
        decreases v@.len() - i,
    {
        let ki = v[i].key_exec();
        if crate::bytes::bytes32_eq(&ki, k) {
            return Some(i);
        }
        i += 1;
    }
    None
}

} // verus!
