//! Commitment levels (processed, confirmed, finalized) and the fork-choice
//! rule over competing chain heads.
use vstd::prelude::*;
use crate::order::lex_lt;
use super::staking::{sat_add, add_sat};

verus! {

broadcast use vstd::array::group_array_axioms;

/// Confirmed slots this deep are finalized.
pub const FINALITY_DEPTH: u64 = 32;

/// Highest confirmed and finalized slots.
#[derive(Debug, Clone, Copy)]
pub struct FinalityTracker {
    confirmed_slot: u64,
    finalized_slot: u64,
}

/// Commitment level of `slot` given the finalized and confirmed slots.
pub open spec fn spec_commitment(slot: u64, finalized: u64, confirmed: u64) -> Seq<char> {
    if slot <= finalized {
        "finalized"@
    } else if slot <= confirmed {
        "confirmed"@
    } else {
        "processed"@
    }
}

impl FinalityTracker {
    /// The highest confirmed slot.
    pub closed spec fn confirmed(&self) -> u64 {
        self.confirmed_slot
    }

    /// The highest finalized slot.
    pub closed spec fn finalized(&self) -> u64 {
        self.finalized_slot
    }

    /// A tracker starting from the given slots.
    pub fn new(initial_confirmed: u64, initial_finalized: u64) -> (r: FinalityTracker)
        ensures
            r.confirmed() == initial_confirmed,
            r.finalized() == initial_finalized,
    {
        FinalityTracker { confirmed_slot: initial_confirmed, finalized_slot: initial_finalized }
    }

    /// Records that `slot` reached a supermajority. When it is above the
    /// confirmed slot, the confirmed slot becomes `slot` and the finalized slot
    /// rises to `slot - FINALITY_DEPTH` (saturating) if that is higher; returns
    /// whether the confirmed slot advanced.
    pub fn mark_confirmed(&mut self, slot: u64) -> (r: bool)
        ensures
            r == (slot > old(self).confirmed()),
            r ==> final(self).confirmed() == slot,
            !r ==> final(self).confirmed() == old(self).confirmed(),
            r ==> final(self).finalized() == (if old(self).finalized() >= (if slot >= FINALITY_DEPTH { (slot - FINALITY_DEPTH) as u64 } else { 0u64 }) {
                old(self).finalized()
            } else {
                (slot - FINALITY_DEPTH) as u64
            }),
            !r ==> final(self).finalized() == old(self).finalized(),
    {
        let prev = self.confirmed_slot;
        if slot > prev {
            self.confirmed_slot = slot;
            let new_finalized = if slot >= FINALITY_DEPTH { slot - FINALITY_DEPTH } else { 0 };
            if new_finalized > self.finalized_slot {
                self.finalized_slot = new_finalized;
            }
            true
        } else {
            false
        }
    }

    /// The highest confirmed slot.
    pub fn confirmed_slot(&self) -> (r: u64)
        ensures
            r == self.confirmed(),
    {
        self.confirmed_slot
    }

    /// The highest finalized slot.
    pub fn finalized_slot(&self) -> (r: u64)
        ensures
            r == self.finalized(),
    {
        self.finalized_slot
    }

    /// "finalized", "confirmed" or "processed" for `slot`.
    pub fn commitment_for_slot(&self, slot: u64) -> (r: &'static str)
        ensures
            r@ == spec_commitment(slot, self.finalized(), self.confirmed()),
    {
        if slot <= self.finalized_slot {
            "finalized"
        } else if slot <= self.confirmed_slot {
            "confirmed"
        } else {
            "processed"
        }
    }
}

/// Marking a slot confirmed never lowers either level, and keeps the
/// finalized slot at or below the confirmed one.
pub proof fn lemma_finality_monotone(before: FinalityTracker, after: FinalityTracker, slot: u64)
    requires
        slot > before.confirmed() ==> after.confirmed() == slot,
        slot <= before.confirmed() ==> after.confirmed() == before.confirmed() && after.finalized() == before.finalized(),
        slot > before.confirmed() ==> after.finalized() == (if before.finalized() >= (if slot >= FINALITY_DEPTH { (slot - FINALITY_DEPTH) as u64 } else { 0u64 }) {
            before.finalized()
        } else {
            (slot - FINALITY_DEPTH) as u64
        }),
    ensures
        after.confirmed() >= before.confirmed(),
        after.finalized() >= before.finalized(),
        before.finalized() <= before.confirmed() ==> after.finalized() <= after.confirmed(),
{
}

/// The commitment of a slot: every slot at or below the finalized slot is
/// "finalized", whatever the confirmed slot; a slot above it and at or
/// below the confirmed slot is "confirmed"; any later slot is "processed".
pub proof fn lemma_commitment_levels(slot: u64, finalized: u64, confirmed: u64)
    ensures
        slot <= finalized ==> spec_commitment(slot, finalized, confirmed) == "finalized"@,
        finalized < slot <= confirmed ==> spec_commitment(slot, finalized, confirmed) == "confirmed"@,
        slot > finalized && slot > confirmed ==> spec_commitment(slot, finalized, confirmed) == "processed"@,
{
}

/// A slot reported finalized stays finalized when a later slot is
/// confirmed: the finalized slot never goes down.
pub proof fn lemma_finalized_stays_finalized(before: FinalityTracker, after: FinalityTracker, confirmed_slot: u64, slot: u64)
    requires
        confirmed_slot > before.confirmed() ==> after.confirmed() == confirmed_slot,
        confirmed_slot <= before.confirmed() ==> after.confirmed() == before.confirmed() && after.finalized() == before.finalized(),
        confirmed_slot > before.confirmed() ==> after.finalized() == (if before.finalized() >= (if confirmed_slot >= FINALITY_DEPTH { (confirmed_slot - FINALITY_DEPTH) as u64 } else { 0u64 }) {
            before.finalized()
        } else {
            (confirmed_slot - FINALITY_DEPTH) as u64
        }),
        slot <= before.finalized(),
    ensures
        spec_commitment(slot, after.finalized(), after.confirmed()) == "finalized"@,
{
}

/// A chain head: (slot, block hash, accumulated stake weight).
pub type Head = (u64, crate::hash::Hash, u64);

/// `a` is preferred to `b`: higher slot, then more weight, then the larger hash.
pub open spec fn head_gt(a: Head, b: Head) -> bool {
    a.0 > b.0 || (a.0 == b.0 && (a.2 > b.2 || (a.2 == b.2 && lex_lt(b.1.0@, a.1.0@))))
}

/// Index of the preferred head of non-empty `hs`; among equals the last one.
pub open spec fn best_head_index(hs: Seq<Head>) -> int
    decreases hs.len(),
{
    if hs.len() <= 1 {
        0
    } else {
        let i = best_head_index(hs.drop_last());
        if head_gt(hs[i], hs.last()) { i } else { hs.len() - 1 }
    }
}

/// The heads above `finalized`, in order.
pub open spec fn heads_after(hs: Seq<Head>, finalized: u64) -> Seq<Head>
    decreases hs.len(),
{
    if hs.len() == 0 {
        Seq::empty()
    } else if hs.last().0 > finalized {
        heads_after(hs.drop_last(), finalized).push(hs.last())
    } else {
        heads_after(hs.drop_last(), finalized)
    }
}

/// The heads with `hs[i].0 + 100 >= max_slot`, in order.
pub open spec fn heads_recent(hs: Seq<Head>, max_slot: u64) -> Seq<Head>
    decreases hs.len(),
{
    if hs.len() == 0 {
        Seq::empty()
    } else if hs.last().0 + 100 >= max_slot {
        heads_recent(hs.drop_last(), max_slot).push(hs.last())
    } else {
        heads_recent(hs.drop_last(), max_slot)
    }
}

/// The heads whose hash is in `keep`, in order.
pub open spec fn heads_kept(hs: Seq<Head>, keep: Seq<crate::hash::Hash>) -> Seq<Head>
    decreases hs.len(),
{
    if hs.len() == 0 {
        Seq::empty()
    } else if keep.contains(hs.last().1) {
        heads_kept(hs.drop_last(), keep).push(hs.last())
    } else {
        heads_kept(hs.drop_last(), keep)
    }
}

/// Highest slot among the heads (0 for none).
pub open spec fn max_head_slot(hs: Seq<Head>) -> u64
    decreases hs.len(),
{
    if hs.len() == 0 {
        0
    } else {
        let m = max_head_slot(hs.drop_last());
        if hs.last().0 > m { hs.last().0 } else { m }
    }
}

/// Index of the first head with hash `h`, if any.
pub open spec fn head_index(hs: Seq<Head>, h: crate::hash::Hash) -> Option<int>
    decreases hs.len(),
{
    if hs.len() == 0 {
        None
    } else if hs[0].1 == h {
        Some(0)
    } else {
        match head_index(hs.drop_first(), h) {
            Some(i) => Some(i + 1),
            None => None,
        }
    }
}

/// The heads after recording (`slot`, `h`, `w`): the weight of the first head
/// with hash `h` grows by `w` (saturating), or a new head is appended.
pub open spec fn heads_with(hs: Seq<Head>, slot: u64, h: crate::hash::Hash, w: u64) -> Seq<Head> {
    match head_index(hs, h) {
        Some(i) => hs.update(i, (hs[i].0, hs[i].1, sat_add(hs[i].2, w))),
        None => hs.push((slot, h, w)),
    }
}

/// Best candidate of `cands` that has a head, with that head's weight; among
/// equal weights the last one.
pub open spec fn best_candidate(hs: Seq<Head>, cands: Seq<crate::hash::Hash>) -> Option<(crate::hash::Hash, u64)>
    decreases cands.len(),
{
    if cands.len() == 0 {
        None
    } else {
        let prev = best_candidate(hs, cands.drop_last());
        let c = cands.last();
        match head_index(hs, c) {
            Some(i) => match prev {
                Some(p) => if hs[i].2 >= p.1 { Some((c, hs[i].2)) } else { prev },
                None => Some((c, hs[i].2)),
            },
            None => prev,
        }
    }
}

/// The preferred head is in range and no head is preferred to it.
pub proof fn lemma_best_head_is_maximal(hs: Seq<Head>)
    requires
        hs.len() > 0,
    ensures
        0 <= best_head_index(hs) < hs.len(),
        forall|j: int| 0 <= j < hs.len() ==> !head_gt(#[trigger] hs[j], hs[best_head_index(hs)]),
    decreases hs.len(),
{
    if hs.len() > 1 {
        let t = hs.drop_last();
        lemma_best_head_is_maximal(t);
        let i = best_head_index(t);
        let x = hs.last();
        assert(t[i] == hs[i]);
        assert forall|j: int| 0 <= j < hs.len() implies !head_gt(#[trigger] hs[j], hs[best_head_index(hs)]) by {
            if j < t.len() {
                assert(t[j] == hs[j]);
                assert(!head_gt(t[j], t[i]));
            }
            if head_gt(hs[i], x) {
                if j == hs.len() - 1 {
                    lemma_head_gt_order(hs[i], x, x);
                }
            } else {
                if j < t.len() {
                    lemma_head_gt_order(hs[j], hs[i], x);
                } else {
                    crate::order::lemma_lex_irreflexive(x.1.0@, 0);
                }
            }
        }
    } else {
        crate::order::lemma_lex_irreflexive(hs[0].1.0@, 0);
    }
}

/// `head_gt` is a strict order: asymmetric, transitive, and its negation is
/// transitive.
proof fn lemma_head_gt_order(a: Head, b: Head, c: Head)
    ensures
        head_gt(a, b) ==> !head_gt(b, a),
        head_gt(a, b) && head_gt(b, c) ==> head_gt(a, c),
        !head_gt(a, b) && !head_gt(b, c) ==> !head_gt(a, c),
{
    if a.0 == b.0 && a.2 == b.2 {
        if lex_lt(b.1.0@, a.1.0@) {
            crate::order::lemma_lex_asymmetric(b.1.0@, a.1.0@, 0);
        }
        if !lex_lt(b.1.0@, a.1.0@) && !lex_lt(a.1.0@, b.1.0@) {
            crate::order::lemma_lex_antisymmetric(a.1.0@, b.1.0@);
        }
    }
    if b.0 == c.0 && b.2 == c.2 && a.0 == b.0 && a.2 == b.2 {
        if lex_lt(b.1.0@, a.1.0@) && lex_lt(c.1.0@, b.1.0@) {
            crate::order::lemma_lex_transitive(c.1.0@, b.1.0@, a.1.0@, 0);
        }
        if !lex_lt(b.1.0@, a.1.0@) && !lex_lt(c.1.0@, b.1.0@) && lex_lt(c.1.0@, a.1.0@) {
            if lex_lt(a.1.0@, b.1.0@) {
                crate::order::lemma_lex_transitive(c.1.0@, a.1.0@, b.1.0@, 0);
            } else {
                crate::order::lemma_lex_antisymmetric(a.1.0@, b.1.0@);
            }
        }
    }
}

/// Every head the finality-respecting choice considers lies above the finalized slot.
pub proof fn lemma_heads_after_above(hs: Seq<Head>, finalized: u64)
    ensures
        forall|i: int| 0 <= i < heads_after(hs, finalized).len() ==> #[trigger] heads_after(hs, finalized)[i].0 > finalized,
    decreases hs.len(),
{
    if hs.len() > 0 {
        lemma_heads_after_above(hs.drop_last(), finalized);
        let t = heads_after(hs.drop_last(), finalized);
        if hs.last().0 > finalized {
            assert forall|i: int| 0 <= i < t.push(hs.last()).len() implies #[trigger] t.push(hs.last())[i].0 > finalized by {
                if i < t.len() {
                    assert(t.push(hs.last())[i] == t[i]);
                }
            }
        }
    }
}

proof fn lemma_head_index(hs: Seq<Head>, h: crate::hash::Hash, i: int)
    requires
        0 <= i <= hs.len(),
        forall|j: int| 0 <= j < i ==> #[trigger] hs[j].1 != h,
    ensures
        i < hs.len() && hs[i].1 == h ==> head_index(hs, h) == Some(i),
        i == hs.len() ==> head_index(hs, h) is None,
    decreases i,
{
    if i > 0 {
        let t = hs.drop_first();
        assert forall|j: int| 0 <= j < i - 1 implies #[trigger] t[j].1 != h by {
            assert(t[j] == hs[j + 1]);
        }
        lemma_head_index(t, h, i - 1);
    }
}

fn hash_lt(a: &crate::hash::Hash, b: &crate::hash::Hash) -> (r: bool)
    ensures
        r == lex_lt(a.0@, b.0@),
{
    let mut i: usize = 0;
    while i < 32
        invariant
            i <= 32,
            a.0@.len() == 32,
            b.0@.len() == 32,
            lex_lt(a.0@, b.0@) == crate::order::lex_lt_from(a.0@, b.0@, i as int),
        decreases 32 - i,
    {
        if a.0[i] < b.0[i] {
            return true;
        }
        if a.0[i] > b.0[i] {
            return false;
        }
        i += 1;
    }
    false
}

fn head_gt_exec(a: &Head, b: &Head) -> (r: bool)
    ensures
        r == head_gt(*a, *b),
{
    if a.0 != b.0 {
        a.0 > b.0
    } else if a.2 != b.2 {
        a.2 > b.2
    } else {
        hash_lt(&b.1, &a.1)
    }
}

/// Competing chain heads and the rule that picks the canonical one.
#[derive(Debug, Clone)]
pub struct ForkChoice {
    heads: Vec<Head>,
}

impl ForkChoice {
    /// The heads, in the order recorded.
    pub closed spec fn heads_view(&self) -> Seq<Head> {
        self.heads@
    }

    /// Every head's slot leaves room for the 100-slot window.
    pub open spec fn wf(&self) -> bool {
        forall|i: int| 0 <= i < self.heads_view().len() ==> #[trigger] self.heads_view()[i].0 <= u64::MAX - 100
    }

    /// No heads.
    pub fn new() -> (r: ForkChoice)
        ensures
            r.wf(),
            r.heads_view().len() == 0,
    {
        ForkChoice { heads: Vec::new() }
    }

    fn find(&self, h: &crate::hash::Hash) -> (r: Option<usize>)
        ensures
            r matches Some(i) ==> i < self.heads@.len() && head_index(self.heads@, *h) == Some(i as int),
            r is None ==> head_index(self.heads@, *h) is None,
    {
        let mut i: usize = 0;
        while i < self.heads.len()
            invariant
                i <= self.heads@.len(),
                forall|j: int| 0 <= j < i ==> #[trigger] self.heads@[j].1 != *h,
            decreases self.heads@.len() - i,
        {
            if self.heads[i].1 == *h {
                proof {
                    lemma_head_index(self.heads@, *h, i as int);
                }
                return Some(i);
            }
            i += 1;
        }
        proof {
            lemma_head_index(self.heads@, *h, i as int);
        }
        None
    }

    /// Records a head: adds `stake_weight` (saturating) to the first head with
    /// `block_hash`, or appends (`slot`, `block_hash`, `stake_weight`); then
    /// drops every head more than 100 slots below the highest.
    pub fn add_head(&mut self, slot: u64, block_hash: crate::hash::Hash, stake_weight: u64)
        requires
            old(self).wf(),
            slot <= u64::MAX - 100,
        ensures
            final(self).wf(),
            ({
                let updated = heads_with(old(self).heads_view(), slot, block_hash, stake_weight);
                final(self).heads_view() == heads_recent(updated, max_head_slot(updated))
            }),
    {
        match self.find(&block_hash) {
            Some(i) => {
                let (s, h, w) = self.heads[i];
                self.heads.set(i, (s, h, add_sat(w, stake_weight)));
            },
            None => {
                self.heads.push((slot, block_hash, stake_weight));
            },
        }
        let ghost updated = self.heads@;
        proof {
            assert(updated == heads_with(old(self).heads_view(), slot, block_hash, stake_weight));
            assert forall|i: int| 0 <= i < updated.len() implies #[trigger] updated[i].0 <= u64::MAX - 100 by {
                if i < old(self).heads@.len() {
                    assert(updated[i].0 == old(self).heads@[i].0);
                }
            }
        }
        let mut max_slot: u64 = 0;
        let mut k: usize = 0;
        while k < self.heads.len()
            invariant
                k <= self.heads@.len(),
                self.heads@ == updated,
                max_slot == max_head_slot(updated.subrange(0, k as int)),
            decreases self.heads@.len() - k,
        {
            proof {
                assert(updated.subrange(0, k + 1).drop_last() =~= updated.subrange(0, k as int));
            }
            if self.heads[k].0 > max_slot {
                max_slot = self.heads[k].0;
            }
            k += 1;
        }
        proof {
            assert(updated.subrange(0, updated.len() as int) =~= updated);
        }
        let mut kept: Vec<Head> = Vec::new();
        let mut j: usize = 0;
        while j < self.heads.len()
            invariant
                j <= self.heads@.len(),
                self.heads@ == updated,
                forall|i: int| 0 <= i < updated.len() ==> #[trigger] updated[i].0 <= u64::MAX - 100,
                kept@ == heads_recent(updated.subrange(0, j as int), max_slot),
                forall|i: int| 0 <= i < kept@.len() ==> #[trigger] kept@[i].0 <= u64::MAX - 100,
            decreases self.heads@.len() - j,
        {
            proof {
                assert(updated.subrange(0, j + 1).drop_last() =~= updated.subrange(0, j as int));
            }
            let e = self.heads[j];
            if e.0 + 100 >= max_slot {
                kept.push(e);
            }
            j += 1;
        }
        proof {
            assert(updated.subrange(0, updated.len() as int) =~= updated);
        }
        self.heads = kept;
    }

    fn best_of(v: &Vec<Head>) -> (r: usize)
        requires
            v@.len() > 0,
        ensures
            r as int == best_head_index(v@),
            r < v@.len(),
    {
        let mut best: usize = 0;
        let mut k: usize = 1;
        while k < v.len()
            invariant
                1 <= k <= v@.len(),
                best < k,
                best as int == best_head_index(v@.subrange(0, k as int)),
            decreases v@.len() - k,
        {
            proof {
                let s = v@.subrange(0, k + 1);
                assert(s.drop_last() =~= v@.subrange(0, k as int));
                assert(s[best as int] == v@[best as int]);
                assert(s.last() == v@[k as int]);
            }
            if !head_gt_exec(&v[best], &v[k]) {
                best = k;
            }
            k += 1;
        }
        proof {
            assert(v@.subrange(0, v@.len() as int) =~= v@);
        }
        best
    }

    /// The canonical head: highest slot, then most weight, then the larger hash.
    pub fn select_head(&self) -> (r: Option<(u64, crate::hash::Hash)>)
        ensures
            self.heads_view().len() == 0 ==> r is None,
            self.heads_view().len() > 0 ==> ({
                let b = self.heads_view()[best_head_index(self.heads_view())];
                r == Some((b.0, b.1))
            }),
    {
        if self.heads.len() == 0 {
            return None;
        }
        let i = Self::best_of(&self.heads);
        let (s, h, _w) = self.heads[i];
        Some((s, h))
    }

    /// The canonical head among those above `finalized_slot`.
    pub fn select_head_respecting_finality(&self, finalized_slot: u64) -> (r: Option<(u64, crate::hash::Hash)>)
        ensures
            ({
                let c = heads_after(self.heads_view(), finalized_slot);
                &&& c.len() == 0 ==> r is None
                &&& c.len() > 0 ==> r == Some((c[best_head_index(c)].0, c[best_head_index(c)].1))
            }),
    {
        let mut cands: Vec<Head> = Vec::new();
        let mut j: usize = 0;
        while j < self.heads.len()
            invariant
                j <= self.heads@.len(),
                cands@ == heads_after(self.heads@.subrange(0, j as int), finalized_slot),
            decreases self.heads@.len() - j,
        {
            proof {
                assert(self.heads@.subrange(0, j + 1).drop_last() =~= self.heads@.subrange(0, j as int));
            }
            let e = self.heads[j];
            if e.0 > finalized_slot {
                cands.push(e);
            }
            j += 1;
        }
        proof {
            assert(self.heads@.subrange(0, self.heads@.len() as int) =~= self.heads@);
        }
        if cands.len() == 0 {
            return None;
        }
        let i = Self::best_of(&cands);
        let (s, h, _w) = cands[i];
        Some((s, h))
    }

    /// All heads.
    pub fn heads(&self) -> (r: &[Head])
        ensures
            r@ == self.heads_view(),
    {
        self.heads.as_slice()
    }

    /// Forgets every head.
    pub fn clear(&mut self)
        ensures
            final(self).wf(),
            final(self).heads_view().len() == 0,
    {
        self.heads.clear();
    }

    /// Adds `weight` to the head with `block_hash` (a new head at slot 0 if none).
    pub fn add_weight(&mut self, block_hash: crate::hash::Hash, weight: u64)
        requires
            old(self).wf(),
        ensures
            final(self).wf(),
            ({
                let updated = heads_with(old(self).heads_view(), 0, block_hash, weight);
                final(self).heads_view() == heads_recent(updated, max_head_slot(updated))
            }),
    {
        self.add_head(0, block_hash, weight);
    }

    /// Weight of the first head with `block_hash`, or 0.
    pub fn get_weight(&self, block_hash: &crate::hash::Hash) -> (r: u64)
        ensures
            r == match head_index(self.heads_view(), *block_hash) {
                Some(i) => self.heads_view()[i].2,
                None => 0,
            },
    {
        match self.find(block_hash) {
            Some(i) => self.heads[i].2,
            None => 0,
        }
    }

    /// The candidate with the most weight among those that have a head (the
    /// last of equals), or None.
    pub fn select_best(&self, candidates: &[crate::hash::Hash]) -> (r: Option<crate::hash::Hash>)
        ensures
            r == match best_candidate(self.heads_view(), candidates@) {
                Some(p) => Some(p.0),
                None => None,
            },
    {
        let mut best: Option<(crate::hash::Hash, u64)> = None;
        let mut k: usize = 0;
        while k < candidates.len()
            invariant
                k <= candidates@.len(),
                best == best_candidate(self.heads@, candidates@.subrange(0, k as int)),
            decreases candidates@.len() - k,
        {
            proof {
                let s = candidates@.subrange(0, k + 1);
                assert(s.drop_last() =~= candidates@.subrange(0, k as int));
                assert(s.last() == candidates@[k as int]);
            }
            let c = candidates[k];
            match self.find(&c) {
                Some(i) => {
                    let w = self.heads[i].2;
                    match best {
                        Some(p) => {
                            if w >= p.1 {
                                best = Some((c, w));
                            }
                        },
                        None => {
                            best = Some((c, w));
                        },
                    }
                },
                None => {},
            }
            k += 1;
        }
        proof {
            assert(candidates@.subrange(0, candidates@.len() as int) =~= candidates@);
        }
        match best {
            Some(p) => Some(p.0),
            None => None,
        }
    }

    /// Keeps only the heads whose hash is in `keep_hashes`.
    pub fn prune(&mut self, keep_hashes: &[crate::hash::Hash])
        requires
            old(self).wf(),
        ensures
            final(self).wf(),
            final(self).heads_view() == heads_kept(old(self).heads_view(), keep_hashes@),
    {
        let ghost orig = self.heads@;
        proof {
            assert forall|i: int| 0 <= i < orig.len() implies #[trigger] orig[i].0 <= u64::MAX - 100 by {
                assert(orig[i] == old(self).heads_view()[i]);
            }
        }
        let mut kept: Vec<Head> = Vec::new();
        let mut j: usize = 0;
        while j < self.heads.len()
            invariant
                j <= self.heads@.len(),
                self.heads@ == orig,
                forall|i: int| 0 <= i < orig.len() ==> #[trigger] orig[i].0 <= u64::MAX - 100,
                kept@ == heads_kept(orig.subrange(0, j as int), keep_hashes@),
                forall|i: int| 0 <= i < kept@.len() ==> #[trigger] kept@[i].0 <= u64::MAX - 100,
            decreases self.heads@.len() - j,
        {
            proof {
                assert(orig.subrange(0, j + 1).drop_last() =~= orig.subrange(0, j as int));
            }
            let e = self.heads[j];
            let mut found = false;
            let mut q: usize = 0;
            while q < keep_hashes.len()
                invariant
                    q <= keep_hashes@.len(),
                    found == exists|x: int| 0 <= x < q && keep_hashes@[x] == e.1,
                decreases keep_hashes@.len() - q,
            {
                if keep_hashes[q] == e.1 {
                    found = true;
                }
                q += 1;
            }
            proof {
                if found {
                    let x = choose|x: int| 0 <= x < q && keep_hashes@[x] == e.1;
                    assert(keep_hashes@.contains(e.1));
                }
                if keep_hashes@.contains(e.1) {
                    let x = choose|x: int| 0 <= x < keep_hashes@.len() && keep_hashes@[x] == e.1;
                    assert(found);
                }
            }
            if found {
                kept.push(e);
            }
            j += 1;
        }
        proof {
            assert(orig.subrange(0, orig.len() as int) =~= orig);
        }
        self.heads = kept;
    }
}

} // verus!
