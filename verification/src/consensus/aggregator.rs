//! Vote aggregation: votes grouped by (slot, block hash), equivocation
//! refused, and the two-thirds supermajority test.
use vstd::prelude::*;
use crate::account::Pubkey;
use crate::crypto::ed25519_valid_spec;
use super::staking::{StakePool, StakeInfo, spec_total_stake};
use super::validators::{ValidatorSet, first_with_key, sum_reputation};
use super::votes::{Vote, vote_message};

verus! {

/// Votes for one (slot, block hash).
#[derive(Debug, Clone)]
pub struct VoteBucket {
    pub slot: u64,
    pub block_hash: crate::hash::Hash,
    pub votes: Vec<Vote>,
}

/// Index of the last bucket of `b` keyed by (`slot`, `hash`), if any.
pub open spec fn find_bucket(b: Seq<VoteBucket>, slot: u64, hash: crate::hash::Hash) -> Option<int>
    decreases b.len(),
{
    if b.len() == 0 {
        None
    } else if b.last().slot == slot && b.last().block_hash == hash {
        Some(b.len() - 1)
    } else {
        find_bucket(b.drop_last(), slot, hash)
    }
}

/// The votes recorded for (`slot`, `hash`), if any bucket holds them.
pub open spec fn votes_for(b: Seq<VoteBucket>, slot: u64, hash: crate::hash::Hash) -> Option<Seq<Vote>> {
    match find_bucket(b, slot, hash) {
        Some(j) => Some(b[j].votes@),
        None => None,
    }
}

/// Whether some recorded vote is by `validator` at `slot`.
pub open spec fn voted_in_slot(b: Seq<VoteBucket>, slot: u64, validator: Pubkey) -> bool {
    exists|j: int, i: int| 0 <= j < b.len() && 0 <= i < b[j].votes@.len()
        && #[trigger] b[j].votes@[i].slot == slot && b[j].votes@[i].validator == validator
}

/// Every vote sits in the bucket of its own slot and hash, and no validator has
/// two votes at one slot.
pub open spec fn buckets_wf(b: Seq<VoteBucket>) -> bool {
    &&& forall|j: int, i: int| 0 <= j < b.len() && 0 <= i < b[j].votes@.len() ==>
        (#[trigger] b[j].votes@[i]).slot == b[j].slot && b[j].votes@[i].block_hash == b[j].block_hash
    &&& forall|j1: int, i1: int, j2: int, i2: int|
        0 <= j1 < b.len() && 0 <= i1 < b[j1].votes@.len() && 0 <= j2 < b.len() && 0 <= i2 < b[j2].votes@.len()
        && (j1 != j2 || i1 != i2) && (#[trigger] b[j1].votes@[i1]).slot == (#[trigger] b[j2].votes@[i2]).slot
        ==> b[j1].votes@[i1].validator != b[j2].votes@[i2].validator
}

/// Stake a vote carries: its validator's total stake in the pool, or nothing.
pub open spec fn vote_stake(v: Vote, m: Map<[u8; 32], StakeInfo>) -> nat {
    if m.dom().contains(v.validator.0) { spec_total_stake(m[v.validator.0]) as nat } else { 0 }
}

/// Sum of the stake the votes carry.
pub open spec fn votes_stake(s: Seq<Vote>, m: Map<[u8; 32], StakeInfo>) -> nat
    decreases s.len(),
{
    if s.len() == 0 { 0 } else { votes_stake(s.drop_last(), m) + vote_stake(s.last(), m) }
}

/// Reputation a vote carries: its validator's reputation in the set, or nothing.
pub open spec fn vote_reputation(v: Vote, set: Seq<super::validators::ValidatorInfo>) -> nat {
    match first_with_key(set, v.validator) {
        Some(i) => set[i].reputation as nat,
        None => 0,
    }
}

/// Sum of the reputation the votes carry.
pub open spec fn votes_reputation(s: Seq<Vote>, set: Seq<super::validators::ValidatorInfo>) -> nat
    decreases s.len(),
{
    if s.len() == 0 { 0 } else { votes_reputation(s.drop_last(), set) + vote_reputation(s.last(), set) }
}

/// Whether the votes reach two thirds: by stake when the pool holds any,
/// else by reputation.
pub open spec fn spec_supermajority(
    votes: Option<Seq<Vote>>,
    set: Seq<super::validators::ValidatorInfo>,
    m: Map<[u8; 32], StakeInfo>,
    total_stake: u64,
) -> bool {
    match votes {
        None => false,
        Some(s) => if total_stake == 0 {
            votes_reputation(s, set) * 3 >= sum_reputation(set) * 2
        } else {
            votes_stake(s, m) * 3 >= total_stake * 2
        },
    }
}

/// With stake in the pool, votes make a supermajority exactly when the
/// stake behind them is at least two thirds of the pool's total; so a third
/// of the stake, or anything up to two thirds, is never enough.
pub proof fn lemma_supermajority_two_thirds(s: Seq<Vote>, set: Seq<super::validators::ValidatorInfo>,
    m: Map<[u8; 32], StakeInfo>, total_stake: u64)
    requires
        total_stake > 0,
    ensures
        spec_supermajority(Some(s), set, m, total_stake) <==> 3 * votes_stake(s, m) >= 2 * total_stake,
        3 * votes_stake(s, m) < 2 * total_stake ==> !spec_supermajority(Some(s), set, m, total_stake),
{
}

/// Two groups of votes whose stakes together do not exceed the pool's total
/// (for instance, for two different blocks at one slot from validators that
/// vote once) cannot both make a supermajority.
pub proof fn lemma_no_two_supermajorities(s1: Seq<Vote>, s2: Seq<Vote>, set: Seq<super::validators::ValidatorInfo>,
    m: Map<[u8; 32], StakeInfo>, total_stake: u64)
    requires
        total_stake > 0,
        votes_stake(s1, m) + votes_stake(s2, m) <= total_stake,
    ensures
        !(spec_supermajority(Some(s1), set, m, total_stake) && spec_supermajority(Some(s2), set, m, total_stake)),
{
}

proof fn lemma_find_bucket(b: Seq<VoteBucket>, slot: u64, hash: crate::hash::Hash, i: int)
    requires
        0 <= i <= b.len(),
        forall|j: int| i <= j < b.len() ==> !(#[trigger] b[j].slot == slot && b[j].block_hash == hash),
    ensures
        i > 0 && b[i - 1].slot == slot && b[i - 1].block_hash == hash ==> find_bucket(b, slot, hash) == Some(i - 1),
        i == 0 ==> find_bucket(b, slot, hash) is None,
    decreases b.len(),
{
    if b.len() > 0 && i < b.len() {
        let t = b.drop_last();
        assert forall|j: int| i <= j < t.len() implies !(#[trigger] t[j].slot == slot && t[j].block_hash == hash) by {
            assert(t[j] == b[j]);
        }
        lemma_find_bucket(t, slot, hash, i);
        if i > 0 {
            assert(t[i - 1] == b[i - 1]);
        }
    }
}

proof fn lemma_find_bucket_same_keys(b: Seq<VoteBucket>, c: Seq<VoteBucket>, slot: u64, hash: crate::hash::Hash)
    requires
        b.len() == c.len(),
        forall|j: int| 0 <= j < b.len() ==> #[trigger] b[j].slot == c[j].slot && b[j].block_hash == c[j].block_hash,
    ensures
        find_bucket(b, slot, hash) == find_bucket(c, slot, hash),
    decreases b.len(),
{
    if b.len() > 0 {
        let (tb, tc) = (b.drop_last(), c.drop_last());
        assert forall|j: int| 0 <= j < tb.len() implies #[trigger] tb[j].slot == tc[j].slot && tb[j].block_hash == tc[j].block_hash by {
            assert(tb[j] == b[j] && tc[j] == c[j]);
        }
        lemma_find_bucket_same_keys(tb, tc, slot, hash);
        let n = b.len() - 1;
        assert(b[n].slot == c[n].slot && b[n].block_hash == c[n].block_hash);
    }
}

proof fn lemma_find_bucket_range(b: Seq<VoteBucket>, slot: u64, hash: crate::hash::Hash)
    ensures
        find_bucket(b, slot, hash) matches Some(j) ==> 0 <= j < b.len() && b[j].slot == slot && b[j].block_hash == hash,
    decreases b.len(),
{
    if b.len() > 0 {
        lemma_find_bucket_range(b.drop_last(), slot, hash);
    }
}

/// Collects votes per (slot, block hash) and refuses a second vote by one
/// validator at one slot.
#[derive(Debug, Clone)]
pub struct VoteAggregator {
    buckets: Vec<VoteBucket>,
}

impl VoteAggregator {
    /// The buckets, in creation order.
    pub closed spec fn buckets_view(&self) -> Seq<VoteBucket> {
        self.buckets@
    }

    /// The votes recorded for (`slot`, `hash`), if any.
    pub open spec fn votes_view(&self, slot: u64, hash: crate::hash::Hash) -> Option<Seq<Vote>> {
        votes_for(self.buckets_view(), slot, hash)
    }

    /// Whether `validator` has a recorded vote at `slot`.
    pub open spec fn has_vote_at(&self, slot: u64, validator: Pubkey) -> bool {
        voted_in_slot(self.buckets_view(), slot, validator)
    }

    /// Internal consistency (see `buckets_wf`).
    pub open spec fn wf(&self) -> bool {
        buckets_wf(self.buckets_view())
    }

    /// An empty aggregator.
    pub fn new() -> (r: VoteAggregator)
        ensures
            r.wf(),
            r.buckets_view().len() == 0,
    {
        VoteAggregator { buckets: Vec::new() }
    }

    fn find(&self, slot: u64, hash: &crate::hash::Hash) -> (r: Option<usize>)
        ensures
            r matches Some(j) ==> j < self.buckets@.len(),
            r matches Some(j) ==> find_bucket(self.buckets@, slot, *hash) == Some(j as int),
            r is None ==> find_bucket(self.buckets@, slot, *hash) is None,
    {
        let mut i: usize = self.buckets.len();
        while i > 0
            invariant
                i <= self.buckets@.len(),
                forall|j: int| i <= j < self.buckets@.len() ==> !(#[trigger] self.buckets@[j].slot == slot && self.buckets@[j].block_hash == *hash),
            decreases i,
        {
            let b = &self.buckets[i - 1];
            if b.slot == slot && b.block_hash == *hash {
                proof {
                    lemma_find_bucket(self.buckets@, slot, *hash, i as int);
                }
                return Some(i - 1);
            }
            i -= 1;
        }
        proof {
            lemma_find_bucket(self.buckets@, slot, *hash, 0);
        }
        None
    }

    fn voted_in(&self, slot: u64, validator: &Pubkey) -> (r: bool)
        ensures
            r == voted_in_slot(self.buckets@, slot, *validator),
    {
        let mut j: usize = 0;
        while j < self.buckets.len()
            invariant
                j <= self.buckets@.len(),
                forall|jj: int, i: int| 0 <= jj < j && 0 <= i < self.buckets@[jj].votes@.len()
                    ==> !(#[trigger] self.buckets@[jj].votes@[i].slot == slot && self.buckets@[jj].votes@[i].validator == *validator),
            decreases self.buckets@.len() - j,
        {
            let b = &self.buckets[j];
            let mut i: usize = 0;
            while i < b.votes.len()
                invariant
                    j < self.buckets@.len(),
                    *b == self.buckets@[j as int],
                    i <= b.votes@.len(),
                    forall|ii: int| 0 <= ii < i ==> !(#[trigger] b.votes@[ii].slot == slot && b.votes@[ii].validator == *validator),
                decreases b.votes@.len() - i,
            {
                if b.votes[i].slot == slot && b.votes[i].validator == *validator {
                    assert(self.buckets@[j as int].votes@[i as int].slot == slot);
                    return true;
                }
                i += 1;
            }
            j += 1;
        }
        false
    }

    /// Adds `vote` when its signature is valid and its validator has no vote at
    /// its slot yet; returns whether it was added.
    pub fn add_vote(&mut self, vote: Vote) -> (r: bool)
        requires
            old(self).wf(),
        ensures
            final(self).wf(),
            r == (ed25519_valid_spec(vote.validator.0@, vote_message(vote.slot, vote.block_hash), vote.signature@)
                && !old(self).has_vote_at(vote.slot, vote.validator)),
            !r ==> final(self).buckets_view() == old(self).buckets_view(),
            r ==> final(self).votes_view(vote.slot, vote.block_hash) == Some(
                match old(self).votes_view(vote.slot, vote.block_hash) {
                    Some(s) => s.push(vote),
                    None => seq![vote],
                }),
            r ==> forall|slot: u64, hash: crate::hash::Hash| !(slot == vote.slot && hash == vote.block_hash)
                ==> #[trigger] final(self).votes_view(slot, hash) == old(self).votes_view(slot, hash),
            r ==> forall|slot: u64, v: Pubkey| #[trigger] final(self).has_vote_at(slot, v)
                <==> (old(self).has_vote_at(slot, v) || (slot == vote.slot && v == vote.validator)),
    {
        if !vote.verify() {
            return false;
        }
        if self.voted_in(vote.slot, &vote.validator) {
            return false;
        }
        let ghost before = self.buckets@;
        match self.find(vote.slot, &vote.block_hash) {
            Some(j) => {
                let mut b = self.buckets.remove(j);
                proof {
                    assert(b == before[j as int]);
                    lemma_find_bucket_range(before, vote.slot, vote.block_hash);
                }
                let ghost bv = b.votes@;
                b.votes.push(vote);
                self.buckets.insert(j, b);
                proof {
                    let after = self.buckets@;
                    assert(after =~= before.update(j as int, b));
                    assert forall|k: int| 0 <= k < after.len() implies #[trigger] after[k].slot == before[k].slot && after[k].block_hash == before[k].block_hash by {}
                    assert forall|slot: u64, hash: crate::hash::Hash| true implies #[trigger] find_bucket(after, slot, hash) == find_bucket(before, slot, hash) by {
                        lemma_find_bucket_same_keys(after, before, slot, hash);
                    }
                    assert(find_bucket(after, vote.slot, vote.block_hash) == Some(j as int));
                    assert(after[j as int].votes@ == bv.push(vote));
                    assert forall|slot: u64, hash: crate::hash::Hash| !(slot == vote.slot && hash == vote.block_hash)
                        implies #[trigger] votes_for(after, slot, hash) == votes_for(before, slot, hash) by {
                        lemma_find_bucket_range(before, slot, hash);
                        assert(find_bucket(after, slot, hash) == find_bucket(before, slot, hash));
                        if find_bucket(before, slot, hash) is Some {
                            let k = find_bucket(before, slot, hash).unwrap();
                            assert(k != j);
                        }
                    }
                    assert forall|slot: u64, v: Pubkey| #[trigger] voted_in_slot(after, slot, v)
                        <==> (voted_in_slot(before, slot, v) || (slot == vote.slot && v == vote.validator)) by {
                        if voted_in_slot(after, slot, v) {
                            let (jj, i) = choose|jj: int, i: int| 0 <= jj < after.len() && 0 <= i < after[jj].votes@.len()
                                && #[trigger] after[jj].votes@[i].slot == slot && after[jj].votes@[i].validator == v;
                            if jj != j || i < bv.len() {
                                assert(before[jj].votes@[i] == after[jj].votes@[i]);
                            }
                        }
                        if voted_in_slot(before, slot, v) {
                            let (jj, i) = choose|jj: int, i: int| 0 <= jj < before.len() && 0 <= i < before[jj].votes@.len()
                                && #[trigger] before[jj].votes@[i].slot == slot && before[jj].votes@[i].validator == v;
                            assert(after[jj].votes@[i] == before[jj].votes@[i]);
                        }
                        if slot == vote.slot && v == vote.validator {
                            assert(after[j as int].votes@[bv.len() as int] == vote);
                        }
                    }
                    assert forall|jj: int, i: int| 0 <= jj < after.len() && 0 <= i < after[jj].votes@.len() implies
                        (#[trigger] after[jj].votes@[i]).slot == after[jj].slot && after[jj].votes@[i].block_hash == after[jj].block_hash by {
                        if jj != j || i < bv.len() {
                            assert(before[jj].votes@[i] == after[jj].votes@[i]);
                        }
                    }
                    assert forall|j1: int, i1: int, j2: int, i2: int|
                        0 <= j1 < after.len() && 0 <= i1 < after[j1].votes@.len() && 0 <= j2 < after.len() && 0 <= i2 < after[j2].votes@.len()
                        && (j1 != j2 || i1 != i2) && (#[trigger] after[j1].votes@[i1]).slot == (#[trigger] after[j2].votes@[i2]).slot
                        implies after[j1].votes@[i1].validator != after[j2].votes@[i2].validator by {
                        let new1 = j1 == j && i1 == bv.len();
                        let new2 = j2 == j && i2 == bv.len();
                        if !new1 {
                            assert(before[j1].votes@[i1] == after[j1].votes@[i1]);
                        }
                        if !new2 {
                            assert(before[j2].votes@[i2] == after[j2].votes@[i2]);
                        }
                    }
                }
            },
            None => {
                let mut votes: Vec<Vote> = Vec::new();
                votes.push(vote);
                let b = VoteBucket { slot: vote.slot, block_hash: vote.block_hash, votes };
                self.buckets.push(b);
                proof {
                    let after = self.buckets@;
                    assert(after.drop_last() =~= before);
                    assert(votes@ =~= seq![vote]);
                    assert forall|slot: u64, hash: crate::hash::Hash| !(slot == vote.slot && hash == vote.block_hash)
                        implies #[trigger] votes_for(after, slot, hash) == votes_for(before, slot, hash) by {
                        lemma_find_bucket_range(before, slot, hash);
                        if find_bucket(before, slot, hash) is Some {
                            let k = find_bucket(before, slot, hash).unwrap();
                            assert(after[k] == before[k]);
                        }
                    }
                    assert forall|slot: u64, v: Pubkey| #[trigger] voted_in_slot(after, slot, v)
                        <==> (voted_in_slot(before, slot, v) || (slot == vote.slot && v == vote.validator)) by {
                        if voted_in_slot(after, slot, v) {
                            let (jj, i) = choose|jj: int, i: int| 0 <= jj < after.len() && 0 <= i < after[jj].votes@.len()
                                && #[trigger] after[jj].votes@[i].slot == slot && after[jj].votes@[i].validator == v;
                            if jj < before.len() {
                                assert(before[jj] == after[jj]);
                            }
                        }
                        if voted_in_slot(before, slot, v) {
                            let (jj, i) = choose|jj: int, i: int| 0 <= jj < before.len() && 0 <= i < before[jj].votes@.len()
                                && #[trigger] before[jj].votes@[i].slot == slot && before[jj].votes@[i].validator == v;
                            assert(after[jj] == before[jj]);
                        }
                        if slot == vote.slot && v == vote.validator {
                            assert(after[before.len() as int].votes@[0] == vote);
                        }
                    }
                    assert forall|jj: int, i: int| 0 <= jj < after.len() && 0 <= i < after[jj].votes@.len() implies
                        (#[trigger] after[jj].votes@[i]).slot == after[jj].slot && after[jj].votes@[i].block_hash == after[jj].block_hash by {
                        if jj < before.len() {
                            assert(before[jj] == after[jj]);
                        }
                    }
                    assert forall|j1: int, i1: int, j2: int, i2: int|
                        0 <= j1 < after.len() && 0 <= i1 < after[j1].votes@.len() && 0 <= j2 < after.len() && 0 <= i2 < after[j2].votes@.len()
                        && (j1 != j2 || i1 != i2) && (#[trigger] after[j1].votes@[i1]).slot == (#[trigger] after[j2].votes@[i2]).slot
                        implies after[j1].votes@[i1].validator != after[j2].votes@[i2].validator by {
                        if j1 < before.len() {
                            assert(before[j1] == after[j1]);
                        }
                        if j2 < before.len() {
                            assert(before[j2] == after[j2]);
                        }
                    }
                }
            },
        }
        true
    }

    /// Adds `vote` only when its validator is in `validator_set` (then as `add_vote`).
    pub fn add_vote_validated(&mut self, vote: Vote, validator_set: &ValidatorSet) -> (r: bool)
        requires
            old(self).wf(),
        ensures
            final(self).wf(),
            first_with_key(validator_set.view_seq(), vote.validator) is None ==> !r && final(self).buckets_view() == old(self).buckets_view(),
            first_with_key(validator_set.view_seq(), vote.validator) is Some ==> r == (
                ed25519_valid_spec(vote.validator.0@, vote_message(vote.slot, vote.block_hash), vote.signature@)
                && !old(self).has_vote_at(vote.slot, vote.validator)),
            !r ==> final(self).buckets_view() == old(self).buckets_view(),
            r ==> final(self).votes_view(vote.slot, vote.block_hash) == Some(
                match old(self).votes_view(vote.slot, vote.block_hash) {
                    Some(s) => s.push(vote),
                    None => seq![vote],
                }),
            r ==> forall|slot: u64, hash: crate::hash::Hash| !(slot == vote.slot && hash == vote.block_hash)
                ==> #[trigger] final(self).votes_view(slot, hash) == old(self).votes_view(slot, hash),
    {
        if validator_set.get_validator(&vote.validator).is_none() {
            return false;
        }
        self.add_vote(vote)
    }

    /// The votes recorded for (`slot`, `block_hash`), if any.
    pub fn get_votes(&self, slot: u64, block_hash: &crate::hash::Hash) -> (r: Option<&Vec<Vote>>)
        ensures
            r matches Some(v) ==> self.votes_view(slot, *block_hash) == Some(v@),
            r is None ==> self.votes_view(slot, *block_hash) is None,
    {
        match self.find(slot, block_hash) {
            Some(j) => Some(&self.buckets[j].votes),
            None => None,
        }
    }

    /// Number of votes for (`slot`, `block_hash`).
    pub fn vote_count(&self, slot: u64, block_hash: &crate::hash::Hash) -> (r: usize)
        ensures
            r == match self.votes_view(slot, *block_hash) {
                Some(s) => s.len(),
                None => 0,
            },
    {
        match self.get_votes(slot, block_hash) {
            Some(v) => v.len(),
            None => 0,
        }
    }

    /// Whether the votes for (`slot`, `block_hash`) hold two thirds of the pool's
    /// total stake, or, with no stake at all, two thirds of the set's reputation.
    pub fn has_supermajority(
        &self,
        slot: u64,
        block_hash: &crate::hash::Hash,
        validator_set: &ValidatorSet,
        stake_pool: &StakePool,
    ) -> (r: bool)
        requires
            stake_pool.wf(),
            sum_reputation(validator_set.view_seq()) <= u64::MAX,
            self.votes_view(slot, *block_hash) matches Some(s) ==> votes_stake(s, stake_pool.stakes_view()) <= u64::MAX
                && votes_reputation(s, validator_set.view_seq()) <= u64::MAX,
        ensures
            r == spec_supermajority(self.votes_view(slot, *block_hash), validator_set.view_seq(),
                stake_pool.stakes_view(), stake_pool.spec_total_staked()),
    {
        let votes = match self.get_votes(slot, block_hash) {
            Some(v) => v,
            None => return false,
        };
        let total_stake = stake_pool.total_stake();
        if total_stake == 0 {
            let mut weight: u64 = 0;
            let mut i: usize = 0;
            while i < votes.len()
                invariant
                    i <= votes@.len(),
                    weight == votes_reputation(votes@.subrange(0, i as int), validator_set.view_seq()),
                    votes_reputation(votes@, validator_set.view_seq()) <= u64::MAX,
                decreases votes@.len() - i,
            {
                proof {
                    assert(votes@.subrange(0, i + 1).drop_last() =~= votes@.subrange(0, i as int));
                    lemma_votes_reputation_prefix(votes@, validator_set.view_seq(), i + 1);
                }
                match validator_set.get_validator(&votes[i].validator) {
                    Some(v) => {
                        weight = weight + v.voting_weight();
                    },
                    None => {},
                }
                i += 1;
            }
            proof {
                assert(votes@.subrange(0, votes@.len() as int) =~= votes@);
            }
            let total_weight = validator_set.total_voting_weight();
            return (weight as u128) * 3 >= (total_weight as u128) * 2;
        }
        let mut stake: u64 = 0;
        let mut i: usize = 0;
        while i < votes.len()
            invariant
                i <= votes@.len(),
                stake_pool.wf(),
                stake == votes_stake(votes@.subrange(0, i as int), stake_pool.stakes_view()),
                votes_stake(votes@, stake_pool.stakes_view()) <= u64::MAX,
            decreases votes@.len() - i,
        {
            proof {
                assert(votes@.subrange(0, i + 1).drop_last() =~= votes@.subrange(0, i as int));
                lemma_votes_stake_prefix(votes@, stake_pool.stakes_view(), i + 1);
            }
            match stake_pool.get_stake(&votes[i].validator) {
                Some(s) => {
                    stake = stake + s.total_stake();
                },
                None => {},
            }
            i += 1;
        }
        proof {
            assert(votes@.subrange(0, votes@.len() as int) =~= votes@);
        }
        (stake as u128) * 3 >= (total_stake as u128) * 2
    }

    /// Forgets the votes at slots below `current_slot - keep_slots` (saturating).
    pub fn prune_old_votes(&mut self, current_slot: u64, keep_slots: u64)
        requires
            old(self).wf(),
        ensures
            final(self).wf(),
            ({
                let cutoff = if current_slot >= keep_slots { (current_slot - keep_slots) as u64 } else { 0u64 };
                &&& final(self).buckets_view() == old(self).buckets_view().filter(|b: VoteBucket| b.slot >= cutoff)
            }),
    {
        let cutoff = if current_slot >= keep_slots { current_slot - keep_slots } else { 0 };
        let ghost orig = self.buckets@;
        let ghost pred = |b: VoteBucket| b.slot >= cutoff;
        let mut i: usize = 0;
        let ghost mut k: int = 0;
        while i < self.buckets.len()
            invariant
                buckets_wf(self.buckets@),
                0 <= k <= orig.len(),
                pred == (|b: VoteBucket| b.slot >= cutoff),
                self.buckets@ == orig.subrange(0, k).filter(pred) + orig.subrange(k, orig.len() as int),
                i == orig.subrange(0, k).filter(pred).len(),
            decreases self.buckets@.len() - i,
        {
            let ghost f = orig.subrange(0, k).filter(pred);
            let ghost cur = self.buckets@;
            proof {
                assert(cur[i as int] == orig[k]);
                assert(orig.subrange(0, k + 1).drop_last() =~= orig.subrange(0, k));
                reveal_with_fuel(Seq::filter, 1);
            }
            if self.buckets[i].slot < cutoff {
                let _gone = self.buckets.remove(i);
                proof {
                    lemma_wf_remove(cur, i as int);
                    assert(self.buckets@ =~= f + orig.subrange(k + 1, orig.len() as int));
                }
            } else {
                proof {
                    assert(cur =~= f.push(orig[k]) + orig.subrange(k + 1, orig.len() as int));
                }
                i += 1;
            }
            proof {
                k = k + 1;
            }
        }
        proof {
            assert(orig.subrange(0, k).filter(pred).len() <= k) by {
                orig.subrange(0, k).filter_lemma(pred);
            }
            if k < orig.len() {
                assert(self.buckets@.len() == i + (orig.len() - k));
            }
            assert(k == orig.len());
            assert(orig.subrange(0, orig.len() as int) =~= orig);
            assert(self.buckets@ =~= orig.filter(pred));
        }
    }
}

proof fn lemma_wf_remove(s: Seq<VoteBucket>, i: int)
    requires
        buckets_wf(s),
        0 <= i < s.len(),
    ensures
        buckets_wf(s.remove(i)),
{
    let t = s.remove(i);
    assert forall|j: int, k: int| 0 <= j < t.len() && 0 <= k < t[j].votes@.len() implies
        (#[trigger] t[j].votes@[k]).slot == t[j].slot && t[j].votes@[k].block_hash == t[j].block_hash by {
        let jj = if j < i { j } else { j + 1 };
        assert(t[j] == s[jj]);
    }
    assert forall|j1: int, i1: int, j2: int, i2: int|
        0 <= j1 < t.len() && 0 <= i1 < t[j1].votes@.len() && 0 <= j2 < t.len() && 0 <= i2 < t[j2].votes@.len()
        && (j1 != j2 || i1 != i2) && (#[trigger] t[j1].votes@[i1]).slot == (#[trigger] t[j2].votes@[i2]).slot
        implies t[j1].votes@[i1].validator != t[j2].votes@[i2].validator by {
        let a = if j1 < i { j1 } else { j1 + 1 };
        let c = if j2 < i { j2 } else { j2 + 1 };
        assert(t[j1] == s[a]);
        assert(t[j2] == s[c]);
        assert(s[a].votes@[i1] == t[j1].votes@[i1]);
        assert(s[c].votes@[i2] == t[j2].votes@[i2]);
    }
}

proof fn lemma_votes_stake_prefix(s: Seq<Vote>, m: Map<[u8; 32], StakeInfo>, i: int)
    requires
        0 <= i <= s.len(),
    ensures
        votes_stake(s.subrange(0, i), m) <= votes_stake(s, m),
    decreases s.len() - i,
{
    if i < s.len() {
        lemma_votes_stake_prefix(s, m, i + 1);
        assert(s.subrange(0, i + 1).drop_last() =~= s.subrange(0, i));
    } else {
        assert(s.subrange(0, i) =~= s);
    }
}

proof fn lemma_votes_reputation_prefix(s: Seq<Vote>, set: Seq<super::validators::ValidatorInfo>, i: int)
    requires
        0 <= i <= s.len(),
    ensures
        votes_reputation(s.subrange(0, i), set) <= votes_reputation(s, set),
    decreases s.len() - i,
{
    if i < s.len() {
        lemma_votes_reputation_prefix(s, set, i + 1);
        assert(s.subrange(0, i + 1).drop_last() =~= s.subrange(0, i));
    } else {
        assert(s.subrange(0, i) =~= s);
    }
}

} // verus!
