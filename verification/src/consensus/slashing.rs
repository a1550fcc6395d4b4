//! Slashing: offenses and their evidence, the tiered downtime penalties,
//! suspensions, bans, and economic slashing of a validator's stake.
use vstd::prelude::*;
use crate::account::Pubkey;
use crate::keymap::{KeyMap, map_where, above};
use crate::crypto::ed25519_valid_spec;
use crate::genesis::{ConsensusParams, params_with_min_stake, TESTNET_MIN_VALIDATOR_STAKE};
use super::rewards::MIN_VALIDATOR_STAKE;
use super::staking::{StakePool, spec_total_stake, spec_slash, sat_add, sat_sub, add_sat, sub_sat};
use super::votes::{Vote, vote_message};

verus! {

/// Offense-free slots after which the downtime offense count is forgiven.
pub const DOWNTIME_FORGIVENESS_SLOTS: u64 = 50_000;
/// Length of a second-offense suspension, in slots.
pub const DOWNTIME_SUSPENSION_SLOTS: u64 = 100;
/// Second-offense downtime slash, in basis points.
pub const DOWNTIME_TIER2_SLASH_BPS: u64 = 50;
/// Length of the repayment boost after a second offense, in slots.
pub const PENALTY_REPAYMENT_BOOST_SLOTS: u64 = 216_000;

/// A slashable offense.
#[derive(Debug, Clone)]
pub enum SlashingOffense {
    /// Two different blocks for one slot.
    DoubleBlock { slot: u64, block_hash_1: crate::hash::Hash, block_hash_2: crate::hash::Hash },
    /// Votes for two different blocks at one slot.
    DoubleVote { slot: u64, vote_1: Vote, vote_2: Vote },
    /// Offline for a stretch of slots.
    Downtime { last_active_slot: u64, current_slot: u64, missed_slots: u64 },
    /// An invalid state transition.
    InvalidStateTransition { slot: u64, description: String },
    /// Transactions censored.
    Censorship { slot: u64, censored_tx_count: u64 },
    /// Collusion with other validators.
    Collusion { slot: u64, colluding_validators: Vec<Pubkey> },
}

/// Evidence of an offense.
#[derive(Debug, Clone)]
pub struct SlashingEvidence {
    pub offense: SlashingOffense,
    /// The offender.
    pub validator: Pubkey,
    /// Slot at which the evidence was made.
    pub evidence_slot: u64,
    pub reporter: Pubkey,
    pub timestamp: u64,
}

/// Whether evidence is internally consistent.
pub open spec fn spec_evidence_valid(e: SlashingEvidence) -> bool {
    match e.offense {
        SlashingOffense::DoubleBlock { block_hash_1, block_hash_2, .. } => block_hash_1 != block_hash_2,
        SlashingOffense::DoubleVote { vote_1, vote_2, .. } => {
            &&& vote_1.slot == vote_2.slot
            &&& vote_1.block_hash != vote_2.block_hash
            &&& vote_1.validator == vote_2.validator
            &&& vote_1.validator == e.validator
            &&& ed25519_valid_spec(vote_1.validator.0@, vote_message(vote_1.slot, vote_1.block_hash), vote_1.signature@)
            &&& ed25519_valid_spec(vote_2.validator.0@, vote_message(vote_2.slot, vote_2.block_hash), vote_2.signature@)
        },
        SlashingOffense::Downtime { last_active_slot, current_slot, missed_slots } =>
            missed_slots == sat_sub(current_slot, last_active_slot) && missed_slots > 0,
        SlashingOffense::InvalidStateTransition { description, .. } => description@.len() > 0,
        SlashingOffense::Censorship { censored_tx_count, .. } => censored_tx_count > 0,
        SlashingOffense::Collusion { colluding_validators, .. } => colluding_validators@.len() >= 2,
    }
}

/// Severity, 0 to 100.
pub open spec fn spec_severity(o: SlashingOffense) -> u64 {
    match o {
        SlashingOffense::DoubleBlock { .. } => 100,
        SlashingOffense::DoubleVote { .. } => 80,
        SlashingOffense::Downtime { missed_slots, .. } => {
            let a: u64 = if missed_slots / 10 < 40 { (missed_slots / 10) as u64 } else { 40 };
            if 10 + a < 50 { (10 + a) as u64 } else { 50 }
        },
        SlashingOffense::InvalidStateTransition { .. } => 100,
        SlashingOffense::Censorship { .. } => 70,
        SlashingOffense::Collusion { .. } => 100,
    }
}

/// Whether two offenses are the same event (same kind, same slot; downtime by
/// the slot it started at).
pub open spec fn same_event(a: SlashingOffense, b: SlashingOffense) -> bool {
    match (a, b) {
        (SlashingOffense::DoubleBlock { slot: s1, .. }, SlashingOffense::DoubleBlock { slot: s2, .. }) => s1 == s2,
        (SlashingOffense::DoubleVote { vote_1: v1, .. }, SlashingOffense::DoubleVote { vote_1: v2, .. }) => v1.slot == v2.slot,
        (SlashingOffense::InvalidStateTransition { slot: s1, .. }, SlashingOffense::InvalidStateTransition { slot: s2, .. }) => s1 == s2,
        (SlashingOffense::Censorship { slot: s1, .. }, SlashingOffense::Censorship { slot: s2, .. }) => s1 == s2,
        (SlashingOffense::Collusion { slot: s1, .. }, SlashingOffense::Collusion { slot: s2, .. }) => s1 == s2,
        (SlashingOffense::Downtime { last_active_slot: l1, .. }, SlashingOffense::Downtime { last_active_slot: l2, .. }) => l1 == l2,
        _ => false,
    }
}

/// Whether an offense is a downtime offense.
pub open spec fn is_downtime(o: SlashingOffense) -> bool {
    o is Downtime
}

/// Whether an offense is a collusion offense.
pub open spec fn is_collusion(o: SlashingOffense) -> bool {
    o is Collusion
}

/// A severe (severity 70 or more) offense other than downtime.
pub open spec fn is_severe(o: SlashingOffense) -> bool {
    spec_severity(o) >= 70 && !is_downtime(o)
}

impl SlashingEvidence {
    /// Evidence with the given fields; `block_timestamp` becomes the timestamp.
    pub fn new(offense: SlashingOffense, validator: Pubkey, evidence_slot: u64, reporter: Pubkey, block_timestamp: u64) -> (r: SlashingEvidence)
        ensures
            r == (SlashingEvidence { offense, validator, evidence_slot, reporter, timestamp: block_timestamp }),
    {
        SlashingEvidence { offense, validator, evidence_slot, reporter, timestamp: block_timestamp }
    }

    /// Whether the evidence is internally consistent (see `spec_evidence_valid`).
    pub fn verify(&self) -> (r: bool)
        ensures
            r == spec_evidence_valid(*self),
    {
        match &self.offense {
            SlashingOffense::DoubleBlock { block_hash_1, block_hash_2, .. } => *block_hash_1 != *block_hash_2,
            SlashingOffense::DoubleVote { vote_1, vote_2, .. } => {
                vote_1.slot == vote_2.slot
                    && vote_1.block_hash != vote_2.block_hash
                    && vote_1.validator == vote_2.validator
                    && vote_1.validator == self.validator
                    && vote_1.verify()
                    && vote_2.verify()
            },
            SlashingOffense::Downtime { last_active_slot, current_slot, missed_slots } => {
                *missed_slots == sub_sat(*current_slot, *last_active_slot) && *missed_slots > 0
            },
            SlashingOffense::InvalidStateTransition { description, .. } => !description.as_str().is_empty(),
            SlashingOffense::Censorship { censored_tx_count, .. } => *censored_tx_count > 0,
            SlashingOffense::Collusion { colluding_validators, .. } => colluding_validators.len() >= 2,
        }
    }

    /// Severity, 0 to 100 (see `spec_severity`).
    pub fn severity(&self) -> (r: u64)
        ensures
            r == spec_severity(self.offense),
    {
        offense_severity(&self.offense)
    }
}

fn offense_severity(o: &SlashingOffense) -> (r: u64)
    ensures
        r == spec_severity(*o),
{
    match o {
        SlashingOffense::DoubleBlock { .. } => 100,
        SlashingOffense::DoubleVote { .. } => 80,
        SlashingOffense::Downtime { missed_slots, .. } => {
            let a = if *missed_slots / 10 < 40 { *missed_slots / 10 } else { 40 };
            if 10 + a < 50 { 10 + a } else { 50 }
        },
        SlashingOffense::InvalidStateTransition { .. } => 100,
        SlashingOffense::Censorship { .. } => 70,
        SlashingOffense::Collusion { .. } => 100,
    }
}

fn offense_same_event(a: &SlashingOffense, b: &SlashingOffense) -> (r: bool)
    ensures
        r == same_event(*a, *b),
{
    match (a, b) {
        (SlashingOffense::DoubleBlock { slot: s1, .. }, SlashingOffense::DoubleBlock { slot: s2, .. }) => *s1 == *s2,
        (SlashingOffense::DoubleVote { vote_1: v1, .. }, SlashingOffense::DoubleVote { vote_1: v2, .. }) => v1.slot == v2.slot,
        (SlashingOffense::InvalidStateTransition { slot: s1, .. }, SlashingOffense::InvalidStateTransition { slot: s2, .. }) => *s1 == *s2,
        (SlashingOffense::Censorship { slot: s1, .. }, SlashingOffense::Censorship { slot: s2, .. }) => *s1 == *s2,
        (SlashingOffense::Collusion { slot: s1, .. }, SlashingOffense::Collusion { slot: s2, .. }) => *s1 == *s2,
        (SlashingOffense::Downtime { last_active_slot: l1, .. }, SlashingOffense::Downtime { last_active_slot: l2, .. }) => *l1 == *l2,
        _ => false,
    }
}

/// Whether `s` holds a severe non-downtime offense.
pub open spec fn has_severe(s: Seq<SlashingEvidence>) -> bool {
    exists|i: int| 0 <= i < s.len() && is_severe(#[trigger] s[i].offense)
}

/// Whether `s` holds a downtime offense.
pub open spec fn has_downtime(s: Seq<SlashingEvidence>) -> bool {
    exists|i: int| 0 <= i < s.len() && is_downtime(#[trigger] s[i].offense)
}

/// Whether `s` holds a collusion offense.
pub open spec fn has_collusion(s: Seq<SlashingEvidence>) -> bool {
    exists|i: int| 0 <= i < s.len() && is_collusion(#[trigger] s[i].offense)
}

/// Number of downtime evidence entries in `s`.
pub open spec fn downtime_count(s: Seq<SlashingEvidence>) -> nat
    decreases s.len(),
{
    if s.len() == 0 { 0 } else { downtime_count(s.drop_last()) + if is_downtime(s.last().offense) { 1nat } else { 0nat } }
}

/// Sum of the severities in `s`.
pub open spec fn severity_sum(s: Seq<SlashingEvidence>) -> nat
    decreases s.len(),
{
    if s.len() == 0 { 0 } else { severity_sum(s.drop_last()) + spec_severity(s.last().offense) as nat }
}

/// Total number of evidence entries under the keys `ks`.
pub open spec fn evidence_total(ks: Seq<[u8; 32]>, m: Map<[u8; 32], Vec<SlashingEvidence>>) -> nat
    decreases ks.len(),
{
    if ks.len() == 0 { 0 } else { evidence_total(ks.drop_last(), m) + m[ks.last()]@.len() }
}

/// Largest missed-slot count among downtime entries of `s`, if any.
pub open spec fn worst_downtime(s: Seq<SlashingEvidence>) -> Option<u64>
    decreases s.len(),
{
    if s.len() == 0 {
        None
    } else {
        let prev = worst_downtime(s.drop_last());
        match s.last().offense {
            SlashingOffense::Downtime { missed_slots, .. } => match prev {
                Some(w) => Some(if missed_slots > w { missed_slots } else { w }),
                None => Some(missed_slots),
            },
            _ => prev,
        }
    }
}

/// `x` truncated to 64 bits, as `as u64` does.
pub open spec fn trunc64(x: int) -> u64 {
    (x % 0x1_0000_0000_0000_0000) as u64
}

/// Penalty one non-downtime entry adds, for stake `stake`.
pub open spec fn offense_penalty(o: SlashingOffense, stake: u64, p: ConsensusParams) -> u64 {
    match o {
        SlashingOffense::DoubleBlock { .. } => trunc64(stake * p.slashing_percentage_double_sign / 100),
        SlashingOffense::DoubleVote { .. } => trunc64(stake * p.slashing_percentage_double_vote / 100),
        SlashingOffense::Downtime { .. } => 0,
        SlashingOffense::InvalidStateTransition { .. } => trunc64(stake * p.slashing_percentage_invalid_state / 100),
        SlashingOffense::Censorship { .. } => trunc64(stake * p.slashing_percentage_censorship / 100),
        SlashingOffense::Collusion { .. } => stake,
    }
}

/// Saturating sum, from `acc`, of the entries' penalties.
pub open spec fn penalties_from(s: Seq<SlashingEvidence>, stake: u64, p: ConsensusParams, acc: u64) -> u64
    decreases s.len(),
{
    if s.len() == 0 { acc } else { sat_add(penalties_from(s.drop_last(), stake, p, acc), offense_penalty(s.last().offense, stake, p)) }
}

/// Downtime penalty by tier: none for tiers 0 and 1, 0.5% at tier 2, else the
/// graduated rate on the worst missed-slot count.
pub open spec fn downtime_penalty(tier: u64, missed: u64, stake: u64, p: ConsensusParams) -> u64 {
    if tier <= 1 {
        0
    } else if tier == 2 {
        trunc64(stake * DOWNTIME_TIER2_SLASH_BPS / 10_000)
    } else {
        let dp: u64 = if missed / 100 < p.slashing_downtime_max_percent { (missed / 100) as u64 } else { p.slashing_downtime_max_percent };
        trunc64(stake * dp * p.slashing_downtime_per_100_missed / 100)
    }
}

/// Evidence, tiered downtime state, suspensions, boosts, slashed and banned validators.
#[derive(Debug, Clone)]
pub struct SlashingTracker {
    evidence: KeyMap<Vec<SlashingEvidence>>,
    slashed: KeyMap<()>,
    permanently_banned: KeyMap<()>,
    downtime_offense_count: KeyMap<u64>,
    last_downtime_offense_slot: KeyMap<u64>,
    penalty_repayment_boost: KeyMap<u64>,
    suspended_until: KeyMap<u64>,
    last_processed_downtime_evidence_count: KeyMap<usize>,
}

impl SlashingTracker {
    /// Evidence lists by validator key.
    pub closed spec fn evidence_view(&self) -> Map<[u8; 32], Vec<SlashingEvidence>> {
        self.evidence.view_map()
    }

    /// Keys with evidence, in the order first seen.
    pub closed spec fn evidence_keys(&self) -> Seq<[u8; 32]> {
        self.evidence.key_seq()
    }

    /// The evidence list of `v` (empty if none).
    pub open spec fn evidence_of(&self, v: Pubkey) -> Seq<SlashingEvidence> {
        if self.evidence_view().dom().contains(v.0) { self.evidence_view()[v.0]@ } else { Seq::empty() }
    }

    /// Keys of slashed validators.
    pub closed spec fn slashed_view(&self) -> Set<[u8; 32]> {
        self.slashed.view_map().dom()
    }

    /// Keys of permanently banned validators.
    pub closed spec fn banned_view(&self) -> Set<[u8; 32]> {
        self.permanently_banned.view_map().dom()
    }

    /// Downtime offense counts.
    pub closed spec fn offense_count_view(&self) -> Map<[u8; 32], u64> {
        self.downtime_offense_count.view_map()
    }

    /// Slot of each validator's last downtime offense.
    pub closed spec fn last_offense_view(&self) -> Map<[u8; 32], u64> {
        self.last_downtime_offense_slot.view_map()
    }

    /// Slot at which each repayment boost ends.
    pub closed spec fn boost_view(&self) -> Map<[u8; 32], u64> {
        self.penalty_repayment_boost.view_map()
    }

    /// Slot at which each suspension ends.
    pub closed spec fn suspended_view(&self) -> Map<[u8; 32], u64> {
        self.suspended_until.view_map()
    }

    /// Downtime evidence count last processed, per validator.
    pub closed spec fn processed_view(&self) -> Map<[u8; 32], usize> {
        self.last_processed_downtime_evidence_count.view_map()
    }

    /// Internal consistency of the maps.
    pub closed spec fn wf(&self) -> bool {
        &&& self.evidence.wf()
        &&& self.slashed.wf()
        &&& self.permanently_banned.wf()
        &&& self.downtime_offense_count.wf()
        &&& self.last_downtime_offense_slot.wf()
        &&& self.penalty_repayment_boost.wf()
        &&& self.suspended_until.wf()
        &&& self.last_processed_downtime_evidence_count.wf()
    }

    /// Everything but the evidence is as in `other`.
    pub open spec fn same_but_evidence(&self, other: &SlashingTracker) -> bool {
        &&& self.slashed_view() == other.slashed_view()
        &&& self.banned_view() == other.banned_view()
        &&& self.offense_count_view() == other.offense_count_view()
        &&& self.last_offense_view() == other.last_offense_view()
        &&& self.boost_view() == other.boost_view()
        &&& self.suspended_view() == other.suspended_view()
        &&& self.processed_view() == other.processed_view()
    }

    /// An empty tracker.
    pub fn new() -> (r: SlashingTracker)
        ensures
            r.wf(),
            r.evidence_view().dom().is_empty(),
            r.slashed_view().is_empty(),
            r.banned_view().is_empty(),
            r.offense_count_view().dom().is_empty(),
            r.last_offense_view().dom().is_empty(),
            r.boost_view().dom().is_empty(),
            r.suspended_view().dom().is_empty(),
            r.processed_view().dom().is_empty(),
    {
        SlashingTracker {
            evidence: KeyMap::new(),
            slashed: KeyMap::new(),
            permanently_banned: KeyMap::new(),
            downtime_offense_count: KeyMap::new(),
            last_downtime_offense_slot: KeyMap::new(),
            penalty_repayment_boost: KeyMap::new(),
            suspended_until: KeyMap::new(),
            last_processed_downtime_evidence_count: KeyMap::new(),
        }
    }

    /// Records `evidence` when it is valid and no evidence of the same event
    /// for its validator is held; returns whether it was recorded.
    pub fn add_evidence(&mut self, evidence: SlashingEvidence) -> (r: bool)
        requires
            old(self).wf(),
        ensures
            final(self).wf(),
            final(self).same_but_evidence(old(self)),
            r == (spec_evidence_valid(evidence) && !(exists|i: int| 0 <= i < old(self).evidence_of(evidence.validator).len()
                && same_event(#[trigger] old(self).evidence_of(evidence.validator)[i].offense, evidence.offense))),
            !r ==> final(self).evidence_view() == old(self).evidence_view(),
            r ==> final(self).evidence_view().dom() == old(self).evidence_view().dom().insert(evidence.validator.0),
            r ==> final(self).evidence_of(evidence.validator) == old(self).evidence_of(evidence.validator).push(evidence),
            r ==> forall|k: [u8; 32]| k != evidence.validator.0 && #[trigger] old(self).evidence_view().dom().contains(k)
                ==> final(self).evidence_view()[k] == old(self).evidence_view()[k],
    {
        if !evidence.verify() {
            return false;
        }
        let key = evidence.validator.0;
        let ghost before = self.evidence.view_map();
        let removed = self.evidence.remove(&key);
        let had = removed.is_some();
        let mut list = match removed {
            Some(l) => l,
            None => Vec::new(),
        };
        if has_same_event(&list, &evidence.offense) {
            if had {
                self.evidence.insert(key, list);
                proof {
                    assert(self.evidence.view_map() =~= before);
                }
            }
            return false;
        }
        list.push(evidence);
        self.evidence.insert(key, list);
        true
    }

    /// Total number of evidence entries.
    pub fn evidence_count(&self) -> (r: usize)
        requires
            self.wf(),
            evidence_total(self.evidence_keys(), self.evidence_view()) <= usize::MAX,
        ensures
            r == evidence_total(self.evidence_keys(), self.evidence_view()),
    {
        let keys = self.evidence.keys();
        let ghost m = self.evidence.view_map();
        proof {
            self.evidence.lemma_key_seq();
        }
        let mut total: usize = 0;
        let mut i: usize = 0;
        while i < keys.len()
            invariant
                i <= keys@.len(),
                self.wf(),
                m == self.evidence.view_map(),
                keys@ == self.evidence.key_seq(),
                forall|k: [u8; 32]| #[trigger] m.dom().contains(k) <==> keys@.contains(k),
                total == evidence_total(keys@.subrange(0, i as int), m),
                evidence_total(keys@, m) <= usize::MAX,
            decreases keys@.len() - i,
        {
            proof {
                assert(keys@.subrange(0, i + 1).drop_last() =~= keys@.subrange(0, i as int));
                lemma_evidence_total_prefix(keys@, m, i + 1);
                assert(keys@.contains(keys@[i as int]));
            }
            let n = match self.evidence.get(&keys[i]) {
                Some(l) => l.len(),
                None => 0,
            };
            total = total + n;
            i += 1;
        }
        proof {
            assert(keys@.subrange(0, keys@.len() as int) =~= keys@);
        }
        total
    }

    /// Effective downtime offense count at `current_slot`: the recorded count,
    /// or 0 when none is recorded or the forgiveness window has passed since
    /// the last offense.
    pub fn get_downtime_offense_tier(&self, validator: &Pubkey, current_slot: u64) -> (r: u64)
        requires
            self.wf(),
        ensures
            r == spec_tier(self.offense_count_view(), self.last_offense_view(), validator.0, current_slot),
    {
        let raw = match self.downtime_offense_count.get(&validator.0) {
            Some(c) => *c,
            None => 0,
        };
        if raw == 0 {
            return 0;
        }
        match self.last_downtime_offense_slot.get(&validator.0) {
            Some(last) => {
                if sub_sat(current_slot, *last) >= DOWNTIME_FORGIVENESS_SLOTS {
                    return 0;
                }
            },
            None => {},
        }
        raw
    }

    /// Whether the validator is to be slashed: it has a severe non-downtime
    /// offense, or downtime evidence at an effective tier of 2 or more.
    pub fn should_slash(&self, validator: &Pubkey, current_slot: u64) -> (r: bool)
        requires
            self.wf(),
        ensures
            r == spec_should_slash(self.evidence_of(*validator), spec_tier(self.offense_count_view(), self.last_offense_view(), validator.0, current_slot)),
    {
        match self.evidence.get(&validator.0) {
            Some(list) => {
                if any_severe(list) {
                    return true;
                }
                if any_downtime(list) {
                    return self.get_downtime_offense_tier(validator, current_slot) >= 2;
                }
                false
            },
            None => false,
        }
    }

    /// Records a downtime offense at `current_slot` (after forgiving an old
    /// count); returns the new count.
    pub fn record_downtime_offense(&mut self, validator: &Pubkey, current_slot: u64) -> (r: u64)
        requires
            old(self).wf(),
            !old(self).offense_count_view().dom().contains(validator.0) || old(self).offense_count_view()[validator.0] < u64::MAX,
        ensures
            final(self).wf(),
            r == 1 + if old(self).offense_count_view().dom().contains(validator.0) && !(
                old(self).last_offense_view().dom().contains(validator.0)
                && sat_sub(current_slot, old(self).last_offense_view()[validator.0]) >= DOWNTIME_FORGIVENESS_SLOTS) {
                old(self).offense_count_view()[validator.0] as int
            } else {
                0
            },
            final(self).offense_count_view() == old(self).offense_count_view().insert(validator.0, r),
            final(self).last_offense_view() == old(self).last_offense_view().insert(validator.0, current_slot),
            final(self).evidence_view() == old(self).evidence_view(),
            final(self).evidence_keys() == old(self).evidence_keys(),
            final(self).slashed_view() == old(self).slashed_view(),
            final(self).banned_view() == old(self).banned_view(),
            final(self).boost_view() == old(self).boost_view(),
            final(self).suspended_view() == old(self).suspended_view(),
            final(self).processed_view() == old(self).processed_view(),
    {
        let k = validator.0;
        let forgive = match self.last_downtime_offense_slot.get(&k) {
            Some(last) => sub_sat(current_slot, *last) >= DOWNTIME_FORGIVENESS_SLOTS,
            None => false,
        };
        if forgive {
            self.downtime_offense_count.insert(k, 0);
        }
        let prev = match self.downtime_offense_count.get(&k) {
            Some(c) => *c,
            None => 0,
        };
        let count = prev + 1;
        self.downtime_offense_count.insert(k, count);
        self.last_downtime_offense_slot.insert(k, current_slot);
        proof {
            assert(self.downtime_offense_count.view_map() =~= old(self).downtime_offense_count.view_map().insert(k, count));
        }
        count
    }

    /// Whether downtime evidence arrived since the last call for this
    /// validator; if so, the processed count becomes the current one.
    pub fn has_new_downtime_evidence(&mut self, validator: &Pubkey) -> (r: bool)
        requires
            old(self).wf(),
        ensures
            final(self).wf(),
            ({
                let cur = downtime_count(old(self).evidence_of(*validator));
                let last: nat = if old(self).processed_view().dom().contains(validator.0) { old(self).processed_view()[validator.0] as nat } else { 0 };
                &&& r == (cur > last)
                &&& r ==> final(self).processed_view() == old(self).processed_view().insert(validator.0, cur as usize)
                &&& !r ==> final(self).processed_view() == old(self).processed_view()
            }),
            final(self).evidence_view() == old(self).evidence_view(),
            final(self).evidence_keys() == old(self).evidence_keys(),
            final(self).slashed_view() == old(self).slashed_view(),
            final(self).banned_view() == old(self).banned_view(),
            final(self).offense_count_view() == old(self).offense_count_view(),
            final(self).last_offense_view() == old(self).last_offense_view(),
            final(self).boost_view() == old(self).boost_view(),
            final(self).suspended_view() == old(self).suspended_view(),
    {
        let cur = match self.evidence.get(&validator.0) {
            Some(list) => count_downtime(list),
            None => 0,
        };
        let last = match self.last_processed_downtime_evidence_count.get(&validator.0) {
            Some(c) => *c,
            None => 0,
        };
        if cur > last {
            self.last_processed_downtime_evidence_count.insert(validator.0, cur);
            true
        } else {
            false
        }
    }

    /// Whether the validator is suspended at `current_slot`.
    pub fn is_suspended(&self, validator: &Pubkey, current_slot: u64) -> (r: bool)
        requires
            self.wf(),
        ensures
            r == (self.suspended_view().dom().contains(validator.0) && current_slot < self.suspended_view()[validator.0]),
    {
        match self.suspended_until.get(&validator.0) {
            Some(end) => current_slot < *end,
            None => false,
        }
    }

    /// Suspends the validator until `current_slot + DOWNTIME_SUSPENSION_SLOTS`.
    pub fn suspend_validator(&mut self, validator: &Pubkey, current_slot: u64)
        requires
            old(self).wf(),
            current_slot + DOWNTIME_SUSPENSION_SLOTS <= u64::MAX,
        ensures
            final(self).wf(),
            final(self).suspended_view() == old(self).suspended_view().insert(validator.0, (current_slot + DOWNTIME_SUSPENSION_SLOTS) as u64),
            final(self).same_but_suspended(old(self)),
    {
        self.suspended_until.insert(validator.0, current_slot + DOWNTIME_SUSPENSION_SLOTS);
    }

    /// Whether the validator's repayment boost is active at `current_slot`.
    pub fn has_penalty_repayment_boost(&self, validator: &Pubkey, current_slot: u64) -> (r: bool)
        requires
            self.wf(),
        ensures
            r == (self.boost_view().dom().contains(validator.0) && current_slot < self.boost_view()[validator.0]),
    {
        match self.penalty_repayment_boost.get(&validator.0) {
            Some(end) => current_slot < *end,
            None => false,
        }
    }

    /// Starts a repayment boost until `current_slot + PENALTY_REPAYMENT_BOOST_SLOTS`.
    pub fn apply_penalty_repayment_boost(&mut self, validator: &Pubkey, current_slot: u64)
        requires
            old(self).wf(),
            current_slot + PENALTY_REPAYMENT_BOOST_SLOTS <= u64::MAX,
        ensures
            final(self).wf(),
            final(self).boost_view() == old(self).boost_view().insert(validator.0, (current_slot + PENALTY_REPAYMENT_BOOST_SLOTS) as u64),
            final(self).same_but_boost(old(self)),
    {
        self.penalty_repayment_boost.insert(validator.0, current_slot + PENALTY_REPAYMENT_BOOST_SLOTS);
    }

    /// Clears the slashed flag unless the validator is permanently banned.
    pub fn clear_slashed(&mut self, validator: &Pubkey)
        requires
            old(self).wf(),
        ensures
            final(self).wf(),
            old(self).banned_view().contains(validator.0) ==> final(self).slashed_view() == old(self).slashed_view(),
            !old(self).banned_view().contains(validator.0) ==> final(self).slashed_view() == old(self).slashed_view().remove(validator.0),
            final(self).same_but_slashed(old(self)),
    {
        if !self.permanently_banned.contains_key(&validator.0) {
            self.slashed.remove(&validator.0);
        }
    }

    /// Drops suspensions and boosts that have ended by `current_slot`.
    pub fn cleanup_expired(&mut self, current_slot: u64)
        requires
            old(self).wf(),
        ensures
            final(self).wf(),
            final(self).suspended_view() == map_where(old(self).suspended_view(), above(current_slot)),
            final(self).boost_view() == map_where(old(self).boost_view(), above(current_slot)),
            final(self).evidence_view() == old(self).evidence_view(),
            final(self).evidence_keys() == old(self).evidence_keys(),
            final(self).slashed_view() == old(self).slashed_view(),
            final(self).banned_view() == old(self).banned_view(),
            final(self).offense_count_view() == old(self).offense_count_view(),
            final(self).last_offense_view() == old(self).last_offense_view(),
            final(self).processed_view() == old(self).processed_view(),
    {
        self.suspended_until.retain_above(current_slot);
        self.penalty_repayment_boost.retain_above(current_slot);
    }

    /// Marks the validator slashed when `should_slash` holds, and permanently
    /// bans it when it has collusion evidence; returns whether it was slashed.
    pub fn slash(&mut self, validator: &Pubkey, current_slot: u64) -> (r: bool)
        requires
            old(self).wf(),
        ensures
            final(self).wf(),
            r == spec_should_slash(old(self).evidence_of(*validator), spec_tier(old(self).offense_count_view(), old(self).last_offense_view(), validator.0, current_slot)),
            r ==> final(self).slashed_view() == old(self).slashed_view().insert(validator.0),
            !r ==> final(self).slashed_view() == old(self).slashed_view(),
            r && has_collusion(old(self).evidence_of(*validator))
                ==> final(self).banned_view() == old(self).banned_view().insert(validator.0),
            !(r && has_collusion(old(self).evidence_of(*validator)))
                ==> final(self).banned_view() == old(self).banned_view(),
            final(self).evidence_view() == old(self).evidence_view(),
            final(self).evidence_keys() == old(self).evidence_keys(),
            final(self).offense_count_view() == old(self).offense_count_view(),
            final(self).last_offense_view() == old(self).last_offense_view(),
            final(self).boost_view() == old(self).boost_view(),
            final(self).suspended_view() == old(self).suspended_view(),
            final(self).processed_view() == old(self).processed_view(),
    {
        if self.should_slash(validator, current_slot) {
            self.slashed.insert(validator.0, ());
            let collusion = match self.evidence.get(&validator.0) {
                Some(list) => any_collusion(list),
                None => false,
            };
            if collusion {
                self.permanently_banned.insert(validator.0, ());
            }
            proof {
                assert(self.slashed.view_map().dom() =~= old(self).slashed.view_map().dom().insert(validator.0));
                if collusion {
                    assert(self.permanently_banned.view_map().dom() =~= old(self).permanently_banned.view_map().dom().insert(validator.0));
                }
            }
            true
        } else {
            false
        }
    }

    /// Whether the validator is marked slashed.
    pub fn is_slashed(&self, validator: &Pubkey) -> (r: bool)
        requires
            self.wf(),
        ensures
            r == self.slashed_view().contains(validator.0),
    {
        self.slashed.contains_key(&validator.0)
    }

    /// Whether the validator is permanently banned.
    pub fn is_permanently_banned(&self, validator: &Pubkey) -> (r: bool)
        requires
            self.wf(),
        ensures
            r == self.banned_view().contains(validator.0),
    {
        self.permanently_banned.contains_key(&validator.0)
    }

    /// The validators marked slashed, each once.
    pub fn slashed_validators(&self) -> (r: Vec<Pubkey>)
        requires
            self.wf(),
        ensures
            r@.len() == self.slashed_view().len(),
            forall|k: [u8; 32]| self.slashed_view().contains(k) <==> exists|i: int| 0 <= i < r@.len() && #[trigger] r@[i].0 == k,
    {
        let keys = self.slashed.keys();
        let mut out: Vec<Pubkey> = Vec::new();
        let mut i: usize = 0;
        while i < keys.len()
            invariant
                i <= keys@.len(),
                out@.len() == i,
                forall|j: int| 0 <= j < i ==> #[trigger] out@[j].0 == keys@[j],
            decreases keys@.len() - i,
        {
            out.push(Pubkey(keys[i]));
            i += 1;
        }
        proof {
            assert forall|k: [u8; 32]| self.slashed_view().contains(k) <==> exists|i: int| 0 <= i < out@.len() && #[trigger] out@[i].0 == k by {
                if self.slashed_view().contains(k) {
                    assert(keys@.contains(k));
                    let j = choose|j: int| 0 <= j < keys@.len() && keys@[j] == k;
                    assert(out@[j].0 == k);
                }
                if exists|i: int| 0 <= i < out@.len() && #[trigger] out@[i].0 == k {
                    let j = choose|j: int| 0 <= j < out@.len() && #[trigger] out@[j].0 == k;
                    assert(keys@[j] == k);
                    assert(keys@.contains(k));
                }
            }
        }
        out
    }

    /// The evidence held for the validator, if any.
    pub fn get_evidence(&self, validator: &Pubkey) -> (r: Option<&Vec<SlashingEvidence>>)
        requires
            self.wf(),
        ensures
            r is Some <==> self.evidence_view().dom().contains(validator.0),
            r matches Some(l) ==> *l == self.evidence_view()[validator.0],
    {
        self.evidence.get(&validator.0)
    }

    /// Sum of the severities of the validator's evidence.
    pub fn calculate_penalty(&self, validator: &Pubkey) -> (r: u64)
        requires
            self.wf(),
            severity_sum(self.evidence_of(*validator)) <= u64::MAX,
        ensures
            r == severity_sum(self.evidence_of(*validator)),
    {
        match self.evidence.get(&validator.0) {
            Some(list) => {
                let mut total: u64 = 0;
                let mut i: usize = 0;
                while i < list.len()
                    invariant
                        i <= list@.len(),
                        total == severity_sum(list@.subrange(0, i as int)),
                        severity_sum(list@) <= u64::MAX,
                    decreases list@.len() - i,
                {
                    proof {
                        assert(list@.subrange(0, i + 1).drop_last() =~= list@.subrange(0, i as int));
                        lemma_severity_sum_prefix(list@, i + 1);
                    }
                    total = total + list[i].severity();
                    i += 1;
                }
                proof {
                    assert(list@.subrange(0, list@.len() as int) =~= list@);
                }
                total
            },
            None => 0,
        }
    }

    /// Economic slashing with the default parameters at slot 0.
    pub fn apply_economic_slashing(&mut self, validator: &Pubkey, stake_pool: &mut StakePool) -> (r: u64)
        requires
            old(self).wf(),
            old(stake_pool).wf(),
        ensures
            final(self).wf(),
            final(stake_pool).wf(),
            r == spec_economic_slash(old(self).evidence_of(*validator),
                spec_tier(old(self).offense_count_view(), old(self).last_offense_view(), validator.0, 0),
                old(stake_pool).stakes_view(), *validator, params_with_min_stake(TESTNET_MIN_VALIDATOR_STAKE)).1,
    {
        let params = ConsensusParams::default();
        self.apply_economic_slashing_with_params(validator, stake_pool, &params, 0)
    }

    /// Slashes the validator's stake for its evidence: the worst downtime entry
    /// once, by tier, and every other entry by its offense's rate, all on the
    /// stake as it was before, capped so the stake stays at or above
    /// `MIN_VALIDATOR_STAKE`; marks the validator slashed when anything was
    /// taken. Returns the amount slashed.
    pub fn apply_economic_slashing_with_params(
        &mut self,
        validator: &Pubkey,
        stake_pool: &mut StakePool,
        params: &ConsensusParams,
        current_slot: u64,
    ) -> (r: u64)
        requires
            old(self).wf(),
            old(stake_pool).wf(),
            params.slashing_downtime_max_percent * params.slashing_downtime_per_100_missed <= u64::MAX,
        ensures
            final(self).wf(),
            final(stake_pool).wf(),
            ({
                let (cap, slashed) = spec_economic_slash(old(self).evidence_of(*validator),
                    spec_tier(old(self).offense_count_view(), old(self).last_offense_view(), validator.0, current_slot),
                    old(stake_pool).stakes_view(), *validator, *params);
                &&& r == slashed
                &&& cap == 0 ==> *final(stake_pool) == *old(stake_pool)
                &&& cap > 0 ==> final(stake_pool).stakes_view() == old(stake_pool).stakes_view().insert(validator.0,
                        spec_slash(old(stake_pool).stakes_view()[validator.0], cap).0)
                &&& slashed > 0 && spec_should_slash(old(self).evidence_of(*validator),
                        spec_tier(old(self).offense_count_view(), old(self).last_offense_view(), validator.0, current_slot))
                        ==> final(self).slashed_view() == old(self).slashed_view().insert(validator.0)
                &&& !(slashed > 0 && spec_should_slash(old(self).evidence_of(*validator),
                        spec_tier(old(self).offense_count_view(), old(self).last_offense_view(), validator.0, current_slot)))
                        ==> final(self).slashed_view() == old(self).slashed_view()
                &&& slashed > 0 && spec_should_slash(old(self).evidence_of(*validator),
                        spec_tier(old(self).offense_count_view(), old(self).last_offense_view(), validator.0, current_slot))
                        && has_collusion(old(self).evidence_of(*validator))
                        ==> final(self).banned_view() == old(self).banned_view().insert(validator.0)
                &&& !(slashed > 0 && spec_should_slash(old(self).evidence_of(*validator),
                        spec_tier(old(self).offense_count_view(), old(self).last_offense_view(), validator.0, current_slot))
                        && has_collusion(old(self).evidence_of(*validator)))
                        ==> final(self).banned_view() == old(self).banned_view()
                &&& cap > 0 ==> {
                    &&& final(stake_pool).spec_total_staked() == sat_sub(old(stake_pool).spec_total_staked(), slashed)
                    &&& final(stake_pool).spec_total_slashed() == sat_add(old(stake_pool).spec_total_slashed(), slashed)
                    &&& final(stake_pool).requests() == old(stake_pool).requests()
                    &&& final(stake_pool).delegation_list() == old(stake_pool).delegation_list()
                    &&& final(stake_pool).fingerprints() == old(stake_pool).fingerprints()
                    &&& final(stake_pool).spec_grants_issued() == old(stake_pool).spec_grants_issued()
                }
            }),
            final(self).evidence_view() == old(self).evidence_view(),
            final(self).offense_count_view() == old(self).offense_count_view(),
            final(self).last_offense_view() == old(self).last_offense_view(),
            final(self).boost_view() == old(self).boost_view(),
            final(self).suspended_view() == old(self).suspended_view(),
            final(self).processed_view() == old(self).processed_view(),
            r <= sat_sub(if old(stake_pool).stakes_view().dom().contains(validator.0) {
                spec_total_stake(old(stake_pool).stakes_view()[validator.0]) } else { 0 }, MIN_VALIDATOR_STAKE),
            r > 0 ==> final(self).slashed_view().contains(validator.0),
    {
        let original_stake = match stake_pool.get_stake(validator) {
            Some(s) => s.total_stake(),
            None => 0,
        };
        if original_stake == 0 {
            return 0;
        }
        let tier = self.get_downtime_offense_tier(validator, current_slot);
        let list_opt = self.evidence.get(&validator.0);
        let has_severe = match list_opt {
            Some(list) => any_severe(list),
            None => false,
        };
        if !has_severe && tier < 2 {
            return 0;
        }
        let mut total: u64 = 0;
        match list_opt {
            Some(list) => {
                match worst_missed(list) {
                    Some(missed) => {
                        let dp = downtime_penalty_exec(tier, missed, original_stake, params);
                        total = add_sat(total, dp);
                    },
                    None => {},
                }
                total = penalties_exec(list, original_stake, params, total);
            },
            None => {},
        }
        let budget = sub_sat(original_stake, MIN_VALIDATOR_STAKE);
        let capped = if total < budget { total } else { budget };
        let slashed = if capped > 0 {
            stake_pool.slash_validator(validator, capped)
        } else {
            0
        };
        if slashed > 0 {
            self.slash(validator, current_slot);
        }
        slashed
    }

    /// Drops evidence made before `current_slot - keep_slots` (saturating),
    /// and validators left with none.
    pub fn prune_old_evidence(&mut self, current_slot: u64, keep_slots: u64)
        requires
            old(self).wf(),
        ensures
            final(self).wf(),
            final(self).same_but_evidence(old(self)),
            ({
                let cutoff = sat_sub(current_slot, keep_slots);
                &&& forall|k: [u8; 32]| #[trigger] final(self).evidence_view().dom().contains(k) <==>
                    (old(self).evidence_view().dom().contains(k) && recent_evidence(old(self).evidence_view()[k]@, cutoff).len() > 0)
                &&& forall|k: [u8; 32]| #[trigger] final(self).evidence_view().dom().contains(k) ==>
                    final(self).evidence_view()[k]@ == recent_evidence(old(self).evidence_view()[k]@, cutoff)
            }),
    {
        let cutoff = sub_sat(current_slot, keep_slots);
        let keys = self.evidence.keys();
        proof {
            self.evidence.lemma_key_seq();
        }
        let ghost m0 = self.evidence.view_map();
        let mut i: usize = 0;
        while i < keys.len()
            invariant
                i <= keys@.len(),
                self.wf(),
                self.same_but_evidence(old(self)),
                m0 == old(self).evidence_view(),
                keys@.no_duplicates(),
                forall|k: [u8; 32]| #[trigger] m0.dom().contains(k) <==> keys@.contains(k),
                forall|k: [u8; 32]| #[trigger] self.evidence.view_map().dom().contains(k) ==> m0.dom().contains(k),
                forall|j: int| 0 <= j < i ==> {
                    let k = #[trigger] keys@[j];
                    &&& (self.evidence.view_map().dom().contains(k) <==> recent_evidence(m0[k]@, cutoff).len() > 0)
                    &&& self.evidence.view_map().dom().contains(k) ==> self.evidence.view_map()[k]@ == recent_evidence(m0[k]@, cutoff)
                },
                forall|j: int| i <= j < keys@.len() ==> {
                    let k = #[trigger] keys@[j];
                    &&& self.evidence.view_map().dom().contains(k)
                    &&& self.evidence.view_map()[k] == m0[k]
                },
            decreases keys@.len() - i,
        {
            let k = keys[i];
            proof {
                assert(keys@.contains(k));
            }
            let ghost before = self.evidence.view_map();
            let list = self.evidence.remove(&k).unwrap();
            let kept = keep_recent(list, cutoff);
            if kept.len() > 0 {
                self.evidence.insert(k, kept);
            }
            proof {
                assert forall|j: int| 0 <= j < keys@.len() && j != i implies #[trigger] keys@[j] != k by {
                    assert(keys@[j] != keys@[i as int]);
                }
            }
            i += 1;
        }
        proof {
            assert forall|k: [u8; 32]| #[trigger] self.evidence.view_map().dom().contains(k) <==>
                (m0.dom().contains(k) && recent_evidence(m0[k]@, cutoff).len() > 0) by {
                if m0.dom().contains(k) {
                    assert(keys@.contains(k));
                    let j = choose|j: int| 0 <= j < keys@.len() && keys@[j] == k;
                }
            }
            assert forall|k: [u8; 32]| #[trigger] self.evidence.view_map().dom().contains(k) implies
                self.evidence.view_map()[k]@ == recent_evidence(m0[k]@, cutoff) by {
                assert(keys@.contains(k));
                let j = choose|j: int| 0 <= j < keys@.len() && keys@[j] == k;
            }
        }
    }

    /// Everything but the suspensions is as in `other`.
    pub open spec fn same_but_suspended(&self, other: &SlashingTracker) -> bool {
        &&& self.evidence_view() == other.evidence_view()
        &&& self.evidence_keys() == other.evidence_keys()
        &&& self.slashed_view() == other.slashed_view()
        &&& self.banned_view() == other.banned_view()
        &&& self.offense_count_view() == other.offense_count_view()
        &&& self.last_offense_view() == other.last_offense_view()
        &&& self.boost_view() == other.boost_view()
        &&& self.processed_view() == other.processed_view()
    }

    /// Everything but the repayment boosts is as in `other`.
    pub open spec fn same_but_boost(&self, other: &SlashingTracker) -> bool {
        &&& self.evidence_view() == other.evidence_view()
        &&& self.evidence_keys() == other.evidence_keys()
        &&& self.slashed_view() == other.slashed_view()
        &&& self.banned_view() == other.banned_view()
        &&& self.offense_count_view() == other.offense_count_view()
        &&& self.last_offense_view() == other.last_offense_view()
        &&& self.suspended_view() == other.suspended_view()
        &&& self.processed_view() == other.processed_view()
    }

    /// Everything but the slashed flags is as in `other`.
    pub open spec fn same_but_slashed(&self, other: &SlashingTracker) -> bool {
        &&& self.evidence_view() == other.evidence_view()
        &&& self.evidence_keys() == other.evidence_keys()
        &&& self.banned_view() == other.banned_view()
        &&& self.offense_count_view() == other.offense_count_view()
        &&& self.last_offense_view() == other.last_offense_view()
        &&& self.boost_view() == other.boost_view()
        &&& self.suspended_view() == other.suspended_view()
        &&& self.processed_view() == other.processed_view()
    }
}

/// Effective downtime tier of key `k` at `slot`.
pub open spec fn spec_tier(counts: Map<[u8; 32], u64>, last: Map<[u8; 32], u64>, k: [u8; 32], slot: u64) -> u64 {
    let raw: u64 = if counts.dom().contains(k) { counts[k] } else { 0 };
    if raw == 0 {
        0
    } else if last.dom().contains(k) && sat_sub(slot, last[k]) >= DOWNTIME_FORGIVENESS_SLOTS {
        0
    } else {
        raw
    }
}

/// Whether evidence `s` at effective tier `tier` calls for slashing.
pub open spec fn spec_should_slash(s: Seq<SlashingEvidence>, tier: u64) -> bool {
    if has_severe(s) {
        true
    } else if has_downtime(s) {
        tier >= 2
    } else {
        false
    }
}

/// The evidence made at or after `cutoff`, in order.
pub open spec fn recent_evidence(s: Seq<SlashingEvidence>, cutoff: u64) -> Seq<SlashingEvidence>
    decreases s.len(),
{
    if s.len() == 0 {
        Seq::empty()
    } else if s.last().evidence_slot >= cutoff {
        recent_evidence(s.drop_last(), cutoff).push(s.last())
    } else {
        recent_evidence(s.drop_last(), cutoff)
    }
}

/// The capped penalty and the amount economic slashing takes, for evidence
/// `s` at tier `tier`, against the pool's stakes `m`.
pub open spec fn spec_economic_slash(
    s: Seq<SlashingEvidence>,
    tier: u64,
    m: Map<[u8; 32], super::staking::StakeInfo>,
    v: Pubkey,
    p: ConsensusParams,
) -> (u64, u64) {
    let stake: u64 = if m.dom().contains(v.0) { spec_total_stake(m[v.0]) } else { 0 };
    if stake == 0 || (!has_severe(s) && tier < 2) {
        (0, 0)
    } else {
        let d: u64 = match worst_downtime(s) {
            Some(missed) => sat_add(0, downtime_penalty(tier, missed, stake, p)),
            None => 0,
        };
        let total = penalties_from(s, stake, p, d);
        let budget = sat_sub(stake, MIN_VALIDATOR_STAKE);
        let cap: u64 = if total < budget { total } else { budget };
        if cap > 0 { (cap, spec_slash(m[v.0], cap).1) } else { (0, 0) }
    }
}

fn has_same_event(list: &Vec<SlashingEvidence>, o: &SlashingOffense) -> (r: bool)
    ensures
        r == exists|i: int| 0 <= i < list@.len() && same_event(#[trigger] list@[i].offense, *o),
{
    let mut i: usize = 0;
    while i < list.len()
        invariant
            i <= list@.len(),
            forall|j: int| 0 <= j < i ==> !same_event(#[trigger] list@[j].offense, *o),
        decreases list@.len() - i,
    {
        if offense_same_event(&list[i].offense, o) {
            assert(same_event(list@[i as int].offense, *o));
            return true;
        }
        i += 1;
    }
    false
}

fn any_severe(list: &Vec<SlashingEvidence>) -> (r: bool)
    ensures
        r == has_severe(list@),
{
    let mut i: usize = 0;
    while i < list.len()
        invariant
            i <= list@.len(),
            forall|j: int| 0 <= j < i ==> !is_severe(#[trigger] list@[j].offense),
        decreases list@.len() - i,
    {
        let o = &list[i].offense;
        let sev = offense_severity(o);
        let down = match o {
            SlashingOffense::Downtime { .. } => true,
            _ => false,
        };
        if sev >= 70 && !down {
            assert(is_severe(list@[i as int].offense));
            return true;
        }
        i += 1;
    }
    false
}

fn any_downtime(list: &Vec<SlashingEvidence>) -> (r: bool)
    ensures
        r == has_downtime(list@),
{
    let mut i: usize = 0;
    while i < list.len()
        invariant
            i <= list@.len(),
            forall|j: int| 0 <= j < i ==> !is_downtime(#[trigger] list@[j].offense),
        decreases list@.len() - i,
    {
        match &list[i].offense {
            SlashingOffense::Downtime { .. } => {
                assert(is_downtime(list@[i as int].offense));
                return true;
            },
            _ => {},
        }
        i += 1;
    }
    false
}

fn any_collusion(list: &Vec<SlashingEvidence>) -> (r: bool)
    ensures
        r == has_collusion(list@),
{
    let mut i: usize = 0;
    while i < list.len()
        invariant
            i <= list@.len(),
            forall|j: int| 0 <= j < i ==> !is_collusion(#[trigger] list@[j].offense),
        decreases list@.len() - i,
    {
        match &list[i].offense {
            SlashingOffense::Collusion { .. } => {
                assert(is_collusion(list@[i as int].offense));
                return true;
            },
            _ => {},
        }
        i += 1;
    }
    false
}

fn count_downtime(list: &Vec<SlashingEvidence>) -> (r: usize)
    ensures
        r == downtime_count(list@),
{
    let mut n: usize = 0;
    let mut i: usize = 0;
    while i < list.len()
        invariant
            i <= list@.len(),
            n == downtime_count(list@.subrange(0, i as int)),
            n <= i,
        decreases list@.len() - i,
    {
        proof {
            assert(list@.subrange(0, i + 1).drop_last() =~= list@.subrange(0, i as int));
        }
        match &list[i].offense {
            SlashingOffense::Downtime { .. } => {
                n = n + 1;
            },
            _ => {},
        }
        i += 1;
    }
    proof {
        assert(list@.subrange(0, list@.len() as int) =~= list@);
    }
    n
}

fn worst_missed(list: &Vec<SlashingEvidence>) -> (r: Option<u64>)
    ensures
        r == worst_downtime(list@),
{
    let mut best: Option<u64> = None;
    let mut i: usize = 0;
    while i < list.len()
        invariant
            i <= list@.len(),
            best == worst_downtime(list@.subrange(0, i as int)),
        decreases list@.len() - i,
    {
        proof {
            assert(list@.subrange(0, i + 1).drop_last() =~= list@.subrange(0, i as int));
        }
        match &list[i].offense {
            SlashingOffense::Downtime { missed_slots, .. } => {
                best = match best {
                    Some(w) => Some(if *missed_slots > w { *missed_slots } else { w }),
                    None => Some(*missed_slots),
                };
            },
            _ => {},
        }
        i += 1;
    }
    proof {
        assert(list@.subrange(0, list@.len() as int) =~= list@);
    }
    best
}

fn trunc_u128(x: u128) -> (r: u64)
    ensures
        r == trunc64(x as int),
{
    assert((x as u64) == x % 0x1_0000_0000_0000_0000) by (bit_vector);
    x as u64
}

fn percent_of(stake: u64, pct: u64) -> (r: u64)
    ensures
        r == trunc64(stake * pct / 100),
{
    assert((stake as int) * (pct as int) <= 0xffff_ffff_ffff_ffff * 0xffff_ffff_ffff_ffffint) by (nonlinear_arith)
        requires stake <= 0xffff_ffff_ffff_ffffu64, pct <= 0xffff_ffff_ffff_ffffu64;
    let prod = (stake as u128) * (pct as u128);
    trunc_u128(prod / 100)
}

fn downtime_penalty_exec(tier: u64, missed: u64, stake: u64, p: &ConsensusParams) -> (r: u64)
    requires
        p.slashing_downtime_max_percent * p.slashing_downtime_per_100_missed <= u64::MAX,
    ensures
        r == downtime_penalty(tier, missed, stake, *p),
{
    if tier <= 1 {
        0
    } else if tier == 2 {
        let prod = (stake as u128) * (DOWNTIME_TIER2_SLASH_BPS as u128);
        trunc_u128(prod / 10_000)
    } else {
        let dp = if missed / 100 < p.slashing_downtime_max_percent { missed / 100 } else { p.slashing_downtime_max_percent };
        proof {
            assert((dp as int) * (p.slashing_downtime_per_100_missed as int) <= u64::MAX) by (nonlinear_arith)
                requires dp <= p.slashing_downtime_max_percent,
                    p.slashing_downtime_max_percent * p.slashing_downtime_per_100_missed <= u64::MAX;
            assert((stake as int) * ((dp as int) * (p.slashing_downtime_per_100_missed as int)) < 0x1_0000_0000_0000_0000_0000_0000_0000_0000) by (nonlinear_arith)
                requires (dp as int) * (p.slashing_downtime_per_100_missed as int) <= u64::MAX, stake <= u64::MAX;
            assert((stake as int) * (dp as int) * (p.slashing_downtime_per_100_missed as int)
                == (stake as int) * ((dp as int) * (p.slashing_downtime_per_100_missed as int))) by (nonlinear_arith);
            assert((stake as int) * (dp as int) <= (stake as int) * (dp as int) * (p.slashing_downtime_per_100_missed as int)
                || p.slashing_downtime_per_100_missed == 0) by (nonlinear_arith);
            assert((stake as int) * (dp as int) < 0x1_0000_0000_0000_0000_0000_0000_0000_0000) by (nonlinear_arith)
                requires stake <= u64::MAX, dp <= u64::MAX;
        }
        let prod = (stake as u128) * (dp as u128) * (p.slashing_downtime_per_100_missed as u128);
        trunc_u128(prod / 100)
    }
}

fn penalties_exec(list: &Vec<SlashingEvidence>, stake: u64, p: &ConsensusParams, acc: u64) -> (r: u64)
    ensures
        r == penalties_from(list@, stake, *p, acc),
{
    let mut total = acc;
    let mut i: usize = 0;
    while i < list.len()
        invariant
            i <= list@.len(),
            total == penalties_from(list@.subrange(0, i as int), stake, *p, acc),
        decreases list@.len() - i,
    {
        proof {
            assert(list@.subrange(0, i + 1).drop_last() =~= list@.subrange(0, i as int));
        }
        let pen = match &list[i].offense {
            SlashingOffense::DoubleBlock { .. } => percent_of(stake, p.slashing_percentage_double_sign),
            SlashingOffense::DoubleVote { .. } => percent_of(stake, p.slashing_percentage_double_vote),
            SlashingOffense::Downtime { .. } => 0,
            SlashingOffense::InvalidStateTransition { .. } => percent_of(stake, p.slashing_percentage_invalid_state),
            SlashingOffense::Censorship { .. } => percent_of(stake, p.slashing_percentage_censorship),
            SlashingOffense::Collusion { .. } => stake,
        };
        total = add_sat(total, pen);
        i += 1;
    }
    proof {
        assert(list@.subrange(0, list@.len() as int) =~= list@);
    }
    total
}

fn keep_recent(list: Vec<SlashingEvidence>, cutoff: u64) -> (r: Vec<SlashingEvidence>)
    ensures
        r@ == recent_evidence(list@, cutoff),
{
    let ghost orig = list@;
    let n = list.len();
    let mut src = list;
    let mut kept: Vec<SlashingEvidence> = Vec::new();
    let mut i: usize = 0;
    while src.len() > 0
        invariant
            orig.len() == n,
            src@.len() + i == orig.len(),
            src@ == orig.subrange(i as int, orig.len() as int),
            kept@ == recent_evidence(orig.subrange(0, i as int), cutoff),
        decreases src@.len(),
    {
        let e = src.remove(0);
        proof {
            assert(e == orig[i as int]);
            assert(orig.subrange(0, i + 1).drop_last() =~= orig.subrange(0, i as int));
            assert(src@ =~= orig.subrange(i + 1, orig.len() as int));
        }
        if e.evidence_slot >= cutoff {
            kept.push(e);
        }
        i += 1;
    }
    proof {
        assert(orig.subrange(0, orig.len() as int) =~= orig);
    }
    kept
}

/// The stake penalty the consensus parameters set for one offense on
/// `stake`: its configured percentage of the stake (all of it for
/// collusion); downtime is priced by its tier instead.
pub open spec fn configured_penalty(o: SlashingOffense, stake: u64, p: ConsensusParams) -> nat {
    match o {
        SlashingOffense::DoubleBlock { .. } => (stake * p.slashing_percentage_double_sign / 100) as nat,
        SlashingOffense::DoubleVote { .. } => (stake * p.slashing_percentage_double_vote / 100) as nat,
        SlashingOffense::Downtime { .. } => 0,
        SlashingOffense::InvalidStateTransition { .. } => (stake * p.slashing_percentage_invalid_state / 100) as nat,
        SlashingOffense::Censorship { .. } => (stake * p.slashing_percentage_censorship / 100) as nat,
        SlashingOffense::Collusion { .. } => stake as nat,
    }
}

/// Every evidence entry adds at least its configured penalty: the summed
/// penalty of a list is at least what it started from and at least the
/// configured penalty of each entry (while that fits in 64 bits).
pub proof fn lemma_each_offense_counts(s: Seq<SlashingEvidence>, stake: u64, p: ConsensusParams, acc: u64, i: int)
    requires
        0 <= i < s.len(),
        configured_penalty(s[i].offense, stake, p) <= u64::MAX,
    ensures
        penalties_from(s, stake, p, acc) >= acc,
        penalties_from(s, stake, p, acc) >= configured_penalty(s[i].offense, stake, p),
    decreases s.len(),
{
    lemma_penalties_from_ge_acc(s.drop_last(), stake, p, acc);
    if i == s.len() - 1 {
        let x = configured_penalty(s[i].offense, stake, p);
        assert(offense_penalty(s[i].offense, stake, p) == x);
    } else {
        assert(s.drop_last()[i] == s[i]);
        lemma_each_offense_counts(s.drop_last(), stake, p, acc, i);
    }
}

proof fn lemma_penalties_from_ge_acc(s: Seq<SlashingEvidence>, stake: u64, p: ConsensusParams, acc: u64)
    ensures
        penalties_from(s, stake, p, acc) >= acc,
    decreases s.len(),
{
    if s.len() > 0 {
        lemma_penalties_from_ge_acc(s.drop_last(), stake, p, acc);
    }
}

/// A validator with stake and evidence of any offense but downtime is
/// slashed at least that offense's configured penalty, or, when that would
/// take it below `MIN_VALIDATOR_STAKE`, everything above the minimum.
/// (Censorship at 25% of 200k MOLT takes 50k.)
pub proof fn lemma_offense_is_slashed(s: Seq<SlashingEvidence>, tier: u64, m: Map<[u8; 32], super::staking::StakeInfo>,
    v: Pubkey, p: ConsensusParams, i: int)
    requires
        0 <= i < s.len(),
        !is_downtime(s[i].offense),
        m.dom().contains(v.0),
        spec_total_stake(m[v.0]) > 0,
        configured_penalty(s[i].offense, spec_total_stake(m[v.0]), p) <= u64::MAX,
    ensures
        ({
            let stake = spec_total_stake(m[v.0]);
            let want = configured_penalty(s[i].offense, stake, p);
            let budget = sat_sub(stake, MIN_VALIDATOR_STAKE);
            spec_economic_slash(s, tier, m, v, p).0 >= (if want < budget { want } else { budget as nat })
        }),
{
    let stake = spec_total_stake(m[v.0]);
    assert(is_severe(s[i].offense));
    assert(has_severe(s));
    let d: u64 = match worst_downtime(s) {
        Some(missed) => sat_add(0, downtime_penalty(tier, missed, stake, p)),
        None => 0,
    };
    lemma_each_offense_counts(s, stake, p, d, i);
}

proof fn lemma_evidence_total_prefix(ks: Seq<[u8; 32]>, m: Map<[u8; 32], Vec<SlashingEvidence>>, i: int)
    requires
        0 <= i <= ks.len(),
    ensures
        evidence_total(ks.subrange(0, i), m) <= evidence_total(ks, m),
    decreases ks.len() - i,
{
    if i < ks.len() {
        lemma_evidence_total_prefix(ks, m, i + 1);
        assert(ks.subrange(0, i + 1).drop_last() =~= ks.subrange(0, i));
    } else {
        assert(ks.subrange(0, i) =~= ks);
    }
}

proof fn lemma_severity_sum_prefix(s: Seq<SlashingEvidence>, i: int)
    requires
        0 <= i <= s.len(),
    ensures
        severity_sum(s.subrange(0, i)) <= severity_sum(s),
    decreases s.len() - i,
{
    if i < s.len() {
        lemma_severity_sum_prefix(s, i + 1);
        assert(s.subrange(0, i + 1).drop_last() =~= s.subrange(0, i));
    } else {
        assert(s.subrange(0, i) =~= s);
    }
}

} // verus!
