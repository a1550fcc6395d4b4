//! Validator stakes: the contributory-stake bootstrap system, rewards,
//! delegation, unstaking and the machine-fingerprint registry.
use vstd::prelude::*;
use crate::account::Pubkey;
use crate::bytes::{all_zero, is_zero_32, bytes32_eq};
use crate::crypto::bs58_encode_spec;
use crate::text::{decimal, u64_to_decimal};
use crate::order::{Keyed, distinct_keys, has_key, key_index, keyed_map, find_key, lemma_key_index,
    lemma_keyed_push, lemma_keyed_update, lemma_keyed_remove, sort_by_pubkey, sorted_by_key};
use super::rewards::{BootstrapStatus, MIN_VALIDATOR_STAKE, BOOTSTRAP_GRANT_AMOUNT, MAX_BOOTSTRAP_VALIDATORS, MAX_BOOTSTRAP_SLOTS, UPTIME_BONUS_THRESHOLD_BPS, PERFORMANCE_BONUS_BPS, MAX_VALIDATOR_STAKE, UNSTAKE_COOLDOWN_SLOTS, MIGRATION_COOLDOWN_SLOTS, HEARTBEAT_BLOCK_REWARD, TRANSACTION_BLOCK_REWARD, SLOTS_PER_YEAR, decayed_reward, spec_decayed_reward};

verus! {

broadcast use vstd::array::group_array_axioms;

/// `a + b`, saturating at `u64::MAX`.
pub open spec fn sat_add(a: u64, b: u64) -> u64 {
    if a + b > u64::MAX { u64::MAX } else { (a + b) as u64 }
}

/// `a - b`, saturating at zero.
pub open spec fn sat_sub(a: u64, b: u64) -> u64 {
    if a >= b { (a - b) as u64 } else { 0 }
}

/// `a * b`, saturating at `u64::MAX`.
pub open spec fn sat_mul(a: u64, b: u64) -> u64 {
    if a * b > u64::MAX { u64::MAX } else { (a * b) as u64 }
}

/// Saturating addition.
pub fn add_sat(a: u64, b: u64) -> (r: u64)
    ensures
        r == sat_add(a, b),
{
    a.saturating_add(b)
}

/// Saturating subtraction.
pub fn sub_sat(a: u64, b: u64) -> (r: u64)
    ensures
        r == sat_sub(a, b),
{
    a.saturating_sub(b)
}

/// Saturating multiplication.
pub fn mul_sat(a: u64, b: u64) -> (r: u64)
    ensures
        r == sat_mul(a, b),
{
    if a == 0 || b <= u64::MAX / a {
        assert(a * b <= u64::MAX) by (nonlinear_arith)
            requires a == 0 || b <= u64::MAX / a;
        a * b
    } else {
        assert(a * b > u64::MAX) by (nonlinear_arith)
            requires a > 0, b > u64::MAX / a;
        u64::MAX
    }
}

/// Pending unstake of some stake from a validator.
#[derive(Debug, Clone, Copy)]
pub struct UnstakeRequest {
    pub validator: Pubkey,
    /// Identity of the staker who may claim it.
    pub staker: Pubkey,
    pub amount: u64,
    /// Slot from which the unstake may be claimed.
    pub unlock_slot: u64,
}

/// Stake information of one validator.
#[derive(Debug, Clone, Copy)]
pub struct StakeInfo {
    pub validator: Pubkey,
    /// Total staked amount (including bootstrap).
    pub amount: u64,
    /// Amount earned through block rewards (real stake).
    pub earned_amount: u64,
    /// Remaining bootstrap debt.
    pub bootstrap_debt: u64,
    /// Slot when the stake can be withdrawn.
    pub locked_until: u64,
    pub is_active: bool,
    /// Amount delegated by others.
    pub delegated_amount: u64,
    /// Unclaimed rewards.
    pub rewards_earned: u64,
    pub last_reward_slot: u64,
    pub status: BootstrapStatus,
    pub blocks_produced: u64,
    /// Slot of graduation, if graduated.
    pub graduation_slot: Option<u64>,
    /// Lifetime rewards claimed (liquid and debt).
    pub total_claimed: u64,
    /// Lifetime debt repaid.
    pub total_debt_repaid: u64,
    /// Machine fingerprint, all zero when not set.
    pub machine_fingerprint: [u8; 32],
    /// Slot when this validator first staked.
    pub start_slot: u64,
    /// Bootstrap grant index; `u64::MAX` for a self-funded validator.
    pub bootstrap_index: u64,
    pub last_migration_slot: u64,
    /// While above the current slot, 90% of rewards go to debt.
    pub penalty_boost_until: u64,
}

impl Keyed for StakeInfo {
    open spec fn key(&self) -> [u8; 32] {
        self.validator.0
    }

    fn key_exec(&self) -> (r: [u8; 32]) {
        self.validator.0
    }
}

/// Stake that counts for a validator: own plus delegated, saturating.
pub open spec fn spec_total_stake(s: StakeInfo) -> u64 {
    sat_add(s.amount, s.delegated_amount)
}

/// Whether the validator's total stake meets the minimum.
pub open spec fn spec_meets_minimum(s: StakeInfo) -> bool {
    spec_total_stake(s) >= MIN_VALIDATOR_STAKE
}

/// A fresh stake entry: bootstrap debt equal to the grant only for one of the
/// first 200 validators staking exactly the grant amount.
pub open spec fn spec_new_stake(validator: Pubkey, amount: u64, slot: u64, index: u64) -> StakeInfo {
    let debt: u64 = if index < MAX_BOOTSTRAP_VALIDATORS && amount == BOOTSTRAP_GRANT_AMOUNT { amount } else { 0 };
    StakeInfo {
        validator,
        amount,
        earned_amount: 0,
        bootstrap_debt: debt,
        locked_until: (slot + 1000) as u64,
        is_active: amount >= MIN_VALIDATOR_STAKE,
        delegated_amount: 0,
        rewards_earned: 0,
        last_reward_slot: slot,
        status: if debt > 0 { BootstrapStatus::Bootstrapping } else { BootstrapStatus::FullyVested },
        blocks_produced: 0,
        graduation_slot: None,
        total_claimed: 0,
        total_debt_repaid: 0,
        machine_fingerprint: vstd::array::spec_array_fill_for_copy_type::<u8, 32>(0u8),
        start_slot: slot,
        bootstrap_index: index,
        last_migration_slot: 0,
        penalty_boost_until: 0,
    }
}

/// Uptime in basis points: blocks produced against the fair share
/// `(slot - start_slot) / num_validators`, capped at 10000.
pub open spec fn spec_uptime_bps(s: StakeInfo, slot: u64, num_validators: u64) -> u64 {
    let active = sat_sub(slot, s.start_slot);
    let n: u64 = if num_validators >= 1 { num_validators } else { 1 };
    let expected = active / n;
    if active == 0 {
        0
    } else if expected == 0 {
        if s.blocks_produced > 0 { 10000 } else { 0 }
    } else {
        let bps = sat_mul(s.blocks_produced, 10000) / expected;
        if bps < 10000 { bps } else { 10000 }
    }
}

/// Share of a claim that goes to debt before capping: 90% under a penalty
/// boost, 75% with the uptime bonus, else 50%.
pub open spec fn spec_debt_fraction(s: StakeInfo, total: u64, slot: u64, n: u64) -> u64 {
    if s.penalty_boost_until > 0 && slot < s.penalty_boost_until {
        (total * 90 / 100) as u64
    } else if spec_uptime_bps(s, slot, n) >= UPTIME_BONUS_THRESHOLD_BPS {
        ((total / 2) * PERFORMANCE_BONUS_BPS / 10000) as u64
    } else {
        total / 2
    }
}

/// Effect of claiming rewards: the new stake entry and (liquid, debt payment).
pub open spec fn spec_claim(s: StakeInfo, slot: u64, n: u64) -> (StakeInfo, u64, u64) {
    let total = s.rewards_earned;
    let base = StakeInfo { rewards_earned: 0, ..s };
    if s.bootstrap_debt == 0 {
        (StakeInfo { total_claimed: sat_add(s.total_claimed, total), ..base }, total, 0)
    } else if slot >= sat_add(s.start_slot, MAX_BOOTSTRAP_SLOTS) {
        (StakeInfo {
            bootstrap_debt: 0,
            status: BootstrapStatus::FullyVested,
            graduation_slot: Some(slot),
            penalty_boost_until: 0,
            total_claimed: sat_add(s.total_claimed, total),
            ..base
        }, total, 0)
    } else {
        let fraction = spec_debt_fraction(s, total, slot, n);
        let paid: u64 = if fraction < s.bootstrap_debt { fraction } else { s.bootstrap_debt };
        let debt = (s.bootstrap_debt - paid) as u64;
        let boost: u64 = if debt == 0 {
            0
        } else if s.penalty_boost_until > 0 && slot >= s.penalty_boost_until {
            0
        } else {
            s.penalty_boost_until
        };
        (StakeInfo {
            bootstrap_debt: debt,
            earned_amount: sat_add(s.earned_amount, paid),
            total_debt_repaid: sat_add(s.total_debt_repaid, paid),
            total_claimed: sat_add(s.total_claimed, total),
            status: if debt == 0 { BootstrapStatus::FullyVested } else { s.status },
            graduation_slot: if debt == 0 { Some(slot) } else { s.graduation_slot },
            penalty_boost_until: boost,
            ..base
        }, (total - paid) as u64, paid)
    }
}

/// Effect of slashing `amount`: principal reduced, earned amount scaled in proportion,
/// bootstrap debt untouched; returns the amount slashed.
pub open spec fn spec_slash(s: StakeInfo, amount: u64) -> (StakeInfo, u64) {
    let slashed: u64 = if amount < s.amount { amount } else { s.amount };
    if slashed == 0 {
        (s, 0)
    } else {
        let new_amount = (s.amount - slashed) as u64;
        let t = StakeInfo {
            amount: new_amount,
            earned_amount: ((s.earned_amount * new_amount) / (s.amount as int)) as u64,
            ..s
        };
        (StakeInfo { is_active: spec_meets_minimum(t), ..t }, slashed)
    }
}

impl StakeInfo {
    /// New self-funded stake (no bootstrap debt).
    pub fn new(validator: Pubkey, amount: u64, current_slot: u64) -> (r: StakeInfo)
        requires
            current_slot + 1000 <= u64::MAX,
        ensures
            r == spec_new_stake(validator, amount, current_slot, u64::MAX),
    {
        Self::with_bootstrap_index(validator, amount, current_slot, u64::MAX)
    }

    /// New stake with an explicit bootstrap index.
    pub fn with_bootstrap_index(validator: Pubkey, amount: u64, current_slot: u64, bootstrap_index: u64) -> (r: StakeInfo)
        requires
            current_slot + 1000 <= u64::MAX,
        ensures
            r == spec_new_stake(validator, amount, current_slot, bootstrap_index),
    {
        let is_bootstrap = bootstrap_index < MAX_BOOTSTRAP_VALIDATORS && amount == BOOTSTRAP_GRANT_AMOUNT;
        let bootstrap_debt = if is_bootstrap { amount } else { 0 };
        StakeInfo {
            validator,
            amount,
            earned_amount: 0,
            bootstrap_debt,
            locked_until: current_slot + 1000,
            is_active: amount >= MIN_VALIDATOR_STAKE,
            delegated_amount: 0,
            rewards_earned: 0,
            last_reward_slot: current_slot,
            status: if bootstrap_debt > 0 { BootstrapStatus::Bootstrapping } else { BootstrapStatus::FullyVested },
            blocks_produced: 0,
            graduation_slot: None,
            total_claimed: 0,
            total_debt_repaid: 0,
            machine_fingerprint: [0u8; 32],
            start_slot: current_slot,
            bootstrap_index,
            last_migration_slot: 0,
            penalty_boost_until: 0,
        }
    }

    /// Own plus delegated stake, saturating.
    pub fn total_stake(&self) -> (r: u64)
        ensures
            r == spec_total_stake(*self),
    {
        add_sat(self.amount, self.delegated_amount)
    }

    /// Whether the total stake meets `MIN_VALIDATOR_STAKE`.
    pub fn meets_minimum(&self) -> (r: bool)
        ensures
            r == spec_meets_minimum(*self),
    {
        self.total_stake() >= MIN_VALIDATOR_STAKE
    }

    /// Slashes up to `amount` of principal; returns the amount slashed.
    pub fn slash(&mut self, amount: u64) -> (r: u64)
        ensures
            (*final(self), r) == spec_slash(*old(self), amount),
            r <= old(self).amount,
            final(self).bootstrap_debt == old(self).bootstrap_debt,
    {
        let slashed = if amount < self.amount { amount } else { self.amount };
        if slashed == 0 || self.amount == 0 {
            return 0;
        }
        let new_amount = self.amount - slashed;
        assert((self.earned_amount as int) * (new_amount as int) <= 0xffff_ffff_ffff_ffff_ffff_ffff_ffff_ffff) by (nonlinear_arith)
            requires self.earned_amount <= 0xffff_ffff_ffff_ffff, new_amount <= 0xffff_ffff_ffff_ffff;
        let earned = (self.earned_amount as u128) * (new_amount as u128) / (self.amount as u128);
        self.earned_amount = earned as u64;
        self.amount = new_amount;
        self.is_active = self.meets_minimum();
        slashed
    }

    /// Adds a reward (saturating) and records its slot.
    pub fn add_reward(&mut self, reward: u64, slot: u64)
        ensures
            *final(self) == (StakeInfo {
                rewards_earned: sat_add(old(self).rewards_earned, reward),
                last_reward_slot: slot,
                ..*old(self)
            }),
    {
        self.rewards_earned = add_sat(self.rewards_earned, reward);
        self.last_reward_slot = slot;
    }

    /// Claims the accumulated rewards and splits them into (liquid, debt payment).
    pub fn claim_rewards(&mut self, current_slot: u64, num_validators: u64) -> (r: (u64, u64))
        ensures
            (*final(self), r.0, r.1) == spec_claim(*old(self), current_slot, num_validators),
            r.0 + r.1 == old(self).rewards_earned,
            final(self).bootstrap_debt <= old(self).bootstrap_debt,
            final(self).rewards_earned == 0,
    {
        let total_reward = self.rewards_earned;
        self.rewards_earned = 0;
        if self.bootstrap_debt > 0 {
            if current_slot >= add_sat(self.start_slot, MAX_BOOTSTRAP_SLOTS) {
                self.bootstrap_debt = 0;
                self.status = BootstrapStatus::FullyVested;
                self.graduation_slot = Some(current_slot);
                self.penalty_boost_until = 0;
                self.total_claimed = add_sat(self.total_claimed, total_reward);
                return (total_reward, 0);
            }
            let uptime = self.uptime_bps(current_slot, num_validators);
            let debt_fraction = if self.penalty_boost_until > 0 && current_slot < self.penalty_boost_until {
                ((total_reward as u128) * 90 / 100) as u64
            } else {
                if self.penalty_boost_until > 0 && current_slot >= self.penalty_boost_until {
                    self.penalty_boost_until = 0;
                }
                if uptime >= UPTIME_BONUS_THRESHOLD_BPS {
                    let base_half = total_reward / 2;
                    ((base_half as u128) * (PERFORMANCE_BONUS_BPS as u128) / 10000) as u64
                } else {
                    total_reward / 2
                }
            };
            let paid = if debt_fraction < self.bootstrap_debt { debt_fraction } else { self.bootstrap_debt };
            self.bootstrap_debt = self.bootstrap_debt - paid;
            self.earned_amount = add_sat(self.earned_amount, paid);
            self.total_debt_repaid = add_sat(self.total_debt_repaid, paid);
            let liquid = total_reward - paid;
            self.total_claimed = add_sat(self.total_claimed, total_reward);
            if self.bootstrap_debt == 0 {
                self.status = BootstrapStatus::FullyVested;
                self.graduation_slot = Some(current_slot);
                self.penalty_boost_until = 0;
            }
            (liquid, paid)
        } else {
            self.total_claimed = add_sat(self.total_claimed, total_reward);
            (total_reward, 0)
        }
    }

    /// Uptime in basis points (0..=10000); `num_validators` is clamped to at least 1.
    pub fn uptime_bps(&self, current_slot: u64, num_validators: u64) -> (r: u64)
        ensures
            r == spec_uptime_bps(*self, current_slot, num_validators),
            r <= 10000,
    {
        let slots_active = sub_sat(current_slot, self.start_slot);
        if slots_active == 0 {
            return 0;
        }
        let num_val = if num_validators >= 1 { num_validators } else { 1 };
        let expected_blocks = slots_active / num_val;
        if expected_blocks == 0 {
            return if self.blocks_produced > 0 { 10000 } else { 0 };
        }
        let bps = mul_sat(self.blocks_produced, 10000) / expected_blocks;
        if bps < 10000 { bps } else { 10000 }
    }

    /// Whether the validator has graduated (status FullyVested).
    pub fn is_fully_vested(&self) -> (r: bool)
        ensures
            r == (self.status == BootstrapStatus::FullyVested),
    {
        self.status == BootstrapStatus::FullyVested
    }

    /// Vesting progress in percent: earned / (earned + debt), 100 when both are zero.
    pub fn vesting_progress(&self) -> (r: u64)
        requires
            self.earned_amount + self.bootstrap_debt <= u64::MAX,
        ensures
            r == if self.earned_amount + self.bootstrap_debt == 0 {
                100
            } else {
                (self.earned_amount * 100) / ((self.earned_amount + self.bootstrap_debt) as int)
            },
            r <= 100,
    {
        if self.earned_amount == 0 && self.bootstrap_debt == 0 {
            return 100;
        }
        let total_bootstrap = self.earned_amount + self.bootstrap_debt;
        assert((self.earned_amount as int) * 100 / (total_bootstrap as int) <= 100) by (nonlinear_arith)
            requires self.earned_amount <= total_bootstrap, total_bootstrap > 0;
        ((self.earned_amount as u128) * 100 / (total_bootstrap as u128)) as u64
    }

    /// Adds stake after graduation, up to `MAX_VALIDATOR_STAKE`.
    pub fn add_stake(&mut self, additional: u64) -> (r: Result<(), String>)
        ensures
            old(self).status != BootstrapStatus::FullyVested ==> (r matches Err(e) && e@ == "Must be fully vested to add additional stake"@),
            old(self).status == BootstrapStatus::FullyVested && additional > sat_sub(MAX_VALIDATOR_STAKE, old(self).amount)
                ==> (r matches Err(e) && e@ == "Cannot exceed maximum stake of 1000000 MOLT"@),
            old(self).status != BootstrapStatus::FullyVested ==> r is Err && *final(self) == *old(self),
            old(self).status == BootstrapStatus::FullyVested && additional > sat_sub(MAX_VALIDATOR_STAKE, old(self).amount)
                ==> r is Err && *final(self) == *old(self),
            old(self).status == BootstrapStatus::FullyVested && additional <= sat_sub(MAX_VALIDATOR_STAKE, old(self).amount)
                ==> r is Ok && *final(self) == (StakeInfo { amount: sat_add(old(self).amount, additional), ..*old(self) }),
    {
        if !self.is_fully_vested() {
            return Err(String::from_str("Must be fully vested to add additional stake"));
        }
        if additional > sub_sat(MAX_VALIDATOR_STAKE, self.amount) {
            return Err(String::from_str("Cannot exceed maximum stake of 1000000 MOLT"));
        }
        self.amount = add_sat(self.amount, additional);
        Ok(())
    }

    /// Tops up stake after slashing (no vesting requirement); returns the new amount.
    pub fn top_up_stake(&mut self, additional: u64) -> (r: Result<u64, String>)
        ensures
            additional == 0 ==> (r matches Err(e) && e@ == "Top-up amount must be greater than zero"@),
            additional > 0 && additional > sat_sub(MAX_VALIDATOR_STAKE, old(self).amount)
                ==> (r matches Err(e) && e@ == "Cannot exceed maximum stake of 1000000 MOLT"@),
            additional == 0 ==> r is Err && *final(self) == *old(self),
            additional > 0 && additional > sat_sub(MAX_VALIDATOR_STAKE, old(self).amount)
                ==> r is Err && *final(self) == *old(self),
            additional > 0 && additional <= sat_sub(MAX_VALIDATOR_STAKE, old(self).amount) ==> {
                let t = StakeInfo { amount: sat_add(old(self).amount, additional), ..*old(self) };
                &&& *final(self) == StakeInfo { is_active: spec_meets_minimum(t), ..t }
                &&& r == Ok::<u64, String>(final(self).amount)
            },
    {
        if additional == 0 {
            return Err(String::from_str("Top-up amount must be greater than zero"));
        }
        if additional > sub_sat(MAX_VALIDATOR_STAKE, self.amount) {
            return Err(String::from_str("Cannot exceed maximum stake of 1000000 MOLT"));
        }
        self.amount = add_sat(self.amount, additional);
        self.is_active = self.meets_minimum();
        Ok(self.amount)
    }

    /// Builds an unstake request after graduation; does not change the stake.
    pub fn request_unstake(&self, amount: u64, current_slot: u64, staker: Pubkey) -> (r: Result<UnstakeRequest, String>)
        requires
            self.status == BootstrapStatus::FullyVested && 0 < amount <= self.amount
                ==> current_slot + UNSTAKE_COOLDOWN_SLOTS <= u64::MAX,
        ensures
            self.status != BootstrapStatus::FullyVested ==> (r matches Err(e) && e@ == "Must be fully vested to unstake"@),
            self.status == BootstrapStatus::FullyVested && (amount == 0 || amount > self.amount) ==> (r matches Err(e) && e@ == "Invalid unstake amount"@),
            self.status != BootstrapStatus::FullyVested ==> r is Err,
            self.status == BootstrapStatus::FullyVested && (amount == 0 || amount > self.amount) ==> r is Err,
            self.status == BootstrapStatus::FullyVested && 0 < amount <= self.amount ==> r == Ok::<UnstakeRequest, String>(UnstakeRequest {
                validator: self.validator,
                staker,
                amount,
                unlock_slot: (current_slot + UNSTAKE_COOLDOWN_SLOTS) as u64,
            }),
    {
        if !self.is_fully_vested() {
            return Err(String::from_str("Must be fully vested to unstake"));
        }
        if amount == 0 || amount > self.amount {
            return Err(String::from_str("Invalid unstake amount"));
        }
        Ok(UnstakeRequest { validator: self.validator, staker, amount, unlock_slot: current_slot + UNSTAKE_COOLDOWN_SLOTS })
    }
}

/// Claiming splits the whole accumulated reward between liquid and debt, never
/// raises the debt, and leaves nothing unclaimed; a second claim right after
/// yields nothing.
pub proof fn lemma_claim_conserves(s: StakeInfo, slot: u64, n: u64)
    ensures
        spec_claim(s, slot, n).1 + spec_claim(s, slot, n).2 == s.rewards_earned,
        spec_claim(s, slot, n).0.bootstrap_debt <= s.bootstrap_debt,
        spec_claim(s, slot, n).0.bootstrap_debt + spec_claim(s, slot, n).2 == s.bootstrap_debt
            || (spec_claim(s, slot, n).0.bootstrap_debt == 0 && spec_claim(s, slot, n).2 == 0),
        spec_claim(spec_claim(s, slot, n).0, slot, n).1 == 0,
        spec_claim(spec_claim(s, slot, n).0, slot, n).2 == 0,
{
    let total = s.rewards_earned;
    assert((total / 2) * PERFORMANCE_BONUS_BPS / 10000 <= total) by (nonlinear_arith);
    assert(total * 90 / 100 <= total) by (nonlinear_arith);
}


/// One delegation: `delegator` has delegated `amount` to `validator`.
#[derive(Debug, Clone, Copy)]
pub struct Delegation {
    pub validator: Pubkey,
    pub delegator: Pubkey,
    pub amount: u64,
}

/// Registry entry: a machine fingerprint claimed by a validator.
#[derive(Debug, Clone, Copy)]
pub struct FingerprintEntry {
    pub fingerprint: [u8; 32],
    pub validator: Pubkey,
}

impl Keyed for FingerprintEntry {
    open spec fn key(&self) -> [u8; 32] {
        self.fingerprint
    }

    fn key_exec(&self) -> (r: [u8; 32]) {
        self.fingerprint
    }
}

/// Network staking statistics.
#[derive(Debug, Clone, Copy)]
pub struct StakingStats {
    pub total_staked: u64,
    pub total_slashed: u64,
    pub total_unclaimed_rewards: u64,
    pub active_validators: u64,
    pub average_stake: u64,
}

/// All validator stakes of the network.
#[derive(Debug, Clone)]
pub struct StakePool {
    stakes: Vec<StakeInfo>,
    total_staked: u64,
    total_slashed: u64,
    unstake_requests: Vec<UnstakeRequest>,
    delegations: Vec<Delegation>,
    fingerprint_registry: Vec<FingerprintEntry>,
    bootstrap_grants_issued: u64,
}

/// The zero fingerprint (not set).
pub open spec fn zero_fp() -> [u8; 32] {
    vstd::array::spec_array_fill_for_copy_type::<u8, 32>(0u8)
}

/// No two unstake requests share a (validator, staker) pair.
pub open spec fn distinct_requests(s: Seq<UnstakeRequest>) -> bool {
    forall|i: int, j: int| 0 <= i < s.len() && 0 <= j < s.len() && i != j
        ==> !(#[trigger] s[i].validator == #[trigger] s[j].validator && s[i].staker == s[j].staker)
}

/// No two delegations share a (validator, delegator) pair.
pub open spec fn distinct_delegations(s: Seq<Delegation>) -> bool {
    forall|i: int, j: int| 0 <= i < s.len() && 0 <= j < s.len() && i != j
        ==> !(#[trigger] s[i].validator == #[trigger] s[j].validator && s[i].delegator == s[j].delegator)
}

impl StakePool {
    /// The stake entries, in insertion order.
    pub closed spec fn entries(&self) -> Seq<StakeInfo> {
        self.stakes@
    }

    /// Stakes by validator key.
    pub open spec fn stakes_view(&self) -> Map<[u8; 32], StakeInfo> {
        keyed_map(self.entries())
    }

    /// Sum of all stake that counts (own stake plus delegations), as tracked.
    pub closed spec fn spec_total_staked(&self) -> u64 {
        self.total_staked
    }

    /// Total slashed (burned) so far.
    pub closed spec fn spec_total_slashed(&self) -> u64 {
        self.total_slashed
    }

    /// Pending unstake requests.
    pub closed spec fn requests(&self) -> Seq<UnstakeRequest> {
        self.unstake_requests@
    }

    /// Delegations (validator, delegator, amount).
    pub closed spec fn delegation_list(&self) -> Seq<Delegation> {
        self.delegations@
    }

    /// Fingerprint registry entries.
    pub closed spec fn fingerprints(&self) -> Seq<FingerprintEntry> {
        self.fingerprint_registry@
    }

    /// Fingerprint registry: fingerprint to owning validator.
    pub open spec fn fingerprint_view(&self) -> Map<[u8; 32], FingerprintEntry> {
        keyed_map(self.fingerprints())
    }

    /// Number of bootstrap grants issued so far.
    pub closed spec fn spec_grants_issued(&self) -> u64 {
        self.bootstrap_grants_issued
    }

    /// Internal consistency: keys are unique in every table.
    pub closed spec fn wf(&self) -> bool {
        &&& distinct_keys(self.stakes@)
        &&& distinct_keys(self.fingerprint_registry@)
        &&& distinct_requests(self.unstake_requests@)
        &&& distinct_delegations(self.delegations@)
    }

    /// Everything except the stake table is as in `other`.
    pub open spec fn same_except_stakes(&self, other: &StakePool) -> bool {
        &&& self.spec_total_slashed() == other.spec_total_slashed()
        &&& self.requests() == other.requests()
        &&& self.delegation_list() == other.delegation_list()
        &&& self.fingerprints() == other.fingerprints()
        &&& self.spec_grants_issued() == other.spec_grants_issued()
    }

    /// Empty pool.
    pub fn new() -> (r: StakePool)
        ensures
            r.wf(),
            r.entries().len() == 0,
            r.stakes_view() == Map::<[u8; 32], StakeInfo>::empty(),
            r.spec_total_staked() == 0,
            r.spec_total_slashed() == 0,
            r.requests().len() == 0,
            r.delegation_list().len() == 0,
            r.fingerprints().len() == 0,
            r.fingerprint_view() == Map::<[u8; 32], FingerprintEntry>::empty(),
            r.spec_grants_issued() == 0,
    {
        let r = StakePool {
            stakes: Vec::new(),
            total_staked: 0,
            total_slashed: 0,
            unstake_requests: Vec::new(),
            delegations: Vec::new(),
            fingerprint_registry: Vec::new(),
            bootstrap_grants_issued: 0,
        };
        assert(r.stakes_view() =~= Map::<[u8; 32], StakeInfo>::empty());
        assert(r.fingerprint_view() =~= Map::<[u8; 32], FingerprintEntry>::empty());
        r
    }

    fn set_entry(&mut self, i: usize, info: StakeInfo)
        requires
            old(self).wf(),
            i < old(self).entries().len(),
            info.validator == old(self).entries()[i as int].validator,
        ensures
            final(self).wf(),
            final(self).entries() == old(self).entries().update(i as int, info),
            final(self).stakes_view() == old(self).stakes_view().insert(info.validator.0, info),
            final(self).same_except_stakes(old(self)),
            final(self).spec_total_staked() == old(self).spec_total_staked(),
    {
        proof {
            lemma_keyed_update(self.stakes@, i as int, info);
        }
        self.stakes.set(i, info);
    }

    fn push_entry(&mut self, info: StakeInfo)
        requires
            old(self).wf(),
            !old(self).stakes_view().dom().contains(info.validator.0),
        ensures
            final(self).wf(),
            final(self).entries() == old(self).entries().push(info),
            final(self).stakes_view() == old(self).stakes_view().insert(info.validator.0, info),
            final(self).same_except_stakes(old(self)),
            final(self).spec_total_staked() == old(self).spec_total_staked(),
    {
        proof {
            lemma_keyed_push(self.stakes@, info);
        }
        self.stakes.push(info);
    }

    /// Position of `validator` in the stake table.
    fn find(&self, validator: &Pubkey) -> (r: Option<usize>)
        requires
            self.wf(),
        ensures
            r matches Some(i) ==> i < self.entries().len() && self.entries()[i as int].validator == *validator
                && self.stakes_view().dom().contains(validator.0)
                && self.stakes_view()[validator.0] == self.entries()[i as int],
            r is None ==> !self.stakes_view().dom().contains(validator.0),
    {
        let r = find_key(&self.stakes, &validator.0);
        proof {
            if let Some(i) = r {
                lemma_key_index(self.stakes@, i as int);
                assert(self.entries()[i as int].validator.0 == validator.0);
            }
        }
        r
    }

    /// Registers `amount` of stake for `validator` (adds to an existing entry).
    /// Fails below `MIN_VALIDATOR_STAKE` or when the entry would exceed `MAX_VALIDATOR_STAKE`.
    pub fn stake(&mut self, validator: Pubkey, amount: u64, current_slot: u64) -> (r: Result<(), String>)
        requires
            old(self).wf(),
            !old(self).stakes_view().dom().contains(validator.0) ==> current_slot + 1000 <= u64::MAX,
        ensures
            r matches Err(e) ==> e@ == stake_error_text(old(self).stakes_view(), validator, amount),
            final(self).wf(),
            r is Ok <==> spec_stake_ok(old(self).stakes_view(), validator, amount),
            r is Err ==> *final(self) == *old(self),
            r is Ok ==> final(self).stakes_view() == spec_stake_result(old(self).stakes_view(), validator, amount, current_slot, u64::MAX),
            r is Ok ==> final(self).spec_total_staked() == sat_add(old(self).spec_total_staked(), amount),
            final(self).same_except_stakes(old(self)),
    {
        self.stake_with_index(validator, amount, current_slot, u64::MAX)
    }

    /// Registers stake with an explicit bootstrap index (used for a new entry only).
    pub fn stake_with_index(&mut self, validator: Pubkey, amount: u64, current_slot: u64, bootstrap_index: u64) -> (r: Result<(), String>)
        requires
            old(self).wf(),
            !old(self).stakes_view().dom().contains(validator.0) ==> current_slot + 1000 <= u64::MAX,
        ensures
            r matches Err(e) ==> e@ == stake_error_text(old(self).stakes_view(), validator, amount),
            final(self).wf(),
            r is Ok <==> spec_stake_ok(old(self).stakes_view(), validator, amount),
            r is Err ==> *final(self) == *old(self),
            r is Ok ==> final(self).stakes_view() == spec_stake_result(old(self).stakes_view(), validator, amount, current_slot, bootstrap_index),
            r is Ok ==> final(self).spec_total_staked() == sat_add(old(self).spec_total_staked(), amount),
            final(self).same_except_stakes(old(self)),
    {
        if amount < MIN_VALIDATOR_STAKE {
            let mut m = String::from_str("Stake ");
            m.append(u64_to_decimal(amount).as_str());
            m.append(" is below minimum 75000000000000");
            return Err(m);
        }
        let found = self.find(&validator);
        match found {
            Some(i) => {
                let new_total = add_sat(self.stakes[i].amount, amount);
                if new_total > MAX_VALIDATOR_STAKE {
                    let mut m = String::from_str("Stake ");
                    m.append(u64_to_decimal(new_total).as_str());
                    m.append(" would exceed max 1000000000000000 per validator");
                    return Err(m);
                }
                let mut info = self.stakes[i];
                info.amount = new_total;
                info.is_active = info.meets_minimum();
                self.set_entry(i, info);
            },
            None => {
                if amount > MAX_VALIDATOR_STAKE {
                    let mut m = String::from_str("Stake ");
                    m.append(u64_to_decimal(amount).as_str());
                    m.append(" exceeds max 1000000000000000 per validator");
                    return Err(m);
                }
                let info = StakeInfo::with_bootstrap_index(validator, amount, current_slot, bootstrap_index);
                self.push_entry(info);
            },
        }
        self.total_staked = add_sat(self.total_staked, amount);
        Ok(())
    }

    /// Sets the stake of `validator` to `amount` (network snapshot sync), adjusting the total.
    pub fn upsert_stake(&mut self, validator: Pubkey, amount: u64, current_slot: u64)
        requires
            old(self).wf(),
            !old(self).stakes_view().dom().contains(validator.0) ==> current_slot + 1000 <= u64::MAX,
        ensures
            final(self).wf(),
            final(self).same_except_stakes(old(self)),
            old(self).stakes_view().dom().contains(validator.0) ==> {
                let old_info = old(self).stakes_view()[validator.0];
                let t = StakeInfo { amount, ..old_info };
                &&& final(self).stakes_view() == old(self).stakes_view().insert(validator.0, StakeInfo { is_active: spec_meets_minimum(t), ..t })
                &&& final(self).spec_total_staked() == if amount > old_info.amount {
                    sat_add(old(self).spec_total_staked(), (amount - old_info.amount) as u64)
                } else {
                    sat_sub(old(self).spec_total_staked(), (old_info.amount - amount) as u64)
                }
            },
            !old(self).stakes_view().dom().contains(validator.0) ==> {
                &&& final(self).stakes_view() == old(self).stakes_view().insert(validator.0, spec_new_stake(validator, amount, current_slot, u64::MAX))
                &&& final(self).spec_total_staked() == sat_add(old(self).spec_total_staked(), amount)
            },
    {
        match self.find(&validator) {
            Some(i) => {
                let old_amount = self.stakes[i].amount;
                if amount > old_amount {
                    self.total_staked = add_sat(self.total_staked, amount - old_amount);
                } else {
                    self.total_staked = sub_sat(self.total_staked, old_amount - amount);
                }
                let mut info = self.stakes[i];
                info.amount = amount;
                info.is_active = info.meets_minimum();
                let ts = self.total_staked;
                self.set_entry(i, info);
            },
            None => {
                let info = StakeInfo::new(validator, amount, current_slot);
                self.total_staked = add_sat(self.total_staked, amount);
                self.push_entry(info);
            },
        }
    }

    /// Slashes up to `amount` from `validator`; returns the amount slashed (0 if unknown).
    pub fn slash_validator(&mut self, validator: &Pubkey, amount: u64) -> (r: u64)
        requires
            old(self).wf(),
        ensures
            final(self).wf(),
            !old(self).stakes_view().dom().contains(validator.0) ==> r == 0 && *final(self) == *old(self),
            old(self).stakes_view().dom().contains(validator.0) ==> {
                let (info, slashed) = spec_slash(old(self).stakes_view()[validator.0], amount);
                &&& r == slashed
                &&& final(self).stakes_view() == old(self).stakes_view().insert(validator.0, info)
                &&& final(self).spec_total_staked() == sat_sub(old(self).spec_total_staked(), slashed)
                &&& final(self).spec_total_slashed() == sat_add(old(self).spec_total_slashed(), slashed)
                &&& final(self).requests() == old(self).requests()
                &&& final(self).delegation_list() == old(self).delegation_list()
                &&& final(self).fingerprints() == old(self).fingerprints()
                &&& final(self).spec_grants_issued() == old(self).spec_grants_issued()
            },
    {
        match self.find(validator) {
            Some(i) => {
                let mut info = self.stakes[i];
                let slashed = info.slash(amount);
                self.set_entry(i, info);
                self.total_staked = sub_sat(self.total_staked, slashed);
                self.total_slashed = add_sat(self.total_slashed, slashed);
                slashed
            },
            None => 0,
        }
    }

    /// Tops up an existing validator's stake after slashing; returns the new amount.
    pub fn top_up_stake(&mut self, validator: &Pubkey, amount: u64) -> (r: Result<u64, String>)
        requires
            old(self).wf(),
        ensures
            !old(self).stakes_view().dom().contains(validator.0) ==> (r matches Err(e) && e@ == "Validator not found in stake pool"@),
            old(self).stakes_view().dom().contains(validator.0) && amount == 0
                ==> (r matches Err(e) && e@ == "Top-up amount must be greater than zero"@),
            old(self).stakes_view().dom().contains(validator.0) && amount > 0 && amount > sat_sub(MAX_VALIDATOR_STAKE, old(self).stakes_view()[validator.0].amount)
                ==> (r matches Err(e) && e@ == "Cannot exceed maximum stake of 1000000 MOLT"@),
            final(self).wf(),
            final(self).same_except_stakes(old(self)),
            r is Ok <==> (old(self).stakes_view().dom().contains(validator.0) && amount > 0
                && amount <= sat_sub(MAX_VALIDATOR_STAKE, old(self).stakes_view()[validator.0].amount)),
            r is Err ==> *final(self) == *old(self),
            r is Ok ==> {
                let t = StakeInfo { amount: sat_add(old(self).stakes_view()[validator.0].amount, amount), ..old(self).stakes_view()[validator.0] };
                let n = StakeInfo { is_active: spec_meets_minimum(t), ..t };
                &&& final(self).stakes_view() == old(self).stakes_view().insert(validator.0, n)
                &&& r == Ok::<u64, String>(n.amount)
                &&& final(self).spec_total_staked() == sat_add(old(self).spec_total_staked(), amount)
            },
    {
        match self.find(validator) {
            Some(i) => {
                let mut info = self.stakes[i];
                let new_total = match info.top_up_stake(amount) {
                    Ok(t) => t,
                    Err(e) => return Err(e),
                };
                self.set_entry(i, info);
                self.total_staked = add_sat(self.total_staked, amount);
                Ok(new_total)
            },
            None => Err(String::from_str("Validator not found in stake pool")),
        }
    }

    /// Stake entry of `validator`.
    pub fn get_stake(&self, validator: &Pubkey) -> (r: Option<&StakeInfo>)
        requires
            self.wf(),
        ensures
            r matches Some(s) ==> self.stakes_view().dom().contains(validator.0) && *s == self.stakes_view()[validator.0],
            r is None ==> !self.stakes_view().dom().contains(validator.0),
    {
        match self.find(validator) {
            Some(i) => Some(&self.stakes[i]),
            None => None,
        }
    }

    /// All stake entries, in ascending order of validator key.
    pub fn stake_entries(&self) -> (r: Vec<StakeInfo>)
        ensures
            r@.to_multiset() == self.entries().to_multiset(),
            sorted_by_key(r@),
    {
        let copy = self.stakes.clone();
        proof {
            assert(copy@ =~= self.stakes@);
        }
        sort_by_pubkey(copy)
    }

    /// Total stake that counts (own plus delegated, pending unstakes excluded).
    pub fn total_stake(&self) -> (r: u64)
        ensures
            r == self.spec_total_staked(),
    {
        self.total_staked
    }

    /// Active stake: the same as `total_stake`, since unstaking removes it at once.
    pub fn active_stake(&self) -> (r: u64)
        ensures
            r == self.spec_total_staked(),
    {
        self.total_staked
    }

    /// Total slashed so far.
    pub fn total_slashed(&self) -> (r: u64)
        ensures
            r == self.spec_total_slashed(),
    {
        self.total_slashed
    }

    /// Number of bootstrap grants issued so far.
    pub fn bootstrap_grants_issued(&self) -> (r: u64)
        ensures
            r == self.spec_grants_issued(),
    {
        self.bootstrap_grants_issued
    }

    /// Allocates the next bootstrap index while fewer than 200 were issued.
    pub fn next_bootstrap_index(&mut self) -> (r: Option<u64>)
        requires
            old(self).wf(),
        ensures
            final(self).wf(),
            final(self).entries() == old(self).entries(),
            final(self).spec_total_staked() == old(self).spec_total_staked(),
            final(self).spec_total_slashed() == old(self).spec_total_slashed(),
            final(self).requests() == old(self).requests(),
            final(self).delegation_list() == old(self).delegation_list(),
            final(self).fingerprints() == old(self).fingerprints(),
            old(self).spec_grants_issued() < MAX_BOOTSTRAP_VALIDATORS ==> r == Some(old(self).spec_grants_issued())
                && final(self).spec_grants_issued() == old(self).spec_grants_issued() + 1,
            old(self).spec_grants_issued() >= MAX_BOOTSTRAP_VALIDATORS ==> r is None
                && final(self).spec_grants_issued() == old(self).spec_grants_issued(),
    {
        if self.bootstrap_grants_issued < MAX_BOOTSTRAP_VALIDATORS {
            let index = self.bootstrap_grants_issued;
            self.bootstrap_grants_issued = self.bootstrap_grants_issued + 1;
            Some(index)
        } else {
            None
        }
    }
}

/// Whether staking `amount` for `validator` is accepted.
pub open spec fn spec_stake_ok(m: Map<[u8; 32], StakeInfo>, validator: Pubkey, amount: u64) -> bool {
    &&& amount >= MIN_VALIDATOR_STAKE
    &&& if m.dom().contains(validator.0) {
        sat_add(m[validator.0].amount, amount) <= MAX_VALIDATOR_STAKE
    } else {
        amount <= MAX_VALIDATOR_STAKE
    }
}

/// "Stake", the amount `n`, then `tail`.
pub open spec fn stake_amount_text(n: u64, tail: Seq<char>) -> Seq<char> {
    "Stake "@ + decimal(n as nat) + tail
}

/// The message for a refused stake of `amount` for `validator` on stakes `m`.
pub open spec fn stake_error_text(m: Map<[u8; 32], StakeInfo>, validator: Pubkey, amount: u64) -> Seq<char> {
    if amount < MIN_VALIDATOR_STAKE {
        stake_amount_text(amount, " is below minimum 75000000000000"@)
    } else if m.dom().contains(validator.0) {
        stake_amount_text(sat_add(m[validator.0].amount, amount), " would exceed max 1000000000000000 per validator"@)
    } else {
        stake_amount_text(amount, " exceeds max 1000000000000000 per validator"@)
    }
}

/// A cooldown message: `prefix`, the slots left, and about how many hours
/// they make at 400 ms a slot.
pub open spec fn cooldown_text(prefix: Seq<char>, remaining: nat) -> Seq<char> {
    prefix + decimal(remaining) + " slots remaining (~"@ + decimal(remaining * 400 / 1000 / 3600) + " hours)"@
}

/// The message for a refused bootstrap of `validator` with `amount` and
/// `fingerprint` on `p`.
pub open spec fn bootstrap_error_text(p: StakePool, validator: Pubkey, amount: u64, fingerprint: [u8; 32]) -> Seq<char> {
    let owner = p.fingerprint_view()[fingerprint].validator;
    if p.stakes_view().dom().contains(validator.0) && p.stakes_view()[validator.0].amount < amount && amount > MAX_VALIDATOR_STAKE {
        stake_amount_text(amount, " would exceed max 1000000000000000 per validator"@)
    } else if p.stakes_view().dom().contains(validator.0) {
        "Machine fingerprint already registered to validator "@ + bs58_encode_spec(owner.0@)
    } else if fingerprint != zero_fp() && p.fingerprint_view().dom().contains(fingerprint) && owner != validator {
        "Machine fingerprint already registered to validator "@ + bs58_encode_spec(owner.0@)
            + ". Each machine can only receive one bootstrap grant."@
    } else {
        stake_amount_text(amount, " is below minimum 75000000000000"@)
    }
}

/// Stakes after an accepted stake of `amount`.
pub open spec fn spec_stake_result(m: Map<[u8; 32], StakeInfo>, validator: Pubkey, amount: u64, slot: u64, index: u64) -> Map<[u8; 32], StakeInfo> {
    if m.dom().contains(validator.0) {
        let t = StakeInfo { amount: sat_add(m[validator.0].amount, amount), ..m[validator.0] };
        m.insert(validator.0, StakeInfo { is_active: spec_meets_minimum(t), ..t })
    } else {
        m.insert(validator.0, spec_new_stake(validator, amount, slot, index))
    }
}


/// Number of active entries.
pub open spec fn count_active(s: Seq<StakeInfo>) -> nat
    decreases s.len(),
{
    if s.len() == 0 {
        0
    } else {
        count_active(s.drop_last()) + if s.last().is_active { 1nat } else { 0nat }
    }
}

/// Keys of the entries that are active and meet the minimum, in order.
pub open spec fn active_keys(s: Seq<StakeInfo>) -> Seq<Pubkey>
    decreases s.len(),
{
    if s.len() == 0 {
        Seq::empty()
    } else if s.last().is_active && spec_meets_minimum(s.last()) {
        active_keys(s.drop_last()).push(s.last().validator)
    } else {
        active_keys(s.drop_last())
    }
}

/// Sum of the total stakes of the entries that are active and meet the minimum.
pub open spec fn active_stake_sum(s: Seq<StakeInfo>) -> nat
    decreases s.len(),
{
    if s.len() == 0 {
        0
    } else {
        active_stake_sum(s.drop_last()) + if s.last().is_active && spec_meets_minimum(s.last()) {
            spec_total_stake(s.last()) as nat
        } else {
            0nat
        }
    }
}

/// Sum of unclaimed rewards.
pub open spec fn rewards_sum(s: Seq<StakeInfo>) -> nat
    decreases s.len(),
{
    if s.len() == 0 {
        0
    } else {
        rewards_sum(s.drop_last()) + s.last().rewards_earned as nat
    }
}

/// Sum of the amounts of unstake requests.
pub open spec fn request_sum(s: Seq<UnstakeRequest>) -> nat
    decreases s.len(),
{
    if s.len() == 0 {
        0
    } else {
        request_sum(s.drop_last()) + s.last().amount as nat
    }
}

proof fn lemma_prefix_step<T>(s: Seq<T>, i: int)
    requires
        0 <= i < s.len(),
    ensures
        s.subrange(0, i + 1).drop_last() == s.subrange(0, i),
        s.subrange(0, i + 1).last() == s[i],
{
    assert(s.subrange(0, i + 1).drop_last() =~= s.subrange(0, i));
}

proof fn lemma_active_keys_in(s: Seq<StakeInfo>, k: Pubkey)
    ensures
        active_keys(s).contains(k) <==> exists|i: int| 0 <= i < s.len() && #[trigger] s[i].validator == k
            && s[i].is_active && spec_meets_minimum(s[i]),
    decreases s.len(),
{
    if s.len() > 0 {
        let t = s.drop_last();
        let r = active_keys(t);
        lemma_active_keys_in(t, k);
        let last = s.last();
        let p = last.is_active && spec_meets_minimum(last);
        if p {
            assert(active_keys(s) == r.push(last.validator));
        } else {
            assert(active_keys(s) == r);
        }
        if exists|i: int| 0 <= i < s.len() && #[trigger] s[i].validator == k && s[i].is_active && spec_meets_minimum(s[i]) {
            let i = choose|i: int| 0 <= i < s.len() && #[trigger] s[i].validator == k && s[i].is_active && spec_meets_minimum(s[i]);
            if i < s.len() - 1 {
                assert(t[i] == s[i]);
                assert(r.contains(k));
                let j = choose|j: int| 0 <= j < r.len() && r[j] == k;
                if p {
                    assert(r.push(last.validator)[j] == k);
                }
            } else {
                assert(s[i] == last);
                assert(r.push(last.validator)[r.len() as int] == k);
            }
        }
        if active_keys(s).contains(k) {
            let j = choose|j: int| 0 <= j < active_keys(s).len() && active_keys(s)[j] == k;
            if p && j == r.len() {
                assert(s[s.len() - 1].validator == k);
            } else {
                assert(r[j] == k);
                assert(r.contains(k));
                let i = choose|i: int| 0 <= i < t.len() && #[trigger] t[i].validator == k && t[i].is_active && spec_meets_minimum(t[i]);
                assert(s[i] == t[i]);
            }
        }
    }
}

impl StakePool {
    /// Validators whose entry is active and meets the minimum (in table order).
    pub fn active_validators(&self) -> (r: Vec<Pubkey>)
        requires
            self.wf(),
        ensures
            r@ == active_keys(self.entries()),
            forall|k: Pubkey| r@.contains(k) <==> (self.stakes_view().dom().contains(k.0)
                && self.stakes_view()[k.0].is_active && spec_meets_minimum(self.stakes_view()[k.0])),
        {
        let mut r: Vec<Pubkey> = Vec::new();
        let mut i: usize = 0;
        while i < self.stakes.len()
            invariant
                i <= self.stakes@.len(),
                r@ == active_keys(self.stakes@.subrange(0, i as int)),
            decreases self.stakes@.len() - i,
        {
            proof {
                lemma_prefix_step(self.stakes@, i as int);
            }
            let info = &self.stakes[i];
            if info.is_active && info.meets_minimum() {
                r.push(info.validator);
            }
            i += 1;
        }
        proof {
            assert(self.stakes@.subrange(0, self.stakes@.len() as int) =~= self.stakes@);
            assert forall|k: Pubkey| r@.contains(k) <==> (self.stakes_view().dom().contains(k.0)
                && self.stakes_view()[k.0].is_active && spec_meets_minimum(self.stakes_view()[k.0])) by {
                lemma_active_keys_in(self.stakes@, k);
                if self.stakes_view().dom().contains(k.0) {
                    let j = key_index(self.stakes@, k.0);
                    assert(self.stakes@[j].validator.0 == k.0);
                    assert(self.stakes@[j].validator == k);
                }
                if exists|i: int| 0 <= i < self.stakes@.len() && #[trigger] self.stakes@[i].validator == k
                    && self.stakes@[i].is_active && spec_meets_minimum(self.stakes@[i]) {
                    let i = choose|i: int| 0 <= i < self.stakes@.len() && #[trigger] self.stakes@[i].validator == k
                        && self.stakes@[i].is_active && spec_meets_minimum(self.stakes@[i]);
                    lemma_key_index(self.stakes@, i);
                }
            }
        }
        r
    }

    /// Stake-weighted voting power of `validator` in units of 1/10000 of the active stake;
    /// 0 for an inactive or unknown validator or when no stake is active.
    pub fn voting_power(&self, validator: &Pubkey) -> (r: u64)
        requires
            self.wf(),
        ensures
            r == if self.spec_total_staked() == 0 || !self.stakes_view().dom().contains(validator.0)
                || !self.stakes_view()[validator.0].is_active {
                0
            } else {
                ((spec_total_stake(self.stakes_view()[validator.0]) * 10000) / (self.spec_total_staked() as int)) as u64
            },
    {
        let active = self.active_stake();
        if active == 0 {
            return 0;
        }
        match self.find(validator) {
            Some(i) => {
                let info = &self.stakes[i];
                if info.is_active {
                    let ts = info.total_stake();
                    ((ts as u128) * 10000 / (active as u128)) as u64
                } else {
                    0
                }
            },
            None => 0,
        }
    }

    /// Credits the (decayed) block reward to an active validator; returns it (0 otherwise).
    pub fn distribute_block_reward(&mut self, validator: &Pubkey, slot: u64, is_heartbeat: bool) -> (r: u64)
        requires
            old(self).wf(),
        ensures
            final(self).wf(),
            final(self).same_except_stakes(old(self)),
            final(self).spec_total_staked() == old(self).spec_total_staked(),
            old(self).stakes_view().dom().contains(validator.0) && old(self).stakes_view()[validator.0].is_active ==> {
                let reward = spec_decayed_reward(if is_heartbeat { HEARTBEAT_BLOCK_REWARD } else { TRANSACTION_BLOCK_REWARD }, slot);
                let info = old(self).stakes_view()[validator.0];
                &&& r == reward
                &&& final(self).stakes_view() == old(self).stakes_view().insert(validator.0,
                    StakeInfo { rewards_earned: sat_add(info.rewards_earned, reward as u64), last_reward_slot: slot, ..info })
            },
            !(old(self).stakes_view().dom().contains(validator.0) && old(self).stakes_view()[validator.0].is_active)
                ==> r == 0 && final(self).stakes_view() == old(self).stakes_view(),
    {
        match self.find(validator) {
            Some(i) => {
                if self.stakes[i].is_active {
                    let base = if is_heartbeat { HEARTBEAT_BLOCK_REWARD } else { TRANSACTION_BLOCK_REWARD };
                    let reward = decayed_reward(base, slot);
                    let mut info = self.stakes[i];
                    info.add_reward(reward, slot);
                    self.set_entry(i, info);
                    return reward;
                }
                0
            },
            None => 0,
        }
    }

    /// Credits transaction fees to an active validator's unclaimed rewards.
    pub fn distribute_fees(&mut self, validator: &Pubkey, fees: u64, slot: u64)
        requires
            old(self).wf(),
        ensures
            final(self).wf(),
            final(self).same_except_stakes(old(self)),
            final(self).spec_total_staked() == old(self).spec_total_staked(),
            old(self).stakes_view().dom().contains(validator.0) && old(self).stakes_view()[validator.0].is_active ==> {
                let info = old(self).stakes_view()[validator.0];
                final(self).stakes_view() == old(self).stakes_view().insert(validator.0,
                    StakeInfo { rewards_earned: sat_add(info.rewards_earned, fees), last_reward_slot: slot, ..info })
            },
            !(old(self).stakes_view().dom().contains(validator.0) && old(self).stakes_view()[validator.0].is_active)
                ==> final(self).stakes_view() == old(self).stakes_view(),
    {
        match self.find(validator) {
            Some(i) => {
                if self.stakes[i].is_active {
                    let mut info = self.stakes[i];
                    info.add_reward(fees, slot);
                    self.set_entry(i, info);
                }
            },
            None => {},
        }
    }

    /// Number of active entries, at least 1 (the divisor of the uptime formula).
    fn num_active(&self) -> (r: u64)
        ensures
            r == if count_active(self.entries()) >= 1 { count_active(self.entries()) as int } else { 1 },
    {
        let mut n: u64 = 0;
        let mut i: usize = 0;
        while i < self.stakes.len()
            invariant
                i <= self.stakes@.len(),
                n == count_active(self.stakes@.subrange(0, i as int)),
                n <= i,
            decreases self.stakes@.len() - i,
        {
            proof {
                lemma_prefix_step(self.stakes@, i as int);
            }
            if self.stakes[i].is_active {
                n = n + 1;
            }
            i += 1;
        }
        proof {
            assert(self.stakes@.subrange(0, self.stakes@.len() as int) =~= self.stakes@);
        }
        if n >= 1 { n } else { 1 }
    }

    /// Claims `validator`'s rewards as (liquid, debt payment), using the number of
    /// active validators (at least 1) for the uptime formula; (0, 0) if unknown.
    pub fn claim_rewards(&mut self, validator: &Pubkey, current_slot: u64) -> (r: (u64, u64))
        requires
            old(self).wf(),
        ensures
            final(self).wf(),
            final(self).same_except_stakes(old(self)),
            final(self).spec_total_staked() == old(self).spec_total_staked(),
            old(self).stakes_view().dom().contains(validator.0) ==> {
                let n: u64 = if count_active(old(self).entries()) >= 1 { count_active(old(self).entries()) as u64 } else { 1 };
                let (info, liquid, paid) = spec_claim(old(self).stakes_view()[validator.0], current_slot, n);
                &&& r == (liquid, paid)
                &&& final(self).stakes_view() == old(self).stakes_view().insert(validator.0, info)
            },
            !old(self).stakes_view().dom().contains(validator.0) ==> r == (0u64, 0u64) && final(self).stakes_view() == old(self).stakes_view(),
    {
        let n = self.num_active();
        match self.find(validator) {
            Some(i) => {
                let mut info = self.stakes[i];
                let r = info.claim_rewards(current_slot, n);
                self.set_entry(i, info);
                r
            },
            None => (0, 0),
        }
    }

    /// Counts a produced block for `validator`.
    pub fn record_block_produced(&mut self, validator: &Pubkey)
        requires
            old(self).wf(),
            old(self).stakes_view().dom().contains(validator.0) ==> old(self).stakes_view()[validator.0].blocks_produced < u64::MAX,
        ensures
            final(self).wf(),
            final(self).same_except_stakes(old(self)),
            final(self).spec_total_staked() == old(self).spec_total_staked(),
            old(self).stakes_view().dom().contains(validator.0) ==> {
                let info = old(self).stakes_view()[validator.0];
                final(self).stakes_view() == old(self).stakes_view().insert(validator.0,
                    StakeInfo { blocks_produced: (info.blocks_produced + 1) as u64, ..info })
            },
            !old(self).stakes_view().dom().contains(validator.0) ==> final(self).stakes_view() == old(self).stakes_view(),
    {
        match self.find(validator) {
            Some(i) => {
                let mut info = self.stakes[i];
                info.blocks_produced = info.blocks_produced + 1;
                self.set_entry(i, info);
            },
            None => {},
        }
    }

    /// Adds stake to a graduated validator, up to the maximum.
    pub fn add_validator_stake(&mut self, validator: &Pubkey, additional: u64) -> (r: Result<(), String>)
        requires
            old(self).wf(),
        ensures
            !old(self).stakes_view().dom().contains(validator.0) ==> (r matches Err(e) && e@ == "Validator not found"@),
            old(self).stakes_view().dom().contains(validator.0) && old(self).stakes_view()[validator.0].status != BootstrapStatus::FullyVested
                ==> (r matches Err(e) && e@ == "Must be fully vested to add additional stake"@),
            old(self).stakes_view().dom().contains(validator.0) && old(self).stakes_view()[validator.0].status == BootstrapStatus::FullyVested
                && additional > sat_sub(MAX_VALIDATOR_STAKE, old(self).stakes_view()[validator.0].amount)
                ==> (r matches Err(e) && e@ == "Cannot exceed maximum stake of 1000000 MOLT"@),
            final(self).wf(),
            final(self).same_except_stakes(old(self)),
            r is Ok <==> (old(self).stakes_view().dom().contains(validator.0)
                && old(self).stakes_view()[validator.0].status == BootstrapStatus::FullyVested
                && additional <= sat_sub(MAX_VALIDATOR_STAKE, old(self).stakes_view()[validator.0].amount)),
            r is Err ==> *final(self) == *old(self),
            r is Ok ==> {
                let info = old(self).stakes_view()[validator.0];
                &&& final(self).stakes_view() == old(self).stakes_view().insert(validator.0,
                    StakeInfo { amount: sat_add(info.amount, additional), ..info })
                &&& final(self).spec_total_staked() == sat_add(old(self).spec_total_staked(), additional)
            },
    {
        match self.find(validator) {
            Some(i) => {
                let mut info = self.stakes[i];
                match info.add_stake(additional) {
                    Ok(()) => {},
                    Err(e) => return Err(e),
                }
                self.set_entry(i, info);
                self.total_staked = add_sat(self.total_staked, additional);
                Ok(())
            },
            None => Err(String::from_str("Validator not found")),
        }
    }

    /// Sum of unclaimed rewards over all entries.
    pub fn total_unclaimed_rewards(&self) -> (r: u64)
        requires
            rewards_sum(self.entries()) <= u64::MAX,
        ensures
            r == rewards_sum(self.entries()),
    {
        let mut sum: u64 = 0;
        let mut i: usize = 0;
        while i < self.stakes.len()
            invariant
                i <= self.stakes@.len(),
                sum == rewards_sum(self.stakes@.subrange(0, i as int)),
                rewards_sum(self.stakes@) <= u64::MAX,
            decreases self.stakes@.len() - i,
        {
            proof {
                lemma_prefix_step(self.stakes@, i as int);
                lemma_rewards_sum_prefix(self.stakes@, i + 1);
            }
            sum = sum + self.stakes[i].rewards_earned;
            i += 1;
        }
        proof {
            assert(self.stakes@.subrange(0, self.stakes@.len() as int) =~= self.stakes@);
        }
        sum
    }

    /// Total amount held in pending unstake requests.
    pub fn pending_unstake_total(&self) -> (r: u64)
        requires
            request_sum(self.requests()) <= u64::MAX,
        ensures
            r == request_sum(self.requests()),
    {
        let mut sum: u64 = 0;
        let mut i: usize = 0;
        while i < self.unstake_requests.len()
            invariant
                i <= self.unstake_requests@.len(),
                sum == request_sum(self.unstake_requests@.subrange(0, i as int)),
                request_sum(self.unstake_requests@) <= u64::MAX,
            decreases self.unstake_requests@.len() - i,
        {
            proof {
                let s = self.unstake_requests@;
                assert(s.subrange(0, i + 1).drop_last() =~= s.subrange(0, i as int));
                lemma_request_sum_prefix(s, i + 1);
            }
            sum = sum + self.unstake_requests[i].amount;
            i += 1;
        }
        proof {
            assert(self.unstake_requests@.subrange(0, self.unstake_requests@.len() as int) =~= self.unstake_requests@);
        }
        sum
    }

    /// Network statistics; the average is over active entries that meet the minimum.
    pub fn get_stats(&self) -> (r: StakingStats)
        requires
            self.wf(),
            rewards_sum(self.entries()) <= u64::MAX,
            active_stake_sum(self.entries()) <= u64::MAX,
        ensures
            r.total_staked == self.spec_total_staked(),
            r.total_slashed == self.spec_total_slashed(),
            r.total_unclaimed_rewards == rewards_sum(self.entries()),
            r.active_validators == active_keys(self.entries()).len(),
            r.average_stake == if active_keys(self.entries()).len() > 0 {
                active_stake_sum(self.entries()) / active_keys(self.entries()).len()
            } else {
                0
            },
    {
        let active = self.active_validators();
        let active_validators = active.len() as u64;
        let unclaimed = self.total_unclaimed_rewards();
        let mut active_total: u64 = 0;
        let mut i: usize = 0;
        while i < self.stakes.len()
            invariant
                i <= self.stakes@.len(),
                active_total == active_stake_sum(self.stakes@.subrange(0, i as int)),
                active_stake_sum(self.stakes@) <= u64::MAX,
            decreases self.stakes@.len() - i,
        {
            proof {
                lemma_prefix_step(self.stakes@, i as int);
                lemma_active_sum_prefix(self.stakes@, i + 1);
            }
            let info = &self.stakes[i];
            if info.is_active && info.meets_minimum() {
                active_total = active_total + info.total_stake();
            }
            i += 1;
        }
        proof {
            assert(self.stakes@.subrange(0, self.stakes@.len() as int) =~= self.stakes@);
        }
        let avg = if active_validators > 0 { active_total / active_validators } else { 0 };
        StakingStats {
            total_staked: self.total_staked,
            total_slashed: self.total_slashed,
            total_unclaimed_rewards: unclaimed,
            active_validators,
            average_stake: avg,
        }
    }
}

proof fn lemma_rewards_sum_prefix(s: Seq<StakeInfo>, i: int)
    requires
        0 <= i <= s.len(),
    ensures
        rewards_sum(s.subrange(0, i)) <= rewards_sum(s),
    decreases s.len() - i,
{
    if i < s.len() {
        lemma_rewards_sum_prefix(s, i + 1);
        lemma_prefix_step(s, i);
    } else {
        assert(s.subrange(0, i) =~= s);
    }
}

proof fn lemma_request_sum_prefix(s: Seq<UnstakeRequest>, i: int)
    requires
        0 <= i <= s.len(),
    ensures
        request_sum(s.subrange(0, i)) <= request_sum(s),
    decreases s.len() - i,
{
    if i < s.len() {
        lemma_request_sum_prefix(s, i + 1);
        assert(s.subrange(0, i + 1).drop_last() =~= s.subrange(0, i));
    } else {
        assert(s.subrange(0, i) =~= s);
    }
}

proof fn lemma_active_sum_prefix(s: Seq<StakeInfo>, i: int)
    requires
        0 <= i <= s.len(),
    ensures
        active_stake_sum(s.subrange(0, i)) <= active_stake_sum(s),
    decreases s.len() - i,
{
    if i < s.len() {
        lemma_active_sum_prefix(s, i + 1);
        lemma_prefix_step(s, i);
    } else {
        assert(s.subrange(0, i) =~= s);
    }
}


/// Whether a delegation from `d` to `v` is recorded.
pub open spec fn has_delegation(s: Seq<Delegation>, v: Pubkey, d: Pubkey) -> bool {
    exists|i: int| 0 <= i < s.len() && #[trigger] s[i].validator == v && s[i].delegator == d
}

/// Recorded amount delegated by `d` to `v` (0 when none).
pub open spec fn delegated_by(s: Seq<Delegation>, v: Pubkey, d: Pubkey) -> u64 {
    if has_delegation(s, v, d) {
        s[choose|i: int| 0 <= i < s.len() && #[trigger] s[i].validator == v && s[i].delegator == d].amount
    } else {
        0
    }
}

/// (delegator, amount) of the delegations to `v`, in list order.
pub open spec fn delegations_to(s: Seq<Delegation>, v: Pubkey) -> Seq<(Pubkey, u64)>
    decreases s.len(),
{
    if s.len() == 0 {
        Seq::empty()
    } else if s.last().validator == v {
        delegations_to(s.drop_last(), v).push((s.last().delegator, s.last().amount))
    } else {
        delegations_to(s.drop_last(), v)
    }
}

/// (validator, amount) of the delegations made by `d`, in list order.
pub open spec fn delegations_from(s: Seq<Delegation>, d: Pubkey) -> Seq<(Pubkey, u64)>
    decreases s.len(),
{
    if s.len() == 0 {
        Seq::empty()
    } else if s.last().delegator == d {
        delegations_from(s.drop_last(), d).push((s.last().validator, s.last().amount))
    } else {
        delegations_from(s.drop_last(), d)
    }
}

proof fn lemma_delegated_by_at(s: Seq<Delegation>, i: int)
    requires
        distinct_delegations(s),
        0 <= i < s.len(),
    ensures
        has_delegation(s, s[i].validator, s[i].delegator),
        delegated_by(s, s[i].validator, s[i].delegator) == s[i].amount,
{
    assert(has_delegation(s, s[i].validator, s[i].delegator));
}

/// Position of the delegation (v, d), if any.
fn find_delegation(s: &Vec<Delegation>, v: &Pubkey, d: &Pubkey) -> (r: Option<usize>)
    requires
        distinct_delegations(s@),
    ensures
        r matches Some(i) ==> i < s@.len() && s@[i as int].validator == *v && s@[i as int].delegator == *d
            && delegated_by(s@, *v, *d) == s@[i as int].amount,
        r is None ==> !has_delegation(s@, *v, *d) && delegated_by(s@, *v, *d) == 0,
{
    let mut i: usize = 0;
    while i < s.len()
        invariant
            i <= s@.len(),
            distinct_delegations(s@),
            forall|j: int| 0 <= j < i ==> !(#[trigger] s@[j].validator == *v && s@[j].delegator == *d),
        decreases s@.len() - i,
    {
        if s[i].validator == *v && s[i].delegator == *d {
            proof {
                lemma_delegated_by_at(s@, i as int);
            }
            return Some(i);
        }
        i += 1;
    }
    None
}

/// Whether an unstake request for (v, staker) is pending.
pub open spec fn has_request(s: Seq<UnstakeRequest>, v: Pubkey, staker: Pubkey) -> bool {
    exists|i: int| 0 <= i < s.len() && #[trigger] s[i].validator == v && s[i].staker == staker
}

/// The pending request for (v, staker) (meaningful when there is one).
pub open spec fn request_for(s: Seq<UnstakeRequest>, v: Pubkey, staker: Pubkey) -> UnstakeRequest {
    s[choose|i: int| 0 <= i < s.len() && #[trigger] s[i].validator == v && s[i].staker == staker]
}

fn find_request(s: &Vec<UnstakeRequest>, v: &Pubkey, staker: &Pubkey) -> (r: Option<usize>)
    requires
        distinct_requests(s@),
    ensures
        r matches Some(i) ==> i < s@.len() && has_request(s@, *v, *staker) && s@[i as int] == request_for(s@, *v, *staker),
        r is None ==> !has_request(s@, *v, *staker),
{
    let mut i: usize = 0;
    while i < s.len()
        invariant
            i <= s@.len(),
            distinct_requests(s@),
            forall|j: int| 0 <= j < i ==> !(#[trigger] s@[j].validator == *v && s@[j].staker == *staker),
        decreases s@.len() - i,
    {
        if s[i].validator == *v && s[i].staker == *staker {
            proof {
                assert(has_request(s@, *v, *staker));
                let j = choose|j: int| 0 <= j < s@.len() && #[trigger] s@[j].validator == *v && s@[j].staker == *staker;
                assert(j == i);
            }
            return Some(i);
        }
        i += 1;
    }
    None
}

impl Keyed for (Pubkey, u64) {
    open spec fn key(&self) -> [u8; 32] {
        self.0.0
    }

    fn key_exec(&self) -> (r: [u8; 32]) {
        self.0.0
    }
}

/// Epoch reward shares of the active entries: `pool * total_stake / total`, kept when positive.
pub open spec fn epoch_shares(s: Seq<StakeInfo>, pool: u64, total: u64) -> Seq<(Pubkey, u64)>
    decreases s.len(),
{
    if s.len() == 0 {
        Seq::empty()
    } else {
        let r = epoch_shares(s.drop_last(), pool, total);
        let x = s.last();
        let share = (pool * spec_total_stake(x)) / (total as int);
        if x.is_active && share > 0 {
            r.push((x.validator, share as u64))
        } else {
            r
        }
    }
}

/// Shares of the delegators in `ds` of `distributable`, in proportion to their amount
/// out of `delegated`; kept when positive.
pub open spec fn delegator_shares(ds: Seq<(Pubkey, u64)>, distributable: u64, delegated: u64) -> Seq<(Pubkey, u64)>
    decreases ds.len(),
{
    if ds.len() == 0 {
        Seq::empty()
    } else {
        let r = delegator_shares(ds.drop_last(), distributable, delegated);
        let share = ((distributable * ds.last().1) / (delegated as int)) as u64;
        if share > 0 {
            r.push((ds.last().0, share))
        } else {
            r
        }
    }
}

/// What an accepted delegation of `amount` from `d` to `v` makes of `before`:
/// the validator's delegated amount and the total grow (saturating), the
/// pair's delegation is recorded and grows, nothing else changes.
pub open spec fn delegate_effect(before: StakePool, after: StakePool, d: Pubkey, v: Pubkey, amount: u64) -> bool {
    let info = before.stakes_view()[v.0];
    let t = StakeInfo { delegated_amount: sat_add(info.delegated_amount, amount), ..info };
    &&& before.stakes_view().dom().contains(v.0)
    &&& after.stakes_view() == before.stakes_view().insert(v.0, StakeInfo { is_active: spec_meets_minimum(t), ..t })
    &&& after.spec_total_staked() == sat_add(before.spec_total_staked(), amount)
    &&& has_delegation(after.delegation_list(), v, d)
    &&& delegated_by(after.delegation_list(), v, d) == sat_add(delegated_by(before.delegation_list(), v, d), amount)
    &&& forall|v2: Pubkey, d2: Pubkey| !(v2 == v && d2 == d) ==> (
        has_delegation(after.delegation_list(), v2, d2) == has_delegation(before.delegation_list(), v2, d2)
        && delegated_by(after.delegation_list(), v2, d2) == delegated_by(before.delegation_list(), v2, d2))
    &&& after.spec_total_slashed() == before.spec_total_slashed()
    &&& after.requests() == before.requests()
    &&& after.fingerprints() == before.fingerprints()
    &&& after.spec_grants_issued() == before.spec_grants_issued()
}

/// What an accepted withdrawal of `amount` of `d`'s delegation to `v` makes
/// of `before`: the delegated amount and the total shrink, the pair's
/// delegation shrinks and is dropped at zero, nothing else changes.
pub open spec fn undelegate_effect(before: StakePool, after: StakePool, d: Pubkey, v: Pubkey, amount: u64) -> bool {
    let info = before.stakes_view()[v.0];
    let t = StakeInfo { delegated_amount: (info.delegated_amount - amount) as u64, ..info };
    let left = (delegated_by(before.delegation_list(), v, d) - amount) as u64;
    &&& before.stakes_view().dom().contains(v.0)
    &&& info.delegated_amount >= amount
    &&& delegated_by(before.delegation_list(), v, d) >= amount
    &&& after.stakes_view() == before.stakes_view().insert(v.0, StakeInfo { is_active: spec_meets_minimum(t), ..t })
    &&& after.spec_total_staked() == sat_sub(before.spec_total_staked(), amount)
    &&& delegated_by(after.delegation_list(), v, d) == left
    &&& has_delegation(after.delegation_list(), v, d) == (has_delegation(before.delegation_list(), v, d) && left > 0)
    &&& forall|v2: Pubkey, d2: Pubkey| !(v2 == v && d2 == d) ==> (
        has_delegation(after.delegation_list(), v2, d2) == has_delegation(before.delegation_list(), v2, d2)
        && delegated_by(after.delegation_list(), v2, d2) == delegated_by(before.delegation_list(), v2, d2))
    &&& after.spec_total_slashed() == before.spec_total_slashed()
    &&& after.requests() == before.requests()
    &&& after.fingerprints() == before.fingerprints()
    &&& after.spec_grants_issued() == before.spec_grants_issued()
}

/// Delegating an amount and then withdrawing the same amount gives back the
/// total stake, the validator's delegated amount and every delegation, when
/// no sum saturates (and a recorded delegation was not of zero, which the
/// withdrawal would drop).
pub proof fn lemma_delegate_undelegate_round_trip(p0: StakePool, p1: StakePool, p2: StakePool, d: Pubkey, v: Pubkey, amount: u64)
    requires
        delegate_effect(p0, p1, d, v, amount),
        undelegate_effect(p1, p2, d, v, amount),
        p0.spec_total_staked() + amount <= u64::MAX,
        p0.stakes_view()[v.0].delegated_amount + amount <= u64::MAX,
        delegated_by(p0.delegation_list(), v, d) + amount <= u64::MAX,
        has_delegation(p0.delegation_list(), v, d) ==> delegated_by(p0.delegation_list(), v, d) > 0,
    ensures
        p2.spec_total_staked() == p0.spec_total_staked(),
        p2.stakes_view().dom() == p0.stakes_view().dom(),
        p2.stakes_view()[v.0] == (StakeInfo { is_active: spec_meets_minimum(p0.stakes_view()[v.0]), ..p0.stakes_view()[v.0] }),
        forall|k: [u8; 32]| k != v.0 && p0.stakes_view().dom().contains(k) ==> #[trigger] p2.stakes_view()[k] == p0.stakes_view()[k],
        forall|v2: Pubkey, d2: Pubkey|
            #[trigger] has_delegation(p2.delegation_list(), v2, d2) == has_delegation(p0.delegation_list(), v2, d2)
            && delegated_by(p2.delegation_list(), v2, d2) == delegated_by(p0.delegation_list(), v2, d2),
{
    assert(p2.stakes_view().dom() =~= p0.stakes_view().dom());
    assert forall|v2: Pubkey, d2: Pubkey|
        #[trigger] has_delegation(p2.delegation_list(), v2, d2) == has_delegation(p0.delegation_list(), v2, d2)
        && delegated_by(p2.delegation_list(), v2, d2) == delegated_by(p0.delegation_list(), v2, d2) by {
        if v2 == v && d2 == d {
            if !has_delegation(p0.delegation_list(), v, d) {
                assert(delegated_by(p0.delegation_list(), v, d) == 0);
            }
        }
    }
}

impl StakePool {
    /// Delegates `amount` from `delegator` to a graduated `validator`.
    pub fn delegate(&mut self, delegator: Pubkey, validator: &Pubkey, amount: u64) -> (r: Result<(), String>)
        requires
            old(self).wf(),
        ensures
            !old(self).stakes_view().dom().contains(validator.0) ==> (r matches Err(e) && e@ == "Validator not found"@),
            old(self).stakes_view().dom().contains(validator.0) && old(self).stakes_view()[validator.0].status != BootstrapStatus::FullyVested
                ==> (r matches Err(e) && e@ == "Validator still bootstrapping, cannot accept delegations"@),
            final(self).wf(),
            r is Ok <==> (old(self).stakes_view().dom().contains(validator.0)
                && old(self).stakes_view()[validator.0].status == BootstrapStatus::FullyVested),
            r is Err ==> *final(self) == *old(self),
            r is Ok ==> delegate_effect(*old(self), *final(self), delegator, *validator, amount),
            r is Ok ==> {
                let info = old(self).stakes_view()[validator.0];
                let t = StakeInfo { delegated_amount: sat_add(info.delegated_amount, amount), ..info };
                &&& final(self).stakes_view() == old(self).stakes_view().insert(validator.0, StakeInfo { is_active: spec_meets_minimum(t), ..t })
                &&& final(self).spec_total_staked() == sat_add(old(self).spec_total_staked(), amount)
                &&& has_delegation(final(self).delegation_list(), *validator, delegator)
                &&& delegated_by(final(self).delegation_list(), *validator, delegator)
                    == sat_add(delegated_by(old(self).delegation_list(), *validator, delegator), amount)
                &&& forall|v: Pubkey, d: Pubkey| !(v == *validator && d == delegator) ==> (
                    has_delegation(final(self).delegation_list(), v, d) == has_delegation(old(self).delegation_list(), v, d)
                    && delegated_by(final(self).delegation_list(), v, d) == delegated_by(old(self).delegation_list(), v, d))
                &&& final(self).spec_total_slashed() == old(self).spec_total_slashed()
                &&& final(self).requests() == old(self).requests()
                &&& final(self).fingerprints() == old(self).fingerprints()
                &&& final(self).spec_grants_issued() == old(self).spec_grants_issued()
            },
    {
        let i = match self.find(validator) {
            Some(i) => i,
            None => return Err(String::from_str("Validator not found")),
        };
        if !self.stakes[i].is_fully_vested() {
            return Err(String::from_str("Validator still bootstrapping, cannot accept delegations"));
        }
        let mut info = self.stakes[i];
        info.delegated_amount = add_sat(info.delegated_amount, amount);
        info.is_active = info.meets_minimum();
        self.set_entry(i, info);
        self.total_staked = add_sat(self.total_staked, amount);
        let ghost old_d = self.delegations@;
        match find_delegation(&self.delegations, validator, &delegator) {
            Some(j) => {
                let mut e = self.delegations[j];
                e.amount = add_sat(e.amount, amount);
                self.delegations.set(j, e);
                proof {
                    let nd = self.delegations@;
                    assert forall|a: int, b: int| 0 <= a < nd.len() && 0 <= b < nd.len() && a != b
                        implies !(#[trigger] nd[a].validator == #[trigger] nd[b].validator && nd[a].delegator == nd[b].delegator) by {
                        assert(nd[a].validator == old_d[a].validator && nd[a].delegator == old_d[a].delegator);
                        assert(nd[b].validator == old_d[b].validator && nd[b].delegator == old_d[b].delegator);
                    }
                    lemma_delegated_by_at(nd, j as int);
                    assert forall|v: Pubkey, d: Pubkey| !(v == *validator && d == delegator) implies (
                        has_delegation(nd, v, d) == has_delegation(old_d, v, d)
                        && delegated_by(nd, v, d) == delegated_by(old_d, v, d)) by {
                        if has_delegation(old_d, v, d) {
                            let k = choose|k: int| 0 <= k < old_d.len() && #[trigger] old_d[k].validator == v && old_d[k].delegator == d;
                            assert(nd[k].validator == v && nd[k].delegator == d);
                            lemma_delegated_by_at(old_d, k);
                            lemma_delegated_by_at(nd, k);
                        }
                        if has_delegation(nd, v, d) {
                            let k = choose|k: int| 0 <= k < nd.len() && #[trigger] nd[k].validator == v && nd[k].delegator == d;
                            assert(old_d[k].validator == v && old_d[k].delegator == d);
                        }
                    }
                }
            },
            None => {
                self.delegations.push(Delegation { validator: *validator, delegator, amount });
                proof {
                    let nd = self.delegations@;
                    assert forall|a: int, b: int| 0 <= a < nd.len() && 0 <= b < nd.len() && a != b
                        implies !(#[trigger] nd[a].validator == #[trigger] nd[b].validator && nd[a].delegator == nd[b].delegator) by {
                        if a < old_d.len() && b < old_d.len() {
                            assert(nd[a] == old_d[a] && nd[b] == old_d[b]);
                        } else if a < old_d.len() {
                            assert(nd[a] == old_d[a]);
                        } else {
                            assert(nd[b] == old_d[b]);
                        }
                    }
                    lemma_delegated_by_at(nd, old_d.len() as int);
                    assert forall|v: Pubkey, d: Pubkey| !(v == *validator && d == delegator) implies (
                        has_delegation(nd, v, d) == has_delegation(old_d, v, d)
                        && delegated_by(nd, v, d) == delegated_by(old_d, v, d)) by {
                        if has_delegation(old_d, v, d) {
                            let k = choose|k: int| 0 <= k < old_d.len() && #[trigger] old_d[k].validator == v && old_d[k].delegator == d;
                            assert(nd[k] == old_d[k]);
                            lemma_delegated_by_at(old_d, k);
                            lemma_delegated_by_at(nd, k);
                        }
                        if has_delegation(nd, v, d) {
                            let k = choose|k: int| 0 <= k < nd.len() && #[trigger] nd[k].validator == v && nd[k].delegator == d;
                            assert(k < old_d.len());
                            assert(old_d[k] == nd[k]);
                        }
                    }
                }
            },
        }
        Ok(())
    }

    /// Withdraws `amount` of `delegator`'s delegation to `validator`; an entry
    /// that reaches zero is removed.
    pub fn undelegate(&mut self, delegator: Pubkey, validator: &Pubkey, amount: u64) -> (r: Result<(), String>)
        requires
            old(self).wf(),
        ensures
            delegated_by(old(self).delegation_list(), *validator, delegator) < amount ==> (r matches Err(e) && e@ == "Insufficient delegation: have "@
                + decimal(delegated_by(old(self).delegation_list(), *validator, delegator) as nat) + ", requested "@ + decimal(amount as nat)),
            delegated_by(old(self).delegation_list(), *validator, delegator) >= amount && !old(self).stakes_view().dom().contains(validator.0)
                ==> (r matches Err(e) && e@ == "Validator not found"@),
            delegated_by(old(self).delegation_list(), *validator, delegator) >= amount && old(self).stakes_view().dom().contains(validator.0) && old(self).stakes_view()[validator.0].delegated_amount < amount
                ==> (r matches Err(e) && e@ == "Insufficient delegated amount"@),
            final(self).wf(),
            r is Ok <==> (delegated_by(old(self).delegation_list(), *validator, delegator) >= amount
                && old(self).stakes_view().dom().contains(validator.0)
                && old(self).stakes_view()[validator.0].delegated_amount >= amount),
            r is Err ==> *final(self) == *old(self),
            r is Ok ==> undelegate_effect(*old(self), *final(self), delegator, *validator, amount),
            r is Ok ==> {
                let info = old(self).stakes_view()[validator.0];
                let t = StakeInfo { delegated_amount: (info.delegated_amount - amount) as u64, ..info };
                let left = (delegated_by(old(self).delegation_list(), *validator, delegator) - amount) as u64;
                &&& final(self).stakes_view() == old(self).stakes_view().insert(validator.0, StakeInfo { is_active: spec_meets_minimum(t), ..t })
                &&& final(self).spec_total_staked() == sat_sub(old(self).spec_total_staked(), amount)
                &&& delegated_by(final(self).delegation_list(), *validator, delegator) == left
                &&& has_delegation(final(self).delegation_list(), *validator, delegator)
                    == (has_delegation(old(self).delegation_list(), *validator, delegator) && left > 0)
                &&& forall|v: Pubkey, d: Pubkey| !(v == *validator && d == delegator) ==> (
                    has_delegation(final(self).delegation_list(), v, d) == has_delegation(old(self).delegation_list(), v, d)
                    && delegated_by(final(self).delegation_list(), v, d) == delegated_by(old(self).delegation_list(), v, d))
                &&& final(self).spec_total_slashed() == old(self).spec_total_slashed()
                &&& final(self).requests() == old(self).requests()
                &&& final(self).fingerprints() == old(self).fingerprints()
                &&& final(self).spec_grants_issued() == old(self).spec_grants_issued()
            },
    {
        let found = find_delegation(&self.delegations, validator, &delegator);
        let delegated = match found {
            Some(j) => self.delegations[j].amount,
            None => 0,
        };
        if delegated < amount {
            let mut m = String::from_str("Insufficient delegation: have ");
            m.append(u64_to_decimal(delegated).as_str());
            m.append(", requested ");
            m.append(u64_to_decimal(amount).as_str());
            return Err(m);
        }
        let i = match self.find(validator) {
            Some(i) => i,
            None => return Err(String::from_str("Validator not found")),
        };
        if self.stakes[i].delegated_amount < amount {
            return Err(String::from_str("Insufficient delegated amount"));
        }
        let mut info = self.stakes[i];
        info.delegated_amount = info.delegated_amount - amount;
        info.is_active = info.meets_minimum();
        self.set_entry(i, info);
        self.total_staked = sub_sat(self.total_staked, amount);
        let ghost old_d = self.delegations@;
        match found {
            Some(j) => {
                let mut e = self.delegations[j];
                e.amount = e.amount - amount;
                if e.amount == 0 {
                    self.delegations.remove(j);
                    proof {
                        let nd = self.delegations@;
                        assert forall|a: int| 0 <= a < nd.len() implies #[trigger] nd[a] == old_d[if a < j { a } else { a + 1 }] by {}
                        assert forall|a: int, b: int| 0 <= a < nd.len() && 0 <= b < nd.len() && a != b
                            implies !(#[trigger] nd[a].validator == #[trigger] nd[b].validator && nd[a].delegator == nd[b].delegator) by {
                            assert(nd[a] == old_d[if a < j { a } else { a + 1 }]);
                            assert(nd[b] == old_d[if b < j { b } else { b + 1 }]);
                        }
                        assert(!has_delegation(nd, *validator, delegator)) by {
                            if has_delegation(nd, *validator, delegator) {
                                let k = choose|k: int| 0 <= k < nd.len() && #[trigger] nd[k].validator == *validator && nd[k].delegator == delegator;
                                let k2 = if k < j { k } else { k + 1 };
                                assert(nd[k] == old_d[k2]);
                            }
                        }
                        assert forall|v: Pubkey, d: Pubkey| !(v == *validator && d == delegator) implies (
                            has_delegation(nd, v, d) == has_delegation(old_d, v, d)
                            && delegated_by(nd, v, d) == delegated_by(old_d, v, d)) by {
                            if has_delegation(old_d, v, d) {
                                let k = choose|k: int| 0 <= k < old_d.len() && #[trigger] old_d[k].validator == v && old_d[k].delegator == d;
                                assert(k != j);
                                let k1 = if k < j { k } else { k - 1 };
                                assert(nd[k1] == old_d[k]);
                                lemma_delegated_by_at(old_d, k);
                                lemma_delegated_by_at(nd, k1);
                            }
                            if has_delegation(nd, v, d) {
                                let k = choose|k: int| 0 <= k < nd.len() && #[trigger] nd[k].validator == v && nd[k].delegator == d;
                                let k2 = if k < j { k } else { k + 1 };
                                assert(nd[k] == old_d[k2]);
                            }
                        }
                    }
                } else {
                    self.delegations.set(j, e);
                    proof {
                        let nd = self.delegations@;
                        assert forall|a: int, b: int| 0 <= a < nd.len() && 0 <= b < nd.len() && a != b
                            implies !(#[trigger] nd[a].validator == #[trigger] nd[b].validator && nd[a].delegator == nd[b].delegator) by {
                            assert(nd[a].validator == old_d[a].validator && nd[a].delegator == old_d[a].delegator);
                            assert(nd[b].validator == old_d[b].validator && nd[b].delegator == old_d[b].delegator);
                        }
                        lemma_delegated_by_at(nd, j as int);
                        assert forall|v: Pubkey, d: Pubkey| !(v == *validator && d == delegator) implies (
                            has_delegation(nd, v, d) == has_delegation(old_d, v, d)
                            && delegated_by(nd, v, d) == delegated_by(old_d, v, d)) by {
                            if has_delegation(old_d, v, d) {
                                let k = choose|k: int| 0 <= k < old_d.len() && #[trigger] old_d[k].validator == v && old_d[k].delegator == d;
                                assert(nd[k].validator == v && nd[k].delegator == d);
                                lemma_delegated_by_at(old_d, k);
                                lemma_delegated_by_at(nd, k);
                            }
                            if has_delegation(nd, v, d) {
                                let k = choose|k: int| 0 <= k < nd.len() && #[trigger] nd[k].validator == v && nd[k].delegator == d;
                                assert(old_d[k].validator == v && old_d[k].delegator == d);
                            }
                        }
                    }
                }
            },
            None => {},
        }
        Ok(())
    }

    /// (delegator, amount) of all delegations to `validator`.
    pub fn get_delegations(&self, validator: &Pubkey) -> (r: Vec<(Pubkey, u64)>)
        ensures
            r@ == delegations_to(self.delegation_list(), *validator),
    {
        let mut r: Vec<(Pubkey, u64)> = Vec::new();
        let mut i: usize = 0;
        while i < self.delegations.len()
            invariant
                i <= self.delegations@.len(),
                r@ == delegations_to(self.delegations@.subrange(0, i as int), *validator),
            decreases self.delegations@.len() - i,
        {
            proof {
                assert(self.delegations@.subrange(0, i + 1).drop_last() =~= self.delegations@.subrange(0, i as int));
            }
            let e = self.delegations[i];
            if e.validator == *validator {
                r.push((e.delegator, e.amount));
            }
            i += 1;
        }
        proof {
            assert(self.delegations@.subrange(0, self.delegations@.len() as int) =~= self.delegations@);
        }
        r
    }

    /// (validator, amount) of all delegations made by `delegator`.
    pub fn get_delegator_stakes(&self, delegator: &Pubkey) -> (r: Vec<(Pubkey, u64)>)
        ensures
            r@ == delegations_from(self.delegation_list(), *delegator),
    {
        let mut r: Vec<(Pubkey, u64)> = Vec::new();
        let mut i: usize = 0;
        while i < self.delegations.len()
            invariant
                i <= self.delegations@.len(),
                r@ == delegations_from(self.delegations@.subrange(0, i as int), *delegator),
            decreases self.delegations@.len() - i,
        {
            proof {
                assert(self.delegations@.subrange(0, i + 1).drop_last() =~= self.delegations@.subrange(0, i as int));
            }
            let e = self.delegations[i];
            if e.delegator == *delegator {
                r.push((e.validator, e.amount));
            }
            i += 1;
        }
        proof {
            assert(self.delegations@.subrange(0, self.delegations@.len() as int) =~= self.delegations@);
        }
        r
    }
}


proof fn lemma_epoch_shares_step(s: Seq<StakeInfo>, i: int, pool: u64, total: u64)
    requires
        0 <= i < s.len(),
    ensures
        epoch_shares(s.subrange(0, i + 1), pool, total) == {
            let r = epoch_shares(s.subrange(0, i), pool, total);
            let share = (pool * spec_total_stake(s[i])) / (total as int);
            if s[i].is_active && share > 0 { r.push((s[i].validator, share as u64)) } else { r }
        },
{
    lemma_prefix_step(s, i);
}

proof fn lemma_delegator_shares_step(ds: Seq<(Pubkey, u64)>, i: int, distributable: u64, delegated: u64)
    requires
        0 <= i < ds.len(),
    ensures
        delegator_shares(ds.subrange(0, i + 1), distributable, delegated) == {
            let r = delegator_shares(ds.subrange(0, i), distributable, delegated);
            let share = ((distributable * ds[i].1) / (delegated as int)) as u64;
            if share > 0 { r.push((ds[i].0, share)) } else { r }
        },
{
    assert(ds.subrange(0, i + 1).drop_last() =~= ds.subrange(0, i));
}

impl StakePool {
    /// Requests an unstake of `amount` by `staker` from a graduated `validator`:
    /// the amount leaves the validator's stake and the total at once.
    pub fn request_unstake(&mut self, validator: &Pubkey, amount: u64, current_slot: u64, staker: Pubkey) -> (r: Result<UnstakeRequest, String>)
        requires
            old(self).wf(),
            current_slot + UNSTAKE_COOLDOWN_SLOTS <= u64::MAX,
        ensures
            !old(self).stakes_view().dom().contains(validator.0) ==> (r matches Err(e) && e@ == "Validator not found"@),
            old(self).stakes_view().dom().contains(validator.0) && has_request(old(self).requests(), *validator, staker)
                ==> (r matches Err(e) && e@ == "Unstake already in progress"@),
            old(self).stakes_view().dom().contains(validator.0) && !has_request(old(self).requests(), *validator, staker)
                && old(self).stakes_view()[validator.0].status != BootstrapStatus::FullyVested ==> (r matches Err(e) && e@ == "Must be fully vested to unstake"@),
            old(self).stakes_view().dom().contains(validator.0) && !has_request(old(self).requests(), *validator, staker)
                && old(self).stakes_view()[validator.0].status == BootstrapStatus::FullyVested && (amount == 0 || amount > old(self).stakes_view()[validator.0].amount)
                ==> (r matches Err(e) && e@ == "Invalid unstake amount"@),
            final(self).wf(),
            r is Ok <==> (old(self).stakes_view().dom().contains(validator.0)
                && !has_request(old(self).requests(), *validator, staker)
                && old(self).stakes_view()[validator.0].status == BootstrapStatus::FullyVested
                && 0 < amount <= old(self).stakes_view()[validator.0].amount),
            r is Err ==> *final(self) == *old(self),
            r is Ok ==> {
                let info = old(self).stakes_view()[validator.0];
                let req = UnstakeRequest { validator: info.validator, staker, amount, unlock_slot: (current_slot + UNSTAKE_COOLDOWN_SLOTS) as u64 };
                let t = StakeInfo { amount: (info.amount - amount) as u64, ..info };
                &&& r == Ok::<UnstakeRequest, String>(req)
                &&& final(self).requests() == old(self).requests().push(req)
                &&& final(self).stakes_view() == old(self).stakes_view().insert(validator.0, StakeInfo { is_active: spec_meets_minimum(t), ..t })
                &&& final(self).spec_total_staked() == sat_sub(old(self).spec_total_staked(), amount)
                &&& final(self).spec_total_slashed() == old(self).spec_total_slashed()
                &&& final(self).delegation_list() == old(self).delegation_list()
                &&& final(self).fingerprints() == old(self).fingerprints()
                &&& final(self).spec_grants_issued() == old(self).spec_grants_issued()
            },
    {
        let i = match self.find(validator) {
            Some(i) => i,
            None => return Err(String::from_str("Validator not found")),
        };
        if find_request(&self.unstake_requests, validator, &staker).is_some() {
            return Err(String::from_str("Unstake already in progress"));
        }
        let request = match self.stakes[i].request_unstake(amount, current_slot, staker) {
            Ok(q) => q,
            Err(e) => return Err(e),
        };
        let ghost old_r = self.unstake_requests@;
        self.unstake_requests.push(request);
        proof {
            let nr = self.unstake_requests@;
            assert forall|a: int, b: int| 0 <= a < nr.len() && 0 <= b < nr.len() && a != b
                implies !(#[trigger] nr[a].validator == #[trigger] nr[b].validator && nr[a].staker == nr[b].staker) by {
                if a < old_r.len() && b < old_r.len() {
                    assert(nr[a] == old_r[a] && nr[b] == old_r[b]);
                } else if a < old_r.len() {
                    assert(nr[a] == old_r[a]);
                    assert(nr[b] == request);
                    if nr[a].validator == request.validator && nr[a].staker == request.staker {
                        assert(has_request(old_r, *validator, staker));
                    }
                } else {
                    assert(nr[b] == old_r[b]);
                    if nr[b].validator == request.validator && nr[b].staker == request.staker {
                        assert(has_request(old_r, *validator, staker));
                    }
                }
            }
        }
        let mut info = self.stakes[i];
        info.amount = sub_sat(info.amount, request.amount);
        info.is_active = info.meets_minimum();
        self.set_entry(i, info);
        self.total_staked = sub_sat(self.total_staked, request.amount);
        Ok(request)
    }

    /// Claims a pending unstake after its cooldown; returns the amount and drops the request.
    pub fn claim_unstake(&mut self, validator: &Pubkey, current_slot: u64, staker: &Pubkey) -> (r: Result<u64, String>)
        requires
            old(self).wf(),
            has_request(old(self).requests(), *validator, *staker)
                && current_slot < request_for(old(self).requests(), *validator, *staker).unlock_slot
                ==> (request_for(old(self).requests(), *validator, *staker).unlock_slot - current_slot) * 400 <= u64::MAX,
        ensures
            !has_request(old(self).requests(), *validator, *staker) ==> (r matches Err(e) && e@ == "No unstake request found"@),
            has_request(old(self).requests(), *validator, *staker) && current_slot < request_for(old(self).requests(), *validator, *staker).unlock_slot
                ==> (r matches Err(e) && e@ == cooldown_text("Cooldown not complete. "@, (request_for(old(self).requests(), *validator, *staker).unlock_slot - current_slot) as nat)),
            final(self).wf(),
            r is Ok <==> (has_request(old(self).requests(), *validator, *staker)
                && current_slot >= request_for(old(self).requests(), *validator, *staker).unlock_slot),
            r is Err ==> *final(self) == *old(self),
            r is Ok ==> {
                &&& r == Ok::<u64, String>(request_for(old(self).requests(), *validator, *staker).amount)
                &&& !has_request(final(self).requests(), *validator, *staker)
                &&& final(self).requests().len() + 1 == old(self).requests().len()
                &&& forall|v: Pubkey, s: Pubkey| !(v == *validator && s == *staker) ==>
                    (has_request(final(self).requests(), v, s) == has_request(old(self).requests(), v, s))
                &&& final(self).entries() == old(self).entries()
                &&& final(self).spec_total_staked() == old(self).spec_total_staked()
                &&& final(self).spec_total_slashed() == old(self).spec_total_slashed()
                &&& final(self).delegation_list() == old(self).delegation_list()
                &&& final(self).fingerprints() == old(self).fingerprints()
                &&& final(self).spec_grants_issued() == old(self).spec_grants_issued()
            },
    {
        let j = match find_request(&self.unstake_requests, validator, staker) {
            Some(j) => j,
            None => return Err(String::from_str("No unstake request found")),
        };
        let request = self.unstake_requests[j];
        if current_slot < request.unlock_slot {
            let remaining = request.unlock_slot - current_slot;
            let mut m = String::from_str("Cooldown not complete. ");
            m.append(u64_to_decimal(remaining).as_str());
            m.append(" slots remaining (~");
            m.append(u64_to_decimal(remaining * 400 / 1000 / 3600).as_str());
            m.append(" hours)");
            return Err(m);
        }
        let amount = request.amount;
        let ghost old_r = self.unstake_requests@;
        self.unstake_requests.remove(j);
        proof {
            let nr = self.unstake_requests@;
            assert forall|a: int| 0 <= a < nr.len() implies #[trigger] nr[a] == old_r[if a < j { a } else { a + 1 }] by {}
            assert forall|a: int, b: int| 0 <= a < nr.len() && 0 <= b < nr.len() && a != b
                implies !(#[trigger] nr[a].validator == #[trigger] nr[b].validator && nr[a].staker == nr[b].staker) by {
                assert(nr[a] == old_r[if a < j { a } else { a + 1 }]);
                assert(nr[b] == old_r[if b < j { b } else { b + 1 }]);
            }
            assert(!has_request(nr, *validator, *staker)) by {
                if has_request(nr, *validator, *staker) {
                    let k = choose|k: int| 0 <= k < nr.len() && #[trigger] nr[k].validator == *validator && nr[k].staker == *staker;
                    assert(nr[k] == old_r[if k < j { k } else { k + 1 }]);
                }
            }
            assert forall|v: Pubkey, s: Pubkey| !(v == *validator && s == *staker) implies
                (has_request(nr, v, s) == has_request(old_r, v, s)) by {
                if has_request(old_r, v, s) {
                    let k = choose|k: int| 0 <= k < old_r.len() && #[trigger] old_r[k].validator == v && old_r[k].staker == s;
                    assert(k != j);
                    let k1 = if k < j { k } else { k - 1 };
                    assert(nr[k1] == old_r[k]);
                }
                if has_request(nr, v, s) {
                    let k = choose|k: int| 0 <= k < nr.len() && #[trigger] nr[k].validator == v && nr[k].staker == s;
                    assert(nr[k] == old_r[if k < j { k } else { k + 1 }]);
                }
            }
        }
        Ok(amount)
    }

    /// A pending unstake request of `validator` (from any staker), if there is one.
    pub fn get_unstake_request(&self, validator: &Pubkey) -> (r: Option<&UnstakeRequest>)
        ensures
            r matches Some(q) ==> q.validator == *validator && self.requests().contains(*q),
            r is None ==> forall|i: int| 0 <= i < self.requests().len() ==> #[trigger] self.requests()[i].validator != *validator,
    {
        let mut i: usize = 0;
        while i < self.unstake_requests.len()
            invariant
                i <= self.unstake_requests@.len(),
                forall|j: int| 0 <= j < i ==> #[trigger] self.unstake_requests@[j].validator != *validator,
            decreases self.unstake_requests@.len() - i,
        {
            if self.unstake_requests[i].validator == *validator {
                proof {
                    assert(self.unstake_requests@[i as int] == self.unstake_requests@[i as int]);
                }
                return Some(&self.unstake_requests[i]);
            }
            i += 1;
        }
        None
    }

    /// Epoch reward shares of the active validators, proportional to their stake,
    /// in ascending order of validator key; empty when no stake or no pool.
    pub fn distribute_epoch_rewards(&self, epoch_reward_pool: u64) -> (r: Vec<(Pubkey, u64)>)
        ensures
            (self.spec_total_staked() == 0 || epoch_reward_pool == 0) ==> r@.len() == 0,
            !(self.spec_total_staked() == 0 || epoch_reward_pool == 0) ==>
                r@.to_multiset() == epoch_shares(self.entries(), epoch_reward_pool, self.spec_total_staked()).to_multiset(),
            sorted_by_key(r@),
    {
        let total_stake = self.active_stake();
        if total_stake == 0 || epoch_reward_pool == 0 {
            return Vec::new();
        }
        let mut out: Vec<(Pubkey, u64)> = Vec::new();
        let mut i: usize = 0;
        while i < self.stakes.len()
            invariant
                i <= self.stakes@.len(),
                total_stake == self.spec_total_staked(),
                total_stake > 0,
                out@ == epoch_shares(self.stakes@.subrange(0, i as int), epoch_reward_pool, total_stake),
            decreases self.stakes@.len() - i,
        {
            proof {
                lemma_epoch_shares_step(self.stakes@, i as int, epoch_reward_pool, total_stake);
            }
            let info = &self.stakes[i];
            if info.is_active {
                let ts = info.total_stake();
                assert((epoch_reward_pool as int) * (ts as int) <= 0xffff_ffff_ffff_ffff_ffff_ffff_ffff_ffff) by (nonlinear_arith)
                    requires epoch_reward_pool <= 0xffff_ffff_ffff_ffff, ts <= 0xffff_ffff_ffff_ffff;
                let share = (epoch_reward_pool as u128) * (ts as u128) / (total_stake as u128);
                if share > 0 {
                    out.push((info.validator, share as u64));
                }
            }
            i += 1;
        }
        proof {
            assert(self.stakes@.subrange(0, self.stakes@.len() as int) =~= self.stakes@);
        }
        sort_by_pubkey(out)
    }

    /// Splits a validator's reward with its delegators: the delegation share is
    /// `total_reward * delegated / total_stake`, the validator keeps `commission_bps`
    /// of it (listed first when positive), and the rest goes to each delegator in
    /// proportion to its amount. Empty when the validator is unknown, has no
    /// delegations or the reward is zero. Does not change the pool.
    pub fn distribute_delegation_rewards(&mut self, validator: &Pubkey, total_reward: u64, commission_bps: u64) -> (r: Vec<(Pubkey, u64)>)
        requires
            old(self).wf(),
        ensures
            *final(self) == *old(self),
            r@ == spec_delegation_rewards(old(self).stakes_view(), old(self).delegation_list(), *validator, total_reward, commission_bps),
    {
        let i = match self.find(validator) {
            Some(i) => i,
            None => return Vec::new(),
        };
        let info = self.stakes[i];
        let delegated = info.delegated_amount;
        if delegated == 0 || total_reward == 0 {
            return Vec::new();
        }
        let total_stake = info.total_stake();
        if total_stake == 0 {
            return Vec::new();
        }
        assert((total_reward as int) * (delegated as int) <= 0xffff_ffff_ffff_ffff_ffff_ffff_ffff_ffff) by (nonlinear_arith)
            requires total_reward <= 0xffff_ffff_ffff_ffff, delegated <= 0xffff_ffff_ffff_ffff;
        let delegation_share = ((total_reward as u128) * (delegated as u128) / (total_stake as u128)) as u64;
        assert((delegation_share as int) * (commission_bps as int) <= 0xffff_ffff_ffff_ffff_ffff_ffff_ffff_ffff) by (nonlinear_arith)
            requires delegation_share <= 0xffff_ffff_ffff_ffff, commission_bps <= 0xffff_ffff_ffff_ffff;
        let commission = ((delegation_share as u128) * (commission_bps as u128) / 10_000) as u64;
        let distributable = sub_sat(delegation_share, commission);
        let ds = self.get_delegations(validator);
        if ds.len() == 0 {
            return Vec::new();
        }
        let mut rewards: Vec<(Pubkey, u64)> = Vec::new();
        if commission > 0 {
            rewards.push((*validator, commission));
        }
        let ghost head = rewards@;
        let mut k: usize = 0;
        while k < ds.len()
            invariant
                k <= ds@.len(),
                delegated > 0,
                rewards@ == head + delegator_shares(ds@.subrange(0, k as int), distributable, delegated),
            decreases ds@.len() - k,
        {
            proof {
                lemma_delegator_shares_step(ds@, k as int, distributable, delegated);
            }
            let (d, amount) = ds[k];
            assert((distributable as int) * (amount as int) <= 0xffff_ffff_ffff_ffff_ffff_ffff_ffff_ffff) by (nonlinear_arith)
                requires distributable <= 0xffff_ffff_ffff_ffff, amount <= 0xffff_ffff_ffff_ffff;
            let share = ((distributable as u128) * (amount as u128) / (delegated as u128)) as u64;
            if share > 0 {
                rewards.push((d, share));
            }
            k += 1;
        }
        proof {
            assert(ds@.subrange(0, ds@.len() as int) =~= ds@);
        }
        rewards
    }
}

/// What `distribute_delegation_rewards` returns.
pub open spec fn spec_delegation_rewards(m: Map<[u8; 32], StakeInfo>, ds: Seq<Delegation>, v: Pubkey, total_reward: u64, bps: u64) -> Seq<(Pubkey, u64)> {
    if !m.dom().contains(v.0) {
        Seq::empty()
    } else {
        let info = m[v.0];
        let delegated = info.delegated_amount;
        let ts = spec_total_stake(info);
        if delegated == 0 || total_reward == 0 || ts == 0 {
            Seq::empty()
        } else {
            let share = ((total_reward * delegated) / (ts as int)) as u64;
            let commission = ((share * bps) / 10_000) as u64;
            let distributable = sat_sub(share, commission);
            let list = delegations_to(ds, v);
            if list.len() == 0 {
                Seq::empty()
            } else {
                let head: Seq<(Pubkey, u64)> = if commission > 0 { seq![(v, commission)] } else { Seq::empty() };
                head + delegator_shares(list, distributable, delegated)
            }
        }
    }
}


/// Sum of the amounts of a list of (key, amount) pairs.
pub open spec fn pair_sum(s: Seq<(Pubkey, u64)>) -> nat
    decreases s.len(),
{
    if s.len() == 0 { 0 } else { pair_sum(s.drop_last()) + s.last().1 as nat }
}

proof fn lemma_pair_sum_concat(a: Seq<(Pubkey, u64)>, b: Seq<(Pubkey, u64)>)
    ensures
        pair_sum(a + b) == pair_sum(a) + pair_sum(b),
    decreases b.len(),
{
    if b.len() == 0 {
        assert(a + b =~= a);
    } else {
        lemma_pair_sum_concat(a, b.drop_last());
        assert((a + b).drop_last() =~= a + b.drop_last());
    }
}

/// Proportional shares of `distributable` over `delegated` never add up to
/// more than `distributable` times the delegated fraction they cover.
proof fn lemma_shares_bounded(ds: Seq<(Pubkey, u64)>, distributable: u64, delegated: u64)
    requires
        delegated > 0,
        pair_sum(ds) <= delegated,
    ensures
        pair_sum(delegator_shares(ds, distributable, delegated)) * delegated <= distributable * pair_sum(ds),
    decreases ds.len(),
{
    if ds.len() > 0 {
        let rest = ds.drop_last();
        lemma_shares_bounded(rest, distributable, delegated);
        let a = ds.last().1;
        let x = (distributable * a) / (delegated as int);
        assert(x * delegated <= distributable * a) by (nonlinear_arith)
            requires x == (distributable * a) / (delegated as int), delegated > 0, distributable * a >= 0;
        assert(a <= delegated);
        assert(x <= distributable) by (nonlinear_arith)
            requires x == (distributable * a) / (delegated as int), delegated > 0, a <= delegated,
                distributable >= 0, a >= 0;
        let pr = pair_sum(delegator_shares(rest, distributable, delegated));
        let sr = pair_sum(rest);
        let sh = delegator_shares(ds, distributable, delegated);
        assert(pair_sum(ds) == sr + a);
        assert((pr + x) * delegated <= distributable * (sr + a)) by (nonlinear_arith)
            requires pr * delegated <= distributable * sr, x * delegated <= distributable * a;
        assert(pr * delegated <= distributable * (sr + a)) by (nonlinear_arith)
            requires pr * delegated <= distributable * sr, distributable * a >= 0;
        let total = pair_sum(ds);
        if x > 0 {
            assert(sh == delegator_shares(rest, distributable, delegated).push((ds.last().0, x as u64)));
            assert(sh.drop_last() =~= delegator_shares(rest, distributable, delegated));
            assert(pair_sum(sh) == pr + x);
            let ps = pair_sum(sh);
            assert(ps * delegated <= distributable * total) by (nonlinear_arith)
                requires ps == pr + x, total == sr + a, (pr + x) * delegated <= distributable * (sr + a);
        } else {
            assert(sh == delegator_shares(rest, distributable, delegated));
            assert(pair_sum(sh) == pr);
            let ps = pair_sum(sh);
            assert(ps * delegated <= distributable * total) by (nonlinear_arith)
                requires ps == pr, total == sr + a, pr * delegated <= distributable * (sr + a);
        }
    } else {
        assert(delegator_shares(ds, distributable, delegated) =~= Seq::<(Pubkey, u64)>::empty());
        assert(pair_sum(delegator_shares(ds, distributable, delegated)) == 0);
        assert(0 * delegated <= distributable * pair_sum(ds)) by (nonlinear_arith)
            requires distributable >= 0;
    }
}

/// A validator's reward split never pays out more than the delegation's
/// part of the reward, `total_reward * delegated / total stake`: the
/// commission (at most 100%) and the delegators' payouts together stay
/// within it, when the recorded delegations to the validator add up to no
/// more than its delegated amount.
pub proof fn lemma_delegation_rewards_within_share(m: Map<[u8; 32], StakeInfo>, ds: Seq<Delegation>, v: Pubkey,
    total_reward: u64, bps: u64)
    requires
        m.dom().contains(v.0),
        bps <= 10_000,
        pair_sum(delegations_to(ds, v)) <= m[v.0].delegated_amount,
    ensures
        ({
            let delegated = m[v.0].delegated_amount;
            let ts = spec_total_stake(m[v.0]);
            pair_sum(spec_delegation_rewards(m, ds, v, total_reward, bps))
                <= (if delegated > 0 && ts > 0 { total_reward * delegated / (ts as int) } else { 0 })
        }),
{
    let info = m[v.0];
    let delegated = info.delegated_amount;
    let ts = spec_total_stake(info);
    if delegated == 0 || total_reward == 0 || ts == 0 || delegations_to(ds, v).len() == 0 {
        return;
    }
    assert(ts >= delegated);
    let share_i = (total_reward * delegated) / (ts as int);
    assert(0 <= share_i <= total_reward) by (nonlinear_arith)
        requires share_i == (total_reward * delegated) / (ts as int), ts >= delegated, delegated > 0, total_reward >= 0;
    let share = share_i as u64;
    let com_i = (share * bps) / 10_000;
    assert(0 <= com_i <= share) by (nonlinear_arith)
        requires com_i == (share * bps) / 10_000, bps <= 10_000, share >= 0;
    let commission = com_i as u64;
    let dist = sat_sub(share, commission);
    assert(dist == share - commission);
    let list = delegations_to(ds, v);
    let head: Seq<(Pubkey, u64)> = if commission > 0 { seq![(v, commission)] } else { Seq::empty() };
    lemma_pair_sum_concat(head, delegator_shares(list, dist, delegated));
    if commission > 0 {
        assert(seq![(v, commission)].drop_last() =~= Seq::<(Pubkey, u64)>::empty());
        assert(seq![(v, commission)].last() == (v, commission));
        assert(pair_sum(seq![(v, commission)]) == pair_sum(Seq::<(Pubkey, u64)>::empty()) + commission);
    } else {
        assert(pair_sum(head) == 0);
    }
    assert(pair_sum(head) == commission);
    lemma_shares_bounded(list, dist, delegated);
    let ps = pair_sum(delegator_shares(list, dist, delegated));
    assert(ps <= dist) by (nonlinear_arith)
        requires ps * delegated <= dist * pair_sum(list), pair_sum(list) <= delegated, delegated > 0, dist >= 0;
}

/// Proportional shares round down by less than one unit per delegation.
proof fn lemma_shares_lower(ds: Seq<(Pubkey, u64)>, distributable: u64, delegated: u64)
    requires
        delegated > 0,
        pair_sum(ds) <= delegated,
    ensures
        pair_sum(delegator_shares(ds, distributable, delegated)) * delegated + ds.len() * delegated
            >= distributable * pair_sum(ds),
    decreases ds.len(),
{
    if ds.len() > 0 {
        let rest = ds.drop_last();
        lemma_shares_lower(rest, distributable, delegated);
        let a = ds.last().1;
        let x = (distributable * a) / (delegated as int);
        assert(x * delegated + delegated >= distributable * a) by (nonlinear_arith)
            requires x == (distributable * a) / (delegated as int), delegated > 0;
        assert(a <= delegated);
        assert(0 <= x <= distributable) by (nonlinear_arith)
            requires x == (distributable * a) / (delegated as int), delegated > 0, a <= delegated,
                distributable >= 0, a >= 0;
        let pr = pair_sum(delegator_shares(rest, distributable, delegated));
        let sr = pair_sum(rest);
        let n = rest.len();
        let sh = delegator_shares(ds, distributable, delegated);
        assert(pair_sum(ds) == sr + a);
        assert(ds.len() == n + 1);
        if x > 0 {
            assert(sh == delegator_shares(rest, distributable, delegated).push((ds.last().0, x as u64)));
            assert(sh.drop_last() =~= delegator_shares(rest, distributable, delegated));
            assert(pair_sum(sh) == pr + x);
        } else {
            assert(sh == delegator_shares(rest, distributable, delegated));
            assert(pair_sum(sh) == pr);
        }
        let ps = pair_sum(sh);
        let total = pair_sum(ds);
        assert(ps * delegated + (n + 1) * delegated >= distributable * total) by (nonlinear_arith)
            requires pr * delegated + n * delegated >= distributable * sr,
                x * delegated + delegated >= distributable * a,
                ps == pr + x || (ps == pr && x == 0),
                total == sr + a, x >= 0, delegated > 0;
    } else {
        assert(delegator_shares(ds, distributable, delegated) =~= Seq::<(Pubkey, u64)>::empty());
        assert(pair_sum(delegator_shares(ds, distributable, delegated)) == 0);
        assert(pair_sum(ds) == 0);
        assert(0 * delegated + 0 * delegated >= distributable * 0) by (nonlinear_arith);
    }
}

/// When the recorded delegations to a validator add up to its delegated
/// amount and the commission is at most 100%, the split hands out the whole
/// delegation share `total_reward * delegated / total stake` but for rounding:
/// the commission and the delegators' payouts together fall short of it by
/// less than one unit per delegation.
pub proof fn lemma_delegation_rewards_pay_out_share(m: Map<[u8; 32], StakeInfo>, ds: Seq<Delegation>, v: Pubkey,
    total_reward: u64, bps: u64)
    requires
        m.dom().contains(v.0),
        bps <= 10_000,
        pair_sum(delegations_to(ds, v)) == m[v.0].delegated_amount,
        m[v.0].delegated_amount > 0,
        spec_total_stake(m[v.0]) > 0,
    ensures
        pair_sum(spec_delegation_rewards(m, ds, v, total_reward, bps)) + delegations_to(ds, v).len()
            >= total_reward * m[v.0].delegated_amount / (spec_total_stake(m[v.0]) as int),
{
    let info = m[v.0];
    let delegated = info.delegated_amount;
    let ts = spec_total_stake(info);
    let list = delegations_to(ds, v);
    if list.len() == 0 {
        assert(pair_sum(list) == 0);
        return;
    }
    if total_reward == 0 {
        assert(total_reward * delegated / (ts as int) == 0) by (nonlinear_arith)
            requires total_reward == 0, ts > 0;
        return;
    }
    assert(ts >= delegated);
    let share_i = (total_reward * delegated) / (ts as int);
    assert(0 <= share_i <= total_reward) by (nonlinear_arith)
        requires share_i == (total_reward * delegated) / (ts as int), ts >= delegated, delegated > 0, total_reward >= 0;
    let share = share_i as u64;
    let com_i = (share * bps) / 10_000;
    assert(0 <= com_i <= share) by (nonlinear_arith)
        requires com_i == (share * bps) / 10_000, bps <= 10_000, share >= 0;
    let commission = com_i as u64;
    let dist = sat_sub(share, commission);
    assert(dist == share - commission);
    let head: Seq<(Pubkey, u64)> = if commission > 0 { seq![(v, commission)] } else { Seq::empty() };
    lemma_pair_sum_concat(head, delegator_shares(list, dist, delegated));
    if commission > 0 {
        assert(seq![(v, commission)].drop_last() =~= Seq::<(Pubkey, u64)>::empty());
        assert(seq![(v, commission)].last() == (v, commission));
        assert(pair_sum(seq![(v, commission)]) == pair_sum(Seq::<(Pubkey, u64)>::empty()) + commission);
    } else {
        assert(pair_sum(head) == 0);
    }
    assert(pair_sum(head) == commission);
    lemma_shares_lower(list, dist, delegated);
    let ps = pair_sum(delegator_shares(list, dist, delegated));
    let n = list.len();
    assert(ps + n >= dist) by (nonlinear_arith)
        requires ps * delegated + n * delegated >= dist * delegated, delegated > 0;
}

/// The entry is a ghost: inactive, fully slashed and idle for more than `grace` slots.
pub open spec fn is_ghost(info: StakeInfo, slot: u64, grace: u64) -> bool {
    !info.is_active && info.amount == 0 && sat_sub(slot, info.last_reward_slot) > grace
}

/// Entries that are not ghosts, in order.
pub open spec fn live_entries(s: Seq<StakeInfo>, slot: u64, grace: u64) -> Seq<StakeInfo>
    decreases s.len(),
{
    if s.len() == 0 {
        Seq::empty()
    } else if is_ghost(s.last(), slot, grace) {
        live_entries(s.drop_last(), slot, grace)
    } else {
        live_entries(s.drop_last(), slot, grace).push(s.last())
    }
}

/// Keys of the ghost entries, in order.
pub open spec fn ghost_keys(s: Seq<StakeInfo>, slot: u64, grace: u64) -> Seq<Pubkey>
    decreases s.len(),
{
    if s.len() == 0 {
        Seq::empty()
    } else if is_ghost(s.last(), slot, grace) {
        ghost_keys(s.drop_last(), slot, grace).push(s.last().validator)
    } else {
        ghost_keys(s.drop_last(), slot, grace)
    }
}

/// Fingerprint `f` is set on some ghost entry.
pub open spec fn ghost_fingerprint(s: Seq<StakeInfo>, slot: u64, grace: u64, f: [u8; 32]) -> bool {
    f != zero_fp() && exists|i: int| 0 <= i < s.len() && is_ghost(s[i], slot, grace) && #[trigger] s[i].machine_fingerprint == f
}

proof fn lemma_live_sub(s: Seq<StakeInfo>, slot: u64, grace: u64)
    requires
        distinct_keys(s),
    ensures
        distinct_keys(live_entries(s, slot, grace)),
        forall|x: StakeInfo| live_entries(s, slot, grace).contains(x) ==> s.contains(x),
    decreases s.len(),
{
    if s.len() > 0 {
        let t = s.drop_last();
        assert forall|a: int, b: int| 0 <= a < t.len() && 0 <= b < t.len() && a != b implies #[trigger] t[a].key() != #[trigger] t[b].key() by {
            assert(t[a] == s[a] && t[b] == s[b]);
        }
        lemma_live_sub(t, slot, grace);
        let lt = live_entries(t, slot, grace);
        assert forall|x: StakeInfo| lt.contains(x) implies s.contains(x) by {
            assert(t.contains(x));
            let j = choose|j: int| 0 <= j < t.len() && t[j] == x;
            assert(s[j] == x);
        }
        if !is_ghost(s.last(), slot, grace) {
            let l = lt.push(s.last());
            assert forall|a: int, b: int| 0 <= a < l.len() && 0 <= b < l.len() && a != b implies #[trigger] l[a].key() != #[trigger] l[b].key() by {
                if a < lt.len() && b < lt.len() {
                    assert(l[a] == lt[a] && l[b] == lt[b]);
                } else if a < lt.len() {
                    assert(l[a] == lt[a]);
                    assert(lt.contains(lt[a]));
                    assert(t.contains(lt[a]));
                    let j = choose|j: int| 0 <= j < t.len() && t[j] == lt[a];
                    assert(s[j] == t[j]);
                    assert(l[b] == s[s.len() - 1]);
                } else {
                    assert(l[b] == lt[b]);
                    assert(lt.contains(lt[b]));
                    assert(t.contains(lt[b]));
                    let j = choose|j: int| 0 <= j < t.len() && t[j] == lt[b];
                    assert(s[j] == t[j]);
                    assert(l[a] == s[s.len() - 1]);
                }
            }
            assert forall|x: StakeInfo| l.contains(x) implies s.contains(x) by {
                let j = choose|j: int| 0 <= j < l.len() && l[j] == x;
                if j < lt.len() {
                    assert(lt[j] == x);
                    assert(lt.contains(x));
                } else {
                    assert(s[s.len() - 1] == x);
                }
            }
        }
    }
}

impl StakePool {
    fn find_fp(&self, fp: &[u8; 32]) -> (r: Option<usize>)
        requires
            self.wf(),
        ensures
            r matches Some(i) ==> i < self.fingerprints().len() && self.fingerprint_view().dom().contains(*fp)
                && self.fingerprint_view()[*fp] == self.fingerprints()[i as int],
            r is None ==> !self.fingerprint_view().dom().contains(*fp),
    {
        let r = find_key(&self.fingerprint_registry, fp);
        proof {
            if let Some(i) = r {
                lemma_key_index(self.fingerprint_registry@, i as int);
            }
        }
        r
    }

    /// Sets the owner of `fp` to `validator` (as a map insert).
    fn fp_insert(&mut self, fp: [u8; 32], validator: Pubkey)
        requires
            old(self).wf(),
        ensures
            final(self).wf(),
            final(self).fingerprint_view() == old(self).fingerprint_view().insert(fp, FingerprintEntry { fingerprint: fp, validator }),
            final(self).entries() == old(self).entries(),
            final(self).spec_total_staked() == old(self).spec_total_staked(),
            final(self).spec_total_slashed() == old(self).spec_total_slashed(),
            final(self).requests() == old(self).requests(),
            final(self).delegation_list() == old(self).delegation_list(),
            final(self).spec_grants_issued() == old(self).spec_grants_issued(),
    {
        let e = FingerprintEntry { fingerprint: fp, validator };
        match self.find_fp(&fp) {
            Some(i) => {
                proof {
                    lemma_keyed_update(self.fingerprint_registry@, i as int, e);
                }
                self.fingerprint_registry.set(i, e);
            },
            None => {
                proof {
                    lemma_keyed_push(self.fingerprint_registry@, e);
                }
                self.fingerprint_registry.push(e);
            },
        }
    }

    /// Drops `fp` from the registry, if present.
    fn fp_remove(&mut self, fp: &[u8; 32])
        requires
            old(self).wf(),
        ensures
            final(self).wf(),
            final(self).fingerprint_view() == old(self).fingerprint_view().remove(*fp),
            final(self).entries() == old(self).entries(),
            final(self).spec_total_staked() == old(self).spec_total_staked(),
            final(self).spec_total_slashed() == old(self).spec_total_slashed(),
            final(self).requests() == old(self).requests(),
            final(self).delegation_list() == old(self).delegation_list(),
            final(self).spec_grants_issued() == old(self).spec_grants_issued(),
    {
        match self.find_fp(fp) {
            Some(i) => {
                proof {
                    lemma_keyed_remove(self.fingerprint_registry@, i as int);
                }
                self.fingerprint_registry.remove(i);
            },
            None => {
                assert(old(self).fingerprint_view().remove(*fp) =~= old(self).fingerprint_view());
            },
        }
    }

    /// The validator that owns fingerprint `fp`, if any.
    pub fn fingerprint_owner(&self, fingerprint: &[u8; 32]) -> (r: Option<&Pubkey>)
        requires
            self.wf(),
        ensures
            r matches Some(p) ==> self.fingerprint_view().dom().contains(*fingerprint)
                && *p == self.fingerprint_view()[*fingerprint].validator,
            r is None ==> !self.fingerprint_view().dom().contains(*fingerprint),
    {
        match self.find_fp(fingerprint) {
            Some(i) => Some(&self.fingerprint_registry[i].validator),
            None => None,
        }
    }

    /// Registers `fingerprint` for `validator` (anti-Sybil): the zero fingerprint is
    /// always accepted and ignored; a fingerprint owned by another validator is refused.
    pub fn register_fingerprint(&mut self, validator: &Pubkey, fingerprint: [u8; 32]) -> (r: Result<(), String>)
        requires
            old(self).wf(),
        ensures
            r matches Err(e) ==> e@ == "Machine fingerprint already registered to validator "@
                + bs58_encode_spec(old(self).fingerprint_view()[fingerprint].validator.0@),
            final(self).wf(),
            r is Err <==> (fingerprint != zero_fp() && old(self).fingerprint_view().dom().contains(fingerprint)
                && old(self).fingerprint_view()[fingerprint].validator != *validator),
            (r is Err || fingerprint == zero_fp() || old(self).fingerprint_view().dom().contains(fingerprint))
                ==> *final(self) == *old(self),
            (fingerprint != zero_fp() && !old(self).fingerprint_view().dom().contains(fingerprint)) ==> {
                &&& final(self).fingerprint_view() == old(self).fingerprint_view().insert(fingerprint,
                    FingerprintEntry { fingerprint, validator: *validator })
                &&& final(self).stakes_view() == if old(self).stakes_view().dom().contains(validator.0) {
                    old(self).stakes_view().insert(validator.0,
                        StakeInfo { machine_fingerprint: fingerprint, ..old(self).stakes_view()[validator.0] })
                } else {
                    old(self).stakes_view()
                }
                &&& final(self).spec_total_staked() == old(self).spec_total_staked()
                &&& final(self).spec_total_slashed() == old(self).spec_total_slashed()
                &&& final(self).requests() == old(self).requests()
                &&& final(self).delegation_list() == old(self).delegation_list()
                &&& final(self).spec_grants_issued() == old(self).spec_grants_issued()
            },
    {
        if is_zero_32(&fingerprint) {
            assert(fingerprint =~= zero_fp());
            return Ok(());
        }
        assert(fingerprint != zero_fp()) by {
            if fingerprint == zero_fp() {
                assert(crate::bytes::all_zero(fingerprint@));
            }
        }
        match self.find_fp(&fingerprint) {
            Some(i) => {
                let owner = self.fingerprint_registry[i].validator;
                if owner != *validator {
                    let mut m = String::from_str("Machine fingerprint already registered to validator ");
                    m.append(owner.to_base58().as_str());
                    return Err(m);
                }
                return Ok(());
            },
            None => {},
        }
        self.fp_insert(fingerprint, *validator);
        match self.find(validator) {
            Some(i) => {
                let mut info = self.stakes[i];
                info.machine_fingerprint = fingerprint;
                self.set_entry(i, info);
            },
            None => {},
        }
        Ok(())
    }

    /// Moves `validator` to a new machine fingerprint, after the migration cooldown.
    pub fn migrate_fingerprint(&mut self, validator: &Pubkey, new_fingerprint: [u8; 32], current_slot: u64) -> (r: Result<(), String>)
        requires
            old(self).wf(),
            old(self).stakes_view().dom().contains(validator.0)
                ==> old(self).stakes_view()[validator.0].last_migration_slot + MIGRATION_COOLDOWN_SLOTS <= u64::MAX,
            old(self).stakes_view().dom().contains(validator.0)
                && current_slot < old(self).stakes_view()[validator.0].last_migration_slot + MIGRATION_COOLDOWN_SLOTS
                ==> (old(self).stakes_view()[validator.0].last_migration_slot + MIGRATION_COOLDOWN_SLOTS - current_slot) * 400 <= u64::MAX,
        ensures
            new_fingerprint == zero_fp() ==> (r matches Err(e) && e@ == "Cannot migrate to empty fingerprint"@),
            new_fingerprint != zero_fp() && old(self).fingerprint_view().dom().contains(new_fingerprint) && old(self).fingerprint_view()[new_fingerprint].validator != *validator
                ==> (r matches Err(e) && e@ == "New machine fingerprint already registered to validator "@
                    + bs58_encode_spec(old(self).fingerprint_view()[new_fingerprint].validator.0@)),
            new_fingerprint != zero_fp() && !(old(self).fingerprint_view().dom().contains(new_fingerprint) && old(self).fingerprint_view()[new_fingerprint].validator != *validator)
                && !old(self).stakes_view().dom().contains(validator.0) ==> (r matches Err(e) && e@ == "Validator not found"@),
            new_fingerprint != zero_fp() && !(old(self).fingerprint_view().dom().contains(new_fingerprint) && old(self).fingerprint_view()[new_fingerprint].validator != *validator)
                && old(self).stakes_view().dom().contains(validator.0) && old(self).stakes_view()[validator.0].last_migration_slot > 0
                && current_slot < old(self).stakes_view()[validator.0].last_migration_slot + MIGRATION_COOLDOWN_SLOTS
                ==> (r matches Err(e) && e@ == cooldown_text("Migration cooldown active. "@,
                    (old(self).stakes_view()[validator.0].last_migration_slot + MIGRATION_COOLDOWN_SLOTS - current_slot) as nat)),
            final(self).wf(),
            r is Ok <==> ({
                &&& new_fingerprint != zero_fp()
                &&& !(old(self).fingerprint_view().dom().contains(new_fingerprint)
                    && old(self).fingerprint_view()[new_fingerprint].validator != *validator)
                &&& old(self).stakes_view().dom().contains(validator.0)
                &&& !(old(self).stakes_view()[validator.0].last_migration_slot > 0 && current_slot
                    < old(self).stakes_view()[validator.0].last_migration_slot + MIGRATION_COOLDOWN_SLOTS)
            }),
            r is Err ==> *final(self) == *old(self),
            r is Ok ==> {
                let info = old(self).stakes_view()[validator.0];
                let removed = if info.machine_fingerprint != zero_fp() {
                    old(self).fingerprint_view().remove(info.machine_fingerprint)
                } else {
                    old(self).fingerprint_view()
                };
                &&& final(self).fingerprint_view() == removed.insert(new_fingerprint,
                    FingerprintEntry { fingerprint: new_fingerprint, validator: *validator })
                &&& final(self).stakes_view() == old(self).stakes_view().insert(validator.0,
                    StakeInfo { machine_fingerprint: new_fingerprint, last_migration_slot: current_slot, ..info })
                &&& final(self).spec_total_staked() == old(self).spec_total_staked()
                &&& final(self).spec_total_slashed() == old(self).spec_total_slashed()
                &&& final(self).requests() == old(self).requests()
                &&& final(self).delegation_list() == old(self).delegation_list()
                &&& final(self).spec_grants_issued() == old(self).spec_grants_issued()
            },
    {
        if is_zero_32(&new_fingerprint) {
            assert(new_fingerprint =~= zero_fp());
            return Err(String::from_str("Cannot migrate to empty fingerprint"));
        }
        assert(new_fingerprint != zero_fp()) by {
            if new_fingerprint == zero_fp() {
                assert(crate::bytes::all_zero(new_fingerprint@));
            }
        }
        match self.find_fp(&new_fingerprint) {
            Some(j) => {
                let owner = self.fingerprint_registry[j].validator;
                if owner != *validator {
                    let mut m = String::from_str("New machine fingerprint already registered to validator ");
                    m.append(owner.to_base58().as_str());
                    return Err(m);
                }
            },
            None => {},
        }
        let i = match self.find(validator) {
            Some(i) => i,
            None => return Err(String::from_str("Validator not found")),
        };
        let info = self.stakes[i];
        if info.last_migration_slot > 0 && current_slot < info.last_migration_slot + MIGRATION_COOLDOWN_SLOTS {
            let remaining = (info.last_migration_slot + MIGRATION_COOLDOWN_SLOTS) - current_slot;
            let mut m = String::from_str("Migration cooldown active. ");
            m.append(u64_to_decimal(remaining).as_str());
            m.append(" slots remaining (~");
            m.append(u64_to_decimal(remaining * 400 / 1000 / 3600).as_str());
            m.append(" hours)");
            return Err(m);
        }
        let old_fp = info.machine_fingerprint;
        if !is_zero_32(&old_fp) {
            self.fp_remove(&old_fp);
        } else {
            assert(old_fp =~= zero_fp());
        }
        self.fp_insert(new_fingerprint, *validator);
        let mut updated = info;
        updated.machine_fingerprint = new_fingerprint;
        updated.last_migration_slot = current_slot;
        self.set_entry(i, updated);
        Ok(())
    }

    /// Mutable access to a validator's stake entry.
    #[verifier::spinoff_prover]
    pub fn get_stake_mut(&mut self, validator: &Pubkey) -> (r: Option<&mut StakeInfo>)
        requires
            old(self).wf(),
        ensures
            r is Some <==> old(self).stakes_view().dom().contains(validator.0),
            r matches Some(p) ==> *p == old(self).stakes_view()[validator.0],
            r is None ==> *final(self) == *old(self),
            r matches Some(p) ==> exists|i: int| 0 <= i < old(self).entries().len()
                && old(self).entries()[i].validator == *validator
                && final(self).entries() == old(self).entries().update(i, *final(p))
                && final(self).spec_total_staked() == old(self).spec_total_staked()
                && final(self).spec_total_slashed() == old(self).spec_total_slashed()
                && final(self).requests() == old(self).requests()
                && final(self).delegation_list() == old(self).delegation_list()
                && final(self).fingerprints() == old(self).fingerprints()
                && final(self).spec_grants_issued() == old(self).spec_grants_issued(),
    {
        match self.find(validator) {
            Some(i) => Some(&mut self.stakes[i]),
            None => None,
        }
    }

    /// Removes ghost entries (inactive, zero stake, idle for more than `grace_slots`)
    /// and their fingerprints; returns the removed validators.
    pub fn remove_ghost_validators(&mut self, current_slot: u64, grace_slots: u64) -> (r: Vec<Pubkey>)
        requires
            old(self).wf(),
        ensures
            final(self).wf(),
            r@ == ghost_keys(old(self).entries(), current_slot, grace_slots),
            final(self).entries() == live_entries(old(self).entries(), current_slot, grace_slots),
            forall|f: [u8; 32]| #[trigger] final(self).fingerprint_view().dom().contains(f) <==>
                (old(self).fingerprint_view().dom().contains(f) && !ghost_fingerprint(old(self).entries(), current_slot, grace_slots, f)),
            forall|f: [u8; 32]| #[trigger] final(self).fingerprint_view().dom().contains(f) ==>
                final(self).fingerprint_view()[f] == old(self).fingerprint_view()[f],
            final(self).spec_total_staked() == old(self).spec_total_staked(),
            final(self).spec_total_slashed() == old(self).spec_total_slashed(),
            final(self).requests() == old(self).requests(),
            final(self).delegation_list() == old(self).delegation_list(),
            final(self).spec_grants_issued() == old(self).spec_grants_issued(),
    {
        let ghost orig = self.stakes@;
        let mut live: Vec<StakeInfo> = Vec::new();
        let mut removed: Vec<Pubkey> = Vec::new();
        let mut removed_fps: Vec<[u8; 32]> = Vec::new();
        let mut i: usize = 0;
        while i < self.stakes.len()
            invariant
                i <= self.stakes@.len(),
                self.stakes@ == orig,
                live@ == live_entries(orig.subrange(0, i as int), current_slot, grace_slots),
                removed@ == ghost_keys(orig.subrange(0, i as int), current_slot, grace_slots),
                forall|f: [u8; 32]| removed_fps@.contains(f) <==> ghost_fingerprint(orig.subrange(0, i as int), current_slot, grace_slots, f),
            decreases self.stakes@.len() - i,
        {
            proof {
                lemma_prefix_step(orig, i as int);
            }
            let info = self.stakes[i];
            let ghost pre = orig.subrange(0, i as int);
            let ghost post = orig.subrange(0, i + 1);
            let idle = sub_sat(current_slot, info.last_reward_slot);
            if !info.is_active && info.amount == 0 && idle > grace_slots {
                removed.push(info.validator);
                if !is_zero_32(&info.machine_fingerprint) {
                    let ghost old_rf = removed_fps@;
                    removed_fps.push(info.machine_fingerprint);
                    proof {
                        assert(info.machine_fingerprint != zero_fp()) by {
                            if info.machine_fingerprint == zero_fp() {
                                assert(crate::bytes::all_zero(info.machine_fingerprint@));
                            }
                        }
                        assert forall|f: [u8; 32]| removed_fps@.contains(f) <==> ghost_fingerprint(post, current_slot, grace_slots, f) by {
                            if removed_fps@.contains(f) {
                                let j = choose|j: int| 0 <= j < removed_fps@.len() && removed_fps@[j] == f;
                                if j < old_rf.len() {
                                    assert(old_rf[j] == f);
                                    assert(old_rf.contains(f));
                                    let k = choose|k: int| 0 <= k < pre.len() && is_ghost(pre[k], current_slot, grace_slots) && #[trigger] pre[k].machine_fingerprint == f;
                                    assert(post[k] == pre[k]);
                                } else {
                                    assert(post[i as int] == info);
                                }
                            }
                            if ghost_fingerprint(post, current_slot, grace_slots, f) {
                                let k = choose|k: int| 0 <= k < post.len() && is_ghost(post[k], current_slot, grace_slots) && #[trigger] post[k].machine_fingerprint == f;
                                if k < i {
                                    assert(pre[k] == post[k]);
                                    assert(ghost_fingerprint(pre, current_slot, grace_slots, f));
                                    assert(old_rf.contains(f));
                                    let j = choose|j: int| 0 <= j < old_rf.len() && old_rf[j] == f;
                                    assert(removed_fps@[j] == f);
                                } else {
                                    assert(removed_fps@[old_rf.len() as int] == f);
                                }
                            }
                        }
                    }
                } else {
                    proof {
                        assert(info.machine_fingerprint =~= zero_fp());
                        assert forall|f: [u8; 32]| removed_fps@.contains(f) <==> ghost_fingerprint(post, current_slot, grace_slots, f) by {
                            if ghost_fingerprint(post, current_slot, grace_slots, f) {
                                let k = choose|k: int| 0 <= k < post.len() && is_ghost(post[k], current_slot, grace_slots) && #[trigger] post[k].machine_fingerprint == f;
                                if k < i {
                                    assert(pre[k] == post[k]);
                                    assert(ghost_fingerprint(pre, current_slot, grace_slots, f));
                                }
                            }
                            if ghost_fingerprint(pre, current_slot, grace_slots, f) {
                                let k = choose|k: int| 0 <= k < pre.len() && is_ghost(pre[k], current_slot, grace_slots) && #[trigger] pre[k].machine_fingerprint == f;
                                assert(post[k] == pre[k]);
                            }
                        }
                    }
                }
            } else {
                live.push(info);
                proof {
                    assert forall|f: [u8; 32]| removed_fps@.contains(f) <==> ghost_fingerprint(post, current_slot, grace_slots, f) by {
                        if ghost_fingerprint(post, current_slot, grace_slots, f) {
                            let k = choose|k: int| 0 <= k < post.len() && is_ghost(post[k], current_slot, grace_slots) && #[trigger] post[k].machine_fingerprint == f;
                            if k < i {
                                assert(pre[k] == post[k]);
                                assert(ghost_fingerprint(pre, current_slot, grace_slots, f));
                            }
                        }
                        if ghost_fingerprint(pre, current_slot, grace_slots, f) {
                            let k = choose|k: int| 0 <= k < pre.len() && is_ghost(pre[k], current_slot, grace_slots) && #[trigger] pre[k].machine_fingerprint == f;
                            assert(post[k] == pre[k]);
                        }
                    }
                }
            }
            i += 1;
        }
        proof {
            assert(orig.subrange(0, orig.len() as int) =~= orig);
            lemma_live_sub(orig, current_slot, grace_slots);
        }
        self.stakes = live;
        let ghost mid_fp = self.fingerprint_view();
        let mut k: usize = 0;
        while k < removed_fps.len()
            invariant
                k <= removed_fps@.len(),
                self.wf(),
                self.stakes@ == live_entries(orig, current_slot, grace_slots),
                self.spec_total_staked() == old(self).spec_total_staked(),
                self.spec_total_slashed() == old(self).spec_total_slashed(),
                self.requests() == old(self).requests(),
                self.delegation_list() == old(self).delegation_list(),
                self.spec_grants_issued() == old(self).spec_grants_issued(),
                mid_fp == old(self).fingerprint_view(),
                forall|f: [u8; 32]| #[trigger] self.fingerprint_view().dom().contains(f) <==>
                    (mid_fp.dom().contains(f) && !removed_fps@.subrange(0, k as int).contains(f)),
                forall|f: [u8; 32]| #[trigger] self.fingerprint_view().dom().contains(f) ==> self.fingerprint_view()[f] == mid_fp[f],
            decreases removed_fps@.len() - k,
        {
            let f = removed_fps[k];
            self.fp_remove(&f);
            proof {
                let sk = removed_fps@.subrange(0, k as int);
                let sk1 = removed_fps@.subrange(0, k + 1);
                assert(sk1 =~= sk.push(f));
                assert forall|g: [u8; 32]| sk1.contains(g) <==> (sk.contains(g) || g == f) by {
                    if sk1.contains(g) {
                        let j = choose|j: int| 0 <= j < sk1.len() && #[trigger] sk1[j] == g;
                        if j < k {
                            assert(sk[j] == g);
                        }
                    }
                    if sk.contains(g) {
                        let j = choose|j: int| 0 <= j < sk.len() && #[trigger] sk[j] == g;
                        assert(sk1[j] == g);
                    }
                    if g == f {
                        assert(sk1[k as int] == g);
                    }
                }
            }
            k += 1;
        }
        proof {
            assert(removed_fps@.subrange(0, removed_fps@.len() as int) =~= removed_fps@);
        }
        removed
    }
}


/// Merge of a remote snapshot `e` into the local entry `l`: higher amount, higher
/// repayment progress, learned bootstrap index, fingerprint if unset, more blocks,
/// later penalty boost; activity recomputed.
pub open spec fn spec_merge(l: StakeInfo, e: StakeInfo) -> StakeInfo {
    let a = if e.amount > l.amount { StakeInfo { amount: e.amount, ..l } } else { l };
    let b = if e.total_debt_repaid > a.total_debt_repaid {
        StakeInfo {
            bootstrap_debt: e.bootstrap_debt,
            total_debt_repaid: e.total_debt_repaid,
            earned_amount: e.earned_amount,
            status: e.status,
            graduation_slot: e.graduation_slot,
            ..a
        }
    } else {
        a
    };
    let c = if b.bootstrap_index == u64::MAX && e.bootstrap_index != u64::MAX {
        if b.bootstrap_debt == 0 && e.bootstrap_debt > 0 {
            StakeInfo { bootstrap_index: e.bootstrap_index, bootstrap_debt: e.bootstrap_debt, status: e.status, ..b }
        } else {
            StakeInfo { bootstrap_index: e.bootstrap_index, ..b }
        }
    } else {
        b
    };
    let d = if c.machine_fingerprint == zero_fp() && e.machine_fingerprint != zero_fp() {
        StakeInfo { machine_fingerprint: e.machine_fingerprint, ..c }
    } else {
        c
    };
    let f = if e.blocks_produced > d.blocks_produced { StakeInfo { blocks_produced: e.blocks_produced, ..d } } else { d };
    let g = if e.penalty_boost_until > f.penalty_boost_until { StakeInfo { penalty_boost_until: e.penalty_boost_until, ..f } } else { f };
    StakeInfo { is_active: spec_meets_minimum(g), ..g }
}

impl StakePool {
    /// Full-fidelity upsert from a remote snapshot: merges into an existing entry
    /// (see `spec_merge`), or inserts the entry as-is with its fingerprint and
    /// bootstrap grant accounted for.
    pub fn upsert_stake_full(&mut self, entry: StakeInfo)
        requires
            old(self).wf(),
        ensures
            final(self).wf(),
            final(self).requests() == old(self).requests(),
            final(self).delegation_list() == old(self).delegation_list(),
            final(self).spec_total_slashed() == old(self).spec_total_slashed(),
            old(self).stakes_view().dom().contains(entry.validator.0) ==> {
                let l = old(self).stakes_view()[entry.validator.0];
                &&& final(self).stakes_view() == old(self).stakes_view().insert(entry.validator.0, spec_merge(l, entry))
                &&& final(self).spec_total_staked() == if entry.amount > l.amount {
                    sat_add(old(self).spec_total_staked(), (entry.amount - l.amount) as u64)
                } else {
                    old(self).spec_total_staked()
                }
                &&& final(self).fingerprints() == old(self).fingerprints()
                &&& final(self).spec_grants_issued() == old(self).spec_grants_issued()
            },
            !old(self).stakes_view().dom().contains(entry.validator.0) ==> {
                &&& final(self).stakes_view() == old(self).stakes_view().insert(entry.validator.0, entry)
                &&& final(self).spec_total_staked() == sat_add(old(self).spec_total_staked(), entry.amount)
                &&& final(self).fingerprint_view() == if entry.machine_fingerprint != zero_fp() {
                    old(self).fingerprint_view().insert(entry.machine_fingerprint,
                        FingerprintEntry { fingerprint: entry.machine_fingerprint, validator: entry.validator })
                } else {
                    old(self).fingerprint_view()
                }
                &&& final(self).spec_grants_issued() == if entry.bootstrap_index != u64::MAX
                    && entry.bootstrap_index >= old(self).spec_grants_issued() {
                    (entry.bootstrap_index + 1) as u64
                } else {
                    old(self).spec_grants_issued()
                }
            },
    {
        match self.find(&entry.validator) {
            Some(i) => {
                let mut local = self.stakes[i];
                let old_amount = local.amount;
                if entry.amount > old_amount {
                    self.total_staked = add_sat(self.total_staked, entry.amount - old_amount);
                    local.amount = entry.amount;
                }
                if entry.total_debt_repaid > local.total_debt_repaid {
                    local.bootstrap_debt = entry.bootstrap_debt;
                    local.total_debt_repaid = entry.total_debt_repaid;
                    local.earned_amount = entry.earned_amount;
                    local.status = entry.status;
                    local.graduation_slot = entry.graduation_slot;
                }
                if local.bootstrap_index == u64::MAX && entry.bootstrap_index != u64::MAX {
                    local.bootstrap_index = entry.bootstrap_index;
                    if local.bootstrap_debt == 0 && entry.bootstrap_debt > 0 {
                        local.bootstrap_debt = entry.bootstrap_debt;
                        local.status = entry.status;
                    }
                }
                let local_zero = is_zero_32(&local.machine_fingerprint);
                let entry_zero = is_zero_32(&entry.machine_fingerprint);
                proof {
                    assert(local_zero <==> local.machine_fingerprint == zero_fp()) by {
                        if local_zero {
                            assert(local.machine_fingerprint =~= zero_fp());
                        }
                        if local.machine_fingerprint == zero_fp() {
                            assert(crate::bytes::all_zero(local.machine_fingerprint@));
                        }
                    }
                    assert(entry_zero <==> entry.machine_fingerprint == zero_fp()) by {
                        if entry_zero {
                            assert(entry.machine_fingerprint =~= zero_fp());
                        }
                        if entry.machine_fingerprint == zero_fp() {
                            assert(crate::bytes::all_zero(entry.machine_fingerprint@));
                        }
                    }
                }
                if local_zero && !entry_zero {
                    local.machine_fingerprint = entry.machine_fingerprint;
                }
                if entry.blocks_produced > local.blocks_produced {
                    local.blocks_produced = entry.blocks_produced;
                }
                if entry.penalty_boost_until > local.penalty_boost_until {
                    local.penalty_boost_until = entry.penalty_boost_until;
                }
                local.is_active = local.meets_minimum();
                self.set_entry(i, local);
            },
            None => {
                self.total_staked = add_sat(self.total_staked, entry.amount);
                if !is_zero_32(&entry.machine_fingerprint) {
                    proof {
                        assert(entry.machine_fingerprint != zero_fp()) by {
                            if entry.machine_fingerprint == zero_fp() {
                                assert(crate::bytes::all_zero(entry.machine_fingerprint@));
                            }
                        }
                    }
                    self.fp_insert(entry.machine_fingerprint, entry.validator);
                } else {
                    assert(entry.machine_fingerprint =~= zero_fp());
                }
                if entry.bootstrap_index != u64::MAX && entry.bootstrap_index >= self.bootstrap_grants_issued {
                    self.bootstrap_grants_issued = entry.bootstrap_index + 1;
                }
                self.push_entry(entry);
            },
        }
    }

    /// Atomically: check the fingerprint, allocate a bootstrap index, stake, register.
    /// Returns (bootstrap index, whether a new entry was made). An existing validator
    /// is brought up to `amount` (never down) and keeps its index.
    pub fn try_bootstrap_with_fingerprint(&mut self, validator: Pubkey, amount: u64, current_slot: u64, fingerprint: [u8; 32]) -> (r: Result<(u64, bool), String>)
        requires
            old(self).wf(),
            current_slot + 1000 <= u64::MAX,
        ensures
            r matches Err(e) ==> e@ == bootstrap_error_text(*old(self), validator, amount, fingerprint),
            final(self).wf(),
            final(self).requests() == old(self).requests(),
            final(self).delegation_list() == old(self).delegation_list(),
            final(self).spec_total_slashed() == old(self).spec_total_slashed(),
            old(self).stakes_view().dom().contains(validator.0) ==> {
                let info = old(self).stakes_view()[validator.0];
                let fp_conflict = fingerprint != zero_fp() && old(self).fingerprint_view().dom().contains(fingerprint)
                    && old(self).fingerprint_view()[fingerprint].validator != validator;
                let fp_new = fingerprint != zero_fp() && !old(self).fingerprint_view().dom().contains(fingerprint);
                let t = StakeInfo { amount, ..info };
                let raised = if info.amount < amount { StakeInfo { is_active: spec_meets_minimum(t), ..t } } else { info };
                &&& final(self).spec_grants_issued() == old(self).spec_grants_issued()
                &&& info.amount >= amount ==> (
                    (fp_conflict ==> r is Err && *final(self) == *old(self))
                    && (!fp_conflict ==> r == Ok::<(u64, bool), String>((info.bootstrap_index, false))
                        && final(self).spec_total_staked() == old(self).spec_total_staked()))
                &&& (info.amount < amount && amount > MAX_VALIDATOR_STAKE) ==> r is Err && *final(self) == *old(self)
                &&& (info.amount < amount && amount <= MAX_VALIDATOR_STAKE) ==> {
                    &&& final(self).spec_total_staked() == sat_add(old(self).spec_total_staked(), (amount - info.amount) as u64)
                    &&& final(self).stakes_view()[validator.0].amount == amount
                    &&& (fp_conflict ==> r is Err)
                    &&& (!fp_conflict ==> r == Ok::<(u64, bool), String>((info.bootstrap_index, false)))
                }
                &&& (info.amount >= amount || amount <= MAX_VALIDATOR_STAKE) ==> {
                    &&& fp_new ==> final(self).stakes_view() == old(self).stakes_view().insert(validator.0,
                            StakeInfo { machine_fingerprint: fingerprint, ..raised })
                        && final(self).fingerprint_view() == old(self).fingerprint_view().insert(fingerprint,
                            FingerprintEntry { fingerprint, validator })
                    &&& !fp_new ==> final(self).stakes_view() == old(self).stakes_view().insert(validator.0, raised)
                        && final(self).fingerprint_view() == old(self).fingerprint_view()
                }
            },
            !old(self).stakes_view().dom().contains(validator.0) ==> {
                let fp_conflict = fingerprint != zero_fp() && old(self).fingerprint_view().dom().contains(fingerprint)
                    && old(self).fingerprint_view()[fingerprint].validator != validator;
                let index = if old(self).spec_grants_issued() < MAX_BOOTSTRAP_VALIDATORS { old(self).spec_grants_issued() } else { u64::MAX };
                &&& (fp_conflict || amount < MIN_VALIDATOR_STAKE) ==> r is Err && *final(self) == *old(self)
                &&& !(fp_conflict || amount < MIN_VALIDATOR_STAKE) ==> {
                    let base = spec_new_stake(validator, amount, current_slot, index);
                    let info = if fingerprint != zero_fp() { StakeInfo { machine_fingerprint: fingerprint, ..base } } else { base };
                    &&& r == Ok::<(u64, bool), String>((index, true))
                    &&& final(self).stakes_view() == old(self).stakes_view().insert(validator.0, info)
                    &&& final(self).spec_total_staked() == sat_add(old(self).spec_total_staked(), amount)
                    &&& final(self).spec_grants_issued() == if old(self).spec_grants_issued() < MAX_BOOTSTRAP_VALIDATORS {
                        (old(self).spec_grants_issued() + 1) as u64
                    } else {
                        old(self).spec_grants_issued()
                    }
                    &&& final(self).fingerprint_view() == if fingerprint != zero_fp() {
                        old(self).fingerprint_view().insert(fingerprint, FingerprintEntry { fingerprint, validator })
                    } else {
                        old(self).fingerprint_view()
                    }
                }
            },
    {
        let fp_zero = is_zero_32(&fingerprint);
        proof {
            assert(fp_zero <==> fingerprint == zero_fp()) by {
                if fp_zero {
                    assert(fingerprint =~= zero_fp());
                }
                if fingerprint == zero_fp() {
                    assert(crate::bytes::all_zero(fingerprint@));
                }
            }
        }
        match self.find(&validator) {
            Some(i) => {
                let info = self.stakes[i];
                if info.amount >= amount {
                    let existing_index = info.bootstrap_index;
                    if !fp_zero {
                        match self.register_fingerprint(&validator, fingerprint) {
                            Ok(()) => {},
                            Err(e) => return Err(e),
                        }
                    }
                    return Ok((existing_index, false));
                }
                let deficit = amount - info.amount;
                if amount > MAX_VALIDATOR_STAKE {
                    let mut m = String::from_str("Stake ");
                    m.append(u64_to_decimal(amount).as_str());
                    m.append(" would exceed max 1000000000000000 per validator");
                    return Err(m);
                }
                let mut updated = info;
                updated.amount = amount;
                updated.is_active = updated.meets_minimum();
                let existing_index = updated.bootstrap_index;
                self.set_entry(i, updated);
                self.total_staked = add_sat(self.total_staked, deficit);
                if !fp_zero {
                    match self.register_fingerprint(&validator, fingerprint) {
                        Ok(()) => {},
                        Err(e) => return Err(e),
                    }
                }
                return Ok((existing_index, false));
            },
            None => {},
        }
        if !fp_zero {
            match self.find_fp(&fingerprint) {
                Some(j) => {
                    let owner = self.fingerprint_registry[j].validator;
                    if owner != validator {
                        let mut m = String::from_str("Machine fingerprint already registered to validator ");
                        m.append(owner.to_base58().as_str());
                        m.append(". Each machine can only receive one bootstrap grant.");
                        return Err(m);
                    }
                },
                None => {},
            }
        }
        if amount < MIN_VALIDATOR_STAKE {
            let mut m = String::from_str("Stake ");
            m.append(u64_to_decimal(amount).as_str());
            m.append(" is below minimum 75000000000000");
            return Err(m);
        }
        let bootstrap_index = if self.bootstrap_grants_issued < MAX_BOOTSTRAP_VALIDATORS {
            let idx = self.bootstrap_grants_issued;
            self.bootstrap_grants_issued = self.bootstrap_grants_issued + 1;
            idx
        } else {
            u64::MAX
        };
        let mut info = StakeInfo::with_bootstrap_index(validator, amount, current_slot, bootstrap_index);
        if !fp_zero {
            info.machine_fingerprint = fingerprint;
            self.fp_insert(fingerprint, validator);
        }
        self.push_entry(info);
        self.total_staked = add_sat(self.total_staked, amount);
        Ok((bootstrap_index, true))
    }
}


/// An entry eligible for the legacy bootstrap migration: self-funded index, at least
/// the minimum stake, and never in debt or graduated.
pub open spec fn is_legacy_candidate(info: StakeInfo) -> bool {
    &&& info.bootstrap_index == u64::MAX
    &&& info.amount >= MIN_VALIDATOR_STAKE
    &&& info.bootstrap_debt == 0
    &&& info.graduation_slot is None
    &&& info.total_debt_repaid == 0
}

/// Sorts (key, slot) pairs by slot, ascending; among equal slots the earlier comes first.
fn sort_by_slot(v: Vec<(Pubkey, u64)>) -> (r: Vec<(Pubkey, u64)>)
    ensures
        r@.to_multiset() == v@.to_multiset(),
        forall|i: int, j: int| 0 <= i < j < r@.len() ==> #[trigger] r@[i].1 <= #[trigger] r@[j].1,
{
    broadcast use vstd::seq_lib::group_to_multiset_ensures;
    broadcast use vstd::multiset::group_multiset_axioms;
    let ghost orig = v@;
    let mut rest = v;
    let mut out: Vec<(Pubkey, u64)> = Vec::new();
    while rest.len() > 0
        invariant
            out@.to_multiset().add(rest@.to_multiset()) == orig.to_multiset(),
            forall|i: int, j: int| 0 <= i < j < out@.len() ==> #[trigger] out@[i].1 <= #[trigger] out@[j].1,
            forall|p: int, q: int| 0 <= p < out@.len() && 0 <= q < rest@.len() ==> #[trigger] out@[p].1 <= #[trigger] rest@[q].1,
        decreases rest@.len(),
    {
        let mut best: usize = 0;
        let mut k: usize = 1;
        while k < rest.len()
            invariant
                1 <= k <= rest@.len(),
                best < rest@.len(),
                forall|j: int| 0 <= j < k ==> rest@[best as int].1 <= #[trigger] rest@[j].1,
            decreases rest@.len() - k,
        {
            if rest[k].1 < rest[best].1 {
                best = k;
            }
            k += 1;
        }
        let ghost old_rest = rest@;
        let ghost old_out = out@;
        let x = rest.remove(best);
        out.push(x);
        proof {
            old_rest.to_multiset_ensures();
            old_out.to_multiset_ensures();
            assert(old_rest.remove(best as int) == rest@);
            assert(old_rest.remove(best as int).to_multiset() == old_rest.to_multiset().remove(old_rest[best as int]));
            assert(old_out.push(x) == out@);
            assert(old_rest.to_multiset().count(x) > 0);
            assert(out@.to_multiset().add(rest@.to_multiset()) =~= orig.to_multiset());
            assert forall|p: int, q: int| 0 <= p < out@.len() && 0 <= q < rest@.len() implies #[trigger] out@[p].1 <= #[trigger] rest@[q].1 by {
                let q2 = if q < best { q } else { q + 1 };
                assert(rest@[q] == old_rest[q2]);
                if p < old_out.len() {
                    assert(out@[p] == old_out[p]);
                }
            }
            assert forall|i: int, j: int| 0 <= i < j < out@.len() implies #[trigger] out@[i].1 <= #[trigger] out@[j].1 by {
                if j < old_out.len() {
                    assert(out@[j] == old_out[j]);
                    assert(out@[i] == old_out[i]);
                } else {
                    assert(out@[i] == old_out[i]);
                }
            }
        }
    }
    assert(rest@.to_multiset() =~= vstd::multiset::Multiset::empty());
    out
}

/// `o` after the legacy migration gave it index `idx`: full debt, bootstrapping.
pub open spec fn migrated_info(o: StakeInfo, idx: u64) -> StakeInfo {
    StakeInfo { bootstrap_index: idx, bootstrap_debt: o.amount, status: BootstrapStatus::Bootstrapping, ..o }
}

/// The (validator, start slot) pair of a stake entry.
pub open spec fn slot_pair(info: StakeInfo) -> (Pubkey, u64) {
    (info.validator, info.start_slot)
}

impl StakePool {
    /// One-time migration: gives bootstrap indices (and full debt) to legacy validators
    /// that staked before the bootstrap system, earliest start slot first, while fewer
    /// than 200 grants were issued. Returns the number migrated.
    pub fn migrate_legacy_bootstrap_indices(&mut self) -> (r: u64)
        requires
            old(self).wf(),
        ensures
            final(self).wf(),
            final(self).spec_grants_issued() == old(self).spec_grants_issued() + r,
            old(self).spec_grants_issued() >= MAX_BOOTSTRAP_VALIDATORS ==> r == 0,
            old(self).spec_grants_issued() < MAX_BOOTSTRAP_VALIDATORS ==> r <= MAX_BOOTSTRAP_VALIDATORS - old(self).spec_grants_issued(),
            final(self).stakes_view().dom() == old(self).stakes_view().dom(),
            forall|k: [u8; 32]| #[trigger] final(self).stakes_view().dom().contains(k) ==> (
                final(self).stakes_view()[k] == old(self).stakes_view()[k] || {
                    let o = old(self).stakes_view()[k];
                    let n = final(self).stakes_view()[k];
                    &&& is_legacy_candidate(o)
                    &&& old(self).spec_grants_issued() <= n.bootstrap_index < old(self).spec_grants_issued() + r
                    &&& n == migrated_info(o, n.bootstrap_index)
                }),
            forall|k1: [u8; 32], k2: [u8; 32]|
                #[trigger] final(self).stakes_view().dom().contains(k1) && #[trigger] final(self).stakes_view().dom().contains(k2)
                && final(self).stakes_view()[k1] != old(self).stakes_view()[k1]
                && final(self).stakes_view()[k2] != old(self).stakes_view()[k2] ==> {
                    &&& k1 != k2 ==> final(self).stakes_view()[k1].bootstrap_index != final(self).stakes_view()[k2].bootstrap_index
                    &&& old(self).stakes_view()[k1].start_slot < old(self).stakes_view()[k2].start_slot
                        ==> final(self).stakes_view()[k1].bootstrap_index < final(self).stakes_view()[k2].bootstrap_index
                },
            forall|k1: [u8; 32], k2: [u8; 32]|
                #[trigger] final(self).stakes_view().dom().contains(k1) && #[trigger] final(self).stakes_view().dom().contains(k2)
                && final(self).stakes_view()[k1] != old(self).stakes_view()[k1]
                && final(self).stakes_view()[k2] == old(self).stakes_view()[k2]
                && is_legacy_candidate(old(self).stakes_view()[k2])
                ==> old(self).stakes_view()[k1].start_slot <= old(self).stakes_view()[k2].start_slot,
            forall|k: [u8; 32]| #[trigger] final(self).stakes_view().dom().contains(k)
                && final(self).stakes_view()[k] == old(self).stakes_view()[k] && is_legacy_candidate(old(self).stakes_view()[k])
                ==> final(self).spec_grants_issued() >= MAX_BOOTSTRAP_VALIDATORS,
            final(self).spec_total_staked() == old(self).spec_total_staked(),
            final(self).requests() == old(self).requests(),
            final(self).delegation_list() == old(self).delegation_list(),
            final(self).fingerprints() == old(self).fingerprints(),
            final(self).spec_total_slashed() == old(self).spec_total_slashed(),
    {
        let ghost es = self.stakes@;
        let ghost m0 = self.stakes_view();
        let ghost g0 = self.bootstrap_grants_issued;
        let mut candidates: Vec<(Pubkey, u64)> = Vec::new();
        let ghost mut src: Seq<int> = Seq::empty();
        let mut i: usize = 0;
        while i < self.stakes.len()
            invariant
                i <= self.stakes@.len(),
                self.stakes@ == es,
                distinct_keys(es),
                src.len() == candidates@.len(),
                forall|p: int| 0 <= p < src.len() ==> 0 <= #[trigger] src[p] < i && is_legacy_candidate(es[src[p]])
                    && candidates@[p] == slot_pair(es[src[p]]),
                forall|p: int, q: int| 0 <= p < q < src.len() ==> #[trigger] src[p] < #[trigger] src[q],
                forall|t: int| 0 <= t < i && is_legacy_candidate(#[trigger] es[t]) ==> candidates@.contains(slot_pair(es[t])),
            decreases self.stakes@.len() - i,
        {
            let info = &self.stakes[i];
            if info.bootstrap_index == u64::MAX && info.amount >= MIN_VALIDATOR_STAKE && info.bootstrap_debt == 0
                && info.graduation_slot.is_none() && info.total_debt_repaid == 0 {
                let ghost before = candidates@;
                candidates.push((info.validator, info.start_slot));
                proof {
                    src = src.push(i as int);
                    assert forall|t: int| 0 <= t < i + 1 && is_legacy_candidate(#[trigger] es[t])
                        implies candidates@.contains(slot_pair(es[t])) by {
                        if t < i {
                            let p = choose|p: int| 0 <= p < before.len() && before[p] == slot_pair(es[t]);
                            assert(candidates@[p] == before[p]);
                        } else {
                            assert(candidates@[candidates@.len() - 1] == slot_pair(es[t]));
                        }
                    }
                }
            } else {
                proof {
                    assert(!is_legacy_candidate(es[i as int]));
                }
            }
            i += 1;
        }
        let ghost cands = candidates@;
        proof {
            // candidates name distinct validators, so no pair repeats
            assert forall|p: int, q: int| 0 <= p < cands.len() && 0 <= q < cands.len() && p != q
                implies #[trigger] cands[p] != #[trigger] cands[q] by {
                if p < q {
                    assert(src[p] < src[q]);
                } else {
                    assert(src[q] < src[p]);
                }
                assert(es[src[p]].key() != es[src[q]].key());
            }
            assert(cands.no_duplicates());
            cands.lemma_multiset_has_no_duplicates();
        }
        let sorted = sort_by_slot(candidates);
        let ghost ss = sorted@;
        proof {
            broadcast use vstd::seq_lib::group_to_multiset_ensures;
            assert forall|x: (Pubkey, u64)| ss.to_multiset().contains(x) implies ss.to_multiset().count(x) == 1 by {
                assert(cands.to_multiset().contains(x));
            }
            ss.lemma_multiset_has_no_duplicates_conv();
            assert forall|j: int| #![trigger ss[j]] 0 <= j < ss.len() implies
                m0.dom().contains(ss[j].0.0) && is_legacy_candidate(m0[ss[j].0.0])
                && ss[j] == slot_pair(m0[ss[j].0.0]) by {
                assert(ss.contains(ss[j]));
                assert(ss.to_multiset().count(ss[j]) > 0);
                assert(cands.contains(ss[j]));
                let p = choose|p: int| 0 <= p < cands.len() && cands[p] == ss[j];
                lemma_key_index(es, src[p]);
            }
            assert forall|a: int, b: int| 0 <= a < ss.len() && 0 <= b < ss.len() && a != b
                implies #[trigger] ss[a].0.0 != #[trigger] ss[b].0.0 by {
                assert(m0.dom().contains(ss[a].0.0) && ss[a] == slot_pair(m0[ss[a].0.0]));
                assert(m0.dom().contains(ss[b].0.0) && ss[b] == slot_pair(m0[ss[b].0.0]));
                if ss[a].0.0 == ss[b].0.0 {
                    assert(m0[ss[a].0.0].validator.0 == ss[a].0.0);
                    assert(ss[a] == ss[b]);
                }
            }
            assert forall|key: [u8; 32]| #[trigger] m0.dom().contains(key) && is_legacy_candidate(m0[key])
                implies exists|j: int| 0 <= j < ss.len() && ss[j].0.0 == key by {
                let t = key_index(es, key);
                lemma_key_index(es, t);
                assert(cands.contains(slot_pair(es[t])));
                assert(cands.to_multiset().count(slot_pair(es[t])) > 0);
                assert(ss.contains(slot_pair(es[t])));
                let j = choose|j: int| 0 <= j < ss.len() && ss[j] == slot_pair(es[t]);
                assert(ss[j].0.0 == key);
            }
        }
        let mut migrated: u64 = 0;
        let mut k: usize = 0;
        while k < sorted.len()
            invariant
                k <= ss.len(),
                sorted@ == ss,
                self.wf(),
                self.bootstrap_grants_issued == g0 + migrated,
                migrated == k,
                k > 0 ==> g0 + k <= MAX_BOOTSTRAP_VALIDATORS,
                m0 == old(self).stakes_view(),
                g0 == old(self).spec_grants_issued(),
                self.stakes_view().dom() == m0.dom(),
                forall|j: int| #![trigger ss[j]] 0 <= j < ss.len() ==> m0.dom().contains(ss[j].0.0)
                    && is_legacy_candidate(m0[ss[j].0.0]) && ss[j] == slot_pair(m0[ss[j].0.0]),
                forall|a: int, b: int| 0 <= a < ss.len() && 0 <= b < ss.len() && a != b ==> #[trigger] ss[a].0.0 != #[trigger] ss[b].0.0,
                forall|j: int| 0 <= j < k ==> #[trigger] self.stakes_view()[ss[j].0.0] == migrated_info(m0[ss[j].0.0], (g0 + j) as u64),
                forall|key: [u8; 32]| #[trigger] m0.dom().contains(key) && (forall|j: int| 0 <= j < k ==> ss[j].0.0 != key)
                    ==> self.stakes_view()[key] == m0[key],
                self.spec_total_staked() == old(self).spec_total_staked(),
                self.requests() == old(self).requests(),
                self.delegation_list() == old(self).delegation_list(),
                self.fingerprints() == old(self).fingerprints(),
                self.spec_total_slashed() == old(self).spec_total_slashed(),
            ensures
                k == ss.len() || self.bootstrap_grants_issued >= MAX_BOOTSTRAP_VALIDATORS,
            decreases ss.len() - k,
        {
            if self.bootstrap_grants_issued >= MAX_BOOTSTRAP_VALIDATORS {
                break;
            }
            let pk = sorted[k].0;
            let idx = self.bootstrap_grants_issued;
            proof {
                assert(m0.dom().contains(ss[k as int].0.0));
                assert forall|j: int| 0 <= j < k implies ss[j].0.0 != pk.0 by {
                    assert(ss[j].0.0 != ss[k as int].0.0);
                }
            }
            match self.find(&pk) {
                Some(j) => {
                    let info = self.stakes[j];
                    self.bootstrap_grants_issued = self.bootstrap_grants_issued + 1;
                    let mut updated = info;
                    updated.bootstrap_index = idx;
                    updated.bootstrap_debt = updated.amount;
                    updated.status = BootstrapStatus::Bootstrapping;
                    self.set_entry(j, updated);
                    migrated = migrated + 1;
                },
                None => {
                    assert(false);
                },
            }
            k += 1;
        }
        proof {
            let fm = self.stakes_view();
            // a changed entry was migrated at some position of the sorted list
            assert forall|key: [u8; 32]| #[trigger] fm.dom().contains(key) && fm[key] != m0[key]
                implies exists|j: int| 0 <= j < k && ss[j].0.0 == key by {
                if !(exists|j: int| 0 <= j < k && ss[j].0.0 == key) {
                    assert(forall|j: int| 0 <= j < k ==> ss[j].0.0 != key);
                }
            }
            assert forall|j: int| 0 <= j < k implies #[trigger] fm[ss[j].0.0] != m0[ss[j].0.0]
                && fm[ss[j].0.0].bootstrap_index == g0 + j by {
                assert(ss[j] == ss[j]);
                assert(is_legacy_candidate(m0[ss[j].0.0]));
                assert(fm[ss[j].0.0] == migrated_info(m0[ss[j].0.0], (g0 + j) as u64));
            }
            assert forall|k1: [u8; 32], k2: [u8; 32]|
                #[trigger] fm.dom().contains(k1) && #[trigger] fm.dom().contains(k2)
                && fm[k1] != m0[k1] && fm[k2] != m0[k2] implies {
                    &&& k1 != k2 ==> fm[k1].bootstrap_index != fm[k2].bootstrap_index
                    &&& m0[k1].start_slot < m0[k2].start_slot ==> fm[k1].bootstrap_index < fm[k2].bootstrap_index
                } by {
                let j1 = choose|j: int| 0 <= j < k && ss[j].0.0 == k1;
                let j2 = choose|j: int| 0 <= j < k && ss[j].0.0 == k2;
                assert(fm[ss[j1].0.0] != m0[ss[j1].0.0]);
                assert(fm[ss[j2].0.0] != m0[ss[j2].0.0]);
                assert(ss[j1] == slot_pair(m0[ss[j1].0.0]));
                assert(ss[j2] == slot_pair(m0[ss[j2].0.0]));
                if j2 < j1 {
                    assert(ss[j2].1 <= ss[j1].1);
                }
            }
            assert forall|k1: [u8; 32], k2: [u8; 32]|
                #[trigger] fm.dom().contains(k1) && #[trigger] fm.dom().contains(k2)
                && fm[k1] != m0[k1] && fm[k2] == m0[k2] && is_legacy_candidate(m0[k2])
                implies m0[k1].start_slot <= m0[k2].start_slot by {
                let j1 = choose|j: int| 0 <= j < k && ss[j].0.0 == k1;
                let j2 = choose|j: int| 0 <= j < ss.len() && ss[j].0.0 == k2;
                assert(fm[ss[j1].0.0] != m0[ss[j1].0.0]);
                assert(ss[j1] == slot_pair(m0[ss[j1].0.0]));
                assert(ss[j2] == slot_pair(m0[ss[j2].0.0]));
                if j2 < k {
                    assert(fm[ss[j2].0.0] != m0[ss[j2].0.0]);
                }
                assert(ss[j1].1 <= ss[j2].1);
            }
            assert forall|key: [u8; 32]| #[trigger] fm.dom().contains(key)
                && fm[key] == m0[key] && is_legacy_candidate(m0[key])
                implies self.bootstrap_grants_issued >= MAX_BOOTSTRAP_VALIDATORS by {
                let j = choose|j: int| 0 <= j < ss.len() && ss[j].0.0 == key;
                if j < k {
                    assert(fm[ss[j].0.0] != m0[ss[j].0.0]);
                }
            }
            assert forall|key: [u8; 32]| #[trigger] fm.dom().contains(key) implies (
                fm[key] == m0[key] || {
                    let o = m0[key];
                    let n = fm[key];
                    &&& is_legacy_candidate(o)
                    &&& g0 <= n.bootstrap_index < g0 + migrated
                    &&& n == migrated_info(o, n.bootstrap_index)
                }) by {
                if fm[key] != m0[key] {
                    let j = choose|j: int| 0 <= j < k && ss[j].0.0 == key;
                    assert(fm[ss[j].0.0] != m0[ss[j].0.0]);
                    assert(ss[j] == slot_pair(m0[ss[j].0.0]));
                }
            }
        }
        migrated
    }
}

} // verus!
