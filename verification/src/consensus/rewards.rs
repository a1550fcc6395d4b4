//! Reward schedule, founding vesting, epochs and consensus constants.
use vstd::prelude::*;

verus! {

/// Minimum stake to remain an active validator (75,000 MOLT in shells).
pub const MIN_VALIDATOR_STAKE: u64 = 75_000_000_000_000;

/// Bootstrap grant (100,000 MOLT in shells) given to the first validators.
pub const BOOTSTRAP_GRANT_AMOUNT: u64 = 100_000_000_000_000;

/// Reward for a block with transactions (0.02 MOLT).
pub const TRANSACTION_BLOCK_REWARD: u64 = 20_000_000;

/// Reward for a heartbeat block (0.01 MOLT).
pub const HEARTBEAT_BLOCK_REWARD: u64 = 10_000_000;

/// Legacy name of the transaction block reward.
pub const BLOCK_REWARD: u64 = 20_000_000;

/// Target annual reward pool draw rate in basis points (informational).
pub const ANNUAL_REWARD_RATE_BPS: u64 = 500;

/// Slots per year (400 ms slots).
pub const SLOTS_PER_YEAR: u64 = 78_840_000;

/// Annual reward decay in basis points (20%).
pub const ANNUAL_REWARD_DECAY_BPS: u64 = 2000;

/// Founding cliff: 6 months of 30 days, in seconds.
pub const FOUNDING_CLIFF_SECONDS: u64 = 15_552_000;

/// Founding vest total: 24 months of 30 days, in seconds.
pub const FOUNDING_VEST_TOTAL_SECONDS: u64 = 62_208_000;

/// Number of validators that receive the bootstrap grant.
pub const MAX_BOOTSTRAP_VALIDATORS: u64 = 200;

/// Maximum bootstrap duration in slots (547 days of 216,000 slots).
pub const MAX_BOOTSTRAP_SLOTS: u64 = 118_152_000;

/// Uptime (basis points) that earns the performance bonus.
pub const UPTIME_BONUS_THRESHOLD_BPS: u64 = 9500;

/// Performance bonus multiplier in basis points (1.5x).
pub const PERFORMANCE_BONUS_BPS: u64 = 15000;

/// Cooldown after a machine migration, in slots.
pub const MIGRATION_COOLDOWN_SLOTS: u64 = 432_000;

/// Maximum stake per validator (1,000,000 MOLT in shells).
pub const MAX_VALIDATOR_STAKE: u64 = 1_000_000_000_000_000;

/// Unstake cooldown (7 days of 400 ms slots).
pub const UNSTAKE_COOLDOWN_SLOTS: u64 = 1_512_000;

/// Slots per epoch.
pub const SLOTS_PER_EPOCH: u64 = 432_000;

/// Cumulative founding amount unlocked at `current_time`: nothing before the
/// cliff, everything from `vest_end` on, linear (rounded down) in between.
pub open spec fn spec_founding_unlocked(total: u64, cliff_end: u64, vest_end: u64, now: u64) -> int {
    if now < cliff_end {
        0
    } else if now >= vest_end {
        total as int
    } else {
        (total * (now - cliff_end)) / ((vest_end - cliff_end) as int)
    }
}

/// Founding moltys unlocked at `current_time` (6-month cliff, then linear to `vest_end`).
pub fn founding_vesting_unlocked(total_amount: u64, cliff_end: u64, vest_end: u64, current_time: u64) -> (r: u64)
    ensures
        r == spec_founding_unlocked(total_amount, cliff_end, vest_end, current_time),
        r <= total_amount,
{
    if current_time < cliff_end {
        return 0;
    }
    if current_time >= vest_end {
        return total_amount;
    }
    let linear_period = vest_end - cliff_end;
    let elapsed = current_time - cliff_end;
    assert((total_amount as int) * (elapsed as int) <= (total_amount as int) * (linear_period as int)) by (nonlinear_arith)
        requires elapsed <= linear_period;
    assert((total_amount as int) * (linear_period as int) / (linear_period as int) == total_amount) by (nonlinear_arith)
        requires linear_period > 0;
    assert((total_amount as int) * (elapsed as int) / (linear_period as int) <= (total_amount as int) * (linear_period as int) / (linear_period as int)) by (nonlinear_arith)
        requires linear_period > 0, (total_amount as int) * (elapsed as int) <= (total_amount as int) * (linear_period as int), elapsed >= 0;
    assert((total_amount as int) * (elapsed as int) <= 0xffff_ffff_ffff_ffff_ffff_ffff_ffff_ffff) by (nonlinear_arith)
        requires total_amount <= 0xffff_ffff_ffff_ffff, elapsed <= 0xffff_ffff_ffff_ffff;
    let prod = (total_amount as u128) * (elapsed as u128);
    (prod / (linear_period as u128)) as u64
}

/// The unlocked amount never decreases with time and never exceeds the total.
pub proof fn lemma_founding_monotone(total: u64, cliff_end: u64, vest_end: u64, t1: u64, t2: u64)
    requires
        t1 <= t2,
    ensures
        spec_founding_unlocked(total, cliff_end, vest_end, t1) <= spec_founding_unlocked(total, cliff_end, vest_end, t2),
        0 <= spec_founding_unlocked(total, cliff_end, vest_end, t2) <= total,
{
    if cliff_end <= t2 && t2 < vest_end {
        let l = (vest_end - cliff_end) as int;
        let e2 = (t2 - cliff_end) as int;
        assert((total as int) * e2 / l <= total) by (nonlinear_arith)
            requires 0 <= e2 < l, total >= 0;
        assert((total as int) * e2 / l >= 0) by (nonlinear_arith)
            requires 0 <= e2, l > 0, total >= 0;
        if cliff_end <= t1 {
            let e1 = (t1 - cliff_end) as int;
            assert((total as int) * e1 / l <= (total as int) * e2 / l) by (nonlinear_arith)
                requires 0 <= e1 <= e2, l > 0, total >= 0;
        }
    }
    if cliff_end <= t1 && t1 < vest_end && t2 >= vest_end {
        let l = (vest_end - cliff_end) as int;
        let e1 = (t1 - cliff_end) as int;
        assert((total as int) * e1 / l <= total) by (nonlinear_arith)
            requires 0 <= e1 < l, total >= 0;
    }
}

/// `r` after `n` years of 20% decay, each step rounding down (r * 80 / 100).
pub open spec fn decay(r: nat, n: nat) -> nat
    decreases n,
{
    if n == 0 {
        r
    } else {
        decay(r * 80 / 100, (n - 1) as nat)
    }
}

/// Decayed block reward for `slot`: years since genesis, capped at 200.
pub open spec fn spec_decayed_reward(base: u64, slot: u64) -> nat {
    let years = slot / SLOTS_PER_YEAR;
    decay(base as nat, if years < 200 { years as nat } else { 200 })
}

proof fn lemma_decay_le(r: nat, n: nat)
    ensures
        decay(r, n) <= r,
    decreases n,
{
    if n > 0 {
        lemma_decay_le(r * 80 / 100, (n - 1) as nat);
    }
}

proof fn lemma_decay_zero(n: nat)
    ensures
        decay(0, n) == 0,
    decreases n,
{
    if n > 0 {
        lemma_decay_zero((n - 1) as nat);
    }
}

proof fn lemma_decay_step(r: nat, n: nat)
    ensures
        decay(r, n + 1) == decay(r, n) * 80 / 100,
    decreases n,
{
    if n > 0 {
        lemma_decay_step(r * 80 / 100, (n - 1) as nat);
        assert(decay(r, n + 1) == decay(r * 80 / 100, n));
        assert(decay(r, n) == decay(r * 80 / 100, (n - 1) as nat));
        assert(((n - 1) as nat + 1) as nat == n);
    } else {
        assert(decay(r, 1) == decay(r * 80 / 100, 0));
    }
}

proof fn lemma_decay_antitone(r: nat, m: nat, n: nat)
    requires
        m <= n,
    ensures
        decay(r, n) <= decay(r, m),
    decreases n - m,
{
    if m < n {
        lemma_decay_antitone(r, m, (n - 1) as nat);
        lemma_decay_step(r, (n - 1) as nat);
    }
}

/// The decayed reward never exceeds the base and never grows with the slot.
pub proof fn lemma_decayed_reward_antitone(base: u64, s1: u64, s2: u64)
    requires
        s1 <= s2,
    ensures
        spec_decayed_reward(base, s2) <= spec_decayed_reward(base, s1),
        spec_decayed_reward(base, s1) <= base,
{
    let y1 = s1 / SLOTS_PER_YEAR;
    let y2 = s2 / SLOTS_PER_YEAR;
    vstd::arithmetic::div_mod::lemma_div_is_ordered(s1 as int, s2 as int, SLOTS_PER_YEAR as int);
    let n1: nat = if y1 < 200 { y1 as nat } else { 200 };
    let n2: nat = if y2 < 200 { y2 as nat } else { 200 };
    lemma_decay_antitone(base as nat, n1, n2);
    lemma_decay_le(base as nat, n1);
}

/// Block reward after 20% compound annual decay (at most 200 years applied).
/// Each step computes `reward * 80` in 64 bits, so a base above `u64::MAX / 80`
/// is only accepted in year 0.
pub fn decayed_reward(base_reward: u64, current_slot: u64) -> (r: u64)
    requires
        current_slot < SLOTS_PER_YEAR || base_reward <= u64::MAX / 80,
    ensures
        r == spec_decayed_reward(base_reward, current_slot),
{
    let years = current_slot / SLOTS_PER_YEAR;
    let n: u64 = if years < 200 { years } else { 200 };
    let mut reward = base_reward;
    let mut i: u64 = 0;
    while i < n
        invariant
            i <= n,
            n <= 200,
            n == (if years < 200 { years } else { 200 }),
            years == current_slot / SLOTS_PER_YEAR,
            reward as nat == decay(base_reward as nat, i as nat),
            n == 0 || base_reward <= u64::MAX / 80,
            reward <= base_reward,
        decreases n - i,
    {
        proof {
            lemma_decay_step(base_reward as nat, i as nat);
        }
        reward = reward * 80 / 100;
        i += 1;
        if reward == 0 {
            proof {
                let k = (n - i) as nat;
                lemma_decay_zero(k);
                lemma_decay_split(base_reward as nat, i as nat, k);
            }
            return 0;
        }
    }
    reward
}

proof fn lemma_decay_split(r: nat, a: nat, b: nat)
    ensures
        decay(r, a + b) == decay(decay(r, a), b),
    decreases a,
{
    if a > 0 {
        lemma_decay_split(r * 80 / 100, (a - 1) as nat, b);
        assert((a - 1) as nat + b == (a + b - 1) as nat);
    }
}

/// Epoch containing `slot`.
pub fn slot_to_epoch(slot: u64) -> (r: u64)
    ensures
        r == slot / SLOTS_PER_EPOCH,
{
    slot / SLOTS_PER_EPOCH
}

/// First slot of `epoch`.
pub fn epoch_start_slot(epoch: u64) -> (r: u64)
    requires
        epoch * SLOTS_PER_EPOCH <= u64::MAX,
    ensures
        r == epoch * SLOTS_PER_EPOCH,
{
    epoch * SLOTS_PER_EPOCH
}

/// Whether `slot` is the first slot of an epoch other than epoch 0.
pub fn is_epoch_boundary(slot: u64) -> (r: bool)
    ensures
        r == (slot > 0 && slot % SLOTS_PER_EPOCH == 0),
{
    slot > 0 && slot.is_multiple_of(SLOTS_PER_EPOCH)
}

/// Every slot lies in its epoch: the epoch starts at or before it and the next one after it.
pub proof fn lemma_slot_in_epoch(slot: u64)
    ensures
        (slot / SLOTS_PER_EPOCH) * SLOTS_PER_EPOCH <= slot < (slot / SLOTS_PER_EPOCH + 1) * SLOTS_PER_EPOCH,
        is_epoch_start_spec(slot) <==> (slot > 0 && (slot / SLOTS_PER_EPOCH) * SLOTS_PER_EPOCH == slot),
{
    assert((slot / SLOTS_PER_EPOCH) * SLOTS_PER_EPOCH <= slot < (slot / SLOTS_PER_EPOCH + 1) * SLOTS_PER_EPOCH) by (nonlinear_arith);
    assert(slot % SLOTS_PER_EPOCH == slot - (slot / SLOTS_PER_EPOCH) * SLOTS_PER_EPOCH) by (nonlinear_arith);
}

/// `slot` is an epoch boundary (spec form of `is_epoch_boundary`).
pub open spec fn is_epoch_start_spec(slot: u64) -> bool {
    slot > 0 && slot % SLOTS_PER_EPOCH == 0
}

/// Summary of one epoch.
#[derive(Debug, Clone)]
pub struct EpochInfo {
    pub epoch: u64,
    pub start_slot: u64,
    pub end_slot: u64,
    pub total_stake: u64,
    pub validator_count: usize,
}

impl EpochInfo {
    /// Epoch information for the epoch containing `slot`.
    pub fn for_slot(slot: u64, total_stake: u64, validator_count: usize) -> (r: EpochInfo)
        requires
            (slot / SLOTS_PER_EPOCH + 1) * SLOTS_PER_EPOCH <= u64::MAX,
        ensures
            r.epoch == slot / SLOTS_PER_EPOCH,
            r.start_slot == r.epoch * SLOTS_PER_EPOCH,
            r.end_slot == (r.epoch + 1) * SLOTS_PER_EPOCH - 1,
            r.total_stake == total_stake,
            r.validator_count == validator_count,
            r.start_slot <= slot <= r.end_slot,
    {
        let epoch = slot_to_epoch(slot);
        proof {
            lemma_slot_in_epoch(slot);
        }
        let start_slot = epoch_start_slot(epoch);
        let next = epoch_start_slot(epoch + 1);
        EpochInfo { epoch, start_slot, end_slot: next - 1, total_stake, validator_count }
    }
}

/// Bootstrap status of a validator.
#[derive(Debug, Clone, Copy, PartialEq, Eq, Structural)]
pub enum BootstrapStatus {
    /// Still repaying bootstrap debt.
    Bootstrapping,
    /// Debt repaid; may accept delegations.
    FullyVested,
}

} // verus!
