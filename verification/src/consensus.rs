//! Consensus: staking and rewards, BFT votes, leader selection, finality,
//! fork choice and slashing.

pub mod rewards;
pub mod staking;
pub mod validators;
pub mod votes;
pub mod aggregator;
pub mod finality;
pub mod slashing;
pub mod oracle;

pub use self::rewards::{
    founding_vesting_unlocked, decayed_reward, slot_to_epoch, epoch_start_slot,
    is_epoch_boundary, EpochInfo, BootstrapStatus, MIN_VALIDATOR_STAKE, BOOTSTRAP_GRANT_AMOUNT,
    TRANSACTION_BLOCK_REWARD, HEARTBEAT_BLOCK_REWARD, BLOCK_REWARD, ANNUAL_REWARD_RATE_BPS,
    SLOTS_PER_YEAR, ANNUAL_REWARD_DECAY_BPS, FOUNDING_CLIFF_SECONDS, FOUNDING_VEST_TOTAL_SECONDS,
    MAX_BOOTSTRAP_VALIDATORS, MAX_BOOTSTRAP_SLOTS, UPTIME_BONUS_THRESHOLD_BPS,
    PERFORMANCE_BONUS_BPS, MIGRATION_COOLDOWN_SLOTS, MAX_VALIDATOR_STAKE,
    UNSTAKE_COOLDOWN_SLOTS, SLOTS_PER_EPOCH,
};
