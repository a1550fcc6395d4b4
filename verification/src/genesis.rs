//! Genesis configuration: consensus parameters, initial accounts and
//! validators, network settings and fee split, with their validation.
use vstd::prelude::*;
use crate::account::{Pubkey, Account, SHELLS_PER_MOLT, base58_key_error};
use crate::crypto::bs58_decode_spec;
use crate::consensus::validators::ValidatorInfo;
use crate::text::{decimal, u64_to_decimal};

verus! {

/// Default base propose timeout of a BFT round, in milliseconds.
pub const DEFAULT_BFT_PROPOSE_TIMEOUT_BASE_MS: u64 = 3000;
/// Default base prevote timeout of a BFT round, in milliseconds.
pub const DEFAULT_BFT_PREVOTE_TIMEOUT_BASE_MS: u64 = 1000;
/// Default base precommit timeout of a BFT round, in milliseconds.
pub const DEFAULT_BFT_PRECOMMIT_TIMEOUT_BASE_MS: u64 = 1000;
/// Default cap on any BFT phase timeout, in milliseconds.
pub const DEFAULT_BFT_MAX_PHASE_TIMEOUT_MS: u64 = 30000;

/// The current UTC time as `YYYY-MM-DDTHH:MM:SSZ`, from `chrono::Utc::now()`
/// formatted with `%Y-%m-%dT%H:%M:%SZ`. Nothing is stated of the text: it
/// depends on the clock.
#[verifier::external_body]
fn utc_now_rfc3339() -> String {
    chrono::Utc::now().format("%Y-%m-%dT%H:%M:%SZ").to_string()
}

/// Oracle prices frozen at genesis (8 decimals).
#[derive(Debug, Clone, Copy)]
pub struct GenesisPrices {
    pub licn_usd_8dec: u64,
    pub wsol_usd_8dec: u64,
    pub weth_usd_8dec: u64,
    pub wbnb_usd_8dec: u64,
}

impl Default for GenesisPrices {
    fn default() -> (r: GenesisPrices)
        ensures
            r == (GenesisPrices { licn_usd_8dec: 10_000_000, wsol_usd_8dec: 8_184_000_000,
                weth_usd_8dec: 199_934_000_000, wbnb_usd_8dec: 60_978_000_000 }),
    {
        GenesisPrices {
            licn_usd_8dec: 10_000_000,
            wsol_usd_8dec: 8_184_000_000,
            weth_usd_8dec: 199_934_000_000,
            wbnb_usd_8dec: 60_978_000_000,
        }
    }
}

/// Consensus parameters.
#[derive(Debug, Clone, Copy)]
pub struct ConsensusParams {
    pub slot_duration_ms: u64,
    pub propose_timeout_base_ms: u64,
    pub prevote_timeout_base_ms: u64,
    pub precommit_timeout_base_ms: u64,
    pub max_phase_timeout_ms: u64,
    pub epoch_slots: u64,
    pub min_validator_stake: u64,
    pub validator_reward_per_block: u64,
    pub slashing_percentage_double_sign: u64,
    pub slashing_downtime_per_100_missed: u64,
    pub slashing_downtime_max_percent: u64,
    pub slashing_percentage_invalid_state: u64,
    pub slashing_percentage_double_vote: u64,
    pub slashing_percentage_censorship: u64,
    pub finality_threshold_percent: u64,
}

/// The consensus parameters of a network whose minimum stake is `min_stake`.
pub open spec fn params_with_min_stake(min_stake: u64) -> ConsensusParams {
    ConsensusParams {
        slot_duration_ms: 400,
        propose_timeout_base_ms: DEFAULT_BFT_PROPOSE_TIMEOUT_BASE_MS,
        prevote_timeout_base_ms: DEFAULT_BFT_PREVOTE_TIMEOUT_BASE_MS,
        precommit_timeout_base_ms: DEFAULT_BFT_PRECOMMIT_TIMEOUT_BASE_MS,
        max_phase_timeout_ms: DEFAULT_BFT_MAX_PHASE_TIMEOUT_MS,
        epoch_slots: 432000,
        min_validator_stake: min_stake,
        validator_reward_per_block: 20_000_000,
        slashing_percentage_double_sign: 50,
        slashing_downtime_per_100_missed: 1,
        slashing_downtime_max_percent: 10,
        slashing_percentage_invalid_state: 100,
        slashing_percentage_double_vote: 30,
        slashing_percentage_censorship: 25,
        finality_threshold_percent: 66,
    }
}

fn make_params(min_stake: u64) -> (r: ConsensusParams)
    ensures
        r == params_with_min_stake(min_stake),
{
    ConsensusParams {
        slot_duration_ms: 400,
        propose_timeout_base_ms: DEFAULT_BFT_PROPOSE_TIMEOUT_BASE_MS,
        prevote_timeout_base_ms: DEFAULT_BFT_PREVOTE_TIMEOUT_BASE_MS,
        precommit_timeout_base_ms: DEFAULT_BFT_PRECOMMIT_TIMEOUT_BASE_MS,
        max_phase_timeout_ms: DEFAULT_BFT_MAX_PHASE_TIMEOUT_MS,
        epoch_slots: 432000,
        min_validator_stake: min_stake,
        validator_reward_per_block: 20_000_000,
        slashing_percentage_double_sign: 50,
        slashing_downtime_per_100_missed: 1,
        slashing_downtime_max_percent: 10,
        slashing_percentage_invalid_state: 100,
        slashing_percentage_double_vote: 30,
        slashing_percentage_censorship: 25,
        finality_threshold_percent: 66,
    }
}

/// Minimum stake of the test network (and of the default parameters), in shells.
pub const TESTNET_MIN_VALIDATOR_STAKE: u64 = 75_000_000_000;
/// Minimum stake of the main network, in shells.
pub const MAINNET_MIN_VALIDATOR_STAKE: u64 = 75_000_000_000_000;

impl Default for ConsensusParams {
    /// Test-network scale parameters.
    fn default() -> (r: ConsensusParams)
        ensures
            r == params_with_min_stake(TESTNET_MIN_VALIDATOR_STAKE),
    {
        make_params(TESTNET_MIN_VALIDATOR_STAKE)
    }
}

/// An initial account balance.
#[derive(Debug, Clone)]
pub struct GenesisAccount {
    /// Base58 address.
    pub address: String,
    /// Balance in whole tokens.
    pub balance_licn: u64,
    pub comment: Option<String>,
}

/// An initial validator.
#[derive(Debug, Clone)]
pub struct GenesisValidator {
    /// Base58 public key.
    pub pubkey: String,
    /// Stake in whole tokens.
    pub stake_licn: u64,
    pub reputation: u64,
    pub comment: Option<String>,
}

/// Network configuration.
#[derive(Debug, Clone)]
pub struct NetworkConfig {
    pub p2p_port: u16,
    pub rpc_port: u16,
    pub seed_nodes: Vec<String>,
}

/// Feature flags and the fee split (percentages).
#[derive(Debug, Clone, Copy)]
pub struct FeatureFlags {
    pub fee_burn_percentage: u64,
    pub fee_producer_percentage: u64,
    pub fee_voters_percentage: u64,
    pub fee_treasury_percentage: u64,
    pub fee_community_percentage: u64,
    pub base_fee_spores: u64,
    pub rent_rate_spores_per_kb_month: u64,
    pub rent_free_kb: u64,
    pub enable_smart_contracts: bool,
    pub enable_staking: bool,
    pub enable_slashing: bool,
}

/// The fee split and flags of the default networks.
pub open spec fn default_features() -> FeatureFlags {
    FeatureFlags {
        fee_burn_percentage: 40,
        fee_producer_percentage: 30,
        fee_voters_percentage: 10,
        fee_treasury_percentage: 10,
        fee_community_percentage: 10,
        base_fee_spores: 1_000_000,
        rent_rate_spores_per_kb_month: 10_000,
        rent_free_kb: 1,
        enable_smart_contracts: true,
        enable_staking: true,
        enable_slashing: true,
    }
}

fn make_features() -> (r: FeatureFlags)
    ensures
        r == default_features(),
{
    FeatureFlags {
        fee_burn_percentage: 40,
        fee_producer_percentage: 30,
        fee_voters_percentage: 10,
        fee_treasury_percentage: 10,
        fee_community_percentage: 10,
        base_fee_spores: 1_000_000,
        rent_rate_spores_per_kb_month: 10_000,
        rent_free_kb: 1,
        enable_smart_contracts: true,
        enable_staking: true,
        enable_slashing: true,
    }
}

/// Complete genesis configuration.
#[derive(Debug, Clone)]
pub struct GenesisConfig {
    pub chain_id: String,
    /// Genesis time, ISO 8601.
    pub genesis_time: String,
    pub consensus: ConsensusParams,
    pub initial_accounts: Vec<GenesisAccount>,
    pub initial_validators: Vec<GenesisValidator>,
    pub network: NetworkConfig,
    pub features: FeatureFlags,
    pub genesis_prices: GenesisPrices,
}

/// Whether `s` is a Base58 text of a 32-byte key.
pub open spec fn base58_key_ok(s: Seq<char>) -> bool {
    bs58_decode_spec(s) is Some && bs58_decode_spec(s).unwrap().len() == 32
}

/// The message for the first bad account from index `i` on, if any.
pub open spec fn account_error_from(s: Seq<GenesisAccount>, i: int) -> Option<Seq<char>>
    decreases s.len() - i,
{
    if i < 0 || i >= s.len() {
        None
    } else if s[i].balance_licn == 0 {
        Some("Account "@ + s[i].address@ + " has zero balance"@)
    } else if !base58_key_ok(s[i].address@) {
        Some("Invalid address format: "@ + s[i].address@)
    } else {
        account_error_from(s, i + 1)
    }
}

/// The message for the first bad validator from index `i` on, if any.
pub open spec fn validator_error_from(s: Seq<GenesisValidator>, min_stake: u64, i: int) -> Option<Seq<char>>
    decreases s.len() - i,
{
    if i < 0 || i >= s.len() {
        None
    } else if s[i].stake_licn < min_stake / SHELLS_PER_MOLT {
        Some("Validator "@ + s[i].pubkey@ + " stake below minimum"@)
    } else if !base58_key_ok(s[i].pubkey@) {
        Some("Invalid validator pubkey: "@ + s[i].pubkey@)
    } else {
        validator_error_from(s, min_stake, i + 1)
    }
}

/// The largest of the three timeout bases.
pub open spec fn max_timeout_base(c: ConsensusParams) -> u64 {
    let a = if c.propose_timeout_base_ms >= c.prevote_timeout_base_ms { c.propose_timeout_base_ms } else { c.prevote_timeout_base_ms };
    if a >= c.precommit_timeout_base_ms { a } else { c.precommit_timeout_base_ms }
}

/// The message for a fee split `f` that does not sum to 100.
pub open spec fn fee_split_text(f: FeatureFlags) -> Seq<char> {
    "Fee percentages must sum to exactly 100% (got "@
        + decimal((f.fee_burn_percentage + f.fee_producer_percentage + f.fee_voters_percentage
            + f.fee_treasury_percentage + f.fee_community_percentage) as nat)
        + "%: burn "@ + decimal(f.fee_burn_percentage as nat)
        + "% + producer "@ + decimal(f.fee_producer_percentage as nat)
        + "% + voters "@ + decimal(f.fee_voters_percentage as nat)
        + "% + treasury "@ + decimal(f.fee_treasury_percentage as nat)
        + "% + community "@ + decimal(f.fee_community_percentage as nat) + "%)"@
}

/// Why a configuration is invalid, checked in order: the message of the
/// first check that fails (the inner value), or no failure at all (None).
pub open spec fn genesis_failure(g: GenesisConfig) -> Option<Option<Seq<char>>> {
    let c = g.consensus;
    let f = g.features;
    if g.chain_id@.len() == 0 {
        Some(Some("Chain ID cannot be empty"@))
    } else if c.slot_duration_ms == 0 {
        Some(Some("Slot duration must be greater than 0"@))
    } else if c.propose_timeout_base_ms == 0 || c.prevote_timeout_base_ms == 0 || c.precommit_timeout_base_ms == 0 {
        Some(Some("Consensus timeout bases must be greater than 0"@))
    } else if c.max_phase_timeout_ms == 0 {
        Some(Some("Consensus max phase timeout must be greater than 0"@))
    } else if c.max_phase_timeout_ms < max_timeout_base(c) {
        Some(Some("Consensus max phase timeout must be at least as large as every timeout base"@))
    } else if c.epoch_slots == 0 {
        Some(Some("Epoch slots must be greater than 0"@))
    } else if c.finality_threshold_percent > 100 {
        Some(Some("Finality threshold cannot exceed 100%"@))
    } else if account_error_from(g.initial_accounts@, 0) is Some {
        Some(account_error_from(g.initial_accounts@, 0))
    } else if validator_error_from(g.initial_validators@, c.min_validator_stake, 0) is Some {
        Some(validator_error_from(g.initial_validators@, c.min_validator_stake, 0))
    } else if f.fee_burn_percentage > 100 {
        Some(Some("Fee burn percentage cannot exceed 100%"@))
    } else if f.fee_producer_percentage > 100 {
        Some(Some("Fee producer percentage cannot exceed 100%"@))
    } else if f.fee_voters_percentage > 100 {
        Some(Some("Fee voters percentage cannot exceed 100%"@))
    } else if f.fee_treasury_percentage > 100 {
        Some(Some("Fee treasury percentage cannot exceed 100%"@))
    } else if f.fee_community_percentage > 100 {
        Some(Some("Fee community percentage cannot exceed 100%"@))
    } else if f.fee_burn_percentage + f.fee_producer_percentage + f.fee_voters_percentage
        + f.fee_treasury_percentage + f.fee_community_percentage != 100 {
        Some(Some(fee_split_text(f)))
    } else {
        None
    }
}

/// Sum of the initial balances.
pub open spec fn balance_sum(s: Seq<GenesisAccount>) -> nat
    decreases s.len(),
{
    if s.len() == 0 { 0 } else { balance_sum(s.drop_last()) + s.last().balance_licn as nat }
}

/// `a` is the account that `Account::new(molt, owner)` makes.
pub open spec fn is_fresh_account(a: Account, molt: u64, owner: Pubkey) -> bool {
    &&& a.shells == (if molt * SHELLS_PER_MOLT > u64::MAX { u64::MAX as int } else { molt * SHELLS_PER_MOLT })
    &&& a.spendable == a.shells
    &&& a.staked == 0
    &&& a.locked == 0
    &&& a.data@.len() == 0
    &&& a.owner == owner
    &&& !a.executable
    &&& a.rent_epoch == 0
    &&& !a.dormant
    &&& a.missed_rent_epochs == 0
}

/// The runtime validator of a genesis validator with key `pk`.
pub open spec fn genesis_validator_info(g: GenesisValidator, pk: Pubkey) -> ValidatorInfo {
    ValidatorInfo {
        pubkey: pk,
        reputation: g.reputation,
        blocks_proposed: 0,
        votes_cast: 0,
        correct_votes: 0,
        stake: (if g.stake_licn * SHELLS_PER_MOLT > u64::MAX { u64::MAX as int } else { g.stake_licn * SHELLS_PER_MOLT }) as u64,
        joined_slot: 0,
        last_active_slot: 0,
        commission_rate: 500,
        transactions_processed: 0,
        pending_activation: false,
    }
}

fn concat3(a: &str, b: &str, c: &str) -> (r: String)
    ensures
        r@ == a@ + b@ + c@,
{
    let mut m = String::from_str(a);
    m.append(b);
    m.append(c);
    m
}

fn account_error(s: &Vec<GenesisAccount>) -> (r: Option<String>)
    ensures
        r is Some <==> account_error_from(s@, 0) is Some,
        r matches Some(m) ==> m@ == account_error_from(s@, 0).unwrap(),
{
    let mut i: usize = 0;
    while i < s.len()
        invariant
            i <= s@.len(),
            account_error_from(s@, 0) == account_error_from(s@, i as int),
        decreases s@.len() - i,
    {
        let a = &s[i];
        if a.balance_licn == 0 {
            proof {
                reveal_strlit("Account ");
                reveal_strlit(" has zero balance");
            }
            return Some(concat3("Account ", a.address.as_str(), " has zero balance"));
        }
        if Pubkey::from_base58(a.address.as_str()).is_err() {
            let mut m = String::from_str("Invalid address format: ");
            m.append(a.address.as_str());
            proof {
                reveal_strlit("Invalid address format: ");
            }
            return Some(m);
        }
        i += 1;
    }
    None
}

fn validator_error(s: &Vec<GenesisValidator>, min_stake: u64) -> (r: Option<String>)
    ensures
        r is Some <==> validator_error_from(s@, min_stake, 0) is Some,
        r matches Some(m) ==> m@ == validator_error_from(s@, min_stake, 0).unwrap(),
{
    let mut i: usize = 0;
    while i < s.len()
        invariant
            i <= s@.len(),
            validator_error_from(s@, min_stake, 0) == validator_error_from(s@, min_stake, i as int),
        decreases s@.len() - i,
    {
        let v = &s[i];
        if v.stake_licn < min_stake / SHELLS_PER_MOLT {
            proof {
                reveal_strlit("Validator ");
                reveal_strlit(" stake below minimum");
            }
            return Some(concat3("Validator ", v.pubkey.as_str(), " stake below minimum"));
        }
        if Pubkey::from_base58(v.pubkey.as_str()).is_err() {
            let mut m = String::from_str("Invalid validator pubkey: ");
            m.append(v.pubkey.as_str());
            proof {
                reveal_strlit("Invalid validator pubkey: ");
            }
            return Some(m);
        }
        i += 1;
    }
    None
}

fn err_msg(s: &str) -> (r: Result<(), String>)
    ensures
        r matches Err(m) && m@ == s@,
{
    Err(String::from_str(s))
}

impl GenesisConfig {
    /// Checks the configuration; the first failing check gives the error.
    pub fn validate(&self) -> (r: Result<(), String>)
        ensures
            r is Ok <==> genesis_failure(*self) is None,
            r matches Err(m) ==> (genesis_failure(*self) matches Some(Some(msg)) && m@ == msg),
    {
        let c = &self.consensus;
        let f = &self.features;
        proof {
            reveal_strlit("Chain ID cannot be empty");
            reveal_strlit("Slot duration must be greater than 0");
            reveal_strlit("Consensus timeout bases must be greater than 0");
            reveal_strlit("Consensus max phase timeout must be greater than 0");
            reveal_strlit("Consensus max phase timeout must be at least as large as every timeout base");
            reveal_strlit("Epoch slots must be greater than 0");
            reveal_strlit("Finality threshold cannot exceed 100%");
            reveal_strlit("Fee burn percentage cannot exceed 100%");
            reveal_strlit("Fee producer percentage cannot exceed 100%");
            reveal_strlit("Fee voters percentage cannot exceed 100%");
            reveal_strlit("Fee treasury percentage cannot exceed 100%");
            reveal_strlit("Fee community percentage cannot exceed 100%");
        }
        if self.chain_id.as_str().is_empty() {
            return err_msg("Chain ID cannot be empty");
        }
        if c.slot_duration_ms == 0 {
            return err_msg("Slot duration must be greater than 0");
        }
        if c.propose_timeout_base_ms == 0 || c.prevote_timeout_base_ms == 0 || c.precommit_timeout_base_ms == 0 {
            return err_msg("Consensus timeout bases must be greater than 0");
        }
        if c.max_phase_timeout_ms == 0 {
            return err_msg("Consensus max phase timeout must be greater than 0");
        }
        let a = if c.propose_timeout_base_ms >= c.prevote_timeout_base_ms { c.propose_timeout_base_ms } else { c.prevote_timeout_base_ms };
        let max_base = if a >= c.precommit_timeout_base_ms { a } else { c.precommit_timeout_base_ms };
        if c.max_phase_timeout_ms < max_base {
            return err_msg("Consensus max phase timeout must be at least as large as every timeout base");
        }
        if c.epoch_slots == 0 {
            return err_msg("Epoch slots must be greater than 0");
        }
        if c.finality_threshold_percent > 100 {
            return err_msg("Finality threshold cannot exceed 100%");
        }
        match account_error(&self.initial_accounts) {
            Some(m) => return Err(m),
            None => {},
        }
        match validator_error(&self.initial_validators, c.min_validator_stake) {
            Some(m) => return Err(m),
            None => {},
        }
        if f.fee_burn_percentage > 100 {
            return err_msg("Fee burn percentage cannot exceed 100%");
        }
        if f.fee_producer_percentage > 100 {
            return err_msg("Fee producer percentage cannot exceed 100%");
        }
        if f.fee_voters_percentage > 100 {
            return err_msg("Fee voters percentage cannot exceed 100%");
        }
        if f.fee_treasury_percentage > 100 {
            return err_msg("Fee treasury percentage cannot exceed 100%");
        }
        if f.fee_community_percentage > 100 {
            return err_msg("Fee community percentage cannot exceed 100%");
        }
        let total = f.fee_burn_percentage + f.fee_producer_percentage + f.fee_voters_percentage
            + f.fee_treasury_percentage + f.fee_community_percentage;
        if total != 100 {
            let mut m = String::from_str("Fee percentages must sum to exactly 100% (got ");
            m.append(u64_to_decimal(total).as_str());
            m.append("%: burn ");
            m.append(u64_to_decimal(f.fee_burn_percentage).as_str());
            m.append("% + producer ");
            m.append(u64_to_decimal(f.fee_producer_percentage).as_str());
            m.append("% + voters ");
            m.append(u64_to_decimal(f.fee_voters_percentage).as_str());
            m.append("% + treasury ");
            m.append(u64_to_decimal(f.fee_treasury_percentage).as_str());
            m.append("% + community ");
            m.append(u64_to_decimal(f.fee_community_percentage).as_str());
            m.append("%)");
            return Err(m);
        }
        Ok(())
    }

    /// The runtime accounts; fails on the first address that is not a Base58 key.
    pub fn to_accounts(&self) -> (r: Result<Vec<(Pubkey, Account)>, String>)
        ensures
            r is Ok <==> forall|i: int| 0 <= i < self.initial_accounts@.len()
                ==> #[trigger] base58_key_ok(self.initial_accounts@[i].address@),
            r matches Err(e) ==> exists|i: int| 0 <= i < self.initial_accounts@.len()
                && !base58_key_ok(#[trigger] self.initial_accounts@[i].address@)
                && (forall|j: int| 0 <= j < i ==> base58_key_ok(#[trigger] self.initial_accounts@[j].address@))
                && base58_key_error(self.initial_accounts@[i].address@, e@),
            r matches Ok(v) ==> v@.len() == self.initial_accounts@.len()
                && forall|i: int| 0 <= i < v@.len() ==> {
                    &&& (#[trigger] v@[i]).0.0@ == bs58_decode_spec(self.initial_accounts@[i].address@).unwrap()
                    &&& is_fresh_account(v@[i].1, self.initial_accounts@[i].balance_licn, v@[i].0)
                },
    {
        let mut out: Vec<(Pubkey, Account)> = Vec::new();
        let mut i: usize = 0;
        while i < self.initial_accounts.len()
            invariant
                i <= self.initial_accounts@.len(),
                out@.len() == i,
                forall|j: int| 0 <= j < i ==> #[trigger] base58_key_ok(self.initial_accounts@[j].address@),
                forall|j: int| 0 <= j < i ==> {
                    &&& (#[trigger] out@[j]).0.0@ == bs58_decode_spec(self.initial_accounts@[j].address@).unwrap()
                    &&& is_fresh_account(out@[j].1, self.initial_accounts@[j].balance_licn, out@[j].0)
                },
            decreases self.initial_accounts@.len() - i,
        {
            let ga = &self.initial_accounts[i];
            let pk = match Pubkey::from_base58(ga.address.as_str()) {
                Ok(p) => p,
                Err(e) => {
                    assert(!base58_key_ok(self.initial_accounts@[i as int].address@));
                    return Err(e);
                },
            };
            let acct = Account::new(ga.balance_licn, pk);
            out.push((pk, acct));
            i += 1;
        }
        Ok(out)
    }

    /// The runtime validators; fails on the first key that is not Base58.
    pub fn to_validators(&self) -> (r: Result<Vec<ValidatorInfo>, String>)
        ensures
            r is Ok <==> forall|i: int| 0 <= i < self.initial_validators@.len()
                ==> #[trigger] base58_key_ok(self.initial_validators@[i].pubkey@),
            r matches Err(e) ==> exists|i: int| 0 <= i < self.initial_validators@.len()
                && !base58_key_ok(#[trigger] self.initial_validators@[i].pubkey@)
                && (forall|j: int| 0 <= j < i ==> base58_key_ok(#[trigger] self.initial_validators@[j].pubkey@))
                && base58_key_error(self.initial_validators@[i].pubkey@, e@),
            r matches Ok(v) ==> v@.len() == self.initial_validators@.len()
                && forall|i: int| 0 <= i < v@.len() ==> {
                    &&& (#[trigger] v@[i]).pubkey.0@ == bs58_decode_spec(self.initial_validators@[i].pubkey@).unwrap()
                    &&& v@[i] == genesis_validator_info(self.initial_validators@[i], v@[i].pubkey)
                },
    {
        let mut out: Vec<ValidatorInfo> = Vec::new();
        let mut i: usize = 0;
        while i < self.initial_validators.len()
            invariant
                i <= self.initial_validators@.len(),
                out@.len() == i,
                forall|j: int| 0 <= j < i ==> #[trigger] base58_key_ok(self.initial_validators@[j].pubkey@),
                forall|j: int| 0 <= j < i ==> {
                    &&& (#[trigger] out@[j]).pubkey.0@ == bs58_decode_spec(self.initial_validators@[j].pubkey@).unwrap()
                    &&& out@[j] == genesis_validator_info(self.initial_validators@[j], out@[j].pubkey)
                },
            decreases self.initial_validators@.len() - i,
        {
            let gv = &self.initial_validators[i];
            let pk = match Pubkey::from_base58(gv.pubkey.as_str()) {
                Ok(p) => p,
                Err(e) => {
                    assert(!base58_key_ok(self.initial_validators@[i as int].pubkey@));
                    return Err(e);
                },
            };
            let v = ValidatorInfo {
                pubkey: pk,
                reputation: gv.reputation,
                blocks_proposed: 0,
                votes_cast: 0,
                correct_votes: 0,
                stake: Account::molt_to_shells(gv.stake_licn),
                joined_slot: 0,
                last_active_slot: 0,
                commission_rate: 500,
                transactions_processed: 0,
                pending_activation: false,
            };
            out.push(v);
            i += 1;
        }
        Ok(out)
    }

    /// Sum of the initial balances.
    pub fn total_supply_licn(&self) -> (r: u64)
        requires
            balance_sum(self.initial_accounts@) <= u64::MAX,
        ensures
            r == balance_sum(self.initial_accounts@),
    {
        let s = &self.initial_accounts;
        let mut total: u64 = 0;
        let mut i: usize = 0;
        while i < s.len()
            invariant
                i <= s@.len(),
                s == &self.initial_accounts,
                total == balance_sum(s@.subrange(0, i as int)),
                balance_sum(s@) <= u64::MAX,
            decreases s@.len() - i,
        {
            proof {
                assert(s@.subrange(0, i + 1).drop_last() =~= s@.subrange(0, i as int));
                lemma_balance_sum_prefix(s@, i + 1);
            }
            total = total + s[i].balance_licn;
            i += 1;
        }
        proof {
            assert(s@.subrange(0, s@.len() as int) =~= s@);
        }
        total
    }

    /// The six-way genesis distribution (500M in all): community 125M,
    /// builders 175M, and 50M each to validator rewards, founding members,
    /// partnerships and the reserve.
    pub fn generate_genesis_distribution(
        community_treasury: &str,
        builder_grants: &str,
        validator_rewards: &str,
        founding_symbionts: &str,
        ecosystem_partnerships: &str,
        reserve_pool: &str,
    ) -> (r: Vec<GenesisAccount>)
        ensures
            r@.len() == 6,
            r@[0].address@ == community_treasury@ && r@[0].balance_licn == 125_000_000,
            r@[1].address@ == builder_grants@ && r@[1].balance_licn == 175_000_000,
            r@[2].address@ == validator_rewards@ && r@[2].balance_licn == 50_000_000,
            r@[3].address@ == founding_symbionts@ && r@[3].balance_licn == 50_000_000,
            r@[4].address@ == ecosystem_partnerships@ && r@[4].balance_licn == 50_000_000,
            r@[5].address@ == reserve_pool@ && r@[5].balance_licn == 50_000_000,
            balance_sum(r@) == 500_000_000,
    {
        let mut v: Vec<GenesisAccount> = Vec::new();
        v.push(GenesisAccount {
            address: String::from_str(community_treasury),
            balance_licn: 125_000_000,
            comment: Some(String::from_str("Community Treasury (25%)")),
        });
        v.push(GenesisAccount {
            address: String::from_str(builder_grants),
            balance_licn: 175_000_000,
            comment: Some(String::from_str("Builder Grants (35%)")),
        });
        v.push(GenesisAccount {
            address: String::from_str(validator_rewards),
            balance_licn: 50_000_000,
            comment: Some(String::from_str("Validator Rewards Pool (10%)")),
        });
        v.push(GenesisAccount {
            address: String::from_str(founding_symbionts),
            balance_licn: 50_000_000,
            comment: Some(String::from_str("Founding Symbionts (10%)")),
        });
        v.push(GenesisAccount {
            address: String::from_str(ecosystem_partnerships),
            balance_licn: 50_000_000,
            comment: Some(String::from_str("Ecosystem Partnerships (10%)")),
        });
        v.push(GenesisAccount {
            address: String::from_str(reserve_pool),
            balance_licn: 50_000_000,
            comment: Some(String::from_str("Reserve Pool (10%)")),
        });
        proof {
            let s = v@;
            assert(s.drop_last().drop_last().drop_last().drop_last().drop_last().drop_last().len() == 0);
            reveal_with_fuel(balance_sum, 7);
        }
        v
    }

    fn with_params(chain_id: &str, params: ConsensusParams, seed_nodes: Vec<String>) -> (r: GenesisConfig)
        ensures
            r.chain_id@ == chain_id@,
            r.consensus == params,
            r.initial_accounts@.len() == 0,
            r.initial_validators@.len() == 0,
            r.network.p2p_port == 7001,
            r.network.rpc_port == 8899,
            r.network.seed_nodes@ == seed_nodes@,
            r.features == default_features(),
    {
        GenesisConfig {
            chain_id: String::from_str(chain_id),
            genesis_time: utc_now_rfc3339(),
            consensus: params,
            initial_accounts: Vec::new(),
            initial_validators: Vec::new(),
            network: NetworkConfig { p2p_port: 7001, rpc_port: 8899, seed_nodes },
            features: make_features(),
            genesis_prices: GenesisPrices::default(),
        }
    }

    /// The test-network genesis: no accounts or validators, 75-token minimum
    /// stake, one local seed node, genesis time now.
    pub fn default_testnet() -> (r: GenesisConfig)
        ensures
            r.chain_id@ == "lichen-testnet-1"@,
            r.consensus == params_with_min_stake(TESTNET_MIN_VALIDATOR_STAKE),
            r.initial_accounts@.len() == 0,
            r.initial_validators@.len() == 0,
            r.network.seed_nodes@.len() == 1,
            r.network.seed_nodes@[0]@ == "127.0.0.1:7001"@,
            r.features == default_features(),
            genesis_failure(r) is None,
    {
        let mut seeds: Vec<String> = Vec::new();
        seeds.push(String::from_str("127.0.0.1:7001"));
        let r = Self::with_params("lichen-testnet-1", make_params(TESTNET_MIN_VALIDATOR_STAKE), seeds);
        proof {
            reveal_strlit("lichen-testnet-1");
            assert(account_error_from(r.initial_accounts@, 0) is None);
            assert(validator_error_from(r.initial_validators@, r.consensus.min_validator_stake, 0) is None);
        }
        r
    }

    /// The main-network genesis: no accounts or validators, 75,000-token
    /// minimum stake, no seed nodes, genesis time now.
    pub fn default_mainnet() -> (r: GenesisConfig)
        ensures
            r.chain_id@ == "lichen-mainnet-1"@,
            r.consensus == params_with_min_stake(MAINNET_MIN_VALIDATOR_STAKE),
            r.initial_accounts@.len() == 0,
            r.initial_validators@.len() == 0,
            r.network.seed_nodes@.len() == 0,
            r.features == default_features(),
            genesis_failure(r) is None,
    {
        let r = Self::with_params("lichen-mainnet-1", make_params(MAINNET_MIN_VALIDATOR_STAKE), Vec::new());
        proof {
            reveal_strlit("lichen-mainnet-1");
            assert(account_error_from(r.initial_accounts@, 0) is None);
            assert(validator_error_from(r.initial_validators@, r.consensus.min_validator_stake, 0) is None);
        }
        r
    }
}

proof fn lemma_balance_sum_prefix(s: Seq<GenesisAccount>, i: int)
    requires
        0 <= i <= s.len(),
    ensures
        balance_sum(s.subrange(0, i)) <= balance_sum(s),
    decreases s.len() - i,
{
    if i < s.len() {
        lemma_balance_sum_prefix(s, i + 1);
        assert(s.subrange(0, i + 1).drop_last() =~= s.subrange(0, i));
    } else {
        assert(s.subrange(0, i) =~= s);
    }
}

} // verus!
