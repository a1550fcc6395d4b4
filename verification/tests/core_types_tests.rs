use moltchain_core::account::{Account, Pubkey};
use moltchain_core::genesis::{ConsensusParams, GenesisConfig};
use moltchain_core::hash;

#[test]
fn test_hash() {
    let data = b"The reef is ready!";
    let hash = hash::Hash::hash(data);
    println!("Hash: {}", hash.to_hex());
    assert_ne!(hash.0, [0u8; 32]);
}

#[test]
fn test_hex_roundtrip() {
    let original = hash::Hash::hash(b"MoltChain");
    let hex = original.to_hex();
    let parsed = hash::Hash::from_hex(&hex).unwrap();
    assert_eq!(original, parsed);
}

#[test]
fn test_molt_shells_conversion() {
    assert_eq!(Account::molt_to_shells(1), 1_000_000_000);
    assert_eq!(Account::molt_to_shells(100), 100_000_000_000);
    assert_eq!(Account::shells_to_molt(1_000_000_000), 1);
    assert_eq!(Account::shells_to_molt(100_000_000_000), 100);
}

#[test]
fn test_dual_address_format() {
    let pubkey = Pubkey([1u8; 32]);

    // Base58 format
    let base58 = pubkey.to_base58();
    assert!(!base58.is_empty());
    println!("Base58: {}", base58);

    // EVM format
    let evm = pubkey.to_evm();
    assert!(evm.starts_with("0x"));
    assert_eq!(evm.len(), 42); // 0x + 40 hex chars
    println!("EVM: {}", evm);
}

#[test]
fn test_base58_roundtrip() {
    let original = Pubkey([42u8; 32]);
    let base58 = original.to_base58();
    let parsed = Pubkey::from_base58(&base58).unwrap();
    assert_eq!(original, parsed);
}

#[test]
fn test_default_testnet_valid() {
    let genesis = GenesisConfig::default_testnet();
    assert!(genesis.validate().is_ok());
}

#[test]
fn test_total_supply() {
    let genesis = GenesisConfig::default_testnet();
    assert_eq!(genesis.total_supply_licn(), 0);
}

#[test]
fn test_genesis_distribution_sums_to_500m() {
    let accounts = GenesisConfig::generate_genesis_distribution(
        "11111111111111111111111111111111",
        "22222222222222222222222222222222",
        "33333333333333333333333333333333",
        "44444444444444444444444444444444",
        "55555555555555555555555555555555",
        "66666666666666666666666666666666",
    );
    let total: u64 = accounts.iter().map(|a| a.balance_licn).sum();
    assert_eq!(
        total, 500_000_000,
        "Genesis distribution must total 500M LICN"
    );
    assert_eq!(accounts.len(), 6);
    assert_eq!(accounts[0].balance_licn, 125_000_000); // 25%
    assert_eq!(accounts[1].balance_licn, 175_000_000); // 35%
    assert_eq!(accounts[2].balance_licn, 50_000_000); // 10%
    assert_eq!(accounts[3].balance_licn, 50_000_000); // 10%
    assert_eq!(accounts[4].balance_licn, 50_000_000); // 10%
    assert_eq!(accounts[5].balance_licn, 50_000_000); // 10%
}

#[test]
fn test_to_accounts() {
    let genesis = GenesisConfig::default_testnet();
    let accounts = genesis.to_accounts().unwrap();
    assert!(accounts.is_empty());
}

#[test]
fn test_validate_rejects_zero_consensus_timeout_base() {
    let mut genesis = GenesisConfig::default_testnet();
    genesis.consensus.propose_timeout_base_ms = 0;

    let error = genesis
        .validate()
        .expect_err("zero timeout bases must fail validation");
    assert!(error.contains("timeout bases"));
}

#[test]
fn test_validate_rejects_max_phase_timeout_below_base() {
    let mut genesis = GenesisConfig::default_testnet();
    genesis.consensus.max_phase_timeout_ms = genesis.consensus.precommit_timeout_base_ms - 1;

    let error = genesis
        .validate()
        .expect_err("max timeout below a base timeout must fail validation");
    assert!(error.contains("max phase timeout"));
}

#[test]
fn genesis_default_params_slashing_rates() {
    let p = ConsensusParams::default();
    assert_eq!(p.slashing_percentage_double_sign, 50);
    assert_eq!(p.slashing_percentage_double_vote, 30);
    assert_eq!(p.slashing_percentage_censorship, 25);
    assert_eq!(p.min_validator_stake, 75_000_000_000);
}

#[test]
fn test_default_genesis_time_is_current() {
    let before = chrono::Utc::now().timestamp();
    let testnet_time = GenesisConfig::default_testnet().genesis_time;
    let mainnet_time = GenesisConfig::default_mainnet().genesis_time;
    let after = chrono::Utc::now().timestamp();
    let t_ts = chrono::DateTime::parse_from_rfc3339(&testnet_time)
        .unwrap()
        .timestamp();
    let m_ts = chrono::DateTime::parse_from_rfc3339(&mainnet_time)
        .unwrap()
        .timestamp();
    assert!(
        t_ts >= before && t_ts <= after,
        "testnet genesis_time should be current"
    );
    assert!(
        m_ts >= before && m_ts <= after,
        "mainnet genesis_time should be current"
    );
}

#[test]
fn test_hash_from_hex_either_case() {
    let lower = "ab".repeat(32);
    let upper = "AB".repeat(32);
    assert_eq!(hash::Hash::from_hex(&lower).unwrap(), hash::Hash::from_hex(&upper).unwrap());
    assert_eq!(hash::Hash::from_hex(&upper).unwrap().0, [0xabu8; 32]);
    assert!(hash::Hash::from_hex("abc").is_err());
}
