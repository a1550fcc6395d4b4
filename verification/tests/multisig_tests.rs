use moltchain_core::account::Pubkey;
use moltchain_core::multisig::{
    assemble_genesis_wallet, bridge_committee_admin_config_for_roles,
    derive_bridge_committee_admin_authority, derive_oracle_committee_admin_authority,
    derive_treasury_executor_authority, derive_upgrade_proposer_authority,
    derive_upgrade_veto_guardian_authority, genesis_threshold, governed_wallet_config_for_role,
    incident_guardian_config_for_roles, oracle_committee_admin_config_for_roles,
    treasury_executor_config_for_roles, upgrade_proposer_config_for_roles,
    upgrade_veto_guardian_config_for_roles, GovernedTransferVelocityPolicy,
    GovernedTransferVelocityTier, MultiSigConfig, BRIDGE_COMMITTEE_ADMIN_LABEL,
    ORACLE_COMMITTEE_ADMIN_LABEL, TREASURY_EXECUTOR_LABEL, UPGRADE_PROPOSER_LABEL,
    UPGRADE_VETO_GUARDIAN_LABEL,
};

#[test]
fn test_bridge_committee_admin_config_uses_split_role_roots() {
    let governance_authority = Pubkey([0x77; 32]);
    let role_pubkeys = vec![
        ("validator_rewards".to_string(), Pubkey([1; 32])),
        ("reserve_pool".to_string(), Pubkey([2; 32])),
        ("founding_symbionts".to_string(), Pubkey([3; 32])),
    ];

    let (authority, config) =
        bridge_committee_admin_config_for_roles(&role_pubkeys, &governance_authority)
            .expect("bridge committee config");

    assert_eq!(
        authority,
        derive_bridge_committee_admin_authority(&governance_authority)
    );
    assert_eq!(config.label, BRIDGE_COMMITTEE_ADMIN_LABEL);
    assert_eq!(config.threshold, 2);
    assert_eq!(
        config.signers,
        vec![Pubkey([1; 32]), Pubkey([2; 32]), Pubkey([3; 32])]
    );
    assert_eq!(config.timelock_epochs, 1);
}

#[test]
fn test_oracle_committee_admin_config_uses_split_role_roots() {
    let governance_authority = Pubkey([0x88; 32]);
    let role_pubkeys = vec![
        ("validator_rewards".to_string(), Pubkey([4; 32])),
        ("ecosystem_partnerships".to_string(), Pubkey([5; 32])),
        ("builder_grants".to_string(), Pubkey([6; 32])),
    ];

    let (authority, config) =
        oracle_committee_admin_config_for_roles(&role_pubkeys, &governance_authority)
            .expect("oracle committee config");

    assert_eq!(
        authority,
        derive_oracle_committee_admin_authority(&governance_authority)
    );
    assert_eq!(config.label, ORACLE_COMMITTEE_ADMIN_LABEL);
    assert_eq!(config.threshold, 2);
    assert_eq!(
        config.signers,
        vec![Pubkey([4; 32]), Pubkey([5; 32]), Pubkey([6; 32])]
    );
    assert_eq!(config.timelock_epochs, 1);
}

#[test]
fn test_treasury_executor_config_uses_split_role_roots() {
    let governance_authority = Pubkey([0x8B; 32]);
    let role_pubkeys = vec![
        ("community_treasury".to_string(), Pubkey([13; 32])),
        ("ecosystem_partnerships".to_string(), Pubkey([14; 32])),
        ("reserve_pool".to_string(), Pubkey([15; 32])),
    ];

    let (authority, config) =
        treasury_executor_config_for_roles(&role_pubkeys, &governance_authority)
            .expect("treasury executor config");

    assert_eq!(
        authority,
        derive_treasury_executor_authority(&governance_authority)
    );
    assert_eq!(config.label, TREASURY_EXECUTOR_LABEL);
    assert_eq!(config.threshold, 2);
    assert_eq!(
        config.signers,
        vec![Pubkey([13; 32]), Pubkey([14; 32]), Pubkey([15; 32])]
    );
    assert_eq!(config.timelock_epochs, 1);
}

#[test]
fn test_upgrade_proposer_config_uses_split_role_roots() {
    let governance_authority = Pubkey([0x89; 32]);
    let role_pubkeys = vec![
        ("community_treasury".to_string(), Pubkey([7; 32])),
        ("founding_symbionts".to_string(), Pubkey([8; 32])),
        ("builder_grants".to_string(), Pubkey([9; 32])),
    ];

    let (authority, config) =
        upgrade_proposer_config_for_roles(&role_pubkeys, &governance_authority)
            .expect("upgrade proposer config");

    assert_eq!(
        authority,
        derive_upgrade_proposer_authority(&governance_authority)
    );
    assert_eq!(config.label, UPGRADE_PROPOSER_LABEL);
    assert_eq!(config.threshold, 2);
    assert_eq!(
        config.signers,
        vec![Pubkey([7; 32]), Pubkey([8; 32]), Pubkey([9; 32])]
    );
    assert_eq!(config.timelock_epochs, 1);
}

#[test]
fn test_upgrade_veto_guardian_config_uses_split_role_roots() {
    let governance_authority = Pubkey([0x8A; 32]);
    let role_pubkeys = vec![
        ("validator_rewards".to_string(), Pubkey([10; 32])),
        ("reserve_pool".to_string(), Pubkey([11; 32])),
        ("ecosystem_partnerships".to_string(), Pubkey([12; 32])),
    ];

    let (authority, config) =
        upgrade_veto_guardian_config_for_roles(&role_pubkeys, &governance_authority)
            .expect("upgrade veto guardian config");

    assert_eq!(
        authority,
        derive_upgrade_veto_guardian_authority(&governance_authority)
    );
    assert_eq!(config.label, UPGRADE_VETO_GUARDIAN_LABEL);
    assert_eq!(config.threshold, 2);
    assert_eq!(
        config.signers,
        vec![Pubkey([10; 32]), Pubkey([11; 32]), Pubkey([12; 32])]
    );
    assert_eq!(config.timelock_epochs, 0);
}

#[test]
fn test_multisig_verification() {
    let pubkeys: Vec<Pubkey> = (1u8..=5).map(|i| Pubkey([i; 32])).collect();

    let multisig = MultiSigConfig::genesis_treasury(3, pubkeys.clone());

    assert!(multisig.verify_threshold(&pubkeys[0..3]));
    assert!(multisig.verify_threshold(&pubkeys[0..5]));
    assert!(!multisig.verify_threshold(&pubkeys[0..2]));

    let unauthorized = Pubkey([0xEE; 32]);
    assert!(!multisig.verify_threshold(&[unauthorized, pubkeys[0], pubkeys[1]]));
}

#[test]
fn test_verify_threshold_counts_repeated_signer_once() {
    let pubkeys: Vec<Pubkey> = (1u8..=3).map(|i| Pubkey([i; 32])).collect();
    let multisig = MultiSigConfig::new(2, pubkeys.clone());
    assert!(!multisig.verify_threshold(&[pubkeys[0], pubkeys[0]]));
    assert!(multisig.verify_threshold(&[pubkeys[0], pubkeys[2]]));
}

#[test]
fn test_committee_config_missing_role_is_error() {
    let governance_authority = Pubkey([0x77; 32]);
    let role_pubkeys = vec![
        ("validator_rewards".to_string(), Pubkey([1; 32])),
        ("reserve_pool".to_string(), Pubkey([2; 32])),
    ];
    assert!(bridge_committee_admin_config_for_roles(&role_pubkeys, &governance_authority).is_err());
    assert!(incident_guardian_config_for_roles(&role_pubkeys, &governance_authority).is_err());
}

#[test]
fn test_committee_authorities_differ_by_label() {
    let g = Pubkey([0x42; 32]);
    let a = derive_bridge_committee_admin_authority(&g);
    let b = derive_oracle_committee_admin_authority(&g);
    assert_ne!(a, b);
    assert_ne!(a, g);
    assert_eq!(a, derive_bridge_committee_admin_authority(&Pubkey([0x42; 32])));
}

#[test]
fn test_velocity_policy_tiers_and_thresholds() {
    let policy = GovernedTransferVelocityPolicy::community_treasury_defaults();
    let licn: u64 = 1_000_000_000;
    assert_eq!(policy.tier_for_amount(10 * licn), GovernedTransferVelocityTier::Standard);
    assert_eq!(
        policy.tier_for_amount(1_000_000 * licn),
        GovernedTransferVelocityTier::Elevated
    );
    assert_eq!(
        policy.tier_for_amount(2_500_000 * licn),
        GovernedTransferVelocityTier::Extraordinary
    );
    assert_eq!(policy.required_threshold(3, 5, GovernedTransferVelocityTier::Standard), 3);
    assert_eq!(policy.required_threshold(3, 5, GovernedTransferVelocityTier::Elevated), 4);
    assert_eq!(policy.required_threshold(3, 5, GovernedTransferVelocityTier::Extraordinary), 5);
    assert_eq!(policy.required_threshold(5, 5, GovernedTransferVelocityTier::Extraordinary), 5);
    assert_eq!(policy.additional_timelock_epochs(GovernedTransferVelocityTier::Standard), 0);
    assert_eq!(policy.additional_timelock_epochs(GovernedTransferVelocityTier::Elevated), 1);
    assert_eq!(policy.additional_timelock_epochs(GovernedTransferVelocityTier::Extraordinary), 3);
    assert_eq!(GovernedTransferVelocityTier::Elevated.as_str(), "elevated");
}

#[test]
fn test_governed_wallet_config_for_role() {
    let signers: Vec<Pubkey> = (1u8..=5).map(|i| Pubkey([i; 32])).collect();
    let treasury = governed_wallet_config_for_role("community_treasury", &signers).unwrap();
    assert_eq!(treasury.threshold, 3);
    assert_eq!(treasury.timelock_epochs, 1);
    assert!(treasury.transfer_velocity_policy.is_some());
    let reserve = governed_wallet_config_for_role("reserve_pool", &signers).unwrap();
    assert_eq!(reserve.threshold, 3);
    let eco = governed_wallet_config_for_role("ecosystem_partnerships", &signers).unwrap();
    assert_eq!(eco.threshold, 2);
    assert!(governed_wallet_config_for_role("builder_grants", &signers).is_none());
}

#[test]
fn test_genesis_wallet_assembly_testnet() {
    let dist: Vec<Pubkey> = (10u8..16).map(|i| Pubkey([i; 32])).collect();
    let wallet = assemble_genesis_wallet(
        "testnet-1",
        false,
        vec![Pubkey([1; 32])],
        &dist,
        "2024-01-01T00:00:00Z".to_string(),
    );
    assert!(wallet.multisig.is_none());
    let d = wallet.distribution_wallets.as_ref().unwrap();
    assert_eq!(d.len(), 6);
    assert_eq!(d[0].role, "validator_rewards");
    assert_eq!(d[0].amount_licn, 50_000_000);
    assert_eq!(d[1].role, "community_treasury");
    assert_eq!(d[1].amount_licn, 125_000_000);
    let total: u64 = d.iter().map(|w| w.amount_licn).sum();
    assert_eq!(total, 500_000_000);
    assert_eq!(wallet.treasury_pubkey, Some(d[0].pubkey));
}

#[test]
fn test_genesis_wallet_assembly_mainnet() {
    let signers: Vec<Pubkey> = (1u8..=5).map(|i| Pubkey([i; 32])).collect();
    let dist: Vec<Pubkey> = (10u8..16).map(|i| Pubkey([i; 32])).collect();
    let wallet = assemble_genesis_wallet(
        "mainnet-1",
        true,
        signers,
        &dist,
        "2024-01-01T00:00:00Z".to_string(),
    );
    let m = wallet.multisig.unwrap();
    assert_eq!(m.threshold, 3);
    assert_eq!(m.signers.len(), 5);
    assert!(m.is_genesis);
    assert!(m.is_treasury);
    assert_eq!(genesis_threshold(true, 10), 6);
    assert_eq!(genesis_threshold(false, 3), 2);
    assert_eq!(genesis_threshold(false, 2), 1);
}
