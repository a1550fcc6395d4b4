use moltchain_core::account::Pubkey;
use moltchain_core::contract::ContractAbi;
use moltchain_core::governance::{GovernanceAction, GovernanceProposal};
use moltchain_core::multisig::GovernedTransferVelocityTier;

#[test]
fn test_governance_labels() {
    let a = GovernanceAction::ParamChange { param_id: 3, value: 42 };
    assert_eq!(a.label(), "governance_param_change");
    let b = GovernanceAction::VetoContractUpgrade { contract: Pubkey([1; 32]) };
    assert_eq!(b.label(), "veto_contract_upgrade");
}

#[test]
fn test_governance_metadata_text() {
    let a = GovernanceAction::ParamChange { param_id: 3, value: 42 };
    assert_eq!(a.metadata(), "param_id=3 value=42");

    let k = Pubkey([7; 32]);
    let t = GovernanceAction::TreasuryTransfer { recipient: k, amount: 1_000_000_000 };
    assert_eq!(t.metadata(), format!("recipient={} amount_spores=1000000000", k.to_base58()));

    let c = GovernanceAction::ContractCall {
        contract: k,
        function: "mint".to_string(),
        args: vec![1, 2, 3],
        value: 5,
    };
    assert_eq!(
        c.metadata(),
        format!("contract={} function=mint args_len=3 value_spores=5", k.to_base58())
    );
    let f = c.event_fields();
    assert_eq!(f.len(), 4);
    assert_eq!(f[0], ("target_contract", k.to_base58()));
    assert_eq!(f[2], ("call_args_len", "3".to_string()));
    assert!(a.event_fields().is_empty());

    let r = GovernanceAction::RegisterContractSymbol {
        contract: k,
        symbol: "WETH".to_string(),
        name: None,
        template: Some("mt20".to_string()),
        metadata: None,
        decimals: Some(9),
    };
    assert_eq!(
        r.metadata(),
        format!("contract={} symbol=WETH name= template=mt20 decimals=9 has_metadata=false", k.to_base58())
    );

    let abi = ContractAbi {
        version: "1".to_string(),
        name: "token".to_string(),
        template: None,
        description: None,
        functions: vec![],
        events: vec![],
        errors: vec![],
    };
    let s = GovernanceAction::SetContractAbi { contract: k, abi };
    assert_eq!(
        s.metadata(),
        format!("contract={} abi_name=token abi_version=1 functions=0", k.to_base58())
    );
}

fn proposal(approvals: usize, threshold: u8, after: u64) -> GovernanceProposal {
    let a = GovernanceAction::ExecuteContractUpgrade { contract: Pubkey([1; 32]) };
    GovernanceProposal {
        id: 1,
        authority: Pubkey([2; 32]),
        approval_authority: None,
        proposer: Pubkey([3; 32]),
        action_label: a.label().to_string(),
        metadata: a.metadata(),
        action: a,
        approvals: vec![Pubkey([4; 32]); approvals],
        threshold,
        execute_after_epoch: after,
        velocity_tier: GovernedTransferVelocityTier::Standard,
        daily_cap_spores: 0,
        executed: false,
        cancelled: false,
    }
}

#[test]
fn test_proposal_readiness() {
    let mut p = proposal(2, 2, 10);
    assert!(!p.is_ready(9));
    assert!(p.is_ready(10));
    assert!(p.is_ready(11));
    assert_eq!(p.approval_authority(), Pubkey([2; 32]));
    p.approval_authority = Some(Pubkey([9; 32]));
    assert_eq!(p.approval_authority(), Pubkey([9; 32]));
    p.executed = true;
    assert!(!p.is_ready(11));
    let q = proposal(1, 2, 0);
    assert!(!q.is_ready(100));
}
