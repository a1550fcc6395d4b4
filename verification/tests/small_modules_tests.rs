use moltchain_core::contract_instruction::ContractInstruction;
use moltchain_core::event_stream::{ChainEvent, EventBuffer};

#[test]
fn test_event_buffer_emit_and_drain() {
    let mut buf = EventBuffer::new(42);
    buf.emit(ChainEvent::Transfer {
        from: [1u8; 32],
        to: [2u8; 32],
        amount: 100,
    });
    buf.emit(ChainEvent::StakeDeposit {
        staker: [1u8; 32],
        amount: 500,
    });
    assert_eq!(buf.len(), 2);
    assert_eq!(buf.slot(), 42);
    let events = buf.drain();
    assert_eq!(events.len(), 2);
    assert!(buf.is_empty());
}

#[test]
fn test_event_buffer_empty() {
    let buf = EventBuffer::new(0);
    assert!(buf.is_empty());
    assert_eq!(buf.len(), 0);
}

#[test]
fn test_event_buffer_all_event_types() {
    let mut buf = EventBuffer::new(100);
    buf.emit(ChainEvent::Transfer {
        from: [1u8; 32],
        to: [2u8; 32],
        amount: 100,
    });
    buf.emit(ChainEvent::ContractDeploy {
        deployer: [1u8; 32],
        contract: [2u8; 32],
        code_hash: [3u8; 32],
    });
    buf.emit(ChainEvent::ContractCall {
        caller: [1u8; 32],
        contract: [2u8; 32],
        method: "transfer".to_string(),
    });
    buf.emit(ChainEvent::StakeDeposit {
        staker: [1u8; 32],
        amount: 500,
    });
    buf.emit(ChainEvent::StakeWithdraw {
        staker: [1u8; 32],
        amount: 200,
    });
    buf.emit(ChainEvent::GovernanceVote {
        voter: [1u8; 32],
        proposal_id: 1,
        vote: true,
    });
    buf.emit(ChainEvent::BridgeLock {
        sender: [1u8; 32],
        recipient: [2u8; 32],
        amount: 1000,
        asset: "usdc".to_string(),
        dest_chain: "ethereum".to_string(),
    });
    buf.emit(ChainEvent::BridgeMint {
        recipient: [1u8; 32],
        amount: 1000,
        asset: "usdc".to_string(),
        source_chain: "ethereum".to_string(),
        tx_hash: "0xabc123".to_string(),
    });
    buf.emit(ChainEvent::IdentityRegistered {
        address: [1u8; 32],
        agent_type: 1,
    });
    buf.emit(ChainEvent::SkillAttested {
        identity: [1u8; 32],
        skill: "Rust".to_string(),
        attester: [2u8; 32],
    });
    assert_eq!(buf.len(), 10);
}

#[test]
fn test_deploy_instruction() {
    let code = vec![0x00, 0x61, 0x73, 0x6d]; // WASM magic
    let init_data = vec![1, 2, 3];

    let instr = ContractInstruction::deploy(code.clone(), init_data.clone());

    match instr {
        ContractInstruction::Deploy {
            code: c,
            init_data: d,
        } => {
            assert_eq!(c, code);
            assert_eq!(d, init_data);
        }
        _ => panic!("Wrong instruction type"),
    }
}

#[test]
fn test_call_instruction() {
    let instr = ContractInstruction::call("transfer".to_string(), vec![1, 2, 3, 4], 1000);

    match instr {
        ContractInstruction::Call { function, .. } => {
            assert_eq!(function, "transfer");
        }
        _ => panic!("Wrong instruction type"),
    }
}
