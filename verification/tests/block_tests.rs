use moltchain_core::account::{Keypair, Pubkey};
use moltchain_core::block::{
    compute_bft_timestamp, derive_slot_timestamp, validate_timestamp, Block, BlockHeader,
    CommitSignature, MAX_TX_PER_BLOCK,
};
use moltchain_core::consensus::staking::StakePool;
use moltchain_core::consensus::validators::{ValidatorInfo, ValidatorSet};
use moltchain_core::consensus::votes::Precommit;
use moltchain_core::hash;
use moltchain_core::transaction::{Instruction, Message, Transaction, MAX_INSTRUCTION_DATA};

/// Precommit bytes for a block hash followed by the precommit timestamp.
fn commit_bytes(height: u64, round: u32, h: &hash::Hash, ts: u64) -> Vec<u8> {
    let mut v = Precommit::signable_bytes(height, round, &Some(*h));
    v.extend_from_slice(&ts.to_le_bytes());
    v
}


#[test]
fn test_genesis_block() {
    let genesis = Block::genesis(hash::Hash::hash(b"genesis_state"), 1, Vec::new());

    assert_eq!(genesis.header.slot, 0);
    assert_eq!(genesis.header.parent_hash, hash::Hash::default());
    assert_eq!(genesis.transactions.len(), 0);

    println!("Genesis block hash: {}", genesis.hash().to_hex());
}

#[test]
fn test_block_creation() {
    let parent = hash::Hash::hash(b"parent_block");
    let state = hash::Hash::hash(b"current_state");
    let validator = [42u8; 32];

    let block = Block::new(1, parent, state, validator, Vec::new());

    assert_eq!(block.header.slot, 1);
    assert_eq!(block.header.parent_hash, parent);

    println!("Block 1 hash: {}", block.hash().to_hex());
}

#[test]
fn test_block_sign_and_verify() {
    

    let kp = Keypair::from_seed(&[11; 32]);
    let validator_bytes = kp.pubkey().0;

    let mut block = Block::new_with_timestamp(
        1,
        hash::Hash::default(),
        hash::Hash::hash(b"state"),
        validator_bytes,
        Vec::new(),
        1000,
    );

    // Unsigned non-genesis block (slot != 0) should NOT verify (T1.6)
    assert!(
        !block.verify_signature(),
        "Unsigned non-genesis block must be rejected"
    );

    // Sign the block
    block.sign(&kp);
    assert_ne!(block.header.signature, [0u8; 64]);

    // Signed block should verify
    assert!(block.verify_signature());

    // Tamper with timestamp — verification should fail
    block.header.timestamp += 1;
    assert!(!block.verify_signature());
}

#[test]
fn test_validate_structure_empty_block_passes() {
    let block = Block::new(0, hash::Hash::default(), hash::Hash::default(), [0u8; 32], Vec::new());
    assert!(block.validate_structure().is_ok());
}

#[test]
fn test_validate_structure_too_many_txs_rejected() {
    

    // Create a block with more than MAX_TX_PER_BLOCK transactions
    let mut txs = Vec::with_capacity(MAX_TX_PER_BLOCK + 1);
    for _ in 0..=MAX_TX_PER_BLOCK {
        let ix = Instruction {
            program_id: Pubkey([0u8; 32]),
            accounts: vec![Pubkey([1u8; 32])],
            data: vec![0u8],
        };
        let msg = Message::new(vec![ix], hash::Hash::default());
        txs.push(Transaction::new(msg));
    }

    let block = Block::new(1, hash::Hash::default(), hash::Hash::default(), [0u8; 32], txs);
    let result = block.validate_structure();
    assert!(result.is_err());
    assert!(result.unwrap_err().contains("transactions"));
}

#[test]
fn test_validate_structure_valid_block_passes() {
    

    let mut txs = Vec::new();
    for _ in 0..5 {
        let ix = Instruction {
            program_id: Pubkey([0u8; 32]),
            accounts: vec![Pubkey([1u8; 32])],
            data: vec![0u8; 32],
        };
        let msg = Message::new(vec![ix], hash::Hash::default());
        txs.push(Transaction::new(msg));
    }

    let block = Block::new(1, hash::Hash::default(), hash::Hash::default(), [0u8; 32], txs);
    assert!(block.validate_structure().is_ok());
}

#[test]
fn test_validate_structure_oversized_instruction_rejected() {
    

    let ix = Instruction {
        program_id: Pubkey([0u8; 32]),
        accounts: vec![Pubkey([1u8; 32])],
        data: vec![0u8; MAX_INSTRUCTION_DATA + 1],
    };
    let msg = Message::new(vec![ix], hash::Hash::default());
    let tx = Transaction::new(msg);
    let block = Block::new(1, hash::Hash::default(), hash::Hash::default(), [0u8; 32], vec![tx]);

    let result = block.validate_structure();
    assert!(result.is_err());
    assert!(result.unwrap_err().contains("data too large"));
}

// ── AUDIT-FIX A2-01: Deterministic timestamp tests ──

#[test]
fn test_derive_slot_timestamp_basic() {
    // genesis_time = 1700000000, slot_duration = 400ms
    let genesis = 1_700_000_000u64;
    let slot_ms = 400u64;

    assert_eq!(derive_slot_timestamp(genesis, 0, slot_ms), genesis);
    // slot 1: +0.4s → +0s (integer division)
    assert_eq!(derive_slot_timestamp(genesis, 1, slot_ms), genesis);
    // slot 2: 2*400/1000 = 0 → still genesis (sub-second)
    assert_eq!(derive_slot_timestamp(genesis, 2, slot_ms), genesis);
    // slot 3: 3*400/1000 = 1 → genesis + 1
    assert_eq!(derive_slot_timestamp(genesis, 3, slot_ms), genesis + 1);
    // slot 2500: 2500*400/1000 = 1000 → genesis + 1000
    assert_eq!(
        derive_slot_timestamp(genesis, 2500, slot_ms),
        genesis + 1000
    );
}

#[test]
fn test_derive_slot_timestamp_deterministic() {
    // Two calls with same inputs produce identical results
    let genesis = 1_700_000_000u64;
    let ts1 = derive_slot_timestamp(genesis, 100, 400);
    let ts2 = derive_slot_timestamp(genesis, 100, 400);
    assert_eq!(ts1, ts2, "Must be deterministic");
}

#[test]
fn test_derive_slot_timestamp_monotonic() {
    let genesis = 1_700_000_000u64;
    let slot_ms = 400u64;
    let mut prev = 0u64;
    for slot in 0..10000 {
        let ts = derive_slot_timestamp(genesis, slot, slot_ms);
        assert!(ts >= prev, "Timestamp must be monotonically non-decreasing");
        prev = ts;
    }
}

#[test]
fn test_validate_timestamp_within_window() {
    let genesis = 1_700_000_000u64;
    let slot_ms = 400u64;
    let slot = 2500u64; // expected = genesis + 1000

    // Exact match
    assert!(validate_timestamp(genesis + 1000, genesis, slot, slot_ms, 60).is_ok());
    // +59 seconds (within window)
    assert!(validate_timestamp(genesis + 1059, genesis, slot, slot_ms, 60).is_ok());
    // -30 seconds (within window)
    assert!(validate_timestamp(genesis + 970, genesis, slot, slot_ms, 60).is_ok());
}

#[test]
fn test_validate_timestamp_outside_window() {
    let genesis = 1_700_000_000u64;
    let slot_ms = 400u64;
    let slot = 2500u64; // expected = genesis + 1000

    // +61 seconds (outside window)
    let result = validate_timestamp(genesis + 1061, genesis, slot, slot_ms, 60);
    assert!(result.is_err());
    assert_eq!(result.unwrap_err(), 61);

    // -100 seconds (outside window)
    let result = validate_timestamp(genesis + 900, genesis, slot, slot_ms, 60);
    assert!(result.is_err());
    assert_eq!(result.unwrap_err(), 100);
}

#[test]
fn test_new_with_timestamp_uses_provided_value() {
    let ts = 1_700_001_000u64;
    let block =
        Block::new_with_timestamp(100, hash::Hash::default(), hash::Hash::default(), [0u8; 32], vec![], ts);
    assert_eq!(block.header.timestamp, ts);
}

// ─── Commit certificate tests (Task 1.2) ────────────────────────

#[test]
fn test_genesis_block_verify_commit_passes() {
    let block = Block::genesis(hash::Hash::hash(b"state"), 1, Vec::new());
    let vs = ValidatorSet::new();
    let sp = StakePool::new();
    assert!(block.verify_commit(0, &vs, &sp).is_ok());
}

#[test]
fn test_verify_commit_empty_signatures_fails() {
    let block = Block::new_with_timestamp(
        5,
        hash::Hash::default(),
        hash::Hash::hash(b"state"),
        [1u8; 32],
        Vec::new(),
        2000,
    );
    let vs = ValidatorSet::new();
    let sp = StakePool::new();
    let result = block.verify_commit(0, &vs, &sp);
    assert!(result.is_err());
    assert!(result.unwrap_err().contains("no commit signatures"));
}

#[test]
fn test_verify_commit_valid_supermajority() {
    

    // Create 3 validators with equal stake
    let kp1 = Keypair::from_seed(&[12; 32]);
    let kp2 = Keypair::from_seed(&[13; 32]);
    let kp3 = Keypair::from_seed(&[14; 32]);

    let mut vs = ValidatorSet::new();
    for kp in [&kp1, &kp2, &kp3] {
        let vi = ValidatorInfo {
            pubkey: kp.pubkey(),
            reputation: 100,
            blocks_proposed: 0,
            votes_cast: 0,
            correct_votes: 0,
            stake: 100_000_000_000_000,
            joined_slot: 0,
            last_active_slot: 0,
            commission_rate: 500,
            transactions_processed: 0,
            pending_activation: false,
        };
        vs.add_validator(vi);
    }

    let mut sp = StakePool::new();
    for kp in [&kp1, &kp2, &kp3] {
        sp.stake(kp.pubkey(), 100_000_000_000_000, 0).ok();
    }

    // Create a block at slot 5
    let mut block = Block::new_with_timestamp(
        5,
        hash::Hash::default(),
        hash::Hash::hash(b"state"),
        kp1.pubkey().0,
        Vec::new(),
        2000,
    );
    block.sign(&kp1);

    let block_hash = block.hash();
    let round = 0u32;

    // Sign precommits from 2 of 3 validators (2/3+)
    let ts = 2000u64;
    let signable = commit_bytes(5, round, &block_hash, ts);
    let sig1 = kp1.sign(&signable);
    let sig2 = kp2.sign(&signable);

    block.commit_signatures = vec![
        CommitSignature {
            validator: kp1.pubkey().0,
            signature: sig1,
            timestamp: ts,
        },
        CommitSignature {
            validator: kp2.pubkey().0,
            signature: sig2,
            timestamp: ts,
        },
    ];

    assert!(block.verify_commit(round, &vs, &sp).is_ok());
}

#[test]
fn test_verify_commit_insufficient_stake_fails() {
    

    let kp1 = Keypair::from_seed(&[15; 32]);
    let kp2 = Keypair::from_seed(&[16; 32]);
    let kp3 = Keypair::from_seed(&[17; 32]);

    let mut vs = ValidatorSet::new();
    for kp in [&kp1, &kp2, &kp3] {
        let vi = ValidatorInfo {
            pubkey: kp.pubkey(),
            reputation: 100,
            blocks_proposed: 0,
            votes_cast: 0,
            correct_votes: 0,
            stake: 100_000_000_000_000,
            joined_slot: 0,
            last_active_slot: 0,
            commission_rate: 500,
            transactions_processed: 0,
            pending_activation: false,
        };
        vs.add_validator(vi);
    }

    let mut sp = StakePool::new();
    for kp in [&kp1, &kp2, &kp3] {
        sp.stake(kp.pubkey(), 100_000_000_000_000, 0).ok();
    }

    let mut block = Block::new_with_timestamp(
        5,
        hash::Hash::default(),
        hash::Hash::hash(b"state"),
        kp1.pubkey().0,
        Vec::new(),
        2000,
    );
    block.sign(&kp1);

    let block_hash = block.hash();
    let round = 0u32;

    // Only 1 of 3 validators signed (1/3, need 2/3+)
    let ts = 2000u64;
    let signable = commit_bytes(5, round, &block_hash, ts);
    let sig1 = kp1.sign(&signable);

    block.commit_signatures = vec![CommitSignature {
        validator: kp1.pubkey().0,
        signature: sig1,
        timestamp: ts,
    }];

    let result = block.verify_commit(round, &vs, &sp);
    assert!(result.is_err());
    assert!(result.unwrap_err().contains("Insufficient commit stake"));
}

#[test]
fn test_verify_commit_bad_signature_skipped() {
    

    let kp1 = Keypair::from_seed(&[18; 32]);
    let kp2 = Keypair::from_seed(&[19; 32]);

    let mut vs = ValidatorSet::new();
    for kp in [&kp1, &kp2] {
        let vi = ValidatorInfo {
            pubkey: kp.pubkey(),
            reputation: 100,
            blocks_proposed: 0,
            votes_cast: 0,
            correct_votes: 0,
            stake: 100_000_000_000_000,
            joined_slot: 0,
            last_active_slot: 0,
            commission_rate: 500,
            transactions_processed: 0,
            pending_activation: false,
        };
        vs.add_validator(vi);
    }

    let mut sp = StakePool::new();
    for kp in [&kp1, &kp2] {
        sp.stake(kp.pubkey(), 100_000_000_000_000, 0).ok();
    }

    let mut block = Block::new_with_timestamp(
        5,
        hash::Hash::default(),
        hash::Hash::hash(b"state"),
        kp1.pubkey().0,
        Vec::new(),
        2000,
    );
    block.sign(&kp1);

    let block_hash = block.hash();
    let round = 0u32;

    // kp1 signed correctly, kp2 has garbage signature
    let ts = 2000u64;
    let signable = commit_bytes(5, round, &block_hash, ts);
    let sig1 = kp1.sign(&signable);

    block.commit_signatures = vec![
        CommitSignature {
            validator: kp1.pubkey().0,
            signature: sig1,
            timestamp: ts,
        },
        CommitSignature {
            validator: kp2.pubkey().0,
            signature: [0xAA; 64], // garbage
            timestamp: ts,
        },
    ];

    // Only 1 valid out of 2 = 50%, need 2/3+ → should fail
    let result = block.verify_commit(round, &vs, &sp);
    assert!(result.is_err());
}

// ─── BFT timestamp tests (Task 3.2) ─────────────────────────────

#[test]
fn test_bft_timestamp_weighted_median_equal_stake() {
    

    let mut vs = ValidatorSet::new();
    let mut sp = StakePool::new();
    let keys: Vec<[u8; 32]> = (1..=3u8)
        .map(|i| {
            let mut k = [0u8; 32];
            k[0] = i;
            k
        })
        .collect();

    for k in &keys {
        vs.add_validator(ValidatorInfo {
            pubkey: Pubkey(*k),
            reputation: 100,
            blocks_proposed: 0,
            votes_cast: 0,
            correct_votes: 0,
            stake: 100_000_000_000_000,
            joined_slot: 0,
            last_active_slot: 0,
            commission_rate: 500,
            transactions_processed: 0,
            pending_activation: false,
        });
        sp.stake(Pubkey(*k), 100_000_000_000_000, 0).ok();
    }

    // Timestamps: [1000, 1002, 1004] — median with equal stake = 1002
    let sigs = vec![
        CommitSignature {
            validator: keys[0],
            signature: [0u8; 64],
            timestamp: 1000,
        },
        CommitSignature {
            validator: keys[1],
            signature: [0u8; 64],
            timestamp: 1002,
        },
        CommitSignature {
            validator: keys[2],
            signature: [0u8; 64],
            timestamp: 1004,
        },
    ];

    let result = compute_bft_timestamp(&sigs, &vs, &sp, None);
    assert_eq!(result, Some(1002));
}

#[test]
fn test_bft_timestamp_weighted_median_unequal_stake() {
    

    let mut vs = ValidatorSet::new();
    let mut sp = StakePool::new();

    // Validator A: 60% stake, ts=1000 | B: 25%, ts=1005 | C: 15%, ts=1010
    let ka = {
        let mut k = [0u8; 32];
        k[0] = 1;
        k
    };
    let kb = {
        let mut k = [0u8; 32];
        k[0] = 2;
        k
    };
    let kc = {
        let mut k = [0u8; 32];
        k[0] = 3;
        k
    };

    // Stakes proportional: 60%, 25%, 15% above MIN_VALIDATOR_STAKE
    let base = 100_000_000_000_000u64; // 100K MOLT
    for (k, stake) in [(ka, base * 6), (kb, base * 25 / 10), (kc, base * 15 / 10)] {
        vs.add_validator(ValidatorInfo {
            pubkey: Pubkey(k),
            reputation: 100,
            blocks_proposed: 0,
            votes_cast: 0,
            correct_votes: 0,
            stake,
            joined_slot: 0,
            last_active_slot: 0,
            commission_rate: 500,
            transactions_processed: 0,
            pending_activation: false,
        });
        sp.stake(Pubkey(k), stake, 0).ok();
    }

    let sigs = vec![
        CommitSignature {
            validator: ka,
            signature: [0u8; 64],
            timestamp: 1000,
        },
        CommitSignature {
            validator: kb,
            signature: [0u8; 64],
            timestamp: 1005,
        },
        CommitSignature {
            validator: kc,
            signature: [0u8; 64],
            timestamp: 1010,
        },
    ];

    // Sorted: (1000, 60%), (1005, 25%), (1010, 15%)
    // Cumulative at 1000: 600K/1000K = 60% > 50% → median = 1000
    let result = compute_bft_timestamp(&sigs, &vs, &sp, None);
    assert_eq!(result, Some(1000));
}

#[test]
fn test_bft_timestamp_monotonicity_enforcement() {
    

    let mut vs = ValidatorSet::new();
    let mut sp = StakePool::new();
    let k = {
        let mut k = [0u8; 32];
        k[0] = 1;
        k
    };

    let stake = 100_000_000_000_000u64; // 100K MOLT
    vs.add_validator(ValidatorInfo {
        pubkey: Pubkey(k),
        reputation: 100,
        blocks_proposed: 0,
        votes_cast: 0,
        correct_votes: 0,
        stake,
        joined_slot: 0,
        last_active_slot: 0,
        commission_rate: 500,
        transactions_processed: 0,
        pending_activation: false,
    });
    sp.stake(Pubkey(k), stake, 0).ok();

    let sigs = vec![CommitSignature {
        validator: k,
        signature: [0u8; 64],
        timestamp: 500,
    }];

    // Parent timestamp is 1000, BFT median is 500 → clamps to 1001
    let result = compute_bft_timestamp(&sigs, &vs, &sp, Some(1000));
    assert_eq!(result, Some(1001));
}

#[test]
fn test_bft_timestamp_empty_commit_returns_none() {
    let vs = ValidatorSet::new();
    let sp = StakePool::new();
    let result = compute_bft_timestamp(&[], &vs, &sp, None);
    assert!(result.is_none());
}


