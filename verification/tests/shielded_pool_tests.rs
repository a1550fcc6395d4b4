use moltchain_core::shielded_pool::{
    OutputCommitment, PoolCallError, ShieldRequest, ShieldedPoolContract, ShieldedPoolError,
    ShieldedPoolState, TransferRequest, UnshieldRequest,
};

fn test_pool() -> ShieldedPoolState {
    let mut pool = ShieldedPoolState::new();
    pool.vk_initialized = true; // skip VK check for tests
    pool
}

#[test]
fn test_shield() {
    let mut pool = test_pool();
    let request = ShieldRequest {
        amount: 1_000_000_000, // 1 MOLT
        commitment: [1u8; 32],
        proof: vec![0u8; 128], // proof already verified by processor
        encrypted_note: vec![0xAA, 0xBB],
        ephemeral_pk: [2u8; 32],
    };

    let index = pool.shield(&request, 100).unwrap();
    assert_eq!(index, 0);
    assert_eq!(pool.pool_balance, 1_000_000_000);
    assert_eq!(pool.commitment_count, 1);
}

#[test]
fn test_unshield() {
    let mut pool = test_pool();
    let shield_req = ShieldRequest {
        amount: 1_000_000_000,
        commitment: [1u8; 32],
        proof: vec![0u8; 128],
        encrypted_note: vec![],
        ephemeral_pk: [2u8; 32],
    };
    pool.shield(&shield_req, 100).unwrap();

    let unshield_req = UnshieldRequest {
        nullifier: [3u8; 32],
        amount: 500_000_000, // 0.5 MOLT
        recipient: [4u8; 32],
        merkle_root: pool.merkle_root,
        proof: vec![0u8; 128],
    };
    let amount = pool.unshield(&unshield_req).unwrap();
    assert_eq!(amount, 500_000_000);
    assert_eq!(pool.pool_balance, 500_000_000);
}

#[test]
fn test_double_spend_prevention() {
    let mut pool = test_pool();
    let shield_req = ShieldRequest {
        amount: 1_000_000_000,
        commitment: [1u8; 32],
        proof: vec![0u8; 128],
        encrypted_note: vec![],
        ephemeral_pk: [2u8; 32],
    };
    pool.shield(&shield_req, 100).unwrap();

    let nullifier = [3u8; 32];
    let unshield_req = UnshieldRequest {
        nullifier,
        amount: 500_000_000,
        recipient: [4u8; 32],
        merkle_root: pool.merkle_root,
        proof: vec![0u8; 128],
    };
    pool.unshield(&unshield_req).unwrap();

    let unshield_req2 = UnshieldRequest {
        nullifier,
        amount: 500_000_000,
        recipient: [4u8; 32],
        merkle_root: pool.merkle_root,
        proof: vec![0u8; 128],
    };
    assert!(pool.unshield(&unshield_req2).is_err());
}

#[test]
fn test_shielded_transfer() {
    let mut pool = test_pool();
    let shield_req = ShieldRequest {
        amount: 2_000_000_000,
        commitment: [1u8; 32],
        proof: vec![0u8; 128],
        encrypted_note: vec![],
        ephemeral_pk: [2u8; 32],
    };
    pool.shield(&shield_req, 100).unwrap();

    let transfer_req = TransferRequest {
        nullifiers: vec![[3u8; 32]],
        output_commitments: vec![
            OutputCommitment {
                commitment: [5u8; 32],
                encrypted_note: vec![0xCC],
                ephemeral_pk: [6u8; 32],
            },
            OutputCommitment {
                commitment: [7u8; 32],
                encrypted_note: vec![0xDD],
                ephemeral_pk: [8u8; 32],
            },
        ],
        merkle_root: pool.merkle_root,
        proof: vec![0u8; 128],
    };

    let indices = pool.transfer(&transfer_req, 200).unwrap();
    assert_eq!(indices.len(), 2);
    assert_eq!(pool.commitment_count, 3); // 1 shield + 2 transfer outputs
}

#[test]
fn test_zero_commitment_rejected() {
    let mut pool = test_pool();
    let request = ShieldRequest {
        amount: 1000,
        commitment: [0u8; 32], // zero commitment
        proof: vec![0u8; 128],
        encrypted_note: vec![],
        ephemeral_pk: [2u8; 32],
    };
    assert!(pool.shield(&request, 100).is_err());
}

fn shield(pool: &mut ShieldedPoolState, c: u8, amount: u64) -> u64 {
    let req = ShieldRequest {
        amount,
        commitment: [c; 32],
        proof: vec![0u8; 128],
        encrypted_note: vec![c],
        ephemeral_pk: [c; 32],
    };
    pool.shield(&req, 1).unwrap()
}

#[test]
fn test_error_order_and_messages() {
    let mut pool = ShieldedPoolState::new();
    let req = ShieldRequest {
        amount: 1,
        commitment: [1u8; 32],
        proof: vec![0u8; 128],
        encrypted_note: vec![],
        ephemeral_pk: [0u8; 32],
    };
    assert!(matches!(pool.shield(&req, 1), Err(ShieldedPoolError::VKNotInitialized)));
    pool.vk_initialized = true;
    let short = ShieldRequest { proof: vec![0u8; 64], ..req.clone() };
    match pool.shield(&short, 1) {
        Err(e @ ShieldedPoolError::InvalidProof(_)) => assert_eq!(
            e.message(),
            "invalid proof: invalid proof length (expected exactly 128 bytes for Groth16/BN254)"
        ),
        other => panic!("unexpected {:?}", other),
    }
    assert_eq!(pool.commitment_count, 0);

    shield(&mut pool, 1, 100);
    let stale = UnshieldRequest {
        nullifier: [9u8; 32],
        amount: 1,
        recipient: [0u8; 32],
        merkle_root: [0u8; 32],
        proof: vec![0u8; 128],
    };
    assert!(matches!(pool.unshield(&stale), Err(ShieldedPoolError::MerkleRootMismatch)));
    let too_much = UnshieldRequest { merkle_root: pool.merkle_root, amount: 101, ..stale.clone() };
    assert!(matches!(pool.unshield(&too_much), Err(ShieldedPoolError::InsufficientBalance)));
    let ok = UnshieldRequest { merkle_root: pool.merkle_root, amount: 100, ..stale.clone() };
    assert_eq!(pool.unshield(&ok).unwrap(), 100);
    assert!(pool.is_nullifier_spent(&[9u8; 32]));
    match pool.unshield(&ok) {
        Err(ShieldedPoolError::NullifierAlreadySpent(h)) => assert_eq!(h, "09".repeat(32)),
        other => panic!("unexpected {:?}", other),
    }
}

#[test]
fn test_merkle_root_tracks_commitments() {
    let mut a = test_pool();
    let mut b = test_pool();
    let empty = a.merkle_root;
    assert_eq!(ShieldedPoolState::new().merkle_root, empty);
    shield(&mut a, 1, 10);
    assert_ne!(a.merkle_root, empty);
    shield(&mut a, 2, 10);
    shield(&mut a, 3, 10);
    shield(&mut b, 1, 99);
    shield(&mut b, 2, 5);
    shield(&mut b, 3, 1);
    // The root depends on the commitments only.
    assert_eq!(a.merkle_root, b.merkle_root);
    assert_eq!(a.get_commitments_from(1).len(), 2);
    assert_eq!(a.get_commitments_from(1)[0].commitment, [2u8; 32]);
    assert!(a.get_commitments_from(3).is_empty());
    assert!(a.get_commitments_from(u64::MAX).is_empty());
}

#[test]
fn test_transfer_rejections() {
    let mut pool = test_pool();
    shield(&mut pool, 1, 10);
    let spent = UnshieldRequest {
        nullifier: [4u8; 32],
        amount: 1,
        recipient: [0u8; 32],
        merkle_root: pool.merkle_root,
        proof: vec![0u8; 128],
    };
    pool.unshield(&spent).unwrap();
    let out = OutputCommitment { commitment: [5u8; 32], encrypted_note: vec![], ephemeral_pk: [0u8; 32] };
    let req = TransferRequest {
        nullifiers: vec![[3u8; 32], [4u8; 32]],
        output_commitments: vec![out.clone()],
        merkle_root: pool.merkle_root,
        proof: vec![0u8; 128],
    };
    match pool.transfer(&req, 2) {
        Err(ShieldedPoolError::NullifierAlreadySpent(h)) => assert_eq!(h, "04".repeat(32)),
        other => panic!("unexpected {:?}", other),
    }
    let zero = OutputCommitment { commitment: [0u8; 32], ..out.clone() };
    let req2 = TransferRequest {
        nullifiers: vec![[3u8; 32]],
        output_commitments: vec![out, zero],
        merkle_root: pool.merkle_root,
        proof: vec![0u8; 128],
    };
    assert!(matches!(pool.transfer(&req2, 2), Err(ShieldedPoolError::InvalidCommitment)));
    assert_eq!(pool.commitment_count, 1);
    assert!(!pool.is_nullifier_spent(&[3u8; 32]));
}

fn shield_request(c: u8, amount: u64) -> ShieldRequest {
    ShieldRequest {
        amount,
        commitment: [c; 32],
        proof: vec![0u8; 128],
        encrypted_note: vec![7],
        ephemeral_pk: [2u8; 32],
    }
}

#[test]
fn test_contract_initialize_once() {
    let mut c = ShieldedPoolContract::new();
    assert!(c.owner.is_none());
    assert!(!c.pool.vk_initialized);
    assert_eq!(c.initialize([9u8; 32]), 0);
    assert_eq!(c.owner, Some([9u8; 32]));
    assert!(c.pool.vk_initialized);
    // A second initialization keeps the first admin.
    assert_eq!(c.initialize([8u8; 32]), 0);
    assert_eq!(c.owner, Some([9u8; 32]));
}

#[test]
fn test_contract_pause_admin_only() {
    let mut c = ShieldedPoolContract::new();
    c.initialize([9u8; 32]);
    assert_eq!(c.pause([1u8; 32]), 1);
    assert!(!c.paused);
    assert_eq!(c.pause([9u8; 32]), 0);
    assert!(c.paused);
    assert_eq!(c.unpause([1u8; 32]), 1);
    assert!(c.paused);
    assert_eq!(c.unpause([9u8; 32]), 0);
    assert!(!c.paused);
}

#[test]
fn test_contract_paused_refuses_calls() {
    let mut c = ShieldedPoolContract::new();
    c.initialize([9u8; 32]);
    c.pause([9u8; 32]);
    let r = c.shield(&Some(shield_request(1, 10)), 5);
    assert!(matches!(r, Err(PoolCallError::Paused)));
    assert_eq!(c.pool.commitment_count, 0);
    let r = c.unshield(&None);
    assert!(matches!(r, Err(PoolCallError::Paused)));
    let r = c.transfer(&None, 5);
    assert!(matches!(r, Err(PoolCallError::Paused)));
    c.unpause([9u8; 32]);
    assert_eq!(c.shield(&Some(shield_request(1, 10)), 5).unwrap(), 0);
    assert_eq!(c.pool.pool_balance, 10);
}

#[test]
fn test_contract_reentrant_and_invalid_request() {
    let mut c = ShieldedPoolContract::new();
    c.initialize([9u8; 32]);
    assert!(matches!(c.shield(&None, 1), Err(PoolCallError::InvalidRequest)));
    c.in_call = true;
    assert!(matches!(c.shield(&Some(shield_request(1, 10)), 1), Err(PoolCallError::ReentrantCall)));
    assert_eq!(c.pool.commitment_count, 0);
}

#[test]
fn test_contract_overflow_keeps_pool() {
    let mut c = ShieldedPoolContract::new();
    c.initialize([9u8; 32]);
    c.shield(&Some(shield_request(1, u64::MAX)), 1).unwrap();
    let root = c.get_merkle_root();
    let r = c.shield(&Some(shield_request(2, 1)), 2);
    assert!(matches!(r, Err(PoolCallError::Rejected(ShieldedPoolError::PoolOverflow))));
    // The refused deposit leaves no commitment behind.
    assert_eq!(c.pool.commitment_count, 1);
    assert_eq!(c.get_commitments(0).len(), 1);
    assert_eq!(c.get_merkle_root(), root);
}

#[test]
fn test_contract_queries_and_unshield() {
    let mut c = ShieldedPoolContract::new();
    c.initialize([9u8; 32]);
    c.shield(&Some(shield_request(1, 100)), 1).unwrap();
    c.shield(&Some(shield_request(2, 100)), 2).unwrap();
    assert_eq!(c.get_commitments(1).len(), 1);
    assert_eq!(c.get_commitments(1)[0].commitment, [2u8; 32]);
    assert_eq!(c.get_commitments(5).len(), 0);
    assert_eq!(c.check_nullifier(&[3u8; 32]), 0);
    let req = UnshieldRequest {
        nullifier: [3u8; 32],
        amount: 60,
        recipient: [4u8; 32],
        merkle_root: c.get_merkle_root(),
        proof: vec![0u8; 128],
    };
    assert_eq!(c.unshield(&Some(req.clone())).unwrap(), 60);
    assert_eq!(c.check_nullifier(&[3u8; 32]), 1);
    let again = c.unshield(&Some(req));
    assert!(matches!(again, Err(PoolCallError::Rejected(ShieldedPoolError::NullifierAlreadySpent(_)))));
    assert_eq!(c.pool.pool_balance, 140);
    let t = TransferRequest {
        nullifiers: vec![[5u8; 32]],
        output_commitments: vec![OutputCommitment { commitment: [6u8; 32], encrypted_note: vec![], ephemeral_pk: [0u8; 32] }],
        merkle_root: c.get_merkle_root(),
        proof: vec![0u8; 128],
    };
    assert_eq!(c.transfer(&Some(t), 3).unwrap(), vec![2u64]);
    assert_eq!(c.check_nullifier(&[5u8; 32]), 1);
}
