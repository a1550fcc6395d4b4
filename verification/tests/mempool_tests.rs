use moltchain_core::account::Pubkey;
use moltchain_core::hash;
use moltchain_core::mempool::Mempool;
use moltchain_core::transaction::{Instruction, Message, Transaction};

fn create_test_transaction(nonce: u8) -> Transaction {
    let message = Message::new(
        vec![Instruction {
            program_id: Pubkey([nonce; 32]),
            accounts: vec![Pubkey([nonce + 1; 32]), Pubkey([nonce + 2; 32])],
            data: vec![nonce],
        }],
        hash::Hash::default(),
    );

    Transaction {
        signatures: vec![[nonce; 64]],
        message,
        tx_type: Default::default(),
    }
}

#[test]
fn test_mempool_add() {
    let mut mempool = Mempool::new(100, 300);
    let tx = create_test_transaction(1);

    assert!(mempool.add_transaction(tx.clone(), 1000, 0).is_ok());
    assert_eq!(mempool.size(), 1);

    // Duplicate should fail
    assert!(mempool.add_transaction(tx, 1000, 0).is_err());
}

#[test]
fn test_mempool_priority() {
    let mut mempool = Mempool::new(100, 300);

    let tx1 = create_test_transaction(1);
    let tx2 = create_test_transaction(2);
    let tx3 = create_test_transaction(3);

    mempool.add_transaction(tx1, 100, 0).unwrap();
    mempool.add_transaction(tx2.clone(), 1000, 0).unwrap();
    mempool.add_transaction(tx3, 500, 0).unwrap();

    let top = mempool.get_top_transactions(1);
    assert_eq!(top.len(), 1);
    assert_eq!(top[0].hash(), tx2.hash()); // Highest fee should be first
}

#[test]
fn test_mempool_max_size() {
    let mut mempool = Mempool::new(2, 300);

    let tx1 = create_test_transaction(1);
    let tx2 = create_test_transaction(2);
    let tx3 = create_test_transaction(3);

    assert!(mempool.add_transaction(tx1, 100, 0).is_ok());
    assert!(mempool.add_transaction(tx2, 200, 0).is_ok());
    assert!(mempool.add_transaction(tx3, 300, 0).is_err()); // Should fail
}

#[test]
fn test_mempool_fee_only_ordering() {
    // M-8: Same fee but different reputation — should NOT affect order.
    // With fee-only ordering, same-fee txs are FIFO.
    let mut mempool = Mempool::new(100, 300);

    let tx_low_rep = create_test_transaction(1);
    let tx_high_rep = create_test_transaction(2);

    // Both have fee=1000 — high reputation should NOT get priority
    mempool
        .add_transaction(tx_low_rep.clone(), 1000, 0)
        .unwrap();
    mempool.add_transaction(tx_high_rep, 1000, 10_000).unwrap();

    let top = mempool.get_top_transactions(1);
    assert_eq!(top.len(), 1);
    // First submitted tx wins (FIFO tiebreak)
    assert_eq!(top[0].hash(), tx_low_rep.hash());
}

#[test]
fn test_mempool_no_express_lane() {
    // M-8: High-reputation agent with low fee should NOT beat high-fee regular tx
    let mut mempool = Mempool::new(100, 300);

    let tx_high_fee = create_test_transaction(1);
    let tx_high_rep = create_test_transaction(2);

    // High fee, no reputation
    mempool
        .add_transaction(tx_high_fee.clone(), 100_000, 0)
        .unwrap();
    // Low fee, Tier 5 reputation — should NOT get express lane priority
    mempool.add_transaction(tx_high_rep, 100, 10_000).unwrap();

    let top = mempool.get_top_transactions(1);
    assert_eq!(top.len(), 1);
    // Highest fee wins, reputation irrelevant
    assert_eq!(top[0].hash(), tx_high_fee.hash());
}

#[test]
fn test_mempool_strict_fee_ordering() {
    // Verify ordering is strictly by fee, regardless of reputation
    let mut mempool = Mempool::new(100, 300);

    let tx1 = create_test_transaction(1);
    let tx2 = create_test_transaction(2);
    let tx3 = create_test_transaction(3);

    // Low fee + max reputation
    mempool.add_transaction(tx1, 100, 50_000).unwrap();
    // Medium fee + zero reputation
    mempool.add_transaction(tx2, 500, 0).unwrap();
    // High fee + zero reputation
    mempool.add_transaction(tx3.clone(), 1000, 0).unwrap();

    let top = mempool.get_top_transactions(3);
    assert_eq!(top.len(), 3);
    // Strict fee order: 1000, 500, 100
    assert_eq!(top[0].hash(), tx3.hash());
}

// ── P3-3: Compact block helpers ──

#[test]
fn test_mempool_get() {
    let mut pool = Mempool::new(100, 60);
    let tx = create_test_transaction(1);
    let tx_hash = tx.hash();
    pool.add_transaction(tx.clone(), 1000, 0).unwrap();
    assert!(pool.get(&tx_hash).is_some());
    assert_eq!(pool.get(&tx_hash).unwrap().hash(), tx_hash);
    assert!(pool.get(&hash::Hash([0xFF; 32])).is_none());
}

#[test]
fn test_mempool_all_transactions() {
    let mut pool = Mempool::new(100, 60);
    assert!(pool.all_transactions().is_empty());
    let tx1 = create_test_transaction(1);
    let tx2 = create_test_transaction(2);
    pool.add_transaction(tx1, 1000, 0).unwrap();
    pool.add_transaction(tx2, 2000, 0).unwrap();
    let all = pool.all_transactions();
    assert_eq!(all.len(), 2);
}

