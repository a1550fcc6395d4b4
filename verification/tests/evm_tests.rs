use moltchain_core::evm::check_evm_tx_preconditions;
use moltchain_core::evm::{
    decode_evm_transaction, evm_tx_hash, evm_tx_to_native_instruction, spores_to_u256,
    u256_is_multiple_of_spore, u256_to_spores, u256_to_spores_checked, EvmAccount,
    EvmStateChange, EvmStateChanges, EVM_PROGRAM_ID,
};
use moltchain_core::account::Pubkey;
use moltchain_core::u256::u256_to_decimal;
use moltchain_core::evm::{
    supported_precompiles, topics_match, EvmExecutionResult, EvmLog, PRECOMPILE_BLAKE2F,
    PRECOMPILE_BN256_ADD, PRECOMPILE_BN256_MUL, PRECOMPILE_BN256_PAIRING, PRECOMPILE_ECRECOVER,
    PRECOMPILE_IDENTITY, PRECOMPILE_MODEXP, PRECOMPILE_RIPEMD160, PRECOMPILE_SHA256,
};

#[test]
fn test_topics_match_wildcard() {
    // All None = matches everything
    let log_topics = vec![[0x01; 32], [0x02; 32]];
    let filter: Vec<Option<Vec<[u8; 32]>>> = vec![None, None];
    assert!(topics_match(&log_topics, &filter));
}

#[test]
fn test_topics_match_empty_filter() {
    // Empty filter = matches everything
    let log_topics = vec![[0x01; 32]];
    let filter: Vec<Option<Vec<[u8; 32]>>> = vec![];
    assert!(topics_match(&log_topics, &filter));
}

#[test]
fn test_topics_match_exact_single() {
    let topic_a = [0xAA; 32];
    let topic_b = [0xBB; 32];
    let log_topics = vec![topic_a, topic_b];

    // Match: filter matches topic[0]
    let filter = vec![Some(vec![topic_a])];
    assert!(topics_match(&log_topics, &filter));

    // No match: filter at position 0 doesn't match
    let filter = vec![Some(vec![topic_b])];
    assert!(!topics_match(&log_topics, &filter));
}

#[test]
fn test_topics_match_or_array() {
    let topic_a = [0xAA; 32];
    let topic_b = [0xBB; 32];
    let topic_c = [0xCC; 32];
    let log_topics = vec![topic_a];

    // OR: topic_a OR topic_c at position 0 — matches because topic_a is present
    let filter = vec![Some(vec![topic_a, topic_c])];
    assert!(topics_match(&log_topics, &filter));

    // OR: topic_b OR topic_c at position 0 — no match
    let filter = vec![Some(vec![topic_b, topic_c])];
    assert!(!topics_match(&log_topics, &filter));
}

#[test]
fn test_topics_match_wildcard_then_exact() {
    let topic_a = [0xAA; 32];
    let topic_b = [0xBB; 32];
    let log_topics = vec![topic_a, topic_b];

    // Position 0: wildcard, Position 1: exact match on topic_b
    let filter: Vec<Option<Vec<[u8; 32]>>> = vec![None, Some(vec![topic_b])];
    assert!(topics_match(&log_topics, &filter));

    // Position 0: wildcard, Position 1: wrong topic
    let filter: Vec<Option<Vec<[u8; 32]>>> = vec![None, Some(vec![topic_a])];
    assert!(!topics_match(&log_topics, &filter));
}

#[test]
fn test_topics_match_insufficient_log_topics() {
    let log_topics = vec![[0x01; 32]]; // Only 1 topic

    // Filter requires topic at position 1 — log doesn't have it
    let filter = vec![None, Some(vec![[0x02; 32]])];
    assert!(!topics_match(&log_topics, &filter));
}

#[test]
fn test_topics_match_empty_log_topics() {
    let log_topics: Vec<[u8; 32]> = vec![];

    // Any non-wildcard filter should fail on empty log
    let filter = vec![Some(vec![[0x01; 32]])];
    assert!(!topics_match(&log_topics, &filter));

    // All wildcards should match even empty logs
    let filter: Vec<Option<Vec<[u8; 32]>>> = vec![None, None];
    assert!(topics_match(&log_topics, &filter));
}

#[test]
fn test_supported_precompiles_returns_nine() {
    let precompiles = supported_precompiles();
    assert_eq!(
        precompiles.len(),
        9,
        "Should return exactly 9 precompiles (0x01-0x09)"
    );
}

#[test]
fn test_supported_precompiles_addresses_sequential() {
    let precompiles = supported_precompiles();
    for (i, (addr, _name)) in precompiles.iter().enumerate() {
        // Each precompile address should be [0..0, N] where N = i+1
        assert_eq!(
            addr[19],
            (i + 1) as u8,
            "Precompile {} should have addr byte 0x{:02x}",
            i,
            i + 1
        );
        // First 19 bytes should be zero
        assert_eq!(
            &addr[..19],
            &[0u8; 19],
            "Precompile prefix bytes should be zero"
        );
    }
}

#[test]
fn test_precompile_constants_match_ethereum() {
    // Standard Ethereum precompile addresses per EIP-196, EIP-197, EIP-198, EIP-152
    assert_eq!(PRECOMPILE_ECRECOVER[19], 0x01);
    assert_eq!(PRECOMPILE_SHA256[19], 0x02);
    assert_eq!(PRECOMPILE_RIPEMD160[19], 0x03);
    assert_eq!(PRECOMPILE_IDENTITY[19], 0x04);
    assert_eq!(PRECOMPILE_MODEXP[19], 0x05);
    assert_eq!(PRECOMPILE_BN256_ADD[19], 0x06);
    assert_eq!(PRECOMPILE_BN256_MUL[19], 0x07);
    assert_eq!(PRECOMPILE_BN256_PAIRING[19], 0x08);
    assert_eq!(PRECOMPILE_BLAKE2F[19], 0x09);
}

#[test]
fn test_precompile_constants_are_20_byte_addresses() {
    let all = [
        PRECOMPILE_ECRECOVER,
        PRECOMPILE_SHA256,
        PRECOMPILE_RIPEMD160,
        PRECOMPILE_IDENTITY,
        PRECOMPILE_MODEXP,
        PRECOMPILE_BN256_ADD,
        PRECOMPILE_BN256_MUL,
        PRECOMPILE_BN256_PAIRING,
        PRECOMPILE_BLAKE2F,
    ];
    for (i, addr) in all.iter().enumerate() {
        assert_eq!(addr.len(), 20, "Precompile {} address must be 20 bytes", i);
        // All leading bytes zero, only last byte nonzero
        for (j, byte) in addr[..19].iter().enumerate() {
            assert_eq!(*byte, 0, "Precompile {} byte {} should be 0", i, j);
        }
    }
}

#[test]
fn test_evm_execution_result_includes_structured_logs() {
    let result = EvmExecutionResult {
        success: true,
        gas_used: 21000,
        output: vec![],
        created_address: None,
        logs: vec![],
        structured_logs: vec![
            EvmLog {
                address: [0x01; 20],
                topics: vec![[0xAA; 32]],
                data: vec![1, 2, 3],
            },
            EvmLog {
                address: [0x02; 20],
                topics: vec![[0xBB; 32], [0xCC; 32]],
                data: vec![4, 5],
            },
        ],
    };
    assert_eq!(result.structured_logs.len(), 2);
    assert_eq!(result.structured_logs[0].address, [0x01; 20]);
    assert_eq!(result.structured_logs[1].topics.len(), 2);
}


fn be(x: u128) -> [u8; 32] {
    let mut r = [0u8; 32];
    r[16..].copy_from_slice(&x.to_be_bytes());
    r
}

#[test]
fn test_spores_to_u256_conversion() {
    let spores: u64 = 1_000_000_000; // 1 LICN
    let u256 = spores_to_u256(spores);
    // spores_to_u256 converts spores → wei (1 spore = 10^9 wei)
    assert!(u256 > [0u8; 32]);
    assert_eq!(u256, be(1_000_000_000_000_000_000));
}

#[test]
fn test_evm_state_change_default() {
    let changes = EvmStateChanges::default();
    assert!(changes.changes.is_empty());
    assert!(changes.errors.is_empty());
}

#[test]
fn test_evm_state_change_construction() {
    let change = EvmStateChange {
        evm_address: [0xAB; 20],
        account: Some(EvmAccount {
            nonce: 1,
            balance: [0u8; 32],
            code: vec![],
        }),
        storage_changes: vec![([0x01; 32], Some(be(42)))],
        native_balance_update: None,
    };
    assert_eq!(change.evm_address[0], 0xAB);
    assert!(change.account.is_some());
    assert_eq!(change.storage_changes.len(), 1);
    assert!(change.native_balance_update.is_none());
}

#[test]
fn test_evm_state_changes_with_native_balance() {
    let pk = Pubkey([0x01; 32]);
    let change = EvmStateChange {
        evm_address: [0xCC; 20],
        account: None,
        storage_changes: vec![],
        native_balance_update: Some((pk, 500)),
    };
    let changes = EvmStateChanges {
        changes: vec![change],
        errors: vec![],
    };
    assert_eq!(changes.changes.len(), 1);
    assert_eq!(changes.changes[0].native_balance_update.unwrap().1, 500);
}

#[test]
fn test_u256_spore_conversions() {
    assert!(u256_is_multiple_of_spore(&be(5_000_000_000)));
    assert!(!u256_is_multiple_of_spore(&be(5_000_000_001)));
    assert_eq!(u256_to_spores(&be(5_999_999_999)), 5);
    assert_eq!(u256_to_spores_checked(&be(7_000_000_000)), Ok(7));
    let huge = [0xffu8; 32];
    assert_eq!(u256_to_spores(&huge), u64::MAX);
    let err = u256_to_spores_checked(&huge).unwrap_err();
    assert_eq!(
        err,
        "EVM value 115792089237316195423570985008687907853269984665640564039457584007913129639935 exceeds maximum representable spores"
    );
    // exactly u64::MAX spores still fits
    let max_wei = (u64::MAX as u128) * 1_000_000_000;
    assert_eq!(u256_to_spores_checked(&be(max_wei)), Ok(u64::MAX));
    assert!(u256_to_spores_checked(&be(max_wei + 1_000_000_000)).is_err());
    assert_eq!(u256_to_decimal(&[0u8; 32]), "0");
    assert_eq!(u256_to_decimal(&be(1234567890123456789)), "1234567890123456789");
}

#[test]
fn test_evm_account_defaults() {
    let mut a = EvmAccount::default();
    assert_eq!(a.nonce, 0);
    assert_eq!(a.balance_u256(), [0u8; 32]);
    a.set_balance_u256(be(9));
    assert_eq!(a.balance_u256(), be(9));
    assert_eq!(EVM_PROGRAM_ID, [0xEE; 32]);
}

fn unhex(s: &str) -> Vec<u8> {
    (0..s.len()).step_by(2).map(|i| u8::from_str_radix(&s[i..i + 2], 16).unwrap()).collect()
}

// The signed example transaction of EIP-155 (nonce 9, 20 gwei, 21000 gas,
// 1 ether to 0x3535..35, chain id 1).
const EIP155_TX: &str = "f86c098504a817c800825208943535353535353535353535353535353535353535880de0b6b3a76400008025a028ef61340bd939bc2195fe537567866003e1a15d3c71ff63e1590620aa636276a067cbe9d8997f761aecb703304b3800ccf555c9f3dc64214b297fb1966a3b6d83";

#[test]
fn test_decode_legacy_eip155_transaction() {
    let raw = unhex(EIP155_TX);
    let tx = decode_evm_transaction(&raw).unwrap();
    assert_eq!(tx.nonce, 9);
    assert_eq!(tx.gas_limit, 21_000);
    assert_eq!(tx.gas_price, be(20_000_000_000));
    assert!(tx.max_fee_per_gas.is_none());
    assert!(tx.max_priority_fee_per_gas.is_none());
    assert_eq!(tx.to, Some([0x35; 20]));
    assert_eq!(tx.value, be(1_000_000_000_000_000_000));
    assert_eq!(tx.chain_id, Some(1));
    assert!(tx.data.is_empty());
    assert_eq!(tx.raw, raw);
    assert_eq!(tx.hash, evm_tx_hash(&raw));
    assert_eq!(tx.from.to_vec(), unhex("9d8a62f656a8d1615c1294fd71e9cfb3e4855a4f"));
    assert_eq!(evm_tx_to_native_instruction(&raw), raw);
}

#[test]
fn test_decode_garbage_transaction_fails() {
    assert!(decode_evm_transaction(&[0x01, 0x02, 0x03]).is_err());
    assert!(decode_evm_transaction(&[]).is_err());
}

fn plain_tx(chain_id: Option<u64>, value: [u8; 32]) -> moltchain_core::evm::EvmTx {
    moltchain_core::evm::EvmTx {
        raw: vec![],
        hash: [0u8; 32],
        from: [1u8; 20],
        to: None,
        nonce: 0,
        gas_limit: 21_000,
        gas_price: spores_to_u256(1),
        max_fee_per_gas: None,
        max_priority_fee_per_gas: None,
        value,
        data: vec![],
        chain_id,
    }
}

#[test]
fn test_check_evm_tx_preconditions() {
    assert!(check_evm_tx_preconditions(&plain_tx(Some(7), spores_to_u256(5)), 7).is_ok());
    assert_eq!(
        check_evm_tx_preconditions(&plain_tx(None, spores_to_u256(5)), 7).unwrap_err(),
        "Transaction must include chain_id (EIP-155)"
    );
    assert_eq!(
        check_evm_tx_preconditions(&plain_tx(Some(8), spores_to_u256(5)), 7).unwrap_err(),
        "Invalid chainId: expected 7, got 8"
    );
    let mut odd = [0u8; 32];
    odd[31] = 1;
    assert_eq!(
        check_evm_tx_preconditions(&plain_tx(Some(7), odd), 7).unwrap_err(),
        "EVM value must be multiple of 1e9 wei"
    );
    let mut tx = plain_tx(Some(7), spores_to_u256(5));
    tx.max_priority_fee_per_gas = Some(odd);
    assert_eq!(
        check_evm_tx_preconditions(&tx, 7).unwrap_err(),
        "EVM priority fee must be multiple of 1e9 wei"
    );
    tx.max_fee_per_gas = Some(odd);
    assert_eq!(check_evm_tx_preconditions(&tx, 7).unwrap_err(), "EVM max fee must be multiple of 1e9 wei");
}
