use moltchain_core::reef_storage::{ReefStorage, REWARD_PER_SLOT_PER_BYTE};

fn entry_u64(b: &[u8], at: usize) -> u64 {
    u64::from_le_bytes(b[at..at + 8].try_into().unwrap())
}

#[test]
fn test_store_data() {
    let mut s = ReefStorage::new();
    let owner = [1u8; 32];
    let data_hash = [0xAA; 32];
    let result = s.store_data(owner, data_hash, 1024, 3, 5000, 100);
    assert_eq!(result, 0);

    let entry = s.get_storage_info(&data_hash).unwrap();
    assert!(entry.len() >= 59);
    assert_eq!(&entry[0..32], &owner);
    assert_eq!(entry_u64(&entry, 32), 1024);
    assert_eq!(entry[40], 3);
    assert_eq!(entry[41], 0);
    assert_eq!(entry_u64(&entry, 42), 5100); // 100 + 5000
    assert_eq!(entry[58], 0);
    assert_eq!(s.data_count, 1);
}

#[test]
fn test_store_data_duplicate_fails() {
    let mut s = ReefStorage::new();
    let owner = [1u8; 32];
    let data_hash = [0xBB; 32];
    s.store_data(owner, data_hash, 512, 2, 2000, 100);
    let result = s.store_data(owner, data_hash, 256, 1, 1000, 100);
    assert_eq!(result, 4); // already registered
}

#[test]
fn test_confirm_storage() {
    let mut s = ReefStorage::new();
    let owner = [1u8; 32];
    let data_hash = [0xCC; 32];
    let provider_addr = [2u8; 32];
    assert_eq!(s.register_provider(provider_addr, 1_000_000, 100), 0);
    s.store_data(owner, data_hash, 1024, 3, 5000, 100);
    assert_eq!(s.confirm_storage(provider_addr, data_hash, 100), 0);

    let entry = s.get_storage_info(&data_hash).unwrap();
    assert_eq!(entry[41], 1);
    assert_eq!(entry[58], 1);
    assert_eq!(&entry[59..91], &provider_addr);

    let prov = s.providers.get(&provider_addr).unwrap();
    assert_eq!(prov.used, 1024);
    assert_eq!(prov.stored_count, 1);

    let reward = *s.rewards.get(&provider_addr).unwrap();
    assert!(reward > 0);
    assert_eq!(reward, 5000 * 1024 * REWARD_PER_SLOT_PER_BYTE);
}

#[test]
fn test_get_storage_info() {
    let mut s = ReefStorage::new();
    let owner = [1u8; 32];
    let data_hash = [0xDD; 32];
    s.store_data(owner, data_hash, 2048, 2, 3000, 50);
    let ret = s.get_storage_info(&data_hash).unwrap();
    assert!(ret.len() >= 59);
    assert_eq!(entry_u64(&ret, 32), 2048);
}

#[test]
fn test_get_storage_info_not_found() {
    let s = ReefStorage::new();
    assert!(s.get_storage_info(&[0xFF; 32]).is_none());
}

#[test]
fn test_register_provider() {
    let mut s = ReefStorage::new();
    let provider_addr = [5u8; 32];
    assert_eq!(s.register_provider(provider_addr, 500_000, 10), 0);
    let prov = s.providers.get(&provider_addr).unwrap();
    assert_eq!(prov.capacity, 500_000);
    assert!(prov.active);
    assert_eq!(prov.registered_slot, 10);
    assert_eq!(s.register_provider(provider_addr, 1, 10), 2);
    assert_eq!(s.register_provider([6u8; 32], 0, 10), 1);
}

#[test]
fn test_claim_storage_rewards() {
    let mut s = ReefStorage::new();
    let owner = [1u8; 32];
    let data_hash = [0xEE; 32];
    let provider_addr = [2u8; 32];
    s.register_provider(provider_addr, 1_000_000, 100);
    s.store_data(owner, data_hash, 100, 1, 5000, 100);
    s.confirm_storage(provider_addr, data_hash, 100);

    let (code, reward) = s.claim_storage_rewards(provider_addr);
    assert_eq!(code, 0);
    assert!(reward > 0);
    assert_eq!(*s.rewards.get(&provider_addr).unwrap(), 0);
    assert_eq!(s.claim_storage_rewards(provider_addr), (1, 0));
}

#[test]
fn test_initialize_admin() {
    let mut s = ReefStorage::new();
    let admin = [9u8; 32];
    assert_eq!(s.initialize(admin), 0);
    assert_eq!(s.initialize(admin), 1); // double init
}

#[test]
fn test_stake_collateral() {
    let mut s = ReefStorage::new();
    let provider_addr = [2u8; 32];
    s.register_provider(provider_addr, 1_073_741_824, 10); // 1 GB
    assert_eq!(s.stake_collateral(provider_addr, 1_000_000), 0);
    assert_eq!(s.get_provider_stake(&provider_addr), 1_000_000);
}

#[test]
fn test_stake_too_low() {
    let mut s = ReefStorage::new();
    let provider_addr = [2u8; 32];
    s.register_provider(provider_addr, 2_000_000_000, 10); // ~2 GB
    assert_eq!(s.stake_collateral(provider_addr, 500_000), 2);
}

#[test]
fn test_set_storage_price() {
    let mut s = ReefStorage::new();
    let provider_addr = [2u8; 32];
    s.register_provider(provider_addr, 1_000_000, 10);
    assert_eq!(s.set_storage_price(provider_addr, 5), 0);
    assert_eq!(s.get_storage_price(&provider_addr), 5);
}

#[test]
fn test_storage_price_default() {
    let s = ReefStorage::new();
    assert_eq!(s.get_storage_price(&[0xFF; 32]), REWARD_PER_SLOT_PER_BYTE);
}

fn challenged(replication: u8, capacity: u64, stake: u64) -> (ReefStorage, [u8; 32], [u8; 32]) {
    let mut s = ReefStorage::new();
    s.initialize([9u8; 32]);
    let owner = [1u8; 32];
    let data_hash = [0xCC; 32];
    let provider_addr = [2u8; 32];
    s.register_provider(provider_addr, capacity, 100);
    if stake > 0 {
        assert_eq!(s.stake_collateral(provider_addr, stake), 0);
    }
    s.store_data(owner, data_hash, 1024, replication, 5000, 100);
    assert_eq!(s.confirm_storage(provider_addr, data_hash, 100), 0);
    assert_eq!(s.issue_challenge(data_hash, provider_addr, 42, 100), 0);
    (s, data_hash, provider_addr)
}

#[test]
fn test_issue_and_respond_challenge() {
    let (mut s, data_hash, provider_addr) = challenged(3, 1_000_000, 0);
    let response = [0xBB; 32]; // non-zero = valid
    assert_eq!(s.respond_challenge(provider_addr, data_hash, response, 100), 0);
}

#[test]
fn test_challenge_duplicate_rejected() {
    let (mut s, data_hash, provider_addr) = challenged(1, 1_000_000, 0);
    assert_eq!(s.issue_challenge(data_hash, provider_addr, 99, 100), 4);
}

#[test]
fn test_slash_unanswered_challenge() {
    let (mut s, data_hash, provider_addr) = challenged(1, 1_073_741_824, 1_000_000);
    let (code, amount) = s.slash_provider(data_hash, provider_addr, 400);
    assert_eq!(code, 0);
    assert_eq!(s.get_provider_stake(&provider_addr), 900_000);
    assert_eq!(amount, 100_000);
}

#[test]
fn test_slash_answered_challenge_fails() {
    let (mut s, data_hash, provider_addr) = challenged(1, 1_073_741_824, 1_000_000);
    s.respond_challenge(provider_addr, data_hash, [0xBB; 32], 100);
    assert_eq!(s.slash_provider(data_hash, provider_addr, 400).0, 2);
}

#[test]
fn test_slash_before_deadline_fails() {
    let (mut s, data_hash, provider_addr) = challenged(1, 1_000_000, 0);
    assert_eq!(s.slash_provider(data_hash, provider_addr, 100).0, 3);
}

#[test]
fn test_set_challenge_window_admin_only() {
    let mut s = ReefStorage::new();
    let admin = [9u8; 32];
    s.initialize(admin);
    assert_eq!(s.set_challenge_window(admin, 500), 0);
    let other = [8u8; 32];
    assert_eq!(s.set_challenge_window(other, 500), 2);
    assert_eq!(s.set_challenge_window(admin, 5), 3);
    assert_eq!(s.set_slash_percent(admin, 101), 3);
    assert_eq!(s.set_slash_percent(admin, 50), 0);
}

#[test]
fn test_challenge_zero_response_rejected() {
    let (mut s, data_hash, provider_addr) = challenged(1, 1_000_000, 0);
    assert_eq!(s.respond_challenge(provider_addr, data_hash, [0u8; 32], 100), 4);
}

#[test]
fn test_confirm_storage_refusals() {
    let mut s = ReefStorage::new();
    let p = [2u8; 32];
    let h = [3u8; 32];
    assert_eq!(s.confirm_storage(p, h, 0), 1);
    s.store_data([1u8; 32], h, 2_000, 1, 1000, 0);
    assert_eq!(s.confirm_storage(p, h, 0), 4);
    assert_eq!(s.confirm_storage(p, h, 1001), 3);
    s.register_provider(p, 1_000, 0);
    // capacity exceeded: the request keeps the provider, its usage does not change
    assert_eq!(s.confirm_storage(p, h, 0), 8);
    assert_eq!(s.get_storage_info(&h).unwrap()[58], 1);
    assert_eq!(s.providers.get(&p).unwrap().used, 0);
    assert_eq!(s.confirm_storage(p, h, 0), 6);
    let q = [4u8; 32];
    s.register_provider(q, 1_000_000, 0);
    assert_eq!(s.confirm_storage(q, h, 0), 7);
}

#[test]
fn test_reef_log_lines() {
    let mut s = ReefStorage::new();
    assert_eq!(s.store_data([1u8; 32], [2u8; 32], 0, 1, 2000, 0), 1);
    assert_eq!(s.logs.last().unwrap(), "Data size must be > 0");
    assert_eq!(s.store_data([1u8; 32], [2u8; 32], 10, 1, 2000, 0), 0);
    assert_eq!(s.logs.last().unwrap(), "Data storage request registered");
    let n = s.logs.len();
    // An unknown request is refused without a log line.
    assert_eq!(s.issue_challenge([9u8; 32], [3u8; 32], 1, 0), 1);
    assert_eq!(s.logs.len(), n);
    assert_eq!(s.register_provider([3u8; 32], 100, 0), 0);
    assert_eq!(s.logs.last().unwrap(), "Storage provider registered");
}
