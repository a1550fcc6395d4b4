use moltchain_core::weth_token::{WethToken, EPOCH_SLOTS, MINT_CAP_PER_EPOCH};

fn addr(id: u8) -> [u8; 32] {
    let mut a = [0u8; 32];
    a[0] = id;
    a
}

fn token(admin: [u8; 32]) -> WethToken {
    let mut t = WethToken::new();
    assert_eq!(t.initialize(admin, 0), 0);
    t
}

#[test]
fn test_initialize() {
    let admin = addr(1);
    let mut t = WethToken::new();
    assert_eq!(t.initialize(admin, 0), 0);
    assert_eq!(t.total_supply, 0);
    assert_eq!(t.initialize(addr(9), 0), 1);
    let mut u = WethToken::new();
    assert_eq!(u.initialize([0u8; 32], 0), 2);
}

#[test]
fn test_mint_and_burn() {
    let admin = addr(1);
    let user = addr(2);
    let mut t = token(admin);
    assert_eq!(t.mint(admin, admin, user, 1_500_000_000, 0), 0); // 1.5 ETH
    assert_eq!(t.balance_of(&user), 1_500_000_000);
    assert_eq!(t.total_supply, 1_500_000_000);

    assert_eq!(t.burn(user, user, 500_000_000), 0); // burn 0.5 ETH
    assert_eq!(t.balance_of(&user), 1_000_000_000);
    assert_eq!(t.total_supply, 1_000_000_000);
    assert_eq!(t.total_burned, 500_000_000);
    assert_eq!(t.logs.last().unwrap(), "BURN wETH #1: 500000000 wei from 0x02000000");
}

#[test]
fn test_transfer() {
    let admin = addr(1);
    let alice = addr(2);
    let bob = addr(3);
    let mut t = token(admin);
    t.mint(admin, admin, alice, 5_000_000_000, 0);
    assert_eq!(t.transfer(alice, alice, bob, 2_000_000_000), 0);
    assert_eq!(t.balance_of(&alice), 3_000_000_000);
    assert_eq!(t.balance_of(&bob), 2_000_000_000);
}

#[test]
fn test_approve_transfer_from() {
    let admin = addr(1);
    let alice = addr(2);
    let bob = addr(3);
    let dex = addr(4);
    let mut t = token(admin);
    t.mint(admin, admin, alice, 10_000_000_000, 0);
    assert_eq!(t.approve(alice, alice, dex, 5_000_000_000), 0);
    assert_eq!(t.transfer_from(dex, dex, alice, bob, 3_000_000_000), 0);
    assert_eq!(t.balance_of(&bob), 3_000_000_000);
    assert_eq!(t.allowance(&alice, &dex), 2_000_000_000);
}

#[test]
fn test_reserve_circuit_breaker() {
    let admin = addr(1);
    let user = addr(2);
    let proof = [0xABu8; 32];
    let mut t = token(admin);
    assert_eq!(t.attest_reserves(admin, admin, 5_000_000_000, proof, 0), 0);
    assert_eq!(t.mint(admin, admin, user, 5_000_000_000, 0), 0);
    assert_eq!(t.mint(admin, admin, user, 1, 0), 10); // blocked
}

#[test]
fn test_non_admin_cannot_mint() {
    let admin = addr(1);
    let user = addr(2);
    let mut t = token(admin);
    assert_eq!(t.mint(user, user, user, 1_000_000_000, 0), 2);
}

#[test]
fn test_pause_blocks_operations() {
    let admin = addr(1);
    let user = addr(2);
    let mut t = token(admin);
    t.mint(admin, admin, user, 1_000_000_000, 0);
    t.emergency_pause(admin, admin);
    assert_eq!(t.transfer(user, user, admin, 100), 1);
    t.emergency_unpause(admin, admin);
    assert_eq!(t.transfer(user, user, admin, 100), 0);
}

#[test]
fn test_admin_transfer() {
    let admin = addr(1);
    let new_admin = addr(5);
    let user = addr(2);
    let mut t = token(admin);
    assert_eq!(t.transfer_admin(admin, admin, new_admin), 0);
    assert_eq!(t.mint(admin, admin, user, 1_000_000_000, 0), 2);
    assert_eq!(t.mint(new_admin, new_admin, user, 1_000_000_000, 0), 0);
}

#[test]
fn test_weth_codes_and_epoch_cap() {
    let admin = addr(1);
    let user = addr(2);
    let mut t = token(admin);
    assert_eq!(t.mint(admin, user, user, 1, 0), 200);
    assert_eq!(t.mint(admin, admin, [0u8; 32], 1, 0), 3);
    assert_eq!(t.mint(admin, admin, user, 0, 0), 4);
    assert_eq!(t.mint(admin, admin, user, MINT_CAP_PER_EPOCH, 0), 0);
    assert_eq!(t.get_epoch_remaining(1), 0);
    assert_eq!(t.mint(admin, admin, user, 1, 1), 11);
    // a new epoch starts at the first mint past its end
    assert_eq!(t.get_epoch_remaining(EPOCH_SLOTS), MINT_CAP_PER_EPOCH);
    assert_eq!(t.mint(admin, admin, user, 7, EPOCH_SLOTS), 0);
    assert_eq!(t.epoch_start, EPOCH_SLOTS);
    assert_eq!(t.transfer(user, user, user, 1), 6);
    assert_eq!(t.burn(user, user, u64::MAX), 5);
    assert_eq!(t.approve(user, user, user, 1), 6);
    assert_eq!(t.transfer_from(admin, admin, user, addr(3), 1), 7);
    assert_eq!(t.get_reserve_ratio(), 0);
    assert_eq!(WethToken::new().get_reserve_ratio(), 10_000);
}

#[test]
fn test_weth_log_lines() {
    let admin = addr(1);
    let user = addr(0xab);
    let mut t = token(admin);
    assert_eq!(t.logs.last().unwrap(), "wETH token initialized");
    assert_eq!(t.mint(admin, admin, user, 42, 0), 0);
    assert_eq!(t.logs.last().unwrap(), "MINT wETH #1: 42 wei to 0xab000000");
    assert_eq!(t.attest_reserves(admin, admin, 42, [7u8; 32], 5), 0);
    assert_eq!(t.logs.last().unwrap(), "wETH RESERVE ATTESTATION #1: 42 wei backing declared");
    let n = t.logs.len();
    assert_eq!(t.mint(admin, admin, user, 1, 0), 10);
    assert_eq!(t.logs.len(), n + 1);
    assert_eq!(t.logs.last().unwrap(), "CIRCUIT BREAKER: wETH mint blocked — exceeds attested reserves");
    assert_eq!(t.transfer(user, user, admin, 2), 0);
    assert_eq!(t.logs.len(), n + 1);
    assert_eq!(t.emergency_pause(admin, admin), 0);
    assert_eq!(t.logs.last().unwrap(), "wETH: EMERGENCY PAUSE");
}
