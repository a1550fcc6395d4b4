//! The MOLT price feed as the oracle contract stores it, and when a read
//! of it may be used.
use vstd::prelude::*;
use crate::contract::ContractAccount;

verus! {

/// Age, in seconds, past which a price is stale.
pub const ORACLE_STALENESS_SECS: u64 = 3600;

/// Little-endian value of eight bytes.
pub open spec fn le_u64_at(b: Seq<u8>, at: int) -> u64 {
    (b[at] as int + b[at + 1] as int * 0x100 + b[at + 2] as int * 0x1_0000 + b[at + 3] as int * 0x100_0000
        + b[at + 4] as int * 0x1_0000_0000 + b[at + 5] as int * 0x100_0000_0000
        + b[at + 6] as int * 0x1_0000_0000_0000 + b[at + 7] as int * 0x100_0000_0000_0000) as u64
}

fn read_le_u64(b: &Vec<u8>, at: usize) -> (r: u64)
    requires
        at + 8 <= b.len(),
    ensures
        r == le_u64_at(b@, at as int),
{
    let mut r: u64 = 0;
    let mut i: usize = 8;
    while i > 0
        invariant
            i <= 8,
            at + 8 <= b.len(),
            r as int == le_tail(b@, at as int, i as int),
            r as int <= le_tail_max(i as int),
        decreases i,
    {
        i -= 1;
        proof {
            reveal_with_fuel(le_tail_max, 9);
            assert(le_tail_max(i as int) <= 0xffff_ffff_ffff_ffff);
            assert(le_tail(b@, at as int, i as int) == le_tail(b@, at as int, (i + 1) as int) * 256 + b@[at + i]);
            assert(le_tail(b@, at as int, (i + 1) as int) * 256 + b@[at + i] <= le_tail_max(i as int)) by (nonlinear_arith)
                requires
                    le_tail(b@, at as int, (i + 1) as int) <= le_tail_max((i + 1) as int),
                    le_tail_max(i as int) == le_tail_max((i + 1) as int) * 256 + 255,
                    b@[at + i] <= 255,
            ;
        }
        r = r * 256 + b[at + i] as u64;
    }
    proof {
        reveal_with_fuel(le_tail, 9);
    }
    r
}

/// Value of the bytes from `at + i` to `at + 8`, little-endian.
pub open spec fn le_tail(b: Seq<u8>, at: int, i: int) -> int
    decreases 8 - i,
{
    if i >= 8 { 0 } else { le_tail(b, at, i + 1) * 256 + b[at + i] }
}

/// Largest value of `8 - i` bytes.
pub open spec fn le_tail_max(i: int) -> int
    decreases 8 - i,
{
    if i >= 8 { 0 } else { le_tail_max(i + 1) * 256 + 255 }
}

/// The MOLT feed of an oracle contract: the `price_MOLT` entry holds the
/// raw price (8 bytes LE), the timestamp (8 bytes LE) and the decimals (1
/// byte), then the feeder; None when missing or shorter than 17 bytes.
/// The result is (price, decimals, timestamp).
pub fn molt_price_feed_from_contract(contract: &ContractAccount) -> (r: Option<(u64, u8, u64)>)
    requires
        contract.wf(),
    ensures
        r is Some <==> (contract.storage_map().dom().contains("price_MOLT"@.map_values(|c: char| c as u8))
            && contract.storage_map()["price_MOLT"@.map_values(|c: char| c as u8)].len() >= 17),
        r matches Some((p, d, t)) ==> {
            let feed = contract.storage_map()["price_MOLT"@.map_values(|c: char| c as u8)];
            p == le_u64_at(feed, 0) && t == le_u64_at(feed, 8) && d == feed[16]
        },
{
    let key: [u8; 10] = [0x70u8, 0x72, 0x69, 0x63, 0x65, 0x5f, 0x4d, 0x4f, 0x4c, 0x54];
    proof {
        reveal_strlit("price_MOLT");
        assert(key@ =~= "price_MOLT"@.map_values(|c: char| c as u8));
    }
    let feed = match contract.get_storage(&key) {
        Some(f) => f,
        None => return None,
    };
    if feed.len() < 17 {
        return None;
    }
    let price = read_le_u64(&feed, 0);
    let timestamp = read_le_u64(&feed, 8);
    Some((price, feed[16], timestamp))
}

/// A feed read may be used: not stale against `now` (when both times are
/// known), a non-zero price, and at most 18 decimals.
pub open spec fn spec_feed_usable(price_raw: u64, decimals: u8, timestamp: u64, now: u64) -> bool {
    !(now > 0 && timestamp > 0 && (if now >= timestamp { now - timestamp } else { 0 }) > ORACLE_STALENESS_SECS)
        && price_raw != 0 && decimals <= 18
}

/// Whether a feed read may be used (see `spec_feed_usable`); the price in
/// dollars is then `price_raw / 10^decimals`.
pub fn price_feed_usable(price_raw: u64, decimals: u8, timestamp: u64, now: u64) -> (r: bool)
    ensures
        r == spec_feed_usable(price_raw, decimals, timestamp, now),
{
    if now > 0 && timestamp > 0 && now.saturating_sub(timestamp) > ORACLE_STALENESS_SECS {
        return false;
    }
    price_raw != 0 && decimals <= 18
}

} // verus!
