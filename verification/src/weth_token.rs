//! The wrapped-ETH token contract: a 1:1 receipt token minted by the
//! treasury admin against attested reserves, with a circuit breaker at the
//! attested amount, a per-epoch mint cap, a reentrancy guard and an
//! emergency pause. Its storage is held as typed state; each entry point
//! takes the transaction signer and slot and returns the contract's code
//! (0 for success).
use vstd::prelude::*;
use crate::bytes::bytes32_eq;
use crate::crypto::{hex_encode, hex_lower};
use crate::entry_map::EntryMap;
use crate::keymap::KeyMap;
use crate::text::{decimal, u64_to_decimal, logs_after};

verus! {

broadcast use vstd::array::group_array_axioms;

/// Most wei (in gwei units) that may be minted per epoch: 500 ETH.
pub const MINT_CAP_PER_EPOCH: u64 = 500_000_000_000;
/// Slots per mint epoch.
pub const EPOCH_SLOTS: u64 = 86_400;

/// One reserve attestation: amount, slot and proof hash.
#[derive(Debug, Clone, Copy)]
pub struct ReserveAttestation {
    pub amount: u64,
    pub slot: u64,
    pub proof_hash: [u8; 32],
}

/// The token's state.
#[derive(Debug, Clone)]
pub struct WethToken {
    pub admin: [u8; 32],
    pub paused: bool,
    pub in_call: bool,
    pub total_supply: u64,
    pub total_minted: u64,
    pub total_burned: u64,
    pub reserve_attested: u64,
    pub reserve_slot: u64,
    pub reserve_hash: [u8; 32],
    pub attestation_count: u64,
    pub attestations: EntryMap<u64, ReserveAttestation>,
    pub epoch_start: u64,
    pub epoch_minted: u64,
    pub mint_events: u64,
    pub burn_events: u64,
    pub transfer_count: u64,
    pub balances: KeyMap<u64>,
    pub allowances: EntryMap<Vec<u8>, u64>,
    pub logs: Vec<String>,
}

/// All 32 bytes zero.
pub open spec fn zero_addr(a: [u8; 32]) -> bool {
    forall|i: int| 0 <= i < 32 ==> a@[i] == 0
}

/// Key of the allowance of `spender` over `owner`'s tokens.
pub open spec fn allowance_key_view(owner: [u8; 32], spender: [u8; 32]) -> Seq<u8> {
    owner@ + spender@
}

/// Saturating addition.
pub open spec fn sat_add(a: u64, b: u64) -> u64 {
    if a + b > u64::MAX { u64::MAX } else { (a + b) as u64 }
}

/// Saturating subtraction.
pub open spec fn sat_sub(a: u64, b: u64) -> u64 {
    if a < b { 0 } else { (a - b) as u64 }
}

impl WethToken {
    /// The maps are well formed and the epoch start leaves room for an epoch.
    pub open spec fn wf(&self) -> bool {
        &&& self.balances.wf()
        &&& self.allowances.wf()
        &&& self.attestations.wf()
        &&& self.epoch_start <= u64::MAX - EPOCH_SLOTS
    }

    /// Balance of `a` (zero when never credited).
    pub open spec fn balance(&self, a: [u8; 32]) -> u64 {
        if self.balances.view_map().dom().contains(a) { self.balances.view_map()[a] } else { 0 }
    }

    /// Allowance of `spender` over `owner`'s tokens (zero when never set).
    pub open spec fn allowance_of(&self, owner: [u8; 32], spender: [u8; 32]) -> u64 {
        let k = allowance_key_view(owner, spender);
        if self.allowances.view_map().dom().contains(k) { self.allowances.view_map()[k] } else { 0 }
    }

    /// True when `caller` is the (set) admin.
    pub open spec fn is_admin(&self, caller: [u8; 32]) -> bool {
        !zero_addr(self.admin) && caller == self.admin
    }

    /// A new, uninitialized token.
    pub fn new() -> (r: WethToken)
        ensures
            r.wf(),
            zero_addr(r.admin),
            !r.paused && !r.in_call,
            r.total_supply == 0,
            r.total_minted == 0,
            r.total_burned == 0,
            r.reserve_attested == 0,
            r.reserve_slot == 0,
            zero_addr(r.reserve_hash),
            r.attestation_count == 0,
            r.attestations.view_map() == Map::<u64, ReserveAttestation>::empty(),
            r.epoch_start == 0,
            r.epoch_minted == 0,
            r.mint_events == 0,
            r.burn_events == 0,
            r.transfer_count == 0,
            r.balances.view_map() == Map::<[u8; 32], u64>::empty(),
            r.allowances.view_map() == Map::<Seq<u8>, u64>::empty(),
            r.logs@.len() == 0,
    {
        WethToken {
            admin: [0u8; 32],
            paused: false,
            in_call: false,
            total_supply: 0,
            total_minted: 0,
            total_burned: 0,
            reserve_attested: 0,
            reserve_slot: 0,
            reserve_hash: [0u8; 32],
            attestation_count: 0,
            attestations: EntryMap::new(),
            epoch_start: 0,
            epoch_minted: 0,
            mint_events: 0,
            burn_events: 0,
            transfer_count: 0,
            balances: KeyMap::new(),
            allowances: EntryMap::new(),
            logs: Vec::new(),
        }
    }

    fn balance_get(&self, a: &[u8; 32]) -> (r: u64)
        requires
            self.balances.wf(),
        ensures
            r == self.balance(*a),
    {
        match self.balances.get(a) {
            Some(b) => *b,
            None => 0,
        }
    }

    fn allowance_get(&self, owner: &[u8; 32], spender: &[u8; 32]) -> (r: u64)
        requires
            self.allowances.wf(),
        ensures
            r == self.allowance_of(*owner, *spender),
    {
        let k = allowance_key(owner, spender);
        match self.allowances.get(&k) {
            Some(v) => *v,
            None => 0,
        }
    }

    /// Sets the admin once: 1 when already set, 2 for the zero key; else
    /// stores it, zeroes the totals, starts the epoch at `slot` and returns 0.
    pub fn initialize(&mut self, admin: [u8; 32], slot: u64) -> (r: u32)
        requires
            old(self).wf(),
            slot <= u64::MAX - EPOCH_SLOTS,
        ensures
            logs_after(old(self).logs@, final(self).logs@, if r == 0 { Some("wETH token initialized"@) } else { None }),
            final(self).wf(),
            !zero_addr(old(self).admin) ==> r == 1 && *final(self) == *old(self),
            zero_addr(old(self).admin) && zero_addr(admin) ==> r == 2 && *final(self) == *old(self),
            zero_addr(old(self).admin) && !zero_addr(admin) ==> r == 0 && final(self).admin == admin
                && final(self).total_supply == 0 && final(self).total_minted == 0 && final(self).total_burned == 0
                && final(self).epoch_start == slot && final(self).epoch_minted == 0
                && final(self).balances == old(self).balances && final(self).paused == old(self).paused,
            r == 0 ==> *final(self) == (WethToken { admin, total_supply: 0, total_minted: 0, total_burned: 0,
                epoch_start: slot, epoch_minted: 0, logs: final(self).logs, ..*old(self) }),
    {
        if !is_zero_addr(&self.admin) {
            return 1;
        }
        if is_zero_addr(&admin) {
            return 2;
        }
        self.admin = admin;
        self.total_supply = 0;
        self.total_minted = 0;
        self.total_burned = 0;
        self.epoch_start = slot;
        self.epoch_minted = 0;
        self.logs.push(String::from_str("wETH token initialized"));
        0
    }

    /// Mints `amount` to `to`. Codes: 100 reentered, 200 `caller_addr` is
    /// not the signer, 1 paused, 2 not the admin, 3 zero recipient, 4 zero
    /// amount, 10 over the attested reserves, 11 over the epoch cap; else
    /// credits the recipient, the supply and the minted total, counts the
    /// event, logs it and returns 0.
    pub fn mint(&mut self, signer: [u8; 32], caller_addr: [u8; 32], to: [u8; 32], amount: u64, slot: u64) -> (r: u32)
        requires
            old(self).wf(),
            slot <= u64::MAX - EPOCH_SLOTS,
        ensures
            final(self).in_call == old(self).in_call,
            logs_after(old(self).logs@, final(self).logs@, mint_line(*old(self), to, amount, r)),
            final(self).wf(),
            old(self).in_call ==> r == 100 && *final(self) == *old(self),
            !old(self).in_call ==> !final(self).in_call,
            r == 0 <==> (!old(self).in_call && signer == caller_addr && !old(self).paused && old(self).is_admin(caller_addr)
                && !zero_addr(to) && amount != 0
                && (old(self).reserve_attested == 0 || sat_add(old(self).total_supply, amount) <= old(self).reserve_attested)
                && epoch_cap_ok(*old(self), amount, slot)),
            !old(self).in_call && signer != caller_addr ==> r == 200,
            !old(self).in_call && signer == caller_addr && old(self).paused ==> r == 1,
            !old(self).in_call && signer == caller_addr && !old(self).paused && !old(self).is_admin(caller_addr) ==> r == 2,
            !old(self).in_call && signer == caller_addr && !old(self).paused && old(self).is_admin(caller_addr)
                && zero_addr(to) ==> r == 3,
            !old(self).in_call && signer == caller_addr && !old(self).paused && old(self).is_admin(caller_addr)
                && !zero_addr(to) && amount == 0 ==> r == 4,
            !old(self).in_call && signer == caller_addr && !old(self).paused && old(self).is_admin(caller_addr)
                && !zero_addr(to) && amount != 0 && old(self).reserve_attested != 0
                && sat_add(old(self).total_supply, amount) > old(self).reserve_attested ==> r == 10,
            !old(self).in_call && signer == caller_addr && !old(self).paused && old(self).is_admin(caller_addr)
                && !zero_addr(to) && amount != 0
                && (old(self).reserve_attested == 0 || sat_add(old(self).total_supply, amount) <= old(self).reserve_attested)
                && !epoch_cap_ok(*old(self), amount, slot) ==> r == 11,
            r == 0 ==> {
                &&& final(self).balance(to) == sat_add(old(self).balance(to), amount)
                &&& forall|a: [u8; 32]| a != to ==> final(self).balance(a) == old(self).balance(a)
                &&& final(self).total_supply == sat_add(old(self).total_supply, amount)
                &&& final(self).total_minted == sat_add(old(self).total_minted, amount)
                &&& final(self).mint_events == sat_add(old(self).mint_events, 1)
                &&& final(self).epoch_minted == epoch_minted_after(*old(self), amount, slot)
                &&& old(self).reserve_attested != 0 ==> final(self).total_supply <= old(self).reserve_attested
            },
            r != 0 && r != 11 ==> final(self).balances == old(self).balances && final(self).total_supply == old(self).total_supply
                && final(self).epoch_start == old(self).epoch_start && final(self).epoch_minted == old(self).epoch_minted,
            r == 11 ==> final(self).balances == old(self).balances && final(self).total_supply == old(self).total_supply,
            final(self).admin == old(self).admin,
            final(self).paused == old(self).paused,
            final(self).reserve_attested == old(self).reserve_attested,
            final(self).attestations == old(self).attestations,
            final(self).allowances == old(self).allowances,
    {
        if self.in_call {
            return 100;
        }
        if !bytes32_eq(&signer, &caller_addr) {
            return 200;
        }
        if self.paused {
            return 1;
        }
        if !self.caller_is_admin(&caller_addr) {
            return 2;
        }
        if is_zero_addr(&to) {
            return 3;
        }
        if amount == 0 {
            return 4;
        }
        if self.reserve_attested != 0 && self.total_supply.saturating_add(amount) > self.reserve_attested {
            self.logs.push(String::from_str("CIRCUIT BREAKER: wETH mint blocked — exceeds attested reserves"));
            return 10;
        }
        if !self.check_epoch_cap(amount, slot) {
            self.logs.push(String::from_str("RATE LIMIT: wETH epoch mint cap reached"));
            return 11;
        }
        if slot >= self.epoch_start + EPOCH_SLOTS {
            self.epoch_start = slot;
            self.epoch_minted = amount;
        } else {
            self.epoch_minted = self.epoch_minted.saturating_add(amount);
        }
        let bal = self.balance_get(&to);
        self.balances.insert(to, bal.saturating_add(amount));
        self.total_supply = self.total_supply.saturating_add(amount);
        self.total_minted = self.total_minted.saturating_add(amount);
        let evt = self.mint_events.saturating_add(1);
        self.mint_events = evt;
        let mut msg = String::from_str("MINT wETH #");
        msg.append(u64_to_decimal(evt).as_str());
        msg.append(": ");
        msg.append(u64_to_decimal(amount).as_str());
        msg.append(" wei to 0x");
        msg.append(hex_encode(vstd::slice::slice_subrange(to.as_slice(), 0, 4)).as_str());
        self.logs.push(msg);
        0
    }

    fn caller_is_admin(&self, caller: &[u8; 32]) -> (r: bool)
        ensures
            r == self.is_admin(*caller),
    {
        !is_zero_addr(&self.admin) && bytes32_eq(caller, &self.admin)
    }

    /// The epoch check of a mint: a new epoch starts (and records `amount`)
    /// when the current one is over; the mint fits when the epoch's total
    /// stays within the cap.
    fn check_epoch_cap(&mut self, amount: u64, slot: u64) -> (r: bool)
        requires
            old(self).wf(),
            slot <= u64::MAX - EPOCH_SLOTS,
        ensures
            final(self).wf(),
            r == epoch_cap_ok(*old(self), amount, slot),
            slot >= old(self).epoch_start + EPOCH_SLOTS ==> final(self).epoch_start == slot && final(self).epoch_minted == amount,
            slot < old(self).epoch_start + EPOCH_SLOTS ==> final(self).epoch_start == old(self).epoch_start
                && final(self).epoch_minted == old(self).epoch_minted,
            *final(self) == (WethToken { epoch_start: final(self).epoch_start, epoch_minted: final(self).epoch_minted, ..*old(self) }),
    {
        if slot >= self.epoch_start + EPOCH_SLOTS {
            self.epoch_start = slot;
            self.epoch_minted = amount;
            return amount <= MINT_CAP_PER_EPOCH;
        }
        self.epoch_minted.saturating_add(amount) <= MINT_CAP_PER_EPOCH
    }

    /// Burns `amount` of the signer's tokens. Codes: 100 reentered, 200 not
    /// the signer, 1 paused, 4 zero amount, 5 insufficient balance; else
    /// debits the balance and the supply, adds to the burned total, counts
    /// and logs the event and returns 0.
    pub fn burn(&mut self, signer: [u8; 32], caller_addr: [u8; 32], amount: u64) -> (r: u32)
        requires
            old(self).wf(),
        ensures
            final(self).in_call == old(self).in_call,
            logs_after(old(self).logs@, final(self).logs@, burn_line(*old(self), caller_addr, amount, r)),
            final(self).wf(),
            old(self).in_call ==> r == 100 && *final(self) == *old(self),
            r == 0 <==> (!old(self).in_call && signer == caller_addr && !old(self).paused && amount != 0
                && old(self).balance(caller_addr) >= amount),
            !old(self).in_call && signer == caller_addr && !old(self).paused && amount != 0
                && old(self).balance(caller_addr) < amount ==> r == 5,
            r == 0 ==> {
                &&& final(self).balance(caller_addr) == old(self).balance(caller_addr) - amount
                &&& forall|a: [u8; 32]| a != caller_addr ==> final(self).balance(a) == old(self).balance(a)
                &&& final(self).total_supply == sat_sub(old(self).total_supply, amount)
                &&& final(self).total_burned == sat_add(old(self).total_burned, amount)
                &&& final(self).burn_events == sat_add(old(self).burn_events, 1)
            },
            r != 0 ==> final(self).balances == old(self).balances && final(self).total_supply == old(self).total_supply,
            final(self).admin == old(self).admin,
            final(self).paused == old(self).paused,
            final(self).reserve_attested == old(self).reserve_attested,
            final(self).attestations == old(self).attestations,
            final(self).allowances == old(self).allowances,
    {
        if self.in_call {
            return 100;
        }
        if !bytes32_eq(&signer, &caller_addr) {
            return 200;
        }
        if self.paused {
            return 1;
        }
        if amount == 0 {
            return 4;
        }
        let bal = self.balance_get(&caller_addr);
        if bal < amount {
            return 5;
        }
        self.balances.insert(caller_addr, bal - amount);
        self.total_supply = self.total_supply.saturating_sub(amount);
        self.total_burned = self.total_burned.saturating_add(amount);
        let evt = self.burn_events.saturating_add(1);
        self.burn_events = evt;
        let mut msg = String::from_str("BURN wETH #");
        msg.append(u64_to_decimal(evt).as_str());
        msg.append(": ");
        msg.append(u64_to_decimal(amount).as_str());
        msg.append(" wei from 0x");
        msg.append(hex_encode(vstd::slice::slice_subrange(caller_addr.as_slice(), 0, 4)).as_str());
        self.logs.push(msg);
        0
    }

    /// Moves `amount` from the signer to `to`. Codes: 100 reentered, 200 not
    /// the signer, 1 paused, 3 zero recipient, 4 zero amount, 6 to oneself,
    /// 5 insufficient balance; else 0.
    pub fn transfer(&mut self, signer: [u8; 32], from: [u8; 32], to: [u8; 32], amount: u64) -> (r: u32)
        requires
            old(self).wf(),
        ensures
            final(self).in_call == old(self).in_call,
            final(self).logs == old(self).logs,
            final(self).wf(),
            old(self).in_call ==> r == 100 && *final(self) == *old(self),
            r == 0 <==> (!old(self).in_call && signer == from && !old(self).paused && !zero_addr(to) && amount != 0
                && from != to && old(self).balance(from) >= amount),
            !old(self).in_call && signer == from && !old(self).paused && !zero_addr(to) && amount != 0 && from == to ==> r == 6,
            r == 0 ==> {
                &&& final(self).balance(from) == old(self).balance(from) - amount
                &&& final(self).balance(to) == sat_add(old(self).balance(to), amount)
                &&& forall|a: [u8; 32]| a != from && a != to ==> final(self).balance(a) == old(self).balance(a)
                &&& final(self).total_supply == old(self).total_supply
                &&& final(self).transfer_count == sat_add(old(self).transfer_count, 1)
            },
            r != 0 ==> final(self).balances == old(self).balances,
            final(self).admin == old(self).admin,
            final(self).paused == old(self).paused,
            final(self).reserve_attested == old(self).reserve_attested,
            final(self).attestations == old(self).attestations,
            final(self).allowances == old(self).allowances,
    {
        if self.in_call {
            return 100;
        }
        if !bytes32_eq(&signer, &from) {
            return 200;
        }
        if self.paused {
            return 1;
        }
        if is_zero_addr(&to) {
            return 3;
        }
        if amount == 0 {
            return 4;
        }
        if bytes32_eq(&from, &to) {
            return 6;
        }
        let from_bal = self.balance_get(&from);
        if from_bal < amount {
            return 5;
        }
        let to_bal = self.balance_get(&to);
        self.balances.insert(from, from_bal - amount);
        self.balances.insert(to, to_bal.saturating_add(amount));
        self.transfer_count = self.transfer_count.saturating_add(1);
        0
    }

    /// Lets `spender` move up to `amount` of the signer's tokens. Codes: 100
    /// reentered, 200 not the signer, 3 zero spender, 6 oneself; else 0.
    pub fn approve(&mut self, signer: [u8; 32], owner: [u8; 32], spender: [u8; 32], amount: u64) -> (r: u32)
        requires
            old(self).wf(),
        ensures
            final(self).in_call == old(self).in_call,
            final(self).logs == old(self).logs,
            final(self).wf(),
            old(self).in_call ==> r == 100 && *final(self) == *old(self),
            r == 0 <==> (!old(self).in_call && signer == owner && !zero_addr(spender) && owner != spender),
            r == 0 ==> final(self).allowance_of(owner, spender) == amount
                && forall|o: [u8; 32], s: [u8; 32]| !(o == owner && s == spender)
                    ==> final(self).allowance_of(o, s) == old(self).allowance_of(o, s),
            r != 0 ==> final(self).allowances == old(self).allowances,
            final(self).balances == old(self).balances,
            final(self).admin == old(self).admin,
            final(self).paused == old(self).paused,
            final(self).reserve_attested == old(self).reserve_attested,
            final(self).attestations == old(self).attestations,
    {
        if self.in_call {
            return 100;
        }
        if !bytes32_eq(&signer, &owner) {
            return 200;
        }
        if is_zero_addr(&spender) {
            return 3;
        }
        if bytes32_eq(&owner, &spender) {
            return 6;
        }
        let k = allowance_key(&owner, &spender);
        self.allowances.insert(k, amount);
        proof {
            assert forall|o: [u8; 32], s: [u8; 32]| !(o == owner && s == spender)
                implies allowance_key_view(o, s) != allowance_key_view(owner, spender) by {
                if allowance_key_view(o, s) == allowance_key_view(owner, spender) {
                    lemma_allowance_key_injective(o, s, owner, spender);
                }
            }
        }
        0
    }

    /// Moves `amount` from `from` to `to` on the signer's allowance. Codes:
    /// 100 reentered, 200 not the signer, 1 paused, 3 zero recipient, 4 zero
    /// amount, 7 allowance too small, 5 insufficient balance; else debits
    /// the allowance and returns 0.
    pub fn transfer_from(&mut self, signer: [u8; 32], caller_addr: [u8; 32], from: [u8; 32], to: [u8; 32], amount: u64) -> (r: u32)
        requires
            old(self).wf(),
        ensures
            final(self).in_call == old(self).in_call,
            final(self).logs == old(self).logs,
            final(self).wf(),
            old(self).in_call ==> r == 100 && *final(self) == *old(self),
            r == 0 <==> (!old(self).in_call && signer == caller_addr && !old(self).paused && !zero_addr(to) && amount != 0
                && old(self).allowance_of(from, caller_addr) >= amount && old(self).balance(from) >= amount),
            !old(self).in_call && signer == caller_addr && !old(self).paused && !zero_addr(to) && amount != 0
                && old(self).allowance_of(from, caller_addr) < amount ==> r == 7,
            r == 0 ==> {
                &&& final(self).allowance_of(from, caller_addr) == old(self).allowance_of(from, caller_addr) - amount
                &&& from != to ==> final(self).balance(from) == old(self).balance(from) - amount
                    && final(self).balance(to) == sat_add(old(self).balance(to), amount)
                &&& from == to ==> final(self).balance(to) == sat_add(old(self).balance(from), amount)
                &&& forall|a: [u8; 32]| a != from && a != to ==> final(self).balance(a) == old(self).balance(a)
                &&& final(self).total_supply == old(self).total_supply
            },
            r != 0 ==> final(self).balances == old(self).balances && final(self).allowances == old(self).allowances,
            final(self).admin == old(self).admin,
            final(self).paused == old(self).paused,
            final(self).reserve_attested == old(self).reserve_attested,
            final(self).attestations == old(self).attestations,
    {
        if self.in_call {
            return 100;
        }
        if !bytes32_eq(&signer, &caller_addr) {
            return 200;
        }
        if self.paused {
            return 1;
        }
        if is_zero_addr(&to) {
            return 3;
        }
        if amount == 0 {
            return 4;
        }
        let allowed = self.allowance_get(&from, &caller_addr);
        if allowed < amount {
            return 7;
        }
        let from_bal = self.balance_get(&from);
        if from_bal < amount {
            return 5;
        }
        let to_bal = self.balance_get(&to);
        self.balances.insert(from, from_bal - amount);
        self.balances.insert(to, to_bal.saturating_add(amount));
        let k = allowance_key(&from, &caller_addr);
        self.allowances.insert(k, allowed - amount);
        self.transfer_count = self.transfer_count.saturating_add(1);
        0
    }

    /// Records an attestation of `reserve_amount` backing at `slot` (admin
    /// only: 200 not the signer, 2 not the admin); else 0.
    pub fn attest_reserves(&mut self, signer: [u8; 32], caller_addr: [u8; 32], reserve_amount: u64, proof_hash: [u8; 32], slot: u64) -> (r: u32)
        requires
            old(self).wf(),
        ensures
            logs_after(old(self).logs@, final(self).logs@, attest_line(*old(self), reserve_amount, r)),
            final(self).wf(),
            r == 0 <==> (signer == caller_addr && old(self).is_admin(caller_addr)),
            signer != caller_addr ==> r == 200,
            r == 0 ==> final(self).reserve_attested == reserve_amount && final(self).reserve_slot == slot
                && final(self).reserve_hash == proof_hash
                && final(self).attestation_count == sat_add(old(self).attestation_count, 1)
                && final(self).attestations.view_map() == old(self).attestations.view_map().insert(
                    old(self).attestation_count, ReserveAttestation { amount: reserve_amount, slot, proof_hash }),
            r != 0 ==> *final(self) == *old(self),
            r == 0 ==> *final(self) == (WethToken { reserve_attested: reserve_amount, reserve_slot: slot,
                reserve_hash: proof_hash, attestation_count: sat_add(old(self).attestation_count, 1),
                attestations: final(self).attestations, logs: final(self).logs, ..*old(self) }),
            final(self).balances == old(self).balances,
            final(self).total_supply == old(self).total_supply,
    {
        if !bytes32_eq(&signer, &caller_addr) {
            return 200;
        }
        if !self.caller_is_admin(&caller_addr) {
            return 2;
        }
        self.reserve_attested = reserve_amount;
        self.reserve_slot = slot;
        self.reserve_hash = proof_hash;
        let count = self.attestation_count;
        self.attestations.insert(count, ReserveAttestation { amount: reserve_amount, slot, proof_hash });
        let next = count.saturating_add(1);
        self.attestation_count = next;
        let mut msg = String::from_str("wETH RESERVE ATTESTATION #");
        msg.append(u64_to_decimal(next).as_str());
        msg.append(": ");
        msg.append(u64_to_decimal(reserve_amount).as_str());
        msg.append(" wei backing declared");
        self.logs.push(msg);
        0
    }

    /// Balance of `a`.
    pub fn balance_of(&self, a: &[u8; 32]) -> (r: u64)
        requires
            self.wf(),
        ensures
            r == self.balance(*a),
    {
        self.balance_get(a)
    }

    /// Allowance of `spender` over `owner`'s tokens.
    pub fn allowance(&self, owner: &[u8; 32], spender: &[u8; 32]) -> (r: u64)
        requires
            self.wf(),
        ensures
            r == self.allowance_of(*owner, *spender),
    {
        self.allowance_get(owner, spender)
    }

    /// Tokens in circulation.
    pub fn total_supply(&self) -> (r: u64)
        ensures
            r == self.total_supply,
    {
        self.total_supply
    }

    /// Tokens ever minted.
    pub fn total_minted(&self) -> (r: u64)
        ensures
            r == self.total_minted,
    {
        self.total_minted
    }

    /// Tokens ever burned.
    pub fn total_burned(&self) -> (r: u64)
        ensures
            r == self.total_burned,
    {
        self.total_burned
    }

    /// Slot of the last reserve attestation.
    pub fn get_last_attestation_slot(&self) -> (r: u64)
        ensures
            r == self.reserve_slot,
    {
        self.reserve_slot
    }

    /// Number of reserve attestations.
    pub fn get_attestation_count(&self) -> (r: u64)
        ensures
            r == self.attestation_count,
    {
        self.attestation_count
    }

    /// Number of transfers.
    pub fn get_transfer_count(&self) -> (r: u64)
        ensures
            r == self.transfer_count,
    {
        self.transfer_count
    }

    /// Reserves per supply, in basis points: 10000 with no supply, 0 with
    /// no attestation.
    pub fn get_reserve_ratio(&self) -> (r: u64)
        ensures
            self.total_supply == 0 ==> r == 10_000,
            self.total_supply != 0 && self.reserve_attested == 0 ==> r == 0,
            self.total_supply != 0 && self.reserve_attested != 0
                ==> r == ((self.reserve_attested as int * 10_000) / self.total_supply as int) as u64,
    {
        if self.total_supply == 0 {
            return 10_000;
        }
        if self.reserve_attested == 0 {
            return 0;
        }
        ((self.reserve_attested as u128) * 10_000 / (self.total_supply as u128)) as u64
    }

    /// What may still be minted in the epoch at `slot`.
    pub fn get_epoch_remaining(&self, slot: u64) -> (r: u64)
        requires
            self.wf(),
        ensures
            slot >= self.epoch_start + EPOCH_SLOTS ==> r == MINT_CAP_PER_EPOCH,
            slot < self.epoch_start + EPOCH_SLOTS ==> r == sat_sub(MINT_CAP_PER_EPOCH, self.epoch_minted),
    {
        if slot >= self.epoch_start + EPOCH_SLOTS {
            return MINT_CAP_PER_EPOCH;
        }
        MINT_CAP_PER_EPOCH.saturating_sub(self.epoch_minted)
    }

    /// Pauses (admin only: 200 not the signer, 2 not the admin; else 0).
    pub fn emergency_pause(&mut self, signer: [u8; 32], caller_addr: [u8; 32]) -> (r: u32)
        ensures
            logs_after(old(self).logs@, final(self).logs@, if r == 0 { Some("wETH: EMERGENCY PAUSE"@) } else { None }),
            r == 0 ==> *final(self) == (WethToken { paused: true, logs: final(self).logs, ..*old(self) }),
            r == 0 <==> (signer == caller_addr && old(self).is_admin(caller_addr)),
            r == 0 ==> final(self).paused,
            r != 0 ==> *final(self) == *old(self),
            final(self).balances == old(self).balances,
            final(self).admin == old(self).admin,
    {
        if !bytes32_eq(&signer, &caller_addr) {
            return 200;
        }
        if !self.caller_is_admin(&caller_addr) {
            return 2;
        }
        self.paused = true;
        self.logs.push(String::from_str("wETH: EMERGENCY PAUSE"));
        0
    }

    /// Resumes (admin only: 200 not the signer, 2 not the admin; else 0).
    pub fn emergency_unpause(&mut self, signer: [u8; 32], caller_addr: [u8; 32]) -> (r: u32)
        ensures
            logs_after(old(self).logs@, final(self).logs@, if r == 0 { Some("wETH: RESUMED"@) } else { None }),
            r == 0 ==> *final(self) == (WethToken { paused: false, logs: final(self).logs, ..*old(self) }),
            r == 0 <==> (signer == caller_addr && old(self).is_admin(caller_addr)),
            r == 0 ==> !final(self).paused,
            r != 0 ==> *final(self) == *old(self),
            final(self).balances == old(self).balances,
            final(self).admin == old(self).admin,
    {
        if !bytes32_eq(&signer, &caller_addr) {
            return 200;
        }
        if !self.caller_is_admin(&caller_addr) {
            return 2;
        }
        self.paused = false;
        self.logs.push(String::from_str("wETH: RESUMED"));
        0
    }

    /// Hands the admin role to `new_admin` (admin only: 200 not the signer,
    /// 2 not the admin, 3 zero key; else 0).
    pub fn transfer_admin(&mut self, signer: [u8; 32], caller_addr: [u8; 32], new_admin: [u8; 32]) -> (r: u32)
        ensures
            logs_after(old(self).logs@, final(self).logs@, if r == 0 { Some("wETH: admin transferred"@) } else { None }),
            r == 0 ==> *final(self) == (WethToken { admin: new_admin, logs: final(self).logs, ..*old(self) }),
            r == 0 <==> (signer == caller_addr && old(self).is_admin(caller_addr) && !zero_addr(new_admin)),
            r == 0 ==> final(self).admin == new_admin,
            r != 0 ==> *final(self) == *old(self),
            final(self).balances == old(self).balances,
    {
        if !bytes32_eq(&signer, &caller_addr) {
            return 200;
        }
        if !self.caller_is_admin(&caller_addr) {
            return 2;
        }
        if is_zero_addr(&new_admin) {
            return 3;
        }
        self.admin = new_admin;
        self.logs.push(String::from_str("wETH: admin transferred"));
        0
    }
}

/// The line a mint logs for code `code` on `s`, if any.
pub open spec fn mint_line(s: WethToken, to: [u8; 32], amount: u64, code: u32) -> Option<Seq<char>> {
    if code == 10 {
        Some("CIRCUIT BREAKER: wETH mint blocked — exceeds attested reserves"@)
    } else if code == 11 {
        Some("RATE LIMIT: wETH epoch mint cap reached"@)
    } else if code == 0 {
        Some("MINT wETH #"@ + decimal(sat_add(s.mint_events, 1) as nat) + ": "@ + decimal(amount as nat) + " wei to 0x"@
            + hex_lower(to@.subrange(0, 4)))
    } else {
        None
    }
}

/// The line a burn logs for code `code` on `s`, if any.
pub open spec fn burn_line(s: WethToken, from: [u8; 32], amount: u64, code: u32) -> Option<Seq<char>> {
    if code == 0 {
        Some("BURN wETH #"@ + decimal(sat_add(s.burn_events, 1) as nat) + ": "@ + decimal(amount as nat) + " wei from 0x"@
            + hex_lower(from@.subrange(0, 4)))
    } else {
        None
    }
}

/// The line an attestation logs for code `code` on `s`, if any.
pub open spec fn attest_line(s: WethToken, reserve_amount: u64, code: u32) -> Option<Seq<char>> {
    if code == 0 {
        Some("wETH RESERVE ATTESTATION #"@ + decimal(sat_add(s.attestation_count, 1) as nat) + ": "@
            + decimal(reserve_amount as nat) + " wei backing declared"@)
    } else {
        None
    }
}

/// Whether a mint of `amount` at `slot` fits the epoch cap of `s`.
pub open spec fn epoch_cap_ok(s: WethToken, amount: u64, slot: u64) -> bool {
    if slot >= s.epoch_start + EPOCH_SLOTS {
        amount <= MINT_CAP_PER_EPOCH
    } else {
        sat_add(s.epoch_minted, amount) <= MINT_CAP_PER_EPOCH
    }
}

/// The epoch total after an accepted mint: the epoch check has already
/// restarted an expired epoch at `amount`, and the mint then adds `amount`.
pub open spec fn epoch_minted_after(s: WethToken, amount: u64, slot: u64) -> u64 {
    if slot >= s.epoch_start + EPOCH_SLOTS {
        sat_add(amount, amount)
    } else {
        sat_add(s.epoch_minted, amount)
    }
}

/// Within an epoch, an accepted mint keeps the epoch's total within the cap.
pub proof fn lemma_mint_within_epoch_cap(s: WethToken, amount: u64, slot: u64)
    requires
        slot < s.epoch_start + EPOCH_SLOTS,
        epoch_cap_ok(s, amount, slot),
    ensures
        epoch_minted_after(s, amount, slot) <= MINT_CAP_PER_EPOCH,
{
}

fn is_zero_addr(a: &[u8; 32]) -> (r: bool)
    ensures
        r == zero_addr(*a),
{
    let mut i: usize = 0;
    while i < 32
        invariant
            i <= 32,
            forall|j: int| 0 <= j < i ==> a@[j] == 0,
        decreases 32 - i,
    {
        if a[i] != 0 {
            return false;
        }
        i += 1;
    }
    true
}

fn allowance_key(owner: &[u8; 32], spender: &[u8; 32]) -> (r: Vec<u8>)
    ensures
        r@ == allowance_key_view(*owner, *spender),
{
    let mut k: Vec<u8> = Vec::new();
    crate::bytes::append_bytes(&mut k, owner);
    crate::bytes::append_bytes(&mut k, spender);
    k
}

proof fn lemma_allowance_key_injective(o: [u8; 32], s: [u8; 32], o2: [u8; 32], s2: [u8; 32])
    requires
        allowance_key_view(o, s) == allowance_key_view(o2, s2),
    ensures
        o == o2 && s == s2,
{
    assert(o@ =~= allowance_key_view(o, s).subrange(0, 32));
    assert(o2@ =~= allowance_key_view(o2, s2).subrange(0, 32));
    assert(s@ =~= allowance_key_view(o, s).subrange(32, 64));
    assert(s2@ =~= allowance_key_view(o2, s2).subrange(32, 64));
    assert(o =~= o2);
    assert(s =~= s2);
}

} // verus!
