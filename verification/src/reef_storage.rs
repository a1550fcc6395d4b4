//! The Reef storage contract: storage requests with a replication factor
//! and duration, providers that confirm them and earn rewards, collateral
//! and prices, and proof-of-storage challenges with slashing. Its storage
//! is held as typed state; each entry point takes the current slot and
//! returns the contract's code (0 for success).
use vstd::prelude::*;
use crate::bytes::{append_bytes, bytes32_eq, is_zero_32, all_zero, u64_le, u64_to_le};
use crate::entry_map::EntryMap;
use crate::keymap::KeyMap;
use crate::text::logs_after;

verus! {

broadcast use vstd::array::group_array_axioms;

/// Most providers a request may ask for.
pub const MAX_REPLICATION: u8 = 10;
/// Shortest storage duration, in slots.
pub const MIN_STORAGE_DURATION: u64 = 1000;
/// Reward per slot per byte stored, and the default price.
pub const REWARD_PER_SLOT_PER_BYTE: u64 = 10;
/// Slots a provider has to answer a challenge, by default.
pub const DEFAULT_CHALLENGE_WINDOW: u64 = 200;
/// Percent of stake slashed for a failed challenge, by default.
pub const DEFAULT_SLASH_PERCENT: u64 = 10;
/// Collateral per started gigabyte of capacity (one gigabyte needs a
/// million shells, two need two million).
pub const MIN_STAKE_PER_GB: u64 = 1_000_000;
/// Bytes per gigabyte.
pub const GB: u64 = 1_073_741_824;

/// A storage request: owner, size, replication factor, confirmations,
/// expiry and creation slots, and the confirming providers.
#[derive(Debug, Clone)]
pub struct DataEntry {
    pub owner: [u8; 32],
    pub size: u64,
    pub replication_factor: u8,
    pub confirmations: u8,
    pub expiry_slot: u64,
    pub created_slot: u64,
    pub providers: Vec<[u8; 32]>,
}

/// A provider: capacity, bytes used, entries stored, whether active, and
/// the slot it registered at.
#[derive(Debug, Clone, Copy)]
pub struct ProviderInfo {
    pub capacity: u64,
    pub used: u64,
    pub stored_count: u64,
    pub active: bool,
    pub registered_slot: u64,
}

/// A proof-of-storage challenge: issue slot, deadline, nonce and status
/// (0 open, 1 answered, 2 slashed).
#[derive(Debug, Clone, Copy)]
pub struct Challenge {
    pub issued_slot: u64,
    pub deadline_slot: u64,
    pub nonce: u64,
    pub status: u8,
}

/// The contract's state.
#[derive(Debug, Clone)]
pub struct ReefStorage {
    pub admin: Option<[u8; 32]>,
    pub challenge_window: Option<u64>,
    pub slash_percent: Option<u64>,
    pub data: KeyMap<DataEntry>,
    pub data_count: u64,
    pub providers: KeyMap<ProviderInfo>,
    pub rewards: KeyMap<u64>,
    pub stakes: KeyMap<u64>,
    pub prices: KeyMap<u64>,
    pub challenges: EntryMap<Vec<u8>, Challenge>,
    pub logs: Vec<String>,
}

/// Key of the challenge of `provider` over `data_hash`.
pub open spec fn challenge_key_view(data_hash: [u8; 32], provider: [u8; 32]) -> Seq<u8> {
    data_hash@ + provider@
}

/// Saturating addition.
pub open spec fn sat_add(a: u64, b: u64) -> u64 {
    if a + b > u64::MAX { u64::MAX } else { (a + b) as u64 }
}

/// Saturating subtraction.
pub open spec fn sat_sub(a: u64, b: u64) -> u64 {
    if a < b { 0 } else { (a - b) as u64 }
}

/// Saturating multiplication.
pub open spec fn sat_mul(a: u64, b: u64) -> u64 {
    if a * b > u64::MAX { u64::MAX } else { (a * b) as u64 }
}

/// The encoded form of a request: owner, size (LE), replication,
/// confirmations, expiry (LE), creation (LE), provider count, providers.
pub open spec fn encode_entry_spec(e: DataEntry) -> Seq<u8> {
    e.owner@ + u64_le(e.size) + seq![e.replication_factor, e.confirmations] + u64_le(e.expiry_slot)
        + u64_le(e.created_slot) + seq![e.providers@.len() as u8] + flatten_keys(e.providers@)
}

/// The keys' bytes one after another.
pub open spec fn flatten_keys(ks: Seq<[u8; 32]>) -> Seq<u8>
    decreases ks.len(),
{
    if ks.len() == 0 {
        Seq::empty()
    } else {
        flatten_keys(ks.drop_last()) + ks.last()@
    }
}

impl ReefStorage {
    /// The maps are well formed.
    pub open spec fn wf(&self) -> bool {
        &&& self.data.wf()
        &&& self.providers.wf()
        &&& self.rewards.wf()
        &&& self.stakes.wf()
        &&& self.prices.wf()
        &&& self.challenges.wf()
        &&& forall|h: [u8; 32]| #[trigger] self.data.view_map().dom().contains(h)
            ==> self.data.view_map()[h].providers@.len() <= self.data.view_map()[h].replication_factor
    }

    /// Value of a u64 map at `k`, zero when absent.
    pub open spec fn amount_at(m: Map<[u8; 32], u64>, k: [u8; 32]) -> u64 {
        if m.dom().contains(k) { m[k] } else { 0 }
    }

    /// Accumulated reward of `p`.
    pub open spec fn reward_of(&self, p: [u8; 32]) -> u64 {
        Self::amount_at(self.rewards.view_map(), p)
    }

    /// Collateral of `p`.
    pub open spec fn stake_of(&self, p: [u8; 32]) -> u64 {
        Self::amount_at(self.stakes.view_map(), p)
    }

    /// Challenge window in effect.
    pub open spec fn window(&self) -> u64 {
        match self.challenge_window { Some(w) => w, None => DEFAULT_CHALLENGE_WINDOW }
    }

    /// Slash percent in effect.
    pub open spec fn slash_pct(&self) -> u64 {
        match self.slash_percent { Some(p) => p, None => DEFAULT_SLASH_PERCENT }
    }

    /// The challenge of `provider` over `data_hash`, if any.
    pub open spec fn challenge_of(&self, data_hash: [u8; 32], provider: [u8; 32]) -> Option<Challenge> {
        let k = challenge_key_view(data_hash, provider);
        if self.challenges.view_map().dom().contains(k) { Some(self.challenges.view_map()[k]) } else { None }
    }

    /// An empty contract.
    pub fn new() -> (r: ReefStorage)
        ensures
            r.wf(),
            r.admin is None,
            r.data.view_map() == Map::<[u8; 32], DataEntry>::empty(),
            r.providers.view_map() == Map::<[u8; 32], ProviderInfo>::empty(),
            r.data_count == 0,
            r.challenge_window is None,
            r.slash_percent is None,
            r.rewards.view_map() == Map::<[u8; 32], u64>::empty(),
            r.stakes.view_map() == Map::<[u8; 32], u64>::empty(),
            r.prices.view_map() == Map::<[u8; 32], u64>::empty(),
            r.challenges.view_map() == Map::<Seq<u8>, Challenge>::empty(),
            r.logs@.len() == 0,
    {
        ReefStorage {
            admin: None,
            challenge_window: None,
            slash_percent: None,
            data: KeyMap::new(),
            data_count: 0,
            providers: KeyMap::new(),
            rewards: KeyMap::new(),
            stakes: KeyMap::new(),
            prices: KeyMap::new(),
            challenges: EntryMap::new(),
            logs: Vec::new(),
        }
    }

    fn amount_get(m: &KeyMap<u64>, k: &[u8; 32]) -> (r: u64)
        requires
            m.wf(),
        ensures
            r == Self::amount_at(m.view_map(), *k),
    {
        match m.get(k) {
            Some(v) => *v,
            None => 0,
        }
    }

    /// Registers a request to store `size` bytes under `data_hash`. Codes:
    /// 1 zero size, 2 replication not in 1..=10, 3 duration under the
    /// minimum, 4 hash already registered; else records the request (no
    /// providers, expiring `duration_slots` after `slot`), counts it and
    /// returns 0.
    pub fn store_data(&mut self, owner: [u8; 32], data_hash: [u8; 32], size: u64, replication_factor: u8,
        duration_slots: u64, slot: u64) -> (r: u32)
        requires
            old(self).wf(),
            old(self).data_count < u64::MAX,
        ensures
            final(self).admin == old(self).admin,
            final(self).challenge_window == old(self).challenge_window,
            final(self).slash_percent == old(self).slash_percent,
            final(self).providers == old(self).providers,
            final(self).rewards == old(self).rewards,
            final(self).stakes == old(self).stakes,
            final(self).prices == old(self).prices,
            final(self).challenges == old(self).challenges,
            logs_after(old(self).logs@, final(self).logs@, store_data_line(r)),
            final(self).wf(),
            size == 0 ==> r == 1,
            size != 0 && (replication_factor == 0 || replication_factor > MAX_REPLICATION) ==> r == 2,
            size != 0 && 1 <= replication_factor <= MAX_REPLICATION && duration_slots < MIN_STORAGE_DURATION ==> r == 3,
            size != 0 && 1 <= replication_factor <= MAX_REPLICATION && duration_slots >= MIN_STORAGE_DURATION
                && old(self).data.view_map().dom().contains(data_hash) ==> r == 4,
            r == 0 <==> (size != 0 && 1 <= replication_factor <= MAX_REPLICATION && duration_slots >= MIN_STORAGE_DURATION
                && !old(self).data.view_map().dom().contains(data_hash)),
            r == 0 ==> {
                let e = final(self).data.view_map()[data_hash];
                &&& final(self).data.view_map().dom() == old(self).data.view_map().dom().insert(data_hash)
                &&& forall|h: [u8; 32]| h != data_hash && old(self).data.view_map().dom().contains(h)
                    ==> final(self).data.view_map()[h] == old(self).data.view_map()[h]
                &&& e.owner == owner && e.size == size && e.replication_factor == replication_factor
                &&& e.confirmations == 0 && e.expiry_slot == sat_add(slot, duration_slots) && e.created_slot == slot
                &&& e.providers@.len() == 0
                &&& final(self).data_count == old(self).data_count + 1
            },
            r != 0 ==> final(self).data == old(self).data && final(self).data_count == old(self).data_count,
            final(self).providers == old(self).providers,
            final(self).rewards == old(self).rewards,
            final(self).stakes == old(self).stakes,
    {
        if size == 0 {
            self.logs.push(String::from_str("Data size must be > 0"));
            return 1;
        }
        if replication_factor == 0 || replication_factor > MAX_REPLICATION {
            self.logs.push(String::from_str("Invalid replication factor"));
            return 2;
        }
        if duration_slots < MIN_STORAGE_DURATION {
            self.logs.push(String::from_str("Duration too short"));
            return 3;
        }
        if self.data.contains_key(&data_hash) {
            self.logs.push(String::from_str("Data hash already registered"));
            return 4;
        }
        let entry = DataEntry {
            owner,
            size,
            replication_factor,
            confirmations: 0,
            expiry_slot: slot.saturating_add(duration_slots),
            created_slot: slot,
            providers: Vec::new(),
        };
        self.data.insert(data_hash, entry);
        self.data_count = self.data_count + 1;
        self.logs.push(String::from_str("Data storage request registered"));
        0
    }

    /// A provider confirms it stores `data_hash`. Codes: 1 unknown request,
    /// 3 expired, 4 unknown provider, 5 inactive provider, 6 already
    /// confirmed, 7 replication reached; else the provider is added to the
    /// request; then 8 when the size exceeds the provider's free capacity
    /// (the request keeps the provider); else the provider's use and count
    /// grow, it earns `remaining slots * size * 10` (saturating) and 0 is
    /// returned.
    pub fn confirm_storage(&mut self, provider: [u8; 32], data_hash: [u8; 32], slot: u64) -> (r: u32)
        requires
            old(self).wf(),
            old(self).providers.view_map().dom().contains(provider)
                ==> old(self).providers.view_map()[provider].stored_count < u64::MAX,
        ensures
            final(self).admin == old(self).admin,
            final(self).challenge_window == old(self).challenge_window,
            final(self).slash_percent == old(self).slash_percent,
            final(self).data_count == old(self).data_count,
            final(self).stakes == old(self).stakes,
            final(self).prices == old(self).prices,
            final(self).challenges == old(self).challenges,
            logs_after(old(self).logs@, final(self).logs@, confirm_storage_line(r)),
            final(self).wf(),
            !old(self).data.view_map().dom().contains(data_hash) ==> r == 1,
            confirm_refusal(*old(self), provider, data_hash, slot) is Some ==>
                r == confirm_refusal(*old(self), provider, data_hash, slot).unwrap()
                && final(self).data == old(self).data && final(self).providers == old(self).providers
                && final(self).rewards == old(self).rewards,
            confirm_refusal(*old(self), provider, data_hash, slot) is None ==> {
                let e = old(self).data.view_map()[data_hash];
                let p = old(self).providers.view_map()[provider];
                let e2 = final(self).data.view_map()[data_hash];
                &&& final(self).data.view_map().dom() == old(self).data.view_map().dom()
                &&& e2.providers@ == e.providers@.push(provider)
                &&& e2.confirmations == (if e.confirmations < 255 { (e.confirmations + 1) as u8 } else { 255u8 })
                &&& e2.owner == e.owner && e2.size == e.size && e2.replication_factor == e.replication_factor
                &&& e2.expiry_slot == e.expiry_slot && e2.created_slot == e.created_slot
                &&& (r == 8 <==> sat_add(p.used, e.size) > p.capacity)
                &&& (r == 0 <==> sat_add(p.used, e.size) <= p.capacity)
                &&& r == 8 ==> final(self).providers == old(self).providers && final(self).rewards == old(self).rewards
                &&& r == 0 ==> final(self).providers.view_map() == old(self).providers.view_map().insert(provider,
                    ProviderInfo { capacity: p.capacity, used: sat_add(p.used, e.size), stored_count: (p.stored_count + 1) as u64,
                        active: true, registered_slot: p.registered_slot })
                    && final(self).reward_of(provider) == sat_add(old(self).reward_of(provider),
                        sat_mul(sat_mul((if e.expiry_slot >= slot { (e.expiry_slot - slot) as u64 } else { 0u64 }), e.size),
                            REWARD_PER_SLOT_PER_BYTE))
                    && forall|q: [u8; 32]| q != provider ==> final(self).reward_of(q) == old(self).reward_of(q)
            },
            final(self).stakes == old(self).stakes,
            final(self).data_count == old(self).data_count,
    {
        let (owner, size, expiry, replication, confirmations, created, old_providers) = match self.data.get(&data_hash) {
            Some(e) => (e.owner, e.size, e.expiry_slot, e.replication_factor, e.confirmations, e.created_slot, copy_keys(&e.providers)),
            None => {
                self.logs.push(String::from_str("Data entry not found"));
                return 1;
            },
        };
        if slot > expiry {
            self.logs.push(String::from_str("Storage request expired"));
            return 3;
        }
        let p = match self.providers.get(&provider) {
            Some(p) => *p,
            None => {
                self.logs.push(String::from_str("Provider not registered"));
                return 4;
            },
        };
        if !p.active {
            self.logs.push(String::from_str("Provider not active"));
            return 5;
        }
        if contains_key32(&old_providers, &provider) {
            self.logs.push(String::from_str("Provider already confirmed for this data"));
            return 6;
        }
        if old_providers.len() >= replication as usize {
            self.logs.push(String::from_str("Replication factor already satisfied"));
            return 7;
        }
        let mut providers = old_providers;
        providers.push(provider);
        let updated = DataEntry {
            owner,
            size,
            replication_factor: replication,
            confirmations: confirmations.saturating_add(1),
            expiry_slot: expiry,
            created_slot: created,
            providers,
        };
        self.data.insert(data_hash, updated);
        let new_used = p.used.saturating_add(size);
        if new_used > p.capacity {
            self.logs.push(String::from_str("Provider capacity exceeded"));
            return 8;
        }
        self.providers.insert(provider, ProviderInfo {
            capacity: p.capacity,
            used: new_used,
            stored_count: p.stored_count + 1,
            active: true,
            registered_slot: p.registered_slot,
        });
        let prev = Self::amount_get(&self.rewards, &provider);
        let remaining = expiry.saturating_sub(slot);
        let reward = mul_sat(mul_sat(remaining, size), REWARD_PER_SLOT_PER_BYTE);
        self.rewards.insert(provider, prev.saturating_add(reward));
        self.logs.push(String::from_str("Storage confirmed by provider"));
        0
    }

    /// The encoded request stored under `data_hash` (see `encode_entry_spec`), if any.
    pub fn get_storage_info(&self, data_hash: &[u8; 32]) -> (r: Option<Vec<u8>>)
        requires
            self.wf(),
        ensures
            r is Some <==> self.data.view_map().dom().contains(*data_hash),
            r matches Some(b) ==> b@ == encode_entry_spec(self.data.view_map()[*data_hash]),
    {
        match self.data.get(data_hash) {
            Some(e) => Some(encode_data_entry(e)),
            None => None,
        }
    }

    /// Registers a provider of `capacity_bytes`. Codes: 1 zero capacity, 2
    /// already registered; else records it active, empty, at `slot`; 0.
    pub fn register_provider(&mut self, provider: [u8; 32], capacity_bytes: u64, slot: u64) -> (r: u32)
        requires
            old(self).wf(),
        ensures
            final(self).admin == old(self).admin,
            final(self).challenge_window == old(self).challenge_window,
            final(self).slash_percent == old(self).slash_percent,
            final(self).data == old(self).data,
            final(self).data_count == old(self).data_count,
            final(self).rewards == old(self).rewards,
            final(self).stakes == old(self).stakes,
            final(self).prices == old(self).prices,
            final(self).challenges == old(self).challenges,
            logs_after(old(self).logs@, final(self).logs@, register_provider_line(r)),
            final(self).wf(),
            capacity_bytes == 0 ==> r == 1,
            capacity_bytes != 0 && old(self).providers.view_map().dom().contains(provider) ==> r == 2,
            r == 0 <==> (capacity_bytes != 0 && !old(self).providers.view_map().dom().contains(provider)),
            r == 0 ==> final(self).providers.view_map() == old(self).providers.view_map().insert(provider,
                ProviderInfo { capacity: capacity_bytes, used: 0, stored_count: 0, active: true, registered_slot: slot }),
            r != 0 ==> final(self).providers == old(self).providers,
            final(self).data == old(self).data,
            final(self).rewards == old(self).rewards,
            final(self).stakes == old(self).stakes,
    {
        if capacity_bytes == 0 {
            self.logs.push(String::from_str("Capacity must be > 0"));
            return 1;
        }
        if self.providers.contains_key(&provider) {
            self.logs.push(String::from_str("Provider already registered"));
            return 2;
        }
        self.providers.insert(provider, ProviderInfo { capacity: capacity_bytes, used: 0, stored_count: 0, active: true, registered_slot: slot });
        self.logs.push(String::from_str("Storage provider registered"));
        0
    }

    /// Pays out the provider's accumulated reward: (1, 0) when there is
    /// none; else the reward is reset and (0, reward) returned.
    pub fn claim_storage_rewards(&mut self, provider: [u8; 32]) -> (r: (u32, u64))
        requires
            old(self).wf(),
        ensures
            final(self).admin == old(self).admin,
            final(self).challenge_window == old(self).challenge_window,
            final(self).slash_percent == old(self).slash_percent,
            final(self).data == old(self).data,
            final(self).data_count == old(self).data_count,
            final(self).providers == old(self).providers,
            final(self).stakes == old(self).stakes,
            final(self).prices == old(self).prices,
            final(self).challenges == old(self).challenges,
            logs_after(old(self).logs@, final(self).logs@, claim_storage_rewards_line(r.0)),
            final(self).wf(),
            old(self).reward_of(provider) == 0 ==> r == (1u32, 0u64) && final(self).rewards == old(self).rewards,
            old(self).reward_of(provider) != 0 ==> r == (0u32, old(self).reward_of(provider))
                && final(self).rewards.view_map() == old(self).rewards.view_map().insert(provider, 0),
            final(self).data == old(self).data,
            final(self).providers == old(self).providers,
            final(self).stakes == old(self).stakes,
    {
        let reward = Self::amount_get(&self.rewards, &provider);
        if reward == 0 {
            self.logs.push(String::from_str("No rewards to claim"));
            return (1, 0);
        }
        self.rewards.insert(provider, 0);
        self.logs.push(String::from_str("Storage rewards claimed"));
        (0, reward)
    }

    /// Sets the admin once (1 when set already), with the default window and
    /// slash percent; 0.
    pub fn initialize(&mut self, admin: [u8; 32]) -> (r: u32)
        ensures
            logs_after(old(self).logs@, final(self).logs@, initialize_line(r)),
            old(self).admin is Some ==> r == 1 && *final(self) == *old(self),
            old(self).admin is None ==> r == 0 && final(self).admin == Some(admin)
                && final(self).challenge_window == Some(DEFAULT_CHALLENGE_WINDOW)
                && final(self).slash_percent == Some(DEFAULT_SLASH_PERCENT)
                && final(self).data == old(self).data && final(self).providers == old(self).providers
                && final(self).stakes == old(self).stakes && final(self).rewards == old(self).rewards
                && final(self).challenges == old(self).challenges,
            old(self).admin is None ==> *final(self) == (ReefStorage { admin: Some(admin),
                challenge_window: Some(DEFAULT_CHALLENGE_WINDOW), slash_percent: Some(DEFAULT_SLASH_PERCENT),
                logs: final(self).logs, ..*old(self) }),
    {
        if self.admin.is_some() {
            return 1;
        }
        self.admin = Some(admin);
        self.challenge_window = Some(DEFAULT_CHALLENGE_WINDOW);
        self.slash_percent = Some(DEFAULT_SLASH_PERCENT);
        self.logs.push(String::from_str("Reef Storage v2 initialized"));
        0
    }

    fn caller_is_admin(&self, caller: &[u8; 32]) -> (r: bool)
        ensures
            r == (self.admin == Some(*caller)),
    {
        match &self.admin {
            Some(a) => bytes32_eq(caller, a),
            None => false,
        }
    }

    /// Sets the challenge window (admin only: 2; under 10 slots: 3); 0.
    pub fn set_challenge_window(&mut self, caller: [u8; 32], window_slots: u64) -> (r: u32)
        ensures
            old(self).admin != Some(caller) ==> r == 2,
            old(self).admin == Some(caller) && window_slots < 10 ==> r == 3,
            r == 0 <==> (old(self).admin == Some(caller) && window_slots >= 10),
            r == 0 ==> *final(self) == (ReefStorage { challenge_window: Some(window_slots), ..*old(self) }),
            r != 0 ==> *final(self) == *old(self),
    {
        if !self.caller_is_admin(&caller) {
            return 2;
        }
        if window_slots < 10 {
            return 3;
        }
        self.challenge_window = Some(window_slots);
        0
    }

    /// Sets the slash percent (admin only: 2; over 100: 3); 0.
    pub fn set_slash_percent(&mut self, caller: [u8; 32], percent: u64) -> (r: u32)
        ensures
            old(self).admin != Some(caller) ==> r == 2,
            old(self).admin == Some(caller) && percent > 100 ==> r == 3,
            r == 0 <==> (old(self).admin == Some(caller) && percent <= 100),
            r == 0 ==> *final(self) == (ReefStorage { slash_percent: Some(percent), ..*old(self) }),
            r != 0 ==> *final(self) == *old(self),
    {
        if !self.caller_is_admin(&caller) {
            return 2;
        }
        if percent > 100 {
            return 3;
        }
        self.slash_percent = Some(percent);
        0
    }

    /// Adds `amount` of collateral for an active provider. Codes: 1 not
    /// registered or inactive, 2 below `MIN_STAKE_PER_GB` per started
    /// gigabyte of capacity; else 0.
    pub fn stake_collateral(&mut self, provider: [u8; 32], amount: u64) -> (r: u32)
        requires
            old(self).wf(),
            old(self).providers.view_map().dom().contains(provider)
                ==> old(self).providers.view_map()[provider].capacity <= u64::MAX - (GB - 1),
        ensures
            final(self).admin == old(self).admin,
            final(self).challenge_window == old(self).challenge_window,
            final(self).slash_percent == old(self).slash_percent,
            final(self).data == old(self).data,
            final(self).data_count == old(self).data_count,
            final(self).providers == old(self).providers,
            final(self).rewards == old(self).rewards,
            final(self).prices == old(self).prices,
            final(self).challenges == old(self).challenges,
            logs_after(old(self).logs@, final(self).logs@, stake_collateral_line(r)),
            final(self).wf(),
            !(old(self).providers.view_map().dom().contains(provider) && old(self).providers.view_map()[provider].active)
                ==> r == 1,
            old(self).providers.view_map().dom().contains(provider) && old(self).providers.view_map()[provider].active ==> {
                let need = min_stake_for(old(self).providers.view_map()[provider].capacity);
                &&& amount < need ==> r == 2
                &&& amount >= need ==> r == 0 && final(self).stakes.view_map()
                    == old(self).stakes.view_map().insert(provider, sat_add(old(self).stake_of(provider), amount))
            },
            r != 0 ==> final(self).stakes == old(self).stakes,
            final(self).providers == old(self).providers,
            final(self).data == old(self).data,
    {
        let p = match self.providers.get(&provider) {
            Some(p) => *p,
            None => {
                self.logs.push(String::from_str("Provider not registered or not active"));
                return 1;
            },
        };
        if !p.active {
            self.logs.push(String::from_str("Provider not registered or not active"));
            return 1;
        }
        let gb = (p.capacity + (GB - 1)) / GB;
        let min_stake = mul_sat(gb, MIN_STAKE_PER_GB);
        if amount < min_stake {
            self.logs.push(String::from_str("Insufficient stake for capacity"));
            return 2;
        }
        let prev = Self::amount_get(&self.stakes, &provider);
        self.stakes.insert(provider, prev.saturating_add(amount));
        self.logs.push(String::from_str("Collateral staked"));
        0
    }

    /// Sets a registered provider's price per byte per slot (1 unknown); 0.
    pub fn set_storage_price(&mut self, provider: [u8; 32], price_per_byte_per_slot: u64) -> (r: u32)
        requires
            old(self).wf(),
        ensures
            final(self).admin == old(self).admin,
            final(self).challenge_window == old(self).challenge_window,
            final(self).slash_percent == old(self).slash_percent,
            final(self).data == old(self).data,
            final(self).data_count == old(self).data_count,
            final(self).providers == old(self).providers,
            final(self).rewards == old(self).rewards,
            final(self).stakes == old(self).stakes,
            final(self).challenges == old(self).challenges,
            logs_after(old(self).logs@, final(self).logs@, set_storage_price_line(r)),
            final(self).wf(),
            r == 0 <==> old(self).providers.view_map().dom().contains(provider),
            r != 0 ==> r == 1 && final(self).prices == old(self).prices,
            r == 0 ==> final(self).prices.view_map() == old(self).prices.view_map().insert(provider, price_per_byte_per_slot),
            final(self).providers == old(self).providers,
    {
        if !self.providers.contains_key(&provider) {
            return 1;
        }
        self.prices.insert(provider, price_per_byte_per_slot);
        self.logs.push(String::from_str("Storage price set"));
        0
    }

    /// A provider's price, or the default reward rate when it set none.
    pub fn get_storage_price(&self, provider: &[u8; 32]) -> (r: u64)
        requires
            self.wf(),
        ensures
            r == (if self.prices.view_map().dom().contains(*provider) { self.prices.view_map()[*provider] } else { REWARD_PER_SLOT_PER_BYTE }),
    {
        match self.prices.get(provider) {
            Some(p) => *p,
            None => REWARD_PER_SLOT_PER_BYTE,
        }
    }

    /// A provider's collateral.
    pub fn get_provider_stake(&self, provider: &[u8; 32]) -> (r: u64)
        requires
            self.wf(),
        ensures
            r == self.stake_of(*provider),
    {
        Self::amount_get(&self.stakes, provider)
    }

    /// Challenges `provider` to prove it stores `data_hash`. Codes: 1
    /// unknown request, 2 expired, 3 provider not listed on it, 4 an open
    /// challenge is still within its deadline; else records an open
    /// challenge due `window` slots after `slot`; 0.
    pub fn issue_challenge(&mut self, data_hash: [u8; 32], provider: [u8; 32], nonce: u64, slot: u64) -> (r: u32)
        requires
            old(self).wf(),
        ensures
            final(self).admin == old(self).admin,
            final(self).challenge_window == old(self).challenge_window,
            final(self).slash_percent == old(self).slash_percent,
            final(self).data == old(self).data,
            final(self).data_count == old(self).data_count,
            final(self).providers == old(self).providers,
            final(self).rewards == old(self).rewards,
            final(self).stakes == old(self).stakes,
            final(self).prices == old(self).prices,
            logs_after(old(self).logs@, final(self).logs@, issue_challenge_line(r)),
            final(self).wf(),
            !old(self).data.view_map().dom().contains(data_hash) ==> r == 1,
            old(self).data.view_map().dom().contains(data_hash) ==> {
                let e = old(self).data.view_map()[data_hash];
                let c = old(self).challenge_of(data_hash, provider);
                &&& slot > e.expiry_slot ==> r == 2
                &&& slot <= e.expiry_slot && !e.providers@.contains(provider) ==> r == 3
                &&& slot <= e.expiry_slot && e.providers@.contains(provider)
                    && (c matches Some(ch) && ch.status == 0 && slot <= ch.deadline_slot) ==> r == 4
                &&& r == 0 <==> (slot <= e.expiry_slot && e.providers@.contains(provider)
                    && !(c matches Some(ch) && ch.status == 0 && slot <= ch.deadline_slot))
            },
            r == 0 ==> final(self).challenge_of(data_hash, provider) == Some(Challenge {
                issued_slot: slot, deadline_slot: sat_add(slot, old(self).window()), nonce, status: 0 }),
            r != 0 ==> final(self).challenges == old(self).challenges,
            final(self).data == old(self).data,
            final(self).stakes == old(self).stakes,
    {
        let (expiry, listed) = match self.data.get(&data_hash) {
            Some(e) => (e.expiry_slot, contains_key32(&e.providers, &provider)),
            None => return 1,
        };
        if slot > expiry {
            return 2;
        }
        if !listed {
            return 3;
        }
        let k = challenge_key(&data_hash, &provider);
        match self.challenges.get(&k) {
            Some(c) => {
                if c.status == 0 && slot <= c.deadline_slot {
                    self.logs.push(String::from_str("Active challenge already pending"));
                    return 4;
                }
            },
            None => {},
        }
        let window = match self.challenge_window {
            Some(w) => w,
            None => DEFAULT_CHALLENGE_WINDOW,
        };
        self.challenges.insert(k, Challenge { issued_slot: slot, deadline_slot: slot.saturating_add(window), nonce, status: 0 });
        self.logs.push(String::from_str("Storage challenge issued"));
        0
    }

    /// The provider answers its challenge. Codes: 1 no challenge, 2 already
    /// answered or slashed, 3 past the deadline, 4 an all-zero response;
    /// else the challenge is marked answered; 0.
    pub fn respond_challenge(&mut self, provider: [u8; 32], data_hash: [u8; 32], response: [u8; 32], slot: u64) -> (r: u32)
        requires
            old(self).wf(),
        ensures
            final(self).admin == old(self).admin,
            final(self).challenge_window == old(self).challenge_window,
            final(self).slash_percent == old(self).slash_percent,
            final(self).data == old(self).data,
            final(self).data_count == old(self).data_count,
            final(self).providers == old(self).providers,
            final(self).rewards == old(self).rewards,
            final(self).stakes == old(self).stakes,
            final(self).prices == old(self).prices,
            logs_after(old(self).logs@, final(self).logs@, respond_challenge_line(r)),
            final(self).wf(),
            old(self).challenge_of(data_hash, provider) is None ==> r == 1,
            old(self).challenge_of(data_hash, provider) matches Some(c) ==> {
                &&& c.status != 0 ==> r == 2
                &&& c.status == 0 && slot > c.deadline_slot ==> r == 3
                &&& c.status == 0 && slot <= c.deadline_slot && all_zero(response@) ==> r == 4
                &&& r == 0 <==> (c.status == 0 && slot <= c.deadline_slot && !all_zero(response@))
                &&& r == 0 ==> final(self).challenge_of(data_hash, provider) == Some(Challenge { status: 1, ..c })
            },
            r != 0 ==> final(self).challenges == old(self).challenges,
            final(self).data == old(self).data,
            final(self).stakes == old(self).stakes,
    {
        let k = challenge_key(&data_hash, &provider);
        let c = match self.challenges.get(&k) {
            Some(c) => *c,
            None => return 1,
        };
        if c.status != 0 {
            self.logs.push(String::from_str("Challenge already answered"));
            return 2;
        }
        if slot > c.deadline_slot {
            self.logs.push(String::from_str("Challenge response too late"));
            return 3;
        }
        if is_zero_32(&response) {
            self.logs.push(String::from_str("Invalid response (all zeros)"));
            return 4;
        }
        self.challenges.insert(k, Challenge { status: 1, ..c });
        self.logs.push(String::from_str("Challenge responded successfully"));
        0
    }

    /// Slashes a provider whose challenge went unanswered past its deadline.
    /// Codes: 1 no challenge, 2 answered or slashed already, 3 deadline not
    /// passed; else `stake * percent / 100` is taken from its collateral,
    /// the challenge is marked slashed, and (0, amount) returned.
    pub fn slash_provider(&mut self, data_hash: [u8; 32], provider: [u8; 32], slot: u64) -> (r: (u32, u64))
        requires
            old(self).wf(),
            old(self).stake_of(provider) * old(self).slash_pct() <= u64::MAX,
        ensures
            final(self).admin == old(self).admin,
            final(self).challenge_window == old(self).challenge_window,
            final(self).slash_percent == old(self).slash_percent,
            final(self).data == old(self).data,
            final(self).data_count == old(self).data_count,
            final(self).providers == old(self).providers,
            final(self).rewards == old(self).rewards,
            final(self).prices == old(self).prices,
            logs_after(old(self).logs@, final(self).logs@, slash_provider_line(r.0)),
            final(self).wf(),
            old(self).challenge_of(data_hash, provider) is None ==> r.0 == 1,
            old(self).challenge_of(data_hash, provider) matches Some(c) ==> {
                let amount = (old(self).stake_of(provider) * old(self).slash_pct() / 100) as u64;
                &&& c.status != 0 ==> r.0 == 2
                &&& c.status == 0 && slot <= c.deadline_slot ==> r.0 == 3
                &&& c.status == 0 && slot > c.deadline_slot ==> r == (0u32, amount)
                    && final(self).challenge_of(data_hash, provider) == Some(Challenge { status: 2, ..c })
                    && final(self).stake_of(provider) == sat_sub(old(self).stake_of(provider), amount)
                    && forall|q: [u8; 32]| q != provider ==> final(self).stake_of(q) == old(self).stake_of(q)
            },
            r.0 != 0 ==> final(self).stakes == old(self).stakes && final(self).challenges == old(self).challenges,
            final(self).data == old(self).data,
            final(self).providers == old(self).providers,
    {
        let k = challenge_key(&data_hash, &provider);
        let c = match self.challenges.get(&k) {
            Some(c) => *c,
            None => return (1, 0),
        };
        if c.status != 0 {
            self.logs.push(String::from_str("Challenge was answered — no slash"));
            return (2, 0);
        }
        if slot <= c.deadline_slot {
            self.logs.push(String::from_str("Challenge deadline not passed yet"));
            return (3, 0);
        }
        let pct = match self.slash_percent {
            Some(p) => p,
            None => DEFAULT_SLASH_PERCENT,
        };
        let stake = Self::amount_get(&self.stakes, &provider);
        let slash_amount = stake * pct / 100;
        if slash_amount > 0 {
            self.stakes.insert(provider, stake.saturating_sub(slash_amount));
        }
        self.challenges.insert(k, Challenge { status: 2, ..c });
        self.logs.push(String::from_str("Provider slashed for failed challenge"));
        (0, slash_amount)
    }
}

/// The line `store_data` logs for code `code`, if any.
pub open spec fn store_data_line(code: u32) -> Option<Seq<char>> {
    if code == 1 {
        Some("Data size must be > 0"@)
    } else     if code == 2 {
        Some("Invalid replication factor"@)
    } else     if code == 3 {
        Some("Duration too short"@)
    } else     if code == 4 {
        Some("Data hash already registered"@)
    } else     if code == 0 {
        Some("Data storage request registered"@)
    } else {
        None
    }
}

/// The line `confirm_storage` logs for code `code`, if any.
pub open spec fn confirm_storage_line(code: u32) -> Option<Seq<char>> {
    if code == 1 {
        Some("Data entry not found"@)
    } else     if code == 3 {
        Some("Storage request expired"@)
    } else     if code == 4 {
        Some("Provider not registered"@)
    } else     if code == 5 {
        Some("Provider not active"@)
    } else     if code == 6 {
        Some("Provider already confirmed for this data"@)
    } else     if code == 7 {
        Some("Replication factor already satisfied"@)
    } else     if code == 8 {
        Some("Provider capacity exceeded"@)
    } else     if code == 0 {
        Some("Storage confirmed by provider"@)
    } else {
        None
    }
}

/// The line `register_provider` logs for code `code`, if any.
pub open spec fn register_provider_line(code: u32) -> Option<Seq<char>> {
    if code == 1 {
        Some("Capacity must be > 0"@)
    } else     if code == 2 {
        Some("Provider already registered"@)
    } else     if code == 0 {
        Some("Storage provider registered"@)
    } else {
        None
    }
}

/// The line `claim_storage_rewards` logs for code `code`, if any.
pub open spec fn claim_storage_rewards_line(code: u32) -> Option<Seq<char>> {
    if code == 1 {
        Some("No rewards to claim"@)
    } else     if code == 0 {
        Some("Storage rewards claimed"@)
    } else {
        None
    }
}

/// The line `initialize` logs for code `code`, if any.
pub open spec fn initialize_line(code: u32) -> Option<Seq<char>> {
    if code == 0 {
        Some("Reef Storage v2 initialized"@)
    } else {
        None
    }
}

/// The line `stake_collateral` logs for code `code`, if any.
pub open spec fn stake_collateral_line(code: u32) -> Option<Seq<char>> {
    if code == 1 {
        Some("Provider not registered or not active"@)
    } else     if code == 2 {
        Some("Insufficient stake for capacity"@)
    } else     if code == 0 {
        Some("Collateral staked"@)
    } else {
        None
    }
}

/// The line `set_storage_price` logs for code `code`, if any.
pub open spec fn set_storage_price_line(code: u32) -> Option<Seq<char>> {
    if code == 0 {
        Some("Storage price set"@)
    } else {
        None
    }
}

/// The line `issue_challenge` logs for code `code`, if any.
pub open spec fn issue_challenge_line(code: u32) -> Option<Seq<char>> {
    if code == 4 {
        Some("Active challenge already pending"@)
    } else     if code == 0 {
        Some("Storage challenge issued"@)
    } else {
        None
    }
}

/// The line `respond_challenge` logs for code `code`, if any.
pub open spec fn respond_challenge_line(code: u32) -> Option<Seq<char>> {
    if code == 2 {
        Some("Challenge already answered"@)
    } else     if code == 3 {
        Some("Challenge response too late"@)
    } else     if code == 4 {
        Some("Invalid response (all zeros)"@)
    } else     if code == 0 {
        Some("Challenge responded successfully"@)
    } else {
        None
    }
}

/// The line `slash_provider` logs for code `code`, if any.
pub open spec fn slash_provider_line(code: u32) -> Option<Seq<char>> {
    if code == 2 {
        Some("Challenge was answered — no slash"@)
    } else     if code == 3 {
        Some("Challenge deadline not passed yet"@)
    } else     if code == 0 {
        Some("Provider slashed for failed challenge"@)
    } else {
        None
    }
}

/// Collateral needed for `capacity`: per started gigabyte, saturating.
pub open spec fn min_stake_for(capacity: u64) -> u64 {
    sat_mul(((capacity + (GB - 1)) / (GB as int)) as u64, MIN_STAKE_PER_GB)
}

/// Why a confirmation is refused before the request is touched, if it is.
pub open spec fn confirm_refusal(s: ReefStorage, provider: [u8; 32], data_hash: [u8; 32], slot: u64) -> Option<u32> {
    if !s.data.view_map().dom().contains(data_hash) {
        Some(1u32)
    } else {
        let e = s.data.view_map()[data_hash];
        if slot > e.expiry_slot {
            Some(3u32)
        } else if !s.providers.view_map().dom().contains(provider) {
            Some(4u32)
        } else if !s.providers.view_map()[provider].active {
            Some(5u32)
        } else if e.providers@.contains(provider) {
            Some(6u32)
        } else if e.providers@.len() >= e.replication_factor {
            Some(7u32)
        } else {
            None
        }
    }
}

/// A slash never takes more than the stake.
pub proof fn lemma_slash_within_stake(stake: u64, pct: u64)
    requires
        pct <= 100,
    ensures
        stake * pct / 100 <= stake,
{
    assert(stake * pct / 100 <= stake) by (nonlinear_arith)
        requires
            pct <= 100,
    ;
}

/// `a * b`, saturating at u64::MAX.
fn mul_sat(a: u64, b: u64) -> (r: u64)
    ensures
        r == sat_mul(a, b),
{
    assert((a as int) * (b as int) <= 0xffff_ffff_ffff_ffff * 0xffff_ffff_ffff_ffff) by (nonlinear_arith)
        requires
            a <= 0xffff_ffff_ffff_ffffu64,
            b <= 0xffff_ffff_ffff_ffffu64,
    ;
    let p: u128 = (a as u128) * (b as u128);
    if p > u64::MAX as u128 { u64::MAX } else { p as u64 }
}

fn contains_key32(ks: &Vec<[u8; 32]>, k: &[u8; 32]) -> (r: bool)
    ensures
        r == ks@.contains(*k),
{
    let mut i: usize = 0;
    while i < ks.len()
        invariant
            i <= ks@.len(),
            forall|j: int| 0 <= j < i ==> ks@[j] != *k,
        decreases ks@.len() - i,
    {
        if bytes32_eq(&ks[i], k) {
            return true;
        }
        i += 1;
    }
    false
}

fn copy_keys(ks: &Vec<[u8; 32]>) -> (r: Vec<[u8; 32]>)
    ensures
        r@ == ks@,
{
    let mut out: Vec<[u8; 32]> = Vec::new();
    let mut i: usize = 0;
    while i < ks.len()
        invariant
            i <= ks@.len(),
            out@ == ks@.subrange(0, i as int),
        decreases ks@.len() - i,
    {
        out.push(ks[i]);
        assert(ks@.subrange(0, i + 1) =~= ks@.subrange(0, i as int).push(ks@[i as int]));
        i += 1;
    }
    assert(ks@.subrange(0, ks@.len() as int) =~= ks@);
    out
}

fn challenge_key(data_hash: &[u8; 32], provider: &[u8; 32]) -> (r: Vec<u8>)
    ensures
        r@ == challenge_key_view(*data_hash, *provider),
{
    let mut k: Vec<u8> = Vec::new();
    append_bytes(&mut k, data_hash);
    append_bytes(&mut k, provider);
    k
}

fn encode_data_entry(e: &DataEntry) -> (r: Vec<u8>)
    requires
        e.providers@.len() <= 255,
    ensures
        r@ == encode_entry_spec(*e),
{
    let mut out: Vec<u8> = Vec::new();
    append_bytes(&mut out, &e.owner);
    append_bytes(&mut out, &u64_to_le(e.size));
    out.push(e.replication_factor);
    out.push(e.confirmations);
    append_bytes(&mut out, &u64_to_le(e.expiry_slot));
    append_bytes(&mut out, &u64_to_le(e.created_slot));
    out.push(e.providers.len() as u8);
    let ghost head = out@;
    let mut i: usize = 0;
    while i < e.providers.len()
        invariant
            i <= e.providers@.len(),
            out@ == head + flatten_keys(e.providers@.subrange(0, i as int)),
        decreases e.providers@.len() - i,
    {
        append_bytes(&mut out, &e.providers[i]);
        assert(e.providers@.subrange(0, i + 1).drop_last() =~= e.providers@.subrange(0, i as int));
        i += 1;
    }
    assert(e.providers@.subrange(0, e.providers@.len() as int) =~= e.providers@);
    assert(out@ =~= encode_entry_spec(*e));
    out
}

} // verus!
