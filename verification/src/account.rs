//! Public keys, Ed25519 keypairs and the account balance model.
use vstd::prelude::*;
use crate::bytes::{bytes32_eq};
use crate::crypto::{
    bs58_encode, bs58_encode_spec, bs58_decode, bs58_decode_spec, keccak256, keccak256_spec,
    hex_encode, hex_lower, ed25519_public_key, ed25519_public_key_spec, ed25519_sign,
    ed25519_signature_spec, ed25519_verify, ed25519_valid_spec,
};
use crate::text::{decimal, u64_to_decimal};

verus! {

broadcast use vstd::array::group_array_axioms;

/// Ed25519 public key (32 bytes).
#[derive(Clone, Copy, Debug, Hash)]
pub struct Pubkey(pub [u8; 32]);

impl PartialEq for Pubkey {
    fn eq(&self, other: &Self) -> (r: bool) {
        bytes32_eq(&self.0, &other.0)
    }
}

impl Eq for Pubkey {}

impl vstd::std_specs::cmp::PartialEqSpecImpl for Pubkey {
    open spec fn obeys_eq_spec() -> bool {
        true
    }

    open spec fn eq_spec(&self, other: &Pubkey) -> bool {
        *self == *other
    }
}

impl Pubkey {
    /// Wraps the given bytes.
    pub fn new(bytes: [u8; 32]) -> (r: Pubkey)
        ensures
            r == Pubkey(bytes),
    {
        Pubkey(bytes)
    }

    /// Base58 text of the key (the native address format).
    pub fn to_base58(&self) -> (r: String)
        ensures
            r@ == bs58_encode_spec(self.0@),
    {
        bs58_encode(&self.0)
    }

    /// EVM-style address: `0x` and the hex of the last 20 bytes of Keccak-256 of the key.
    pub fn to_evm(&self) -> (r: String)
        ensures
            r@ == seq!['0', 'x'] + hex_lower(keccak256_spec(self.0@).subrange(12, 32)),
    {
        let h = keccak256(&self.0);
        let mut tail: Vec<u8> = Vec::new();
        let mut i: usize = 12;
        while i < 32
            invariant
                12 <= i <= 32,
                h@.len() == 32,
                tail@ == h@.subrange(12, i as int),
            decreases 32 - i,
        {
            tail.push(h[i]);
            assert(h@.subrange(12, i + 1) =~= h@.subrange(12, i as int).push(h@[i as int]));
            i += 1;
        }
        let hex = hex_encode(tail.as_slice());
        let mut out = String::from_str("0x");
        out.append(hex.as_str());
        proof {
            reveal_strlit("0x");
        }
        assert(out@ =~= seq!['0', 'x'] + hex_lower(keccak256_spec(self.0@).subrange(12, 32)));
        out
    }

    /// Parses a Base58 address of exactly 32 bytes.
    pub fn from_base58(s: &str) -> (r: Result<Pubkey, String>)
        ensures
            r is Ok <==> (bs58_decode_spec(s@) is Some && bs58_decode_spec(s@).unwrap().len() == 32),
            r matches Ok(p) ==> p.0@ == bs58_decode_spec(s@).unwrap(),
            r matches Err(m) ==> base58_key_error(s@, m@),
    {
        let bytes = match bs58_decode(s) {
            Ok(b) => b,
            Err(e) => {
                let mut m = String::from_str("Invalid base58: ");
                m.append(e.as_str());
                proof {
                    reveal_strlit("Invalid base58: ");
                }
                assert(m@.subrange(0, 16) =~= "Invalid base58: "@);
                return Err(m);
            },
        };
        if bytes.len() != 32 {
            let mut m = String::from_str("Invalid length: ");
            m.append(u64_to_decimal(bytes.len() as u64).as_str());
            m.append(" (expected 32)");
            return Err(m);
        }
        let mut out = [0u8; 32];
        let mut i: usize = 0;
        while i < 32
            invariant
                i <= 32,
                bytes@.len() == 32,
                forall|j: int| 0 <= j < i ==> out@[j] == bytes@[j],
            decreases 32 - i,
        {
            out[i] = bytes[i];
            i += 1;
        }
        assert(out@ =~= bytes@);
        Ok(Pubkey(out))
    }
}

/// `e` is the message for the text `s` that is no Base58 key of 32 bytes:
/// the decoder's own message after a fixed prefix, or the length found.
pub open spec fn base58_key_error(s: Seq<char>, e: Seq<char>) -> bool {
    match bs58_decode_spec(s) {
        None => e.len() >= 16 && e.subrange(0, 16) == "Invalid base58: "@,
        Some(b) => e == "Invalid length: "@ + decimal(b.len()) + " (expected 32)"@,
    }
}

/// Ed25519 keypair for signing, held as its 32-byte secret seed.
pub struct Keypair {
    seed: [u8; 32],
}

impl Keypair {
    /// The secret seed.
    pub closed spec fn seed_view(&self) -> Seq<u8> {
        self.seed@
    }

    /// Keypair of the given seed.
    pub fn from_seed(seed: &[u8; 32]) -> (r: Keypair)
        ensures
            r.seed_view() == seed@,
    {
        Keypair { seed: *seed }
    }

    /// The secret seed bytes.
    pub fn secret_key(&self) -> (r: &[u8; 32])
        ensures
            r@ == self.seed_view(),
    {
        &self.seed
    }

    /// The secret seed bytes.
    pub fn secret(&self) -> (r: &[u8; 32])
        ensures
            r@ == self.seed_view(),
    {
        &self.seed
    }

    /// The seed bytes (for saving).
    pub fn to_seed(&self) -> (r: [u8; 32])
        ensures
            r@ == self.seed_view(),
    {
        self.seed
    }

    /// The public key derived from the seed.
    pub fn pubkey(&self) -> (r: Pubkey)
        ensures
            r.0@ == ed25519_public_key_spec(self.seed_view()),
    {
        Pubkey(ed25519_public_key(&self.seed))
    }

    /// Signs `message`; the signature verifies under `self.pubkey()`.
    pub fn sign(&self, message: &[u8]) -> (r: [u8; 64])
        ensures
            r@ == ed25519_signature_spec(self.seed_view(), message@),
            ed25519_valid_spec(ed25519_public_key_spec(self.seed_view()), message@, r@),
    {
        ed25519_sign(&self.seed, message)
    }

    /// Checks an Ed25519 signature of `message` under `pubkey`.
    pub fn verify(pubkey: &Pubkey, message: &[u8], signature: &[u8; 64]) -> (r: bool)
        ensures
            r == ed25519_valid_spec(pubkey.0@, message@, signature@),
    {
        ed25519_verify(&pubkey.0, message, signature)
    }
}

/// Shells per MOLT.
pub const SHELLS_PER_MOLT: u64 = 1_000_000_000;

/// Account with its balance split into spendable, staked and locked parts.
#[derive(Clone, Debug)]
pub struct Account {
    /// Total balance in shells (spendable + staked + locked).
    pub shells: u64,
    /// Spendable balance.
    pub spendable: u64,
    /// Balance staked with validators.
    pub staked: u64,
    /// Balance locked in contracts, escrow or multisig.
    pub locked: u64,
    /// Arbitrary data.
    pub data: Vec<u8>,
    /// Program that owns this account.
    pub owner: Pubkey,
    /// Whether the account is an executable program.
    pub executable: bool,
    /// Last epoch when rent was assessed.
    pub rent_epoch: u64,
    /// Whether the account is dormant.
    pub dormant: bool,
    /// Consecutive epochs of unpaid rent.
    pub missed_rent_epochs: u64,
}

impl Account {
    /// The balance split is consistent: shells == spendable + staked + locked.
    pub open spec fn balanced(&self) -> bool {
        self.shells == self.spendable + self.staked + self.locked
    }

    /// The fields other than the four balances are those of `other`.
    pub open spec fn same_metadata(&self, other: &Account) -> bool {
        &&& self.data == other.data
        &&& self.owner == other.owner
        &&& self.executable == other.executable
        &&& self.rent_epoch == other.rent_epoch
        &&& self.dormant == other.dormant
        &&& self.missed_rent_epochs == other.missed_rent_epochs
    }

    /// Repairs a legacy account whose three parts are all zero while shells is not:
    /// the whole balance becomes spendable.
    pub fn fixup_legacy(&mut self)
        ensures
            if old(self).shells > 0 && old(self).spendable == 0 && old(self).staked == 0
                && old(self).locked == 0 {
                *final(self) == (Account { spendable: old(self).shells, ..*old(self) })
            } else {
                *final(self) == *old(self)
            },
    {
        if self.shells > 0 && self.spendable == 0 && self.staked == 0 && self.locked == 0 {
            self.spendable = self.shells;
        }
    }

    /// MOLT to shells, saturating at `u64::MAX`.
    pub fn molt_to_shells(molt: u64) -> (r: u64)
        ensures
            r == if molt * SHELLS_PER_MOLT > u64::MAX { u64::MAX as int } else { molt * SHELLS_PER_MOLT },
    {
        if molt > u64::MAX / SHELLS_PER_MOLT {
            assert(molt * SHELLS_PER_MOLT > u64::MAX) by (nonlinear_arith)
                requires molt > u64::MAX / SHELLS_PER_MOLT;
            u64::MAX
        } else {
            assert(molt * SHELLS_PER_MOLT <= u64::MAX) by (nonlinear_arith)
                requires molt <= u64::MAX / SHELLS_PER_MOLT;
            molt * SHELLS_PER_MOLT
        }
    }

    /// Shells to whole MOLT (truncating).
    pub fn shells_to_molt(shells: u64) -> (r: u64)
        ensures
            r == shells / SHELLS_PER_MOLT,
    {
        shells / SHELLS_PER_MOLT
    }

    /// New account holding `molt` MOLT, all spendable.
    pub fn new(molt: u64, owner: Pubkey) -> (r: Account)
        ensures
            r.shells == if molt * SHELLS_PER_MOLT > u64::MAX { u64::MAX as int } else { molt * SHELLS_PER_MOLT },
            r.spendable == r.shells,
            r.staked == 0,
            r.locked == 0,
            r.data@.len() == 0,
            r.owner == owner,
            !r.executable,
            r.rent_epoch == 0,
            !r.dormant,
            r.missed_rent_epochs == 0,
            r.balanced(),
    {
        let shells = Self::molt_to_shells(molt);
        Account {
            shells,
            spendable: shells,
            staked: 0,
            locked: 0,
            data: Vec::new(),
            owner,
            executable: false,
            rent_epoch: 0,
            dormant: false,
            missed_rent_epochs: 0,
        }
    }

    /// Moves `amount` from spendable to staked. Zero is a no-op.
    /// Fails without change when spendable is short or staked would overflow;
    /// after a move, fails (keeping the move) if the balance split was inconsistent.
    pub fn stake(&mut self, amount: u64) -> (r: Result<(), String>)
        ensures
            amount > 0 && amount > old(self).spendable ==> (r matches Err(m)
                && m@ == balance_text("Insufficient spendable balance: "@, old(self).spendable, " < "@, amount)),
            amount > 0 && amount <= old(self).spendable && old(self).staked + amount > u64::MAX ==> (r matches Err(m)
                && m@ == balance_text("Overflow adding "@, amount, " to staked balance "@, old(self).staked)),
            amount > 0 && amount <= old(self).spendable && old(self).staked + amount <= u64::MAX
                ==> (r matches Err(m) ==> m@ == "Account invariant violated after stake"@),
            amount == 0 ==> r is Ok && *final(self) == *old(self),
            amount > 0 && (amount > old(self).spendable || old(self).staked + amount > u64::MAX)
                ==> r is Err && *final(self) == *old(self),
            amount > 0 && amount <= old(self).spendable && old(self).staked + amount <= u64::MAX ==> {
                &&& *final(self) == old(self).after_stake(amount)
                &&& (r is Ok <==> final(self).balanced())
            },
    {
        if amount == 0 {
            return Ok(());
        }
        if amount > self.spendable {
            return Err(balance_msg("Insufficient spendable balance: ", self.spendable, " < ", amount));
        }
        if self.staked > u64::MAX - amount {
            return Err(balance_msg("Overflow adding ", amount, " to staked balance ", self.staked));
        }
        self.spendable = self.spendable - amount;
        self.staked = self.staked + amount;
        if !self.is_balanced() {
            return Err(String::from_str("Account invariant violated after stake"));
        }
        Ok(())
    }

    /// Moves `amount` from staked to spendable. Zero is a no-op.
    pub fn unstake(&mut self, amount: u64) -> (r: Result<(), String>)
        ensures
            amount > 0 && amount > old(self).staked ==> (r matches Err(m)
                && m@ == balance_text("Insufficient staked balance: "@, old(self).staked, " < "@, amount)),
            amount > 0 && amount <= old(self).staked && old(self).spendable + amount > u64::MAX ==> (r matches Err(m)
                && m@ == balance_text("Overflow adding "@, amount, " to spendable balance "@, old(self).spendable)),
            amount > 0 && amount <= old(self).staked && old(self).spendable + amount <= u64::MAX
                ==> (r matches Err(m) ==> m@ == "Account invariant violated after unstake"@),
            amount == 0 ==> r is Ok && *final(self) == *old(self),
            amount > 0 && (amount > old(self).staked || old(self).spendable + amount > u64::MAX)
                ==> r is Err && *final(self) == *old(self),
            amount > 0 && amount <= old(self).staked && old(self).spendable + amount <= u64::MAX ==> {
                &&& *final(self) == old(self).after_unstake(amount)
                &&& (r is Ok <==> final(self).balanced())
            },
    {
        if amount == 0 {
            return Ok(());
        }
        if amount > self.staked {
            return Err(balance_msg("Insufficient staked balance: ", self.staked, " < ", amount));
        }
        if self.spendable > u64::MAX - amount {
            return Err(balance_msg("Overflow adding ", amount, " to spendable balance ", self.spendable));
        }
        self.staked = self.staked - amount;
        self.spendable = self.spendable + amount;
        if !self.is_balanced() {
            return Err(String::from_str("Account invariant violated after unstake"));
        }
        Ok(())
    }

    /// Moves `amount` from spendable to locked. Zero is a no-op.
    pub fn lock(&mut self, amount: u64) -> (r: Result<(), String>)
        ensures
            amount > 0 && amount > old(self).spendable ==> (r matches Err(m)
                && m@ == balance_text("Insufficient spendable balance: "@, old(self).spendable, " < "@, amount)),
            amount > 0 && amount <= old(self).spendable && old(self).locked + amount > u64::MAX ==> (r matches Err(m)
                && m@ == balance_text("Overflow adding "@, amount, " to locked balance "@, old(self).locked)),
            amount > 0 && amount <= old(self).spendable && old(self).locked + amount <= u64::MAX
                ==> (r matches Err(m) ==> m@ == "Account invariant violated after lock"@),
            amount == 0 ==> r is Ok && *final(self) == *old(self),
            amount > 0 && (amount > old(self).spendable || old(self).locked + amount > u64::MAX)
                ==> r is Err && *final(self) == *old(self),
            amount > 0 && amount <= old(self).spendable && old(self).locked + amount <= u64::MAX ==> {
                &&& *final(self) == old(self).after_lock(amount)
                &&& (r is Ok <==> final(self).balanced())
            },
    {
        if amount == 0 {
            return Ok(());
        }
        if amount > self.spendable {
            return Err(balance_msg("Insufficient spendable balance: ", self.spendable, " < ", amount));
        }
        if self.locked > u64::MAX - amount {
            return Err(balance_msg("Overflow adding ", amount, " to locked balance ", self.locked));
        }
        self.spendable = self.spendable - amount;
        self.locked = self.locked + amount;
        if !self.is_balanced() {
            return Err(String::from_str("Account invariant violated after lock"));
        }
        Ok(())
    }

    /// Moves `amount` from locked to spendable. Zero is a no-op.
    pub fn unlock(&mut self, amount: u64) -> (r: Result<(), String>)
        ensures
            amount > 0 && amount > old(self).locked ==> (r matches Err(m)
                && m@ == balance_text("Insufficient locked balance: "@, old(self).locked, " < "@, amount)),
            amount > 0 && amount <= old(self).locked && old(self).spendable + amount > u64::MAX ==> (r matches Err(m)
                && m@ == balance_text("Overflow adding "@, amount, " to spendable balance "@, old(self).spendable)),
            amount > 0 && amount <= old(self).locked && old(self).spendable + amount <= u64::MAX
                ==> (r matches Err(m) ==> m@ == "Account invariant violated after unlock"@),
            amount == 0 ==> r is Ok && *final(self) == *old(self),
            amount > 0 && (amount > old(self).locked || old(self).spendable + amount > u64::MAX)
                ==> r is Err && *final(self) == *old(self),
            amount > 0 && amount <= old(self).locked && old(self).spendable + amount <= u64::MAX ==> {
                &&& *final(self) == old(self).after_unlock(amount)
                &&& (r is Ok <==> final(self).balanced())
            },
    {
        if amount == 0 {
            return Ok(());
        }
        if amount > self.locked {
            return Err(balance_msg("Insufficient locked balance: ", self.locked, " < ", amount));
        }
        if self.spendable > u64::MAX - amount {
            return Err(balance_msg("Overflow adding ", amount, " to spendable balance ", self.spendable));
        }
        self.locked = self.locked - amount;
        self.spendable = self.spendable + amount;
        if !self.is_balanced() {
            return Err(String::from_str("Account invariant violated after unlock"));
        }
        Ok(())
    }

    /// Adds `amount` to shells and to spendable; fails without change on overflow of either.
    pub fn add_spendable(&mut self, amount: u64) -> (r: Result<(), String>)
        ensures
            old(self).shells + amount > u64::MAX ==> (r matches Err(m)
                && m@ == balance_text("Overflow adding "@, amount, " to shells balance "@, old(self).shells)),
            old(self).shells + amount <= u64::MAX && old(self).spendable + amount > u64::MAX ==> (r matches Err(m)
                && m@ == balance_text("Overflow adding "@, amount, " to spendable balance "@, old(self).spendable)),
            (old(self).shells + amount > u64::MAX || old(self).spendable + amount > u64::MAX)
                ==> r is Err && *final(self) == *old(self),
            (old(self).shells + amount <= u64::MAX && old(self).spendable + amount <= u64::MAX)
                ==> r is Ok && *final(self) == (Account {
                    shells: (old(self).shells + amount) as u64,
                    spendable: (old(self).spendable + amount) as u64,
                    ..*old(self)
                }),
    {
        if self.shells > u64::MAX - amount {
            return Err(balance_msg("Overflow adding ", amount, " to shells balance ", self.shells));
        }
        if self.spendable > u64::MAX - amount {
            return Err(balance_msg("Overflow adding ", amount, " to spendable balance ", self.spendable));
        }
        self.shells = self.shells + amount;
        self.spendable = self.spendable + amount;
        Ok(())
    }

    /// Takes `amount` from spendable and from shells; fails without change if either is short.
    pub fn deduct_spendable(&mut self, amount: u64) -> (r: Result<(), String>)
        ensures
            amount > old(self).spendable ==> (r matches Err(m)
                && m@ == balance_text("Insufficient spendable balance: "@, old(self).spendable, " < "@, amount)),
            amount <= old(self).spendable && amount > old(self).shells ==> (r matches Err(m)
                && m@ == balance_text("Underflow subtracting "@, amount, " from shells balance "@, old(self).shells)),
            (amount > old(self).spendable || amount > old(self).shells)
                ==> r is Err && *final(self) == *old(self),
            (amount <= old(self).spendable && amount <= old(self).shells)
                ==> r is Ok && *final(self) == (Account {
                    shells: (old(self).shells - amount) as u64,
                    spendable: (old(self).spendable - amount) as u64,
                    ..*old(self)
                }),
    {
        if amount > self.spendable {
            return Err(balance_msg("Insufficient spendable balance: ", self.spendable, " < ", amount));
        }
        if amount > self.shells {
            return Err(balance_msg("Underflow subtracting ", amount, " from shells balance ", self.shells));
        }
        self.spendable = self.spendable - amount;
        self.shells = self.shells - amount;
        Ok(())
    }

    /// Balance in whole MOLT.
    pub fn balance_molt(&self) -> (r: u64)
        ensures
            r == self.shells / SHELLS_PER_MOLT,
    {
        Self::shells_to_molt(self.shells)
    }

    /// The account after moving `amount` from spendable to staked.
    pub open spec fn after_stake(self, amount: u64) -> Account {
        Account { spendable: (self.spendable - amount) as u64, staked: (self.staked + amount) as u64, ..self }
    }

    /// The account after moving `amount` from staked to spendable.
    pub open spec fn after_unstake(self, amount: u64) -> Account {
        Account { staked: (self.staked - amount) as u64, spendable: (self.spendable + amount) as u64, ..self }
    }

    /// The account after moving `amount` from spendable to locked.
    pub open spec fn after_lock(self, amount: u64) -> Account {
        Account { spendable: (self.spendable - amount) as u64, locked: (self.locked + amount) as u64, ..self }
    }

    /// The account after moving `amount` from locked to spendable.
    pub open spec fn after_unlock(self, amount: u64) -> Account {
        Account { locked: (self.locked - amount) as u64, spendable: (self.spendable + amount) as u64, ..self }
    }

    fn is_balanced(&self) -> (r: bool)
        ensures
            r == self.balanced(),
    {
        (self.spendable as u128) + (self.staked as u128) + (self.locked as u128) == self.shells as u128
    }
}

/// The text `a`, the numeral of `x`, the text `b`, the numeral of `y`.
pub open spec fn balance_text(a: Seq<char>, x: u64, b: Seq<char>, y: u64) -> Seq<char> {
    a + decimal(x as nat) + b + decimal(y as nat)
}

/// A message of the form `a x b y` with two numbers.
fn balance_msg(a: &str, x: u64, b: &str, y: u64) -> (r: String)
    ensures
        r@ == balance_text(a@, x, b@, y),
{
    let mut m = String::from_str(a);
    m.append(u64_to_decimal(x).as_str());
    m.append(b);
    m.append(u64_to_decimal(y).as_str());
    m
}

/// Staking `amount` then unstaking it gives back the same account; likewise
/// locking then unlocking. A successful move between the three parts of a
/// balanced account keeps it balanced and keeps its total.
pub proof fn lemma_move_round_trip(a: Account, amount: u64)
    requires
        amount <= a.spendable,
        a.staked + amount <= u64::MAX,
        a.locked + amount <= u64::MAX,
    ensures
        a.after_stake(amount).after_unstake(amount) == a,
        a.after_lock(amount).after_unlock(amount) == a,
        a.balanced() ==> a.after_stake(amount).balanced() && a.after_stake(amount).shells == a.shells,
        a.balanced() ==> a.after_lock(amount).balanced() && a.after_lock(amount).shells == a.shells,
{
}

/// Unstaking or unlocking a part of a balanced account keeps it balanced and keeps its total.
pub proof fn lemma_release_keeps_total(a: Account, amount: u64)
    requires
        a.balanced(),
        a.spendable + amount <= u64::MAX,
    ensures
        amount <= a.staked ==> a.after_unstake(amount).balanced() && a.after_unstake(amount).shells == a.shells,
        amount <= a.locked ==> a.after_unlock(amount).balanced() && a.after_unlock(amount).shells == a.shells,
{
}

} // verus!
