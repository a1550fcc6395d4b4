//! Validator set, reputation, round-robin and stake-weighted leader selection,
//! integer square root and governance voting power.
use vstd::prelude::*;
use crate::account::Pubkey;
use crate::order::{Keyed, sort_by_pubkey, sorted_by_key};
use super::rewards::{MIN_VALIDATOR_STAKE, MAX_VALIDATOR_STAKE};
use super::staking::{StakePool, StakeInfo, spec_total_stake};
use crate::bytes::{u64_le, u64_to_le, append_bytes};
use crate::crypto::sha256_spec;


verus! {

/// Validator information.
#[derive(Debug, Clone, Copy)]
pub struct ValidatorInfo {
    pub pubkey: Pubkey,
    /// Reputation score (floor 50, cap 1000).
    pub reputation: u64,
    pub blocks_proposed: u64,
    pub votes_cast: u64,
    pub correct_votes: u64,
    /// Stake in shells (used when the stake pool has no entry).
    pub stake: u64,
    pub joined_slot: u64,
    pub last_active_slot: u64,
    /// Commission rate in basis points (default 500).
    pub commission_rate: u64,
    pub transactions_processed: u64,
    /// Whether the validator waits for activation at the next epoch.
    pub pending_activation: bool,
}

impl Keyed for ValidatorInfo {
    open spec fn key(&self) -> [u8; 32] {
        self.pubkey.0
    }

    fn key_exec(&self) -> (r: [u8; 32]) {
        self.pubkey.0
    }
}

/// Reputation after one update: +10 capped at 1000 for a correct action,
/// -50 with a floor of 50 otherwise.
pub open spec fn spec_reputation_after(rep: u64, correct: bool) -> u64 {
    if correct {
        if rep + 10 < 1000 { (rep + 10) as u64 } else { 1000 }
    } else {
        let d: u64 = if rep >= 50 { (rep - 50) as u64 } else { 0 };
        if d > 50 { d } else { 50 }
    }
}

impl ValidatorInfo {
    /// New validator with reputation 100 and 5% commission.
    pub fn new(pubkey: Pubkey, joined_slot: u64) -> (r: ValidatorInfo)
        ensures
            r == (ValidatorInfo {
                pubkey,
                reputation: 100,
                blocks_proposed: 0,
                votes_cast: 0,
                correct_votes: 0,
                stake: 0,
                joined_slot,
                last_active_slot: joined_slot,
                commission_rate: 500,
                transactions_processed: 0,
                pending_activation: false,
            }),
    {
        ValidatorInfo {
            pubkey,
            reputation: 100,
            blocks_proposed: 0,
            votes_cast: 0,
            correct_votes: 0,
            stake: 0,
            joined_slot,
            last_active_slot: joined_slot,
            commission_rate: 500,
            transactions_processed: 0,
            pending_activation: false,
        }
    }

    /// Updates reputation: +10 (cap 1000) when correct, -50 (floor 50) otherwise.
    pub fn update_reputation(&mut self, correct: bool)
        requires
            old(self).reputation + 10 <= u64::MAX,
        ensures
            *final(self) == (ValidatorInfo { reputation: spec_reputation_after(old(self).reputation, correct), ..*old(self) }),
    {
        if correct {
            let r = self.reputation + 10;
            self.reputation = if r < 1000 { r } else { 1000 };
        } else {
            let d = if self.reputation >= 50 { self.reputation - 50 } else { 0 };
            self.reputation = if d > 50 { d } else { 50 };
        }
    }

    /// Voting weight: the reputation.
    pub fn voting_weight(&self) -> (r: u64)
        ensures
            r == self.reputation,
    {
        self.reputation
    }
}

/// Floor of the square root.
pub open spec fn is_isqrt(v: int, r: int) -> bool {
    r >= 0 && r * r <= v && v < (r + 1) * (r + 1)
}

proof fn lemma_newton_ge(v: int, x: int, s: int)
    requires
        x > 0,
        v >= 0,
        s >= 0,
        s * s <= v,
    ensures
        (x + v / x) / 2 >= s,
{
    let q = v / x;
    assert(v < (q + 1) * x) by (nonlinear_arith)
        requires x > 0, q == v / x, v >= 0;
    if x + q <= 2 * s - 1 {
        assert((q + 1) * x <= (2 * s - x) * x) by (nonlinear_arith)
            requires q + 1 <= 2 * s - x, x > 0;
        assert((x - s) * (x - s) >= 0) by (nonlinear_arith);
        assert(false) by (nonlinear_arith)
            requires s * s <= v, v < (q + 1) * x, (q + 1) * x <= (2 * s - x) * x, (x - s) * (x - s) >= 0;
    }
}

/// Integer square root (Newton's method), rounded down.
pub fn integer_sqrt(value: u64) -> (r: u64)
    ensures
        is_isqrt(value as int, r as int),
{
    if value == 0 {
        assert(is_isqrt(0, 0)) by (nonlinear_arith);
        return 0;
    }
    let mut x = value;
    let mut y = value / 2 + value % 2;
    let ghost mut first = true;
    proof {
        let v = value as int;
        assert((v + 1) * (v + 1) > v) by (nonlinear_arith) requires v >= 0;
        assert((y as int + 1) * (y as int + 1) > v) by (nonlinear_arith)
            requires y as int == v / 2 + v % 2, v >= 1;
    }
    while y < x
        invariant
            value >= 1,
            x >= 1,
            ((x as int) + 1) * ((x as int) + 1) > value as int,
            ((y as int) + 1) * ((y as int) + 1) > value as int,
            first ==> x == value && y == value / 2 + value % 2,
            !first ==> y as int == (x as int + (value as int) / (x as int)) / 2,
        decreases x,
    {
        x = y;
        proof {
            if (x as int) == 0 {
                assert(((x as int) + 1) * ((x as int) + 1) == 1) by (nonlinear_arith)
                    requires x == 0;
                assert(1 > value as int);
            }
        }
        let t = ((x as u128) + ((value / x) as u128)) / 2;
        assert(t <= u64::MAX);
        y = t as u64;
        proof {
            first = false;
            let v = value as int;
            let xi = x as int;
            let yi = y as int;
            if (yi + 1) * (yi + 1) <= v {
                lemma_newton_ge(v, xi, yi + 1);
            }
        }
    }
    proof {
        let v = value as int;
        let xi = x as int;
        if first {
            assert(v / 2 + v % 2 >= v);
            assert(v == 1);
            assert(xi == 1);
            assert(xi * xi == 1);
        } else {
            let q = v / xi;
            assert(xi + q >= 2 * xi);
            assert(q >= xi);
            assert(xi * xi <= v) by (nonlinear_arith)
                requires q == v / xi, q >= xi, xi >= 1, v >= 0;
        }
    }
    x
}

/// Governance voting power: isqrt(tokens) times (1 + reputation / 1000), the
/// multiplier capped at 3.0, in fixed point.
pub fn governance_voting_power(tokens_held: u64, reputation: u64) -> (r: u64)
    ensures
        exists|base: int| #![auto] is_isqrt(tokens_held as int, base) && r == ({
            let rep: int = if reputation < 2000 { reputation as int } else { 2000 };
            let m: int = if 1000 + rep < 3000 { 1000 + rep } else { 3000 };
            base * m / 1000
        }),
{
    let base = integer_sqrt(tokens_held);
    assert(base < 0x1_0000_0000) by (nonlinear_arith)
        requires (base as int) * (base as int) <= tokens_held as int, tokens_held <= u64::MAX;
    let rep = if reputation < 2000 { reputation } else { 2000 };
    let m = 1000u64 + rep;
    let capped = if m < 3000 { m } else { 3000 };
    assert((base as int) * (capped as int) / 1000 <= u64::MAX) by (nonlinear_arith)
        requires base < 0x1_0000_0000, capped <= 3000;
    ((base as u128) * (capped as u128) / 1000) as u64
}

/// The set of validators.
#[derive(Debug, Clone)]
pub struct ValidatorSet {
    validators: Vec<ValidatorInfo>,
}

/// Index of the first element of `s` with key `pk`, if any.
pub open spec fn first_with_key(s: Seq<ValidatorInfo>, pk: Pubkey) -> Option<int>
    decreases s.len(),
{
    if s.len() == 0 {
        None
    } else if s[0].pubkey == pk {
        Some(0)
    } else {
        match first_with_key(s.drop_first(), pk) {
            Some(i) => Some(i + 1),
            None => None,
        }
    }
}

proof fn lemma_first_with_key(s: Seq<ValidatorInfo>, pk: Pubkey, i: int)
    requires
        0 <= i <= s.len(),
        forall|j: int| 0 <= j < i ==> #[trigger] s[j].pubkey != pk,
    ensures
        i < s.len() && s[i].pubkey == pk ==> first_with_key(s, pk) == Some(i),
        i == s.len() ==> first_with_key(s, pk) is None,
    decreases i,
{
    if i > 0 {
        let t = s.drop_first();
        assert forall|j: int| 0 <= j < i - 1 implies #[trigger] t[j].pubkey != pk by {
            assert(t[j] == s[j + 1]);
        }
        lemma_first_with_key(t, pk, i - 1);
    } else if s.len() > 0 {
    }
}

/// Stake used for leader eligibility: the pool's total stake, else the set's own figure.
pub open spec fn leader_stake(v: ValidatorInfo, m: Map<[u8; 32], StakeInfo>) -> u64 {
    if m.dom().contains(v.pubkey.0) { spec_total_stake(m[v.pubkey.0]) } else { v.stake }
}

/// Leader weight: isqrt of the stake capped at `MAX_VALIDATOR_STAKE` (at least 1), plus 1.
pub open spec fn leader_weight(v: ValidatorInfo, m: Map<[u8; 32], StakeInfo>) -> int {
    let st = leader_stake(v, m);
    let c: u64 = if st < MAX_VALIDATOR_STAKE { st } else { MAX_VALIDATOR_STAKE };
    let c1: u64 = if c >= 1 { c } else { 1 };
    (choose|r: int| is_isqrt(c1 as int, r)) + 1
}

/// Validators of `s` eligible to lead (stake at least the minimum), in order.
pub open spec fn eligible(s: Seq<ValidatorInfo>, m: Map<[u8; 32], StakeInfo>) -> Seq<ValidatorInfo>
    decreases s.len(),
{
    if s.len() == 0 {
        Seq::empty()
    } else if leader_stake(s.last(), m) >= MIN_VALIDATOR_STAKE {
        eligible(s.drop_last(), m).push(s.last())
    } else {
        eligible(s.drop_last(), m)
    }
}

/// Index of the first maximal element of `p`.
pub open spec fn first_argmax(p: Seq<int>) -> int
    decreases p.len(),
{
    if p.len() <= 1 {
        0
    } else {
        let i = first_argmax(p.drop_last());
        if p.last() > p[i] { p.len() - 1 } else { i }
    }
}

/// One round of weighted round-robin: add every weight, pick the first maximum,
/// subtract the total weight from it.
pub open spec fn wrr_round(p: Seq<int>, w: Seq<int>, total: int) -> (Seq<int>, int) {
    let q = Seq::new(p.len(), |i: int| p[i] + w[i]);
    let i = first_argmax(q);
    (q.update(i, q[i] - total), i)
}

/// `k` rounds (k >= 1) of weighted round-robin from priorities `p`; the final
/// priorities and the winner of the last round.
pub open spec fn wrr(p: Seq<int>, w: Seq<int>, total: int, k: nat) -> (Seq<int>, int)
    decreases k,
{
    if k <= 1 {
        wrr_round(p, w, total)
    } else {
        wrr(wrr_round(p, w, total).0, w, total, (k - 1) as nat)
    }
}

/// Sum of a sequence of integers.
pub open spec fn sum_int(s: Seq<int>) -> int
    decreases s.len(),
{
    if s.len() == 0 { 0 } else { sum_int(s.drop_last()) + s.last() }
}

/// The value of the first 8 bytes of `b`, read little-endian.
pub open spec fn le_u64_value(b: Seq<u8>) -> int {
    b[0] as int + 0x100 * (b[1] as int) + 0x1_0000 * (b[2] as int) + 0x100_0000 * (b[3] as int)
        + 0x1_0000_0000 * (b[4] as int) + 0x100_0000_0000 * (b[5] as int)
        + 0x1_0000_0000_0000 * (b[6] as int) + 0x100_0000_0000_0000 * (b[7] as int)
}

/// The first 8 bytes of `b` read as a little-endian two's-complement `i64`.
pub open spec fn le_i64_value(b: Seq<u8>) -> int {
    let u = le_u64_value(b);
    if u >= 0x8000_0000_0000_0000 { u - 0x1_0000_0000_0000_0000 } else { u }
}

/// Remainder that takes the sign of the dividend (Rust's `%` on signed integers).
pub open spec fn trunc_rem(a: int, m: int) -> int {
    if a >= 0 { a % m } else { -((-a) % m) }
}

/// Initial priority of eligible validator `i` under a non-empty seed: the first
/// 8 bytes of SHA-256(seed ++ le(i)) as an `i64`, reduced by `total / 2 + 1`.
pub open spec fn seed_offset(seed: Seq<u8>, i: int, total: int) -> int {
    trunc_rem(le_i64_value(sha256_spec(seed + u64_le(i as u64))), total / 2 + 1)
}

/// Initial priorities: zeros for an empty seed, else the seed offsets.
pub open spec fn initial_priorities(seed: Seq<u8>, n: nat, total: int) -> Seq<int> {
    if seed.len() == 0 {
        Seq::new(n, |i: int| 0int)
    } else {
        Seq::new(n, |i: int| seed_offset(seed, i, total))
    }
}

/// Stake-weighted leader for `slot` over validators `s` (sorted by key): none when
/// none is eligible, the only one when one is, else the winner of
/// `slot % (4 n) + 1` rounds of weighted round-robin from the initial priorities
/// that `seed` gives.
pub open spec fn spec_weighted_leader(s: Seq<ValidatorInfo>, m: Map<[u8; 32], StakeInfo>, slot: u64, seed: Seq<u8>) -> Option<Pubkey> {
    let e = eligible(s, m);
    let n = e.len();
    if n == 0 {
        None
    } else if n == 1 {
        Some(e[0].pubkey)
    } else {
        let w = Seq::new(n, |i: int| leader_weight(e[i], m));
        let total = sum_int(w);
        let rounds = ((slot as int) % ((4 * n) as int)) as nat;
        Some(e[wrr(initial_priorities(seed, n, total), w, total, rounds + 1).1].pubkey)
    }
}

/// `s` is the set's validators sorted by key.
pub open spec fn is_sorted_copy(s: Seq<ValidatorInfo>, v: Seq<ValidatorInfo>) -> bool {
    s.to_multiset() == v.to_multiset() && sorted_by_key(s)
}

impl ValidatorSet {
    /// The validators, in insertion order.
    pub closed spec fn view_seq(&self) -> Seq<ValidatorInfo> {
        self.validators@
    }

    /// Empty set.
    pub fn new() -> (r: ValidatorSet)
        ensures
            r.view_seq().len() == 0,
    {
        ValidatorSet { validators: Vec::new() }
    }

    fn find(&self, pubkey: &Pubkey) -> (r: Option<usize>)
        ensures
            r matches Some(i) ==> i < self.view_seq().len() && first_with_key(self.view_seq(), *pubkey) == Some(i as int),
            r is None ==> first_with_key(self.view_seq(), *pubkey) is None,
    {
        let mut i: usize = 0;
        while i < self.validators.len()
            invariant
                i <= self.validators@.len(),
                forall|j: int| 0 <= j < i ==> #[trigger] self.validators@[j].pubkey != *pubkey,
            decreases self.validators@.len() - i,
        {
            if self.validators[i].pubkey == *pubkey {
                proof {
                    lemma_first_with_key(self.validators@, *pubkey, i as int);
                }
                return Some(i);
            }
            i += 1;
        }
        proof {
            lemma_first_with_key(self.validators@, *pubkey, i as int);
        }
        None
    }

    /// Adds `info` unless a validator with the same key is present.
    pub fn add_validator(&mut self, info: ValidatorInfo)
        ensures
            first_with_key(old(self).view_seq(), info.pubkey) is Some ==> final(self).view_seq() == old(self).view_seq(),
            first_with_key(old(self).view_seq(), info.pubkey) is None ==> final(self).view_seq() == old(self).view_seq().push(info),
    {
        if self.find(&info.pubkey).is_none() {
            self.validators.push(info);
        }
    }

    /// Removes every validator with key `pubkey`, keeping the order of the rest.
    pub fn remove_validator(&mut self, pubkey: &Pubkey)
        ensures
            final(self).view_seq() == old(self).view_seq().filter(|v: ValidatorInfo| v.pubkey != *pubkey),
    {
        let ghost orig = self.validators@;
        let ghost pred = |v: ValidatorInfo| v.pubkey != *pubkey;
        let mut kept: Vec<ValidatorInfo> = Vec::new();
        let mut i: usize = 0;
        while i < self.validators.len()
            invariant
                i <= self.validators@.len(),
                self.validators@ == orig,
                pred == (|v: ValidatorInfo| v.pubkey != *pubkey),
                kept@ == orig.subrange(0, i as int).filter(pred),
            decreases self.validators@.len() - i,
        {
            proof {
                assert(orig.subrange(0, i + 1).drop_last() =~= orig.subrange(0, i as int));
                reveal_with_fuel(Seq::filter, 1);
            }
            let v = self.validators[i];
            if v.pubkey != *pubkey {
                kept.push(v);
            }
            i += 1;
        }
        proof {
            assert(orig.subrange(0, orig.len() as int) =~= orig);
        }
        self.validators = kept;
    }

    /// The first validator with key `pubkey`.
    pub fn get_validator(&self, pubkey: &Pubkey) -> (r: Option<&ValidatorInfo>)
        ensures
            r matches Some(v) ==> first_with_key(self.view_seq(), *pubkey) matches Some(i) && *v == self.view_seq()[i],
            r is None ==> first_with_key(self.view_seq(), *pubkey) is None,
    {
        match self.find(pubkey) {
            Some(i) => Some(&self.validators[i]),
            None => None,
        }
    }

    /// Mutable access to the first validator with key `pubkey`.
    pub fn get_validator_mut(&mut self, pubkey: &Pubkey) -> (r: Option<&mut ValidatorInfo>)
        ensures
            r is Some <==> first_with_key(old(self).view_seq(), *pubkey) is Some,
            r matches Some(v) ==> first_with_key(old(self).view_seq(), *pubkey) matches Some(i) && *v == old(self).view_seq()[i],
    {
        match self.find(pubkey) {
            Some(i) => Some(&mut self.validators[i]),
            None => None,
        }
    }

    /// All validators, in insertion order.
    pub fn validators(&self) -> (r: &[ValidatorInfo])
        ensures
            r@ == self.view_seq(),
    {
        self.validators.as_slice()
    }

    /// Mutable access to all validators.
    pub fn validators_mut(&mut self) -> (r: &mut [ValidatorInfo])
        ensures
            r@ == old(self).view_seq(),
    {
        self.validators.as_mut_slice()
    }

    /// The validators sorted by key.
    pub fn sorted_validators(&self) -> (r: Vec<ValidatorInfo>)
        ensures
            is_sorted_copy(r@, self.view_seq()),
    {
        let copy = self.validators.clone();
        proof {
            assert(copy@ =~= self.validators@);
        }
        sort_by_pubkey(copy)
    }

    /// Sum of reputations.
    pub fn total_voting_weight(&self) -> (r: u64)
        requires
            sum_reputation(self.view_seq()) <= u64::MAX,
        ensures
            r == sum_reputation(self.view_seq()),
    {
        let mut sum: u64 = 0;
        let mut i: usize = 0;
        while i < self.validators.len()
            invariant
                i <= self.validators@.len(),
                sum == sum_reputation(self.validators@.subrange(0, i as int)),
                sum_reputation(self.validators@) <= u64::MAX,
            decreases self.validators@.len() - i,
        {
            proof {
                assert(self.validators@.subrange(0, i + 1).drop_last() =~= self.validators@.subrange(0, i as int));
                lemma_sum_reputation_prefix(self.validators@, i + 1);
            }
            sum = sum + self.validators[i].reputation;
            i += 1;
        }
        proof {
            assert(self.validators@.subrange(0, self.validators@.len() as int) =~= self.validators@);
        }
        sum
    }

    /// Round-robin leader for `slot`: the validator at `slot mod n` in key order.
    pub fn select_leader(&self, slot: u64) -> (r: Option<Pubkey>)
        ensures
            self.view_seq().len() == 0 ==> r is None,
            self.view_seq().len() > 0 ==> exists|s: Seq<ValidatorInfo>| #[trigger] is_sorted_copy(s, self.view_seq())
                && r == Some(s[((slot as usize) % (s.len() as usize)) as int].pubkey),
    {
        if self.validators.len() == 0 {
            return None;
        }
        let sorted = self.sorted_validators();
        proof {
            sorted@.to_multiset_ensures();
            self.validators@.to_multiset_ensures();
        }
        let index = (slot as usize) % sorted.len();
        Some(sorted[index].pubkey)
    }

    /// Whether `pubkey` is the round-robin leader of `slot`.
    pub fn is_leader(&self, slot: u64, pubkey: &Pubkey) -> (r: bool)
        ensures
            self.view_seq().len() == 0 ==> !r,
            self.view_seq().len() > 0 ==> exists|s: Seq<ValidatorInfo>| #[trigger] is_sorted_copy(s, self.view_seq())
                && r == (s[((slot as usize) % (s.len() as usize)) as int].pubkey == *pubkey),
    {
        match self.select_leader(slot) {
            Some(leader) => leader == *pubkey,
            None => false,
        }
    }
}

/// Sum of reputations.
pub open spec fn sum_reputation(s: Seq<ValidatorInfo>) -> nat
    decreases s.len(),
{
    if s.len() == 0 { 0 } else { sum_reputation(s.drop_last()) + s.last().reputation as nat }
}

proof fn lemma_sum_reputation_prefix(s: Seq<ValidatorInfo>, i: int)
    requires
        0 <= i <= s.len(),
    ensures
        sum_reputation(s.subrange(0, i)) <= sum_reputation(s),
    decreases s.len() - i,
{
    if i < s.len() {
        lemma_sum_reputation_prefix(s, i + 1);
        assert(s.subrange(0, i + 1).drop_last() =~= s.subrange(0, i));
    } else {
        assert(s.subrange(0, i) =~= s);
    }
}


/// The floor square root is unique.
pub proof fn lemma_isqrt_unique(v: int, a: int, b: int)
    requires
        is_isqrt(v, a),
        is_isqrt(v, b),
    ensures
        a == b,
{
    if a < b {
        assert((a + 1) * (a + 1) <= b * b) by (nonlinear_arith)
            requires 0 <= a, a + 1 <= b;
    }
    if b < a {
        assert((b + 1) * (b + 1) <= a * a) by (nonlinear_arith)
            requires 0 <= b, b + 1 <= a;
    }
}

proof fn lemma_wrr_step(p: Seq<int>, w: Seq<int>, total: int, k: nat)
    requires
        k >= 1,
    ensures
        wrr(p, w, total, k + 1) == wrr_round(wrr(p, w, total, k).0, w, total),
    decreases k,
{
    if k > 1 {
        lemma_wrr_step(wrr_round(p, w, total).0, w, total, (k - 1) as nat);
        assert(wrr(p, w, total, k + 1) == wrr(wrr_round(p, w, total).0, w, total, k));
    } else {
        assert(wrr(p, w, total, 2) == wrr(wrr_round(p, w, total).0, w, total, 1));
    }
}

/// One round of weighted round-robin on `prio`, in place; returns the winner.
fn wrr_round_exec(prio: &mut Vec<i128>, weights: &Vec<i128>, total: i128, Ghost(bound): Ghost<int>) -> (r: usize)
    requires
        old(prio)@.len() == weights@.len(),
        old(prio)@.len() >= 1,
        total > 0,
        bound >= 0,
        bound + total <= 0x7fff_ffff_ffff_ffff_ffff_ffff_ffff_0000,
        forall|i: int| 0 <= i < weights@.len() ==> 0 <= #[trigger] weights@[i] <= total,
        forall|i: int| 0 <= i < old(prio)@.len() ==> -bound <= #[trigger] old(prio)@[i] <= bound,
    ensures
        final(prio)@.len() == old(prio)@.len(),
        r < old(prio)@.len(),
        forall|i: int| 0 <= i < final(prio)@.len() ==> -(bound + total) <= #[trigger] final(prio)@[i] <= bound + total,
        ({
            let (q, idx) = wrr_round(old(prio)@.map_values(|x: i128| x as int), weights@.map_values(|x: i128| x as int), total as int);
            &&& r as int == idx
            &&& final(prio)@.map_values(|x: i128| x as int) == q
        }),
{
    let n = prio.len();
    let ghost p0 = prio@.map_values(|x: i128| x as int);
    let ghost w0 = weights@.map_values(|x: i128| x as int);
    let ghost q = Seq::new(p0.len(), |i: int| p0[i] + w0[i]);
    let mut i: usize = 0;
    while i < n
        invariant
            n == prio@.len(),
            n == weights@.len(),
            n == old(prio)@.len(),
            p0.len() == n,
            w0.len() == n,
            q.len() == n,
            i <= n,
            bound >= 0,
            bound + total <= 0x7fff_ffff_ffff_ffff_ffff_ffff_ffff_0000,
            forall|j: int| 0 <= j < weights@.len() ==> 0 <= #[trigger] weights@[j] <= total,
            p0 == old(prio)@.map_values(|x: i128| x as int),
            w0 == weights@.map_values(|x: i128| x as int),
            q == Seq::new(p0.len(), |j: int| p0[j] + w0[j]),
            forall|j: int| 0 <= j < i ==> #[trigger] prio@[j] as int == q[j],
            forall|j: int| i <= j < n ==> #[trigger] prio@[j] as int == p0[j],
            forall|j: int| 0 <= j < n ==> -bound <= #[trigger] old(prio)@[j] <= bound,
        decreases n - i,
    {
        proof {
            assert(p0[i as int] == old(prio)@[i as int] as int);
            assert(w0[i as int] == weights@[i as int] as int);
            assert(q[i as int] == p0[i as int] + w0[i as int]);
        }
        let v = prio[i] + weights[i];
        prio.set(i, v);
        proof {
            assert(prio@[i as int] as int == q[i as int]);
        }
        i += 1;
    }
    let mut idx: usize = 0;
    let mut best = prio[0];
    let mut k: usize = 1;
    proof {
        assert(q.subrange(0, 1).drop_last().len() == 0);
    }
    while k < n
        invariant
            n == prio@.len(),
            1 <= k <= n,
            idx < k,
            best == prio@[idx as int],
            q.len() == n,
            forall|j: int| 0 <= j < n ==> #[trigger] prio@[j] as int == q[j],
            idx as int == first_argmax(q.subrange(0, k as int)),
        decreases n - k,
    {
        proof {
            assert(q.subrange(0, k + 1).drop_last() =~= q.subrange(0, k as int));
            assert(q.subrange(0, k + 1).last() == q[k as int]);
            assert(q.subrange(0, k + 1)[idx as int] == q[idx as int]);
        }
        if prio[k] > best {
            best = prio[k];
            idx = k;
        }
        k += 1;
    }
    proof {
        assert(q.subrange(0, n as int) =~= q);
    }
    let v = prio[idx] - total;
    prio.set(idx, v);
    proof {
        let (qq, ii) = wrr_round(p0, w0, total as int);
        assert(ii == idx as int);
        assert(prio@.map_values(|x: i128| x as int) =~= qq);
    }
    idx
}

proof fn lemma_eligible_step(s: Seq<ValidatorInfo>, m: Map<[u8; 32], StakeInfo>, i: int)
    requires
        0 <= i < s.len(),
    ensures
        eligible(s.subrange(0, i + 1), m) == if leader_stake(s[i], m) >= MIN_VALIDATOR_STAKE {
            eligible(s.subrange(0, i), m).push(s[i])
        } else {
            eligible(s.subrange(0, i), m)
        },
{
    assert(s.subrange(0, i + 1).drop_last() =~= s.subrange(0, i));
}

proof fn lemma_sum_int_bound(s: Seq<int>, b: int)
    requires
        forall|i: int| 0 <= i < s.len() ==> 0 <= #[trigger] s[i] <= b,
    ensures
        0 <= sum_int(s) <= s.len() * b,
        forall|i: int| 0 <= i < s.len() ==> sum_int(s) >= #[trigger] s[i],
    decreases s.len(),
{
    if s.len() > 0 {
        let t = s.drop_last();
        assert forall|i: int| 0 <= i < t.len() implies 0 <= #[trigger] t[i] <= b by {
            assert(t[i] == s[i]);
        }
        lemma_sum_int_bound(t, b);
        assert(s.len() * b == t.len() * b + b) by (nonlinear_arith)
            requires s.len() == t.len() + 1;
        assert forall|i: int| 0 <= i < s.len() implies sum_int(s) >= #[trigger] s[i] by {
            if i < t.len() {
                assert(t[i] == s[i]);
            }
        }
    }
}

/// Initial priority of eligible validator `i` under the non-empty seed `seed`.
fn seed_priority(seed: &[u8], i: u64, total: i128) -> (r: i128)
    requires
        seed@.len() + 8 <= usize::MAX,
        total >= 2,
    ensures
        r as int == seed_offset(seed@, i as int, total as int),
        -total <= r <= total,
{
    let mut pre: Vec<u8> = Vec::new();
    append_bytes(&mut pre, seed);
    let le = u64_to_le(i);
    append_bytes(&mut pre, &le);
    let h = crate::hash::Hash::hash(pre.as_slice());
    let b = h.0;
    let u: u128 = (b[0] as u128) + 0x100 * (b[1] as u128) + 0x1_0000 * (b[2] as u128) + 0x100_0000 * (b[3] as u128)
        + 0x1_0000_0000 * (b[4] as u128) + 0x100_0000_0000 * (b[5] as u128)
        + 0x1_0000_0000_0000 * (b[6] as u128) + 0x100_0000_0000_0000 * (b[7] as u128);
    let raw: i128 = if u >= 0x8000_0000_0000_0000 {
        (u as i128) - 0x1_0000_0000_0000_0000
    } else {
        u as i128
    };
    let m: i128 = total / 2 + 1;
    let r = if raw >= 0 { raw % m } else { -((-raw) % m) };
    proof {
        assert(pre@ =~= seed@ + u64_le(i));
        assert(le_u64_value(b@) == u as int);
    }
    r
}

impl ValidatorSet {
    /// Whether `pubkey` is the stake-weighted leader of `slot`.
    pub fn is_leader_weighted(&self, slot: u64, pubkey: &Pubkey, stake_pool: &StakePool) -> (r: bool)
        requires
            stake_pool.wf(),
            self.view_seq().len() <= 0x100_0000_0000,
        ensures
            exists|s: Seq<ValidatorInfo>| #[trigger] is_sorted_copy(s, self.view_seq())
                && r == (spec_weighted_leader(s, stake_pool.stakes_view(), slot, Seq::empty()) == Some(*pubkey)),
    {
        match self.select_leader_weighted(slot, stake_pool) {
            Some(leader) => leader == *pubkey,
            None => false,
        }
    }

    /// Stake-weighted leader of `slot` with no randomness seed.
    pub fn select_leader_weighted(&self, slot: u64, stake_pool: &StakePool) -> (r: Option<Pubkey>)
        requires
            stake_pool.wf(),
            self.view_seq().len() <= 0x100_0000_0000,
        ensures
            exists|s: Seq<ValidatorInfo>| #[trigger] is_sorted_copy(s, self.view_seq())
                && r == spec_weighted_leader(s, stake_pool.stakes_view(), slot, Seq::empty()),
    {
        let empty: [u8; 0] = [];
        proof {
            assert(empty@ =~= Seq::<u8>::empty());
        }
        self.select_leader_weighted_with_seed(slot, stake_pool, &empty)
    }

    /// Stake-weighted leader (Tendermint weighted round-robin over sqrt-stake
    /// weights) of the validators with at least the minimum stake, in key order,
    /// from initial priorities derived from `randomness_seed`.
    /// None when no validator is eligible.
    pub fn select_leader_weighted_with_seed(&self, slot: u64, stake_pool: &StakePool, randomness_seed: &[u8]) -> (r: Option<Pubkey>)
        requires
            stake_pool.wf(),
            self.view_seq().len() <= 0x100_0000_0000,
            randomness_seed@.len() + 8 <= usize::MAX,
        ensures
            exists|s: Seq<ValidatorInfo>| #[trigger] is_sorted_copy(s, self.view_seq())
                && r == spec_weighted_leader(s, stake_pool.stakes_view(), slot, randomness_seed@),
    {
        let ghost m = stake_pool.stakes_view();
        let sorted = self.sorted_validators();
        proof {
            sorted@.to_multiset_ensures();
            self.validators@.to_multiset_ensures();
        }
        let mut elig: Vec<ValidatorInfo> = Vec::new();
        let mut i: usize = 0;
        while i < sorted.len()
            invariant
                i <= sorted@.len(),
                stake_pool.wf(),
                m == stake_pool.stakes_view(),
                elig@ == eligible(sorted@.subrange(0, i as int), m),
                elig@.len() <= i,
            decreases sorted@.len() - i,
        {
            proof {
                lemma_eligible_step(sorted@, m, i as int);
            }
            let v = sorted[i];
            let stake = match stake_pool.get_stake(&v.pubkey) {
                Some(si) => si.total_stake(),
                None => v.stake,
            };
            if stake >= MIN_VALIDATOR_STAKE {
                elig.push(v);
            }
            i += 1;
        }
        proof {
            assert(sorted@.subrange(0, sorted@.len() as int) =~= sorted@);
        }
        let n = elig.len();
        assert(is_sorted_copy(sorted@, self.view_seq()));
        if n == 0 {
            assert(spec_weighted_leader(sorted@, m, slot, randomness_seed@) == None::<Pubkey>);
            return None;
        }
        if n == 1 {
            assert(spec_weighted_leader(sorted@, m, slot, randomness_seed@) == Some(elig@[0].pubkey));
            return Some(elig[0].pubkey);
        }
        let ghost e = elig@;
        let mut weights: Vec<i128> = Vec::new();
        let mut j: usize = 0;
        while j < n
            invariant
                j <= n,
                n == elig@.len(),
                e == elig@,
                stake_pool.wf(),
                m == stake_pool.stakes_view(),
                weights@.len() == j,
                forall|k: int| 0 <= k < j ==> #[trigger] weights@[k] as int == leader_weight(e[k], m),
                forall|k: int| 0 <= k < j ==> 2 <= #[trigger] weights@[k] <= 0x4000_0001,
            decreases n - j,
        {
            let v = elig[j];
            let st = match stake_pool.get_stake(&v.pubkey) {
                Some(si) => si.total_stake(),
                None => v.stake,
            };
            let c = if st < MAX_VALIDATOR_STAKE { st } else { MAX_VALIDATOR_STAKE };
            let c1 = if c >= 1 { c } else { 1 };
            let root = integer_sqrt(c1);
            proof {
                let chosen = choose|r: int| is_isqrt(c1 as int, r);
                assert(is_isqrt(c1 as int, root as int));
                lemma_isqrt_unique(c1 as int, chosen, root as int);
                assert(root < 0x4000_0000) by (nonlinear_arith)
                    requires (root as int) * (root as int) <= c1 as int, c1 <= MAX_VALIDATOR_STAKE;
                assert(root >= 1) by (nonlinear_arith)
                    requires c1 >= 1, (c1 as int) < ((root as int) + 1) * ((root as int) + 1), root >= 0;
            }
            weights.push((root as i128) + 1);
            j += 1;
        }
        let ghost w = weights@.map_values(|x: i128| x as int);
        proof {
            assert(w =~= Seq::new(n as nat, |k: int| leader_weight(e[k], m)));
        }
        let mut total: i128 = 0;
        let mut t: usize = 0;
        while t < n
            invariant
                t <= n,
                n == weights@.len(),
                n <= 0x100_0000_0000,
                w == weights@.map_values(|x: i128| x as int),
                total as int == sum_int(w.subrange(0, t as int)),
                0 <= total <= t * 0x4000_0001,
                forall|k: int| 0 <= k < n ==> 2 <= #[trigger] weights@[k] <= 0x4000_0001,
            decreases n - t,
        {
            proof {
                assert(w.subrange(0, t + 1).drop_last() =~= w.subrange(0, t as int));
                assert(w.subrange(0, t + 1).last() == w[t as int]);
                assert((t + 1) * 0x4000_0001 == t * 0x4000_0001 + 0x4000_0001) by (nonlinear_arith);
            }
            total = total + weights[t];
            t += 1;
        }
        proof {
            assert(w.subrange(0, n as int) =~= w);
            assert forall|k: int| 0 <= k < w.len() implies 0 <= #[trigger] w[k] <= 0x4000_0001 by {
                assert(w[k] == weights@[k] as int);
            }
            lemma_sum_int_bound(w, 0x4000_0001);
            assert(w[0] == weights@[0] as int);
            assert(total >= 2);
            assert forall|k: int| 0 <= k < n implies 0 <= #[trigger] weights@[k] <= total by {
                assert(w[k] == weights@[k] as int);
            }
        }
        if total == 0 {
            return self.select_leader(slot);
        }
        let epoch_len = (n as u64) * 4;
        let effective_rounds = slot % epoch_len;
        let ghost init = initial_priorities(randomness_seed@, n as nat, total as int);
        let mut prio: Vec<i128> = Vec::new();
        let mut z: usize = 0;
        while z < n
            invariant
                z <= n,
                n <= 0x100_0000_0000,
                total >= 2,
                randomness_seed@.len() + 8 <= usize::MAX,
                init == initial_priorities(randomness_seed@, n as nat, total as int),
                prio@.len() == z,
                forall|k: int| 0 <= k < z ==> #[trigger] prio@[k] as int == init[k],
                forall|k: int| 0 <= k < z ==> -total <= #[trigger] prio@[k] <= total,
            decreases n - z,
        {
            if randomness_seed.len() == 0 {
                prio.push(0);
            } else {
                let off = seed_priority(randomness_seed, z as u64, total);
                prio.push(off);
            }
            z += 1;
        }
        let ghost zeros = prio@.map_values(|x: i128| x as int);
        proof {
            assert(zeros =~= init);
            assert(total <= n * 0x4000_0001);
            assert(((effective_rounds as int) + 2) * (total as int) <= 0x7fff_ffff_ffff_ffff_ffff_ffff_ffff_0000) by (nonlinear_arith)
                requires effective_rounds < n * 4, total <= n * 0x4000_0001, n <= 0x100_0000_0000;
        }
        let mut proposer_idx: usize = 0;
        let mut round: u64 = 0;
        let ghost mut bound: int = total as int;
        while round <= effective_rounds
            invariant
                n == prio@.len(),
                n == weights@.len(),
                n >= 2,
                total > 0,
                w == weights@.map_values(|x: i128| x as int),
                total as int == sum_int(w),
                forall|k: int| 0 <= k < n ==> 0 <= #[trigger] weights@[k] <= total,
                round <= effective_rounds + 1,
                effective_rounds < 0xffff_ffff_ffff_ffff,
                bound == (round + 1) * total,
                ((effective_rounds as int) + 2) * (total as int) <= 0x7fff_ffff_ffff_ffff_ffff_ffff_ffff_0000,
                forall|k: int| 0 <= k < n ==> -bound <= #[trigger] prio@[k] <= bound,
                round == 0 ==> prio@.map_values(|x: i128| x as int) == zeros,
                round >= 1 ==> (prio@.map_values(|x: i128| x as int), proposer_idx as int) == wrr(zeros, w, total as int, round as nat),
                proposer_idx < n,
            decreases effective_rounds + 1 - round,
        {
            proof {
                assert(bound + total <= ((effective_rounds as int) + 2) * (total as int)) by (nonlinear_arith)
                    requires bound == (round + 1) * total, round <= effective_rounds, total > 0;
                if round >= 1 {
                    lemma_wrr_step(zeros, w, total as int, round as nat);
                }
            }
            proposer_idx = wrr_round_exec(&mut prio, &weights, total, Ghost(bound));
            proof {
                bound = bound + total;
                assert(bound == (round + 2) * total) by (nonlinear_arith)
                    requires bound == (round + 1) * total + total;
            }
            round = round + 1;
        }
        proof {
            assert(round == effective_rounds + 1);
            let nn = n as int;
            assert(effective_rounds as int == (slot as int) % ((4 * nn) as int));
            assert(spec_weighted_leader(sorted@, m, slot, randomness_seed@) == Some(elig@[proposer_idx as int].pubkey));
        }
        Some(elig[proposer_idx].pubkey)
    }
}

} // verus!
