//! The mempool: pending transactions, ordered strictly by fee (then oldest
//! first), with a size limit and a per-sender limit.
use vstd::prelude::*;
use crate::account::Pubkey;
use crate::clock::unix_now_secs;
use crate::crypto::{sha256_spec, bs58_encode_spec};
use crate::text::{decimal, u64_to_decimal};
use crate::keymap::KeyMap;
use crate::transaction::{Transaction, message_bytes, spec_sender, same_tx, lemma_same_tx};

verus! {

/// Most pending transactions per sender.
pub const MAX_PENDING_PER_SENDER: usize = 100;

/// A pending transaction with its fee, arrival time, hash and sender.
#[derive(Debug, Clone)]
pub struct PendingTx {
    pub transaction: Transaction,
    pub fee: u64,
    pub timestamp: u64,
    pub hash: crate::hash::Hash,
    pub sender: Pubkey,
}

/// `a` goes before `b`: a higher fee, or the same fee and an earlier arrival.
pub open spec fn prio_gt(a: PendingTx, b: PendingTx) -> bool {
    a.fee > b.fee || (a.fee == b.fee && a.timestamp < b.timestamp)
}

/// Whether some pending entry has hash `h`.
pub open spec fn has_hash(s: Seq<PendingTx>, h: crate::hash::Hash) -> bool {
    exists|i: int| 0 <= i < s.len() && #[trigger] s[i].hash == h
}

/// Each entry's hash and sender are those of its transaction, and no hash
/// occurs twice.
pub open spec fn entries_wf(s: Seq<PendingTx>) -> bool {
    &&& forall|i: int| 0 <= i < s.len() ==> (#[trigger] s[i]).hash.0@ == sha256_spec(message_bytes(s[i].transaction.message))
    &&& forall|i: int| 0 <= i < s.len() ==> (#[trigger] s[i]).sender == spec_sender(s[i].transaction.message)
    &&& forall|i: int, j: int| 0 <= i < j < s.len() ==> #[trigger] s[i].hash != #[trigger] s[j].hash
}

/// Whether an entry has expired at `now`: its age (saturating) is at least `exp`.
pub open spec fn is_expired(e: PendingTx, now: u64, exp: u64) -> bool {
    (if now >= e.timestamp { now - e.timestamp } else { 0 }) >= exp
}

/// `after` is `before` without the transactions expired at `now`: what
/// stays was there and has not expired, and nothing unexpired is lost.
pub open spec fn expired_dropped(before: Seq<PendingTx>, after: Seq<PendingTx>, now: u64, exp: u64) -> bool {
    &&& forall|i: int| 0 <= i < after.len() ==> !is_expired(#[trigger] after[i], now, exp) && before.contains(after[i])
    &&& forall|i: int| 0 <= i < before.len() && !is_expired(#[trigger] before[i], now, exp) ==> after.contains(before[i])
}

/// Count of `k` in the map (0 when absent).
pub open spec fn count_of(m: Map<[u8; 32], usize>, k: [u8; 32]) -> nat {
    if m.dom().contains(k) { m[k] as nat } else { 0 }
}

/// The counts after one removal for `k`: one less (saturating), dropped at zero.
pub open spec fn counts_after_removal(m: Map<[u8; 32], usize>, k: [u8; 32]) -> Map<[u8; 32], usize> {
    if m.dom().contains(k) {
        if m[k] <= 1 { m.remove(k) } else { m.insert(k, (m[k] - 1) as usize) }
    } else {
        m
    }
}

/// Fee-ordered pool of pending transactions.
pub struct Mempool {
    entries: Vec<PendingTx>,
    sender_counts: KeyMap<usize>,
    max_size: usize,
    expiration_time: u64,
}

impl Mempool {
    /// The pending entries, in arrival order.
    pub closed spec fn entries_view(&self) -> Seq<PendingTx> {
        self.entries@
    }

    /// Pending count per sender key.
    pub closed spec fn counts_view(&self) -> Map<[u8; 32], usize> {
        self.sender_counts.view_map()
    }

    /// The size limit.
    pub closed spec fn max_size_view(&self) -> usize {
        self.max_size
    }

    /// Seconds after which a pending transaction expires.
    pub closed spec fn expiration_view(&self) -> u64 {
        self.expiration_time
    }

    /// Internal consistency.
    pub closed spec fn wf(&self) -> bool {
        entries_wf(self.entries@) && self.sender_counts.wf()
    }

    /// An empty pool.
    pub fn new(max_size: usize, expiration_time: u64) -> (r: Mempool)
        ensures
            r.wf(),
            r.entries_view().len() == 0,
            r.counts_view().dom().is_empty(),
            r.max_size_view() == max_size,
            r.expiration_view() == expiration_time,
    {
        Mempool { entries: Vec::new(), sender_counts: KeyMap::new(), max_size, expiration_time }
    }

    fn find(&self, h: &crate::hash::Hash) -> (r: Option<usize>)
        ensures
            r is None <==> !has_hash(self.entries@, *h),
            r matches Some(i) ==> i < self.entries@.len() && self.entries@[i as int].hash == *h,
    {
        let mut i: usize = 0;
        while i < self.entries.len()
            invariant
                i <= self.entries@.len(),
                forall|j: int| 0 <= j < i ==> #[trigger] self.entries@[j].hash != *h,
            decreases self.entries@.len() - i,
        {
            if self.entries[i].hash == *h {
                assert(self.entries@[i as int].hash == *h);
                return Some(i);
            }
            i += 1;
        }
        None
    }

    /// Adds `transaction` with `fee`, stamped now. Refused when its hash is
    /// pending, when the pool is full, or when its sender has the maximum of
    /// pending transactions. The reputation does not affect the order.
    pub fn add_transaction(&mut self, transaction: Transaction, fee: u64, _reputation: u64) -> (r: Result<(), String>)
        requires
            old(self).wf(),
        ensures
            final(self).wf(),
            final(self).max_size_view() == old(self).max_size_view(),
            final(self).expiration_view() == old(self).expiration_view(),
            ({
                let h = sha256_spec(message_bytes(transaction.message));
                let s = spec_sender(transaction.message);
                let dup = exists|i: int| 0 <= i < old(self).entries_view().len() && #[trigger] old(self).entries_view()[i].hash.0@ == h;
                &&& r is Ok <==> (!dup && old(self).entries_view().len() < old(self).max_size_view()
                    && count_of(old(self).counts_view(), s.0) < MAX_PENDING_PER_SENDER)
                &&& dup ==> (r matches Err(e) && e@ == "Transaction already in mempool"@)
                &&& !dup && old(self).entries_view().len() >= old(self).max_size_view() ==> (r matches Err(e) && e@ == "Mempool full"@)
                &&& !dup && old(self).entries_view().len() < old(self).max_size_view()
                    && count_of(old(self).counts_view(), s.0) >= MAX_PENDING_PER_SENDER ==> (r matches Err(e) && e@ == "Sender "@
                    + bs58_encode_spec(s.0@) + " has "@ + decimal(count_of(old(self).counts_view(), s.0) as nat)
                    + " pending transactions (max "@ + decimal(MAX_PENDING_PER_SENDER as nat) + ")"@)
                &&& r is Err ==> final(self).entries_view() == old(self).entries_view() && final(self).counts_view() == old(self).counts_view()
                &&& r is Ok ==> {
                    let e = final(self).entries_view().last();
                    &&& final(self).entries_view().drop_last() == old(self).entries_view()
                    &&& final(self).entries_view().len() == old(self).entries_view().len() + 1
                    &&& same_tx(e.transaction, transaction)
                    &&& e.fee == fee
                    &&& e.hash.0@ == h
                    &&& e.sender == s
                    &&& final(self).counts_view() == old(self).counts_view().insert(s.0, (count_of(old(self).counts_view(), s.0) + 1) as usize)
                }
            }),
    {
        proof {
            reveal_strlit("Transaction already in mempool");
            reveal_strlit("Mempool full");
        }
        let h = transaction.hash();
        let ghost hs = sha256_spec(message_bytes(transaction.message));
        match self.find(&h) {
            Some(i) => {
                assert(self.entries@[i as int].hash.0@ == hs);
                return Err(String::from_str("Transaction already in mempool"));
            },
            None => {
                proof {
                    if exists|i: int| 0 <= i < self.entries@.len() && #[trigger] self.entries@[i].hash.0@ == hs {
                        let i = choose|i: int| 0 <= i < self.entries@.len() && #[trigger] self.entries@[i].hash.0@ == hs;
                        assert(self.entries@[i].hash.0 =~= h.0);
                        assert(self.entries@[i].hash == h);
                    }
                }
            },
        }
        if self.entries.len() >= self.max_size {
            return Err(String::from_str("Mempool full"));
        }
        let sender = transaction.sender();
        let c = match self.sender_counts.get(&sender.0) {
            Some(c) => *c,
            None => 0,
        };
        if c >= MAX_PENDING_PER_SENDER {
            let mut e = String::from_str("Sender ");
            e.append(sender.to_base58().as_str());
            e.append(" has ");
            e.append(u64_to_decimal(c as u64).as_str());
            e.append(" pending transactions (max ");
            e.append(u64_to_decimal(MAX_PENDING_PER_SENDER as u64).as_str());
            e.append(")");
            return Err(e);
        }
        let timestamp = unix_now_secs();
        let copy = transaction.duplicate();
        proof {
            lemma_same_tx(copy, transaction);
        }
        let ghost before = self.entries@;
        self.entries.push(PendingTx { transaction: copy, fee, timestamp, hash: h, sender });
        self.sender_counts.insert(sender.0, c + 1);
        proof {
            let after = self.entries@;
            assert(after.drop_last() =~= before);
            assert forall|i: int, j: int| 0 <= i < j < after.len() implies #[trigger] after[i].hash != #[trigger] after[j].hash by {
                if j == after.len() - 1 {
                    assert(after[i] == before[i]);
                } else {
                    assert(after[i] == before[i] && after[j] == before[j]);
                }
            }
            assert forall|i: int| 0 <= i < after.len() implies (#[trigger] after[i]).hash.0@ == sha256_spec(message_bytes(after[i].transaction.message)) by {
                if i < before.len() {
                    assert(after[i] == before[i]);
                }
            }
            assert forall|i: int| 0 <= i < after.len() implies (#[trigger] after[i]).sender == spec_sender(after[i].transaction.message) by {
                if i < before.len() {
                    assert(after[i] == before[i]);
                }
            }
        }
        Ok(())
    }

    /// The `count` highest-priority transactions (fee, then arrival), highest
    /// first; the pool is unchanged.
    pub fn get_top_transactions(&mut self, count: usize) -> (r: Vec<Transaction>)
        requires
            old(self).wf(),
        ensures
            *final(self) == *old(self),
            ({
                let e = old(self).entries_view();
                &&& r@.len() == (if count < e.len() { count as int } else { e.len() as int })
                &&& exists|picks: Seq<int>| {
                    &&& #[trigger] picks.len() == r@.len()
                    &&& forall|i: int| 0 <= i < picks.len() ==> 0 <= #[trigger] picks[i] < e.len()
                    &&& forall|i: int, j: int| 0 <= i < j < picks.len() ==> picks[i] != picks[j]
                    &&& forall|i: int| 0 <= i < picks.len() ==> same_tx(#[trigger] r@[i], e[picks[i]].transaction)
                    &&& forall|i: int, j: int| 0 <= i < j < picks.len() ==> !prio_gt(e[picks[j]], e[picks[i]])
                    &&& forall|k: int, i: int| 0 <= k < e.len() && !picks.contains(k) && 0 <= i < picks.len()
                        ==> !prio_gt(#[trigger] e[k], #[trigger] e[picks[i]])
                }
            }),
    {
        let ghost e = self.entries@;
        let n = self.entries.len();
        let want = if count < n { count } else { n };
        let mut picked: Vec<bool> = Vec::new();
        let mut z: usize = 0;
        while z < n
            invariant
                z <= n,
                picked@.len() == z,
                forall|k: int| 0 <= k < z ==> !#[trigger] picked@[k],
            decreases n - z,
        {
            picked.push(false);
            z += 1;
        }
        let mut out: Vec<Transaction> = Vec::new();
        let ghost mut picks: Seq<int> = Seq::empty();
        let mut round: usize = 0;
        while round < want
            invariant
                e == self.entries@,
                n == e.len(),
                want <= n,
                round <= want,
                picked@.len() == n,
                out@.len() == round,
                picks.len() == round,
                forall|i: int| 0 <= i < picks.len() ==> 0 <= #[trigger] picks[i] < n,
                forall|k: int| 0 <= k < n ==> (#[trigger] picked@[k] <==> picks.contains(k)),
                forall|i: int, j: int| 0 <= i < j < picks.len() ==> picks[i] != picks[j],
                forall|i: int| 0 <= i < picks.len() ==> same_tx(#[trigger] out@[i], e[picks[i]].transaction),
                forall|i: int, j: int| 0 <= i < j < picks.len() ==> !prio_gt(e[picks[j]], e[picks[i]]),
                forall|k: int, i: int| 0 <= k < n && !picks.contains(k) && 0 <= i < picks.len()
                    ==> !prio_gt(#[trigger] e[k], #[trigger] e[picks[i]]),
            decreases want - round,
        {
            proof {
                if forall|k: int| 0 <= k < n ==> #[trigger] picked@[k] {
                    assert forall|k: int| 0 <= k < n implies picks.contains(k) by {
                        assert(picked@[k]);
                    }
                    lemma_distinct_covers(picks, n as int);
                }
            }
            let mut best: usize = n;
            let mut k: usize = 0;
            while k < n
                invariant
                    e == self.entries@,
                    n == e.len(),
                    k <= n,
                    picked@.len() == n,
                    best == n || (best < k && !picked@[best as int]),
                    forall|q: int| 0 <= q < k && !#[trigger] picked@[q] ==> best < n && !prio_gt(e[q], e[best as int]),
                decreases n - k,
            {
                if !picked[k] {
                    if best == n || prio_gt_exec(&self.entries[k], &self.entries[best]) {
                        best = k;
                    }
                }
                k += 1;
            }
            proof {
                if best == n {
                    let q = choose|q: int| 0 <= q < n && !#[trigger] picked@[q];
                    assert(false);
                }
            }
            picked.set(best, true);
            out.push(self.entries[best].transaction.duplicate());
            proof {
                let old_picks = picks;
                picks = picks.push(best as int);
                assert forall|q: int| 0 <= q < n implies (#[trigger] picked@[q] <==> picks.contains(q)) by {
                    if q == best as int {
                        assert(picks[picks.len() - 1] == q);
                    } else {
                        if old_picks.contains(q) {
                            let w = choose|w: int| 0 <= w < old_picks.len() && old_picks[w] == q;
                            assert(picks[w] == q);
                        }
                        if picks.contains(q) {
                            let w = choose|w: int| 0 <= w < picks.len() && picks[w] == q;
                            assert(w < old_picks.len());
                            assert(old_picks[w] == q);
                        }
                    }
                }
                assert forall|i: int, j: int| 0 <= i < j < picks.len() implies picks[i] != picks[j] by {
                    if j == picks.len() - 1 {
                        assert(old_picks.contains(picks[i]));
                        assert(!picked@[best as int] || true);
                    }
                }
                assert forall|i: int| 0 <= i < picks.len() implies same_tx(#[trigger] out@[i], e[picks[i]].transaction) by {}
                assert forall|i: int, j: int| 0 <= i < j < picks.len() implies !prio_gt(e[picks[j]], e[picks[i]]) by {
                    if j == picks.len() - 1 {
                        assert(!old_picks.contains(best as int));
                        assert(!prio_gt(e[best as int], e[old_picks[i]]));
                    }
                }
                assert forall|q: int, i: int| 0 <= q < n && !picks.contains(q) && 0 <= i < picks.len()
                    implies !prio_gt(#[trigger] e[q], #[trigger] e[picks[i]]) by {
                    assert(!old_picks.contains(q)) by {
                        if old_picks.contains(q) {
                            let w = choose|w: int| 0 <= w < old_picks.len() && old_picks[w] == q;
                            assert(picks[w] == q);
                        }
                    }
                    assert(q != best as int) by {
                        assert(picks[picks.len() - 1] == best as int);
                    }
                    if i == picks.len() - 1 {
                        assert(!picked@[q]);
                    }
                }
            }
            round += 1;
        }
        out
    }

    fn remove_entry(&mut self, i: usize)
        requires
            old(self).wf(),
            i < old(self).entries_view().len(),
        ensures
            final(self).wf(),
            final(self).entries_view() == old(self).entries_view().remove(i as int),
            final(self).counts_view() == counts_after_removal(old(self).counts_view(), old(self).entries_view()[i as int].sender.0),
            final(self).max_size_view() == old(self).max_size_view(),
            final(self).expiration_view() == old(self).expiration_view(),
    {
        let ghost before = self.entries@;
        let e = self.entries.remove(i);
        let s = e.sender;
        match self.sender_counts.get(&s.0) {
            Some(c) => {
                let c2 = if *c >= 1 { *c - 1 } else { 0 };
                if c2 == 0 {
                    self.sender_counts.remove(&s.0);
                } else {
                    self.sender_counts.insert(s.0, c2);
                }
            },
            None => {},
        }
        proof {
            let after = self.entries@;
            assert(after =~= before.remove(i as int));
            assert forall|a: int, b: int| 0 <= a < b < after.len() implies #[trigger] after[a].hash != #[trigger] after[b].hash by {
                let aa = if a < i { a } else { a + 1 };
                let bb = if b < i { b } else { b + 1 };
                assert(after[a] == before[aa] && after[b] == before[bb]);
            }
            assert forall|a: int| 0 <= a < after.len() implies (#[trigger] after[a]).hash.0@ == sha256_spec(message_bytes(after[a].transaction.message)) by {
                let aa = if a < i { a } else { a + 1 };
                assert(after[a] == before[aa]);
            }
            assert forall|a: int| 0 <= a < after.len() implies (#[trigger] after[a]).sender == spec_sender(after[a].transaction.message) by {
                let aa = if a < i { a } else { a + 1 };
                assert(after[a] == before[aa]);
            }
        }
    }

    /// Removes the transaction with hash `tx_hash`, if pending, decrementing
    /// its sender's count (dropped at zero).
    pub fn remove_transaction(&mut self, tx_hash: &crate::hash::Hash)
        requires
            old(self).wf(),
        ensures
            final(self).wf(),
            final(self).max_size_view() == old(self).max_size_view(),
            final(self).expiration_view() == old(self).expiration_view(),
            !has_hash(old(self).entries_view(), *tx_hash) ==> final(self).entries_view() == old(self).entries_view()
                && final(self).counts_view() == old(self).counts_view(),
            has_hash(old(self).entries_view(), *tx_hash) ==> exists|i: int| 0 <= i < old(self).entries_view().len()
                && #[trigger] old(self).entries_view()[i].hash == *tx_hash
                && final(self).entries_view() == old(self).entries_view().remove(i)
                && final(self).counts_view() == counts_after_removal(old(self).counts_view(), old(self).entries_view()[i].sender.0),
            !has_hash(final(self).entries_view(), *tx_hash),
    {
        match self.find(tx_hash) {
            Some(i) => {
                let ghost before = self.entries@;
                self.remove_entry(i);
                proof {
                    assert(before[i as int].hash == *tx_hash);
                    if has_hash(self.entries@, *tx_hash) {
                        let j = choose|j: int| 0 <= j < self.entries@.len() && #[trigger] self.entries@[j].hash == *tx_hash;
                        let jj = if j < i { j } else { j + 1 };
                        assert(self.entries@[j] == before[jj]);
                        assert(jj != i);
                    }
                }
            },
            None => {},
        }
    }

    /// Removes each of the given transactions (as `remove_transaction`, in order).
    pub fn remove_transactions_bulk(&mut self, tx_hashes: &[crate::hash::Hash])
        requires
            old(self).wf(),
        ensures
            final(self).wf(),
            final(self).max_size_view() == old(self).max_size_view(),
            final(self).expiration_view() == old(self).expiration_view(),
            forall|j: int| 0 <= j < tx_hashes@.len() ==> !has_hash(final(self).entries_view(), #[trigger] tx_hashes@[j]),
            forall|i: int| 0 <= i < final(self).entries_view().len() ==> old(self).entries_view().contains(#[trigger] final(self).entries_view()[i]),
            forall|i: int| 0 <= i < old(self).entries_view().len() && !tx_hashes@.contains((#[trigger] old(self).entries_view()[i]).hash)
                ==> final(self).entries_view().contains(old(self).entries_view()[i]),
            final(self).entries_view().len() <= old(self).entries_view().len(),
    {
        let ghost orig = self.entries@;
        let mut j: usize = 0;
        while j < tx_hashes.len()
            invariant
                j <= tx_hashes@.len(),
                self.wf(),
                self.max_size_view() == old(self).max_size_view(),
                self.expiration_view() == old(self).expiration_view(),
                orig == old(self).entries_view(),
                forall|q: int| 0 <= q < j ==> !has_hash(self.entries_view(), #[trigger] tx_hashes@[q]),
                forall|i: int| 0 <= i < self.entries_view().len() ==> orig.contains(#[trigger] self.entries_view()[i]),
                forall|i: int| 0 <= i < orig.len() && !tx_hashes@.subrange(0, j as int).contains((#[trigger] orig[i]).hash)
                    ==> self.entries_view().contains(orig[i]),
                self.entries_view().len() <= orig.len(),
            decreases tx_hashes@.len() - j,
        {
            let ghost before = self.entries@;
            self.remove_transaction(&tx_hashes[j]);
            proof {
                let after = self.entries@;
                assert forall|i: int| 0 <= i < after.len() implies before.contains(#[trigger] after[i]) by {
                    if has_hash(before, tx_hashes@[j as int]) {
                        let r = choose|r: int| 0 <= r < before.len() && #[trigger] before[r].hash == tx_hashes@[j as int]
                            && after == before.remove(r);
                        let ii = if i < r { i } else { i + 1 };
                        assert(after[i] == before[ii]);
                    } else {
                        assert(after[i] == before[i]);
                    }
                }
                assert forall|i: int| 0 <= i < after.len() implies orig.contains(#[trigger] after[i]) by {
                    assert(before.contains(after[i]));
                    let w = choose|w: int| 0 <= w < before.len() && before[w] == after[i];
                    assert(orig.contains(before[w]));
                }
                assert forall|i: int| 0 <= i < orig.len() && !tx_hashes@.subrange(0, j + 1).contains((#[trigger] orig[i]).hash)
                    implies after.contains(orig[i]) by {
                    assert(!tx_hashes@.subrange(0, j as int).contains(orig[i].hash)) by {
                        if tx_hashes@.subrange(0, j as int).contains(orig[i].hash) {
                            let w = choose|w: int| 0 <= w < j && tx_hashes@.subrange(0, j as int)[w] == orig[i].hash;
                            assert(tx_hashes@.subrange(0, j + 1)[w] == orig[i].hash);
                        }
                    }
                    assert(orig[i].hash != tx_hashes@[j as int]) by {
                        assert(tx_hashes@.subrange(0, j + 1)[j as int] == tx_hashes@[j as int]);
                    }
                    assert(before.contains(orig[i]));
                    let v = choose|v: int| 0 <= v < before.len() && before[v] == orig[i];
                    if has_hash(before, tx_hashes@[j as int]) {
                        let r = choose|r: int| 0 <= r < before.len() && #[trigger] before[r].hash == tx_hashes@[j as int]
                            && after == before.remove(r);
                        assert(v != r);
                        let vv = if v < r { v } else { v - 1 };
                        assert(after[vv] == before[v]);
                    } else {
                        assert(after[v] == before[v]);
                    }
                }
                assert forall|q: int| 0 <= q <= j implies !has_hash(after, #[trigger] tx_hashes@[q]) by {
                    if q < j && has_hash(after, tx_hashes@[q]) {
                        let w = choose|w: int| 0 <= w < after.len() && #[trigger] after[w].hash == tx_hashes@[q];
                        assert(before.contains(after[w]));
                        let v = choose|v: int| 0 <= v < before.len() && before[v] == after[w];
                        assert(before[v].hash == tx_hashes@[q]);
                    }
                }
            }
            j += 1;
        }
    }

    fn hashes_where_expired(&self, now: u64) -> (r: Vec<crate::hash::Hash>)
        ensures
            forall|h: crate::hash::Hash| #[trigger] r@.contains(h) <==> exists|i: int| 0 <= i < self.entries@.len()
                && #[trigger] self.entries@[i].hash == h && is_expired(self.entries@[i], now, self.expiration_time),
    {
        let mut out: Vec<crate::hash::Hash> = Vec::new();
        let mut i: usize = 0;
        while i < self.entries.len()
            invariant
                i <= self.entries@.len(),
                forall|h: crate::hash::Hash| #[trigger] out@.contains(h) <==> exists|q: int| 0 <= q < i
                    && #[trigger] self.entries@[q].hash == h && is_expired(self.entries@[q], now, self.expiration_time),
            decreases self.entries@.len() - i,
        {
            let e = &self.entries[i];
            let age = if now >= e.timestamp { now - e.timestamp } else { 0 };
            let ghost before = out@;
            if age >= self.expiration_time {
                out.push(e.hash);
            }
            proof {
                assert forall|h: crate::hash::Hash| #[trigger] out@.contains(h) <==> exists|q: int| 0 <= q < i + 1
                    && #[trigger] self.entries@[q].hash == h && is_expired(self.entries@[q], now, self.expiration_time) by {
                    if out@.contains(h) {
                        let w = choose|w: int| 0 <= w < out@.len() && out@[w] == h;
                        if w < before.len() {
                            assert(before.contains(h));
                        }
                    }
                    if exists|q: int| 0 <= q < i + 1 && #[trigger] self.entries@[q].hash == h && is_expired(self.entries@[q], now, self.expiration_time) {
                        let q = choose|q: int| 0 <= q < i + 1 && #[trigger] self.entries@[q].hash == h && is_expired(self.entries@[q], now, self.expiration_time);
                        if q < i {
                            assert(before.contains(h));
                            let w = choose|w: int| 0 <= w < before.len() && before[w] == h;
                            assert(out@[w] == h);
                        } else {
                            assert(out@[out@.len() - 1] == h);
                        }
                    }
                }
            }
            i += 1;
        }
        out
    }

    /// Drops the transactions that have expired at time `now`: those whose
    /// age (saturating) is at least the expiration time.
    pub fn cleanup_expired_at(&mut self, now: u64)
        requires
            old(self).wf(),
        ensures
            final(self).wf(),
            final(self).max_size_view() == old(self).max_size_view(),
            final(self).expiration_view() == old(self).expiration_view(),
            forall|i: int| 0 <= i < final(self).entries_view().len() ==>
                !is_expired(#[trigger] final(self).entries_view()[i], now, old(self).expiration_view())
                && old(self).entries_view().contains(final(self).entries_view()[i]),
            forall|i: int| 0 <= i < old(self).entries_view().len() && !is_expired(#[trigger] old(self).entries_view()[i], now, old(self).expiration_view())
                ==> final(self).entries_view().contains(old(self).entries_view()[i]),
    {
        let ghost orig = self.entries@;
        let drop = self.hashes_where_expired(now);
        self.remove_transactions_bulk(drop.as_slice());
        proof {
            let fin = self.entries@;
            assert forall|i: int| 0 <= i < fin.len() implies !is_expired(#[trigger] fin[i], now, old(self).expiration_view()) by {
                assert(orig.contains(fin[i]));
                let w = choose|w: int| 0 <= w < orig.len() && orig[w] == fin[i];
                if is_expired(fin[i], now, old(self).expiration_view()) {
                    assert(drop@.contains(orig[w].hash));
                    let x = choose|x: int| 0 <= x < drop@.len() && drop@[x] == orig[w].hash;
                    assert(!has_hash(fin, drop@[x]));
                    assert(fin[i].hash == drop@[x]);
                }
            }
            assert forall|i: int| 0 <= i < orig.len() && !is_expired(#[trigger] orig[i], now, old(self).expiration_view())
                implies fin.contains(orig[i]) by {
                if drop@.contains(orig[i].hash) {
                    let q = choose|q: int| 0 <= q < orig.len() && #[trigger] orig[q].hash == orig[i].hash
                        && is_expired(orig[q], now, old(self).expiration_view());
                    assert(q != i);
                    if q < i {
                        assert(orig[q].hash != orig[i].hash);
                    } else {
                        assert(orig[i].hash != orig[q].hash);
                    }
                }
            }
        }
    }

    /// Drops the transactions that have expired now. The time is the wall
    /// clock's reading, so what is dropped is stated for that reading.
    pub fn cleanup_expired(&mut self)
        requires
            old(self).wf(),
        ensures
            final(self).wf(),
            final(self).max_size_view() == old(self).max_size_view(),
            final(self).expiration_view() == old(self).expiration_view(),
            exists|now: u64| #[trigger] expired_dropped(old(self).entries_view(), final(self).entries_view(), now,
                old(self).expiration_view()),
    {
        let now = unix_now_secs();
        self.cleanup_expired_at(now);
        assert(expired_dropped(old(self).entries_view(), self.entries_view(), now, old(self).expiration_view()));
    }

    fn hashes_with_stale_blockhash(&self, valid: &[crate::hash::Hash]) -> (r: Vec<crate::hash::Hash>)
        ensures
            forall|h: crate::hash::Hash| #[trigger] r@.contains(h) <==> exists|i: int| 0 <= i < self.entries@.len()
                && #[trigger] self.entries@[i].hash == h && !valid@.contains(self.entries@[i].transaction.message.recent_blockhash),
    {
        let mut out: Vec<crate::hash::Hash> = Vec::new();
        let mut i: usize = 0;
        while i < self.entries.len()
            invariant
                i <= self.entries@.len(),
                forall|h: crate::hash::Hash| #[trigger] out@.contains(h) <==> exists|q: int| 0 <= q < i
                    && #[trigger] self.entries@[q].hash == h && !valid@.contains(self.entries@[q].transaction.message.recent_blockhash),
            decreases self.entries@.len() - i,
        {
            let e = &self.entries[i];
            let rb = e.transaction.message.recent_blockhash;
            let mut found = false;
            let mut q: usize = 0;
            while q < valid.len()
                invariant
                    q <= valid@.len(),
                    found == exists|x: int| 0 <= x < q && valid@[x] == rb,
                decreases valid@.len() - q,
            {
                if valid[q] == rb {
                    found = true;
                }
                q += 1;
            }
            proof {
                if found {
                    let x = choose|x: int| 0 <= x < q && valid@[x] == rb;
                    assert(valid@.contains(rb));
                }
                if valid@.contains(rb) {
                    let x = choose|x: int| 0 <= x < valid@.len() && valid@[x] == rb;
                    assert(found);
                }
            }
            let ghost before = out@;
            if !found {
                out.push(e.hash);
            }
            proof {
                assert forall|h: crate::hash::Hash| #[trigger] out@.contains(h) <==> exists|q: int| 0 <= q < i + 1
                    && #[trigger] self.entries@[q].hash == h && !valid@.contains(self.entries@[q].transaction.message.recent_blockhash) by {
                    if out@.contains(h) {
                        let w = choose|w: int| 0 <= w < out@.len() && out@[w] == h;
                        if w < before.len() {
                            assert(before.contains(h));
                        }
                    }
                    if exists|q: int| 0 <= q < i + 1 && #[trigger] self.entries@[q].hash == h && !valid@.contains(self.entries@[q].transaction.message.recent_blockhash) {
                        let q = choose|q: int| 0 <= q < i + 1 && #[trigger] self.entries@[q].hash == h && !valid@.contains(self.entries@[q].transaction.message.recent_blockhash);
                        if q < i {
                            assert(before.contains(h));
                            let w = choose|w: int| 0 <= w < before.len() && before[w] == h;
                            assert(out@[w] == h);
                        } else {
                            assert(out@[out@.len() - 1] == h);
                        }
                    }
                }
            }
            i += 1;
        }
        out
    }

    /// Drops the transactions whose recent block hash is not among
    /// `valid_blockhashes`; returns how many were dropped.
    pub fn prune_stale_blockhashes(&mut self, valid_blockhashes: &[crate::hash::Hash]) -> (r: usize)
        requires
            old(self).wf(),
        ensures
            final(self).wf(),
            final(self).max_size_view() == old(self).max_size_view(),
            final(self).expiration_view() == old(self).expiration_view(),
            r == old(self).entries_view().len() - final(self).entries_view().len(),
            forall|i: int| 0 <= i < final(self).entries_view().len() ==>
                valid_blockhashes@.contains((#[trigger] final(self).entries_view()[i]).transaction.message.recent_blockhash)
                && old(self).entries_view().contains(final(self).entries_view()[i]),
            forall|i: int| 0 <= i < old(self).entries_view().len()
                && valid_blockhashes@.contains((#[trigger] old(self).entries_view()[i]).transaction.message.recent_blockhash)
                ==> final(self).entries_view().contains(old(self).entries_view()[i]),
    {
        let before_len = self.entries.len();
        let ghost orig = self.entries@;
        let drop = self.hashes_with_stale_blockhash(valid_blockhashes);
        self.remove_transactions_bulk(drop.as_slice());
        proof {
            let fin = self.entries@;
            assert forall|i: int| 0 <= i < fin.len() implies
                valid_blockhashes@.contains((#[trigger] fin[i]).transaction.message.recent_blockhash) by {
                assert(orig.contains(fin[i]));
                let w = choose|w: int| 0 <= w < orig.len() && orig[w] == fin[i];
                if !valid_blockhashes@.contains(fin[i].transaction.message.recent_blockhash) {
                    assert(drop@.contains(orig[w].hash));
                    let x = choose|x: int| 0 <= x < drop@.len() && drop@[x] == orig[w].hash;
                    assert(!has_hash(fin, drop@[x]));
                    assert(fin[i].hash == drop@[x]);
                }
            }
            assert forall|i: int| 0 <= i < orig.len() && valid_blockhashes@.contains((#[trigger] orig[i]).transaction.message.recent_blockhash)
                implies fin.contains(orig[i]) by {
                if drop@.contains(orig[i].hash) {
                    let q = choose|q: int| 0 <= q < orig.len() && #[trigger] orig[q].hash == orig[i].hash
                        && !valid_blockhashes@.contains(orig[q].transaction.message.recent_blockhash);
                    assert(q != i);
                    if q < i {
                        assert(orig[q].hash != orig[i].hash);
                    } else {
                        assert(orig[i].hash != orig[q].hash);
                    }
                }
            }
        }
        before_len - self.entries.len()
    }

    /// Number of pending transactions.
    pub fn size(&self) -> (r: usize)
        ensures
            r == self.entries_view().len(),
    {
        self.entries.len()
    }

    /// Whether a transaction with hash `tx_hash` is pending.
    pub fn contains(&self, tx_hash: &crate::hash::Hash) -> (r: bool)
        ensures
            r == has_hash(self.entries_view(), *tx_hash),
    {
        self.find(tx_hash).is_some()
    }

    /// The pending transaction with hash `tx_hash`, if any.
    pub fn get(&self, tx_hash: &crate::hash::Hash) -> (r: Option<&Transaction>)
        ensures
            r is Some <==> has_hash(self.entries_view(), *tx_hash),
            r matches Some(t) ==> exists|i: int| 0 <= i < self.entries_view().len()
                && #[trigger] self.entries_view()[i].hash == *tx_hash && *t == self.entries_view()[i].transaction,
    {
        match self.find(tx_hash) {
            Some(i) => {
                assert(self.entries_view()[i as int].hash == *tx_hash);
                Some(&self.entries[i].transaction)
            },
            None => None,
        }
    }

    /// Copies of all pending transactions, in arrival order.
    pub fn all_transactions(&self) -> (r: Vec<Transaction>)
        ensures
            r@.len() == self.entries_view().len(),
            forall|i: int| 0 <= i < r@.len() ==> same_tx(#[trigger] r@[i], self.entries_view()[i].transaction),
    {
        let mut out: Vec<Transaction> = Vec::new();
        let mut i: usize = 0;
        while i < self.entries.len()
            invariant
                i <= self.entries@.len(),
                out@.len() == i,
                forall|q: int| 0 <= q < i ==> same_tx(#[trigger] out@[q], self.entries@[q].transaction),
            decreases self.entries@.len() - i,
        {
            out.push(self.entries[i].transaction.duplicate());
            i += 1;
        }
        out
    }

    /// Drops every pending transaction; the per-sender counts stay.
    pub fn clear(&mut self)
        requires
            old(self).wf(),
        ensures
            final(self).wf(),
            final(self).entries_view().len() == 0,
            final(self).counts_view() == old(self).counts_view(),
            final(self).max_size_view() == old(self).max_size_view(),
            final(self).expiration_view() == old(self).expiration_view(),
    {
        self.entries.clear();
    }
}

fn prio_gt_exec(a: &PendingTx, b: &PendingTx) -> (r: bool)
    ensures
        r == prio_gt(*a, *b),
{
    a.fee > b.fee || (a.fee == b.fee && a.timestamp < b.timestamp)
}

/// A list of distinct indices below `n` that covers them all has `n` entries.
proof fn lemma_distinct_covers(picks: Seq<int>, n: int)
    requires
        0 <= n,
        forall|k: int| 0 <= k < n ==> picks.contains(k),
        forall|i: int| 0 <= i < picks.len() ==> 0 <= #[trigger] picks[i] < n,
        forall|i: int, j: int| 0 <= i < j < picks.len() ==> picks[i] != picks[j],
    ensures
        picks.len() == n,
{
    assert(picks.no_duplicates()) by {
        assert forall|i: int, j: int| 0 <= i < picks.len() && 0 <= j < picks.len() && i != j implies picks[i] != picks[j] by {
            if i < j {
                assert(picks[i] != picks[j]);
            } else {
                assert(picks[j] != picks[i]);
            }
        }
    }
    picks.unique_seq_to_set();
    vstd::set_lib::lemma_int_range(0, n);
    assert(picks.to_set() =~= vstd::set_lib::set_int_range(0, n)) by {
        assert forall|k: int| picks.to_set().contains(k) <==> vstd::set_lib::set_int_range(0, n).contains(k) by {
            if picks.to_set().contains(k) {
                let i = choose|i: int| 0 <= i < picks.len() && picks[i] == k;
            }
        }
    }
}

} // verus!
