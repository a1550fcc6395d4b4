//! Blocks: header, signing and its check, commit certificates, BFT time,
//! the validator-set hash, slot timestamps and structural limits.
use vstd::prelude::*;
use crate::account::{Pubkey, Keypair};
use crate::bytes::{u64_le, u64_to_le, append_bytes, all_zero, is_zero_64};
use crate::clock::unix_now_secs;
use crate::crypto::{sha256_spec, ed25519_valid_spec, ed25519_public_key_spec, ed25519_signature_spec};
use crate::transaction::{Transaction, message_bytes, first_oversized, oversized_text};
use crate::text::{decimal, u64_to_decimal, u128_to_decimal};
use crate::consensus::validators::{ValidatorSet, ValidatorInfo, first_with_key, is_sorted_copy};
use crate::consensus::staking::{StakePool, StakeInfo, spec_total_stake};

verus! {

broadcast use vstd::array::group_array_axioms;

/// Largest block accepted, in bytes (estimated).
pub const MAX_BLOCK_SIZE: usize = 10_485_760;
/// Most transactions per block.
pub const MAX_TX_PER_BLOCK: usize = 10_000;
/// Largest contract code accepted, in bytes.
pub const MAX_CONTRACT_CODE: usize = 2_097_152;

/// A validator's precommit signature in a block's commit certificate.
#[derive(Debug, Clone, Copy, PartialEq, Eq)]
pub struct CommitSignature {
    /// Validator public key.
    pub validator: [u8; 32],
    /// Signature over `commit_message(height, round, block_hash, timestamp)`.
    pub signature: [u8; 64],
    /// The validator's clock when it precommitted.
    pub timestamp: u64,
}

/// Block header.
#[derive(Debug, Clone, Copy)]
pub struct BlockHeader {
    pub slot: u64,
    pub parent_hash: crate::hash::Hash,
    pub state_root: crate::hash::Hash,
    pub tx_root: crate::hash::Hash,
    /// Unix timestamp, seconds.
    pub timestamp: u64,
    /// Hash of the active validator set.
    pub validators_hash: crate::hash::Hash,
    /// Producer's public key.
    pub validator: [u8; 32],
    /// Producer's signature over the signable hash.
    pub signature: [u8; 64],
}

/// A block.
#[derive(Debug, Clone)]
pub struct Block {
    pub header: BlockHeader,
    pub transactions: Vec<Transaction>,
    /// Fee charged per transaction.
    pub tx_fees_paid: Vec<u64>,
    /// Oracle prices (asset, price in micro-cents).
    pub oracle_prices: Vec<(String, u64)>,
    /// Commit certificate.
    pub commit_signatures: Vec<CommitSignature>,
}

/// The signed header fields: slot, parent, state root, tx root, timestamp, producer.
pub open spec fn header_bytes(h: BlockHeader) -> Seq<u8> {
    u64_le(h.slot) + h.parent_hash.0@ + h.state_root.0@ + h.tx_root.0@ + u64_le(h.timestamp) + h.validator@
}

/// Concatenation of the transactions' hashes.
pub open spec fn tx_hashes_bytes(s: Seq<Transaction>) -> Seq<u8>
    decreases s.len(),
{
    if s.len() == 0 { Seq::empty() } else { tx_hashes_bytes(s.drop_last()) + sha256_spec(message_bytes(s.last().message)) }
}

/// The transaction root: the zero hash for none, else SHA-256 of the hashes.
pub open spec fn tx_root_bytes(s: Seq<Transaction>) -> Seq<u8> {
    if s.len() == 0 { Seq::new(32, |i: int| 0u8) } else { sha256_spec(tx_hashes_bytes(s)) }
}

/// Bytes a commit signature signs: the precommit bytes for the block hash
/// `hb` (tag 2, height, round), then the timestamp.
pub open spec fn commit_message(height: u64, round: u32, hb: Seq<u8>, ts: u64) -> Seq<u8> {
    seq![2u8] + u64_le(height) + crate::bytes::u32_le(round) + hb + u64_le(ts)
}

/// A validator's own stake in the pool (0 when absent).
pub open spec fn pool_amount(m: Map<[u8; 32], StakeInfo>, k: [u8; 32]) -> nat {
    if m.dom().contains(k) { m[k].amount as nat } else { 0 }
}

/// Sum of the set's own stakes in the pool.
pub open spec fn set_amount(set: Seq<ValidatorInfo>, m: Map<[u8; 32], StakeInfo>) -> nat
    decreases set.len(),
{
    if set.len() == 0 { 0 } else { set_amount(set.drop_last(), m) + pool_amount(m, set.last().pubkey.0) }
}

/// Whether the last commit signature of `sigs` counts: its validator's first
/// occurrence, in the set, and validly signed.
pub open spec fn last_counts(sigs: Seq<CommitSignature>, set: Seq<ValidatorInfo>, height: u64, round: u32, h: Seq<u8>) -> bool {
    let c = sigs.last();
    &&& forall|j: int| 0 <= j < sigs.len() - 1 ==> #[trigger] sigs[j].validator != c.validator
    &&& first_with_key(set, Pubkey(c.validator)) is Some
    &&& ed25519_valid_spec(c.validator@, commit_message(height, round, h, c.timestamp), c.signature@)
}

/// Stake behind the counted commit signatures.
pub open spec fn committed_amount(sigs: Seq<CommitSignature>, set: Seq<ValidatorInfo>, m: Map<[u8; 32], StakeInfo>,
    height: u64, round: u32, h: Seq<u8>) -> nat
    decreases sigs.len(),
{
    if sigs.len() == 0 {
        0
    } else {
        committed_amount(sigs.drop_last(), set, m, height, round, h)
            + if last_counts(sigs, set, height, round, h) { pool_amount(m, sigs.last().validator) } else { 0 }
    }
}

/// Sum of the own stakes of all the signers, counted or not.
pub open spec fn sigs_amount(sigs: Seq<CommitSignature>, m: Map<[u8; 32], StakeInfo>) -> nat
    decreases sigs.len(),
{
    if sigs.len() == 0 { 0 } else { sigs_amount(sigs.drop_last(), m) + pool_amount(m, sigs.last().validator) }
}

proof fn lemma_committed_le(sigs: Seq<CommitSignature>, set: Seq<ValidatorInfo>, m: Map<[u8; 32], StakeInfo>,
    height: u64, round: u32, h: Seq<u8>)
    ensures
        committed_amount(sigs, set, m, height, round, h) <= sigs_amount(sigs, m),
    decreases sigs.len(),
{
    if sigs.len() > 0 {
        lemma_committed_le(sigs.drop_last(), set, m, height, round, h);
    }
}

proof fn lemma_sigs_amount_prefix(sigs: Seq<CommitSignature>, m: Map<[u8; 32], StakeInfo>, i: int)
    requires
        0 <= i <= sigs.len(),
    ensures
        sigs_amount(sigs.subrange(0, i), m) <= sigs_amount(sigs, m),
    decreases sigs.len() - i,
{
    if i < sigs.len() {
        lemma_sigs_amount_prefix(sigs, m, i + 1);
        assert(sigs.subrange(0, i + 1).drop_last() =~= sigs.subrange(0, i));
    } else {
        assert(sigs.subrange(0, i) =~= sigs);
    }
}

/// (timestamp, stake) of the commit signatures by validators in the set
/// with own stake, in order.
pub open spec fn weighted_times(sigs: Seq<CommitSignature>, set: Seq<ValidatorInfo>, m: Map<[u8; 32], StakeInfo>) -> Seq<(u64, u64)>
    decreases sigs.len(),
{
    if sigs.len() == 0 {
        Seq::empty()
    } else {
        let prev = weighted_times(sigs.drop_last(), set, m);
        let c = sigs.last();
        if first_with_key(set, Pubkey(c.validator)) is Some && pool_amount(m, c.validator) > 0 {
            prev.push((c.timestamp, pool_amount(m, c.validator) as u64))
        } else {
            prev
        }
    }
}

/// Total stake of weighted times.
pub open spec fn weight_total(w: Seq<(u64, u64)>) -> nat
    decreases w.len(),
{
    if w.len() == 0 { 0 } else { weight_total(w.drop_last()) + w.last().1 as nat }
}

/// Stake of the weighted times at or before `t`.
pub open spec fn weight_le(w: Seq<(u64, u64)>, t: u64) -> nat
    decreases w.len(),
{
    if w.len() == 0 { 0 } else { weight_le(w.drop_last(), t) + if w.last().0 <= t { w.last().1 as nat } else { 0 } }
}

/// `t` is the stake-weighted median of `w`: the least timestamp of `w` at or
/// before which more than half the stake (rounded down) lies.
pub open spec fn is_weighted_median(w: Seq<(u64, u64)>, t: u64) -> bool {
    &&& exists|i: int| 0 <= i < w.len() && #[trigger] w[i].0 == t
    &&& weight_le(w, t) > weight_total(w) / 2
    &&& forall|i: int| 0 <= i < w.len() && weight_le(w, #[trigger] w[i].0) > weight_total(w) / 2 ==> t <= w[i].0
}

/// Concatenation of key ++ stake (u64 LE) over the validators, the stake
/// being the pool's total stake, else the validator's own figure.
pub open spec fn validators_bytes(s: Seq<ValidatorInfo>, m: Map<[u8; 32], StakeInfo>) -> Seq<u8>
    decreases s.len(),
{
    if s.len() == 0 {
        Seq::empty()
    } else {
        let v = s.last();
        let stake: u64 = if m.dom().contains(v.pubkey.0) { spec_total_stake(m[v.pubkey.0]) } else { v.stake };
        validators_bytes(s.drop_last(), m) + v.pubkey.0@ + u64_le(stake)
    }
}

/// Estimated encoded size of one transaction.
pub open spec fn tx_size_estimate(tx: Transaction) -> nat {
    ix_size_sum(tx.message.instructions@) + tx.signatures@.len() * 64 + 32
}

/// Sum over instructions of 40 + data length + 32 per account.
pub open spec fn ix_size_sum(s: Seq<crate::transaction::Instruction>) -> nat
    decreases s.len(),
{
    if s.len() == 0 { 0 } else { ix_size_sum(s.drop_last()) + 40 + s.last().data@.len() + s.last().accounts@.len() * 32 }
}

/// Sum of the transactions' size estimates.
pub open spec fn txs_size_sum(s: Seq<Transaction>) -> nat
    decreases s.len(),
{
    if s.len() == 0 { 0 } else { txs_size_sum(s.drop_last()) + tx_size_estimate(s.last()) }
}

/// Index of the first structurally invalid transaction, if any.
pub open spec fn first_bad_tx(s: Seq<Transaction>, i: int) -> Option<int>
    decreases s.len() - i,
{
    if i < 0 || i >= s.len() {
        None
    } else if first_oversized(s[i].message.instructions@, 0) is Some {
        Some(i)
    } else {
        first_bad_tx(s, i + 1)
    }
}

/// The message for a block whose transaction `i` is structurally invalid.
pub open spec fn bad_tx_text(s: Seq<Transaction>, i: int) -> Seq<char> {
    let ixs = s[i].message.instructions@;
    "Transaction "@ + decimal(i as nat) + " invalid: "@ + oversized_text(ixs, first_oversized(ixs, 0).unwrap())
}

/// `genesis + slot * slot_duration_ms / 1000`.
pub open spec fn spec_slot_timestamp(genesis_time_secs: u64, slot: u64, slot_duration_ms: u64) -> int {
    genesis_time_secs + (slot * slot_duration_ms) / 1000
}

fn tx_root(transactions: &Vec<Transaction>) -> (r: crate::hash::Hash)
    ensures
        r.0@ == tx_root_bytes(transactions@),
{
    if transactions.len() == 0 {
        let z = crate::hash::Hash([0u8; 32]);
        assert(z.0@ =~= Seq::new(32, |i: int| 0u8));
        return z;
    }
    let mut data: Vec<u8> = Vec::new();
    let mut i: usize = 0;
    while i < transactions.len()
        invariant
            i <= transactions@.len(),
            data@ == tx_hashes_bytes(transactions@.subrange(0, i as int)),
        decreases transactions@.len() - i,
    {
        let h = transactions[i].hash();
        append_bytes(&mut data, &h.0);
        proof {
            assert(transactions@.subrange(0, i + 1).drop_last() =~= transactions@.subrange(0, i as int));
        }
        i += 1;
    }
    proof {
        assert(transactions@.subrange(0, transactions@.len() as int) =~= transactions@);
    }
    crate::hash::Hash::hash(data.as_slice())
}

fn build_commit_message(height: u64, round: u32, h: &crate::hash::Hash, ts: u64) -> (r: Vec<u8>)
    ensures
        r@ == commit_message(height, round, h.0@, ts),
{
    let mut msg = crate::consensus::votes::Precommit::signable_bytes(height, round, &Some(*h));
    let le = u64_to_le(ts);
    append_bytes(&mut msg, &le);
    proof {
        assert(msg@ =~= commit_message(height, round, h.0@, ts));
    }
    msg
}

fn amount_of(sp: &StakePool, k: &[u8; 32]) -> (r: u64)
    requires
        sp.wf(),
    ensures
        r == pool_amount(sp.stakes_view(), *k),
{
    match sp.get_stake(&Pubkey(*k)) {
        Some(s) => s.amount,
        None => 0,
    }
}

impl Block {
    fn assemble(slot: u64, parent_hash: crate::hash::Hash, state_root: crate::hash::Hash, validator: [u8; 32],
        transactions: Vec<Transaction>, timestamp: u64) -> (r: Block)
        ensures
            r.header.slot == slot,
            r.header.parent_hash == parent_hash,
            r.header.state_root == state_root,
            r.header.tx_root.0@ == tx_root_bytes(transactions@),
            r.header.timestamp == timestamp,
            r.header.validators_hash.0@ == Seq::new(32, |i: int| 0u8),
            r.header.validator == validator,
            all_zero(r.header.signature@),
            r.transactions@ == transactions@,
            r.tx_fees_paid@.len() == 0,
            r.oracle_prices@.len() == 0,
            r.commit_signatures@.len() == 0,
    {
        let root = tx_root(&transactions);
        let z = [0u8; 32];
        let sig = [0u8; 64];
        proof {
            assert(z@ =~= Seq::new(32, |i: int| 0u8));
        }
        Block {
            header: BlockHeader {
                slot,
                parent_hash,
                state_root,
                tx_root: root,
                timestamp,
                validators_hash: crate::hash::Hash(z),
                validator,
                signature: sig,
            },
            transactions,
            tx_fees_paid: Vec::new(),
            oracle_prices: Vec::new(),
            commit_signatures: Vec::new(),
        }
    }

    /// The genesis block (slot 0, zero parent, unsigned, zero producer).
    pub fn genesis(state_root: crate::hash::Hash, timestamp: u64, transactions: Vec<Transaction>) -> (r: Block)
        ensures
            r.header.slot == 0,
            r.header.parent_hash.0@ == Seq::new(32, |i: int| 0u8),
            r.header.state_root == state_root,
            r.header.tx_root.0@ == tx_root_bytes(transactions@),
            r.header.timestamp == timestamp,
            all_zero(r.header.validator@),
            all_zero(r.header.signature@),
            r.transactions@ == transactions@,
            r.commit_signatures@.len() == 0,
    {
        let z = [0u8; 32];
        proof {
            assert(z@ =~= Seq::new(32, |i: int| 0u8));
        }
        Self::assemble(0, crate::hash::Hash(z), state_root, z, transactions, timestamp)
    }

    /// A new unsigned block stamped with the current time.
    pub fn new(slot: u64, parent_hash: crate::hash::Hash, state_root: crate::hash::Hash, validator: [u8; 32],
        transactions: Vec<Transaction>) -> (r: Block)
        ensures
            r.header.slot == slot,
            r.header.parent_hash == parent_hash,
            r.header.state_root == state_root,
            r.header.tx_root.0@ == tx_root_bytes(transactions@),
            r.header.validator == validator,
            all_zero(r.header.signature@),
            r.transactions@ == transactions@,
            r.commit_signatures@.len() == 0,
    {
        let ts = unix_now_secs();
        Self::assemble(slot, parent_hash, state_root, validator, transactions, ts)
    }

    /// A new unsigned block with the given timestamp.
    pub fn new_with_timestamp(slot: u64, parent_hash: crate::hash::Hash, state_root: crate::hash::Hash,
        validator: [u8; 32], transactions: Vec<Transaction>, timestamp: u64) -> (r: Block)
        ensures
            r.header.slot == slot,
            r.header.parent_hash == parent_hash,
            r.header.state_root == state_root,
            r.header.tx_root.0@ == tx_root_bytes(transactions@),
            r.header.timestamp == timestamp,
            r.header.validator == validator,
            all_zero(r.header.signature@),
            r.transactions@ == transactions@,
            r.commit_signatures@.len() == 0,
    {
        Self::assemble(slot, parent_hash, state_root, validator, transactions, timestamp)
    }

    /// SHA-256 of the signed header fields (everything but the signature).
    pub fn signable_hash(&self) -> (r: crate::hash::Hash)
        ensures
            r.0@ == sha256_spec(header_bytes(self.header)),
    {
        let h = &self.header;
        let mut data: Vec<u8> = Vec::new();
        let s = u64_to_le(h.slot);
        append_bytes(&mut data, &s);
        append_bytes(&mut data, &h.parent_hash.0);
        append_bytes(&mut data, &h.state_root.0);
        append_bytes(&mut data, &h.tx_root.0);
        let t = u64_to_le(h.timestamp);
        append_bytes(&mut data, &t);
        append_bytes(&mut data, &h.validator);
        proof {
            assert(data@ =~= header_bytes(self.header));
        }
        crate::hash::Hash::hash(data.as_slice())
    }

    /// Signs the signable hash with `keypair`; only the signature changes.
    pub fn sign(&mut self, keypair: &Keypair)
        ensures
            final(self).header == (BlockHeader { signature: final(self).header.signature, ..old(self).header }),
            final(self).header.signature@ == ed25519_signature_spec(keypair.seed_view(), sha256_spec(header_bytes(old(self).header))),
            ed25519_valid_spec(ed25519_public_key_spec(keypair.seed_view()), sha256_spec(header_bytes(old(self).header)),
                final(self).header.signature@),
            final(self).transactions@ == old(self).transactions@,
            final(self).commit_signatures@ == old(self).commit_signatures@,
    {
        let h = self.signable_hash();
        self.header.signature = keypair.sign(&h.0);
    }

    /// An all-zero signature passes only at slot 0; any other must be valid
    /// under the producer key over the signable hash.
    pub fn verify_signature(&self) -> (r: bool)
        ensures
            r == (if all_zero(self.header.signature@) {
                self.header.slot == 0
            } else {
                ed25519_valid_spec(self.header.validator@, sha256_spec(header_bytes(self.header)), self.header.signature@)
            }),
    {
        if is_zero_64(&self.header.signature) {
            return self.header.slot == 0;
        }
        let pk = Pubkey(self.header.validator);
        let h = self.signable_hash();
        Keypair::verify(&pk, &h.0, &self.header.signature)
    }

    /// The block hash: the signable hash, so it is the same before and after signing.
    pub fn hash(&self) -> (r: crate::hash::Hash)
        ensures
            r.0@ == sha256_spec(header_bytes(self.header)),
    {
        self.signable_hash()
    }

    /// Checks the commit certificate: slot 0 passes; otherwise the counted
    /// signatures (first per validator, in the set, valid over the precommit
    /// bytes with their timestamp) must hold two thirds of the set's own stake.
    pub fn verify_commit(&self, round: u32, validator_set: &ValidatorSet, stake_pool: &StakePool) -> (r: Result<(), String>)
        requires
            stake_pool.wf(),
            set_amount(validator_set.view_seq(), stake_pool.stakes_view()) < 0x5555_5555_5555_5555_5555_5555_5555_5555nat,
            sigs_amount(self.commit_signatures@, stake_pool.stakes_view()) < 0x5555_5555_5555_5555_5555_5555_5555_5555nat,
        ensures
            ({
                let set = validator_set.view_seq();
                let m = stake_pool.stakes_view();
                let total = set_amount(set, m);
                let committed = committed_amount(self.commit_signatures@, set, m, self.header.slot, round,
                    sha256_spec(header_bytes(self.header)));
                &&& self.header.slot == 0 ==> r is Ok
                &&& self.header.slot != 0 && self.commit_signatures@.len() == 0 ==>
                    (r matches Err(e) && e@ == "Block has no commit signatures"@)
                &&& self.header.slot != 0 && self.commit_signatures@.len() > 0 && total == 0 ==>
                    (r matches Err(e) && e@ == "No staked validators in set"@)
                &&& self.header.slot != 0 && self.commit_signatures@.len() > 0 && total > 0 ==>
                    (r is Ok <==> committed * 3 >= total * 2)
                &&& self.header.slot != 0 && self.commit_signatures@.len() > 0 && total > 0 && committed * 3 < total * 2 ==>
                    (r matches Err(e) && e@ == "Insufficient commit stake: "@ + decimal(committed) + " / "@
                        + decimal(total) + " (need 2/3+)"@)
            }),
    {
        proof {
            reveal_strlit("Block has no commit signatures");
            reveal_strlit("No staked validators in set");
        }
        if self.header.slot == 0 {
            return Ok(());
        }
        if self.commit_signatures.len() == 0 {
            return Err(String::from_str("Block has no commit signatures"));
        }
        let block_hash = self.hash();
        let vals = validator_set.validators();
        let ghost set = validator_set.view_seq();
        let ghost m = stake_pool.stakes_view();
        let mut total: u128 = 0;
        let mut i: usize = 0;
        while i < vals.len()
            invariant
                i <= vals@.len(),
                vals@ == set,
                stake_pool.wf(),
                m == stake_pool.stakes_view(),
                total == set_amount(set.subrange(0, i as int), m),
                total <= i * 0xffff_ffff_ffff_ffffnat,
            decreases vals@.len() - i,
        {
            proof {
                assert(set.subrange(0, i + 1).drop_last() =~= set.subrange(0, i as int));
                assert((i + 1) * 0xffff_ffff_ffff_ffffnat == i * 0xffff_ffff_ffff_ffffnat + 0xffff_ffff_ffff_ffffnat) by (nonlinear_arith);
                assert(i * 0xffff_ffff_ffff_ffffnat < 0x1_0000_0000_0000_0000 * 0xffff_ffff_ffff_ffffnat) by (nonlinear_arith)
                    requires i < 0x1_0000_0000_0000_0000nat;
            }
            let a = amount_of(stake_pool, &vals[i].pubkey.0);
            total = total + a as u128;
            i += 1;
        }
        proof {
            assert(set.subrange(0, set.len() as int) =~= set);
        }
        if total == 0 {
            return Err(String::from_str("No staked validators in set"));
        }
        let sigs = &self.commit_signatures;
        let mut committed: u128 = 0;
        let mut k: usize = 0;
        while k < sigs.len()
            invariant
                k <= sigs@.len(),
                sigs@ == self.commit_signatures@,
                stake_pool.wf(),
                m == stake_pool.stakes_view(),
                set == validator_set.view_seq(),
                block_hash.0@ == sha256_spec(header_bytes(self.header)),
                committed == committed_amount(sigs@.subrange(0, k as int), set, m, self.header.slot, round, sha256_spec(header_bytes(self.header))),
                committed <= sigs_amount(sigs@.subrange(0, k as int), m),
                sigs_amount(sigs@, m) < 0x5555_5555_5555_5555_5555_5555_5555_5555nat,
            decreases sigs@.len() - k,
        {
            let cs = sigs[k];
            let ghost pre = sigs@.subrange(0, k + 1);
            proof {
                assert(pre.drop_last() =~= sigs@.subrange(0, k as int));
                assert(pre.last() == cs);
                lemma_sigs_amount_prefix(sigs@, m, k + 1);
            }
            let mut dup = false;
            let mut j: usize = 0;
            while j < k
                invariant
                    j <= k,
                    k < sigs@.len(),
                    dup == exists|jj: int| 0 <= jj < j && sigs@[jj].validator == cs.validator,
                decreases k - j,
            {
                if crate::bytes::bytes32_eq(&sigs[j].validator, &cs.validator) {
                    dup = true;
                }
                j += 1;
            }
            proof {
                if dup {
                    let jj = choose|jj: int| 0 <= jj < k && sigs@[jj].validator == cs.validator;
                    assert(pre[jj].validator == cs.validator);
                } else {
                    assert forall|jj: int| 0 <= jj < pre.len() - 1 implies #[trigger] pre[jj].validator != pre.last().validator by {
                        assert(pre[jj] == sigs@[jj]);
                    }
                }
            }
            if !dup {
                let pk = Pubkey(cs.validator);
                if validator_set.get_validator(&pk).is_some() {
                    let msg = build_commit_message(self.header.slot, round, &block_hash, cs.timestamp);
                    if Keypair::verify(&pk, msg.as_slice(), &cs.signature) {
                        let a = amount_of(stake_pool, &cs.validator);
                        committed = committed + a as u128;
                    }
                }
            }
            k += 1;
        }
        proof {
            assert(sigs@.subrange(0, sigs@.len() as int) =~= sigs@);
        }
        if committed * 3 >= total * 2 {
            Ok(())
        } else {
            let mut e = String::from_str("Insufficient commit stake: ");
            e.append(u128_to_decimal(committed).as_str());
            e.append(" / ");
            e.append(u128_to_decimal(total).as_str());
            e.append(" (need 2/3+)");
            Err(e)
        }
    }

    /// `genesis_time_secs + slot * slot_duration_ms / 1000`.
    pub fn derive_slot_timestamp(genesis_time_secs: u64, slot: u64, slot_duration_ms: u64) -> (r: u64)
        requires
            slot * slot_duration_ms <= u64::MAX,
            spec_slot_timestamp(genesis_time_secs, slot, slot_duration_ms) <= u64::MAX,
        ensures
            r == spec_slot_timestamp(genesis_time_secs, slot, slot_duration_ms),
    {
        derive_slot_timestamp(genesis_time_secs, slot, slot_duration_ms)
    }

    /// Ok when the timestamp is within `max_drift_secs` of the slot's derived
    /// time, else the drift.
    pub fn validate_timestamp(block_timestamp: u64, genesis_time_secs: u64, slot: u64, slot_duration_ms: u64,
        max_drift_secs: u64) -> (r: Result<(), u64>)
        requires
            slot * slot_duration_ms <= u64::MAX,
            spec_slot_timestamp(genesis_time_secs, slot, slot_duration_ms) <= u64::MAX,
        ensures
            ({
                let e = spec_slot_timestamp(genesis_time_secs, slot, slot_duration_ms);
                let d = if block_timestamp >= e { block_timestamp - e } else { e - block_timestamp };
                &&& d > max_drift_secs ==> r == Err::<(), u64>(d as u64)
                &&& d <= max_drift_secs ==> r is Ok
            }),
    {
        validate_timestamp(block_timestamp, genesis_time_secs, slot, slot_duration_ms, max_drift_secs)
    }

    /// Structural limits: at most `MAX_TX_PER_BLOCK` transactions, each
    /// structurally valid, and an estimated size within `MAX_BLOCK_SIZE`.
    pub fn validate_structure(&self) -> (r: Result<(), String>)
        requires
            txs_size_sum(self.transactions@) + 256 <= u64::MAX,
        ensures
            r is Ok <==> (self.transactions@.len() <= MAX_TX_PER_BLOCK
                && first_bad_tx(self.transactions@, 0) is None
                && txs_size_sum(self.transactions@) + 256 <= MAX_BLOCK_SIZE),
            self.transactions@.len() > MAX_TX_PER_BLOCK ==> (r matches Err(e) && e@ == "Block contains "@
                + decimal(self.transactions@.len()) + " transactions (max "@ + decimal(MAX_TX_PER_BLOCK as nat) + ")"@),
            self.transactions@.len() <= MAX_TX_PER_BLOCK && first_bad_tx(self.transactions@, 0) is Some
                ==> (r matches Err(e) && e@ == bad_tx_text(self.transactions@, first_bad_tx(self.transactions@, 0).unwrap())),
            self.transactions@.len() <= MAX_TX_PER_BLOCK && first_bad_tx(self.transactions@, 0) is None
                && txs_size_sum(self.transactions@) + 256 > MAX_BLOCK_SIZE ==> (r matches Err(e) && e@ == "Block too large: ~"@
                + decimal((txs_size_sum(self.transactions@) + 256) as nat) + " bytes (max "@ + decimal(MAX_BLOCK_SIZE as nat) + ")"@),
    {
        let txs = &self.transactions;
        if txs.len() > MAX_TX_PER_BLOCK {
            let mut e = String::from_str("Block contains ");
            e.append(u64_to_decimal(txs.len() as u64).as_str());
            e.append(" transactions (max ");
            e.append(u64_to_decimal(MAX_TX_PER_BLOCK as u64).as_str());
            e.append(")");
            assert(e@ =~= "Block contains "@ + decimal(txs@.len()) + " transactions (max "@
                + decimal(MAX_TX_PER_BLOCK as nat) + ")"@);
            return Err(e);
        }
        let mut i: usize = 0;
        while i < txs.len()
            invariant
                i <= txs@.len(),
                txs@ == self.transactions@,
                txs@.len() <= MAX_TX_PER_BLOCK,
                first_bad_tx(txs@, 0) == first_bad_tx(txs@, i as int),
            decreases txs@.len() - i,
        {
            match txs[i].validate_structure() {
                Ok(()) => {},
                Err(msg) => {
                    assert(first_bad_tx(txs@, i as int) == Some(i as int));
                    let mut e = String::from_str("Transaction ");
                    e.append(u64_to_decimal(i as u64).as_str());
                    e.append(" invalid: ");
                    e.append(msg.as_str());
                    return Err(e);
                },
            }
            i += 1;
        }
        let mut size: u64 = 256;
        let mut t: usize = 0;
        while t < txs.len()
            invariant
                t <= txs@.len(),
                txs@ == self.transactions@,
                txs@.len() <= MAX_TX_PER_BLOCK,
                size == txs_size_sum(txs@.subrange(0, t as int)) + 256,
                txs_size_sum(txs@) + 256 <= u64::MAX,
            decreases txs@.len() - t,
        {
            proof {
                assert(txs@.subrange(0, t + 1).drop_last() =~= txs@.subrange(0, t as int));
                lemma_txs_size_prefix(txs@, t + 1);
            }
            let tx = &txs[t];
            let ixs = &tx.message.instructions;
            let mut ixsum: u64 = 0;
            let mut q: usize = 0;
            while q < ixs.len()
                invariant
                    q <= ixs@.len(),
                    ixsum == ix_size_sum(ixs@.subrange(0, q as int)),
                    ix_size_sum(ixs@) + size <= u64::MAX,
                decreases ixs@.len() - q,
            {
                proof {
                    assert(ixs@.subrange(0, q + 1).drop_last() =~= ixs@.subrange(0, q as int));
                    lemma_ix_size_prefix(ixs@, q + 1);
                }
                let ix = &ixs[q];
                ixsum = ixsum + 40 + (ix.data.len() as u64) + (ix.accounts.len() as u64) * 32;
                q += 1;
            }
            proof {
                assert(ixs@.subrange(0, ixs@.len() as int) =~= ixs@);
            }
            size = size + ixsum + (tx.signatures.len() as u64) * 64 + 32;
            t += 1;
        }
        proof {
            assert(txs@.subrange(0, txs@.len() as int) =~= txs@);
        }
        if size > MAX_BLOCK_SIZE as u64 {
            let mut e = String::from_str("Block too large: ~");
            e.append(u64_to_decimal(size).as_str());
            e.append(" bytes (max ");
            e.append(u64_to_decimal(MAX_BLOCK_SIZE as u64).as_str());
            e.append(")");
            return Err(e);
        }
        Ok(())
    }
}

proof fn lemma_txs_size_prefix(s: Seq<Transaction>, i: int)
    requires
        0 <= i <= s.len(),
    ensures
        i > 0 ==> txs_size_sum(s.subrange(0, i)) == txs_size_sum(s.subrange(0, i - 1)) + tx_size_estimate(s[i - 1]),
        txs_size_sum(s.subrange(0, i)) <= txs_size_sum(s),
    decreases s.len() - i,
{
    if i > 0 {
        assert(s.subrange(0, i).drop_last() =~= s.subrange(0, i - 1));
    }
    if i < s.len() {
        lemma_txs_size_prefix(s, i + 1);
        assert(s.subrange(0, i + 1).drop_last() =~= s.subrange(0, i));
    } else {
        assert(s.subrange(0, i) =~= s);
    }
}

proof fn lemma_ix_size_prefix(s: Seq<crate::transaction::Instruction>, i: int)
    requires
        0 <= i <= s.len(),
    ensures
        ix_size_sum(s.subrange(0, i)) <= ix_size_sum(s),
    decreases s.len() - i,
{
    if i < s.len() {
        lemma_ix_size_prefix(s, i + 1);
        assert(s.subrange(0, i + 1).drop_last() =~= s.subrange(0, i));
    } else {
        assert(s.subrange(0, i) =~= s);
    }
}

/// `genesis_time_secs + slot * slot_duration_ms / 1000`.
pub fn derive_slot_timestamp(genesis_time_secs: u64, slot: u64, slot_duration_ms: u64) -> (r: u64)
    requires
        slot * slot_duration_ms <= u64::MAX,
        spec_slot_timestamp(genesis_time_secs, slot, slot_duration_ms) <= u64::MAX,
    ensures
        r == spec_slot_timestamp(genesis_time_secs, slot, slot_duration_ms),
{
    genesis_time_secs + (slot * slot_duration_ms / 1000)
}

/// Ok when the timestamp is within `max_drift_secs` of the slot's derived
/// time, else the drift.
pub fn validate_timestamp(block_timestamp: u64, genesis_time_secs: u64, slot: u64, slot_duration_ms: u64,
    max_drift_secs: u64) -> (r: Result<(), u64>)
    requires
        slot * slot_duration_ms <= u64::MAX,
        spec_slot_timestamp(genesis_time_secs, slot, slot_duration_ms) <= u64::MAX,
    ensures
        ({
            let e = spec_slot_timestamp(genesis_time_secs, slot, slot_duration_ms);
            let d = if block_timestamp >= e { block_timestamp - e } else { e - block_timestamp };
            &&& d > max_drift_secs ==> r == Err::<(), u64>(d as u64)
            &&& d <= max_drift_secs ==> r is Ok
        }),
{
    let expected = derive_slot_timestamp(genesis_time_secs, slot, slot_duration_ms);
    let drift = if block_timestamp >= expected { block_timestamp - expected } else { expected - block_timestamp };
    if drift > max_drift_secs {
        Err(drift)
    } else {
        Ok(())
    }
}

/// Derived slot timestamps never decrease as the slot grows.
pub proof fn lemma_slot_timestamp_monotone(genesis_time_secs: u64, a: u64, b: u64, slot_duration_ms: u64)
    requires
        a <= b,
    ensures
        spec_slot_timestamp(genesis_time_secs, a, slot_duration_ms) <= spec_slot_timestamp(genesis_time_secs, b, slot_duration_ms),
{
    assert(a * slot_duration_ms <= b * slot_duration_ms) by (nonlinear_arith)
        requires a <= b;
    assert((a * slot_duration_ms) / 1000 <= (b * slot_duration_ms) / 1000) by (nonlinear_arith)
        requires a * slot_duration_ms <= b * slot_duration_ms, a * slot_duration_ms >= 0;
}

/// Signing changes neither the block hash nor anything but the signature;
/// and a block signed with the key of its producer field verifies unless the
/// signature happens to be all zero (then it verifies only at slot 0).
pub proof fn lemma_sign_then_verify(before: Block, after: Block, seed: Seq<u8>)
    requires
        after.header == (BlockHeader { signature: after.header.signature, ..before.header }),
        ed25519_valid_spec(ed25519_public_key_spec(seed), sha256_spec(header_bytes(before.header)), after.header.signature@),
        before.header.validator@ == ed25519_public_key_spec(seed),
    ensures
        header_bytes(after.header) == header_bytes(before.header),
        !all_zero(after.header.signature@) ==>
            ed25519_valid_spec(after.header.validator@, sha256_spec(header_bytes(after.header)), after.header.signature@),
{
}

/// The eight little-endian bytes of a number give the number back.
proof fn lemma_u64_le_injective(x: u64, y: u64)
    requires
        u64_le(x) == u64_le(y),
    ensures
        x == y,
{
    let a = u64_le(x);
    let b = u64_le(y);
    assert(a[0] == b[0] && a[1] == b[1] && a[2] == b[2] && a[3] == b[3]);
    assert(a[4] == b[4] && a[5] == b[5] && a[6] == b[6] && a[7] == b[7]);
    assert(x == y) by (bit_vector)
        requires
            (x & 0xff) as u8 == (y & 0xff) as u8,
            ((x >> 8u64) & 0xff) as u8 == ((y >> 8u64) & 0xff) as u8,
            ((x >> 16u64) & 0xff) as u8 == ((y >> 16u64) & 0xff) as u8,
            ((x >> 24u64) & 0xff) as u8 == ((y >> 24u64) & 0xff) as u8,
            ((x >> 32u64) & 0xff) as u8 == ((y >> 32u64) & 0xff) as u8,
            ((x >> 40u64) & 0xff) as u8 == ((y >> 40u64) & 0xff) as u8,
            ((x >> 48u64) & 0xff) as u8 == ((y >> 48u64) & 0xff) as u8,
            ((x >> 56u64) & 0xff) as u8 == ((y >> 56u64) & 0xff) as u8,
    ;
}

/// The signed bytes determine every signed header field: two headers with
/// the same signed bytes agree on slot, parent, roots, timestamp and
/// producer. So a header changed after signing (its timestamp, say) is
/// checked against other bytes than the ones that were signed.
pub proof fn lemma_signed_fields_fixed(h1: BlockHeader, h2: BlockHeader)
    requires
        header_bytes(h1) == header_bytes(h2),
    ensures
        h1.slot == h2.slot,
        h1.parent_hash.0@ == h2.parent_hash.0@,
        h1.state_root.0@ == h2.state_root.0@,
        h1.tx_root.0@ == h2.tx_root.0@,
        h1.timestamp == h2.timestamp,
        h1.validator@ == h2.validator@,
{
    let b1 = header_bytes(h1);
    let b2 = header_bytes(h2);
    assert(b1.subrange(0, 8) =~= u64_le(h1.slot));
    assert(b2.subrange(0, 8) =~= u64_le(h2.slot));
    assert(b1.subrange(8, 40) =~= h1.parent_hash.0@);
    assert(b2.subrange(8, 40) =~= h2.parent_hash.0@);
    assert(b1.subrange(40, 72) =~= h1.state_root.0@);
    assert(b2.subrange(40, 72) =~= h2.state_root.0@);
    assert(b1.subrange(72, 104) =~= h1.tx_root.0@);
    assert(b2.subrange(72, 104) =~= h2.tx_root.0@);
    assert(b1.subrange(104, 112) =~= u64_le(h1.timestamp));
    assert(b2.subrange(104, 112) =~= u64_le(h2.timestamp));
    assert(b1.subrange(112, 144) =~= h1.validator@);
    assert(b2.subrange(112, 144) =~= h2.validator@);
    lemma_u64_le_injective(h1.slot, h2.slot);
    lemma_u64_le_injective(h1.timestamp, h2.timestamp);
}

/// BFT time: the stake-weighted median of the commit timestamps of
/// validators in the set with own stake, raised to `min_timestamp + 1` when
/// not above it. None when no signature qualifies.
pub fn compute_bft_timestamp(
    commit_signatures: &[CommitSignature],
    validator_set: &ValidatorSet,
    stake_pool: &StakePool,
    min_timestamp: Option<u64>,
) -> (r: Option<u64>)
    requires
        stake_pool.wf(),
        min_timestamp matches Some(m) ==> m < u64::MAX,
    ensures
        ({
            let w = weighted_times(commit_signatures@, validator_set.view_seq(), stake_pool.stakes_view());
            &&& w.len() == 0 ==> r is None
            &&& w.len() > 0 ==> exists|t: u64| #[trigger] is_weighted_median(w, t) && r == Some(
                match min_timestamp {
                    Some(m) => if t <= m { (m + 1) as u64 } else { t },
                    None => t,
                })
        }),
{
    let ghost set = validator_set.view_seq();
    let ghost m = stake_pool.stakes_view();
    let mut w: Vec<(u64, u64)> = Vec::new();
    let mut i: usize = 0;
    while i < commit_signatures.len()
        invariant
            i <= commit_signatures@.len(),
            stake_pool.wf(),
            set == validator_set.view_seq(),
            m == stake_pool.stakes_view(),
            w@ == weighted_times(commit_signatures@.subrange(0, i as int), set, m),
            w@.len() <= i,
        decreases commit_signatures@.len() - i,
    {
        proof {
            assert(commit_signatures@.subrange(0, i + 1).drop_last() =~= commit_signatures@.subrange(0, i as int));
        }
        let cs = commit_signatures[i];
        let pk = Pubkey(cs.validator);
        if validator_set.get_validator(&pk).is_some() {
            let a = amount_of(stake_pool, &cs.validator);
            if a > 0 {
                w.push((cs.timestamp, a));
            }
        }
        i += 1;
    }
    proof {
        assert(commit_signatures@.subrange(0, commit_signatures@.len() as int) =~= commit_signatures@);
    }
    if w.len() == 0 {
        return None;
    }
    let ghost ws = w@;
    proof {
        lemma_weight_bounds(ws, w@.len() as nat);
    }
    let mut total: u128 = 0;
    let mut j: usize = 0;
    while j < w.len()
        invariant
            j <= w@.len(),
            ws == w@,
            total == weight_total(ws.subrange(0, j as int)),
            weight_total(ws) <= ws.len() * 0xffff_ffff_ffff_ffffnat,
            ws.len() <= usize::MAX,
        decreases w@.len() - j,
    {
        proof {
            assert(ws.subrange(0, j + 1).drop_last() =~= ws.subrange(0, j as int));
            lemma_weight_total_prefix(ws, j + 1);
            assert(ws.len() * 0xffff_ffff_ffff_ffffnat < 0x1_0000_0000_0000_0000_0000_0000_0000_0000nat) by (nonlinear_arith)
                requires ws.len() <= 0xffff_ffff_ffff_ffffnat;
        }
        total = total + w[j].1 as u128;
        j += 1;
    }
    proof {
        assert(ws.subrange(0, ws.len() as int) =~= ws);
    }
    let half = total / 2;
    let mut best: Option<u64> = None;
    let mut k: usize = 0;
    while k < w.len()
        invariant
            k <= w@.len(),
            ws == w@,
            total == weight_total(ws),
            half == weight_total(ws) / 2,
            weight_total(ws) <= ws.len() * 0xffff_ffff_ffff_ffffnat,
            ws.len() <= usize::MAX,
            best matches Some(b) ==> (exists|x: int| 0 <= x < k && #[trigger] ws[x].0 == b) && weight_le(ws, b) > half,
            best matches Some(b) ==> forall|x: int| 0 <= x < k && weight_le(ws, #[trigger] ws[x].0) > half ==> b <= ws[x].0,
            best is None ==> forall|x: int| 0 <= x < k ==> weight_le(ws, #[trigger] ws[x].0) <= half,
        decreases w@.len() - k,
    {
        let t = w[k].0;
        let mut acc: u128 = 0;
        let mut q: usize = 0;
        while q < w.len()
            invariant
                q <= w@.len(),
                ws == w@,
                acc == weight_le(ws.subrange(0, q as int), t),
                weight_total(ws) <= ws.len() * 0xffff_ffff_ffff_ffffnat,
                ws.len() <= usize::MAX,
            decreases w@.len() - q,
        {
            proof {
                assert(ws.subrange(0, q + 1).drop_last() =~= ws.subrange(0, q as int));
                lemma_weight_le_prefix(ws, t, q + 1);
                lemma_weight_le_total(ws, t);
                assert(ws.len() * 0xffff_ffff_ffff_ffffnat < 0x1_0000_0000_0000_0000_0000_0000_0000_0000nat) by (nonlinear_arith)
                    requires ws.len() <= 0xffff_ffff_ffff_ffffnat;
            }
            if w[q].0 <= t {
                acc = acc + w[q].1 as u128;
            }
            q += 1;
        }
        proof {
            assert(ws.subrange(0, ws.len() as int) =~= ws);
        }
        if acc > half {
            match best {
                Some(b) => {
                    if t < b {
                        best = Some(t);
                    }
                },
                None => {
                    best = Some(t);
                },
            }
        }
        k += 1;
    }
    proof {
        lemma_weighted_positive(commit_signatures@, set, m);
        let mi = lemma_max_time_qualifies(ws);
        assert(weight_le(ws, ws[mi].0) > half);
    }
    let med = match best {
        Some(b) => b,
        None => 0,
    };
    let res = match min_timestamp {
        Some(mt) => if med <= mt { mt + 1 } else { med },
        None => med,
    };
    proof {
        assert(is_weighted_median(ws, med));
    }
    Some(res)
}

proof fn lemma_weighted_positive(sigs: Seq<CommitSignature>, set: Seq<ValidatorInfo>, m: Map<[u8; 32], StakeInfo>)
    ensures
        forall|i: int| 0 <= i < weighted_times(sigs, set, m).len() ==> #[trigger] weighted_times(sigs, set, m)[i].1 > 0,
    decreases sigs.len(),
{
    if sigs.len() > 0 {
        lemma_weighted_positive(sigs.drop_last(), set, m);
        let prev = weighted_times(sigs.drop_last(), set, m);
        let w = weighted_times(sigs, set, m);
        assert forall|i: int| 0 <= i < w.len() implies #[trigger] w[i].1 > 0 by {
            if i < prev.len() {
                assert(w[i] == prev[i]);
            }
        }
    }
}

proof fn lemma_weight_bounds(w: Seq<(u64, u64)>, n: nat)
    requires
        n == w.len(),
    ensures
        weight_total(w) <= n * 0xffff_ffff_ffff_ffffnat,
    decreases w.len(),
{
    if w.len() > 0 {
        lemma_weight_bounds(w.drop_last(), (n - 1) as nat);
        assert(n * 0xffff_ffff_ffff_ffffnat == (n - 1) * 0xffff_ffff_ffff_ffffnat + 0xffff_ffff_ffff_ffffnat) by (nonlinear_arith)
            requires n >= 1;
    }
}

proof fn lemma_weight_total_prefix(w: Seq<(u64, u64)>, i: int)
    requires
        0 <= i <= w.len(),
    ensures
        weight_total(w.subrange(0, i)) <= weight_total(w),
    decreases w.len() - i,
{
    if i < w.len() {
        lemma_weight_total_prefix(w, i + 1);
        assert(w.subrange(0, i + 1).drop_last() =~= w.subrange(0, i));
    } else {
        assert(w.subrange(0, i) =~= w);
    }
}

proof fn lemma_weight_le_prefix(w: Seq<(u64, u64)>, t: u64, i: int)
    requires
        0 <= i <= w.len(),
    ensures
        weight_le(w.subrange(0, i), t) <= weight_le(w, t),
    decreases w.len() - i,
{
    if i < w.len() {
        lemma_weight_le_prefix(w, t, i + 1);
        assert(w.subrange(0, i + 1).drop_last() =~= w.subrange(0, i));
    } else {
        assert(w.subrange(0, i) =~= w);
    }
}

proof fn lemma_weight_le_total(w: Seq<(u64, u64)>, t: u64)
    ensures
        weight_le(w, t) <= weight_total(w),
        (forall|i: int| 0 <= i < w.len() ==> #[trigger] w[i].0 <= t) ==> weight_le(w, t) == weight_total(w),
    decreases w.len(),
{
    if w.len() > 0 {
        lemma_weight_le_total(w.drop_last(), t);
        if forall|i: int| 0 <= i < w.len() ==> #[trigger] w[i].0 <= t {
            assert forall|i: int| 0 <= i < w.drop_last().len() implies #[trigger] w.drop_last()[i].0 <= t by {
                assert(w.drop_last()[i] == w[i]);
            }
            assert(w[w.len() - 1].0 <= t);
        }
    }
}

proof fn lemma_weight_positive(w: Seq<(u64, u64)>)
    requires
        w.len() > 0,
        forall|i: int| 0 <= i < w.len() ==> #[trigger] w[i].1 > 0,
    ensures
        weight_total(w) > 0,
    decreases w.len(),
{
    assert(w[w.len() - 1].1 > 0);
}

/// Index of an entry of non-empty `w` with the latest time.
pub open spec fn latest_index(w: Seq<(u64, u64)>) -> int
    decreases w.len(),
{
    if w.len() <= 1 {
        0
    } else {
        let i = latest_index(w.drop_last());
        if w.last().0 > w[i].0 { w.len() - 1 } else { i }
    }
}

proof fn lemma_latest_index(w: Seq<(u64, u64)>)
    requires
        w.len() > 0,
    ensures
        0 <= latest_index(w) < w.len(),
        forall|i: int| 0 <= i < w.len() ==> #[trigger] w[i].0 <= w[latest_index(w)].0,
    decreases w.len(),
{
    if w.len() > 1 {
        let t = w.drop_last();
        lemma_latest_index(t);
        let j = latest_index(t);
        assert(t[j] == w[j]);
        assert forall|i: int| 0 <= i < w.len() implies #[trigger] w[i].0 <= w[latest_index(w)].0 by {
            if i < t.len() {
                assert(t[i] == w[i]);
            }
        }
    }
}

/// Some entry of non-empty `w` with positive stakes has more than half the
/// stake at or before its time (one with the latest time).
proof fn lemma_max_time_qualifies(w: Seq<(u64, u64)>) -> (mi: int)
    requires
        w.len() > 0,
        forall|i: int| 0 <= i < w.len() ==> #[trigger] w[i].1 > 0,
    ensures
        0 <= mi < w.len(),
        weight_le(w, w[mi].0) > weight_total(w) / 2,
{
    lemma_latest_index(w);
    let mi = latest_index(w);
    lemma_weight_le_total(w, w[mi].0);
    lemma_weight_positive(w);
    mi
}

/// SHA-256 over (key, stake) of the validators in key order, the stake being
/// the pool's total stake, else the validator's own figure.
pub fn compute_validators_hash(validator_set: &ValidatorSet, stake_pool: &StakePool) -> (r: crate::hash::Hash)
    requires
        stake_pool.wf(),
    ensures
        exists|s: Seq<ValidatorInfo>| #[trigger] is_sorted_copy(s, validator_set.view_seq())
            && r.0@ == sha256_spec(validators_bytes(s, stake_pool.stakes_view())),
{
    let sorted = validator_set.sorted_validators();
    let ghost m = stake_pool.stakes_view();
    let mut data: Vec<u8> = Vec::new();
    let mut i: usize = 0;
    while i < sorted.len()
        invariant
            i <= sorted@.len(),
            stake_pool.wf(),
            m == stake_pool.stakes_view(),
            data@ == validators_bytes(sorted@.subrange(0, i as int), m),
        decreases sorted@.len() - i,
    {
        proof {
            assert(sorted@.subrange(0, i + 1).drop_last() =~= sorted@.subrange(0, i as int));
        }
        let v = sorted[i];
        let stake = match stake_pool.get_stake(&v.pubkey) {
            Some(s) => s.total_stake(),
            None => v.stake,
        };
        append_bytes(&mut data, &v.pubkey.0);
        let le = u64_to_le(stake);
        append_bytes(&mut data, &le);
        i += 1;
    }
    proof {
        assert(sorted@.subrange(0, sorted@.len() as int) =~= sorted@);
    }
    crate::hash::Hash::hash(data.as_slice())
}

} // verus!
