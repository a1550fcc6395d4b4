//! Votes and the single-vote signing authority; BFT round steps, prevotes
//! and precommits with their signed byte layouts.
use vstd::prelude::*;
use crate::account::{Pubkey, Keypair};
use crate::bytes::{u64_le, u32_le, u64_to_le, u32_to_le, append_bytes};
use crate::clock::unix_now_secs;
use crate::crypto::{ed25519_valid_spec, ed25519_public_key_spec, ed25519_signature_spec, sha256_spec};

verus! {

broadcast use vstd::array::group_array_axioms;

/// The bytes a vote signs: the slot, little-endian, then the block hash.
pub open spec fn vote_message(slot: u64, block_hash: crate::hash::Hash) -> Seq<u8> {
    u64_le(slot) + block_hash.0@
}

/// A consensus vote for a block.
#[derive(Debug, Clone, Copy, PartialEq, Eq)]
pub struct Vote {
    /// Slot voted on.
    pub slot: u64,
    /// Hash of the block voted for.
    pub block_hash: crate::hash::Hash,
    /// Validator casting the vote.
    pub validator: Pubkey,
    /// Ed25519 signature over `vote_message(slot, block_hash)`.
    pub signature: [u8; 64],
    /// Seconds since the Unix epoch when the vote was made.
    pub timestamp: u64,
}

/// The message bytes of a vote, built in a buffer.
fn build_vote_message(slot: u64, block_hash: &crate::hash::Hash) -> (r: Vec<u8>)
    ensures
        r@ == vote_message(slot, *block_hash),
{
    let mut msg: Vec<u8> = Vec::new();
    let le = u64_to_le(slot);
    append_bytes(&mut msg, &le);
    append_bytes(&mut msg, &block_hash.0);
    proof {
        assert(msg@ =~= vote_message(slot, *block_hash));
    }
    msg
}

impl Vote {
    /// A vote stamped with the current time.
    pub fn new(slot: u64, block_hash: crate::hash::Hash, validator: Pubkey, signature: [u8; 64]) -> (r: Vote)
        ensures
            r.slot == slot,
            r.block_hash == block_hash,
            r.validator == validator,
            r.signature == signature,
    {
        Vote { slot, block_hash, validator, signature, timestamp: unix_now_secs() }
    }

    /// Whether the signature is valid over the slot and block hash under the
    /// validator's key.
    pub fn verify(&self) -> (r: bool)
        ensures
            r == ed25519_valid_spec(self.validator.0@, vote_message(self.slot, self.block_hash), self.signature@),
    {
        let msg = build_vote_message(self.slot, &self.block_hash);
        Keypair::verify(&self.validator, msg.as_slice(), &self.signature)
    }
}

/// The slot-to-hash map of a list of recorded votes (later entries win).
pub open spec fn slot_map(s: Seq<(u64, crate::hash::Hash)>) -> Map<u64, crate::hash::Hash>
    decreases s.len(),
{
    if s.len() == 0 {
        Map::empty()
    } else {
        slot_map(s.drop_last()).insert(s.last().0, s.last().1)
    }
}

/// No slot occurs twice.
pub open spec fn distinct_slots(s: Seq<(u64, crate::hash::Hash)>) -> bool {
    forall|i: int, j: int| 0 <= i < j < s.len() ==> #[trigger] s[i].0 != #[trigger] s[j].0
}

proof fn lemma_slot_map(s: Seq<(u64, crate::hash::Hash)>)
    requires
        distinct_slots(s),
    ensures
        slot_map(s).dom().finite(),
        slot_map(s).dom().len() == s.len(),
        forall|k: u64| #[trigger] slot_map(s).dom().contains(k) <==> exists|i: int| 0 <= i < s.len() && s[i].0 == k,
        forall|i: int| 0 <= i < s.len() ==> #[trigger] slot_map(s)[s[i].0] == s[i].1,
    decreases s.len(),
{
    if s.len() > 0 {
        let t = s.drop_last();
        assert forall|i: int, j: int| 0 <= i < j < t.len() implies #[trigger] t[i].0 != #[trigger] t[j].0 by {
            assert(t[i] == s[i] && t[j] == s[j]);
        }
        lemma_slot_map(t);
        let x = s.last();
        assert(!slot_map(t).dom().contains(x.0)) by {
            if slot_map(t).dom().contains(x.0) {
                let i = choose|i: int| 0 <= i < t.len() && t[i].0 == x.0;
                assert(s[i].0 == s[s.len() - 1].0);
            }
        }
        assert forall|k: u64| #[trigger] slot_map(s).dom().contains(k) <==> exists|i: int| 0 <= i < s.len() && s[i].0 == k by {
            if slot_map(s).dom().contains(k) {
                if k == x.0 {
                    assert(s[s.len() - 1].0 == k);
                } else {
                    let i = choose|i: int| 0 <= i < t.len() && t[i].0 == k;
                    assert(s[i] == t[i]);
                }
            }
            if exists|i: int| 0 <= i < s.len() && s[i].0 == k {
                let i = choose|i: int| 0 <= i < s.len() && s[i].0 == k;
                if i < s.len() - 1 {
                    assert(t[i] == s[i]);
                }
            }
        }
        assert forall|i: int| 0 <= i < s.len() implies #[trigger] slot_map(s)[s[i].0] == s[i].1 by {
            if i < s.len() - 1 {
                assert(t[i] == s[i]);
                assert(s[i].0 != x.0);
            }
        }
    }
}

/// The entries of `m` whose slot is at least `min_slot`.
pub open spec fn pruned_map(m: Map<u64, crate::hash::Hash>, min_slot: u64) -> Map<u64, crate::hash::Hash> {
    m.restrict(m.dom().filter(|k: u64| k >= min_slot))
}

/// The entries of `s` whose slot is at least `min_slot`, in order.
pub open spec fn slots_from(s: Seq<(u64, crate::hash::Hash)>, min_slot: u64) -> Seq<(u64, crate::hash::Hash)>
    decreases s.len(),
{
    if s.len() == 0 {
        Seq::empty()
    } else if s.last().0 >= min_slot {
        slots_from(s.drop_last(), min_slot).push(s.last())
    } else {
        slots_from(s.drop_last(), min_slot)
    }
}

proof fn lemma_slots_from(s: Seq<(u64, crate::hash::Hash)>, min_slot: u64)
    requires
        distinct_slots(s),
    ensures
        distinct_slots(slots_from(s, min_slot)),
        forall|i: int| 0 <= i < slots_from(s, min_slot).len() ==>
            exists|k: int| 0 <= k < s.len() && #[trigger] slots_from(s, min_slot)[i] == s[k],
        slot_map(slots_from(s, min_slot)) == pruned_map(slot_map(s), min_slot),
    decreases s.len(),
{
    let m = slot_map(s);
    let want = pruned_map(m, min_slot);
    if s.len() == 0 {
        assert(want =~= Map::empty());
    } else {
        let t = s.drop_last();
        assert forall|i: int, j: int| 0 <= i < j < t.len() implies #[trigger] t[i].0 != #[trigger] t[j].0 by {
            assert(t[i] == s[i] && t[j] == s[j]);
        }
        lemma_slots_from(t, min_slot);
        lemma_slot_map(t);
        let x = s.last();
        assert(!slot_map(t).dom().contains(x.0)) by {
            if slot_map(t).dom().contains(x.0) {
                let i = choose|i: int| 0 <= i < t.len() && t[i].0 == x.0;
                assert(s[i] == t[i]);
                assert(s[i].0 != s[s.len() - 1].0);
            }
        }
        let f = slots_from(t, min_slot);
        let mt = slot_map(t);
        let wt = pruned_map(mt, min_slot);
        assert forall|i: int| 0 <= i < f.len() implies exists|k: int| 0 <= k < s.len() && #[trigger] f[i] == s[k] by {
            let k = choose|k: int| 0 <= k < t.len() && f[i] == t[k];
            assert(t[k] == s[k]);
        }
        if x.0 >= min_slot {
            let g = f.push(x);
            assert forall|i: int| 0 <= i < f.len() implies #[trigger] f[i].0 != x.0 by {
                let k = choose|k: int| 0 <= k < t.len() && f[i] == t[k];
                assert(t[k] == s[k]);
                assert(s[k].0 != s[s.len() - 1].0);
            }
            assert forall|i: int, j: int| 0 <= i < j < g.len() implies #[trigger] g[i].0 != #[trigger] g[j].0 by {
                if j < f.len() {
                    assert(g[i] == f[i] && g[j] == f[j]);
                } else {
                    assert(g[i] == f[i]);
                }
            }
            assert forall|i: int| 0 <= i < g.len() implies exists|k: int| 0 <= k < s.len() && #[trigger] g[i] == s[k] by {
                if i < f.len() {
                    assert(g[i] == f[i]);
                } else {
                    assert(g[i] == s[s.len() - 1]);
                }
            }
            assert(want =~= wt.insert(x.0, x.1));
            assert(slots_from(s, min_slot) == g);
            assert(g.drop_last() =~= f);
            assert(slot_map(g) == slot_map(f).insert(x.0, x.1));
        } else {
            assert(want =~= wt);
            assert(slots_from(s, min_slot) == f);
        }
    }
}

/// The single gatekeeper of vote signing: it signs at most one vote per slot.
pub struct VoteAuthority {
    signing_seed: [u8; 32],
    validator_pubkey: Pubkey,
    voted: Vec<(u64, crate::hash::Hash)>,
}

impl VoteAuthority {
    /// The slots already voted on, with the hash voted for.
    pub closed spec fn voted(&self) -> Map<u64, crate::hash::Hash> {
        slot_map(self.voted@)
    }

    /// The signing seed.
    pub closed spec fn seed_view(&self) -> Seq<u8> {
        self.signing_seed@
    }

    /// The validator key the votes carry.
    pub closed spec fn validator_view(&self) -> Pubkey {
        self.validator_pubkey
    }

    /// Internal consistency: no slot is recorded twice.
    pub closed spec fn wf(&self) -> bool {
        distinct_slots(self.voted@)
    }

    /// An authority that signs with `signing_seed` for `validator_pubkey` and
    /// has voted on nothing.
    pub fn new(signing_seed: [u8; 32], validator_pubkey: Pubkey) -> (r: VoteAuthority)
        ensures
            r.wf(),
            r.voted() == Map::<u64, crate::hash::Hash>::empty(),
            r.seed_view() == signing_seed@,
            r.validator_view() == validator_pubkey,
    {
        VoteAuthority { signing_seed, validator_pubkey, voted: Vec::new() }
    }

    fn find_slot(&self, slot: u64) -> (r: Option<usize>)
        requires
            self.wf(),
        ensures
            r is Some <==> self.voted().dom().contains(slot),
            r matches Some(i) ==> i < self.voted@.len() && self.voted@[i as int].0 == slot,
    {
        let mut i: usize = 0;
        while i < self.voted.len()
            invariant
                i <= self.voted@.len(),
                self.wf(),
                forall|j: int| 0 <= j < i ==> #[trigger] self.voted@[j].0 != slot,
            decreases self.voted@.len() - i,
        {
            if self.voted[i].0 == slot {
                assert(self.voted@[i as int].0 == slot);
                proof {
                    lemma_slot_map(self.voted@);
                }
                return Some(i);
            }
            i += 1;
        }
        proof {
            lemma_slot_map(self.voted@);
        }
        None
    }

    /// Signs and records a vote for (`slot`, `block_hash`) when no vote for
    /// `slot` was made before; refuses (None, nothing changed) otherwise,
    /// whether the earlier hash is the same or not.
    pub fn try_vote(&mut self, slot: u64, block_hash: crate::hash::Hash) -> (r: Option<Vote>)
        requires
            old(self).wf(),
        ensures
            final(self).wf(),
            final(self).seed_view() == old(self).seed_view(),
            final(self).validator_view() == old(self).validator_view(),
            r is Some <==> !old(self).voted().dom().contains(slot),
            r is None ==> final(self).voted() == old(self).voted(),
            r matches Some(v) ==> {
                &&& final(self).voted() == old(self).voted().insert(slot, block_hash)
                &&& v.slot == slot
                &&& v.block_hash == block_hash
                &&& v.validator == old(self).validator_view()
                &&& v.signature@ == ed25519_signature_spec(old(self).seed_view(), vote_message(slot, block_hash))
                &&& ed25519_valid_spec(ed25519_public_key_spec(old(self).seed_view()), vote_message(slot, block_hash), v.signature@)
            },
    {
        if self.find_slot(slot).is_some() {
            return None;
        }
        let keypair = Keypair::from_seed(&self.signing_seed);
        let msg = build_vote_message(slot, &block_hash);
        let signature = keypair.sign(msg.as_slice());
        let vote = Vote::new(slot, block_hash, self.validator_pubkey, signature);
        proof {
            lemma_slot_map(self.voted@);
        }
        let ghost before = self.voted@;
        self.voted.push((slot, block_hash));
        proof {
            assert(self.voted@.drop_last() =~= before);
            assert forall|i: int, j: int| 0 <= i < j < self.voted@.len() implies #[trigger] self.voted@[i].0 != #[trigger] self.voted@[j].0 by {
                if j == self.voted@.len() - 1 {
                    assert(self.voted@[i] == before[i]);
                    if before[i].0 == slot {
                        assert(slot_map(before).dom().contains(slot));
                    }
                } else {
                    assert(self.voted@[i] == before[i] && self.voted@[j] == before[j]);
                }
            }
        }
        Some(vote)
    }

    /// Whether a vote for `slot` was signed.
    pub fn has_voted(&self, slot: u64) -> (r: bool)
        requires
            self.wf(),
        ensures
            r == self.voted().dom().contains(slot),
    {
        self.find_slot(slot).is_some()
    }

    /// Forgets the votes for slots below `min_slot`.
    pub fn prune(&mut self, min_slot: u64)
        requires
            old(self).wf(),
        ensures
            final(self).wf(),
            final(self).seed_view() == old(self).seed_view(),
            final(self).validator_view() == old(self).validator_view(),
            final(self).voted() == pruned_map(old(self).voted(), min_slot),
    {
        let ghost orig = self.voted@;
        let mut kept: Vec<(u64, crate::hash::Hash)> = Vec::new();
        let mut i: usize = 0;
        while i < self.voted.len()
            invariant
                i <= self.voted@.len(),
                self.voted@ == orig,
                kept@ == slots_from(orig.subrange(0, i as int), min_slot),
            decreases self.voted@.len() - i,
        {
            proof {
                assert(orig.subrange(0, i + 1).drop_last() =~= orig.subrange(0, i as int));
            }
            let e = self.voted[i];
            if e.0 >= min_slot {
                kept.push(e);
            }
            i += 1;
        }
        proof {
            assert(orig.subrange(0, orig.len() as int) =~= orig);
            lemma_slots_from(orig, min_slot);
        }
        self.voted = kept;
    }

    /// Number of slots voted on.
    pub fn voted_count(&self) -> (r: usize)
        requires
            self.wf(),
        ensures
            r == self.voted().dom().len(),
    {
        proof {
            lemma_slot_map(self.voted@);
        }
        self.voted.len()
    }
}

/// Step of a BFT round.
#[derive(Debug, Clone, Copy, PartialEq, Eq, Structural)]
pub enum RoundStep {
    Propose,
    Prevote,
    Precommit,
    Commit,
}

/// The 32 bytes that stand for a block hash, or 32 zeros for nil.
pub open spec fn hash_or_nil(block_hash: Option<crate::hash::Hash>) -> Seq<u8> {
    match block_hash {
        Some(h) => h.0@,
        None => Seq::new(32, |i: int| 0u8),
    }
}

/// Bytes signed by a BFT vote: a tag, height and round little-endian, then the
/// block hash or 32 zeros for nil.
pub open spec fn bft_vote_message(tag: u8, height: u64, round: u32, block_hash: Option<crate::hash::Hash>) -> Seq<u8> {
    seq![tag] + u64_le(height) + u32_le(round) + hash_or_nil(block_hash)
}

fn build_bft_vote_message(tag: u8, height: u64, round: u32, block_hash: &Option<crate::hash::Hash>) -> (r: Vec<u8>)
    ensures
        r@ == bft_vote_message(tag, height, round, *block_hash),
{
    let mut msg: Vec<u8> = Vec::new();
    msg.push(tag);
    let h = u64_to_le(height);
    append_bytes(&mut msg, &h);
    let r = u32_to_le(round);
    append_bytes(&mut msg, &r);
    match block_hash {
        Some(bh) => append_bytes(&mut msg, &bh.0),
        None => {
            let zeros = [0u8; 32];
            append_bytes(&mut msg, &zeros);
            proof {
                assert(zeros@ =~= Seq::new(32, |i: int| 0u8));
            }
        },
    }
    proof {
        assert(msg@ =~= bft_vote_message(tag, height, round, *block_hash));
    }
    msg
}

/// A prevote: first-round attestation for a block, or nil.
#[derive(Debug, Clone, Copy, PartialEq, Eq)]
pub struct Prevote {
    pub height: u64,
    pub round: u32,
    /// Block prevoted, or None for nil.
    pub block_hash: Option<crate::hash::Hash>,
    pub validator: Pubkey,
    pub signature: [u8; 64],
}

impl Prevote {
    /// Bytes signed by a prevote (tag 1).
    pub fn signable_bytes(height: u64, round: u32, block_hash: &Option<crate::hash::Hash>) -> (r: Vec<u8>)
        ensures
            r@ == bft_vote_message(1, height, round, *block_hash),
    {
        build_bft_vote_message(1, height, round, block_hash)
    }

    /// Whether the signature is valid over the signable bytes under the voter's key.
    pub fn verify_signature(&self) -> (r: bool)
        ensures
            r == ed25519_valid_spec(self.validator.0@, bft_vote_message(1, self.height, self.round, self.block_hash), self.signature@),
    {
        let msg = Self::signable_bytes(self.height, self.round, &self.block_hash);
        Keypair::verify(&self.validator, msg.as_slice(), &self.signature)
    }
}

/// A precommit: second-round attestation for a block, or nil.
#[derive(Debug, Clone, Copy, PartialEq, Eq)]
pub struct Precommit {
    pub height: u64,
    pub round: u32,
    /// Block precommitted, or None for nil.
    pub block_hash: Option<crate::hash::Hash>,
    pub validator: Pubkey,
    pub signature: [u8; 64],
}

impl Precommit {
    /// Bytes signed by a precommit (tag 2).
    pub fn signable_bytes(height: u64, round: u32, block_hash: &Option<crate::hash::Hash>) -> (r: Vec<u8>)
        ensures
            r@ == bft_vote_message(2, height, round, *block_hash),
    {
        build_bft_vote_message(2, height, round, block_hash)
    }

    /// Whether the signature is valid over the signable bytes under the voter's key.
    pub fn verify_signature(&self) -> (r: bool)
        ensures
            r == ed25519_valid_spec(self.validator.0@, bft_vote_message(2, self.height, self.round, self.block_hash), self.signature@),
    {
        let msg = Self::signable_bytes(self.height, self.round, &self.block_hash);
        Keypair::verify(&self.validator, msg.as_slice(), &self.signature)
    }
}

/// Bytes a proposal signs: height and round little-endian, the block hash,
/// the valid round (two's complement, little-endian).
pub open spec fn proposal_message(height: u64, round: u32, block_hash: Seq<u8>, valid_round: i32) -> Seq<u8> {
    u64_le(height) + u32_le(round) + block_hash + u32_le(valid_round as u32)
}

/// A proposal: the proposer broadcasts a block for the validators to vote on.
#[derive(Debug, Clone)]
pub struct Proposal {
    pub height: u64,
    pub round: u32,
    pub block: crate::block::Block,
    /// Round in which the block got two thirds of the prevotes, or -1.
    pub valid_round: i32,
    pub proposer: Pubkey,
    pub signature: [u8; 64],
}

impl Proposal {
    /// Bytes signed by this proposal.
    pub fn signable_bytes(&self) -> (r: Vec<u8>)
        ensures
            r@ == proposal_message(self.height, self.round, sha256_spec(crate::block::header_bytes(self.block.header)), self.valid_round),
    {
        let h = self.block.hash();
        Self::signable_bytes_static(self.height, self.round, &h, self.valid_round)
    }

    /// Whether the proposer's signature is valid over the signable bytes.
    pub fn verify_signature(&self) -> (r: bool)
        ensures
            r == ed25519_valid_spec(self.proposer.0@,
                proposal_message(self.height, self.round, sha256_spec(crate::block::header_bytes(self.block.header)), self.valid_round),
                self.signature@),
    {
        let msg = self.signable_bytes();
        Keypair::verify(&self.proposer, msg.as_slice(), &self.signature)
    }

    /// Bytes a proposal of these components signs.
    pub fn signable_bytes_static(height: u64, round: u32, block_hash: &crate::hash::Hash, valid_round: i32) -> (r: Vec<u8>)
        ensures
            r@ == proposal_message(height, round, block_hash.0@, valid_round),
    {
        let mut msg: Vec<u8> = Vec::new();
        let h = u64_to_le(height);
        append_bytes(&mut msg, &h);
        let r = u32_to_le(round);
        append_bytes(&mut msg, &r);
        append_bytes(&mut msg, &block_hash.0);
        let v = u32_to_le(valid_round as u32);
        append_bytes(&mut msg, &v);
        proof {
            assert(msg@ =~= proposal_message(height, round, block_hash.0@, valid_round));
        }
        msg
    }
}

/// A prevote and a precommit never sign the same bytes.
pub proof fn lemma_prevote_precommit_distinct(
    h1: u64, r1: u32, b1: Option<crate::hash::Hash>,
    h2: u64, r2: u32, b2: Option<crate::hash::Hash>,
)
    ensures
        bft_vote_message(1, h1, r1, b1) != bft_vote_message(2, h2, r2, b2),
{
    assert(bft_vote_message(1, h1, r1, b1)[0] == 1u8);
    assert(bft_vote_message(2, h2, r2, b2)[0] == 2u8);
}

} // verus!
