//! The shielded pool: note commitments under a Merkle root, the set of spent
//! nullifiers, and the shield / unshield / transfer state transitions.
//! Groth16 proofs are checked before the pool is reached; the pool checks
//! their length and the state they were made against. The pool contract
//! adds an admin, a pause switch and a reentrancy guard around the pool.
use vstd::prelude::*;
use crate::bytes::{append_bytes, copy_bytes, is_zero_32, bytes32_eq, all_zero};
use crate::crypto::{sha256, sha256_spec, hex_encode, hex_lower};

verus! {

broadcast use vstd::array::group_array_axioms;

/// A note commitment in the Merkle tree, with what its recipient needs to find it.
#[derive(Clone, Debug)]
pub struct CommitmentEntry {
    pub commitment: [u8; 32],
    pub slot: u64,
    pub encrypted_note: Vec<u8>,
    pub ephemeral_pk: [u8; 32],
}

/// Deposit of transparent funds into the pool.
#[derive(Clone, Debug)]
pub struct ShieldRequest {
    pub amount: u64,
    pub commitment: [u8; 32],
    pub proof: Vec<u8>,
    pub encrypted_note: Vec<u8>,
    pub ephemeral_pk: [u8; 32],
}

/// Withdrawal from the pool to a transparent address.
#[derive(Clone, Debug)]
pub struct UnshieldRequest {
    pub nullifier: [u8; 32],
    pub amount: u64,
    pub recipient: [u8; 32],
    pub merkle_root: [u8; 32],
    pub proof: Vec<u8>,
}

/// A private transfer: spends the notes of `nullifiers`, creates the outputs.
#[derive(Clone, Debug)]
pub struct TransferRequest {
    pub nullifiers: Vec<[u8; 32]>,
    pub output_commitments: Vec<OutputCommitment>,
    pub merkle_root: [u8; 32],
    pub proof: Vec<u8>,
}

/// An output note of a transfer.
#[derive(Clone, Debug)]
pub struct OutputCommitment {
    pub commitment: [u8; 32],
    pub encrypted_note: Vec<u8>,
    pub ephemeral_pk: [u8; 32],
}

/// Why the pool refused a request.
#[derive(Clone, Debug)]
pub enum ShieldedPoolError {
    InvalidProof(String),
    NullifierAlreadySpent(String),
    MerkleRootMismatch,
    InsufficientBalance,
    InvalidCommitment,
    VKNotInitialized,
    InvalidRequest(String),
    PoolOverflow,
}

/// The instructions the pool contract dispatches on.
#[derive(Clone, Debug)]
pub enum ShieldedPoolInstruction {
    Initialize { vk_shield: Vec<u8>, vk_unshield: Vec<u8>, vk_transfer: Vec<u8> },
    Shield(ShieldRequest),
    Unshield(UnshieldRequest),
    Transfer(TransferRequest),
    GetMerkleRoot,
    GetPoolStats,
    CheckNullifier { nullifier: [u8; 32] },
    GetCommitments { from_index: u64 },
}

/// Message of a proof of the wrong length.
pub const PROOF_LENGTH_MESSAGE: &'static str = "invalid proof length (expected exactly 128 bytes for Groth16/BN254)";

/// Length of a Groth16 proof over BN254.
pub const PROOF_LEN: usize = 128;

impl ShieldedPoolError {
    /// The human-readable text of the error.
    pub fn message(&self) -> (r: String)
        ensures
            r@ == match self {
                ShieldedPoolError::InvalidProof(m) => "invalid proof: "@ + m@,
                ShieldedPoolError::NullifierAlreadySpent(n) => "nullifier already spent: "@ + n@,
                ShieldedPoolError::MerkleRootMismatch => "merkle root does not match current state"@,
                ShieldedPoolError::InsufficientBalance => "insufficient shielded pool balance"@,
                ShieldedPoolError::InvalidCommitment => "invalid commitment (zero or malformed)"@,
                ShieldedPoolError::VKNotInitialized => "verification keys not initialized"@,
                ShieldedPoolError::InvalidRequest(m) => "invalid request: "@ + m@,
                ShieldedPoolError::PoolOverflow => "pool balance overflow"@,
            },
    {
        match self {
            ShieldedPoolError::InvalidProof(m) => {
                let mut s = String::from_str("invalid proof: ");
                s.append(m.as_str());
                s
            },
            ShieldedPoolError::NullifierAlreadySpent(n) => {
                let mut s = String::from_str("nullifier already spent: ");
                s.append(n.as_str());
                s
            },
            ShieldedPoolError::MerkleRootMismatch => String::from_str("merkle root does not match current state"),
            ShieldedPoolError::InsufficientBalance => String::from_str("insufficient shielded pool balance"),
            ShieldedPoolError::InvalidCommitment => String::from_str("invalid commitment (zero or malformed)"),
            ShieldedPoolError::VKNotInitialized => String::from_str("verification keys not initialized"),
            ShieldedPoolError::InvalidRequest(m) => {
                let mut s = String::from_str("invalid request: ");
                s.append(m.as_str());
                s
            },
            ShieldedPoolError::PoolOverflow => String::from_str("pool balance overflow"),
        }
    }
}

// ----- The commitment Merkle tree -----

/// 32 zero bytes.
pub open spec fn zeros32() -> Seq<u8> {
    Seq::new(32, |i: int| 0u8)
}

/// `n` rounds of hashing a node with itself, from the zero node.
pub open spec fn empty_root_after(n: nat) -> Seq<u8>
    decreases n,
{
    if n == 0 {
        zeros32()
    } else {
        let h = empty_root_after((n - 1) as nat);
        sha256_spec(h + h)
    }
}

/// Root of the tree with no leaves: 32 rounds from the zero node.
pub open spec fn spec_empty_merkle_root() -> Seq<u8> {
    empty_root_after(32)
}

/// Leaf of a commitment: SHA-256 of 0x00 and the commitment.
pub open spec fn leaf_hash(c: Seq<u8>) -> Seq<u8> {
    sha256_spec(seq![0u8] + c)
}

/// Inner node: SHA-256 of 0x01, the left and the right child.
pub open spec fn node_hash(l: Seq<u8>, r: Seq<u8>) -> Seq<u8> {
    sha256_spec(seq![1u8] + l + r)
}

/// The next level up: neighbours paired, a last odd node paired with itself.
pub open spec fn level_up(level: Seq<Seq<u8>>) -> Seq<Seq<u8>> {
    Seq::new(
        (level.len() / 2 + level.len() % 2) as nat,
        |i: int| node_hash(level[2 * i], if 2 * i + 1 < level.len() { level[2 * i + 1] } else { level[2 * i] }),
    )
}

/// Root above a non-empty level.
pub open spec fn level_root(level: Seq<Seq<u8>>) -> Seq<u8>
    decreases level.len(),
{
    if level.len() <= 1 {
        level[0]
    } else {
        level_root(level_up(level))
    }
}

/// Leaves of the commitments, in insertion order.
pub open spec fn leaves(entries: Seq<CommitmentEntry>) -> Seq<Seq<u8>> {
    entries.map_values(|e: CommitmentEntry| leaf_hash(e.commitment@))
}

/// Merkle root of the commitments (the empty root when there are none).
pub open spec fn spec_merkle_root(entries: Seq<CommitmentEntry>) -> Seq<u8> {
    if entries.len() == 0 {
        spec_empty_merkle_root()
    } else {
        level_root(leaves(entries))
    }
}

/// Views of a level of 32-byte nodes.
pub open spec fn node_views(level: Seq<[u8; 32]>) -> Seq<Seq<u8>> {
    level.map_values(|h: [u8; 32]| h@)
}

fn empty_merkle_root() -> (r: [u8; 32])
    ensures
        r@ == spec_empty_merkle_root(),
{
    let mut hash = [0u8; 32];
    assert(hash@ =~= zeros32());
    let mut i: usize = 0;
    while i < 32
        invariant
            i <= 32,
            hash@ == empty_root_after(i as nat),
        decreases 32 - i,
    {
        let mut buf: Vec<u8> = Vec::new();
        append_bytes(&mut buf, &hash);
        append_bytes(&mut buf, &hash);
        assert(buf@ =~= hash@ + hash@);
        hash = sha256(buf.as_slice());
        i += 1;
    }
    hash
}

fn hash_leaf(commitment: &[u8; 32]) -> (r: [u8; 32])
    ensures
        r@ == leaf_hash(commitment@),
{
    let mut buf: Vec<u8> = Vec::new();
    buf.push(0u8);
    append_bytes(&mut buf, commitment);
    assert(buf@ =~= seq![0u8] + commitment@);
    sha256(buf.as_slice())
}

fn hash_node(left: &[u8; 32], right: &[u8; 32]) -> (r: [u8; 32])
    ensures
        r@ == node_hash(left@, right@),
{
    let mut buf: Vec<u8> = Vec::new();
    buf.push(1u8);
    append_bytes(&mut buf, left);
    append_bytes(&mut buf, right);
    assert(buf@ =~= seq![1u8] + left@ + right@);
    sha256(buf.as_slice())
}

/// One level up the tree.
fn next_level(level: &Vec<[u8; 32]>) -> (next: Vec<[u8; 32]>)
    requires
        level@.len() >= 2,
    ensures
        node_views(next@) == level_up(node_views(level@)),
        next@.len() < level@.len(),
        next@.len() >= 1,
{
    let n = level.len();
    let half = n / 2 + n % 2;
    let ghost lv = node_views(level@);
    let mut next: Vec<[u8; 32]> = Vec::new();
    let mut j: usize = 0;
    while j < half
        invariant
            n == level@.len(),
            n >= 2,
            half == n / 2 + n % 2,
            lv == node_views(level@),
            j <= half,
            next@.len() == j,
            forall|k: int| 0 <= k < j ==> (#[trigger] next@[k])@ == level_up(lv)[k],
        decreases half - j,
    {
        let i = 2 * j;
        let left = level[i];
        let right = if i + 1 < n { level[i + 1] } else { left };
        let h = hash_node(&left, &right);
        next.push(h);
        j += 1;
    }
    assert(node_views(next@) =~= level_up(lv));
    next
}

/// Merkle root of the commitments (see `spec_merkle_root`).
fn compute_merkle_root(entries: &[CommitmentEntry]) -> (r: [u8; 32])
    ensures
        r@ == spec_merkle_root(entries@),
{
    if entries.len() == 0 {
        return empty_merkle_root();
    }
    let ghost lv = leaves(entries@);
    let mut level: Vec<[u8; 32]> = Vec::new();
    let mut i: usize = 0;
    while i < entries.len()
        invariant
            i <= entries@.len(),
            lv == leaves(entries@),
            level@.len() == i,
            forall|k: int| 0 <= k < i ==> (#[trigger] level@[k])@ == lv[k],
        decreases entries@.len() - i,
    {
        let h = hash_leaf(&entries[i].commitment);
        level.push(h);
        i += 1;
    }
    assert(node_views(level@) =~= lv);
    while level.len() > 1
        invariant
            level@.len() >= 1,
            level_root(node_views(level@)) == level_root(lv),
        decreases level@.len(),
    {
        let next = next_level(&level);
        level = next;
    }
    assert(node_views(level@)[0] == level@[0]@);
    level[0]
}

// ----- The pool -----

/// Pool state: Merkle root, commitment count, shielded balance, spent
/// nullifiers, the commitments, and whether verification keys are set.
#[derive(Clone, Debug)]
pub struct ShieldedPoolState {
    pub merkle_root: [u8; 32],
    pub commitment_count: u64,
    pub pool_balance: u64,
    pub spent_nullifiers: Vec<[u8; 32]>,
    pub commitments: Vec<CommitmentEntry>,
    pub vk_initialized: bool,
}

/// True when `n` has been spent in `s`.
pub open spec fn is_spent(s: ShieldedPoolState, n: [u8; 32]) -> bool {
    s.spent_nullifiers@.contains(n)
}

/// Entry made of `o` at `slot`.
pub open spec fn entry_of_output(e: CommitmentEntry, o: OutputCommitment, slot: u64) -> bool {
    &&& e.commitment == o.commitment
    &&& e.slot == slot
    &&& e.encrypted_note@ == o.encrypted_note@
    &&& e.ephemeral_pk == o.ephemeral_pk
}

/// True when an unshield of `r` on `s` is refused.
pub open spec fn unshield_refused(s: ShieldedPoolState, r: UnshieldRequest) -> bool {
    ||| r.merkle_root != s.merkle_root
    ||| is_spent(s, r.nullifier)
    ||| r.amount > s.pool_balance
    ||| !s.vk_initialized
    ||| r.proof@.len() != 128
}

/// What an accepted unshield of `r` makes of `before`: the nullifier spent,
/// the amount taken from the balance, nothing else changed.
pub open spec fn unshield_effect(before: ShieldedPoolState, after: ShieldedPoolState, r: UnshieldRequest) -> bool {
    &&& after.spent_nullifiers@.to_set() == before.spent_nullifiers@.to_set().insert(r.nullifier)
    &&& after.pool_balance == before.pool_balance - r.amount
    &&& after.merkle_root == before.merkle_root
    &&& after.commitment_count == before.commitment_count
    &&& after.commitments@ == before.commitments@
    &&& after.vk_initialized == before.vk_initialized
}

/// Index of the first nullifier of `ns` spent in `s`.
pub open spec fn first_spent(s: ShieldedPoolState, ns: Seq<[u8; 32]>, i: int) -> bool {
    &&& 0 <= i < ns.len()
    &&& is_spent(s, ns[i])
    &&& forall|j: int| 0 <= j < i ==> !is_spent(s, #[trigger] ns[j])
}

/// True when a transfer of `r` on `s` is refused.
pub open spec fn transfer_refused(s: ShieldedPoolState, r: TransferRequest) -> bool {
    ||| r.merkle_root != s.merkle_root
    ||| (exists|i: int| 0 <= i < r.nullifiers@.len() && is_spent(s, #[trigger] r.nullifiers@[i]))
    ||| (exists|i: int| 0 <= i < r.output_commitments@.len() && all_zero((#[trigger] r.output_commitments@[i]).commitment@))
    ||| !s.vk_initialized
    ||| r.proof@.len() != 128
}

/// The checks a shield of `r` must pass before the balance is touched: a
/// non-zero commitment, keys set, a proof of 128 bytes.
pub open spec fn shield_checks_pass(s: ShieldedPoolState, r: ShieldRequest) -> bool {
    &&& !all_zero(r.commitment@)
    &&& s.vk_initialized
    &&& r.proof@.len() == 128
}

/// True when the amount of `r` fits beside the pool's balance.
pub open spec fn shield_fits(s: ShieldedPoolState, r: ShieldRequest) -> bool {
    s.pool_balance + r.amount <= u64::MAX
}

/// The commitment of `r` appended at `slot`, the count raised, nullifiers and
/// keys unchanged.
pub open spec fn shield_appends(before: ShieldedPoolState, after: ShieldedPoolState, r: ShieldRequest, slot: u64) -> bool {
    &&& after.commitments@.len() == before.commitments@.len() + 1
    &&& after.commitments@.subrange(0, before.commitments@.len() as int) == before.commitments@
    &&& after.commitments@.last().commitment == r.commitment
    &&& after.commitments@.last().slot == slot
    &&& after.commitments@.last().encrypted_note@ == r.encrypted_note@
    &&& after.commitments@.last().ephemeral_pk == r.ephemeral_pk
    &&& after.commitment_count == before.commitment_count + 1
    &&& after.spent_nullifiers@ == before.spent_nullifiers@
    &&& after.vk_initialized == before.vk_initialized
}

/// What an accepted shield of `r` at `slot` makes of `before`: the
/// commitment appended, the amount added, the root recomputed.
pub open spec fn shield_effect(before: ShieldedPoolState, after: ShieldedPoolState, r: ShieldRequest, slot: u64) -> bool {
    &&& shield_appends(before, after, r, slot)
    &&& after.pool_balance == before.pool_balance + r.amount
    &&& after.merkle_root@ == spec_merkle_root(after.commitments@)
}

/// The error a refused shield of `r` on `s` gives.
pub open spec fn shield_error(s: ShieldedPoolState, r: ShieldRequest, e: ShieldedPoolError) -> bool {
    if all_zero(r.commitment@) {
        e is InvalidCommitment
    } else if !s.vk_initialized {
        e is VKNotInitialized
    } else if r.proof@.len() != 128 {
        e matches ShieldedPoolError::InvalidProof(m) && m@ == PROOF_LENGTH_MESSAGE@
    } else {
        e is PoolOverflow
    }
}

/// The error a refused unshield of `r` on `s` gives: the first check, in the
/// order the pool makes them, that fails.
pub open spec fn unshield_error(s: ShieldedPoolState, r: UnshieldRequest, e: ShieldedPoolError) -> bool {
    if r.merkle_root != s.merkle_root {
        e is MerkleRootMismatch
    } else if is_spent(s, r.nullifier) {
        e matches ShieldedPoolError::NullifierAlreadySpent(h) && h@ == hex_lower(r.nullifier@)
    } else if r.amount > s.pool_balance {
        e is InsufficientBalance
    } else if !s.vk_initialized {
        e is VKNotInitialized
    } else {
        e matches ShieldedPoolError::InvalidProof(m) && m@ == PROOF_LENGTH_MESSAGE@
    }
}

/// The error a refused transfer of `r` on `s` gives: the first check, in the
/// order the pool makes them, that fails; a spent nullifier is named by the
/// first one of the request.
pub open spec fn transfer_error(s: ShieldedPoolState, r: TransferRequest, e: ShieldedPoolError) -> bool {
    if r.merkle_root != s.merkle_root {
        e is MerkleRootMismatch
    } else if exists|i: int| 0 <= i < r.nullifiers@.len() && is_spent(s, #[trigger] r.nullifiers@[i]) {
        exists|i: int| first_spent(s, r.nullifiers@, i)
            && (e matches ShieldedPoolError::NullifierAlreadySpent(h) && h@ == hex_lower(r.nullifiers@[i]@))
    } else if exists|i: int| 0 <= i < r.output_commitments@.len() && all_zero((#[trigger] r.output_commitments@[i]).commitment@) {
        e is InvalidCommitment
    } else if !s.vk_initialized {
        e is VKNotInitialized
    } else {
        e matches ShieldedPoolError::InvalidProof(m) && m@ == PROOF_LENGTH_MESSAGE@
    }
}

/// What an accepted transfer of `r` at `slot` makes of `before`, with the
/// indices it returns: the nullifiers spent, the outputs appended in order
/// at consecutive indices, the balance and keys unchanged, the root
/// recomputed when anything was appended.
pub open spec fn transfer_effect(before: ShieldedPoolState, after: ShieldedPoolState, r: TransferRequest, slot: u64, indices: Seq<u64>) -> bool {
    let n = r.output_commitments@.len();
    let base = before.commitments@.len();
    &&& indices == Seq::new(n, |i: int| (before.commitment_count + i) as u64)
    &&& after.spent_nullifiers@.to_set() == before.spent_nullifiers@.to_set() + r.nullifiers@.to_set()
    &&& after.commitments@.len() == base + n
    &&& after.commitments@.subrange(0, base as int) == before.commitments@
    &&& forall|i: int| 0 <= i < n ==> entry_of_output(#[trigger] after.commitments@[base + i], r.output_commitments@[i], slot)
    &&& after.commitment_count == before.commitment_count + n
    &&& after.pool_balance == before.pool_balance
    &&& after.vk_initialized == before.vk_initialized
    &&& n > 0 ==> after.merkle_root@ == spec_merkle_root(after.commitments@)
    &&& n == 0 ==> after.merkle_root == before.merkle_root
}

/// Nullifiers `set` with `ns` added, keeping it free of repeats.
fn insert_nullifier(set: &mut Vec<[u8; 32]>, n: [u8; 32])
    ensures
        final(set)@.to_set() == old(set)@.to_set().insert(n),
        old(set)@.no_duplicates() ==> final(set)@.no_duplicates(),
{
    if !contains_nullifier(set, &n) {
        set.push(n);
        proof {
            old(set)@.lemma_push_to_set_commute(n);
        }
    } else {
        assert(old(set)@.to_set().insert(n) =~= old(set)@.to_set());
    }
}

fn contains_nullifier(set: &Vec<[u8; 32]>, n: &[u8; 32]) -> (r: bool)
    ensures
        r == set@.contains(*n),
{
    let mut i: usize = 0;
    while i < set.len()
        invariant
            i <= set@.len(),
            forall|j: int| 0 <= j < i ==> set@[j] != *n,
        decreases set@.len() - i,
    {
        if bytes32_eq(&set[i], n) {
            return true;
        }
        i += 1;
    }
    false
}

fn proof_length_error() -> (e: ShieldedPoolError)
    ensures
        e matches ShieldedPoolError::InvalidProof(m) && m@ == PROOF_LENGTH_MESSAGE@,
{
    ShieldedPoolError::InvalidProof(String::from_str(PROOF_LENGTH_MESSAGE))
}

impl ShieldedPoolState {
    /// An empty pool: the empty root, no commitments, no balance, no keys.
    pub fn new() -> (r: ShieldedPoolState)
        ensures
            r.merkle_root@ == spec_empty_merkle_root(),
            r.commitment_count == 0,
            r.pool_balance == 0,
            r.spent_nullifiers@.len() == 0,
            r.commitments@.len() == 0,
            !r.vk_initialized,
    {
        ShieldedPoolState {
            merkle_root: empty_merkle_root(),
            commitment_count: 0,
            pool_balance: 0,
            spent_nullifiers: Vec::new(),
            commitments: Vec::new(),
            vk_initialized: false,
        }
    }

    fn update_merkle_root(&mut self)
        ensures
            final(self).merkle_root@ == spec_merkle_root(old(self).commitments@),
            final(self).commitments@ == old(self).commitments@,
            final(self).spent_nullifiers@ == old(self).spent_nullifiers@,
            final(self).commitment_count == old(self).commitment_count,
            final(self).pool_balance == old(self).pool_balance,
            final(self).vk_initialized == old(self).vk_initialized,
    {
        self.merkle_root = compute_merkle_root(self.commitments.as_slice());
    }

    /// Deposits `request.amount` under `request.commitment` and returns the
    /// commitment's index. Refused, with nothing changed, for a zero
    /// commitment, missing keys or a proof that is not 128 bytes. When the
    /// balance would overflow the commitment stays recorded, the root is not
    /// updated, and `PoolOverflow` is returned.
    pub fn shield(&mut self, request: &ShieldRequest, current_slot: u64) -> (r: Result<u64, ShieldedPoolError>)
        requires
            old(self).commitment_count < u64::MAX,
        ensures
            r is Ok <==> shield_checks_pass(*old(self), *request) && shield_fits(*old(self), *request),
            r matches Err(e) ==> shield_error(*old(self), *request, e),
            !shield_checks_pass(*old(self), *request) ==> *final(self) == *old(self),
            r is Ok ==> r == Ok::<u64, ShieldedPoolError>(old(self).commitment_count)
                && shield_effect(*old(self), *final(self), *request, current_slot),
            shield_checks_pass(*old(self), *request) && !shield_fits(*old(self), *request) ==> {
                &&& shield_appends(*old(self), *final(self), *request, current_slot)
                &&& final(self).pool_balance == old(self).pool_balance
                &&& final(self).merkle_root == old(self).merkle_root
            },
    {
        if is_zero_32(&request.commitment) {
            return Err(ShieldedPoolError::InvalidCommitment);
        }
        if !self.vk_initialized {
            return Err(ShieldedPoolError::VKNotInitialized);
        }
        if request.proof.len() != PROOF_LEN {
            return Err(proof_length_error());
        }
        let index = self.commitment_count;
        self.commitments.push(CommitmentEntry {
            commitment: request.commitment,
            slot: current_slot,
            encrypted_note: copy_bytes(request.encrypted_note.as_slice()),
            ephemeral_pk: request.ephemeral_pk,
        });
        assert(self.commitments@.subrange(0, old(self).commitments@.len() as int) =~= old(self).commitments@);
        self.commitment_count = self.commitment_count + 1;
        match self.pool_balance.checked_add(request.amount) {
            Some(b) => {
                self.pool_balance = b;
            },
            None => {
                return Err(ShieldedPoolError::PoolOverflow);
            },
        }
        self.update_merkle_root();
        Ok(index)
    }

    /// Withdraws `request.amount`, spending `request.nullifier`. Checks, in
    /// order: the root the proof was made against, the nullifier, the
    /// balance, the keys and the proof's length; the first that fails is
    /// returned with nothing changed.
    pub fn unshield(&mut self, request: &UnshieldRequest) -> (r: Result<u64, ShieldedPoolError>)
        ensures
            r is Err <==> unshield_refused(*old(self), *request),
            r is Err ==> *final(self) == *old(self),
            r matches Err(e) ==> unshield_error(*old(self), *request, e),
            r is Ok ==> r == Ok::<u64, ShieldedPoolError>(request.amount) && unshield_effect(*old(self), *final(self), *request),
            old(self).spent_nullifiers@.no_duplicates() ==> final(self).spent_nullifiers@.no_duplicates(),
    {
        if !bytes32_eq(&request.merkle_root, &self.merkle_root) {
            return Err(ShieldedPoolError::MerkleRootMismatch);
        }
        if contains_nullifier(&self.spent_nullifiers, &request.nullifier) {
            return Err(ShieldedPoolError::NullifierAlreadySpent(hex_encode(&request.nullifier)));
        }
        if request.amount > self.pool_balance {
            return Err(ShieldedPoolError::InsufficientBalance);
        }
        if !self.vk_initialized {
            return Err(ShieldedPoolError::VKNotInitialized);
        }
        if request.proof.len() != PROOF_LEN {
            return Err(proof_length_error());
        }
        insert_nullifier(&mut self.spent_nullifiers, request.nullifier);
        self.pool_balance = self.pool_balance - request.amount;
        Ok(request.amount)
    }

    /// Spends every nullifier of the request and appends its outputs,
    /// returning their indices. Checks, in order: the root, each nullifier
    /// (the first spent one is named), each output commitment, the keys and
    /// the proof's length; the first that fails is returned with nothing
    /// changed. The root is recomputed after each output.
    pub fn transfer(&mut self, request: &TransferRequest, current_slot: u64) -> (r: Result<Vec<u64>, ShieldedPoolError>)
        requires
            old(self).commitment_count + request.output_commitments@.len() <= u64::MAX,
        ensures
            r is Err <==> transfer_refused(*old(self), *request),
            r is Err ==> *final(self) == *old(self),
            r matches Err(e) ==> transfer_error(*old(self), *request, e),
            r matches Ok(indices) ==> transfer_effect(*old(self), *final(self), *request, current_slot, indices@),
            old(self).spent_nullifiers@.no_duplicates() ==> final(self).spent_nullifiers@.no_duplicates(),
    {
        if !bytes32_eq(&request.merkle_root, &self.merkle_root) {
            return Err(ShieldedPoolError::MerkleRootMismatch);
        }
        let mut i: usize = 0;
        while i < request.nullifiers.len()
            invariant
                i <= request.nullifiers@.len(),
                *self == *old(self),
                request.merkle_root == self.merkle_root,
                forall|j: int| 0 <= j < i ==> !is_spent(*self, #[trigger] request.nullifiers@[j]),
            decreases request.nullifiers@.len() - i,
        {
            if contains_nullifier(&self.spent_nullifiers, &request.nullifiers[i]) {
                assert(first_spent(*self, request.nullifiers@, i as int));
                let e = ShieldedPoolError::NullifierAlreadySpent(hex_encode(&request.nullifiers[i]));
                proof {
                    assert forall|k: int| first_spent(*self, request.nullifiers@, k) implies k == i by {
                        if k < i {
                            assert(!is_spent(*self, request.nullifiers@[k]));
                        } else if k > i {
                            assert(!is_spent(*self, request.nullifiers@[i as int]));
                        }
                    }
                }
                return Err(e);
            }
            i += 1;
        }
        let mut k: usize = 0;
        while k < request.output_commitments.len()
            invariant
                k <= request.output_commitments@.len(),
                *self == *old(self),
                request.merkle_root == self.merkle_root,
                forall|j: int| 0 <= j < request.nullifiers@.len() ==> !is_spent(*self, #[trigger] request.nullifiers@[j]),
                forall|j: int| 0 <= j < k ==> !all_zero((#[trigger] request.output_commitments@[j]).commitment@),
            decreases request.output_commitments@.len() - k,
        {
            if is_zero_32(&request.output_commitments[k].commitment) {
                return Err(ShieldedPoolError::InvalidCommitment);
            }
            k += 1;
        }
        if !self.vk_initialized {
            return Err(ShieldedPoolError::VKNotInitialized);
        }
        if request.proof.len() != PROOF_LEN {
            return Err(proof_length_error());
        }
        let ghost before = *self;
        let mut i: usize = 0;
        while i < request.nullifiers.len()
            invariant
                i <= request.nullifiers@.len(),
                self.spent_nullifiers@.to_set() == before.spent_nullifiers@.to_set() + request.nullifiers@.subrange(0, i as int).to_set(),
                before.spent_nullifiers@.no_duplicates() ==> self.spent_nullifiers@.no_duplicates(),
                self.commitments@ == before.commitments@,
                self.commitment_count == before.commitment_count,
                self.pool_balance == before.pool_balance,
                self.merkle_root == before.merkle_root,
                self.vk_initialized == before.vk_initialized,
            decreases request.nullifiers@.len() - i,
        {
            insert_nullifier(&mut self.spent_nullifiers, request.nullifiers[i]);
            proof {
                assert(request.nullifiers@.subrange(0, i + 1)
                    =~= request.nullifiers@.subrange(0, i as int).push(request.nullifiers@[i as int]));
                request.nullifiers@.subrange(0, i as int).lemma_push_to_set_commute(request.nullifiers@[i as int]);
            }
            assert(self.spent_nullifiers@.to_set() =~= before.spent_nullifiers@.to_set()
                + request.nullifiers@.subrange(0, i + 1).to_set());
            i += 1;
        }
        assert(request.nullifiers@.subrange(0, request.nullifiers@.len() as int) =~= request.nullifiers@);
        let ghost mid = *self;
        let n = request.output_commitments.len();
        let mut indices: Vec<u64> = Vec::new();
        let mut k: usize = 0;
        while k < n
            invariant
                n == request.output_commitments@.len(),
                k <= n,
                mid.commitment_count + n <= u64::MAX,
                self.commitments@.len() == mid.commitments@.len() + k,
                self.commitments@.subrange(0, mid.commitments@.len() as int) == mid.commitments@,
                forall|j: int| 0 <= j < k ==> entry_of_output(#[trigger] self.commitments@[mid.commitments@.len() + j],
                    request.output_commitments@[j], current_slot),
                self.commitment_count == mid.commitment_count + k,
                indices@ == Seq::new(k as nat, |j: int| (mid.commitment_count + j) as u64),
                self.spent_nullifiers@ == mid.spent_nullifiers@,
                self.pool_balance == mid.pool_balance,
                self.vk_initialized == mid.vk_initialized,
                k > 0 ==> self.merkle_root@ == spec_merkle_root(self.commitments@),
                k == 0 ==> self.merkle_root == mid.merkle_root,
            decreases n - k,
        {
            let index = self.commitment_count;
            let out = &request.output_commitments[k];
            let ghost prev = self.commitments@;
            self.commitments.push(CommitmentEntry {
                commitment: out.commitment,
                slot: current_slot,
                encrypted_note: copy_bytes(out.encrypted_note.as_slice()),
                ephemeral_pk: out.ephemeral_pk,
            });
            assert(self.commitments@.subrange(0, mid.commitments@.len() as int)
                =~= prev.subrange(0, mid.commitments@.len() as int));
            self.commitment_count = self.commitment_count + 1;
            self.update_merkle_root();
            indices.push(index);
            assert(indices@ =~= Seq::new((k + 1) as nat, |j: int| (mid.commitment_count + j) as u64));
            k += 1;
        }
        Ok(indices)
    }

    /// True when `nullifier` has been spent.
    pub fn is_nullifier_spent(&self, nullifier: &[u8; 32]) -> (r: bool)
        ensures
            r == is_spent(*self, *nullifier),
    {
        contains_nullifier(&self.spent_nullifiers, nullifier)
    }

    /// The commitments from index `from_index` on (none past the end).
    pub fn get_commitments_from(&self, from_index: u64) -> (r: &[CommitmentEntry])
        ensures
            from_index >= self.commitments@.len() ==> r@.len() == 0,
            from_index < self.commitments@.len() ==> r@ == self.commitments@.subrange(from_index as int, self.commitments@.len() as int),
    {
        let len = self.commitments.len();
        if from_index >= len as u64 {
            return vstd::slice::slice_subrange(self.commitments.as_slice(), len, len);
        }
        vstd::slice::slice_subrange(self.commitments.as_slice(), from_index as usize, len)
    }
}

impl Default for ShieldedPoolState {
    fn default() -> (r: ShieldedPoolState)
        ensures
            r.merkle_root@ == spec_empty_merkle_root(),
            r.commitment_count == 0,
            r.pool_balance == 0,
            r.spent_nullifiers@.len() == 0,
            r.commitments@.len() == 0,
            !r.vk_initialized,
    {
        ShieldedPoolState::new()
    }
}

/// Each node one level up hashes the tag 0x01, a node and its right
/// neighbour; only a last node without a neighbour is paired with itself.
/// The level above n nodes has n/2 nodes, rounded up.
pub proof fn lemma_level_up_pairs_neighbours(level: Seq<Seq<u8>>, i: int)
    requires
        0 <= i < level_up(level).len(),
    ensures
        level_up(level).len() == (level.len() + 1) / 2,
        2 * i + 1 < level.len() ==> level_up(level)[i] == sha256_spec(seq![1u8] + level[2 * i] + level[2 * i + 1]),
        2 * i + 1 == level.len() ==> level_up(level)[i] == sha256_spec(seq![1u8] + level[2 * i] + level[2 * i]),
{
}

/// The root over two commitments a and b is
/// H(0x01 || H(0x00 || a) || H(0x00 || b)): both notes enter it, in order.
pub proof fn lemma_two_leaf_root(entries: Seq<CommitmentEntry>)
    requires
        entries.len() == 2,
    ensures
        spec_merkle_root(entries) == sha256_spec(seq![1u8]
            + sha256_spec(seq![0u8] + entries[0].commitment@)
            + sha256_spec(seq![0u8] + entries[1].commitment@)),
{
    let l = leaves(entries);
    let up = level_up(l);
    assert(up.len() == 1);
    assert(level_root(up) == up[0]);
    assert(level_root(l) == level_root(up));
}

/// A nullifier is never spent twice: after an accepted unshield, a second
/// unshield of the same request is refused.
pub proof fn lemma_unshield_not_replayable(before: ShieldedPoolState, after: ShieldedPoolState, r: UnshieldRequest)
    requires
        !unshield_refused(before, r),
        unshield_effect(before, after, r),
    ensures
        unshield_refused(after, r),
        is_spent(after, r.nullifier),
{
    assert(after.spent_nullifiers@.to_set().contains(r.nullifier));
}

/// After an accepted transfer every nullifier it names is spent, so no
/// transfer naming one of them is accepted again.
pub proof fn lemma_transfer_spends_nullifiers(before: ShieldedPoolState, after: ShieldedPoolState, r: TransferRequest, r2: TransferRequest, i: int)
    requires
        after.spent_nullifiers@.to_set() == before.spent_nullifiers@.to_set() + r.nullifiers@.to_set(),
        0 <= i < r.nullifiers@.len(),
        r2.nullifiers@.contains(r.nullifiers@[i]),
    ensures
        is_spent(after, r.nullifiers@[i]),
        transfer_refused(after, r2),
{
    assert(r.nullifiers@.to_set().contains(r.nullifiers@[i]));
    assert(after.spent_nullifiers@.to_set().contains(r.nullifiers@[i]));
    let j = choose|j: int| 0 <= j < r2.nullifiers@.len() && r2.nullifiers@[j] == r.nullifiers@[i];
    assert(is_spent(after, r2.nullifiers@[j]));
}

// ----- The pool contract -----

/// Why the pool contract refused a call before or inside the pool.
#[derive(Clone, Debug)]
pub enum PoolCallError {
    /// The pool is paused.
    Paused,
    /// A call is already under way.
    ReentrantCall,
    /// The arguments did not parse as a request.
    InvalidRequest,
    /// The pool refused the request.
    Rejected(ShieldedPoolError),
}

/// The pool contract's storage: its admin (once initialized), the pause
/// flag, the reentrancy flag and the pool.
#[derive(Clone, Debug)]
pub struct ShieldedPoolContract {
    pub owner: Option<[u8; 32]>,
    pub paused: bool,
    pub in_call: bool,
    pub pool: ShieldedPoolState,
}

impl ShieldedPoolContract {
    /// True when `caller` is the admin set at initialization.
    pub open spec fn is_admin(&self, caller: [u8; 32]) -> bool {
        self.owner == Some(caller)
    }

    /// The admin, pause and reentrancy flags of `a` and `b` agree.
    pub open spec fn same_flags(a: ShieldedPoolContract, b: ShieldedPoolContract) -> bool {
        &&& a.owner == b.owner
        &&& a.paused == b.paused
        &&& a.in_call == b.in_call
    }

    /// A contract never initialized: no admin, not paused, an empty pool.
    pub fn new() -> (r: ShieldedPoolContract)
        ensures
            r.owner is None,
            !r.paused && !r.in_call,
            r.pool.merkle_root@ == spec_empty_merkle_root(),
            r.pool.commitment_count == 0,
            r.pool.pool_balance == 0,
            r.pool.spent_nullifiers@.len() == 0,
            r.pool.commitments@.len() == 0,
            !r.pool.vk_initialized,
    {
        ShieldedPoolContract { owner: None, paused: false, in_call: false, pool: ShieldedPoolState::new() }
    }

    /// Sets the admin and an empty pool whose keys are marked ready. A second
    /// call changes nothing. Returns 0 either way.
    pub fn initialize(&mut self, admin: [u8; 32]) -> (r: u32)
        ensures
            r == 0,
            old(self).owner is Some ==> *final(self) == *old(self),
            old(self).owner is None ==> {
                &&& final(self).owner == Some(admin)
                &&& final(self).paused == old(self).paused
                &&& final(self).in_call == old(self).in_call
                &&& final(self).pool.merkle_root@ == spec_empty_merkle_root()
                &&& final(self).pool.commitment_count == 0
                &&& final(self).pool.pool_balance == 0
                &&& final(self).pool.spent_nullifiers@.len() == 0
                &&& final(self).pool.commitments@.len() == 0
                &&& final(self).pool.vk_initialized
            },
    {
        if self.owner.is_some() {
            return 0;
        }
        self.owner = Some(admin);
        let mut pool = ShieldedPoolState::new();
        pool.vk_initialized = true;
        self.pool = pool;
        0
    }

    /// Pauses the pool: 0 for the admin, 1 (nothing changed) for anyone else.
    pub fn pause(&mut self, caller: [u8; 32]) -> (r: u32)
        ensures
            old(self).is_admin(caller) ==> r == 0 && *final(self) == (ShieldedPoolContract { paused: true, ..*old(self) }),
            !old(self).is_admin(caller) ==> r == 1 && *final(self) == *old(self),
    {
        if !self.admin_matches(&caller) {
            return 1;
        }
        self.paused = true;
        0
    }

    /// Lifts the pause: 0 for the admin, 1 (nothing changed) for anyone else.
    pub fn unpause(&mut self, caller: [u8; 32]) -> (r: u32)
        ensures
            old(self).is_admin(caller) ==> r == 0 && *final(self) == (ShieldedPoolContract { paused: false, ..*old(self) }),
            !old(self).is_admin(caller) ==> r == 1 && *final(self) == *old(self),
    {
        if !self.admin_matches(&caller) {
            return 1;
        }
        self.paused = false;
        0
    }

    fn admin_matches(&self, caller: &[u8; 32]) -> (r: bool)
        ensures
            r == self.is_admin(*caller),
    {
        match &self.owner {
            Some(owner) => bytes32_eq(owner, caller),
            None => false,
        }
    }

    /// The pool's current Merkle root.
    pub fn get_merkle_root(&self) -> (r: [u8; 32])
        ensures
            r == self.pool.merkle_root,
    {
        self.pool.merkle_root
    }

    /// 1 when `nullifier` has been spent, else 0.
    pub fn check_nullifier(&self, nullifier: &[u8; 32]) -> (r: u8)
        ensures
            r == (if is_spent(self.pool, *nullifier) { 1u8 } else { 0u8 }),
    {
        if self.pool.is_nullifier_spent(nullifier) { 1 } else { 0 }
    }

    /// The commitments from index `from_index` on.
    pub fn get_commitments(&self, from_index: u64) -> (r: &[CommitmentEntry])
        ensures
            from_index >= self.pool.commitments@.len() ==> r@.len() == 0,
            from_index < self.pool.commitments@.len()
                ==> r@ == self.pool.commitments@.subrange(from_index as int, self.pool.commitments@.len() as int),
    {
        self.pool.get_commitments_from(from_index)
    }

    /// Shield entry point, with the request as parsed from the call's
    /// arguments (`None` when they did not parse). Refused while paused or
    /// inside another call; the pool's state is kept only when the pool
    /// accepts, and the new commitment's index is returned.
    pub fn shield(&mut self, request: &Option<ShieldRequest>, slot: u64) -> (r: Result<u64, PoolCallError>)
        requires
            old(self).pool.commitment_count < u64::MAX,
        ensures
            old(self).paused ==> (r matches Err(PoolCallError::Paused)),
            !old(self).paused && old(self).in_call ==> (r matches Err(PoolCallError::ReentrantCall)),
            !old(self).paused && !old(self).in_call && request is None ==> (r matches Err(PoolCallError::InvalidRequest)),
            r is Err ==> *final(self) == *old(self),
            Self::same_flags(*final(self), *old(self)),
            !old(self).paused && !old(self).in_call && request is Some ==> {
                let req = request->0;
                &&& (r is Ok <==> shield_checks_pass(old(self).pool, req) && shield_fits(old(self).pool, req))
                &&& (r matches Err(PoolCallError::Rejected(e)) ==> shield_error(old(self).pool, req, e))
                &&& (r is Err ==> r matches Err(PoolCallError::Rejected(_)))
                &&& (r is Ok ==> r == Ok::<u64, PoolCallError>(old(self).pool.commitment_count)
                    && shield_effect(old(self).pool, final(self).pool, req, slot))
            },
    {
        if self.paused {
            return Err(PoolCallError::Paused);
        }
        if self.in_call {
            return Err(PoolCallError::ReentrantCall);
        }
        match request {
            None => Err(PoolCallError::InvalidRequest),
            Some(req) => {
                if !is_zero_32(&req.commitment) && self.pool.vk_initialized && req.proof.len() == PROOF_LEN
                    && self.pool.pool_balance.checked_add(req.amount).is_none() {
                    return Err(PoolCallError::Rejected(ShieldedPoolError::PoolOverflow));
                }
                match self.pool.shield(req, slot) {
                    Ok(index) => Ok(index),
                    Err(e) => Err(PoolCallError::Rejected(e)),
                }
            },
        }
    }

    /// Unshield entry point, with the request as parsed (`None` when the
    /// arguments did not parse). Refused while paused or inside another
    /// call; otherwise the pool decides, and the amount is returned.
    pub fn unshield(&mut self, request: &Option<UnshieldRequest>) -> (r: Result<u64, PoolCallError>)
        ensures
            old(self).paused ==> (r matches Err(PoolCallError::Paused)),
            !old(self).paused && old(self).in_call ==> (r matches Err(PoolCallError::ReentrantCall)),
            !old(self).paused && !old(self).in_call && request is None ==> (r matches Err(PoolCallError::InvalidRequest)),
            r is Err ==> *final(self) == *old(self),
            Self::same_flags(*final(self), *old(self)),
            !old(self).paused && !old(self).in_call && request is Some ==> {
                let req = request->0;
                &&& (r is Ok <==> !unshield_refused(old(self).pool, req))
                &&& (r matches Err(PoolCallError::Rejected(e)) ==> unshield_error(old(self).pool, req, e))
                &&& (r is Err ==> r matches Err(PoolCallError::Rejected(_)))
                &&& (r is Ok ==> r == Ok::<u64, PoolCallError>(req.amount)
                    && unshield_effect(old(self).pool, final(self).pool, req))
            },
    {
        if self.paused {
            return Err(PoolCallError::Paused);
        }
        if self.in_call {
            return Err(PoolCallError::ReentrantCall);
        }
        match request {
            None => Err(PoolCallError::InvalidRequest),
            Some(req) => match self.pool.unshield(req) {
                Ok(amount) => Ok(amount),
                Err(e) => Err(PoolCallError::Rejected(e)),
            },
        }
    }

    /// Transfer entry point, with the request as parsed (`None` when the
    /// arguments did not parse). Refused while paused or inside another
    /// call; otherwise the pool decides, and the outputs' indices are
    /// returned.
    pub fn transfer(&mut self, request: &Option<TransferRequest>, slot: u64) -> (r: Result<Vec<u64>, PoolCallError>)
        requires
            request matches Some(req) ==> old(self).pool.commitment_count + req.output_commitments@.len() <= u64::MAX,
        ensures
            old(self).paused ==> (r matches Err(PoolCallError::Paused)),
            !old(self).paused && old(self).in_call ==> (r matches Err(PoolCallError::ReentrantCall)),
            !old(self).paused && !old(self).in_call && request is None ==> (r matches Err(PoolCallError::InvalidRequest)),
            r is Err ==> *final(self) == *old(self),
            Self::same_flags(*final(self), *old(self)),
            !old(self).paused && !old(self).in_call && request is Some ==> {
                let req = request->0;
                &&& (r is Ok <==> !transfer_refused(old(self).pool, req))
                &&& (r matches Err(PoolCallError::Rejected(e)) ==> transfer_error(old(self).pool, req, e))
                &&& (r is Err ==> r matches Err(PoolCallError::Rejected(_)))
                &&& (r matches Ok(indices) ==> transfer_effect(old(self).pool, final(self).pool, req, slot, indices@))
            },
    {
        if self.paused {
            return Err(PoolCallError::Paused);
        }
        if self.in_call {
            return Err(PoolCallError::ReentrantCall);
        }
        match request {
            None => Err(PoolCallError::InvalidRequest),
            Some(req) => match self.pool.transfer(req, slot) {
                Ok(indices) => Ok(indices),
                Err(e) => Err(PoolCallError::Rejected(e)),
            },
        }
    }
}


} // verus!
