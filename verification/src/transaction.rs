//! Transactions: instructions, the message they form, and its hash.
use vstd::prelude::*;
use crate::account::Pubkey;
use crate::bytes::{u64_le, u64_to_le, append_bytes};
use crate::crypto::sha256_spec;
use crate::text::{decimal, u64_to_decimal};

verus! {

broadcast use vstd::array::group_array_axioms;

/// Largest instruction data accepted, in bytes.
pub const MAX_INSTRUCTION_DATA: usize = 10_240;

/// One call of a program.
#[derive(Debug, Clone)]
pub struct Instruction {
    pub program_id: Pubkey,
    pub accounts: Vec<Pubkey>,
    pub data: Vec<u8>,
}

/// Instructions and the recent block hash they were made against.
#[derive(Debug, Clone)]
pub struct Message {
    pub instructions: Vec<Instruction>,
    pub recent_blockhash: crate::hash::Hash,
}

/// Kind of transaction.
#[derive(Debug, Clone, Copy, PartialEq, Eq, Structural)]
pub enum TransactionType {
    Native,
    Evm,
}

impl Default for TransactionType {
    fn default() -> (r: TransactionType)
        ensures
            r == TransactionType::Native,
    {
        TransactionType::Native
    }
}

/// A signed message.
#[derive(Debug, Clone)]
pub struct Transaction {
    pub signatures: Vec<[u8; 64]>,
    pub message: Message,
    pub tx_type: TransactionType,
}

/// Concatenation of the keys' bytes.
pub open spec fn keys_bytes(s: Seq<Pubkey>) -> Seq<u8>
    decreases s.len(),
{
    if s.len() == 0 { Seq::empty() } else { keys_bytes(s.drop_last()) + s.last().0@ }
}

/// Canonical bytes of an instruction: program id, account count (u64 LE),
/// the accounts, data length (u64 LE), the data.
pub open spec fn instruction_bytes(ix: Instruction) -> Seq<u8> {
    ix.program_id.0@ + u64_le(ix.accounts@.len() as u64) + keys_bytes(ix.accounts@)
        + u64_le(ix.data@.len() as u64) + ix.data@
}

/// Concatenation of the instructions' canonical bytes.
pub open spec fn instructions_bytes(s: Seq<Instruction>) -> Seq<u8>
    decreases s.len(),
{
    if s.len() == 0 { Seq::empty() } else { instructions_bytes(s.drop_last()) + instruction_bytes(s.last()) }
}

/// Canonical bytes of a message: instruction count (u64 LE), the
/// instructions, the recent block hash.
pub open spec fn message_bytes(m: Message) -> Seq<u8> {
    u64_le(m.instructions@.len() as u64) + instructions_bytes(m.instructions@) + m.recent_blockhash.0@
}

/// The sender: the first account of the first instruction, or the zero key.
pub open spec fn spec_sender(m: Message) -> Pubkey {
    if m.instructions@.len() > 0 && m.instructions@[0].accounts@.len() > 0 {
        m.instructions@[0].accounts@[0]
    } else {
        Pubkey(vstd::array::spec_array_fill_for_copy_type::<u8, 32>(0u8))
    }
}

/// Index of the first instruction whose data is too large, if any.
pub open spec fn first_oversized(s: Seq<Instruction>, i: int) -> Option<int>
    decreases s.len() - i,
{
    if i < 0 || i >= s.len() {
        None
    } else if s[i].data@.len() > MAX_INSTRUCTION_DATA {
        Some(i)
    } else {
        first_oversized(s, i + 1)
    }
}

/// The message for instruction `i` of `s` carrying too much data.
pub open spec fn oversized_text(s: Seq<Instruction>, i: int) -> Seq<char> {
    "Instruction "@ + decimal(i as nat) + " data too large: "@ + decimal(s[i].data@.len())
        + " bytes (max "@ + decimal(MAX_INSTRUCTION_DATA as nat) + ")"@
}

/// Two instructions with the same program, accounts and data.
pub open spec fn same_instruction(a: Instruction, b: Instruction) -> bool {
    a.program_id == b.program_id && a.accounts@ == b.accounts@ && a.data@ == b.data@
}

/// Two transactions with the same content.
pub open spec fn same_tx(a: Transaction, b: Transaction) -> bool {
    &&& a.signatures@ == b.signatures@
    &&& a.message.recent_blockhash == b.message.recent_blockhash
    &&& a.message.instructions@.len() == b.message.instructions@.len()
    &&& forall|i: int| 0 <= i < a.message.instructions@.len() ==>
        #[trigger] same_instruction(a.message.instructions@[i], b.message.instructions@[i])
    &&& a.tx_type == b.tx_type
}

proof fn lemma_same_instructions_bytes(a: Seq<Instruction>, b: Seq<Instruction>)
    requires
        a.len() == b.len(),
        forall|i: int| 0 <= i < a.len() ==> #[trigger] same_instruction(a[i], b[i]),
    ensures
        instructions_bytes(a) == instructions_bytes(b),
    decreases a.len(),
{
    if a.len() > 0 {
        let (ta, tb) = (a.drop_last(), b.drop_last());
        assert forall|i: int| 0 <= i < ta.len() implies #[trigger] same_instruction(ta[i], tb[i]) by {
            assert(ta[i] == a[i] && tb[i] == b[i]);
        }
        lemma_same_instructions_bytes(ta, tb);
        assert(same_instruction(a[a.len() - 1], b[b.len() - 1]));
    }
}

/// Transactions with the same content have the same message bytes (hence hash) and sender.
pub proof fn lemma_same_tx(a: Transaction, b: Transaction)
    requires
        same_tx(a, b),
    ensures
        message_bytes(a.message) == message_bytes(b.message),
        spec_sender(a.message) == spec_sender(b.message),
{
    lemma_same_instructions_bytes(a.message.instructions@, b.message.instructions@);
    if a.message.instructions@.len() > 0 {
        assert(same_instruction(a.message.instructions@[0], b.message.instructions@[0]));
    }
}

fn copy_bytes(v: &Vec<u8>) -> (r: Vec<u8>)
    ensures
        r@ == v@,
{
    let mut out: Vec<u8> = Vec::new();
    append_bytes(&mut out, v.as_slice());
    out
}

fn copy_keys(v: &Vec<Pubkey>) -> (r: Vec<Pubkey>)
    ensures
        r@ == v@,
{
    let mut out: Vec<Pubkey> = Vec::new();
    let mut i: usize = 0;
    while i < v.len()
        invariant
            i <= v@.len(),
            out@ == v@.subrange(0, i as int),
        decreases v@.len() - i,
    {
        out.push(v[i]);
        proof {
            assert(v@.subrange(0, i + 1) =~= v@.subrange(0, i as int).push(v@[i as int]));
        }
        i += 1;
    }
    proof {
        assert(v@.subrange(0, v@.len() as int) =~= v@);
    }
    out
}

impl Instruction {
    /// A copy with the same content.
    pub fn duplicate(&self) -> (r: Instruction)
        ensures
            same_instruction(r, *self),
    {
        Instruction { program_id: self.program_id, accounts: copy_keys(&self.accounts), data: copy_bytes(&self.data) }
    }
}

impl Transaction {
    /// A copy with the same content.
    pub fn duplicate(&self) -> (r: Transaction)
        ensures
            same_tx(r, *self),
    {
        let mut sigs: Vec<[u8; 64]> = Vec::new();
        let mut i: usize = 0;
        while i < self.signatures.len()
            invariant
                i <= self.signatures@.len(),
                sigs@ == self.signatures@.subrange(0, i as int),
            decreases self.signatures@.len() - i,
        {
            sigs.push(self.signatures[i]);
            proof {
                assert(self.signatures@.subrange(0, i + 1) =~= self.signatures@.subrange(0, i as int).push(self.signatures@[i as int]));
            }
            i += 1;
        }
        let mut ixs: Vec<Instruction> = Vec::new();
        let mut j: usize = 0;
        while j < self.message.instructions.len()
            invariant
                j <= self.message.instructions@.len(),
                ixs@.len() == j,
                forall|k: int| 0 <= k < j ==> #[trigger] same_instruction(ixs@[k], self.message.instructions@[k]),
            decreases self.message.instructions@.len() - j,
        {
            ixs.push(self.message.instructions[j].duplicate());
            j += 1;
        }
        proof {
            assert(self.signatures@.subrange(0, self.signatures@.len() as int) =~= self.signatures@);
            assert forall|k: int| 0 <= k < ixs@.len() implies #[trigger] same_instruction(ixs@[k], self.message.instructions@[k]) by {}
        }
        let r = Transaction {
            signatures: sigs,
            message: Message { instructions: ixs, recent_blockhash: self.message.recent_blockhash },
            tx_type: self.tx_type,
        };
        proof {
            assert forall|k: int| 0 <= k < r.message.instructions@.len() implies
                #[trigger] same_instruction(r.message.instructions@[k], self.message.instructions@[k]) by {
                assert(same_instruction(ixs@[k], self.message.instructions@[k]));
            }
        }
        r
    }
}

impl Message {
    /// A message of `instructions` against `recent_blockhash`.
    pub fn new(instructions: Vec<Instruction>, recent_blockhash: crate::hash::Hash) -> (r: Message)
        ensures
            r.instructions@ == instructions@,
            r.recent_blockhash == recent_blockhash,
    {
        Message { instructions, recent_blockhash }
    }

    /// The canonical bytes (see `message_bytes`).
    pub fn serialize(&self) -> (r: Vec<u8>)
        ensures
            r@ == message_bytes(*self),
    {
        let mut out: Vec<u8> = Vec::new();
        let n = u64_to_le(self.instructions.len() as u64);
        append_bytes(&mut out, &n);
        let mut i: usize = 0;
        while i < self.instructions.len()
            invariant
                i <= self.instructions@.len(),
                out@ == u64_le(self.instructions@.len() as u64) + instructions_bytes(self.instructions@.subrange(0, i as int)),
            decreases self.instructions@.len() - i,
        {
            let ix = &self.instructions[i];
            let ghost before = out@;
            append_bytes(&mut out, &ix.program_id.0);
            let na = u64_to_le(ix.accounts.len() as u64);
            append_bytes(&mut out, &na);
            let ghost mid = out@;
            let mut j: usize = 0;
            while j < ix.accounts.len()
                invariant
                    j <= ix.accounts@.len(),
                    out@ == mid + keys_bytes(ix.accounts@.subrange(0, j as int)),
                decreases ix.accounts@.len() - j,
            {
                append_bytes(&mut out, &ix.accounts[j].0);
                proof {
                    assert(ix.accounts@.subrange(0, j + 1).drop_last() =~= ix.accounts@.subrange(0, j as int));
                    assert(mid + keys_bytes(ix.accounts@.subrange(0, j + 1)) =~= mid + keys_bytes(ix.accounts@.subrange(0, j as int)) + ix.accounts@[j as int].0@);
                }
                j += 1;
            }
            proof {
                assert(ix.accounts@.subrange(0, ix.accounts@.len() as int) =~= ix.accounts@);
            }
            let nd = u64_to_le(ix.data.len() as u64);
            append_bytes(&mut out, &nd);
            append_bytes(&mut out, ix.data.as_slice());
            proof {
                assert(self.instructions@.subrange(0, i + 1).drop_last() =~= self.instructions@.subrange(0, i as int));
                assert(out@ =~= before + instruction_bytes(*ix));
                assert(out@ =~= u64_le(self.instructions@.len() as u64) + instructions_bytes(self.instructions@.subrange(0, i + 1)));
            }
            i += 1;
        }
        append_bytes(&mut out, &self.recent_blockhash.0);
        proof {
            assert(self.instructions@.subrange(0, self.instructions@.len() as int) =~= self.instructions@);
            assert(out@ =~= message_bytes(*self));
        }
        out
    }
}

impl Transaction {
    /// An unsigned native transaction carrying `message`.
    pub fn new(message: Message) -> (r: Transaction)
        ensures
            r.signatures@.len() == 0,
            r.message == message,
            r.tx_type == TransactionType::Native,
    {
        Transaction { signatures: Vec::new(), message, tx_type: TransactionType::Native }
    }

    /// SHA-256 of the message's canonical bytes.
    pub fn hash(&self) -> (r: crate::hash::Hash)
        ensures
            r.0@ == sha256_spec(message_bytes(self.message)),
    {
        let bytes = self.message.serialize();
        crate::hash::Hash::hash(bytes.as_slice())
    }

    /// The sender (see `spec_sender`).
    pub fn sender(&self) -> (r: Pubkey)
        ensures
            r == spec_sender(self.message),
    {
        if self.message.instructions.len() > 0 && self.message.instructions[0].accounts.len() > 0 {
            self.message.instructions[0].accounts[0]
        } else {
            Pubkey([0u8; 32])
        }
    }

    /// Checks every instruction's data size; the first oversized instruction
    /// gives the error.
    pub fn validate_structure(&self) -> (r: Result<(), String>)
        ensures
            r is Ok <==> first_oversized(self.message.instructions@, 0) is None,
            first_oversized(self.message.instructions@, 0) matches Some(i)
                ==> (r matches Err(m) && m@ == oversized_text(self.message.instructions@, i)),
    {
        let ixs = &self.message.instructions;
        let mut i: usize = 0;
        while i < ixs.len()
            invariant
                i <= ixs@.len(),
                ixs@ == self.message.instructions@,
                first_oversized(ixs@, 0) == first_oversized(ixs@, i as int),
            decreases ixs@.len() - i,
        {
            let n = ixs[i].data.len();
            if n > MAX_INSTRUCTION_DATA {
                assert(first_oversized(ixs@, i as int) == Some(i as int));
                let mut m = String::from_str("Instruction ");
                m.append(u64_to_decimal(i as u64).as_str());
                m.append(" data too large: ");
                m.append(u64_to_decimal(n as u64).as_str());
                m.append(" bytes (max ");
                m.append(u64_to_decimal(MAX_INSTRUCTION_DATA as u64).as_str());
                m.append(")");
                return Err(m);
            }
            i += 1;
        }
        Ok(())
    }
}

} // verus!
