//! EVM compatibility data: transactions decoded from their signed envelope,
//! accounts and deferred state changes, 256-bit amounts and their spore
//! conversion, logs and their topic filters, execution results, and the
//! standard precompile addresses.
use vstd::prelude::*;
use alloy_consensus::transaction::SignerRecoverable;
use alloy_consensus::{Transaction, TxEnvelope, Typed2718};
use alloy_rlp::Decodable;
use crate::account::Pubkey;
use crate::bytes::copy_bytes;
use crate::crypto::{keccak256, keccak256_spec};
use crate::text::{decimal, u64_to_decimal};
use crate::u256::{be_value, div_small, is_zero_u256, u128_to_be32, u256_to_decimal, lemma_be_value_bound, pow256};

verus! {

broadcast use vstd::array::group_array_axioms;

/// Chain id of the EVM compatibility layer.
pub const LICHEN_CHAIN_ID: u64 = 8001;

/// ecRecover precompile address (0x01).
pub const PRECOMPILE_ECRECOVER: [u8; 20] = [0u8, 0, 0, 0, 0, 0, 0, 0, 0, 0, 0, 0, 0, 0, 0, 0, 0, 0, 0, 1];
/// SHA-256 precompile address (0x02).
pub const PRECOMPILE_SHA256: [u8; 20] = [0u8, 0, 0, 0, 0, 0, 0, 0, 0, 0, 0, 0, 0, 0, 0, 0, 0, 0, 0, 2];
/// RIPEMD-160 precompile address (0x03).
pub const PRECOMPILE_RIPEMD160: [u8; 20] = [0u8, 0, 0, 0, 0, 0, 0, 0, 0, 0, 0, 0, 0, 0, 0, 0, 0, 0, 0, 3];
/// Identity precompile address (0x04).
pub const PRECOMPILE_IDENTITY: [u8; 20] = [0u8, 0, 0, 0, 0, 0, 0, 0, 0, 0, 0, 0, 0, 0, 0, 0, 0, 0, 0, 4];
/// Modular exponentiation precompile address (0x05).
pub const PRECOMPILE_MODEXP: [u8; 20] = [0u8, 0, 0, 0, 0, 0, 0, 0, 0, 0, 0, 0, 0, 0, 0, 0, 0, 0, 0, 5];
/// BN256 addition precompile address (0x06).
pub const PRECOMPILE_BN256_ADD: [u8; 20] = [0u8, 0, 0, 0, 0, 0, 0, 0, 0, 0, 0, 0, 0, 0, 0, 0, 0, 0, 0, 6];
/// BN256 scalar multiplication precompile address (0x07).
pub const PRECOMPILE_BN256_MUL: [u8; 20] = [0u8, 0, 0, 0, 0, 0, 0, 0, 0, 0, 0, 0, 0, 0, 0, 0, 0, 0, 0, 7];
/// BN256 pairing precompile address (0x08).
pub const PRECOMPILE_BN256_PAIRING: [u8; 20] = [0u8, 0, 0, 0, 0, 0, 0, 0, 0, 0, 0, 0, 0, 0, 0, 0, 0, 0, 0, 8];
/// Blake2f compression precompile address (0x09).
pub const PRECOMPILE_BLAKE2F: [u8; 20] = [0u8, 0, 0, 0, 0, 0, 0, 0, 0, 0, 0, 0, 0, 0, 0, 0, 0, 0, 0, 9];

/// An EVM log: emitting contract, topics, data.
#[derive(Debug, Clone)]
pub struct EvmLog {
    pub address: [u8; 20],
    pub topics: Vec<[u8; 32]>,
    pub data: Vec<u8>,
}

/// Entry of the per-slot log index.
#[derive(Debug, Clone)]
pub struct EvmLogEntry {
    pub tx_hash: [u8; 32],
    pub tx_index: u32,
    pub log_index: u32,
    pub log: EvmLog,
}

/// Outcome of executing an EVM transaction.
#[derive(Debug, Clone)]
pub struct EvmExecutionResult {
    pub success: bool,
    pub gas_used: u64,
    pub output: Vec<u8>,
    pub created_address: Option<[u8; 20]>,
    /// Raw log data.
    pub logs: Vec<Vec<u8>>,
    /// Logs with address, topics and data.
    pub structured_logs: Vec<EvmLog>,
}

/// The address whose bytes are all zero but the last, which is `n`.
pub open spec fn precompile_address(n: u8) -> Seq<u8> {
    Seq::new(20, |i: int| if i == 19 { n } else { 0u8 })
}

/// Whether the log's topics pass the filter: at each position a filter
/// either is a wildcard (None) or lists candidates one of which is the
/// log's topic at that position, which must exist.
pub open spec fn spec_topics_match(log_topics: Seq<[u8; 32]>, filter: Seq<Option<Vec<[u8; 32]>>>) -> bool {
    forall|i: int| 0 <= i < filter.len() ==> match #[trigger] filter[i] {
        Some(c) => i < log_topics.len() && c@.contains(log_topics[i]),
        None => true,
    }
}

fn contains_topic(cands: &Vec<[u8; 32]>, t: &[u8; 32]) -> (r: bool)
    ensures
        r == cands@.contains(*t),
{
    let mut i: usize = 0;
    while i < cands.len()
        invariant
            i <= cands@.len(),
            forall|j: int| 0 <= j < i ==> cands@[j] != *t,
        decreases cands@.len() - i,
    {
        if crate::bytes::bytes32_eq(&cands[i], t) {
            assert(cands@[i as int] == *t);
            return true;
        }
        i += 1;
    }
    false
}

/// Matches a log's topics against a filter (see `spec_topics_match`).
pub fn topics_match(log_topics: &[[u8; 32]], filter_topics: &[Option<Vec<[u8; 32]>>]) -> (r: bool)
    ensures
        r == spec_topics_match(log_topics@, filter_topics@),
{
    let mut i: usize = 0;
    while i < filter_topics.len()
        invariant
            i <= filter_topics@.len(),
            forall|j: int| 0 <= j < i ==> match #[trigger] filter_topics@[j] {
                Some(c) => j < log_topics@.len() && c@.contains(log_topics@[j]),
                None => true,
            },
        decreases filter_topics@.len() - i,
    {
        match &filter_topics[i] {
            Some(cands) => {
                if i >= log_topics.len() {
                    assert(!spec_topics_match(log_topics@, filter_topics@)) by {
                        assert(filter_topics@[i as int] matches Some(_));
                    }
                    return false;
                }
                if !contains_topic(cands, &log_topics[i]) {
                    assert(!spec_topics_match(log_topics@, filter_topics@)) by {
                        assert(filter_topics@[i as int] matches Some(_));
                    }
                    return false;
                }
            },
            None => {},
        }
        i += 1;
    }
    true
}

/// The nine standard precompiles (addresses 0x01 to 0x09) with their names.
pub fn supported_precompiles() -> (r: Vec<([u8; 20], &'static str)>)
    ensures
        r@.len() == 9,
        forall|i: int| 0 <= i < 9 ==> (#[trigger] r@[i]).0@ == precompile_address((i + 1) as u8),
{
    let mut v: Vec<([u8; 20], &'static str)> = Vec::new();
    v.push((PRECOMPILE_ECRECOVER, "ecRecover"));
    v.push((PRECOMPILE_SHA256, "SHA-256"));
    v.push((PRECOMPILE_RIPEMD160, "RIPEMD-160"));
    v.push((PRECOMPILE_IDENTITY, "identity"));
    v.push((PRECOMPILE_MODEXP, "modexp"));
    v.push((PRECOMPILE_BN256_ADD, "bn256Add"));
    v.push((PRECOMPILE_BN256_MUL, "bn256Mul"));
    v.push((PRECOMPILE_BN256_PAIRING, "bn256Pairing"));
    v.push((PRECOMPILE_BLAKE2F, "blake2f"));
    proof {
        assert(PRECOMPILE_ECRECOVER@ =~= precompile_address(1));
        assert(PRECOMPILE_SHA256@ =~= precompile_address(2));
        assert(PRECOMPILE_RIPEMD160@ =~= precompile_address(3));
        assert(PRECOMPILE_IDENTITY@ =~= precompile_address(4));
        assert(PRECOMPILE_MODEXP@ =~= precompile_address(5));
        assert(PRECOMPILE_BN256_ADD@ =~= precompile_address(6));
        assert(PRECOMPILE_BN256_MUL@ =~= precompile_address(7));
        assert(PRECOMPILE_BN256_PAIRING@ =~= precompile_address(8));
        assert(PRECOMPILE_BLAKE2F@ =~= precompile_address(9));
    }
    v
}


/// Spores per whole token, and wei per spore.
pub const SPORE_WEI: u64 = 1_000_000_000;

/// Key bytes of the EVM program: 32 bytes of 0xEE.
pub const EVM_PROGRAM_ID: [u8; 32] = [0xEEu8, 0xEE, 0xEE, 0xEE, 0xEE, 0xEE, 0xEE, 0xEE, 0xEE, 0xEE, 0xEE, 0xEE, 0xEE,
    0xEE, 0xEE, 0xEE, 0xEE, 0xEE, 0xEE, 0xEE, 0xEE, 0xEE, 0xEE, 0xEE, 0xEE, 0xEE, 0xEE, 0xEE, 0xEE, 0xEE, 0xEE, 0xEE];

/// An EVM account: nonce, balance (256-bit, big-endian) and code.
#[derive(Debug, Clone)]
pub struct EvmAccount {
    pub nonce: u64,
    pub balance: [u8; 32],
    pub code: Vec<u8>,
}

impl EvmAccount {
    /// A fresh account: nonce 0, zero balance, no code.
    pub fn new() -> (r: EvmAccount)
        ensures
            r.nonce == 0,
            be_value(r.balance@) == 0,
            r.code@.len() == 0,
    {
        let r = EvmAccount { nonce: 0, balance: [0u8; 32], code: Vec::new() };
        proof {
            crate::u256::lemma_be_value_zero(r.balance@);
        }
        r
    }

    /// The balance as a 256-bit number.
    pub fn balance_u256(&self) -> (r: [u8; 32])
        ensures
            r == self.balance,
    {
        self.balance
    }

    /// Sets the balance.
    pub fn set_balance_u256(&mut self, value: [u8; 32])
        ensures
            final(self).balance == value,
            final(self).nonce == old(self).nonce,
            final(self).code == old(self).code,
    {
        self.balance = value;
    }
}

impl Default for EvmAccount {
    fn default() -> (r: EvmAccount)
        ensures
            r.nonce == 0,
            be_value(r.balance@) == 0,
            r.code@.len() == 0,
    {
        EvmAccount::new()
    }
}

/// One deferred EVM state change: the account to store (None clears it),
/// storage slots to set (None deletes), and a native balance to sync.
#[derive(Debug, Clone)]
pub struct EvmStateChange {
    pub evm_address: [u8; 20],
    pub account: Option<EvmAccount>,
    pub storage_changes: Vec<([u8; 32], Option<[u8; 32]>)>,
    pub native_balance_update: Option<(Pubkey, u64)>,
}

/// The deferred changes of one execution, and its errors.
#[derive(Debug, Clone)]
pub struct EvmStateChanges {
    pub changes: Vec<EvmStateChange>,
    pub errors: Vec<String>,
}

impl Default for EvmStateChanges {
    fn default() -> (r: EvmStateChanges)
        ensures
            r.changes@.len() == 0,
            r.errors@.len() == 0,
    {
        EvmStateChanges { changes: Vec::new(), errors: Vec::new() }
    }
}

/// A stored EVM transaction and, once included, its outcome.
#[derive(Debug, Clone)]
pub struct EvmTxRecord {
    pub evm_hash: [u8; 32],
    pub native_hash: [u8; 32],
    pub from: [u8; 20],
    pub to: Option<[u8; 20]>,
    pub value: [u8; 32],
    pub gas_limit: u64,
    pub gas_price: [u8; 32],
    pub nonce: u64,
    pub data: Vec<u8>,
    pub status: Option<bool>,
    pub gas_used: Option<u64>,
    pub block_slot: Option<u64>,
    pub block_hash: Option<[u8; 32]>,
}

/// The receipt of an EVM transaction.
#[derive(Debug, Clone)]
pub struct EvmReceipt {
    pub evm_hash: [u8; 32],
    pub status: bool,
    pub gas_used: u64,
    pub block_slot: Option<u64>,
    pub block_hash: Option<[u8; 32]>,
    pub contract_address: Option<[u8; 20]>,
    pub logs: Vec<Vec<u8>>,
    pub structured_logs: Vec<EvmLog>,
}

/// A decoded, signed EVM transaction. Amounts are 256-bit big-endian.
#[derive(Debug, Clone)]
pub struct EvmTx {
    pub raw: Vec<u8>,
    pub hash: [u8; 32],
    pub from: [u8; 20],
    pub to: Option<[u8; 20]>,
    pub nonce: u64,
    pub gas_limit: u64,
    pub gas_price: [u8; 32],
    pub max_fee_per_gas: Option<[u8; 32]>,
    pub max_priority_fee_per_gas: Option<[u8; 32]>,
    pub value: [u8; 32],
    pub data: Vec<u8>,
    pub chain_id: Option<u64>,
}

/// What the signed envelope of a raw EVM transaction holds: its type
/// (0 legacy, 1 access list, 2 dynamic fee, 3 blob, 4 set code), hash,
/// recovered signer (None when recovery fails), recipient, nonce, gas
/// limit, maximum fee per gas (the gas price of types 0 and 1), maximum
/// priority fee, value, input and chain id.
#[derive(Debug, Clone)]
pub struct DecodedEnvelope {
    pub tx_type: u8,
    pub hash: [u8; 32],
    pub from: Option<[u8; 20]>,
    pub to: Option<[u8; 20]>,
    pub nonce: u64,
    pub gas_limit: u64,
    pub max_fee_per_gas: u128,
    pub max_priority_fee_per_gas: Option<u128>,
    pub value: [u8; 32],
    pub input: Vec<u8>,
    pub chain_id: Option<u64>,
}

/// Names what `alloy_consensus` decodes from raw transaction bytes: the
/// envelope's contents, or None when the bytes are not a signed envelope.
pub uninterp spec fn evm_envelope_spec(raw: Seq<u8>) -> Option<DecodedEnvelope>;

/// `TxEnvelope::decode` (RLP / EIP-2718) of `raw`, and its contents read
/// through `Transaction`, `Typed2718` and `SignerRecoverable`; the error
/// carries the decoder's message.
#[verifier::external_body]
fn decode_envelope(raw: &[u8]) -> (r: Result<DecodedEnvelope, String>)
    ensures
        r is Ok <==> evm_envelope_spec(raw@) is Some,
        r matches Ok(d) ==> evm_envelope_spec(raw@) == Some(d),
        r matches Err(e) ==> e@.len() >= 20 && e@.subrange(0, 20) == "Invalid EVM tx RLP: "@,
{
    let mut bytes = raw;
    let env = TxEnvelope::decode(&mut bytes).map_err(|e| format!("Invalid EVM tx RLP: {}", e))?;
    Ok(DecodedEnvelope {
        tx_type: env.ty(),
        hash: env.tx_hash().0,
        from: env.recover_signer().ok().map(|a| a.into_array()),
        to: env.to().map(|a| a.into_array()),
        nonce: env.nonce(),
        gas_limit: env.gas_limit(),
        max_fee_per_gas: env.max_fee_per_gas(),
        max_priority_fee_per_gas: env.max_priority_fee_per_gas(),
        value: env.value().to_be_bytes::<32>(),
        input: env.input().to_vec(),
        chain_id: env.chain_id(),
    })
}

/// 256-bit bytes of a fee, when present.
pub open spec fn fee_matches(b: Option<[u8; 32]>, f: Option<u128>) -> bool {
    match (b, f) {
        (Some(x), Some(y)) => be_value(x@) == y,
        (None, None) => true,
        _ => false,
    }
}

/// The transaction `d` describes, for `raw`: the signer must have been
/// recovered; types 0 and 1 carry a gas price only, the others their
/// maximum fees, with the maximum fee as gas price.
pub open spec fn evm_tx_matches(tx: EvmTx, raw: Seq<u8>, d: DecodedEnvelope) -> bool {
    &&& tx.raw@ == raw
    &&& tx.hash == d.hash
    &&& Some(tx.from) == d.from
    &&& tx.to == d.to
    &&& tx.nonce == d.nonce
    &&& tx.gas_limit == d.gas_limit
    &&& be_value(tx.gas_price@) == d.max_fee_per_gas
    &&& fee_matches(tx.max_fee_per_gas, if d.tx_type <= 1 { None } else { Some(d.max_fee_per_gas) })
    &&& fee_matches(tx.max_priority_fee_per_gas, if d.tx_type <= 1 { None } else { d.max_priority_fee_per_gas })
    &&& tx.value == d.value
    &&& tx.data@ == d.input@
    &&& tx.chain_id == d.chain_id
}

/// The transaction of a decoded envelope: refused when the signer could not
/// be recovered or the type is not one of the five known.
pub fn evm_tx_from_envelope(raw: &[u8], d: DecodedEnvelope) -> (r: Result<EvmTx, String>)
    ensures
        d.from is None ==> (r matches Err(e) && e@ == "Failed to recover signer"@),
        d.from is Some && d.tx_type > 4 ==> (r matches Err(e) && e@ == "Unsupported EVM tx envelope"@),
        d.from is Some && d.tx_type <= 4 ==> (r matches Ok(tx) && evm_tx_matches(tx, raw@, d)),
{
    let from = match d.from {
        Some(a) => a,
        None => return Err(String::from_str("Failed to recover signer")),
    };
    if d.tx_type > 4 {
        return Err(String::from_str("Unsupported EVM tx envelope"));
    }
    let typed = d.tx_type >= 2;
    let max_fee = if typed { Some(u128_to_be32(d.max_fee_per_gas)) } else { None };
    let max_priority = if typed {
        match d.max_priority_fee_per_gas {
            Some(p) => Some(u128_to_be32(p)),
            None => None,
        }
    } else {
        None
    };
    Ok(EvmTx {
        raw: copy_bytes(raw),
        hash: d.hash,
        from,
        to: d.to,
        nonce: d.nonce,
        gas_limit: d.gas_limit,
        gas_price: u128_to_be32(d.max_fee_per_gas),
        max_fee_per_gas: max_fee,
        max_priority_fee_per_gas: max_priority,
        value: d.value,
        data: d.input,
        chain_id: d.chain_id,
    })
}

/// Decodes a raw signed EVM transaction (see `evm_tx_from_envelope`).
pub fn decode_evm_transaction(raw: &[u8]) -> (r: Result<EvmTx, String>)
    ensures
        evm_envelope_spec(raw@) is None ==> (r matches Err(e) && e@.len() >= 20
            && e@.subrange(0, 20) == "Invalid EVM tx RLP: "@),
        evm_envelope_spec(raw@) matches Some(d) ==> {
            &&& d.from is None ==> (r matches Err(e) && e@ == "Failed to recover signer"@)
            &&& d.from is Some && d.tx_type > 4 ==> (r matches Err(e) && e@ == "Unsupported EVM tx envelope"@)
            &&& d.from is Some && d.tx_type <= 4 ==> (r matches Ok(tx) && evm_tx_matches(tx, raw@, d))
        },
{
    match decode_envelope(raw) {
        Ok(d) => evm_tx_from_envelope(raw, d),
        Err(e) => Err(e),
    }
}

/// Hash of a raw EVM transaction: Keccak-256 of its bytes.
pub fn evm_tx_hash(raw: &[u8]) -> (r: [u8; 32])
    ensures
        r@ == keccak256_spec(raw@),
{
    keccak256(raw)
}

/// The native instruction data that carries a raw EVM transaction: the raw bytes.
pub fn evm_tx_to_native_instruction(raw: &[u8]) -> (r: Vec<u8>)
    ensures
        r@ == raw@,
{
    copy_bytes(raw)
}

/// True when the wei amount is a whole number of spores.
pub fn u256_is_multiple_of_spore(value: &[u8; 32]) -> (r: bool)
    ensures
        r == (be_value(value@) % (SPORE_WEI as nat) == 0),
{
    let (_q, rem) = div_small(value, SPORE_WEI);
    rem == 0
}

/// A whole number of spores, in wei.
pub open spec fn whole_spores(v: [u8; 32]) -> bool {
    be_value(v@) % (SPORE_WEI as nat) == 0
}

/// Why `tx` may not run on the chain `chain_id`, in the order of the checks:
/// the chain id (which must be present), then the value, the gas price, the
/// maximum fee and the priority fee as whole spores; None when it may.
pub open spec fn evm_tx_problem(tx: EvmTx, chain_id: u64) -> Option<Seq<char>> {
    match tx.chain_id {
        None => Some("Transaction must include chain_id (EIP-155)"@),
        Some(c) => if c != chain_id {
            Some("Invalid chainId: expected "@ + decimal(chain_id as nat) + ", got "@ + decimal(c as nat))
        } else if !whole_spores(tx.value) {
            Some("EVM value must be multiple of 1e9 wei"@)
        } else if !whole_spores(tx.gas_price) {
            Some("EVM gas price must be multiple of 1e9 wei"@)
        } else if tx.max_fee_per_gas matches Some(f) && !whole_spores(f) {
            Some("EVM max fee must be multiple of 1e9 wei"@)
        } else if tx.max_priority_fee_per_gas matches Some(f) && !whole_spores(f) {
            Some("EVM priority fee must be multiple of 1e9 wei"@)
        } else {
            None
        },
    }
}

/// The checks an EVM transaction passes before it is executed: it names
/// this chain (EIP-155), and its value and fees are whole spores.
pub fn check_evm_tx_preconditions(tx: &EvmTx, chain_id: u64) -> (r: Result<(), String>)
    ensures
        r is Ok <==> evm_tx_problem(*tx, chain_id) is None,
        r matches Err(e) ==> Some(e@) == evm_tx_problem(*tx, chain_id),
{
    match tx.chain_id {
        Some(c) => {
            if c != chain_id {
                let mut m = String::from_str("Invalid chainId: expected ");
                m.append(u64_to_decimal(chain_id).as_str());
                m.append(", got ");
                m.append(u64_to_decimal(c).as_str());
                return Err(m);
            }
        },
        None => return Err(String::from_str("Transaction must include chain_id (EIP-155)")),
    }
    if !u256_is_multiple_of_spore(&tx.value) {
        return Err(String::from_str("EVM value must be multiple of 1e9 wei"));
    }
    if !u256_is_multiple_of_spore(&tx.gas_price) {
        return Err(String::from_str("EVM gas price must be multiple of 1e9 wei"));
    }
    match &tx.max_fee_per_gas {
        Some(f) => {
            if !u256_is_multiple_of_spore(f) {
                return Err(String::from_str("EVM max fee must be multiple of 1e9 wei"));
            }
        },
        None => {},
    }
    match &tx.max_priority_fee_per_gas {
        Some(f) => {
            if !u256_is_multiple_of_spore(f) {
                return Err(String::from_str("EVM priority fee must be multiple of 1e9 wei"));
            }
        },
        None => {},
    }
    Ok(())
}

/// Largest u64.
pub open spec fn u64_max() -> nat {
    0xffff_ffff_ffff_ffffnat
}

fn low_u64_if_small(q: &[u8; 32]) -> (r: Option<u64>)
    ensures
        r is Some <==> be_value(q@) <= u64_max(),
        r matches Some(x) ==> x == be_value(q@),
{
    let mut i: usize = 0;
    while i < 24
        invariant
            i <= 24,
            be_value(q@.subrange(0, i as int)) == 0,
        decreases 24 - i,
    {
        if q[i] != 0 {
            proof {
                assert(q@.subrange(0, i + 1) =~= q@.subrange(0, i as int).push(q@[i as int]));
                crate::u256::lemma_be_value_push(q@.subrange(0, i as int), q@[i as int]);
                crate::u256::lemma_be_value_split(q@, i + 1);
                lemma_pow256_le(((32 - i - 1) as nat));
                let a = be_value(q@.subrange(0, i + 1));
                let p = pow256(((32 - i - 1) as nat));
                let c = be_value(q@.subrange(i + 1, 32));
                assert(a * p + c >= p) by (nonlinear_arith)
                    requires
                        a >= 1,
                ;
            }
            return None;
        }
        proof {
            assert(q@.subrange(0, i + 1) =~= q@.subrange(0, i as int).push(q@[i as int]));
            crate::u256::lemma_be_value_push(q@.subrange(0, i as int), q@[i as int]);
        }
        i += 1;
    }
    let mut x: u64 = 0;
    let mut j: usize = 24;
    proof {
        assert(q@.subrange(24, 24) =~= Seq::<u8>::empty());
    }
    while j < 32
        invariant
            24 <= j <= 32,
            be_value(q@.subrange(0, 24)) == 0,
            x == be_value(q@.subrange(24, j as int)),
        decreases 32 - j,
    {
        proof {
            assert(q@.subrange(24, j + 1) =~= q@.subrange(24, j as int).push(q@[j as int]));
            crate::u256::lemma_be_value_push(q@.subrange(24, j as int), q@[j as int]);
            lemma_be_value_bound(q@.subrange(24, j as int));
            lemma_pow256_7((j - 24) as nat);
            assert(x * 256 + q@[j as int] <= u64_max()) by (nonlinear_arith)
                requires
                    x < pow256((j - 24) as nat),
                    pow256((j - 24) as nat) <= 0x100_0000_0000_0000nat,
                    q@[j as int] < 256,
            ;
        }
        x = x * 256 + q[j] as u64;
        j += 1;
    }
    proof {
        crate::u256::lemma_be_value_split(q@, 24);
        assert(q@.subrange(24, 32) =~= q@.subrange(24, q@.len() as int));
        assert(be_value(q@) == be_value(q@.subrange(24, 32))) by {
            assert(0 * pow256(8) == 0) by (nonlinear_arith);
        }
        lemma_be_value_bound(q@.subrange(24, 32));
    }
    Some(x)
}

proof fn lemma_pow256_7(n: nat)
    requires
        n <= 7,
    ensures
        pow256(n) <= 0x100_0000_0000_0000nat,
{
    reveal_with_fuel(pow256, 8);
    if n == 0 {} else if n == 1 {} else if n == 2 {} else if n == 3 {} else if n == 4 {} else if n == 5 {} else if n == 6 {} else {}
}

proof fn lemma_pow256_le(n: nat)
    requires
        n >= 8,
    ensures
        pow256(n) > u64_max(),
    decreases n,
{
    if n == 8 {
        reveal_with_fuel(pow256, 9);
    } else {
        lemma_pow256_le((n - 1) as nat);
    }
}

/// Whole spores in a wei amount, saturating at u64::MAX.
pub fn u256_to_spores(value: &[u8; 32]) -> (r: u64)
    ensures
        r == (if be_value(value@) / (SPORE_WEI as nat) <= u64_max() { be_value(value@) / (SPORE_WEI as nat) } else { u64_max() }),
{
    let (q, _rem) = div_small(value, SPORE_WEI);
    match low_u64_if_small(&q) {
        Some(x) => x,
        None => u64::MAX,
    }
}

/// Whole spores in a wei amount; an error naming the amount when they do
/// not fit a u64.
pub fn u256_to_spores_checked(value: &[u8; 32]) -> (r: Result<u64, String>)
    ensures
        be_value(value@) / (SPORE_WEI as nat) <= u64_max() ==> r == Ok::<u64, String>((be_value(value@) / (SPORE_WEI as nat)) as u64),
        be_value(value@) / (SPORE_WEI as nat) > u64_max() ==> (r matches Err(e)
            && e@ == "EVM value "@ + decimal(be_value(value@)) + " exceeds maximum representable spores"@),
{
    let (q, _rem) = div_small(value, SPORE_WEI);
    match low_u64_if_small(&q) {
        Some(x) => Ok(x),
        None => {
            let mut e = String::from_str("EVM value ");
            e.append(u256_to_decimal(value).as_str());
            e.append(" exceeds maximum representable spores");
            Err(e)
        },
    }
}

/// Wei amount of `spores` spores (one spore is 10^9 wei).
pub fn spores_to_u256(spores: u64) -> (r: [u8; 32])
    ensures
        be_value(r@) == spores * SPORE_WEI,
{
    let wei: u128 = (spores as u128) * (SPORE_WEI as u128);
    u128_to_be32(wei)
}

/// Converting spores to wei and back gives the spores again.
pub proof fn lemma_spores_roundtrip(spores: u64)
    ensures
        ((spores * SPORE_WEI) as nat) / (SPORE_WEI as nat) == spores,
        ((spores * SPORE_WEI) as nat) % (SPORE_WEI as nat) == 0,
{
    vstd::arithmetic::div_mod::lemma_fundamental_div_mod_converse((spores * SPORE_WEI) as int, SPORE_WEI as int, spores as int, 0);
}

} // verus!
