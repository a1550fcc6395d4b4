//! Smart-contract accounts, the ABI description of a contract, and the
//! execution context that the host functions of the WASM runtime act on:
//! storage reads and writes, logs, events, arguments and return data, each
//! charged against the call's compute budget.
use vstd::prelude::*;
use crate::account::Pubkey;
use crate::bytes::copy_bytes;
use crate::crypto::{sha256, sha256_spec};
use crate::entry_map::EntryMap;
use crate::text::{decimal, u64_to_decimal};

use crate::text::{utf8_decode, utf8_decode_lossy};
use vstd::utf8::{valid_utf8, decode_utf8};

verus! {

/// Compute units the WASM meter grants a call (one per instruction).
pub const MAX_WASM_COMPUTE_UNITS: u64 = 1_400_000;
/// Most 64 KiB pages of linear memory a contract may declare or reach (16 MB).
pub const MAX_WASM_MEMORY_PAGES: u32 = 256;

/// Compute units a call starts with.
pub const DEFAULT_COMPUTE_LIMIT: u64 = 1_000_000;
/// Longest log message, in bytes.
pub const MAX_LOG_LEN: usize = 16_384;
/// Longest storage key, in bytes.
pub const MAX_KEY_LEN: usize = 256;
/// Longest storage value, in bytes.
pub const MAX_VALUE_LEN: usize = 65_536;
/// Longest return data, in bytes.
pub const MAX_RETURN_DATA: usize = 65_536;
/// Longest serialized event, in bytes.
pub const MAX_EVENT_DATA: usize = 8_192;
/// Most storage entries a contract may hold.
pub const MAX_STORAGE_ENTRIES: usize = 10_000;
/// Cost of a storage read.
pub const COMPUTE_STORAGE_READ: u64 = 100;
/// Cost of a storage write.
pub const COMPUTE_STORAGE_WRITE: u64 = 200;
/// Cost of a storage delete.
pub const COMPUTE_STORAGE_DELETE: u64 = 100;
/// Cost of a log message.
pub const COMPUTE_LOG: u64 = 10;
/// Cost of an event.
pub const COMPUTE_EVENT: u64 = 50;
/// Cost of reading the caller.
pub const COMPUTE_GET_CALLER: u64 = 100;
/// Base cost of reading the arguments.
pub const COMPUTE_GET_ARGS: u64 = 50;
/// Base cost of setting the return data.
pub const COMPUTE_SET_RETURN_DATA: u64 = 50;
/// Base cost of reading the last storage read's result.
pub const COMPUTE_READ_RESULT: u64 = 50;
/// Cost per byte copied.
pub const COMPUTE_BYTE_COST: u64 = 1;

// ----- ABI -----

/// Type of an ABI parameter or return value.
#[derive(Debug, Clone, Copy, PartialEq, Eq, Structural)]
pub enum AbiType {
    U32,
    U64,
    I32,
    I64,
    F32,
    F64,
    Bool,
    String,
    Bytes,
    Pubkey,
    BytesWithLen,
}

/// A function parameter.
#[derive(Debug, Clone)]
pub struct AbiParam {
    pub name: String,
    pub param_type: AbiType,
    pub description: Option<String>,
}

/// A function's return value.
#[derive(Debug, Clone)]
pub struct AbiReturn {
    pub return_type: AbiType,
    pub description: Option<String>,
}

/// A callable contract function.
#[derive(Debug, Clone)]
pub struct AbiFunction {
    pub name: String,
    pub description: Option<String>,
    pub params: Vec<AbiParam>,
    pub returns: Option<AbiReturn>,
    pub readonly: bool,
}

/// A field of an event.
#[derive(Debug, Clone)]
pub struct AbiEventField {
    pub name: String,
    pub field_type: AbiType,
    pub indexed: bool,
}

/// An event a contract can emit.
#[derive(Debug, Clone)]
pub struct AbiEvent {
    pub name: String,
    pub description: Option<String>,
    pub fields: Vec<AbiEventField>,
}

/// An error code of a contract.
#[derive(Debug, Clone)]
pub struct AbiError {
    pub code: u32,
    pub name: String,
    pub message: Option<String>,
}

/// The public interface of a contract.
#[derive(Debug, Clone)]
pub struct ContractAbi {
    pub version: String,
    pub name: String,
    pub template: Option<String>,
    pub description: Option<String>,
    pub functions: Vec<AbiFunction>,
    pub events: Vec<AbiEvent>,
    pub errors: Vec<AbiError>,
}

/// A WASM value type, as the runtime reports it.
#[derive(Debug, Clone, Copy, PartialEq, Eq, Structural)]
pub enum WasmValType {
    I32,
    I64,
    F32,
    F64,
    Other,
}

/// An exported function of a module: its name and its parameter and
/// result types.
#[derive(Debug, Clone)]
pub struct WasmFunctionExport {
    pub name: String,
    pub params: Vec<WasmValType>,
    pub results: Vec<WasmValType>,
}

/// The ABI type of a WASM value type; types without a counterpart read as `I32`.
pub open spec fn abi_type_of(vt: WasmValType) -> AbiType {
    match vt {
        WasmValType::I32 => AbiType::I32,
        WasmValType::I64 => AbiType::I64,
        WasmValType::F32 => AbiType::F32,
        WasmValType::F64 => AbiType::F64,
        WasmValType::Other => AbiType::I32,
    }
}

/// The ABI type of a WASM value type (see `abi_type_of`).
pub fn wasm_valtype_to_abi(vt: WasmValType) -> (r: AbiType)
    ensures
        r == abi_type_of(vt),
{
    match vt {
        WasmValType::I32 => AbiType::I32,
        WasmValType::I64 => AbiType::I64,
        WasmValType::F32 => AbiType::F32,
        WasmValType::F64 => AbiType::F64,
        WasmValType::Other => AbiType::I32,
    }
}

/// An export the ABI lists: not internal (`__` prefix) and not the memory.
pub open spec fn abi_listed(name: Seq<char>) -> bool {
    !(name.len() >= 2 && name[0] == '_' && name[1] == '_') && name != "memory"@
}

/// `f` is the ABI entry of export `e`: same name, parameters `arg0`,
/// `arg1`, ... of the mapped types, the first result (if any) as return,
/// nothing described, not read-only.
pub open spec fn abi_entry_of(f: AbiFunction, e: WasmFunctionExport) -> bool {
    &&& f.name@ == e.name@
    &&& f.description is None
    &&& f.params@.len() == e.params@.len()
    &&& forall|i: int| 0 <= i < f.params@.len() ==> {
        &&& (#[trigger] f.params@[i]).name@ == "arg"@ + decimal(i as nat)
        &&& f.params@[i].param_type == abi_type_of(e.params@[i])
        &&& f.params@[i].description is None
    }
    &&& e.results@.len() == 0 ==> f.returns is None
    &&& e.results@.len() > 0 ==> (f.returns matches Some(rt) && rt.return_type == abi_type_of(e.results@[0])
        && rt.description is None)
    &&& !f.readonly
}

/// The exports from index `i` on that the ABI lists.
pub open spec fn listed_exports(exports: Seq<WasmFunctionExport>, i: int) -> Seq<WasmFunctionExport>
    decreases exports.len() - i,
{
    if i < 0 || i >= exports.len() {
        Seq::empty()
    } else if abi_listed(exports[i].name@) {
        seq![exports[i]] + listed_exports(exports, i + 1)
    } else {
        listed_exports(exports, i + 1)
    }
}

fn is_listed_name(name: &String) -> (r: bool)
    ensures
        r == abi_listed(name@),
{
    let n = name.as_str().unicode_len();
    let internal = n >= 2 && name.as_str().get_char(0) == '_' && name.as_str().get_char(1) == '_';
    !internal && !(*name == String::from_str("memory"))
}

fn abi_entry(e: &WasmFunctionExport) -> (f: AbiFunction)
    ensures
        abi_entry_of(f, *e),
{
    let mut params: Vec<AbiParam> = Vec::new();
    let mut i: usize = 0;
    while i < e.params.len()
        invariant
            i <= e.params@.len(),
            params@.len() == i,
            forall|j: int| 0 <= j < i ==> {
                &&& (#[trigger] params@[j]).name@ == "arg"@ + decimal(j as nat)
                &&& params@[j].param_type == abi_type_of(e.params@[j])
                &&& params@[j].description is None
            },
        decreases e.params@.len() - i,
    {
        let mut name = String::from_str("arg");
        name.append(u64_to_decimal(i as u64).as_str());
        params.push(AbiParam { name, param_type: wasm_valtype_to_abi(e.params[i]), description: None });
        i += 1;
    }
    let ret = if e.results.len() > 0 {
        Some(AbiReturn { return_type: wasm_valtype_to_abi(e.results[0]), description: None })
    } else {
        None
    };
    AbiFunction { name: e.name.clone(), description: None, params, returns: ret, readonly: false }
}

/// The ABI read from a module's exported functions, in export order:
/// internal exports (`__` prefix) and `memory` are skipped, each other
/// function is listed (see `abi_entry_of`); None when no function is left.
/// The ABI is version "1.0", named "unknown", without events or errors.
pub fn abi_from_exports(exports: &Vec<WasmFunctionExport>) -> (r: Option<ContractAbi>)
    ensures
        r is None <==> listed_exports(exports@, 0).len() == 0,
        r matches Some(abi) ==> {
            let listed = listed_exports(exports@, 0);
            &&& abi.version@ == "1.0"@
            &&& abi.name@ == "unknown"@
            &&& abi.template is None
            &&& abi.description is None
            &&& abi.events@.len() == 0
            &&& abi.errors@.len() == 0
            &&& abi.functions@.len() == listed.len()
            &&& forall|i: int| 0 <= i < listed.len() ==> abi_entry_of(#[trigger] abi.functions@[i], listed[i])
        },
{
    let mut functions: Vec<AbiFunction> = Vec::new();
    let mut i: usize = exports.len();
    // built back to front, so that each step puts an entry in front
    while i > 0
        invariant
            i <= exports@.len(),
            functions@.len() == listed_exports(exports@, i as int).len(),
            forall|j: int| 0 <= j < functions@.len() ==> abi_entry_of(#[trigger] functions@[j],
                listed_exports(exports@, i as int)[j]),
        decreases i,
    {
        i -= 1;
        if is_listed_name(&exports[i].name) {
            let f = abi_entry(&exports[i]);
            let ghost before = functions@;
            functions.insert(0, f);
            proof {
                let l = listed_exports(exports@, i as int);
                assert(l == seq![exports@[i as int]] + listed_exports(exports@, i + 1));
                assert forall|j: int| 0 <= j < functions@.len() implies abi_entry_of(#[trigger] functions@[j], l[j]) by {
                    if j > 0 {
                        assert(functions@[j] == before[j - 1]);
                        assert(l[j] == listed_exports(exports@, i + 1)[j - 1]);
                    }
                }
            }
        }
    }
    if functions.len() == 0 {
        return None;
    }
    Some(ContractAbi {
        version: String::from_str("1.0"),
        name: String::from_str("unknown"),
        template: None,
        description: None,
        functions,
        events: Vec::new(),
        errors: Vec::new(),
    })
}

// ----- Accounts, events, results -----

/// A deployed contract: its code, key-value storage, owner, code hash and ABI.
#[derive(Debug, Clone)]
pub struct ContractAccount {
    pub code: Vec<u8>,
    pub storage: EntryMap<Vec<u8>, Vec<u8>>,
    pub owner: Pubkey,
    pub code_hash: crate::hash::Hash,
    pub abi: Option<ContractAbi>,
}

/// Byte views of the values of a storage map.
pub open spec fn storage_view(m: Map<Seq<u8>, Vec<u8>>) -> Map<Seq<u8>, Seq<u8>> {
    m.map_values(|v: Vec<u8>| v@)
}

impl ContractAccount {
    /// The storage is well formed.
    pub open spec fn wf(&self) -> bool {
        self.storage.wf()
    }

    /// The contract's storage, key bytes to value bytes.
    pub open spec fn storage_map(&self) -> Map<Seq<u8>, Seq<u8>> {
        storage_view(self.storage.view_map())
    }

    /// A contract of `code` owned by `owner`, with empty storage; the code
    /// hash is SHA-256 of the code. `abi` is what was read from the code's
    /// exports, if anything.
    pub fn new(code: Vec<u8>, owner: Pubkey, abi: Option<ContractAbi>) -> (r: ContractAccount)
        ensures
            r.wf(),
            r.code@ == code@,
            r.owner == owner,
            r.code_hash.0@ == sha256_spec(code@),
            r.storage_map() == Map::<Seq<u8>, Seq<u8>>::empty(),
            r.abi == abi,
    {
        let code_hash = crate::hash::Hash::hash(code.as_slice());
        let storage = EntryMap::new();
        let r = ContractAccount { code, storage, owner, code_hash, abi };
        assert(r.storage_map() =~= Map::<Seq<u8>, Seq<u8>>::empty());
        r
    }

    /// The value stored under `key`, if any.
    pub fn get_storage(&self, key: &[u8]) -> (r: Option<Vec<u8>>)
        requires
            self.wf(),
        ensures
            r is Some <==> self.storage_map().dom().contains(key@),
            r matches Some(v) ==> v@ == self.storage_map()[key@],
    {
        let k = copy_bytes(key);
        match self.storage.get(&k) {
            Some(v) => Some(copy_bytes(v.as_slice())),
            None => None,
        }
    }

    /// Stores `value` under `key`.
    pub fn set_storage(&mut self, key: Vec<u8>, value: Vec<u8>)
        requires
            old(self).wf(),
        ensures
            final(self).wf(),
            final(self).storage_map() == old(self).storage_map().insert(key@, value@),
            final(self).code == old(self).code,
            final(self).owner == old(self).owner,
            final(self).code_hash == old(self).code_hash,
            final(self).abi == old(self).abi,
    {
        let ghost kv = key@;
        let ghost vv = value@;
        self.storage.insert(key, value);
        assert(self.storage_map() =~= old(self).storage_map().insert(kv, vv));
    }

    /// Removes the value under `key`, returning it.
    pub fn remove_storage(&mut self, key: &[u8]) -> (r: Option<Vec<u8>>)
        requires
            old(self).wf(),
        ensures
            final(self).wf(),
            final(self).storage_map() == old(self).storage_map().remove(key@),
            r is Some <==> old(self).storage_map().dom().contains(key@),
            r matches Some(v) ==> v@ == old(self).storage_map()[key@],
            final(self).code == old(self).code,
            final(self).owner == old(self).owner,
            final(self).code_hash == old(self).code_hash,
            final(self).abi == old(self).abi,
    {
        let k = copy_bytes(key);
        let r = self.storage.remove(&k);
        assert(self.storage_map() =~= old(self).storage_map().remove(key@));
        r
    }

    /// Code length plus the bytes of every storage key and value.
    pub fn size(&self) -> (r: usize)
        requires
            self.code@.len() + self.storage.byte_size() <= usize::MAX,
        ensures
            r == self.code@.len() + self.storage.byte_size(),
    {
        let s = self.storage.total_len();
        self.code.len() + s
    }
}

/// A value written under a key is what a read of that key gives back, and
/// a removed key reads as absent.
pub proof fn lemma_storage_read_after_write(m: Map<Seq<u8>, Seq<u8>>, key: Seq<u8>, value: Seq<u8>, other: Seq<u8>)
    ensures
        m.insert(key, value).dom().contains(key),
        m.insert(key, value)[key] == value,
        other != key ==> m.insert(key, value).dom().contains(other) == m.dom().contains(other),
        other != key && m.dom().contains(other) ==> m.insert(key, value)[other] == m[other],
        !m.insert(key, value).remove(key).dom().contains(key),
{
}

/// A structured event emitted by a contract.
#[derive(Debug, Clone)]
pub struct ContractEvent {
    pub program: Pubkey,
    pub name: String,
    pub data: EntryMap<String, String>,
    pub slot: u64,
}

/// What a contract call produced.
#[derive(Debug, Clone)]
pub struct ContractResult {
    pub return_data: Vec<u8>,
    pub logs: Vec<String>,
    pub events: Vec<ContractEvent>,
    pub storage_changes: EntryMap<Vec<u8>, Option<Vec<u8>>>,
    pub success: bool,
    pub error: Option<String>,
    pub compute_used: u64,
}

/// A record of a program call, kept for the explorer.
#[derive(Debug, Clone)]
pub struct ProgramCallActivity {
    pub slot: u64,
    pub timestamp: u64,
    pub program: Pubkey,
    pub caller: Pubkey,
    pub function: String,
    pub value: u64,
    pub tx_signature: crate::hash::Hash,
}

// ----- Execution context -----

/// The state a contract call runs against: who called, the value sent, the
/// slot, the live storage and its recorded changes, logs and events, the
/// last storage read, the arguments, the return data and the compute left.
/// (The runtime keeps the WASM memory handle beside it.)
#[derive(Debug, Clone)]
pub struct ContractContext {
    pub caller: Pubkey,
    pub contract: Pubkey,
    pub value: u64,
    pub slot: u64,
    pub storage: EntryMap<Vec<u8>, Vec<u8>>,
    pub logs: Vec<String>,
    pub events: Vec<ContractEvent>,
    pub storage_changes: EntryMap<Vec<u8>, Option<Vec<u8>>>,
    pub last_read_value: Vec<u8>,
    pub args: Vec<u8>,
    pub return_data: Vec<u8>,
    pub compute_remaining: u64,
}

/// Byte views of recorded storage changes (None for a deletion).
pub open spec fn changes_view(m: Map<Seq<u8>, Option<Vec<u8>>>) -> Map<Seq<u8>, Option<Seq<u8>>> {
    m.map_values(|v: Option<Vec<u8>>| match v {
        Some(b) => Some(b@),
        None => None,
    })
}

/// Two contexts agree on everything but the compute left, the live
/// storage, the changes, the last read, logs, events and return data.
pub open spec fn same_call(a: ContractContext, b: ContractContext) -> bool {
    &&& a.caller == b.caller
    &&& a.contract == b.contract
    &&& a.value == b.value
    &&& a.slot == b.slot
    &&& a.args@ == b.args@
}

impl ContractContext {
    /// Storage and change records are well formed.
    pub open spec fn wf(&self) -> bool {
        self.storage.wf() && self.storage_changes.wf()
    }

    /// The live storage, key bytes to value bytes.
    pub open spec fn storage_map(&self) -> Map<Seq<u8>, Seq<u8>> {
        storage_view(self.storage.view_map())
    }

    /// The recorded changes: the new value, or None for a deletion.
    pub open spec fn changes_map(&self) -> Map<Seq<u8>, Option<Seq<u8>>> {
        changes_view(self.storage_changes.view_map())
    }

    /// A context with the given storage and arguments, nothing logged or
    /// changed yet, and the full compute budget.
    pub fn with_args(caller: Pubkey, contract: Pubkey, value: u64, slot: u64, storage: EntryMap<Vec<u8>, Vec<u8>>, args: Vec<u8>) -> (r: ContractContext)
        requires
            storage.wf(),
        ensures
            r.wf(),
            r.caller == caller,
            r.contract == contract,
            r.value == value,
            r.slot == slot,
            r.storage == storage,
            r.logs@.len() == 0,
            r.events@.len() == 0,
            r.changes_map() == Map::<Seq<u8>, Option<Seq<u8>>>::empty(),
            r.last_read_value@.len() == 0,
            r.args@ == args@,
            r.return_data@.len() == 0,
            r.compute_remaining == DEFAULT_COMPUTE_LIMIT,
    {
        let r = ContractContext {
            caller,
            contract,
            value,
            slot,
            storage,
            logs: Vec::new(),
            events: Vec::new(),
            storage_changes: EntryMap::new(),
            last_read_value: Vec::new(),
            args,
            return_data: Vec::new(),
            compute_remaining: DEFAULT_COMPUTE_LIMIT,
        };
        assert(r.changes_map() =~= Map::<Seq<u8>, Option<Seq<u8>>>::empty());
        r
    }

    /// A context with the given storage and no arguments.
    pub fn with_storage(caller: Pubkey, contract: Pubkey, value: u64, slot: u64, storage: EntryMap<Vec<u8>, Vec<u8>>) -> (r: ContractContext)
        requires
            storage.wf(),
        ensures
            r.wf(),
            r.caller == caller,
            r.contract == contract,
            r.value == value,
            r.slot == slot,
            r.storage == storage,
            r.logs@.len() == 0,
            r.events@.len() == 0,
            r.changes_map() == Map::<Seq<u8>, Option<Seq<u8>>>::empty(),
            r.last_read_value@.len() == 0,
            r.args@.len() == 0,
            r.return_data@.len() == 0,
            r.compute_remaining == DEFAULT_COMPUTE_LIMIT,
    {
        Self::with_args(caller, contract, value, slot, storage, Vec::new())
    }

    /// A context with empty storage and no arguments.
    pub fn new(caller: Pubkey, contract: Pubkey, value: u64, slot: u64) -> (r: ContractContext)
        ensures
            r.wf(),
            r.caller == caller,
            r.contract == contract,
            r.value == value,
            r.slot == slot,
            r.storage_map() == Map::<Seq<u8>, Seq<u8>>::empty(),
            r.logs@.len() == 0,
            r.events@.len() == 0,
            r.changes_map() == Map::<Seq<u8>, Option<Seq<u8>>>::empty(),
            r.last_read_value@.len() == 0,
            r.args@.len() == 0,
            r.return_data@.len() == 0,
            r.compute_remaining == DEFAULT_COMPUTE_LIMIT,
    {
        let r = Self::with_storage(caller, contract, value, slot, EntryMap::new());
        assert(r.storage_map() =~= Map::<Seq<u8>, Seq<u8>>::empty());
        r
    }

    /// Whether a storage read of a `key_len`-byte key may go ahead: the key
    /// is not too long and the read can be paid for.
    pub fn storage_read_allowed(&self, key_len: u32) -> (r: bool)
        ensures
            r == (key_len <= MAX_KEY_LEN && self.compute_remaining >= COMPUTE_STORAGE_READ),
    {
        (key_len as usize) <= MAX_KEY_LEN && self.compute_remaining >= COMPUTE_STORAGE_READ
    }

    /// Reads `key` for a buffer of `val_len` bytes: charges the read,
    /// remembers the value (or nothing) as the last read, and returns the
    /// value with the number of its bytes that fit the buffer.
    pub fn storage_read(&mut self, key: &Vec<u8>, val_len: u32) -> (r: Option<(Vec<u8>, usize)>)
        requires
            old(self).wf(),
        ensures
            final(self).wf(),
            final(self).compute_remaining == spec_deduct(old(self).compute_remaining, COMPUTE_STORAGE_READ),
            r is Some <==> old(self).storage_map().dom().contains(key@),
            r matches Some((v, n)) ==> v@ == old(self).storage_map()[key@]
                && n == (if v@.len() <= val_len { v@.len() as int } else { val_len as int })
                && final(self).last_read_value@ == v@,
            r is None ==> final(self).last_read_value@.len() == 0,
            final(self).storage == old(self).storage,
            final(self).storage_changes == old(self).storage_changes,
            final(self).logs == old(self).logs,
            final(self).events == old(self).events,
            final(self).return_data == old(self).return_data,
            same_call(*old(self), *final(self)),
    {
        deduct_compute(self, COMPUTE_STORAGE_READ);
        match self.storage.get(key) {
            Some(value) => {
                let v = copy_bytes(value.as_slice());
                let n = if v.len() <= val_len as usize { v.len() } else { val_len as usize };
                self.last_read_value = copy_bytes(v.as_slice());
                Some((v, n))
            },
            None => {
                self.last_read_value = Vec::new();
                None
            },
        }
    }

    /// Charges the copy of up to `out_len` bytes of the last read; false when
    /// the budget does not cover it (the budget is then spent).
    pub fn charge_read_result(&mut self, out_len: u32) -> (r: bool)
        ensures
            r == (old(self).compute_remaining >= COMPUTE_READ_RESULT + out_len * COMPUTE_BYTE_COST),
            final(self).compute_remaining == spec_deduct(old(self).compute_remaining, (COMPUTE_READ_RESULT + out_len * COMPUTE_BYTE_COST) as u64),
            *final(self) == (ContractContext { compute_remaining: final(self).compute_remaining, ..*old(self) }),
    {
        let cost = COMPUTE_READ_RESULT + (out_len as u64) * COMPUTE_BYTE_COST;
        deduct_compute(self, cost)
    }

    /// Whether a storage write of the given sizes may go ahead.
    pub fn storage_write_allowed(&self, key_len: u32, val_len: u32) -> (r: bool)
        ensures
            r == (key_len <= MAX_KEY_LEN && val_len <= MAX_VALUE_LEN && self.compute_remaining >= COMPUTE_STORAGE_WRITE),
    {
        (key_len as usize) <= MAX_KEY_LEN && (val_len as usize) <= MAX_VALUE_LEN
            && self.compute_remaining >= COMPUTE_STORAGE_WRITE
    }

    /// Writes `val` under `key`: charges the write, then refuses (0) a new
    /// key when the storage is full; otherwise stores the value, records the
    /// change and returns 1.
    pub fn storage_write(&mut self, key: Vec<u8>, val: Vec<u8>) -> (r: u32)
        requires
            old(self).wf(),
        ensures
            final(self).wf(),
            final(self).compute_remaining == spec_deduct(old(self).compute_remaining, COMPUTE_STORAGE_WRITE),
            r == 0 || r == 1,
            r == 0 <==> (!old(self).storage_map().dom().contains(key@) && old(self).storage_map().dom().len() >= MAX_STORAGE_ENTRIES),
            r == 1 ==> final(self).storage_map() == old(self).storage_map().insert(key@, val@)
                && final(self).changes_map() == old(self).changes_map().insert(key@, Some(val@)),
            r == 0 ==> final(self).storage == old(self).storage && final(self).storage_changes == old(self).storage_changes,
            final(self).logs == old(self).logs,
            final(self).events == old(self).events,
            final(self).return_data == old(self).return_data,
            final(self).last_read_value == old(self).last_read_value,
            same_call(*old(self), *final(self)),
    {
        deduct_compute(self, COMPUTE_STORAGE_WRITE);
        if !self.storage.contains_key(&key) && self.storage.len() >= MAX_STORAGE_ENTRIES {
            proof {
                assert(self.storage_map().dom() =~= self.storage.view_map().dom());
            }
            return 0;
        }
        let ghost kv = key@;
        let ghost vv = val@;
        let k2 = copy_bytes(key.as_slice());
        let v2 = copy_bytes(val.as_slice());
        self.storage.insert(key, val);
        self.storage_changes.insert(k2, Some(v2));
        proof {
            assert(self.storage_map() =~= old(self).storage_map().insert(kv, vv));
            assert(self.changes_map() =~= old(self).changes_map().insert(kv, Some(vv)));
            assert(old(self).storage_map().dom() =~= old(self).storage.view_map().dom());
        }
        1
    }

    /// Whether a storage delete of a `key_len`-byte key may go ahead.
    pub fn storage_delete_allowed(&self, key_len: u32) -> (r: bool)
        ensures
            r == (key_len <= MAX_KEY_LEN && self.compute_remaining >= COMPUTE_STORAGE_DELETE),
    {
        (key_len as usize) <= MAX_KEY_LEN && self.compute_remaining >= COMPUTE_STORAGE_DELETE
    }

    /// Deletes `key`: charges the delete; 1 when the key was there (the
    /// deletion is recorded), 0 otherwise.
    pub fn storage_delete(&mut self, key: &Vec<u8>) -> (r: u32)
        requires
            old(self).wf(),
        ensures
            final(self).wf(),
            final(self).compute_remaining == spec_deduct(old(self).compute_remaining, COMPUTE_STORAGE_DELETE),
            r == 1 <==> old(self).storage_map().dom().contains(key@),
            r == 0 || r == 1,
            final(self).storage_map() == old(self).storage_map().remove(key@),
            r == 1 ==> final(self).changes_map() == old(self).changes_map().insert(key@, None),
            r == 0 ==> final(self).storage_changes == old(self).storage_changes,
            final(self).logs == old(self).logs,
            final(self).events == old(self).events,
            final(self).return_data == old(self).return_data,
            final(self).last_read_value == old(self).last_read_value,
            same_call(*old(self), *final(self)),
    {
        deduct_compute(self, COMPUTE_STORAGE_DELETE);
        match self.storage.remove(key) {
            Some(_) => {
                let k2 = copy_bytes(key.as_slice());
                self.storage_changes.insert(k2, None);
                proof {
                    assert(self.storage_map() =~= old(self).storage_map().remove(key@));
                    assert(self.changes_map() =~= old(self).changes_map().insert(key@, None));
                }
                1
            },
            None => {
                proof {
                    assert(self.storage_map() =~= old(self).storage_map().remove(key@));
                }
                0
            },
        }
    }

    /// Whether a log message of `msg_len` bytes may be recorded.
    pub fn log_allowed(&self, msg_len: u32) -> (r: bool)
        ensures
            r == (msg_len <= MAX_LOG_LEN && self.compute_remaining >= COMPUTE_LOG),
    {
        (msg_len as usize) <= MAX_LOG_LEN && self.compute_remaining >= COMPUTE_LOG
    }

    /// Records the message in `msg` (invalid UTF-8 replaced) and charges it.
    pub fn log_message(&mut self, msg: &[u8])
        ensures
            final(self).compute_remaining == spec_deduct(old(self).compute_remaining, COMPUTE_LOG),
            final(self).logs@.len() == old(self).logs@.len() + 1,
            final(self).logs@.subrange(0, old(self).logs@.len() as int) == old(self).logs@,
            valid_utf8(msg@) ==> final(self).logs@.last()@ == decode_utf8(msg@),
            final(self).storage == old(self).storage,
            final(self).storage_changes == old(self).storage_changes,
            final(self).events == old(self).events,
            final(self).return_data == old(self).return_data,
            final(self).last_read_value == old(self).last_read_value,
            same_call(*old(self), *final(self)),
    {
        let text = utf8_decode_lossy(msg);
        deduct_compute(self, COMPUTE_LOG);
        self.logs.push(text);
        assert(self.logs@.subrange(0, old(self).logs@.len() as int) =~= old(self).logs@);
    }

    /// Whether an event of `data_len` bytes may be emitted.
    pub fn emit_event_allowed(&self, data_len: u32) -> (r: bool)
        ensures
            r == (data_len <= MAX_EVENT_DATA && self.compute_remaining >= COMPUTE_EVENT),
    {
        (data_len as usize) <= MAX_EVENT_DATA && self.compute_remaining >= COMPUTE_EVENT
    }

    /// Emits the event serialized in `data`: a JSON object of text fields,
    /// whose `name` field names the event ("Unknown" when absent) and whose
    /// other fields are its data. Returns 1, with nothing changed, when the
    /// bytes are not UTF-8 or not such an object; else charges the event,
    /// records it for this contract and slot, and returns 0.
    pub fn emit_event(&mut self, data: Vec<u8>) -> (r: u32)
        ensures
            r == 0 || r == 1,
            r == 1 <==> (!valid_utf8(data@) || json_text_map_spec(decode_utf8(data@)) is None),
            r == 1 ==> *final(self) == *old(self),
            r == 0 ==> {
                let fields = text_pairs_map(json_text_map_spec(decode_utf8(data@)).unwrap());
                &&& final(self).compute_remaining == spec_deduct(old(self).compute_remaining, COMPUTE_EVENT)
                &&& final(self).events@.len() == old(self).events@.len() + 1
                &&& final(self).events@.subrange(0, old(self).events@.len() as int) == old(self).events@
                &&& final(self).events@.last().program == old(self).contract
                &&& final(self).events@.last().slot == old(self).slot
                &&& final(self).events@.last().data.wf()
                &&& text_map_view(final(self).events@.last().data.view_map()) == fields.remove("name"@)
                &&& final(self).events@.last().name@ == (if fields.dom().contains("name"@) { fields["name"@] } else { "Unknown"@ })
                &&& final(self).storage == old(self).storage
                &&& final(self).storage_changes == old(self).storage_changes
                &&& final(self).logs == old(self).logs
                &&& final(self).return_data == old(self).return_data
                &&& final(self).last_read_value == old(self).last_read_value
                &&& same_call(*old(self), *final(self))
            },
    {
        let text = match utf8_decode(data) {
            Some(t) => t,
            None => return 1,
        };
        let pairs = match parse_json_text_map(text.as_str()) {
            Some(p) => p,
            None => return 1,
        };
        deduct_compute(self, COMPUTE_EVENT);
        let mut fields: EntryMap<String, String> = EntryMap::new();
        let ghost pv = text_pairs(pairs@);
        let mut i: usize = 0;
        while i < pairs.len()
            invariant
                i <= pairs@.len(),
                pv == text_pairs(pairs@),
                fields.wf(),
                text_map_view(fields.view_map()) == text_pairs_map(pv.subrange(0, i as int)),
            decreases pairs@.len() - i,
        {
            let k = pairs[i].0.clone();
            let v = pairs[i].1.clone();
            proof {
                lemma_text_pairs_map_push(pv.subrange(0, i as int), pv[i as int]);
                assert(pv.subrange(0, i + 1) =~= pv.subrange(0, i as int).push(pv[i as int]));
            }
            let ghost before = fields.view_map();
            fields.insert(k, v);
            proof {
                assert(text_map_view(fields.view_map()) =~= text_map_view(before).insert(pv[i as int].0, pv[i as int].1));
            }
            i += 1;
        }
        assert(pv.subrange(0, pairs@.len() as int) =~= pv);
        let name_key = String::from_str("name");
        proof {
            reveal_strlit("name");
            reveal_strlit("Unknown");
        }
        let name = match fields.get(&name_key) {
            Some(n) => n.clone(),
            None => String::from_str("Unknown"),
        };
        let ghost full = fields.view_map();
        fields.remove(&name_key);
        assert(text_map_view(fields.view_map()) =~= text_map_view(full).remove("name"@));
        let ghost old_events = self.events@;
        self.events.push(ContractEvent { program: self.contract, name, data: fields, slot: self.slot });
        assert(self.events@.subrange(0, old_events.len() as int) =~= old_events);
        0
    }

    /// Charges the copy of up to `out_len` bytes of the arguments.
    pub fn charge_get_args(&mut self, out_len: u32) -> (r: bool)
        ensures
            r == (old(self).compute_remaining >= COMPUTE_GET_ARGS + out_len * COMPUTE_BYTE_COST),
            final(self).compute_remaining == spec_deduct(old(self).compute_remaining, (COMPUTE_GET_ARGS + out_len * COMPUTE_BYTE_COST) as u64),
            *final(self) == (ContractContext { compute_remaining: final(self).compute_remaining, ..*old(self) }),
    {
        let cost = COMPUTE_GET_ARGS + (out_len as u64) * COMPUTE_BYTE_COST;
        deduct_compute(self, cost)
    }

    /// Checks the length of return data of `data_len` bytes and charges it;
    /// false when it is too long (nothing charged) or not covered.
    pub fn charge_set_return_data(&mut self, data_len: u32) -> (r: bool)
        ensures
            r == (data_len <= MAX_RETURN_DATA
                && old(self).compute_remaining >= COMPUTE_SET_RETURN_DATA + data_len * COMPUTE_BYTE_COST),
            data_len > MAX_RETURN_DATA ==> *final(self) == *old(self),
            data_len <= MAX_RETURN_DATA ==> final(self).compute_remaining
                == spec_deduct(old(self).compute_remaining, (COMPUTE_SET_RETURN_DATA + data_len * COMPUTE_BYTE_COST) as u64),
            *final(self) == (ContractContext { compute_remaining: final(self).compute_remaining, ..*old(self) }),
    {
        if (data_len as usize) > MAX_RETURN_DATA {
            return false;
        }
        let cost = COMPUTE_SET_RETURN_DATA + (data_len as u64) * COMPUTE_BYTE_COST;
        deduct_compute(self, cost)
    }

    /// Number of bytes of the arguments that fit a buffer of `out_len`.
    pub fn args_copy_len(&self, out_len: u32) -> (r: usize)
        ensures
            r == (if self.args@.len() <= out_len { self.args@.len() as int } else { out_len as int }),
    {
        if self.args.len() <= out_len as usize { self.args.len() } else { out_len as usize }
    }
}

/// Compute left after charging `cost` to `remaining`: none when it does not cover it.
// ----- The runtime's decisions around a WASM module -----

/// The message for a deploy whose first offending import is from `module`.
pub open spec fn import_problem(module: Seq<char>) -> Option<Seq<char>> {
    if module == "wasi_snapshot_preview1"@ || module == "wasi_unstable"@ {
        Some("WASI imports are forbidden — contracts cannot access host filesystem or network"@)
    } else if module != "env"@ {
        Some("Unauthorized import module '"@ + module + "'. Only 'env' imports are allowed."@)
    } else {
        None
    }
}

/// The message for an exported memory of `minimum` pages (and `maximum`
/// pages, if declared) that breaks the page limit.
pub open spec fn memory_problem(minimum: u32, maximum: Option<u32>) -> Option<Seq<char>> {
    if minimum > MAX_WASM_MEMORY_PAGES {
        Some("Contract initial memory ("@ + decimal(minimum as nat) + " pages) exceeds limit (256 pages = 16MB)"@)
    } else if maximum matches Some(m) && m > MAX_WASM_MEMORY_PAGES {
        Some("Contract max memory ("@ + decimal(maximum.unwrap() as nat) + " pages) exceeds limit (256 pages = 16MB)"@)
    } else {
        None
    }
}

/// The first problem among the imports from index `i` on.
pub open spec fn first_import_problem(imports: Seq<Seq<char>>, i: int) -> Option<Seq<char>>
    decreases imports.len() - i,
{
    if i < 0 || i >= imports.len() {
        None
    } else if import_problem(imports[i]) is Some {
        import_problem(imports[i])
    } else {
        first_import_problem(imports, i + 1)
    }
}

/// The first problem among the exported memories from index `i` on.
pub open spec fn first_memory_problem(memories: Seq<(u32, Option<u32>)>, i: int) -> Option<Seq<char>>
    decreases memories.len() - i,
{
    if i < 0 || i >= memories.len() {
        None
    } else if memory_problem(memories[i].0, memories[i].1) is Some {
        memory_problem(memories[i].0, memories[i].1)
    } else {
        first_memory_problem(memories, i + 1)
    }
}

/// Texts of a list of strings.
pub open spec fn string_views(v: Seq<String>) -> Seq<Seq<char>> {
    v.map_values(|s: String| s@)
}

/// Deploy-time checks of a module, given the modules its imports come from
/// and the page limits of the memories it exports, in the module's order:
/// imports only from `env` (WASI refused outright), memories within the
/// page limit. The first import that fails, else the first memory, gives
/// the error; otherwise the result is the SHA-256 hash of the bytecode.
pub fn deploy_checks(bytecode: &[u8], import_modules: &Vec<String>, memories: &Vec<(u32, Option<u32>)>) -> (r: Result<crate::hash::Hash, String>)
    ensures
        first_import_problem(string_views(import_modules@), 0) matches Some(m) ==> (r matches Err(e) && e@ == m),
        first_import_problem(string_views(import_modules@), 0) is None && first_memory_problem(memories@, 0) is Some
            ==> (r matches Err(e) && e@ == first_memory_problem(memories@, 0).unwrap()),
        first_import_problem(string_views(import_modules@), 0) is None && first_memory_problem(memories@, 0) is None
            ==> (r matches Ok(h) && h.0@ == sha256_spec(bytecode@)),
{
    let ghost iv = string_views(import_modules@);
    let mut i: usize = 0;
    while i < import_modules.len()
        invariant
            i <= import_modules@.len(),
            iv == string_views(import_modules@),
            first_import_problem(iv, 0) == first_import_problem(iv, i as int),
        decreases import_modules@.len() - i,
    {
        let name = &import_modules[i];
        proof {
            reveal_strlit("wasi_snapshot_preview1");
            reveal_strlit("wasi_unstable");
            reveal_strlit("env");
            assert(iv[i as int] == name@);
        }
        if *name == String::from_str("wasi_snapshot_preview1") || *name == String::from_str("wasi_unstable") {
            return Err(String::from_str("WASI imports are forbidden — contracts cannot access host filesystem or network"));
        }
        if !(*name == String::from_str("env")) {
            let mut m = String::from_str("Unauthorized import module '");
            m.append(name.as_str());
            m.append("'. Only 'env' imports are allowed.");
            return Err(m);
        }
        i += 1;
    }
    let mut k: usize = 0;
    while k < memories.len()
        invariant
            k <= memories@.len(),
            first_import_problem(iv, 0) is None,
            iv == string_views(import_modules@),
            first_memory_problem(memories@, 0) == first_memory_problem(memories@, k as int),
        decreases memories@.len() - k,
    {
        let (minimum, maximum) = memories[k];
        if minimum > MAX_WASM_MEMORY_PAGES {
            let mut m = String::from_str("Contract initial memory (");
            m.append(u64_to_decimal(minimum as u64).as_str());
            m.append(" pages) exceeds limit (256 pages = 16MB)");
            return Err(m);
        }
        match maximum {
            Some(mx) => {
                if mx > MAX_WASM_MEMORY_PAGES {
                    let mut m = String::from_str("Contract max memory (");
                    m.append(u64_to_decimal(mx as u64).as_str());
                    m.append(" pages) exceeds limit (256 pages = 16MB)");
                    return Err(m);
                }
            },
            None => {},
        }
        k += 1;
    }
    Ok(crate::hash::Hash(sha256(bytecode)))
}

/// The message for a module whose memory starts above the page limit.
pub open spec fn memory_limit_text(pages: u32) -> Seq<char> {
    "Contract memory exceeds limit: "@ + decimal(pages as nat) + " pages > 256 max"@
}

/// The check on an instantiated module's memory before the call: within
/// the page limit, or the error naming the pages.
pub fn check_memory_pages(pages: u32) -> (r: Result<(), String>)
    ensures
        pages <= MAX_WASM_MEMORY_PAGES ==> r is Ok,
        pages > MAX_WASM_MEMORY_PAGES ==> (r matches Err(e) && e@ == memory_limit_text(pages)),
{
    if pages > MAX_WASM_MEMORY_PAGES {
        let mut m = String::from_str("Contract memory exceeds limit: ");
        m.append(u64_to_decimal(pages as u64).as_str());
        m.append(" pages > 256 max");
        return Err(m);
    }
    Ok(())
}

/// Compute the WASM meter used, given the points it has left.
pub open spec fn wasm_used(metering_remaining: u64) -> u64 {
    if metering_remaining > MAX_WASM_COMPUTE_UNITS { 0 } else { (MAX_WASM_COMPUTE_UNITS - metering_remaining) as u64 }
}

/// Compute the host functions charged, from `initial` down to `remaining`.
pub open spec fn host_used(initial: u64, remaining: u64) -> u64 {
    if remaining > initial { 0 } else { (initial - remaining) as u64 }
}

/// Host and WASM compute together, saturating.
pub open spec fn total_used(initial: u64, remaining: u64, metering_remaining: u64) -> u64 {
    let t = host_used(initial, remaining) + wasm_used(metering_remaining);
    if t > u64::MAX { u64::MAX } else { t as u64 }
}

/// The error a finished call reports, if it failed: memory grown past the
/// limit, the unified budget exceeded, or a trap (out of gas when the meter
/// ran dry).
pub open spec fn outcome_error(final_pages: Option<u32>, used: u64, metering_remaining: u64, initial: u64,
    remaining: u64, trap: Option<Seq<char>>) -> Option<Seq<char>> {
    if final_pages matches Some(p) && p > MAX_WASM_MEMORY_PAGES {
        Some("Contract exceeded memory limit during execution: "@ + decimal(final_pages.unwrap() as nat) + " pages > 256 max"@)
    } else if used > DEFAULT_COMPUTE_LIMIT {
        Some("Contract exceeded unified compute budget: "@ + decimal(used as nat) + " > 1000000 (WASM: "@
            + decimal(wasm_used(metering_remaining) as nat) + ", host: "@ + decimal(host_used(initial, remaining) as nat) + ")"@)
    } else if trap is Some {
        if metering_remaining == 0 {
            Some("Contract execution exceeded compute budget (out of gas)"@)
        } else {
            Some("Contract trap: "@ + trap.unwrap())
        }
    } else {
        None
    }
}

/// What a finished call returns, from the context as the call left it, the
/// compute the context started with, the points the WASM meter has left,
/// the memory's pages after the call (None without an exported memory) and
/// the trap's message if the call trapped. A failed call keeps its logs but
/// drops its events, storage changes and return data.
pub fn execution_outcome(ctx: ContractContext, initial_compute: u64, metering_remaining: u64,
    final_pages: Option<u32>, trap: Option<String>) -> (r: ContractResult)
    ensures
        r.compute_used == total_used(initial_compute, ctx.compute_remaining, metering_remaining),
        r.logs@ == ctx.logs@,
        ({
            let err = outcome_error(final_pages, r.compute_used, metering_remaining, initial_compute,
                ctx.compute_remaining, match trap { Some(t) => Some(t@), None => None });
            &&& r.success <==> err is None
            &&& r.error is Some <==> err is Some
            &&& r.error matches Some(e) ==> e@ == err.unwrap()
            &&& r.success ==> r.return_data@ == ctx.return_data@ && r.events@ == ctx.events@
                && r.storage_changes == ctx.storage_changes
            &&& !r.success ==> r.return_data@.len() == 0 && r.events@.len() == 0
                && r.storage_changes.wf() && r.storage_changes.view_map().dom().len() == 0
        }),
{
    let wasm = MAX_WASM_COMPUTE_UNITS.saturating_sub(metering_remaining);
    let host = initial_compute.saturating_sub(ctx.compute_remaining);
    let used = host.saturating_add(wasm);
    let logs = ctx.logs;
    match final_pages {
        Some(p) => {
            if p > MAX_WASM_MEMORY_PAGES {
                let mut m = String::from_str("Contract exceeded memory limit during execution: ");
                m.append(u64_to_decimal(p as u64).as_str());
                m.append(" pages > 256 max");
                return ContractResult { return_data: Vec::new(), logs, events: Vec::new(),
                    storage_changes: EntryMap::new(), success: false, error: Some(m), compute_used: used };
            }
        },
        None => {},
    }
    if used > DEFAULT_COMPUTE_LIMIT {
        let mut m = String::from_str("Contract exceeded unified compute budget: ");
        m.append(u64_to_decimal(used).as_str());
        m.append(" > 1000000 (WASM: ");
        m.append(u64_to_decimal(wasm).as_str());
        m.append(", host: ");
        m.append(u64_to_decimal(host).as_str());
        m.append(")");
        return ContractResult { return_data: Vec::new(), logs, events: Vec::new(),
            storage_changes: EntryMap::new(), success: false, error: Some(m), compute_used: used };
    }
    match trap {
        None => ContractResult { return_data: ctx.return_data, logs, events: ctx.events,
            storage_changes: ctx.storage_changes, success: true, error: None, compute_used: used },
        Some(t) => {
            let m = if metering_remaining == 0 {
                String::from_str("Contract execution exceeded compute budget (out of gas)")
            } else {
                let mut m = String::from_str("Contract trap: ");
                m.append(t.as_str());
                m
            };
            ContractResult { return_data: Vec::new(), logs, events: Vec::new(),
                storage_changes: EntryMap::new(), success: false, error: Some(m), compute_used: used }
        },
    }
}

pub open spec fn spec_deduct(remaining: u64, cost: u64) -> u64 {
    if remaining < cost { 0 } else { (remaining - cost) as u64 }
}

/// Charges `cost` to the context: true and the budget reduced when it
/// covers the cost; otherwise false and the budget spent.
pub fn deduct_compute(ctx: &mut ContractContext, cost: u64) -> (r: bool)
    ensures
        r == (old(ctx).compute_remaining >= cost),
        final(ctx).compute_remaining == spec_deduct(old(ctx).compute_remaining, cost),
        *final(ctx) == (ContractContext { compute_remaining: final(ctx).compute_remaining, ..*old(ctx) }),
{
    if ctx.compute_remaining < cost {
        ctx.compute_remaining = 0;
        false
    } else {
        ctx.compute_remaining = ctx.compute_remaining - cost;
        true
    }
}

/// Charging never raises the budget, and a failed charge leaves nothing.
pub proof fn lemma_deduct_monotone(remaining: u64, cost: u64)
    ensures
        spec_deduct(remaining, cost) <= remaining,
        remaining < cost ==> spec_deduct(remaining, cost) == 0,
        remaining >= cost ==> spec_deduct(remaining, cost) + cost == remaining,
{
}

// ----- Event JSON -----

/// Names the text map that `serde_json` reads from `s`: the (field, text)
/// pairs of a JSON object whose values are all strings, in key order; None
/// when `s` is not such an object.
pub uninterp spec fn json_text_map_spec(s: Seq<char>) -> Option<Seq<(Seq<char>, Seq<char>)>>;

/// Views of text pairs.
pub open spec fn text_pairs(p: Seq<(String, String)>) -> Seq<(Seq<char>, Seq<char>)> {
    p.map_values(|e: (String, String)| (e.0@, e.1@))
}

/// The map of text pairs (later pairs win).
pub open spec fn text_pairs_map(p: Seq<(Seq<char>, Seq<char>)>) -> Map<Seq<char>, Seq<char>>
    decreases p.len(),
{
    if p.len() == 0 {
        Map::empty()
    } else {
        text_pairs_map(p.drop_last()).insert(p.last().0, p.last().1)
    }
}

/// Views of a map of text values.
pub open spec fn text_map_view(m: Map<Seq<char>, String>) -> Map<Seq<char>, Seq<char>> {
    m.map_values(|v: String| v@)
}

proof fn lemma_text_pairs_map_push(p: Seq<(Seq<char>, Seq<char>)>, x: (Seq<char>, Seq<char>))
    ensures
        text_pairs_map(p.push(x)) == text_pairs_map(p).insert(x.0, x.1),
{
    assert(p.push(x).drop_last() =~= p);
}

/// `serde_json::from_str` into a `BTreeMap<String, String>`: the object's
/// fields in key order (see `json_text_map_spec`).
#[verifier::external_body]
fn parse_json_text_map(s: &str) -> (r: Option<Vec<(String, String)>>)
    ensures
        r is Some <==> json_text_map_spec(s@) is Some,
        r matches Some(p) ==> text_pairs(p@) == json_text_map_spec(s@).unwrap(),
{
    match serde_json::from_str::<std::collections::BTreeMap<String, String>>(s) {
        Ok(m) => Some(m.into_iter().collect()),
        Err(_) => None,
    }
}

} // verus!
