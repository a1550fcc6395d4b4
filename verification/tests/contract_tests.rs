use moltchain_core::contract::{abi_from_exports, AbiType, WasmFunctionExport, WasmValType};
use moltchain_core::consensus::oracle::{molt_price_feed_from_contract, price_feed_usable};
use moltchain_core::account::Pubkey;
use moltchain_core::contract::{
    deduct_compute, ContractAccount, ContractContext, ContractEvent, ContractResult,
    COMPUTE_EVENT, COMPUTE_LOG, COMPUTE_STORAGE_DELETE, COMPUTE_STORAGE_READ,
    COMPUTE_STORAGE_WRITE, DEFAULT_COMPUTE_LIMIT, MAX_KEY_LEN, deploy_checks, check_memory_pages,
    execution_outcome, MAX_WASM_COMPUTE_UNITS,
};
use moltchain_core::entry_map::EntryMap;
use moltchain_core::text::u64_to_decimal;

#[test]
fn test_contract_account() {
    let owner = Pubkey::new([1u8; 32]);
    let code = vec![0x00, 0x61, 0x73, 0x6d]; // WASM magic number
    let contract = ContractAccount::new(code.clone(), owner, None);

    assert_eq!(contract.code, code);
    assert_eq!(contract.owner, owner);
    assert_eq!(contract.storage.len(), 0);
}

#[test]
fn test_contract_context() {
    let caller = Pubkey::new([1u8; 32]);
    let contract = Pubkey::new([2u8; 32]);
    let ctx = ContractContext::new(caller, contract, 1000, 100);

    assert_eq!(ctx.value, 1000);
    assert_eq!(ctx.slot, 100);
    assert!(ctx.storage.is_empty());
    assert!(ctx.storage_changes.is_empty());
    assert!(ctx.args.is_empty());
    assert!(ctx.return_data.is_empty());
    assert!(ctx.events.is_empty());
    assert_eq!(ctx.compute_remaining, DEFAULT_COMPUTE_LIMIT);
}

#[test]
fn test_contract_context_with_storage() {
    let caller = Pubkey::new([1u8; 32]);
    let contract = Pubkey::new([2u8; 32]);
    let mut store = EntryMap::new();
    store.insert(b"key1".to_vec(), b"val1".to_vec());

    let ctx = ContractContext::with_storage(caller, contract, 0, 50, store.clone());
    assert_eq!(ctx.storage.len(), 1);
    assert_eq!(ctx.storage.get(&b"key1".to_vec()), Some(&b"val1".to_vec()));
    assert_eq!(ctx.compute_remaining, DEFAULT_COMPUTE_LIMIT);
}

#[test]
fn test_contract_context_with_args() {
    let caller = Pubkey::new([1u8; 32]);
    let contract = Pubkey::new([2u8; 32]);
    let args = vec![1, 2, 3, 4];
    let ctx = ContractContext::with_args(caller, contract, 500, 42, EntryMap::new(), args.clone());
    assert_eq!(ctx.args, args);
    assert_eq!(ctx.value, 500);
    assert_eq!(ctx.slot, 42);
}

#[test]
fn test_contract_event() {
    let program = Pubkey::new([3u8; 32]);
    let mut data = EntryMap::new();
    data.insert("from".to_string(), "alice".to_string());
    data.insert("to".to_string(), "bob".to_string());
    data.insert("amount".to_string(), "1000".to_string());

    let event = ContractEvent {
        program,
        name: "Transfer".to_string(),
        data: data.clone(),
        slot: 100,
    };

    assert_eq!(event.name, "Transfer");
    assert_eq!(event.data.len(), 3);
    assert_eq!(event.slot, 100);
}

#[test]
fn test_contract_result_fields() {
    let result = ContractResult {
        return_data: vec![42],
        logs: vec!["hello".to_string()],
        events: vec![ContractEvent {
            program: Pubkey::new([1u8; 32]),
            name: "Test".to_string(),
            data: EntryMap::new(),
            slot: 1,
        }],
        storage_changes: EntryMap::new(),
        success: true,
        error: None,
        compute_used: 500,
    };

    assert!(result.success);
    assert_eq!(result.return_data, vec![42]);
    assert_eq!(result.events.len(), 1);
    assert_eq!(result.compute_used, 500);
}

#[test]
fn test_deduct_compute() {
    let caller = Pubkey::new([1u8; 32]);
    let contract = Pubkey::new([2u8; 32]);
    let mut ctx = ContractContext::new(caller, contract, 0, 0);
    ctx.compute_remaining = 500;

    assert!(deduct_compute(&mut ctx, 200));
    assert_eq!(ctx.compute_remaining, 300);

    assert!(deduct_compute(&mut ctx, 300));
    assert_eq!(ctx.compute_remaining, 0);

    assert!(!deduct_compute(&mut ctx, 1));
    assert_eq!(ctx.compute_remaining, 0);
}

#[test]
fn test_contract_account_storage() {
    let owner = Pubkey::new([1u8; 32]);
    let mut contract = ContractAccount::new(vec![0x00], owner, None);

    contract.set_storage(b"hello".to_vec(), b"world".to_vec());
    assert_eq!(contract.get_storage(b"hello"), Some(b"world".to_vec()));

    let removed = contract.remove_storage(b"hello");
    assert_eq!(removed, Some(b"world".to_vec()));
    assert_eq!(contract.get_storage(b"hello"), None);
}

#[test]
fn test_contract_account_code_hash_and_size() {
    let owner = Pubkey::new([1u8; 32]);
    let mut contract = ContractAccount::new(b"abc".to_vec(), owner, None);
    // SHA-256("abc")
    assert_eq!(contract.code_hash.0[0], 0xba);
    assert_eq!(contract.code_hash.0[31], 0xad);
    assert_eq!(contract.size(), 3);
    contract.set_storage(b"key".to_vec(), b"value".to_vec());
    assert_eq!(contract.size(), 3 + 3 + 5);
    contract.set_storage(b"key".to_vec(), b"v".to_vec());
    assert_eq!(contract.size(), 3 + 3 + 1);
}

fn ctx() -> ContractContext {
    ContractContext::new(Pubkey::new([1u8; 32]), Pubkey::new([2u8; 32]), 0, 7)
}

#[test]
fn test_host_storage_write_then_read() {
    let mut c = ctx();
    assert!(c.storage_write_allowed(3, 5));
    assert_eq!(c.storage_write(b"key".to_vec(), b"value".to_vec()), 1);
    assert_eq!(c.compute_remaining, DEFAULT_COMPUTE_LIMIT - COMPUTE_STORAGE_WRITE);
    assert_eq!(c.storage_changes.get(&b"key".to_vec()), Some(&Some(b"value".to_vec())));

    assert!(c.storage_read_allowed(3));
    let (v, n) = c.storage_read(&b"key".to_vec(), 2).unwrap();
    assert_eq!(v, b"value".to_vec());
    assert_eq!(n, 2);
    assert_eq!(c.last_read_value, b"value".to_vec());
    assert_eq!(
        c.compute_remaining,
        DEFAULT_COMPUTE_LIMIT - COMPUTE_STORAGE_WRITE - COMPUTE_STORAGE_READ
    );

    assert!(c.storage_read(&b"nope".to_vec(), 10).is_none());
    assert!(c.last_read_value.is_empty());
}

#[test]
fn test_host_storage_delete() {
    let mut c = ctx();
    c.storage_write(b"k".to_vec(), b"v".to_vec());
    assert_eq!(c.storage_delete(&b"k".to_vec()), 1);
    assert_eq!(c.storage_changes.get(&b"k".to_vec()), Some(&None));
    assert_eq!(c.storage_delete(&b"k".to_vec()), 0);
    assert!(c.storage.is_empty());
    assert_eq!(
        c.compute_remaining,
        DEFAULT_COMPUTE_LIMIT - COMPUTE_STORAGE_WRITE - 2 * COMPUTE_STORAGE_DELETE
    );
}

#[test]
fn test_host_limits() {
    let mut c = ctx();
    assert!(!c.storage_read_allowed((MAX_KEY_LEN + 1) as u32));
    assert!(!c.storage_write_allowed(3, 65_537));
    assert!(!c.log_allowed(16_385));
    assert!(!c.emit_event_allowed(8_193));
    assert!(!c.charge_set_return_data(65_537));
    assert_eq!(c.compute_remaining, DEFAULT_COMPUTE_LIMIT);
    c.compute_remaining = 99;
    assert!(!c.storage_read_allowed(3));
    assert!(!c.storage_delete_allowed(3));
    assert!(!c.charge_get_args(100));
    assert_eq!(c.compute_remaining, 0);
}

#[test]
fn test_host_log_and_event() {
    let mut c = ctx();
    c.log_message(b"hello");
    assert_eq!(c.logs, vec!["hello".to_string()]);
    assert_eq!(c.compute_remaining, DEFAULT_COMPUTE_LIMIT - COMPUTE_LOG);

    let json = br#"{"name":"Transfer","from":"alice","amount":"5"}"#.to_vec();
    assert_eq!(c.emit_event(json), 0);
    let e = c.events.last().unwrap();
    assert_eq!(e.name, "Transfer");
    assert_eq!(e.slot, 7);
    assert_eq!(e.program, Pubkey::new([2u8; 32]));
    assert_eq!(e.data.len(), 2);
    assert_eq!(e.data.get(&"from".to_string()), Some(&"alice".to_string()));
    assert!(e.data.get(&"name".to_string()).is_none());
    assert_eq!(
        c.compute_remaining,
        DEFAULT_COMPUTE_LIMIT - COMPUTE_LOG - COMPUTE_EVENT
    );

    assert_eq!(c.emit_event(br#"{"from":"x"}"#.to_vec()), 0);
    assert_eq!(c.events.last().unwrap().name, "Unknown");

    let before = c.compute_remaining;
    assert_eq!(c.emit_event(b"not json".to_vec()), 1);
    assert_eq!(c.emit_event(vec![0xff, 0xfe]), 1);
    assert_eq!(c.compute_remaining, before);
    assert_eq!(c.events.len(), 2);
}

#[test]
fn test_args_copy_len() {
    let c = ContractContext::with_args(
        Pubkey::new([1u8; 32]),
        Pubkey::new([2u8; 32]),
        0,
        0,
        EntryMap::new(),
        vec![1, 2, 3],
    );
    assert_eq!(c.args_copy_len(2), 2);
    assert_eq!(c.args_copy_len(10), 3);
}

#[test]
fn test_u64_to_decimal() {
    assert_eq!(u64_to_decimal(0), "0");
    assert_eq!(u64_to_decimal(7), "7");
    assert_eq!(u64_to_decimal(1000), "1000");
    assert_eq!(u64_to_decimal(u64::MAX), u64::MAX.to_string());
}

#[test]
fn test_molt_price_feed_from_contract() {
    let mut c = ContractAccount::new(vec![0], Pubkey::new([1u8; 32]), None);
    assert_eq!(molt_price_feed_from_contract(&c), None);
    let mut feed = Vec::new();
    feed.extend_from_slice(&12_345_678u64.to_le_bytes());
    feed.extend_from_slice(&1_700_000_000u64.to_le_bytes());
    feed.push(8);
    feed.extend_from_slice(&[7u8; 32]);
    c.set_storage(b"price_MOLT".to_vec(), feed.clone());
    assert_eq!(molt_price_feed_from_contract(&c), Some((12_345_678, 8, 1_700_000_000)));
    c.set_storage(b"price_MOLT".to_vec(), feed[..16].to_vec());
    assert_eq!(molt_price_feed_from_contract(&c), None);

    assert!(price_feed_usable(12_345_678, 8, 1_700_000_000, 1_700_000_100));
    assert!(!price_feed_usable(12_345_678, 8, 1_700_000_000, 1_700_003_601));
    assert!(price_feed_usable(12_345_678, 8, 1_700_000_000, 0));
    assert!(!price_feed_usable(0, 8, 1, 1));
    assert!(!price_feed_usable(1, 19, 1, 1));
}

#[test]
fn test_deploy_checks() {
    let code = vec![0x00, 0x61, 0x73, 0x6d];
    let env = vec!["env".to_string(), "env".to_string()];
    let h = deploy_checks(&code, &env, &vec![(16, Some(256))]).unwrap();
    assert_eq!(h, moltchain_core::hash::Hash::hash(&code));
    let wasi = vec!["env".to_string(), "wasi_unstable".to_string()];
    assert_eq!(
        deploy_checks(&code, &wasi, &vec![]).unwrap_err(),
        "WASI imports are forbidden — contracts cannot access host filesystem or network"
    );
    let other = vec!["host".to_string(), "wasi_unstable".to_string()];
    assert_eq!(
        deploy_checks(&code, &other, &vec![]).unwrap_err(),
        "Unauthorized import module 'host'. Only 'env' imports are allowed."
    );
    assert_eq!(
        deploy_checks(&code, &env, &vec![(257, None)]).unwrap_err(),
        "Contract initial memory (257 pages) exceeds limit (256 pages = 16MB)"
    );
    assert_eq!(
        deploy_checks(&code, &env, &vec![(1, Some(1000))]).unwrap_err(),
        "Contract max memory (1000 pages) exceeds limit (256 pages = 16MB)"
    );
    assert_eq!(check_memory_pages(300).unwrap_err(), "Contract memory exceeds limit: 300 pages > 256 max");
    assert!(check_memory_pages(256).is_ok());
}

#[test]
fn test_execution_outcome() {
    let caller = Pubkey::new([1u8; 32]);
    let contract = Pubkey::new([2u8; 32]);
    let mut ctx = ContractContext::new(caller, contract, 0, 7);
    let initial = ctx.compute_remaining;
    assert_eq!(ctx.storage_write(b"k".to_vec(), b"v".to_vec()), 1);
    ctx.log_message(b"hi");
    let host = initial - ctx.compute_remaining;
    // A clean run keeps everything and counts host plus WASM compute.
    let ok = execution_outcome(ctx.clone(), initial, MAX_WASM_COMPUTE_UNITS - 500, Some(16), None);
    assert!(ok.success);
    assert!(ok.error.is_none());
    assert_eq!(ok.compute_used, host + 500);
    assert_eq!(ok.logs, vec!["hi".to_string()]);
    assert_eq!(ok.storage_changes.len(), 1);
    // A trap keeps the logs and drops the changes.
    let trapped = execution_outcome(ctx.clone(), initial, MAX_WASM_COMPUTE_UNITS - 100, None, Some("unreachable".to_string()));
    assert!(!trapped.success);
    assert_eq!(trapped.error.unwrap(), "Contract trap: unreachable");
    assert_eq!(trapped.logs, vec!["hi".to_string()]);
    assert_eq!(trapped.storage_changes.len(), 0);
    // An exhausted meter is reported as out of gas; the total exceeds the budget first.
    let gas = execution_outcome(ctx.clone(), initial, 0, None, Some("trap".to_string()));
    assert_eq!(
        gas.error.clone().unwrap(),
        format!("Contract exceeded unified compute budget: {} > 1000000 (WASM: 1400000, host: {})", host + 1_400_000, host)
    );
    assert_eq!(gas.compute_used, host + 1_400_000);
    // Memory grown past the limit is reported before the budget.
    let mem = execution_outcome(ctx, initial, 0, Some(300), None);
    assert_eq!(mem.error.unwrap(), "Contract exceeded memory limit during execution: 300 pages > 256 max");
    assert!(mem.events.is_empty());
}

#[test]
fn test_abi_from_exports() {
    let export = |name: &str, params: Vec<WasmValType>, results: Vec<WasmValType>| WasmFunctionExport {
        name: name.to_string(),
        params,
        results,
    };
    let exports = vec![
        export("__heap_base", vec![], vec![]),
        export("transfer", vec![WasmValType::I32, WasmValType::I64], vec![WasmValType::I32]),
        export("memory", vec![], vec![]),
        export("tick", vec![WasmValType::Other], vec![]),
    ];
    let abi = abi_from_exports(&exports).unwrap();
    assert_eq!(abi.version, "1.0");
    assert_eq!(abi.name, "unknown");
    assert_eq!(abi.functions.len(), 2);
    assert_eq!(abi.functions[0].name, "transfer");
    assert_eq!(abi.functions[0].params[1].name, "arg1");
    assert_eq!(abi.functions[0].params[1].param_type, AbiType::I64);
    assert_eq!(abi.functions[0].returns.as_ref().unwrap().return_type, AbiType::I32);
    assert_eq!(abi.functions[1].params[0].param_type, AbiType::I32);
    assert!(abi.functions[1].returns.is_none());
    assert!(abi_from_exports(&vec![export("__data_end", vec![], vec![])]).is_none());
}
