use simple_wasmi_vm::account::BankAccount;
use simple_wasmi_vm::address::CanonicalAddress;
use simple_wasmi_vm::bind::{vm_initialize, BLOCK_HEIGHT, BLOCK_TIME};
use simple_wasmi_vm::env::{BlockInfo, Coin, ContractInfo, Env, MessageInfo, TransactionInfo};
use simple_wasmi_vm::error::{RuntimeFault, SimpleVMError};
use simple_wasmi_vm::extension::{ContractMeta, SimpleWasmiVMExtension};
use simple_wasmi_vm::gas::{Gas, VmGas, VmGasCheckpoint};
use simple_wasmi_vm::storage::Order;
use simple_wasmi_vm::vm::SimpleWasmiVM;

fn state() -> SimpleWasmiVMExtension {
    let mut state = SimpleWasmiVMExtension::new(BankAccount(10_000), Gas::new(1_000_000));
    state.codes.insert(1, vec![0, 97, 115, 109]);
    state.codes.insert(2, vec![9, 9]);
    state
}

fn meta(code_id: u64) -> ContractMeta {
    ContractMeta { code_id, admin: None, label: String::from("test") }
}

fn host_at(address: &str) -> SimpleWasmiVM {
    SimpleWasmiVM::new(
        Env {
            block: BlockInfo { height: 12, time: 34, chain_id: String::from("chain") },
            transaction: Some(TransactionInfo { index: 5 }),
            contract: ContractInfo { address: String::from(address) },
        },
        MessageInfo { sender: String::from("1"), funds: vec![] },
    )
}

fn coins(amount: u128) -> Vec<Coin> {
    vec![Coin { denom: String::from("unit"), amount }]
}

#[test]
fn new_state_holds_nothing() {
    let state = SimpleWasmiVMExtension::new(BankAccount(3), Gas::new(8));
    assert!(state.storage.is_empty());
    assert!(state.codes.is_empty());
    assert!(state.contracts.is_empty());
    assert_eq!(state.next_account_id, BankAccount(3));
    assert_eq!(state.transaction_depth, 0);
    assert_eq!(state.gas.checkpoints(), &vec![8]);
}

#[test]
fn top_level_call_runs_in_the_placeholder_block() {
    let loaded = vm_initialize(BankAccount(7), BankAccount(10_000), coins(5), &[1, 2, 3]);
    assert_eq!(loaded.code, vec![1, 2, 3]);
    assert_eq!(BLOCK_HEIGHT, 0xDEADC0DE);
    assert_eq!(BLOCK_TIME, 0);
    assert_eq!(
        loaded.vm.env,
        Env {
            block: BlockInfo { height: 3_735_929_054, time: 0, chain_id: String::from("abstract-test") },
            transaction: None,
            contract: ContractInfo { address: String::from("10000") },
        }
    );
    assert_eq!(loaded.vm.info, MessageInfo { sender: String::from("7"), funds: coins(5) });
    assert_eq!(loaded.vm.env(), loaded.vm.env);
    assert_eq!(loaded.vm.info(), loaded.vm.info);
}

#[test]
fn contract_meta_of_an_unknown_contract_is_not_found() {
    let state = state();
    let host = host_at("10000");
    assert_eq!(
        host.contract_meta(&state, BankAccount(4)),
        Err(SimpleVMError::ContractNotFound(BankAccount(4)))
    );
    assert_eq!(
        state.contract_meta(BankAccount(4)),
        Err(SimpleVMError::ContractNotFound(BankAccount(4)))
    );
}

#[test]
fn set_contract_meta_replaces_but_does_not_register() {
    let mut state = state();
    let host = host_at("10000");
    assert_eq!(
        host.set_contract_meta(&mut state, BankAccount(4), meta(2)),
        Err(SimpleVMError::ContractNotFound(BankAccount(4)))
    );
    assert!(state.contracts.is_empty());
    state.contracts.insert(4, meta(1));
    assert_eq!(host.set_contract_meta(&mut state, BankAccount(4), meta(2)), Ok(()));
    assert_eq!(host.contract_meta(&state, BankAccount(4)), Ok(meta(2)));
    assert_eq!(state.contracts.len(), 1);
}

#[test]
fn running_contract_meta_is_that_of_the_running_contract() {
    let mut state = state();
    state.contracts.insert(10_000, meta(2));
    state.contracts.insert(10_001, meta(1));
    assert_eq!(host_at("10000").running_contract_meta(&state), Ok(meta(2)));
    assert_eq!(host_at("10001").running_contract_meta(&state), Ok(meta(1)));
}

#[test]
fn code_of_an_unknown_identifier_is_not_found() {
    let state = state();
    assert_eq!(state.code(1), Ok(vec![0, 97, 115, 109]));
    assert_eq!(state.code(3), Err(SimpleVMError::CodeNotFound(3)));
}

#[test]
fn allocation_hands_out_the_counter_and_moves_it_on() {
    let mut state = state();
    assert_eq!(state.allocate_account(), BankAccount(10_000));
    assert_eq!(state.allocate_account(), BankAccount(10_001));
    assert_eq!(state.next_account_id, BankAccount(10_002));
}

#[test]
fn sub_call_runs_the_code_of_the_target() {
    let mut state = state();
    state.contracts.insert(20, meta(2));
    let host = host_at("10");
    let sub = host.load_subvm(&state, BankAccount(20), coins(9)).unwrap();
    assert_eq!(sub.code, vec![9, 9]);
    assert_eq!(
        sub.vm.env,
        Env {
            block: BlockInfo { height: 12, time: 34, chain_id: String::from("chain") },
            transaction: Some(TransactionInfo { index: 5 }),
            contract: ContractInfo { address: String::from("20") },
        }
    );
    assert_eq!(sub.vm.info, MessageInfo { sender: String::from("10"), funds: coins(9) });
}

#[test]
fn sub_call_to_an_unknown_contract_is_not_found() {
    let state = state();
    let host = host_at("10");
    assert_eq!(
        host.load_subvm(&state, BankAccount(20), vec![]),
        Err(SimpleVMError::ContractNotFound(BankAccount(20)))
    );
    assert_eq!(
        host.continue_execute(&state, BankAccount(20), vec![]),
        Err(SimpleVMError::ContractNotFound(BankAccount(20)))
    );
    assert_eq!(
        host.continue_migrate(&state, BankAccount(20)),
        Err(SimpleVMError::ContractNotFound(BankAccount(20)))
    );
    assert_eq!(
        host.query_continuation(&state, BankAccount(20)),
        Err(SimpleVMError::ContractNotFound(BankAccount(20)))
    );
}

#[test]
fn sub_call_to_a_contract_whose_code_is_missing_finds_no_code() {
    let mut state = state();
    state.contracts.insert(20, meta(77));
    let host = host_at("10");
    assert_eq!(host.load_subvm(&state, BankAccount(20), vec![]), Err(SimpleVMError::CodeNotFound(77)));
}

#[test]
fn execute_carries_funds_and_query_and_migrate_carry_none() {
    let mut state = state();
    state.contracts.insert(20, meta(1));
    let host = host_at("10");
    let execute = host.continue_execute(&state, BankAccount(20), coins(3)).unwrap();
    assert_eq!(execute.vm.info.funds, coins(3));
    assert_eq!(execute.vm.info.sender, "10");
    let query = host.query_continuation(&state, BankAccount(20)).unwrap();
    assert!(query.vm.info.funds.is_empty());
    assert_eq!(query.code, vec![0, 97, 115, 109]);
    let migrate = host.continue_migrate(&state, BankAccount(20)).unwrap();
    assert!(migrate.vm.info.funds.is_empty());
    assert_eq!(migrate.vm.env.contract.address, "20");
}

#[test]
fn instantiate_allocates_and_registers_before_the_call() {
    let mut state = state();
    let host = host_at("7");
    let (account, sub) = host.continue_instantiate(&mut state, meta(1), coins(2)).unwrap();
    assert_eq!(account, BankAccount(10_000));
    assert_eq!(state.next_account_id, BankAccount(10_001));
    assert_eq!(state.contract_meta(account), Ok(meta(1)));
    assert_eq!(sub.code, vec![0, 97, 115, 109]);
    assert_eq!(sub.vm.env.contract.address, "10000");
    assert_eq!(sub.vm.info, MessageInfo { sender: String::from("7"), funds: coins(2) });
    assert_eq!(sub.vm.running_contract_meta(&state), Ok(meta(1)));
}

#[test]
fn instantiate_without_code_keeps_the_account_allocated() {
    let mut state = state();
    let host = host_at("7");
    assert_eq!(
        host.continue_instantiate(&mut state, meta(55), vec![]),
        Err(SimpleVMError::CodeNotFound(55))
    );
    assert_eq!(state.next_account_id, BankAccount(10_001));
    assert_eq!(state.contract_meta(BankAccount(10_000)), Ok(meta(55)));
}

#[test]
fn instantiated_accounts_rise_and_are_never_reused() {
    let mut state = state();
    let host = host_at("7");
    let mut seen: Vec<BankAccount> = Vec::new();
    for _ in 0..20 {
        let (account, _) = host.continue_instantiate(&mut state, meta(1), vec![]).unwrap();
        assert!(seen.iter().all(|earlier| *earlier < account));
        seen.push(account);
    }
    assert_eq!(seen[0], BankAccount(10_000));
    assert_eq!(seen[19], BankAccount(10_019));
    assert_eq!(state.contracts.len(), 20);
}

#[test]
fn contract_reads_what_it_wrote() {
    let mut state = state();
    let host = host_at("10000");
    assert_eq!(host.db_read(&state, b"x".to_vec()), Ok(None));
    assert_eq!(host.db_write(&mut state, b"x".to_vec(), vec![1, 2, 3]), Ok(()));
    assert_eq!(host.db_read(&state, b"x".to_vec()), Ok(Some(vec![1, 2, 3])));
    assert_eq!(host.db_remove(&mut state, b"x".to_vec()), Ok(()));
    assert_eq!(host.db_read(&state, b"x".to_vec()), Ok(None));
}

#[test]
fn stores_of_different_accounts_are_isolated() {
    let mut state = state();
    let a = host_at("10000");
    let b = host_at("10001");
    a.db_write(&mut state, b"k".to_vec(), b"of a".to_vec()).unwrap();
    assert_eq!(b.db_read(&state, b"k".to_vec()), Ok(None));
    b.db_write(&mut state, b"k".to_vec(), b"of b".to_vec()).unwrap();
    assert_eq!(a.db_read(&state, b"k".to_vec()), Ok(Some(b"of a".to_vec())));
    assert_eq!(b.db_read(&state, b"k".to_vec()), Ok(Some(b"of b".to_vec())));
    b.db_remove(&mut state, b"k".to_vec()).unwrap();
    assert_eq!(a.db_read(&state, b"k".to_vec()), Ok(Some(b"of a".to_vec())));
}

#[test]
fn raw_query_reads_the_store_of_the_account_named() {
    let mut state = state();
    let a = host_at("10000");
    let b = host_at("10001");
    a.db_write(&mut state, b"k".to_vec(), b"v".to_vec()).unwrap();
    assert_eq!(b.query_raw(&state, BankAccount(10_000), b"k".to_vec()), Ok(Some(b"v".to_vec())));
    assert_eq!(b.query_raw(&state, BankAccount(10_001), b"k".to_vec()), Ok(None));
    assert_eq!(b.query_raw(&state, BankAccount(5), b"k".to_vec()), Ok(None));
}

#[test]
fn reading_gives_an_account_no_store() {
    let mut state = state();
    let host = host_at("10000");
    assert_eq!(host.db_read(&state, b"k".to_vec()), Ok(None));
    assert_eq!(host.query_raw(&state, BankAccount(3), b"k".to_vec()), Ok(None));
    assert_eq!(host.db_scan(&mut state, None, None, Order::Ascending), Ok(1));
    assert!(state.storage.is_empty());
}

#[test]
fn writing_and_removing_give_an_account_its_store() {
    let mut state = state();
    host_at("10000").db_write(&mut state, b"k".to_vec(), b"v".to_vec()).unwrap();
    assert!(state.storage.contains_key(&10_000));
    host_at("10001").db_remove(&mut state, b"k".to_vec()).unwrap();
    assert!(state.storage.contains_key(&10_001));
    assert!(state.storage[&10_001].data().is_empty());
    assert_eq!(state.storage.len(), 2);
}

#[test]
fn scan_of_an_account_without_store_leaves_no_cursor() {
    let mut state = state();
    let host = host_at("10000");
    assert_eq!(host.db_scan(&mut state, None, None, Order::Ascending), Ok(1));
    assert_eq!(host.db_scan(&mut state, None, None, Order::Ascending), Ok(1));
    assert_eq!(host.db_next(&mut state, 1), Err(SimpleVMError::IteratorDoesNotExist));
}

#[test]
fn scan_walks_all_entries_whatever_the_bounds() {
    let mut state = state();
    let host = host_at("10000");
    for key in [b"b", b"a", b"c"] {
        host.db_write(&mut state, key.to_vec(), key.to_vec()).unwrap();
    }
    let handle =
        host.db_scan(&mut state, Some(b"b".to_vec()), Some(b"c".to_vec()), Order::Ascending).unwrap();
    assert_eq!(handle, 1);
    assert_eq!(host.db_next(&mut state, handle), Ok((b"a".to_vec(), b"a".to_vec())));
    assert_eq!(host.db_next(&mut state, handle), Ok((b"b".to_vec(), b"b".to_vec())));
    assert_eq!(host.db_next(&mut state, handle), Ok((b"c".to_vec(), b"c".to_vec())));
    assert_eq!(host.db_next(&mut state, handle), Ok((vec![], vec![])));
    assert_eq!(host.db_next(&mut state, handle), Ok((vec![], vec![])));
}

#[test]
fn scan_in_descending_order_walks_backwards() {
    let mut state = state();
    let host = host_at("10000");
    for key in [b"b", b"a", b"c"] {
        host.db_write(&mut state, key.to_vec(), key.to_vec()).unwrap();
    }
    let handle = host.db_scan(&mut state, None, None, Order::Descending).unwrap();
    assert_eq!(host.db_next(&mut state, handle), Ok((b"c".to_vec(), b"c".to_vec())));
    assert_eq!(host.db_next(&mut state, handle), Ok((b"b".to_vec(), b"b".to_vec())));
    assert_eq!(host.db_next(&mut state, handle), Ok((b"a".to_vec(), b"a".to_vec())));
    assert_eq!(host.db_next(&mut state, handle), Ok((vec![], vec![])));
}

#[test]
fn handles_are_local_to_an_account() {
    let mut state = state();
    let a = host_at("10000");
    let b = host_at("10001");
    a.db_write(&mut state, b"a".to_vec(), b"1".to_vec()).unwrap();
    b.db_write(&mut state, b"b".to_vec(), b"2".to_vec()).unwrap();
    assert_eq!(a.db_scan(&mut state, None, None, Order::Ascending), Ok(1));
    assert_eq!(a.db_scan(&mut state, None, None, Order::Ascending), Ok(2));
    assert_eq!(b.db_scan(&mut state, None, None, Order::Ascending), Ok(1));
    assert_eq!(b.db_next(&mut state, 2), Err(SimpleVMError::IteratorDoesNotExist));
    assert_eq!(b.db_next(&mut state, 1), Ok((b"b".to_vec(), b"2".to_vec())));
    assert_eq!(a.db_next(&mut state, 1), Ok((b"a".to_vec(), b"1".to_vec())));
}

#[test]
fn host_with_a_malformed_address_has_no_store() {
    let mut state = state();
    let host = host_at("not-a-number");
    let before = state.clone();
    assert_eq!(host.db_read(&state, vec![1]), Err(SimpleVMError::InvalidAccountFormat));
    assert_eq!(host.db_write(&mut state, vec![1], vec![2]), Err(SimpleVMError::InvalidAccountFormat));
    assert_eq!(host.db_remove(&mut state, vec![1]), Err(SimpleVMError::InvalidAccountFormat));
    assert_eq!(
        host.db_scan(&mut state, None, None, Order::Ascending),
        Err(SimpleVMError::InvalidAccountFormat)
    );
    assert_eq!(host.db_next(&mut state, 1), Err(SimpleVMError::InvalidAccountFormat));
    assert_eq!(state, before);
}

#[test]
fn charge_takes_what_was_metered_or_one_unit() {
    let mut state = state();
    let host = host_at("10000");
    assert_eq!(host.charge(&mut state, VmGas::Instrumentation { metered: 42 }), Ok(()));
    assert_eq!(state.gas.checkpoints(), &vec![999_958]);
    assert_eq!(host.charge(&mut state, VmGas::DbWrite), Ok(()));
    assert_eq!(state.gas.checkpoints(), &vec![999_957]);
}

#[test]
fn charge_beyond_the_budget_runs_out_of_gas() {
    let mut state = SimpleWasmiVMExtension::new(BankAccount(1), Gas::new(41));
    let host = host_at("1");
    assert_eq!(
        host.charge(&mut state, VmGas::Instrumentation { metered: 42 }),
        Err(SimpleVMError::OutOfGas)
    );
    assert_eq!(state.gas.checkpoints(), &vec![41]);
    assert_eq!(host.charge(&mut state, VmGas::Instrumentation { metered: 41 }), Ok(()));
    assert_eq!(host.gas_ensure_available(&state), Err(SimpleVMError::OutOfGas));
    assert_eq!(host.charge(&mut state, VmGas::QueryRaw), Err(SimpleVMError::OutOfGas));
}

#[test]
fn checkpoints_are_pushed_and_popped_through_the_host() {
    let mut state = state();
    let host = host_at("10000");
    assert_eq!(host.gas_checkpoint_push(&mut state, VmGasCheckpoint::Limited(1_000)), Ok(()));
    assert_eq!(state.gas.checkpoints(), &vec![999_000, 1_000]);
    assert_eq!(
        host.gas_checkpoint_push(&mut state, VmGasCheckpoint::Limited(1_001)),
        Err(SimpleVMError::OutOfGas)
    );
    assert_eq!(host.gas_ensure_available(&state), Ok(()));
    host.charge(&mut state, VmGas::Instrumentation { metered: 400 }).unwrap();
    assert_eq!(host.gas_checkpoint_pop(&mut state), Ok(()));
    assert_eq!(state.gas.checkpoints(), &vec![999_600]);
}

#[test]
fn transactions_are_counted_and_nothing_more() {
    let mut state = state();
    let host = host_at("10000");
    assert_eq!(host.transaction_begin(&mut state), Ok(()));
    assert_eq!(host.transaction_begin(&mut state), Ok(()));
    assert_eq!(state.transaction_depth, 2);
    host.db_write(&mut state, b"k".to_vec(), b"v".to_vec()).unwrap();
    assert_eq!(host.transaction_rollback(&mut state), Ok(()));
    assert_eq!(state.transaction_depth, 1);
    assert_eq!(host.db_read(&state, b"k".to_vec()), Ok(Some(b"v".to_vec())));
    assert_eq!(host.transaction_commit(&mut state), Ok(()));
    assert_eq!(state.transaction_depth, 0);
}

#[test]
fn abort_fails_with_the_message_of_the_contract() {
    let host = host_at("10000");
    assert_eq!(
        host.abort(String::from("no more")),
        Err(SimpleVMError::VMError(RuntimeFault::ContractExecutionFailure(String::from("no more"))))
    );
}

#[test]
fn custom_queries_and_messages_are_not_offered() {
    let host = host_at("10000");
    assert_eq!(host.query_custom(), Err(SimpleVMError::NoCustomQuery));
    assert_eq!(host.message_custom(), Err(SimpleVMError::NoCustomMessage));
}

#[test]
fn funds_are_not_moved() {
    let host = host_at("10000");
    assert_eq!(host.transfer(&BankAccount(1), &coins(5)), Ok(()));
    assert_eq!(host.burn(&coins(5)), Ok(()));
    assert_eq!(host.all_balance(&BankAccount(1)), Ok(vec![]));
    assert_eq!(host.balance(&BankAccount(1), String::from("unit")), Err(SimpleVMError::Unsupported));
    assert_eq!(host.query_info(BankAccount(1)), Err(SimpleVMError::Unsupported));
    assert_eq!(host.debug(b"message".to_vec()), Ok(()));
}

#[test]
fn signatures_are_not_verified() {
    let host = host_at("10000");
    assert_eq!(host.secp256k1_verify(&[1], &[2], &[3]), Err(SimpleVMError::Unsupported));
    assert_eq!(host.secp256k1_recover_pubkey(&[1], &[2], 0), Err(SimpleVMError::Unsupported));
    assert_eq!(host.ed25519_verify(&[1], &[2], &[3]), Err(SimpleVMError::Unsupported));
    assert_eq!(host.ed25519_batch_verify(&[&[1]], &[&[2]], &[&[3]]), Err(SimpleVMError::Unsupported));
}

#[test]
fn addresses_through_the_host() {
    let host = host_at("10000");
    let canonical = host.addr_canonicalize("10000").unwrap().unwrap();
    assert_eq!(canonical.0.len(), 54);
    assert_eq!(host.addr_humanize(&canonical), Ok(Ok(BankAccount(10_000))));
    assert_eq!(host.addr_validate("10000"), Ok(Ok(())));
    assert_eq!(host.addr_canonicalize("10"), Ok(Err(SimpleVMError::InvalidAddress)));
    assert_eq!(host.addr_humanize(&CanonicalAddress(vec![1, 2])), Ok(Err(SimpleVMError::InvalidAddress)));
    assert_eq!(host.addr_validate("house"), Ok(Err(SimpleVMError::InvalidAddress)));
    assert_eq!(host.addr_validate("1\u{0}00"), Ok(Err(SimpleVMError::InvalidAddress)));
    assert_eq!(host.addr_validate("12\u{0}"), Ok(Err(SimpleVMError::InvalidAddress)));
}

#[test]
fn clone_of_a_state_is_equal_and_independent() {
    let mut state = state();
    host_at("10000").db_write(&mut state, b"k".to_vec(), b"v".to_vec()).unwrap();
    state.contracts.insert(10_000, meta(1));
    let copy = state.clone();
    assert_eq!(copy, state);
    host_at("10000").db_write(&mut state, b"k".to_vec(), b"w".to_vec()).unwrap();
    assert_ne!(copy, state);
    assert_eq!(host_at("10000").db_read(&copy, b"k".to_vec()), Ok(Some(b"v".to_vec())));
}

#[test]
fn any_account_of_a_small_state_can_scan() {
    let mut state = state();
    assert!(state.can_scan(BankAccount(10_000)));
    host_at("10000").db_write(&mut state, b"k".to_vec(), b"v".to_vec()).unwrap();
    host_at("10000").db_scan(&mut state, None, None, Order::Ascending).unwrap();
    assert!(state.can_scan(BankAccount(10_000)));
    assert!(state.storage[&10_000].can_scan());
}
