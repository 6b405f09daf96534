use simple_wasmi_vm::account::BankAccount;
use simple_wasmi_vm::bind::vm_initialize;
use simple_wasmi_vm::extension::{ContractMeta, SimpleWasmiVMExtension};
use simple_wasmi_vm::gas::{Gas, VmGas, VmGasCheckpoint};

fn meta(code_id: u64, label: &str) -> ContractMeta {
    ContractMeta { code_id, admin: None, label: String::from(label) }
}

/// A contract is instantiated and writes; a second call reads and writes
/// again; a query sees the second value only.
#[test]
fn state_written_by_one_call_is_seen_by_the_next() {
    let mut state = SimpleWasmiVMExtension::new(BankAccount(10_000), Gas::new(1_000_000));
    state.codes.insert(1, vec![1]);
    let owner = BankAccount(0);

    // Instantiate at a fresh account, with no funds.
    let account = state.allocate_account();
    state.contracts.insert(account.0, meta(1, "counter"));
    let instantiate = vm_initialize(owner, account, vec![], &[1]);
    assert!(instantiate.vm.info.funds.is_empty());
    instantiate.vm.db_write(&mut state, b"x".to_vec(), vec![1, 2, 3]).unwrap();

    // Execute on the same account.
    let execute = vm_initialize(owner, account, vec![], &[1]);
    assert_eq!(execute.vm.db_read(&state, b"x".to_vec()), Ok(Some(vec![1, 2, 3])));
    execute.vm.db_write(&mut state, b"x".to_vec(), vec![4, 5, 6]).unwrap();

    // Query.
    let query = vm_initialize(owner, account, vec![], &[1]);
    assert_eq!(query.vm.db_read(&state, b"x".to_vec()), Ok(Some(vec![4, 5, 6])));
    assert_eq!(query.vm.query_raw(&state, account, b"x".to_vec()), Ok(Some(vec![4, 5, 6])));
}

/// Contract A, while it executes, instantiates contract B.
#[test]
fn nested_instantiation_allocates_a_later_account_and_returns_unspent_gas() {
    let mut state = SimpleWasmiVMExtension::new(BankAccount(10_000), Gas::new(1_000_000));
    state.codes.insert(1, vec![1]);
    state.codes.insert(2, vec![2]);
    let a = state.allocate_account();
    state.contracts.insert(a.0, meta(1, "a"));
    let host_a = vm_initialize(BankAccount(0), a, vec![], &[1]).vm;

    host_a.charge(&mut state, VmGas::Instrumentation { metered: 100 }).unwrap();
    let before_call = *state.gas.current();
    assert_eq!(before_call, 999_900);

    // The call site is charged, then the call runs on a checkpoint of its own.
    host_a.charge(&mut state, VmGas::ContinueInstantiate).unwrap();
    host_a.gas_checkpoint_push(&mut state, VmGasCheckpoint::Limited(50_000)).unwrap();
    let (b, sub) = host_a.continue_instantiate(&mut state, meta(2, "b"), vec![]).unwrap();
    assert!(b > a);
    assert_eq!(b, BankAccount(10_001));
    assert_eq!(sub.code, vec![2]);
    assert_eq!(sub.vm.info.sender, "10000");
    assert_eq!(sub.vm.env.contract.address, "10001");

    // B runs and spends.
    let given_to_b = *state.gas.current();
    sub.vm.charge(&mut state, VmGas::Instrumentation { metered: 4_200 }).unwrap();
    sub.vm.charge(&mut state, VmGas::DbWrite).unwrap();
    sub.vm.db_write(&mut state, b"owner".to_vec(), b"10000".to_vec()).unwrap();
    let spent_by_b = given_to_b - *state.gas.current();
    assert_eq!(spent_by_b, 4_201);

    // Back in A.
    host_a.gas_checkpoint_pop(&mut state).unwrap();
    assert_eq!(state.gas.checkpoints().len(), 1);
    assert_eq!(*state.gas.current(), before_call - spent_by_b - 1);
    assert_eq!(*state.gas.current(), 995_698);

    // What B wrote is B's, not A's.
    assert_eq!(host_a.db_read(&state, b"owner".to_vec()), Ok(None));
    assert_eq!(host_a.query_raw(&state, b, b"owner".to_vec()), Ok(Some(b"10000".to_vec())));
}

/// The callee runs out of gas; the caller gets back what the callee left.
#[test]
fn callee_that_runs_out_of_gas_leaves_the_caller_the_rest() {
    let mut state = SimpleWasmiVMExtension::new(BankAccount(1), Gas::new(1_000));
    let host = vm_initialize(BankAccount(0), BankAccount(1), vec![], &[]).vm;
    host.gas_checkpoint_push(&mut state, VmGasCheckpoint::Limited(100)).unwrap();
    host.charge(&mut state, VmGas::Instrumentation { metered: 60 }).unwrap();
    assert!(host.charge(&mut state, VmGas::Instrumentation { metered: 60 }).is_err());
    host.gas_checkpoint_pop(&mut state).unwrap();
    assert_eq!(state.gas.checkpoints(), &vec![940]);
}

/// The callee gets all that is left, makes a nested call of its own, and
/// the caller ends with what it had less all that was charged.
#[test]
fn unlimited_checkpoint_with_a_nested_call_returns_what_was_not_spent() {
    let mut state = SimpleWasmiVMExtension::new(BankAccount(1), Gas::new(10_000));
    let host = vm_initialize(BankAccount(0), BankAccount(1), vec![], &[]).vm;
    let before = *state.gas.current();
    host.charge(&mut state, VmGas::ContinueExecute).unwrap();
    host.gas_checkpoint_push(&mut state, VmGasCheckpoint::Unlimited).unwrap();
    assert_eq!(state.gas.checkpoints(), &vec![0, 9_999]);
    // The callee.
    host.charge(&mut state, VmGas::Instrumentation { metered: 1_000 }).unwrap();
    host.charge(&mut state, VmGas::QueryContinuation).unwrap();
    host.gas_checkpoint_push(&mut state, VmGasCheckpoint::Limited(500)).unwrap();
    host.charge(&mut state, VmGas::Instrumentation { metered: 200 }).unwrap();
    host.gas_checkpoint_pop(&mut state).unwrap();
    assert_eq!(state.gas.checkpoints(), &vec![0, 8_798]);
    // Back in the caller.
    host.gas_checkpoint_pop(&mut state).unwrap();
    assert_eq!(state.gas.checkpoints(), &vec![before - 1 - 1_201]);
}

/// Two instantiations, with other operations between them.
#[test]
fn later_instantiation_gets_a_greater_account_that_is_not_in_use() {
    let mut state = SimpleWasmiVMExtension::new(BankAccount(10_000), Gas::new(1_000));
    state.codes.insert(1, vec![1]);
    let host = vm_initialize(BankAccount(0), BankAccount(0), vec![], &[]).vm;
    let (first, sub) = host.continue_instantiate(&mut state, meta(1, "first"), vec![]).unwrap();
    sub.vm.db_write(&mut state, b"k".to_vec(), b"v".to_vec()).unwrap();
    host.charge(&mut state, VmGas::DbWrite).unwrap();
    host.set_contract_meta(&mut state, first, meta(1, "renamed")).unwrap();
    assert!(!state.contracts.contains_key(&state.next_account_id.0));
    let (second, _) = host.continue_instantiate(&mut state, meta(1, "second"), vec![]).unwrap();
    assert_eq!(second, BankAccount(first.0 + 1));
    state.allocate_account();
    assert!(!state.contracts.contains_key(&state.next_account_id.0));
    let (third, _) = host.continue_instantiate(&mut state, meta(1, "third"), vec![]).unwrap();
    assert!(third > second);
    assert_eq!(third, BankAccount(second.0 + 2));
    assert_eq!(state.contracts.len(), 3);
}
