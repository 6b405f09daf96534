use simple_wasmi_vm::error::SimpleVMError;
use simple_wasmi_vm::gas::{Gas, VmGas, VmGasCheckpoint};

fn sum(gas: &Gas) -> u128 {
    gas.checkpoints().iter().map(|budget| *budget as u128).sum()
}

#[test]
fn new_ledger_has_one_budget() {
    let gas = Gas::new(1_000);
    assert_eq!(gas.checkpoints(), &vec![1_000]);
    assert_eq!(*gas.current(), 1_000);
}

#[test]
fn ledger_from_checkpoints_needs_a_budget() {
    assert!(Gas::from_checkpoints(vec![]).is_none());
    let gas = Gas::from_checkpoints(vec![5, 7]).unwrap();
    assert_eq!(gas.checkpoints(), &vec![5, 7]);
    assert_eq!(*gas.current(), 7);
}

#[test]
fn charge_debits_the_active_budget() {
    let mut gas = Gas::new(100);
    assert_eq!(gas.charge(30), Ok(()));
    assert_eq!(gas.checkpoints(), &vec![70]);
    assert_eq!(gas.charge(0), Ok(()));
    assert_eq!(gas.checkpoints(), &vec![70]);
}

#[test]
fn charging_exactly_what_is_left_leaves_zero() {
    let mut gas = Gas::new(100);
    assert_eq!(gas.charge(100), Ok(()));
    assert_eq!(*gas.current(), 0);
    assert_eq!(gas.charge(1), Err(SimpleVMError::OutOfGas));
    assert_eq!(*gas.current(), 0);
}

#[test]
fn charging_one_more_than_is_left_fails_and_changes_nothing() {
    let mut gas = Gas::new(100);
    assert_eq!(gas.charge(101), Err(SimpleVMError::OutOfGas));
    assert_eq!(gas.checkpoints(), &vec![100]);
    let mut full = Gas::new(u64::MAX - 1);
    assert_eq!(full.charge(u64::MAX), Err(SimpleVMError::OutOfGas));
    assert_eq!(full.checkpoints(), &vec![u64::MAX - 1]);
}

#[test]
fn charge_touches_the_last_checkpoint_only() {
    let mut gas = Gas::new(100);
    gas.push(VmGasCheckpoint::Limited(40)).unwrap();
    assert_eq!(gas.charge(41), Err(SimpleVMError::OutOfGas));
    assert_eq!(gas.checkpoints(), &vec![60, 40]);
    assert_eq!(gas.charge(15), Ok(()));
    assert_eq!(gas.checkpoints(), &vec![60, 25]);
}

#[test]
fn limited_checkpoint_takes_its_limit_from_the_parent() {
    let mut gas = Gas::new(100);
    assert_eq!(gas.push(VmGasCheckpoint::Limited(40)), Ok(()));
    assert_eq!(gas.checkpoints(), &vec![60, 40]);
    assert_eq!(gas.push(VmGasCheckpoint::Limited(40)), Ok(()));
    assert_eq!(gas.checkpoints(), &vec![60, 0, 40]);
    assert_eq!(gas.push(VmGasCheckpoint::Limited(0)), Ok(()));
    assert_eq!(gas.checkpoints(), &vec![60, 0, 40, 0]);
}

#[test]
fn limited_checkpoint_beyond_the_budget_fails() {
    let mut gas = Gas::new(100);
    assert_eq!(gas.push(VmGasCheckpoint::Limited(101)), Err(SimpleVMError::OutOfGas));
    assert_eq!(gas.checkpoints(), &vec![100]);
}

#[test]
fn unlimited_checkpoint_takes_all_and_leaves_the_parent_nothing() {
    let mut gas = Gas::new(100);
    assert_eq!(gas.push(VmGasCheckpoint::Unlimited), Ok(()));
    assert_eq!(gas.checkpoints(), &vec![0, 100]);
    assert_eq!(gas.push(VmGasCheckpoint::Unlimited), Ok(()));
    assert_eq!(gas.checkpoints(), &vec![0, 0, 100]);
}

#[test]
fn pop_returns_what_is_left_to_the_parent() {
    let mut gas = Gas::new(100);
    gas.push(VmGasCheckpoint::Limited(40)).unwrap();
    gas.charge(15).unwrap();
    gas.pop();
    assert_eq!(gas.checkpoints(), &vec![85]);
}

#[test]
fn pop_of_a_spent_checkpoint_returns_nothing() {
    let mut gas = Gas::new(100);
    gas.push(VmGasCheckpoint::Unlimited).unwrap();
    gas.charge(100).unwrap();
    gas.pop();
    assert_eq!(gas.checkpoints(), &vec![0]);
}

#[test]
fn gas_is_conserved_over_balanced_pushes_and_pops() {
    let mut gas = Gas::new(1_000);
    let mut charged: u128 = 0;
    gas.charge(5).unwrap();
    charged += 5;
    gas.push(VmGasCheckpoint::Limited(400)).unwrap();
    assert_eq!(sum(&gas), 1_000 - charged);
    gas.charge(30).unwrap();
    charged += 30;
    gas.push(VmGasCheckpoint::Unlimited).unwrap();
    assert_eq!(sum(&gas), 1_000 - charged);
    gas.charge(70).unwrap();
    charged += 70;
    assert_eq!(gas.charge(301), Err(SimpleVMError::OutOfGas));
    assert_eq!(gas.checkpoints(), &vec![595, 0, 300]);
    gas.pop();
    assert_eq!(sum(&gas), 1_000 - charged);
    gas.pop();
    assert_eq!(gas.checkpoints(), &vec![895]);
    assert_eq!(*gas.current() as u128, 1_000 - charged);
}

#[test]
fn ensure_available_fails_exactly_at_zero() {
    let mut gas = Gas::new(2);
    assert_eq!(gas.ensure_available(), Ok(()));
    gas.charge(1).unwrap();
    assert_eq!(gas.ensure_available(), Ok(()));
    gas.charge(1).unwrap();
    assert_eq!(gas.ensure_available(), Err(SimpleVMError::OutOfGas));
    let mut nested = Gas::new(10);
    nested.push(VmGasCheckpoint::Limited(0)).unwrap();
    assert_eq!(nested.ensure_available(), Err(SimpleVMError::OutOfGas));
}

#[test]
fn current_mut_changes_the_active_budget_in_place() {
    let mut gas = Gas::new(10);
    gas.push(VmGasCheckpoint::Limited(4)).unwrap();
    *gas.current_mut() = 9;
    assert_eq!(gas.checkpoints(), &vec![6, 9]);
}

#[test]
fn cost_is_what_was_metered_or_one_unit() {
    assert_eq!(Gas::cost_of(VmGas::Instrumentation { metered: 42 }), 42);
    assert_eq!(Gas::cost_of(VmGas::Instrumentation { metered: 0 }), 0);
    assert_eq!(Gas::cost_of(VmGas::Instrumentation { metered: u32::MAX }), 4_294_967_295);
    assert_eq!(Gas::cost_of(VmGas::DbRead), 1);
    assert_eq!(Gas::cost_of(VmGas::ContinueInstantiate), 1);
    assert_eq!(Gas::cost_of(VmGas::Debug), 1);
}

#[test]
fn clone_of_a_ledger_is_independent() {
    let mut gas = Gas::new(10);
    let copy = gas.clone();
    gas.charge(3).unwrap();
    assert_eq!(copy.checkpoints(), &vec![10]);
    assert_eq!(gas.checkpoints(), &vec![7]);
}

#[test]
fn pop_needs_a_parent_with_room() {
    let mut gas = Gas::new(10);
    assert!(!gas.can_pop());
    gas.push(VmGasCheckpoint::Limited(4)).unwrap();
    assert!(gas.can_pop());
    let too_much = Gas::from_checkpoints(vec![u64::MAX, 1]).unwrap();
    assert!(!too_much.can_pop());
    let just_enough = Gas::from_checkpoints(vec![u64::MAX - 1, 1]).unwrap();
    assert!(just_enough.can_pop());
}
