//! The gas ledger: a stack of budgets, the last of which is being spent.
//!
//! A nested operation runs on a checkpoint, a budget of its own carved out
//! of its caller's. When the operation ends the checkpoint is popped and
//! what it did not spend returns to the caller.

use crate::error::SimpleVMError;
use vstd::prelude::*;

verus! {

/// How much of the active budget a new checkpoint takes over.
#[derive(Copy, Clone, PartialEq, Eq, Debug)]
pub enum VmGasCheckpoint {
    /// All that is left; the caller keeps nothing while the checkpoint lives.
    Unlimited,
    /// This many units, which the active budget must hold.
    Limited(u64),
}

/// What gas is charged for: instructions that the interpreter has metered,
/// or one of the operations of the host.
#[derive(Copy, Clone, PartialEq, Eq, Debug)]
pub enum VmGas {
    /// Instructions, as many units as were metered.
    Instrumentation { metered: u32 },
    SetContractMeta,
    GetContractMeta,
    QueryContinuation,
    ContinueExecute,
    ContinueInstantiate,
    ContinueMigrate,
    QueryCustom,
    MessageCustom,
    QueryRaw,
    Transfer,
    Burn,
    Balance,
    AllBalance,
    QueryInfo,
    Debug,
    DbRead,
    DbWrite,
    DbRemove,
    DbScan,
    DbNext,
    Secp256k1Verify,
    Secp256k1RecoverPubkey,
    Ed25519Verify,
    Ed25519BatchVerify,
    AddrValidate,
    AddrCanonicalize,
    AddrHumanize,
}

/// The units charged for `value`: what was metered for instructions, one
/// unit for any host operation.
pub open spec fn gas_cost(value: VmGas) -> u64 {
    match value {
        VmGas::Instrumentation { metered } => metered as u64,
        _ => 1,
    }
}

/// The sum of all budgets on the stack.
pub open spec fn total(budgets: Seq<u64>) -> int
    decreases budgets.len(),
{
    if budgets.len() == 0 {
        0
    } else {
        total(budgets.drop_last()) + budgets.last()
    }
}

/// The stack after `value` is charged to the active budget, or the failure
/// where that budget is too small.
pub open spec fn after_charge(budgets: Seq<u64>, value: u64) -> Result<Seq<u64>, SimpleVMError> {
    if value <= budgets.last() {
        Ok(budgets.update(budgets.len() - 1, (budgets.last() - value) as u64))
    } else {
        Err(SimpleVMError::OutOfGas)
    }
}

/// The stack after a checkpoint is pushed, or the failure where a limit
/// asks for more than the active budget holds.
pub open spec fn after_push(budgets: Seq<u64>, checkpoint: VmGasCheckpoint) -> Result<
    Seq<u64>,
    SimpleVMError,
> {
    match checkpoint {
        VmGasCheckpoint::Unlimited => Ok(
            budgets.update(budgets.len() - 1, 0u64).push(budgets.last()),
        ),
        VmGasCheckpoint::Limited(limit) => if limit <= budgets.last() {
            Ok(budgets.update(budgets.len() - 1, (budgets.last() - limit) as u64).push(limit))
        } else {
            Err(SimpleVMError::OutOfGas)
        },
    }
}

/// Whether the last checkpoint can be popped: it has a parent, and the
/// parent's budget can take what the checkpoint has left.
pub open spec fn can_pop(budgets: Seq<u64>) -> bool {
    &&& budgets.len() >= 2
    &&& budgets[budgets.len() - 2] + budgets[budgets.len() - 1] <= u64::MAX
}

/// The stack after its last checkpoint is popped: what it had left is added
/// to its parent.
pub open spec fn after_pop(budgets: Seq<u64>) -> Seq<u64> {
    budgets.drop_last().update(
        budgets.len() - 2,
        (budgets[budgets.len() - 2] + budgets[budgets.len() - 1]) as u64,
    )
}

/// One operation on the ledger.
pub enum GasStep {
    /// Charge this many units to the active budget.
    Charge(u64),
    /// Push this checkpoint.
    Push(VmGasCheckpoint),
    /// Pop the last checkpoint.
    Pop,
}

/// The stack after one operation, or `None` where the operation fails: a
/// charge or a limit beyond the active budget, a pop that has no parent to
/// return to.
pub open spec fn after_step(budgets: Seq<u64>, step: GasStep) -> Option<Seq<u64>> {
    match step {
        GasStep::Charge(value) => match after_charge(budgets, value) {
            Ok(next) => Some(next),
            Err(_) => None,
        },
        GasStep::Push(checkpoint) => match after_push(budgets, checkpoint) {
            Ok(next) => Some(next),
            Err(_) => None,
        },
        GasStep::Pop => if budgets.len() >= 2 {
            Some(after_pop(budgets))
        } else {
            None
        },
    }
}

/// The stack after the operations of `steps` in turn, or `None` where one
/// of them fails.
pub open spec fn after_steps(budgets: Seq<u64>, steps: Seq<GasStep>) -> Option<Seq<u64>>
    decreases steps.len(),
{
    if steps.len() == 0 {
        Some(budgets)
    } else {
        match after_steps(budgets, steps.drop_last()) {
            Some(before) => after_step(before, steps.last()),
            None => None,
        }
    }
}

/// The units that the charges among `steps` ask for.
pub open spec fn charged_by(steps: Seq<GasStep>) -> int
    decreases steps.len(),
{
    if steps.len() == 0 {
        0
    } else {
        charged_by(steps.drop_last()) + match steps.last() {
            GasStep::Charge(value) => value as int,
            _ => 0,
        }
    }
}

/// The sum of a stack is at least the sum of its last two budgets, and
/// never negative.
pub proof fn lemma_total_covers_top(budgets: Seq<u64>)
    ensures
        total(budgets) >= 0,
        budgets.len() >= 1 ==> total(budgets) >= budgets.last(),
        budgets.len() >= 2 ==> total(budgets) >= budgets[budgets.len() - 2] + budgets.last(),
    decreases budgets.len(),
{
    if budgets.len() > 0 {
        lemma_total_covers_top(budgets.drop_last());
        if budgets.len() >= 2 {
            lemma_total_covers_top(budgets.drop_last().drop_last());
        }
    }
}

/// Pushing a budget adds it to the sum.
proof fn lemma_total_push(budgets: Seq<u64>, budget: u64)
    ensures
        total(budgets.push(budget)) == total(budgets) + budget,
{
    assert(budgets.push(budget).drop_last() =~= budgets);
}

/// Replacing the last budget changes the sum by the difference.
proof fn lemma_total_replace_last(budgets: Seq<u64>, budget: u64)
    requires
        budgets.len() > 0,
    ensures
        total(budgets.update(budgets.len() - 1, budget)) == total(budgets) - budgets.last()
            + budget,
{
    assert(budgets.update(budgets.len() - 1, budget).drop_last() =~= budgets.drop_last());
}

/// A stack whose sum fits in 64 bits can always pop a checkpoint that has
/// a parent.
pub proof fn lemma_pop_fits(budgets: Seq<u64>)
    requires
        budgets.len() >= 2,
        total(budgets) <= u64::MAX,
    ensures
        can_pop(budgets),
{
    lemma_total_covers_top(budgets);
}

/// A charge that succeeds lowers the sum of the stack by what was charged,
/// and the depth stays.
pub proof fn lemma_charge_spends(budgets: Seq<u64>, value: u64)
    requires
        budgets.len() > 0,
        after_charge(budgets, value) is Ok,
    ensures
        total(after_charge(budgets, value)->Ok_0) == total(budgets) - value,
        after_charge(budgets, value)->Ok_0.len() == budgets.len(),
{
    lemma_total_replace_last(budgets, (budgets.last() - value) as u64);
}

/// A push that succeeds moves gas between budgets and keeps the sum; the
/// stack is one deeper.
pub proof fn lemma_push_conserves(budgets: Seq<u64>, checkpoint: VmGasCheckpoint)
    requires
        budgets.len() > 0,
        after_push(budgets, checkpoint) is Ok,
    ensures
        total(after_push(budgets, checkpoint)->Ok_0) == total(budgets),
        after_push(budgets, checkpoint)->Ok_0.len() == budgets.len() + 1,
{
    match checkpoint {
        VmGasCheckpoint::Unlimited => {
            lemma_total_replace_last(budgets, 0);
            lemma_total_push(budgets.update(budgets.len() - 1, 0u64), budgets.last());
        },
        VmGasCheckpoint::Limited(limit) => {
            let rest = (budgets.last() - limit) as u64;
            lemma_total_replace_last(budgets, rest);
            lemma_total_push(budgets.update(budgets.len() - 1, rest), limit);
        },
    }
}

/// A pop keeps the sum of the stack; the stack is one shallower.
pub proof fn lemma_pop_conserves(budgets: Seq<u64>)
    requires
        can_pop(budgets),
    ensures
        total(after_pop(budgets)) == total(budgets),
        after_pop(budgets).len() == budgets.len() - 1,
{
    let parent = budgets.drop_last();
    lemma_total_replace_last(parent, (parent.last() + budgets.last()) as u64);
}

/// At the boundary of the budget: charging exactly what is left succeeds
/// and leaves nothing; charging one unit more fails with `OutOfGas`.
pub proof fn lemma_charge_boundary(budgets: Seq<u64>)
    requires
        budgets.len() > 0,
    ensures
        after_charge(budgets, budgets.last()) is Ok,
        after_charge(budgets, budgets.last())->Ok_0.last() == 0,
        budgets.last() < u64::MAX ==> after_charge(budgets, (budgets.last() + 1) as u64) == Err::<
            Seq<u64>,
            SimpleVMError,
        >(SimpleVMError::OutOfGas),
{
}

/// Gas is conserved: whatever pushes, charges and pops are made, as long as
/// each succeeds, the budgets afterwards sum to what they summed to before
/// less what was charged. Back at depth one, the single budget is the
/// first one less the charges.
pub proof fn lemma_gas_conservation(budgets: Seq<u64>, steps: Seq<GasStep>)
    requires
        budgets.len() > 0,
        total(budgets) <= u64::MAX,
        after_steps(budgets, steps) is Some,
    ensures
        after_steps(budgets, steps)->Some_0.len() > 0,
        total(after_steps(budgets, steps)->Some_0) == total(budgets) - charged_by(steps),
        after_steps(budgets, steps)->Some_0.len() == 1 ==> after_steps(budgets, steps)->Some_0[0]
            == total(budgets) - charged_by(steps),
    decreases steps.len(),
{
    if steps.len() > 0 {
        let earlier = steps.drop_last();
        lemma_gas_conservation(budgets, earlier);
        let before = after_steps(budgets, earlier)->Some_0;
        lemma_charged_by_is_natural(earlier);
        match steps.last() {
            GasStep::Charge(value) => {
                lemma_charge_spends(before, value);
            },
            GasStep::Push(checkpoint) => {
                lemma_push_conserves(before, checkpoint);
            },
            GasStep::Pop => {
                lemma_pop_fits(before);
                lemma_pop_conserves(before);
            },
        }
    }
    let end = after_steps(budgets, steps)->Some_0;
    if end.len() == 1 {
        assert(total(end.drop_last()) == 0);
    }
}

/// Whether every one of `steps` succeeds on the ledger and leaves it at
/// least `floor` deep: what runs on a checkpoint at that depth, and pops
/// none but its own checkpoints.
pub open spec fn stays_at_depth(budgets: Seq<u64>, steps: Seq<GasStep>, floor: nat) -> bool
    decreases steps.len(),
{
    if steps.len() == 0 {
        budgets.len() >= floor
    } else {
        &&& stays_at_depth(budgets, steps.drop_last(), floor)
        &&& after_steps(budgets, steps) is Some
        &&& after_steps(budgets, steps)->Some_0.len() >= floor
    }
}

/// What runs at a depth leaves the budgets below that depth alone.
pub proof fn lemma_lower_budgets_stay(budgets: Seq<u64>, steps: Seq<GasStep>, floor: nat)
    requires
        floor >= 1,
        stays_at_depth(budgets, steps, floor),
    ensures
        after_steps(budgets, steps) is Some,
        after_steps(budgets, steps)->Some_0.len() >= floor,
        after_steps(budgets, steps)->Some_0.subrange(0, floor - 1) == budgets.subrange(
            0,
            floor - 1,
        ),
    decreases steps.len(),
{
    if steps.len() > 0 {
        lemma_lower_budgets_stay(budgets, steps.drop_last(), floor);
        let before = after_steps(budgets, steps.drop_last())->Some_0;
        let end = after_steps(budgets, steps)->Some_0;
        assert(end.subrange(0, floor - 1) =~= before.subrange(0, floor - 1));
    }
}

/// A nested call returns what it did not spend. The caller is charged for
/// the call and pushes a checkpoint; the callee runs on that checkpoint,
/// with whatever charges, pushes and pops of its own, and comes back to
/// the depth of its checkpoint; the checkpoint is popped. Then the ledger
/// is as deep as before the call, the caller's budget is what it was less
/// the charge for the call and less what the callee was charged, and the
/// budgets below are untouched. A callee that runs out of gas changes
/// nothing by the charge that fails, so this holds of it as well.
pub proof fn lemma_nested_call_returns_unspent(
    budgets: Seq<u64>,
    call_site: u64,
    checkpoint: VmGasCheckpoint,
    callee: Seq<GasStep>,
)
    requires
        budgets.len() > 0,
        total(budgets) <= u64::MAX,
        after_charge(budgets, call_site) is Ok,
        after_push(after_charge(budgets, call_site)->Ok_0, checkpoint) is Ok,
        ({
            let entered = after_push(after_charge(budgets, call_site)->Ok_0, checkpoint)->Ok_0;
            &&& stays_at_depth(entered, callee, entered.len())
            &&& after_steps(entered, callee)->Some_0.len() == entered.len()
        }),
    ensures
        ({
            let entered = after_push(after_charge(budgets, call_site)->Ok_0, checkpoint)->Ok_0;
            let back = after_steps(entered, callee)->Some_0;
            &&& can_pop(back)
            &&& after_pop(back).len() == budgets.len()
            &&& after_pop(back).last() == budgets.last() - call_site - charged_by(callee)
            &&& after_pop(back).drop_last() == budgets.drop_last()
        }),
{
    let charged = after_charge(budgets, call_site)->Ok_0;
    let entered = after_push(charged, checkpoint)->Ok_0;
    let back = after_steps(entered, callee)->Some_0;
    let depth = budgets.len() as int;
    lemma_charge_spends(budgets, call_site);
    lemma_push_conserves(charged, checkpoint);
    lemma_lower_budgets_stay(entered, callee, entered.len());
    lemma_gas_conservation(entered, callee);
    lemma_charged_by_is_natural(callee);
    assert(back.drop_last() =~= entered.drop_last()) by {
        assert(back.drop_last() =~= back.subrange(0, depth));
        assert(entered.drop_last() =~= entered.subrange(0, depth));
    }
    assert(total(back) == total(back.drop_last()) + back.last());
    assert(total(entered) == total(entered.drop_last()) + entered.last());
    assert(back[depth - 1] == entered[depth - 1]) by {
        assert(back.subrange(0, depth)[depth - 1] == entered.subrange(0, depth)[depth - 1]);
    }
    assert(after_pop(back).drop_last() =~= budgets.drop_last());
}

/// Charges never add up to less than nothing.
pub proof fn lemma_charged_by_is_natural(steps: Seq<GasStep>)
    ensures
        charged_by(steps) >= 0,
    decreases steps.len(),
{
    if steps.len() > 0 {
        lemma_charged_by_is_natural(steps.drop_last());
    }
}

/// The gas ledger. The stack of budgets is never empty.
#[derive(PartialEq, Eq, Debug)]
pub struct Gas {
    checkpoints: Vec<u64>,
}

impl View for Gas {
    type V = Seq<u64>;

    /// The budgets, the active one last.
    closed spec fn view(&self) -> Seq<u64> {
        self.checkpoints@
    }
}

impl Clone for Gas {
    fn clone(&self) -> (other: Gas)
        ensures
            other@ == self@,
    {
        proof {
            use_type_invariant(self);
        }
        Gas { checkpoints: self.checkpoints.clone() }
    }
}

impl Gas {
    #[verifier::type_invariant]
    spec fn never_empty(self) -> bool {
        self.checkpoints@.len() > 0
    }

    /// A ledger with one budget of `initial_value`.
    pub fn new(initial_value: u64) -> (gas: Gas)
        ensures
            gas@ == seq![initial_value],
    {
        let mut checkpoints: Vec<u64> = Vec::new();
        checkpoints.push(initial_value);
        Gas { checkpoints }
    }

    /// A ledger with the given budgets, the active one last; `None` where
    /// there is no budget at all.
    pub fn from_checkpoints(checkpoints: Vec<u64>) -> (gas: Option<Gas>)
        ensures
            checkpoints@.len() == 0 <==> gas is None,
            gas matches Some(g) ==> g@ == checkpoints@,
    {
        if checkpoints.len() == 0 {
            None
        } else {
            Some(Gas { checkpoints })
        }
    }

    /// The budgets, the active one last.
    pub fn checkpoints(&self) -> (budgets: &Vec<u64>)
        ensures
            budgets@ == self@,
            budgets@.len() > 0,
    {
        proof {
            use_type_invariant(self);
        }
        &self.checkpoints
    }

    /// The active budget.
    pub fn current(&self) -> (value: &u64)
        ensures
            self@.len() > 0,
            *value == self@.last(),
    {
        proof {
            use_type_invariant(self);
        }
        &self.checkpoints[self.checkpoints.len() - 1]
    }

    /// The active budget, to be changed in place.
    pub fn current_mut(&mut self) -> (value: &mut u64)
        ensures
            old(self)@.len() > 0,
            *value == old(self)@.last(),
            final(self)@ == old(self)@.update(old(self)@.len() - 1, *final(value)),
    {
        proof {
            use_type_invariant(&*self);
        }
        let top = self.checkpoints.len() - 1;
        &mut self.checkpoints[top]
    }

    /// Puts `budget` on the stack.
    fn grow(&mut self, budget: u64)
        ensures
            final(self)@ == old(self)@.push(budget),
    {
        // The stack may not be empty at any moment, so a stand-in takes its
        // place while it is worked on.
        let mut budgets: Vec<u64> = vec![budget];
        core::mem::swap(&mut self.checkpoints, &mut budgets);
        budgets.push(budget);
        self.checkpoints = budgets;
    }

    /// Takes the last budget off the stack.
    fn shrink(&mut self) -> (budget: u64)
        requires
            old(self)@.len() >= 2,
        ensures
            budget == old(self)@.last(),
            final(self)@ == old(self)@.drop_last(),
    {
        let mut budgets: Vec<u64> = vec![0];
        core::mem::swap(&mut self.checkpoints, &mut budgets);
        let budget = budgets.pop().unwrap();
        self.checkpoints = budgets;
        budget
    }

    /// Pushes a checkpoint. An unlimited one takes over the whole active
    /// budget and leaves its parent with nothing; a limited one takes its
    /// limit out of the active budget, and fails with `OutOfGas`, changing
    /// nothing, where the budget is smaller than the limit.
    pub fn push(&mut self, checkpoint: VmGasCheckpoint) -> (r: Result<(), SimpleVMError>)
        ensures
            old(self)@.len() > 0,
            match after_push(old(self)@, checkpoint) {
                Ok(budgets) => r is Ok && final(self)@ == budgets,
                Err(e) => r == Err::<(), SimpleVMError>(e) && final(self)@ == old(self)@,
            },
    {
        match checkpoint {
            VmGasCheckpoint::Unlimited => {
                let parent = self.current_mut();
                let value = *parent;
                *parent = 0;
                self.grow(value);
                Ok(())
            },
            VmGasCheckpoint::Limited(limit) => {
                if limit <= *self.current() {
                    let parent = self.current_mut();
                    *parent -= limit;
                    self.grow(limit);
                    Ok(())
                } else {
                    Err(SimpleVMError::OutOfGas)
                }
            },
        }
    }

    /// Whether the last checkpoint can be popped.
    pub fn can_pop(&self) -> (r: bool)
        ensures
            r == can_pop(self@),
    {
        let depth = self.checkpoints.len();
        depth >= 2 && self.checkpoints[depth - 2] <= u64::MAX - self.checkpoints[depth - 1]
    }

    /// Pops the last checkpoint and returns what it had left to its parent.
    pub fn pop(&mut self)
        requires
            can_pop(old(self)@),
        ensures
            final(self)@ == after_pop(old(self)@),
    {
        let child = self.shrink();
        let parent = self.current_mut();
        *parent += child;
    }

    /// Charges `value` to the active budget; fails with `OutOfGas`,
    /// changing nothing, where the budget is smaller.
    pub fn charge(&mut self, value: u64) -> (r: Result<(), SimpleVMError>)
        ensures
            old(self)@.len() > 0,
            match after_charge(old(self)@, value) {
                Ok(budgets) => r is Ok && final(self)@ == budgets,
                Err(e) => r == Err::<(), SimpleVMError>(e) && final(self)@ == old(self)@,
            },
    {
        let current = self.current_mut();
        if *current >= value {
            *current -= value;
            Ok(())
        } else {
            Err(SimpleVMError::OutOfGas)
        }
    }

    /// The units charged for `value`.
    pub fn cost_of(value: VmGas) -> (units: u64)
        ensures
            units == gas_cost(value),
    {
        match value {
            VmGas::Instrumentation { metered } => metered as u64,
            _ => 1u64,
        }
    }

    /// Fails with `OutOfGas` exactly where the active budget is used up.
    pub fn ensure_available(&self) -> (r: Result<(), SimpleVMError>)
        ensures
            self@.len() > 0,
            self@.last() > 0 ==> r is Ok,
            self@.last() == 0 ==> r == Err::<(), SimpleVMError>(SimpleVMError::OutOfGas),
    {
        if *self.current() > 0 {
            Ok(())
        } else {
            Err(SimpleVMError::OutOfGas)
        }
    }
}

} // verus!
