//! The state that a whole tree of calls shares: the stores of all accounts,
//! the code and the registry of contracts, the counters, and the gas
//! ledger.
//!
//! There is one such state for a top-level call. It is lent, by exclusive
//! reference, to whichever call runs at the moment, and to nobody else.

use crate::account::BankAccount;
use crate::error::SimpleVMError;
use crate::gas::Gas;
use crate::storage::{
    copy_of, is_snapshot, snapshot_of, Order, SimpleWasmiVMStorage, StorageModel,
};
use std::collections::BTreeMap;
use vstd::prelude::*;

verus! {

/// What the registry knows of a contract.
#[derive(PartialEq, Eq, Debug)]
pub struct ContractMeta {
    /// The code that the contract runs.
    pub code_id: u64,
    /// Who may migrate the contract, if anybody.
    pub admin: Option<BankAccount>,
    /// A name for the contract, for people to read.
    pub label: String,
}

impl Clone for ContractMeta {
    fn clone(&self) -> (other: ContractMeta)
        ensures
            other == *self,
    {
        ContractMeta { code_id: self.code_id, admin: self.admin, label: self.label.clone() }
    }
}

/// The store of `account` among `stores`; an account without a store has
/// the empty one.
pub open spec fn store_in(stores: Map<u32, StorageModel>, account: BankAccount) -> StorageModel {
    if stores.contains_key(account.0) {
        stores[account.0]
    } else {
        StorageModel::empty()
    }
}

/// The value that `account` has under `key`, if it has one.
pub open spec fn value_in(stores: Map<u32, StorageModel>, account: BankAccount, key: Seq<u8>)
    -> Option<Seq<u8>> {
    store_in(stores, account).value(key)
}

/// The stores after `account` has written `value` under `key`.
pub open spec fn written(
    stores: Map<u32, StorageModel>,
    account: BankAccount,
    key: Seq<u8>,
    value: Seq<u8>,
) -> Map<u32, StorageModel> {
    stores.insert(account.0, store_in(stores, account).with_entry(key, value))
}

/// The stores after `account` has removed what it had under `key`.
pub open spec fn removed(stores: Map<u32, StorageModel>, account: BankAccount, key: Seq<u8>)
    -> Map<u32, StorageModel> {
    stores.insert(account.0, store_in(stores, account).without_entry(key))
}

/// Where the counter of accounts stands after the account `next` has been
/// handed out.
pub open spec fn next_after(next: BankAccount) -> BankAccount {
    BankAccount((next.0 + 1) as u32)
}

/// The accounts that `count` allocations hand out, one after the other,
/// when the counter stands at `next`.
pub open spec fn allocated(next: BankAccount, count: nat) -> Seq<BankAccount>
    decreases count,
{
    if count == 0 {
        Seq::empty()
    } else {
        seq![next] + allocated(next_after(next), (count - 1) as nat)
    }
}

/// Stores are isolated: what one account writes does not show in what any
/// other account reads, under that key or any other.
pub proof fn lemma_storage_isolation(
    stores: Map<u32, StorageModel>,
    writer: BankAccount,
    key: Seq<u8>,
    value: Seq<u8>,
    reader: BankAccount,
    wanted: Seq<u8>,
)
    requires
        writer != reader,
    ensures
        value_in(written(stores, writer, key, value), reader, wanted) == value_in(
            stores,
            reader,
            wanted,
        ),
        value_in(removed(stores, writer, key), reader, wanted) == value_in(stores, reader, wanted),
{
}

/// An account reads what it wrote last, and nothing where it removed last.
pub proof fn lemma_read_own_write(
    stores: Map<u32, StorageModel>,
    account: BankAccount,
    key: Seq<u8>,
    value: Seq<u8>,
)
    ensures
        value_in(written(stores, account, key, value), account, key) == Some(value),
        value_in(removed(stores, account, key), account, key) is None,
{
}

/// The `i`-th of the accounts handed out is `i` after the first.
pub proof fn lemma_allocated_at(next: BankAccount, count: nat, i: int)
    requires
        next.0 + count <= u32::MAX + 1,
        0 <= i < count,
    ensures
        allocated(next, count).len() == count,
        allocated(next, count)[i].0 == next.0 + i,
    decreases count,
{
    lemma_allocated_len(next, count);
    if i > 0 {
        lemma_allocated_at(next_after(next), (count - 1) as nat, i - 1);
    }
}

/// Each allocation hands out one account.
pub proof fn lemma_allocated_len(next: BankAccount, count: nat)
    ensures
        allocated(next, count).len() == count,
    decreases count,
{
    if count > 0 {
        lemma_allocated_len(next_after(next), (count - 1) as nat);
    }
}

/// Accounts are handed out in strictly rising order, so none is handed out
/// twice.
pub proof fn lemma_allocation_rises(next: BankAccount, count: nat, earlier: int, later: int)
    requires
        next.0 + count <= u32::MAX + 1,
        0 <= earlier < later < count,
    ensures
        allocated(next, count)[earlier].0 < allocated(next, count)[later].0,
        allocated(next, count)[earlier] != allocated(next, count)[later],
{
    lemma_allocated_at(next, count, earlier);
    lemma_allocated_at(next, count, later);
}

/// What holds of a state after some operations holds after more of them.
pub proof fn lemma_grows_into_transitive(
    first: SimpleWasmiVMExtension,
    second: SimpleWasmiVMExtension,
    third: SimpleWasmiVMExtension,
)
    requires
        first.grows_into(&second),
        second.grows_into(&third),
    ensures
        first.grows_into(&third),
        first.grows_into(&first),
{
}

/// Contracts get rising accounts, and none gets an account that is in use.
/// Let a contract be instantiated on a state whose contracts are all below
/// the counter, and let any operations follow. Then the account that the
/// next instantiation hands out is greater than the first one, it is not
/// yet in the registry, and it is the very next account exactly where the
/// counter has not moved in between.
pub proof fn lemma_instantiations_rise(
    before_first: SimpleWasmiVMExtension,
    contract_meta: ContractMeta,
    after_first: SimpleWasmiVMExtension,
    before_later: SimpleWasmiVMExtension,
)
    requires
        before_first.next_account_id.0 < u32::MAX,
        before_first.registered_below_counter(),
        before_first.registers(contract_meta, &after_first),
        after_first.grows_into(&before_later),
    ensures
        after_first.contracts@.contains_key(before_first.next_account_id.0),
        after_first.registered_below_counter(),
        before_later.next_account_id.0 > before_first.next_account_id.0,
        !before_later.contracts@.contains_key(before_later.next_account_id.0),
        before_later.next_account_id.0 == before_first.next_account_id.0 + 1
            <==> before_later.next_account_id == after_first.next_account_id,
{
    assert forall|account: u32| after_first.contracts@.contains_key(account) implies account
        < after_first.next_account_id.0 by {
        if account != before_first.next_account_id.0 {
            assert(before_first.contracts@.contains_key(account));
        }
    }
}

/// A contract that instantiates another gets a later account for it than
/// its own: the account handed out is the one at which the counter stood,
/// which is above every account that the counter has handed out before,
/// and the new contract is registered there.
pub proof fn lemma_instantiated_after_caller(
    before: SimpleWasmiVMExtension,
    contract_meta: ContractMeta,
    after: SimpleWasmiVMExtension,
    caller: BankAccount,
)
    requires
        caller.0 < before.next_account_id.0,
        before.registers(contract_meta, &after),
    ensures
        before.next_account_id.0 > caller.0,
        before.next_account_id != caller,
        after.contracts@.contains_key(before.next_account_id.0),
        after.contracts@[before.next_account_id.0] == contract_meta,
        before.contracts@.contains_key(caller.0) ==> after.contracts@[caller.0]
            == before.contracts@[caller.0],
{
}

/// The state shared by a tree of calls.
#[derive(PartialEq, Eq, Debug)]
pub struct SimpleWasmiVMExtension {
    /// The store of each account that has one, by the account's number.
    pub storage: BTreeMap<u32, SimpleWasmiVMStorage>,
    /// The code under each code identifier.
    pub codes: BTreeMap<u64, Vec<u8>>,
    /// What is known of each contract, by its account's number.
    pub contracts: BTreeMap<u32, ContractMeta>,
    /// The account that the next allocation hands out.
    pub next_account_id: BankAccount,
    /// How many transactions are open, one inside the other.
    pub transaction_depth: u32,
    /// The gas ledger of the tree of calls.
    pub gas: Gas,
}

impl Clone for SimpleWasmiVMExtension {
    fn clone(&self) -> (other: SimpleWasmiVMExtension)
        ensures
            other.storage@ == self.storage@,
            other.stores() == self.stores(),
            other.codes@ == self.codes@,
            other.contracts@ == self.contracts@,
            other.next_account_id == self.next_account_id,
            other.transaction_depth == self.transaction_depth,
            other.gas@ == self.gas@,
    {
        SimpleWasmiVMExtension {
            storage: self.storage.clone(),
            codes: self.codes.clone(),
            contracts: self.contracts.clone(),
            next_account_id: self.next_account_id,
            transaction_depth: self.transaction_depth,
            gas: self.gas.clone(),
        }
    }
}

impl SimpleWasmiVMExtension {
    /// The stores of all accounts that have one.
    pub open spec fn stores(&self) -> Map<u32, StorageModel> {
        self.storage@.map_values(|store: SimpleWasmiVMStorage| store@)
    }

    /// Whether every contract of the registry has an account that was
    /// handed out: one below the counter. A state that begins so stays so,
    /// whatever operations are made on it.
    pub open spec fn registered_below_counter(&self) -> bool {
        forall|account: u32|
            self.contracts@.contains_key(account) ==> account < self.next_account_id.0
    }

    /// What holds between a state and the same state after any operations:
    /// the counter of accounts has not fallen, and the contracts of the
    /// registry are still below it if they were.
    pub open spec fn grows_into(&self, later: &SimpleWasmiVMExtension) -> bool {
        &&& self.next_account_id.0 <= later.next_account_id.0
        &&& self.registered_below_counter() ==> later.registered_below_counter()
    }

    /// Whether `after` is this state after a contract with `contract_meta`
    /// has been given the next account: the contract is registered at the
    /// account at which the counter stood, the counter has moved on by
    /// one, and nothing else has changed.
    pub open spec fn registers(
        &self,
        contract_meta: ContractMeta,
        after: &SimpleWasmiVMExtension,
    ) -> bool {
        &&& *after == (SimpleWasmiVMExtension {
            contracts: after.contracts,
            next_account_id: next_after(self.next_account_id),
            ..*self
        })
        &&& after.contracts@ == self.contracts@.insert(self.next_account_id.0, contract_meta)
    }

    /// Whether `other` differs from this state in its stores at most.
    pub open spec fn differs_in_storage_only(&self, other: &SimpleWasmiVMExtension) -> bool {
        &&& other.codes == self.codes
        &&& other.contracts == self.contracts
        &&& other.next_account_id == self.next_account_id
        &&& other.transaction_depth == self.transaction_depth
        &&& other.gas == self.gas
    }

    /// A state without stores, code or contracts, whose first account will
    /// be `next_account_id` and whose gas ledger is `gas`.
    pub fn new(next_account_id: BankAccount, gas: Gas) -> (state: SimpleWasmiVMExtension)
        ensures
            state.registered_below_counter(),
            state.stores() == Map::<u32, StorageModel>::empty(),
            state.codes@ == Map::<u64, Vec<u8>>::empty(),
            state.contracts@ == Map::<u32, ContractMeta>::empty(),
            state.next_account_id == next_account_id,
            state.transaction_depth == 0,
            state.gas == gas,
    {
        let state = SimpleWasmiVMExtension {
            storage: BTreeMap::new(),
            codes: BTreeMap::new(),
            contracts: BTreeMap::new(),
            next_account_id,
            transaction_depth: 0,
            gas,
        };
        assert(state.stores() =~= Map::<u32, StorageModel>::empty());
        state
    }

    /// What the registry knows of the contract at `address`; fails with
    /// `ContractNotFound` where it knows none.
    pub fn contract_meta(&self, address: BankAccount) -> (r: Result<ContractMeta, SimpleVMError>)
        ensures
            r == if self.contracts@.contains_key(address.0) {
                Ok::<ContractMeta, SimpleVMError>(self.contracts@[address.0])
            } else {
                Err(SimpleVMError::ContractNotFound(address))
            },
    {
        match self.contracts.get(&address.0) {
            Some(meta) => Ok(meta.clone()),
            None => Err(SimpleVMError::ContractNotFound(address)),
        }
    }

    /// Replaces what the registry knows of the contract at `address`;
    /// fails with `ContractNotFound`, changing nothing, where it knows no
    /// such contract. A contract is not registered this way.
    pub fn set_contract_meta(&mut self, address: BankAccount, contract_meta: ContractMeta) -> (r:
        Result<(), SimpleVMError>)
        ensures
            old(self).grows_into(final(self)),
            old(self).contracts@.contains_key(address.0) ==> r is Ok && *final(self) == (
                SimpleWasmiVMExtension { contracts: final(self).contracts, ..*old(self) }
            ) && final(self).contracts@ == old(self).contracts@.insert(address.0, contract_meta),
            !old(self).contracts@.contains_key(address.0) ==> r == Err::<(), SimpleVMError>(
                SimpleVMError::ContractNotFound(address),
            ) && *final(self) == *old(self),
    {
        if self.contracts.contains_key(&address.0) {
            self.contracts.insert(address.0, contract_meta);
            Ok(())
        } else {
            Err(SimpleVMError::ContractNotFound(address))
        }
    }

    /// The code under `code_id`; fails with `CodeNotFound` where there is
    /// none.
    pub fn code(&self, code_id: u64) -> (r: Result<Vec<u8>, SimpleVMError>)
        ensures
            match r {
                Ok(code) => self.codes@.contains_key(code_id) && code@ == self.codes@[code_id]@,
                Err(e) => !self.codes@.contains_key(code_id) && e == SimpleVMError::CodeNotFound(
                    code_id,
                ),
            },
    {
        match self.codes.get(&code_id) {
            Some(code) => Ok(copy_of(code)),
            None => Err(SimpleVMError::CodeNotFound(code_id)),
        }
    }

    /// Hands out the next account and moves the counter on.
    pub fn allocate_account(&mut self) -> (account: BankAccount)
        requires
            old(self).next_account_id.0 < u32::MAX,
        ensures
            old(self).grows_into(final(self)),
            account == old(self).next_account_id,
            *final(self) == (
                SimpleWasmiVMExtension { next_account_id: next_after(account), ..*old(self) }
            ),
    {
        let BankAccount(address) = self.next_account_id;
        self.next_account_id = BankAccount(address + 1);
        BankAccount(address)
    }

    /// The value that `account` has under `key`, if it has one. An account
    /// without a store reads as one with an empty store, and gets no store
    /// by reading.
    pub fn read(&self, account: BankAccount, key: &Vec<u8>) -> (value: Option<Vec<u8>>)
        ensures
            match value {
                Some(bytes) => value_in(self.stores(), account, key@) == Some(bytes@),
                None => value_in(self.stores(), account, key@) is None,
            },
    {
        match self.storage.get(&account.0) {
            Some(store) => store.read(key),
            None => None,
        }
    }

    /// Takes the store of `account` out of the state, or makes an empty one
    /// where the account has none.
    fn take_store(&mut self, account: BankAccount) -> (store: SimpleWasmiVMStorage)
        ensures
            store@ == store_in(old(self).stores(), account),
            final(self).storage@ == old(self).storage@.remove(account.0),
            old(self).differs_in_storage_only(final(self)),
    {
        match self.storage.remove(&account.0) {
            Some(store) => store,
            None => {
                assert(self.storage@ =~= old(self).storage@.remove(account.0));
                SimpleWasmiVMStorage::new()
            },
        }
    }

    /// Puts `value` under `key` in the store of `account`. An account
    /// without a store gets one.
    pub fn write(&mut self, account: BankAccount, key: Vec<u8>, value: Vec<u8>)
        ensures
            old(self).grows_into(final(self)),
            final(self).stores() == written(old(self).stores(), account, key@, value@),
            old(self).differs_in_storage_only(final(self)),
    {
        let mut store = self.take_store(account);
        store.write(key, value);
        self.storage.insert(account.0, store);
        assert(final(self).stores() =~= written(old(self).stores(), account, key@, value@));
    }

    /// Takes out what `account` has under `key`, if anything. An account
    /// without a store gets an empty one.
    pub fn remove(&mut self, account: BankAccount, key: &Vec<u8>)
        ensures
            old(self).grows_into(final(self)),
            final(self).stores() == removed(old(self).stores(), account, key@),
            old(self).differs_in_storage_only(final(self)),
    {
        let mut store = self.take_store(account);
        store.remove(key);
        self.storage.insert(account.0, store);
        assert(final(self).stores() =~= removed(old(self).stores(), account, key@));
    }

    /// Whether `account` can take one more cursor: the handle of the next
    /// one fits in 32 bits.
    pub fn can_scan(&self, account: BankAccount) -> (r: bool)
        ensures
            r == (store_in(self.stores(), account).next_handle() <= u32::MAX),
    {
        match self.storage.get(&account.0) {
            Some(store) => store.can_scan(),
            None => {
                assert(StorageModel::empty().iterators.dom() =~= Set::empty());
                true
            },
        }
    }

    /// Makes a cursor over what `account` holds now and returns its handle.
    /// The cursor walks a snapshot: each entry of the store once, in the
    /// order asked for. An account without a store gets none by this: the
    /// cursor walks an empty snapshot, and is gone when the call returns.
    pub fn scan(&mut self, account: BankAccount, order: Order) -> (handle: u32)
        requires
            store_in(old(self).stores(), account).next_handle() <= u32::MAX,
        ensures
            old(self).grows_into(final(self)),
            handle == store_in(old(self).stores(), account).next_handle(),
            old(self).differs_in_storage_only(final(self)),
            final(self).stores() == if old(self).stores().contains_key(account.0) {
                old(self).stores().insert(account.0, old(self).stores()[account.0].with_cursor(order))
            } else {
                old(self).stores()
            },
            is_snapshot(
                snapshot_of(store_in(old(self).stores(), account).entries, order),
                store_in(old(self).stores(), account).entries,
                order,
            ),
    {
        match self.storage.remove(&account.0) {
            Some(mut store) => {
                let handle = store.scan(order);
                self.storage.insert(account.0, store);
                assert(final(self).stores() =~= old(self).stores().insert(
                    account.0,
                    old(self).stores()[account.0].with_cursor(order),
                ));
                handle
            },
            None => {
                assert(self.storage@ =~= old(self).storage@);
                let mut empty = SimpleWasmiVMStorage::new();
                empty.scan(order)
            },
        }
    }

    /// Advances the cursor that `account` has under `handle` and returns
    /// what it hands out; fails with `IteratorDoesNotExist`, changing
    /// nothing, where the account has no store or the store no such cursor.
    pub fn next(&mut self, account: BankAccount, handle: u32) -> (r: Result<
        (Vec<u8>, Vec<u8>),
        SimpleVMError,
    >)
        ensures
            old(self).grows_into(final(self)),
            old(self).differs_in_storage_only(final(self)),
            match r {
                Ok(item) => {
                    &&& store_in(old(self).stores(), account).iterators.contains_key(handle)
                    &&& (item.0@, item.1@) == store_in(
                        old(self).stores(),
                        account,
                    ).iterators[handle].item()
                    &&& final(self).stores() == old(self).stores().insert(
                        account.0,
                        old(self).stores()[account.0].with_cursor_advanced(handle),
                    )
                },
                Err(e) => {
                    &&& !store_in(old(self).stores(), account).iterators.contains_key(handle)
                    &&& e == SimpleVMError::IteratorDoesNotExist
                    &&& final(self).stores() == old(self).stores()
                },
            },
    {
        match self.storage.remove(&account.0) {
            Some(mut store) => {
                let r = store.next(handle);
                self.storage.insert(account.0, store);
                proof {
                    if r is Ok {
                        assert(final(self).stores() =~= old(self).stores().insert(
                            account.0,
                            old(self).stores()[account.0].with_cursor_advanced(handle),
                        ));
                    } else {
                        assert(final(self).stores() =~= old(self).stores());
                    }
                }
                r
            },
            None => {
                assert(self.storage@ =~= old(self).storage@);
                Err(SimpleVMError::IteratorDoesNotExist)
            },
        }
    }

    /// Opens a transaction inside the open ones.
    pub fn transaction_begin(&mut self)
        requires
            old(self).transaction_depth < u32::MAX,
        ensures
            old(self).grows_into(final(self)),
            *final(self) == (
                SimpleWasmiVMExtension {
                    transaction_depth: (old(self).transaction_depth + 1) as u32,
                    ..*old(self)
                }
            ),
    {
        self.transaction_depth = self.transaction_depth + 1;
    }

    /// Closes the innermost open transaction. Nothing that was written
    /// while it was open is undone: the depth is all that is kept of
    /// transactions.
    pub fn transaction_end(&mut self)
        requires
            old(self).transaction_depth > 0,
        ensures
            old(self).grows_into(final(self)),
            *final(self) == (
                SimpleWasmiVMExtension {
                    transaction_depth: (old(self).transaction_depth - 1) as u32,
                    ..*old(self)
                }
            ),
    {
        self.transaction_depth = self.transaction_depth - 1;
    }
}

} // verus!
