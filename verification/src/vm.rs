//! The host of one call: what a running contract may ask for.
//!
//! A host knows the environment of its call and who made it. The shared
//! state is not part of it: each operation is lent the state for as long
//! as it runs. A call into another contract gets a host of its own, which
//! [`SimpleWasmiVM::load_subvm`] prepares together with the code to run;
//! to build the interpreter over that code and to run it is left to the
//! caller.

pub use crate::account::BankAccount;
pub use crate::address::{digit_sum, riffle_shuffle, CanonicalAddress};
pub use crate::error::SimpleVMError;
pub use crate::extension::SimpleWasmiVMExtension;
pub use crate::gas::Gas;
pub use crate::storage::{Iter, SimpleWasmiVMStorage};

use crate::account::{account_of, decimal};
use crate::address::{canonicalize, canonicalized, humanize, humanized, validate, validated};
use crate::env::{Coin, ContractInfo, ContractInfoResponse, Env, MessageInfo};
use crate::error::RuntimeFault;
use crate::extension::{removed, store_in, value_in, written, ContractMeta};
use crate::gas::{after_charge, after_pop, after_push, can_pop, gas_cost, VmGas, VmGasCheckpoint};
use crate::storage::{is_snapshot, snapshot_of, Order};
use crate::text::{lowercase, utf8};
use vstd::prelude::*;

verus! {

/// The host of one call.
#[derive(PartialEq, Eq, Debug)]
pub struct SimpleWasmiVM {
    pub env: Env,
    pub info: MessageInfo,
}

/// What a call into another contract runs with.
#[derive(PartialEq, Eq, Debug)]
pub struct SubVm {
    /// The code of the contract that is called.
    pub code: Vec<u8>,
    /// The host of the call.
    pub vm: SimpleWasmiVM,
}

/// The code that the contract at `address` runs, or the failure to find it:
/// `ContractNotFound` where the registry knows no such contract,
/// `CodeNotFound` where it names code that is not stored.
pub open spec fn code_for(state: SimpleWasmiVMExtension, address: BankAccount) -> Result<
    Seq<u8>,
    SimpleVMError,
> {
    if !state.contracts@.contains_key(address.0) {
        Err(SimpleVMError::ContractNotFound(address))
    } else {
        let code_id = state.contracts@[address.0].code_id;
        if !state.codes@.contains_key(code_id) {
            Err(SimpleVMError::CodeNotFound(code_id))
        } else {
            Ok(state.codes@[code_id]@)
        }
    }
}

impl SimpleWasmiVM {
    /// The account of the running contract, if the text of its address
    /// spells one.
    pub open spec fn running_account(&self) -> Option<BankAccount> {
        account_of(utf8(self.env.contract.address@))
    }

    /// Whether `sub` is the host of a call that this host makes to
    /// `address` with `funds`: the block and the transaction are those of
    /// this call, the contract is the one called, and the sender is the
    /// contract that runs here.
    pub open spec fn calls(&self, sub: SimpleWasmiVM, address: BankAccount, funds: Vec<Coin>)
        -> bool {
        &&& sub.env.block == self.env.block
        &&& sub.env.transaction == self.env.transaction
        &&& utf8(sub.env.contract.address@) == decimal(address.0 as nat)
        &&& sub.running_account() == Some(address)
        &&& sub.info.sender == self.env.contract.address
        &&& sub.info.funds == funds
    }

    /// A host for a call in `env` made by `info`.
    pub fn new(env: Env, info: MessageInfo) -> (vm: SimpleWasmiVM)
        ensures
            vm.env == env,
            vm.info == info,
    {
        SimpleWasmiVM { env, info }
    }

    /// The environment of the call.
    pub fn env(&self) -> (env: Env)
        ensures
            env == self.env,
    {
        self.env.clone()
    }

    /// The caller of the call.
    pub fn info(&self) -> (info: MessageInfo)
        ensures
            info.sender == self.info.sender,
            info.funds@ == self.info.funds@,
    {
        self.info.clone()
    }

    /// Reads the account of the running contract from the environment.
    fn contract_addr(&self) -> (r: Result<BankAccount, SimpleVMError>)
        ensures
            r == match self.running_account() {
                Some(account) => Ok::<BankAccount, SimpleVMError>(account),
                None => Err(SimpleVMError::InvalidAccountFormat),
            },
    {
        BankAccount::from_str(self.env.contract.address.as_str())
    }

    /// Prepares a call to the contract at `address` with `funds`: finds
    /// the code of the contract and makes the host of the call.
    pub fn load_subvm(
        &self,
        extension: &SimpleWasmiVMExtension,
        address: BankAccount,
        funds: Vec<Coin>,
    ) -> (r: Result<SubVm, SimpleVMError>)
        ensures
            match code_for(*extension, address) {
                Ok(code) => r matches Ok(sub) && sub.code@ == code && self.calls(
                    sub.vm,
                    address,
                    funds,
                ),
                Err(e) => r == Err::<SubVm, SimpleVMError>(e),
            },
    {
        let meta = match extension.contract_meta(address) {
            Ok(meta) => meta,
            Err(e) => return Err(e),
        };
        let code = match extension.code(meta.code_id) {
            Ok(code) => code,
            Err(e) => return Err(e),
        };
        Ok(
            SubVm {
                code,
                vm: SimpleWasmiVM {
                    env: Env {
                        block: self.env.block.clone(),
                        transaction: self.env.transaction,
                        contract: ContractInfo { address: address.to_addr() },
                    },
                    info: MessageInfo { sender: self.env.contract.address.clone(), funds },
                },
            },
        )
    }

    /// What the registry knows of the running contract.
    pub fn running_contract_meta(&self, extension: &SimpleWasmiVMExtension) -> (r: Result<
        ContractMeta,
        SimpleVMError,
    >)
        requires
            self.running_account() is Some,
            extension.contracts@.contains_key(self.running_account()->Some_0.0),
        ensures
            r == Ok::<ContractMeta, SimpleVMError>(
                extension.contracts@[self.running_account()->Some_0.0],
            ),
    {
        match self.contract_addr() {
            Ok(address) => extension.contract_meta(address),
            Err(e) => Err(e),
        }
    }

    /// Replaces what the registry knows of the contract at `address`;
    /// fails with `ContractNotFound`, changing nothing, where it knows no
    /// such contract.
    pub fn set_contract_meta(
        &self,
        extension: &mut SimpleWasmiVMExtension,
        address: BankAccount,
        contract_meta: ContractMeta,
    ) -> (r: Result<(), SimpleVMError>)
        ensures
            old(extension).grows_into(final(extension)),
            old(extension).contracts@.contains_key(address.0) ==> r is Ok && *final(extension) == (
                SimpleWasmiVMExtension { contracts: final(extension).contracts, ..*old(extension) }
            ) && final(extension).contracts@ == old(extension).contracts@.insert(
                address.0,
                contract_meta,
            ),
            !old(extension).contracts@.contains_key(address.0) ==> r == Err::<(), SimpleVMError>(
                SimpleVMError::ContractNotFound(address),
            ) && *final(extension) == *old(extension),
    {
        extension.set_contract_meta(address, contract_meta)
    }

    /// What the registry knows of the contract at `address`; fails with
    /// `ContractNotFound` where it knows none.
    pub fn contract_meta(&self, extension: &SimpleWasmiVMExtension, address: BankAccount) -> (r:
        Result<ContractMeta, SimpleVMError>)
        ensures
            r == if extension.contracts@.contains_key(address.0) {
                Ok::<ContractMeta, SimpleVMError>(extension.contracts@[address.0])
            } else {
                Err(SimpleVMError::ContractNotFound(address))
            },
    {
        extension.contract_meta(address)
    }

    /// Prepares a query of the contract at `address`. A query carries no
    /// funds.
    pub fn query_continuation(&self, extension: &SimpleWasmiVMExtension, address: BankAccount) -> (r:
        Result<SubVm, SimpleVMError>)
        ensures
            match code_for(*extension, address) {
                Ok(code) => r matches Ok(sub) && sub.code@ == code && self.calls(
                    sub.vm,
                    address,
                    sub.vm.info.funds,
                ) && sub.vm.info.funds@.len() == 0,
                Err(e) => r == Err::<SubVm, SimpleVMError>(e),
            },
    {
        self.load_subvm(extension, address, Vec::new())
    }

    /// Prepares the execution of the contract at `address` with `funds`.
    pub fn continue_execute(
        &self,
        extension: &SimpleWasmiVMExtension,
        address: BankAccount,
        funds: Vec<Coin>,
    ) -> (r: Result<SubVm, SimpleVMError>)
        ensures
            match code_for(*extension, address) {
                Ok(code) => r matches Ok(sub) && sub.code@ == code && self.calls(
                    sub.vm,
                    address,
                    funds,
                ),
                Err(e) => r == Err::<SubVm, SimpleVMError>(e),
            },
    {
        self.load_subvm(extension, address, funds)
    }

    /// Prepares the instantiation of a contract: allocates its account,
    /// registers `contract_meta` for it, and only then prepares the call
    /// of its constructor, which can so look itself up. The account stays
    /// allocated and registered where the code of the contract is not
    /// found. The new contract runs at the new account and is called by
    /// the contract that runs here; its account is greater than the
    /// caller's, if the caller's was handed out by the counter.
    pub fn continue_instantiate(
        &self,
        extension: &mut SimpleWasmiVMExtension,
        contract_meta: ContractMeta,
        funds: Vec<Coin>,
    ) -> (r: Result<(BankAccount, SubVm), SimpleVMError>)
        requires
            old(extension).next_account_id.0 < u32::MAX,
        ensures
            old(extension).registers(contract_meta, final(extension)),
            old(extension).grows_into(final(extension)),
            r matches Ok(made) ==> made.1.vm.running_account() == Some(made.0) && account_of(
                utf8(made.1.vm.info.sender@),
            ) == self.running_account(),
            r matches Ok(made) ==> (self.running_account() matches Some(caller) ==> (caller.0
                < old(extension).next_account_id.0 ==> made.0.0 > caller.0)),
            match code_for(*final(extension), old(extension).next_account_id) {
                Ok(code) => r matches Ok(made) && made.0 == old(extension).next_account_id
                    && made.1.code@ == code && self.calls(made.1.vm, made.0, funds),
                Err(e) => r == Err::<(BankAccount, SubVm), SimpleVMError>(e),
            },
    {
        let address = extension.allocate_account();
        extension.contracts.insert(address.0, contract_meta);
        match self.load_subvm(extension, address, funds) {
            Ok(sub) => Ok((address, sub)),
            Err(e) => Err(e),
        }
    }

    /// Prepares the migration of the contract at `address`. A migration
    /// carries no funds.
    pub fn continue_migrate(&self, extension: &SimpleWasmiVMExtension, address: BankAccount) -> (r:
        Result<SubVm, SimpleVMError>)
        ensures
            match code_for(*extension, address) {
                Ok(code) => r matches Ok(sub) && sub.code@ == code && self.calls(
                    sub.vm,
                    address,
                    sub.vm.info.funds,
                ) && sub.vm.info.funds@.len() == 0,
                Err(e) => r == Err::<SubVm, SimpleVMError>(e),
            },
    {
        self.load_subvm(extension, address, Vec::new())
    }

    /// Custom queries are not offered.
    pub fn query_custom(&self) -> (r: Result<Vec<u8>, SimpleVMError>)
        ensures
            r == Err::<Vec<u8>, SimpleVMError>(SimpleVMError::NoCustomQuery),
    {
        Err(SimpleVMError::NoCustomQuery)
    }

    /// Custom messages are not offered.
    pub fn message_custom(&self) -> (r: Result<Option<Vec<u8>>, SimpleVMError>)
        ensures
            r == Err::<Option<Vec<u8>>, SimpleVMError>(SimpleVMError::NoCustomMessage),
    {
        Err(SimpleVMError::NoCustomMessage)
    }

    /// The value that the account at `address` has under `key`, if it has
    /// one.
    pub fn query_raw(&self, extension: &SimpleWasmiVMExtension, address: BankAccount, key: Vec<u8>)
        -> (r: Result<Option<Vec<u8>>, SimpleVMError>)
        ensures
            r matches Ok(value) && match value {
                Some(bytes) => value_in(extension.stores(), address, key@) == Some(bytes@),
                None => value_in(extension.stores(), address, key@) is None,
            },
    {
        Ok(extension.read(address, &key))
    }

    /// Moves no funds: there is no ledger of balances behind this host.
    pub fn transfer(&self, _to: &BankAccount, _funds: &[Coin]) -> (r: Result<(), SimpleVMError>)
        ensures
            r is Ok,
    {
        Ok(())
    }

    /// Burns no funds: there is no ledger of balances behind this host.
    pub fn burn(&self, _funds: &[Coin]) -> (r: Result<(), SimpleVMError>)
        ensures
            r is Ok,
    {
        Ok(())
    }

    /// Balances are not offered.
    pub fn balance(&self, _account: &BankAccount, _denom: String) -> (r: Result<
        Coin,
        SimpleVMError,
    >)
        ensures
            r == Err::<Coin, SimpleVMError>(SimpleVMError::Unsupported),
    {
        Err(SimpleVMError::Unsupported)
    }

    /// No account holds any funds.
    pub fn all_balance(&self, _account: &BankAccount) -> (r: Result<Vec<Coin>, SimpleVMError>)
        ensures
            r matches Ok(funds) && funds@.len() == 0,
    {
        Ok(Vec::new())
    }

    /// Information on contracts is not offered.
    pub fn query_info(&self, _address: BankAccount) -> (r: Result<
        ContractInfoResponse,
        SimpleVMError,
    >)
        ensures
            r == Err::<ContractInfoResponse, SimpleVMError>(SimpleVMError::Unsupported),
    {
        Err(SimpleVMError::Unsupported)
    }

    /// Takes a message for debugging and drops it.
    pub fn debug(&self, _message: Vec<u8>) -> (r: Result<(), SimpleVMError>)
        ensures
            r is Ok,
    {
        Ok(())
    }

    /// Makes a cursor over all that the running contract holds now: a
    /// snapshot that lists each entry once, in the order asked for. The
    /// bounds are not looked at. Returns the handle of the cursor.
    pub fn db_scan(
        &self,
        extension: &mut SimpleWasmiVMExtension,
        _start: Option<Vec<u8>>,
        _end: Option<Vec<u8>>,
        order: Order,
    ) -> (r: Result<u32, SimpleVMError>)
        requires
            self.running_account() matches Some(account) ==> store_in(
                old(extension).stores(),
                account,
            ).next_handle() <= u32::MAX,
        ensures
            old(extension).grows_into(final(extension)),
            old(extension).differs_in_storage_only(final(extension)),
            match self.running_account() {
                None => r == Err::<u32, SimpleVMError>(SimpleVMError::InvalidAccountFormat)
                    && final(extension).stores() == old(extension).stores(),
                Some(account) => r == Ok::<u32, SimpleVMError>(
                    store_in(old(extension).stores(), account).next_handle() as u32,
                ) && final(extension).stores() == if old(extension).stores().contains_key(
                    account.0,
                ) {
                    old(extension).stores().insert(
                        account.0,
                        old(extension).stores()[account.0].with_cursor(order),
                    )
                } else {
                    old(extension).stores()
                },
            },
            self.running_account() matches Some(account) ==> is_snapshot(
                snapshot_of(store_in(old(extension).stores(), account).entries, order),
                store_in(old(extension).stores(), account).entries,
                order,
            ),
    {
        let contract_addr = match self.contract_addr() {
            Ok(account) => account,
            Err(e) => return Err(e),
        };
        Ok(extension.scan(contract_addr, order))
    }

    /// Advances the cursor that the running contract has under
    /// `iterator_id` and returns what it hands out: the next entry of its
    /// snapshot or, past the end, an empty key with an empty value. Fails
    /// with `IteratorDoesNotExist` where the contract has no such cursor.
    pub fn db_next(&self, extension: &mut SimpleWasmiVMExtension, iterator_id: u32) -> (r: Result<
        (Vec<u8>, Vec<u8>),
        SimpleVMError,
    >)
        ensures
            old(extension).grows_into(final(extension)),
            old(extension).differs_in_storage_only(final(extension)),
            match self.running_account() {
                None => r == Err::<(Vec<u8>, Vec<u8>), SimpleVMError>(
                    SimpleVMError::InvalidAccountFormat,
                ) && final(extension).stores() == old(extension).stores(),
                Some(account) => {
                    let store = store_in(old(extension).stores(), account);
                    if store.iterators.contains_key(iterator_id) {
                        &&& r matches Ok(item)
                        &&& (item.0@, item.1@) == store.iterators[iterator_id].item()
                        &&& final(extension).stores() == old(extension).stores().insert(
                            account.0,
                            store.with_cursor_advanced(iterator_id),
                        )
                    } else {
                        &&& r == Err::<(Vec<u8>, Vec<u8>), SimpleVMError>(
                            SimpleVMError::IteratorDoesNotExist,
                        )
                        &&& final(extension).stores() == old(extension).stores()
                    }
                },
            },
    {
        let contract_addr = match self.contract_addr() {
            Ok(account) => account,
            Err(e) => return Err(e),
        };
        extension.next(contract_addr, iterator_id)
    }

    /// Signatures are not verified by this host.
    pub fn secp256k1_verify(&self, _message_hash: &[u8], _signature: &[u8], _public_key: &[u8])
        -> (r: Result<bool, SimpleVMError>)
        ensures
            r == Err::<bool, SimpleVMError>(SimpleVMError::Unsupported),
    {
        Err(SimpleVMError::Unsupported)
    }

    /// Public keys are not recovered by this host.
    pub fn secp256k1_recover_pubkey(
        &self,
        _message_hash: &[u8],
        _signature: &[u8],
        _recovery_param: u8,
    ) -> (r: Result<Result<Vec<u8>, ()>, SimpleVMError>)
        ensures
            r == Err::<Result<Vec<u8>, ()>, SimpleVMError>(SimpleVMError::Unsupported),
    {
        Err(SimpleVMError::Unsupported)
    }

    /// Signatures are not verified by this host.
    pub fn ed25519_verify(&self, _message: &[u8], _signature: &[u8], _public_key: &[u8]) -> (r:
        Result<bool, SimpleVMError>)
        ensures
            r == Err::<bool, SimpleVMError>(SimpleVMError::Unsupported),
    {
        Err(SimpleVMError::Unsupported)
    }

    /// Signatures are not verified by this host.
    pub fn ed25519_batch_verify(
        &self,
        _messages: &[&[u8]],
        _signatures: &[&[u8]],
        _public_keys: &[&[u8]],
    ) -> (r: Result<bool, SimpleVMError>)
        ensures
            r == Err::<bool, SimpleVMError>(SimpleVMError::Unsupported),
    {
        Err(SimpleVMError::Unsupported)
    }

    /// Judges the text of an address. The call itself never fails; the
    /// inner result is `InvalidAddress` unless the canonical address of the
    /// text leads back to the account that the text spells, and so also
    /// where the text as it stands spells no account.
    pub fn addr_validate(&self, input: &str) -> (r: Result<
        Result<(), SimpleVMError>,
        SimpleVMError,
    >)
        ensures
            r == validated(utf8(input@), utf8(lowercase(input@))),
            r is Ok,
    {
        validate(input)
    }

    /// Canonicalizes the text of an address. The call itself never fails;
    /// the inner result is `InvalidAddress` for text whose lowercase form
    /// is shorter than the minimum or longer than the canonical length.
    pub fn addr_canonicalize(&self, input: &str) -> (r: Result<
        Result<CanonicalAddress, SimpleVMError>,
        SimpleVMError,
    >)
        ensures
            r matches Ok(inner) && match canonicalized(utf8(lowercase(input@))) {
                Ok(canonical) => inner matches Ok(address) && address.0@ == canonical,
                Err(e) => inner == Err::<CanonicalAddress, SimpleVMError>(e),
            },
    {
        Ok(canonicalize(input))
    }

    /// Finds the account behind a canonical address. The call itself never
    /// fails; the inner result is `InvalidAddress` where the address has
    /// not the canonical length or the text behind it spells no account.
    pub fn addr_humanize(&self, addr: &CanonicalAddress) -> (r: Result<
        Result<BankAccount, SimpleVMError>,
        SimpleVMError,
    >)
        ensures
            r == Ok::<Result<BankAccount, SimpleVMError>, SimpleVMError>(humanized(addr.0@)),
    {
        Ok(humanize(addr))
    }

    /// The value that the running contract has under `key`, if it has one.
    pub fn db_read(&self, extension: &SimpleWasmiVMExtension, key: Vec<u8>) -> (r: Result<
        Option<Vec<u8>>,
        SimpleVMError,
    >)
        ensures
            match self.running_account() {
                None => r == Err::<Option<Vec<u8>>, SimpleVMError>(
                    SimpleVMError::InvalidAccountFormat,
                ),
                Some(account) => r matches Ok(value) && match value {
                    Some(bytes) => value_in(extension.stores(), account, key@) == Some(bytes@),
                    None => value_in(extension.stores(), account, key@) is None,
                },
            },
    {
        let contract_addr = match self.contract_addr() {
            Ok(account) => account,
            Err(e) => return Err(e),
        };
        Ok(extension.read(contract_addr, &key))
    }

    /// Puts `value` under `key` in the store of the running contract.
    pub fn db_write(&self, extension: &mut SimpleWasmiVMExtension, key: Vec<u8>, value: Vec<u8>)
        -> (r: Result<(), SimpleVMError>)
        ensures
            old(extension).grows_into(final(extension)),
            old(extension).differs_in_storage_only(final(extension)),
            match self.running_account() {
                None => r == Err::<(), SimpleVMError>(SimpleVMError::InvalidAccountFormat)
                    && final(extension).stores() == old(extension).stores(),
                Some(account) => r is Ok && final(extension).stores() == written(
                    old(extension).stores(),
                    account,
                    key@,
                    value@,
                ),
            },
    {
        let contract_addr = match self.contract_addr() {
            Ok(account) => account,
            Err(e) => return Err(e),
        };
        extension.write(contract_addr, key, value);
        Ok(())
    }

    /// Takes out what the running contract has under `key`, if anything.
    pub fn db_remove(&self, extension: &mut SimpleWasmiVMExtension, key: Vec<u8>) -> (r: Result<
        (),
        SimpleVMError,
    >)
        ensures
            old(extension).grows_into(final(extension)),
            old(extension).differs_in_storage_only(final(extension)),
            match self.running_account() {
                None => r == Err::<(), SimpleVMError>(SimpleVMError::InvalidAccountFormat)
                    && final(extension).stores() == old(extension).stores(),
                Some(account) => r is Ok && final(extension).stores() == removed(
                    old(extension).stores(),
                    account,
                    key@,
                ),
            },
    {
        let contract_addr = match self.contract_addr() {
            Ok(account) => account,
            Err(e) => return Err(e),
        };
        extension.remove(contract_addr, &key);
        Ok(())
    }

    /// Stops the running contract: the call fails with the message that
    /// the contract gave.
    pub fn abort(&self, message: String) -> (r: Result<(), SimpleVMError>)
        ensures
            r == Err::<(), SimpleVMError>(
                SimpleVMError::VMError(RuntimeFault::ContractExecutionFailure(message)),
            ),
    {
        Err(SimpleVMError::VMError(RuntimeFault::ContractExecutionFailure(message)))
    }

    /// Charges for `value`: what was metered for instructions, one unit
    /// for a host operation. Fails with `OutOfGas`, charging nothing, where
    /// the active budget is smaller.
    pub fn charge(&self, extension: &mut SimpleWasmiVMExtension, value: VmGas) -> (r: Result<
        (),
        SimpleVMError,
    >)
        ensures
            old(extension).grows_into(final(extension)),
            *final(extension) == (
                SimpleWasmiVMExtension { gas: final(extension).gas, ..*old(extension) }
            ),
            match after_charge(old(extension).gas@, gas_cost(value)) {
                Ok(budgets) => r is Ok && final(extension).gas@ == budgets,
                Err(e) => r == Err::<(), SimpleVMError>(e)
                    && final(extension).gas@ == old(extension).gas@,
            },
    {
        let gas_to_charge = Gas::cost_of(value);
        extension.gas.charge(gas_to_charge)
    }

    /// Pushes a gas checkpoint for a nested operation. Fails with
    /// `OutOfGas`, changing nothing, where a limit asks for more than the
    /// active budget holds.
    pub fn gas_checkpoint_push(
        &self,
        extension: &mut SimpleWasmiVMExtension,
        checkpoint: VmGasCheckpoint,
    ) -> (r: Result<(), SimpleVMError>)
        ensures
            old(extension).grows_into(final(extension)),
            *final(extension) == (
                SimpleWasmiVMExtension { gas: final(extension).gas, ..*old(extension) }
            ),
            match after_push(old(extension).gas@, checkpoint) {
                Ok(budgets) => r is Ok && final(extension).gas@ == budgets,
                Err(e) => r == Err::<(), SimpleVMError>(e)
                    && final(extension).gas@ == old(extension).gas@,
            },
    {
        extension.gas.push(checkpoint)
    }

    /// Pops the last gas checkpoint: what the nested operation did not
    /// spend returns to its caller.
    pub fn gas_checkpoint_pop(&self, extension: &mut SimpleWasmiVMExtension) -> (r: Result<
        (),
        SimpleVMError,
    >)
        requires
            can_pop(old(extension).gas@),
        ensures
            old(extension).grows_into(final(extension)),
            r is Ok,
            *final(extension) == (
                SimpleWasmiVMExtension { gas: final(extension).gas, ..*old(extension) }
            ),
            final(extension).gas@ == after_pop(old(extension).gas@),
    {
        extension.gas.pop();
        Ok(())
    }

    /// Fails with `OutOfGas` exactly where the active budget is used up.
    pub fn gas_ensure_available(&self, extension: &SimpleWasmiVMExtension) -> (r: Result<
        (),
        SimpleVMError,
    >)
        ensures
            extension.gas@.len() > 0,
            extension.gas@.last() > 0 ==> r is Ok,
            extension.gas@.last() == 0 ==> r == Err::<(), SimpleVMError>(SimpleVMError::OutOfGas),
    {
        extension.gas.ensure_available()
    }

    /// Opens a transaction.
    pub fn transaction_begin(&self, extension: &mut SimpleWasmiVMExtension) -> (r: Result<
        (),
        SimpleVMError,
    >)
        requires
            old(extension).transaction_depth < u32::MAX,
        ensures
            old(extension).grows_into(final(extension)),
            r is Ok,
            *final(extension) == (SimpleWasmiVMExtension {
                transaction_depth: (old(extension).transaction_depth + 1) as u32,
                ..*old(extension)
            }),
    {
        extension.transaction_begin();
        Ok(())
    }

    /// Closes the innermost transaction and keeps what was written in it.
    pub fn transaction_commit(&self, extension: &mut SimpleWasmiVMExtension) -> (r: Result<
        (),
        SimpleVMError,
    >)
        requires
            old(extension).transaction_depth > 0,
        ensures
            old(extension).grows_into(final(extension)),
            r is Ok,
            *final(extension) == (SimpleWasmiVMExtension {
                transaction_depth: (old(extension).transaction_depth - 1) as u32,
                ..*old(extension)
            }),
    {
        extension.transaction_end();
        Ok(())
    }

    /// Closes the innermost transaction. What was written in it stays
    /// written: the stores keep no record by which it could be undone.
    pub fn transaction_rollback(&self, extension: &mut SimpleWasmiVMExtension) -> (r: Result<
        (),
        SimpleVMError,
    >)
        requires
            old(extension).transaction_depth > 0,
        ensures
            old(extension).grows_into(final(extension)),
            r is Ok,
            *final(extension) == (SimpleWasmiVMExtension {
                transaction_depth: (old(extension).transaction_depth - 1) as u32,
                ..*old(extension)
            }),
    {
        extension.transaction_end();
        Ok(())
    }
}

} // verus!
