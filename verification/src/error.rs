//! The failures a host operation can end in.

use crate::account::BankAccount;
use vstd::prelude::*;

verus! {

/// A failure of the framework that surrounds the interpreter.
#[derive(Clone, PartialEq, Eq, Debug)]
pub enum RuntimeFault {
    /// The running contract asked to stop, with this message.
    ContractExecutionFailure(String),
    /// A failure at system level, described.
    System(String),
    /// A failed read or write of the contract's linear memory, described.
    Memory(String),
    /// A failure while an entrypoint was being driven, described.
    Executor(String),
}

/// Why a call into the host failed. None of these can be resumed: the call
/// in progress unwinds to its caller.
#[derive(Clone, PartialEq, Eq, Debug)]
pub enum SimpleVMError {
    /// The interpreter itself failed; the text describes how.
    Interpreter(String),
    /// The framework around the interpreter failed.
    VMError(RuntimeFault),
    /// No code is stored under this identifier.
    CodeNotFound(u64),
    /// No contract is registered for this account.
    ContractNotFound(BankAccount),
    /// The text or bytes do not form an address.
    InvalidAddress,
    /// The text does not spell an account number.
    InvalidAccountFormat,
    /// Custom queries are not offered.
    NoCustomQuery,
    /// Custom messages are not offered.
    NoCustomMessage,
    /// The operation is not offered by this host.
    Unsupported,
    /// The active budget does not cover the request.
    OutOfGas,
    /// The handle names no cursor of the running contract.
    IteratorDoesNotExist,
}

} // verus!
