//! The entry of a top-level call.

use crate::account::{decimal, BankAccount};
use crate::env::{BlockInfo, Coin, ContractInfo, Env, MessageInfo};
use crate::text::utf8;
use crate::vm::{SimpleWasmiVM, SubVm};
use vstd::prelude::*;
use vstd::slice::slice_to_vec;

verus! {

/// The height of the block of every top-level call: a placeholder, as no
/// chain stands behind the calls.
pub const BLOCK_HEIGHT: u64 = 0xDEADC0DE;

/// The time of the block of every top-level call.
pub const BLOCK_TIME: u64 = 0;

/// The chain of every top-level call.
pub open spec fn chain_id() -> Seq<char> {
    "abstract-test"@
}

/// Prepares a top-level call: `sender` calls the contract at `address`,
/// whose code is `code`, with `funds`. The call runs in the placeholder
/// block, outside any transaction.
pub fn vm_initialize(sender: BankAccount, address: BankAccount, funds: Vec<Coin>, code: &[u8]) -> (loaded:
    SubVm)
    ensures
        loaded.code@ == code@,
        loaded.vm.env.block.height == BLOCK_HEIGHT,
        loaded.vm.env.block.time == BLOCK_TIME,
        loaded.vm.env.block.chain_id@ == chain_id(),
        loaded.vm.env.transaction is None,
        utf8(loaded.vm.env.contract.address@) == decimal(address.0 as nat),
        loaded.vm.running_account() == Some(address),
        utf8(loaded.vm.info.sender@) == decimal(sender.0 as nat),
        loaded.vm.info.funds == funds,
{
    SubVm {
        code: slice_to_vec(code),
        vm: SimpleWasmiVM {
            env: Env {
                block: BlockInfo {
                    height: BLOCK_HEIGHT,
                    time: BLOCK_TIME,
                    chain_id: "abstract-test".to_owned(),
                },
                transaction: None,
                contract: ContractInfo { address: address.to_addr() },
            },
            info: MessageInfo { sender: sender.to_addr(), funds },
        },
    }
}

} // verus!
