//! The context of one call: where and when the contract runs, and who
//! called it with what funds.

use vstd::prelude::*;

verus! {

/// An amount of one denomination.
#[derive(PartialEq, Eq, Debug)]
pub struct Coin {
    pub denom: String,
    pub amount: u128,
}

impl Clone for Coin {
    fn clone(&self) -> (other: Coin)
        ensures
            other == *self,
    {
        Coin { denom: self.denom.clone(), amount: self.amount }
    }
}

/// The block in which the call runs.
#[derive(PartialEq, Eq, Debug)]
pub struct BlockInfo {
    pub height: u64,
    pub time: u64,
    pub chain_id: String,
}

impl Clone for BlockInfo {
    fn clone(&self) -> (other: BlockInfo)
        ensures
            other == *self,
    {
        BlockInfo { height: self.height, time: self.time, chain_id: self.chain_id.clone() }
    }
}

/// The place of the transaction in its block.
#[derive(Copy, Clone, PartialEq, Eq, Debug)]
pub struct TransactionInfo {
    pub index: u32,
}

/// The contract that runs.
#[derive(PartialEq, Eq, Debug)]
pub struct ContractInfo {
    /// The account of the contract, as text.
    pub address: String,
}

impl Clone for ContractInfo {
    fn clone(&self) -> (other: ContractInfo)
        ensures
            other == *self,
    {
        ContractInfo { address: self.address.clone() }
    }
}

/// The environment of a call. It does not change while the call runs.
#[derive(PartialEq, Eq, Debug)]
pub struct Env {
    pub block: BlockInfo,
    pub transaction: Option<TransactionInfo>,
    pub contract: ContractInfo,
}

impl Clone for Env {
    fn clone(&self) -> (other: Env)
        ensures
            other == *self,
    {
        Env {
            block: self.block.clone(),
            transaction: self.transaction,
            contract: self.contract.clone(),
        }
    }
}

/// The caller of a call. It does not change while the call runs.
#[derive(PartialEq, Eq, Debug)]
pub struct MessageInfo {
    /// The account of the caller, as text.
    pub sender: String,
    /// The funds that come with the call.
    pub funds: Vec<Coin>,
}

impl Clone for MessageInfo {
    fn clone(&self) -> (other: MessageInfo)
        ensures
            other.sender == self.sender,
            other.funds@ == self.funds@,
    {
        MessageInfo { sender: self.sender.clone(), funds: copy_of_funds(&self.funds) }
    }
}

/// A copy of `funds`.
pub fn copy_of_funds(funds: &Vec<Coin>) -> (copy: Vec<Coin>)
    ensures
        copy@ == funds@,
{
    let mut copy: Vec<Coin> = Vec::with_capacity(funds.len());
    let mut i: usize = 0;
    while i < funds.len()
        invariant
            i <= funds@.len(),
            copy@ == funds@.subrange(0, i as int),
        decreases funds@.len() - i,
    {
        copy.push(funds[i].clone());
        assert(copy@ =~= funds@.subrange(0, i + 1));
        i = i + 1;
    }
    assert(funds@.subrange(0, i as int) =~= funds@);
    copy
}

/// What is known of a contract beyond the code it runs.
#[derive(PartialEq, Eq, Debug)]
pub struct ContractInfoResponse {
    pub code_id: u64,
    pub creator: String,
    pub admin: Option<String>,
    pub pinned: bool,
    pub ibc_port: Option<String>,
}

} // verus!
