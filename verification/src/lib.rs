//! Host environment for sandboxed smart-contract execution.
//!
//! A contract interpreter runs untrusted bytecode; this crate supplies what
//! the bytecode may ask of its host: gas metering with nested checkpoints,
//! a key/value store per account with snapshot cursors, the registry of
//! contracts and their code, the bookkeeping of nested calls between
//! contracts, and a reversible codec between account texts and canonical
//! addresses. Every function is verified against the contract it states.
//!
//! The interpreter itself is not here. A caller builds it over the code
//! that [`vm::SimpleWasmiVM::load_subvm`] or [`bind::vm_initialize`] hands
//! out, and passes the calls of the running contract on to the host.
//!
//! - [`gas`]: the gas ledger
//! - [`account`]: accounts and their decimal text
//! - [`address`]: the address codec
//! - [`storage`]: the store of one account and its cursors, over
//!   [`listing`], [`order`] and [`encoding`]
//! - [`extension`]: the state shared by a tree of calls
//! - [`vm`]: the host of one call
//! - [`bind`]: the entry of a top-level call
//! - [`env`], [`error`], [`text`]: what the others speak of

pub mod account;
pub mod address;
pub mod bind;
pub mod encoding;
pub mod env;
pub mod error;
pub mod extension;
pub mod gas;
pub mod listing;
pub mod order;
pub mod storage;
pub mod text;
pub mod vm;
