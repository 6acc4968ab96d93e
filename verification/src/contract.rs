//! The bounty contract, modelled as a state machine over plain values.
//!
//! Every mutating entry point either succeeds, returning the token transfers
//! and events the host must carry out, or fails with a [`errors::ContractError`]
//! and leaves the state exactly as it was (the ledger's revert semantics).

pub mod errors;
pub mod types;
pub mod paged;
pub mod addr_map;
pub mod symbols;
pub mod pagination;
pub mod scval;
pub mod ranking;
pub mod state;
