//! MergeMint: a bounty board whose on-chain contract logic and off-chain
//! backend rules are stated as contracts and proved with Verus.
//!
//! * [`contract`] — the bounty contract: bounties, claims, payouts, disputes,
//!   paged status indexes, and its queries.
//! * [`backend`] — the HTTP backend's rules: input validation, rate limiting,
//!   idempotency keys, listing pagination, event indexing.
//! * [`escrow`] — the escrow contract: refunds on cancellation or expiry.
//! * [`event_indexer`] — bounty ids read from raw contract event values.
#![allow(unused_imports)]

pub mod contract;
pub mod backend;
pub mod escrow;
pub mod event_indexer;
