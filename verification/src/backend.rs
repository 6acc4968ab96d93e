//! The HTTP backend's rules, stated over plain values: input validation,
//! rate limiting, idempotency keys, listing pagination and event indexing.
//!
//! The HTTP plumbing itself (routing, locks held across requests, JSON
//! bodies) is the application's; what each handler decides lives here.

pub mod clock;
pub mod validation;
pub mod store;
pub mod db;
pub mod routes;
pub mod rate_limit;
pub mod indexer;
pub mod config;
