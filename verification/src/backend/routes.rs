//! What the HTTP handlers decide, one module per route group.

pub mod tx;
pub mod bounties;
pub mod leaderboard;
