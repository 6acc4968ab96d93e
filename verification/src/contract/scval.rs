//! Field-level encode/decode helpers for the contract's stored values.
//!
//! Each `encode_*` projects a value onto the fields that cross the ledger
//! boundary, and each `decode_*` rebuilds that projection from the fields;
//! decoding what was encoded gives the encoding back unchanged.
use vstd::prelude::*;
use crate::contract::types::{Address, Bounty, BountyMeta, BountyStatus, Contributor};

verus! {

/// The boundary fields of a bounty: creator, reward, reward token,
/// assignee limit and status.
pub open spec fn bounty_fields(b: Bounty) -> (Address, i128, Address, u32, BountyStatus) {
    (b.creator, b.reward_amount, b.reward_token, b.max_assignees, b.status)
}

/// The boundary fields of a contributor: address, reputation, total earned,
/// contribution count and active claims.
pub open spec fn contributor_fields(c: Contributor) -> (Address, u32, i128, u32, u32) {
    (c.address, c.reputation, c.total_earned, c.contribution_count, c.active_claims)
}

/// The bounty fields rebuilt from their parts.
pub open spec fn decoded_bounty(
    creator: Address,
    reward_amount: i128,
    reward_token: Address,
    max_assignees: u32,
    status: BountyStatus,
) -> (Address, i128, Address, u32, BountyStatus) {
    (creator, reward_amount, reward_token, max_assignees, status)
}

/// The contributor fields rebuilt from their parts.
pub open spec fn decoded_contributor(
    address: Address,
    reputation: u32,
    total_earned: i128,
    contribution_count: u32,
    active_claims: u32,
) -> (Address, u32, i128, u32, u32) {
    (address, reputation, total_earned, contribution_count, active_claims)
}

/// A symbol encodes as itself.
pub fn symbol_scval(sym: &String) -> (r: String)
    ensures
        r@ == sym@,
{
    sym.clone()
}

/// A symbol decodes as itself.
pub fn decode_symbol(sym: &String) -> (r: String)
    ensures
        r@ == sym@,
{
    sym.clone()
}

/// The boundary fields of `bounty`.
pub fn encode_bounty(bounty: &Bounty) -> (r: (Address, i128, Address, u32, BountyStatus))
    ensures
        r == bounty_fields(*bounty),
{
    (bounty.creator, bounty.reward_amount, bounty.reward_token, bounty.max_assignees, bounty.status)
}

/// Rebuilds the boundary fields of a bounty from its parts.
pub fn decode_bounty(
    creator: &Address,
    reward_amount: i128,
    reward_token: &Address,
    max_assignees: u32,
    status: &BountyStatus,
) -> (r: (Address, i128, Address, u32, BountyStatus))
    ensures
        r == decoded_bounty(*creator, reward_amount, *reward_token, max_assignees, *status),
{
    (*creator, reward_amount, *reward_token, max_assignees, *status)
}

/// The boundary fields of `contributor`.
pub fn encode_contributor(contributor: &Contributor) -> (r: (Address, u32, i128, u32, u32))
    ensures
        r == contributor_fields(*contributor),
{
    (
        contributor.address,
        contributor.reputation,
        contributor.total_earned,
        contributor.contribution_count,
        contributor.active_claims,
    )
}

/// Rebuilds the boundary fields of a contributor from its parts.
pub fn decode_contributor(
    address: &Address,
    reputation: u32,
    total_earned: i128,
    contribution_count: u32,
    active_claims: u32,
) -> (r: (Address, u32, i128, u32, u32))
    ensures
        r == decoded_contributor(
            *address,
            reputation,
            total_earned,
            contribution_count,
            active_claims,
        ),
{
    (*address, reputation, total_earned, contribution_count, active_claims)
}

/// Title and description of `meta`.
pub fn encode_bounty_meta(meta: &BountyMeta) -> (r: (String, String))
    ensures
        r.0@ == meta.title@,
        r.1@ == meta.description@,
{
    (meta.title.clone(), meta.description.clone())
}

/// Rebuilds a bounty's title and description from their parts.
pub fn decode_bounty_meta(title: &String, description: &String) -> (r: (String, String))
    ensures
        r.0@ == title@,
        r.1@ == description@,
{
    (title.clone(), description.clone())
}

/// Decoding the encoded fields of a bounty gives the same fields back.
pub proof fn lemma_bounty_round_trip(b: Bounty)
    ensures
        ({
            let e = bounty_fields(b);
            decoded_bounty(e.0, e.1, e.2, e.3, e.4) == e
        }),
{
}

/// Decoding the encoded fields of a contributor gives the same fields back.
pub proof fn lemma_contributor_round_trip(c: Contributor)
    ensures
        ({
            let e = contributor_fields(c);
            decoded_contributor(e.0, e.1, e.2, e.3, e.4) == e
        }),
{
}

} // verus!
