//! The minimal escrow contract: a bounty's reward is held by the contract
//! and refunded to its creator when the creator cancels it or once it has
//! expired.
use vstd::prelude::*;
use std::collections::HashMap;
use crate::contract::types::{Address, Transfer};

verus! {

broadcast use vstd::std_specs::hash::group_hash_axioms;

/// Lifecycle of an escrowed bounty.
#[derive(Copy, Clone, Debug, PartialEq, Eq, Structural)]
pub enum BountyStatus {
    Open,
    Cancelled,
    Expired,
}

/// An escrowed bounty.
#[derive(Copy, Clone, Debug, PartialEq, Eq, Structural)]
pub struct Bounty {
    pub id: u64,
    pub creator: Address,
    pub token_address: Address,
    pub reward_amount: i128,
    pub status: BountyStatus,
    /// Ledger timestamp from which the bounty may be expired.
    pub expiration_time: u64,
}

/// Why an escrow call is refused.
#[derive(Copy, Clone, Debug, PartialEq, Eq, Structural)]
pub enum EscrowError {
    BountyNotFound,
    NotCreator,
    CancelNotOpen,
    ExpireNotOpen,
    NotExpired,
}

/// The message each refusal is reported with.
pub open spec fn escrow_message(e: EscrowError) -> Seq<char> {
    match e {
        EscrowError::BountyNotFound => "Bounty not found"@,
        EscrowError::NotCreator => "Only creator can cancel bounty"@,
        EscrowError::CancelNotOpen => "Can only cancel open bounties"@,
        EscrowError::ExpireNotOpen => "Can only expire open bounties"@,
        EscrowError::NotExpired => "Bounty has not expired yet"@,
    }
}

impl EscrowError {
    /// The message this refusal is reported with.
    pub fn message(&self) -> (m: &'static str)
        ensures
            m@ == escrow_message(*self),
    {
        match self {
            EscrowError::BountyNotFound => "Bounty not found",
            EscrowError::NotCreator => "Only creator can cancel bounty",
            EscrowError::CancelNotOpen => "Can only cancel open bounties",
            EscrowError::ExpireNotOpen => "Can only expire open bounties",
            EscrowError::NotExpired => "Bounty has not expired yet",
        }
    }
}

/// The escrow contract's state: its own address (which holds the escrowed
/// rewards) and the bounties by id.
pub struct BountyContract {
    contract_address: Address,
    bounties: HashMap<u64, Bounty>,
}

/// The refusal of `cancel_bounty(id, caller)` against `m`, if any.
pub open spec fn cancel_refusal(m: Map<u64, Bounty>, id: u64, caller: Address) -> Option<
    EscrowError,
> {
    if !m.contains_key(id) {
        Some(EscrowError::BountyNotFound)
    } else if m[id].creator != caller {
        Some(EscrowError::NotCreator)
    } else if m[id].status != BountyStatus::Open {
        Some(EscrowError::CancelNotOpen)
    } else {
        None
    }
}

/// The refusal of `expire_bounty(id)` at ledger time `now` against `m`, if
/// any.
pub open spec fn expire_refusal(m: Map<u64, Bounty>, id: u64, now: u64) -> Option<EscrowError> {
    if !m.contains_key(id) {
        Some(EscrowError::BountyNotFound)
    } else if m[id].status != BountyStatus::Open {
        Some(EscrowError::ExpireNotOpen)
    } else if now < m[id].expiration_time {
        Some(EscrowError::NotExpired)
    } else {
        None
    }
}

/// The refund of bounty `b`: its whole reward, from the contract back to
/// the creator, in the bounty's token.
pub open spec fn refund_of(contract: Address, b: Bounty) -> Transfer {
    Transfer { token: b.token_address, from: contract, to: b.creator, amount: b.reward_amount }
}

/// `b` with status `s`.
pub open spec fn with_status(b: Bounty, s: BountyStatus) -> Bounty {
    Bounty { status: s, ..b }
}

impl BountyContract {
    /// The contract's own address, which holds the escrowed rewards.
    pub closed spec fn address(&self) -> Address {
        self.contract_address
    }

    /// The contract's own address.
    pub fn contract_address(&self) -> (a: Address)
        ensures
            a == self.address(),
    {
        self.contract_address
    }

    /// The stored bounties by id.
    pub closed spec fn bounties(&self) -> Map<u64, Bounty> {
        self.bounties@
    }

    /// A contract at `contract_address` holding no bounty.
    pub fn new(contract_address: Address) -> (c: BountyContract)
        ensures
            c.address() == contract_address,
            c.bounties() == Map::<u64, Bounty>::empty(),
    {
        BountyContract { contract_address, bounties: HashMap::new() }
    }

    /// The bounty stored under `id`, if any.
    pub fn get_bounty(&self, id: u64) -> (r: Option<Bounty>)
        ensures
            r == (if self.bounties().contains_key(id) {
                Some(self.bounties()[id])
            } else {
                None
            }),
    {
        match self.bounties.get(&id) {
            Some(b) => Some(*b),
            None => None,
        }
    }

    /// Stores `bounty` under `id`.
    pub fn set_bounty(&mut self, id: u64, bounty: Bounty)
        ensures
            final(self).address() == old(self).address(),
            final(self).bounties() == old(self).bounties().insert(id, bounty),
    {
        self.bounties.insert(id, bounty);
    }

    /// The creator cancels an open bounty: its reward is refunded to the
    /// creator and the bounty is marked cancelled.
    pub fn cancel_bounty(&mut self, bounty_id: u64, caller: Address) -> (r: Result<
        Transfer,
        EscrowError,
    >)
        ensures
            final(self).address() == old(self).address(),
            cancel_refusal(old(self).bounties(), bounty_id, caller) matches Some(e) ==> (r == Err::<
                Transfer,
                EscrowError,
            >(e) && final(self).bounties() == old(self).bounties()),
            cancel_refusal(old(self).bounties(), bounty_id, caller) is None ==> (r == Ok::<
                Transfer,
                EscrowError,
            >(refund_of(old(self).address(), old(self).bounties()[bounty_id]))
                && final(self).bounties() == old(self).bounties().insert(
                bounty_id,
                with_status(old(self).bounties()[bounty_id], BountyStatus::Cancelled),
            )),
    {
        let mut bounty = match self.bounties.get(&bounty_id) {
            Some(b) => *b,
            None => return Err(EscrowError::BountyNotFound),
        };
        if bounty.creator != caller {
            return Err(EscrowError::NotCreator);
        }
        if bounty.status != BountyStatus::Open {
            return Err(EscrowError::CancelNotOpen);
        }
        let refund = Transfer {
            token: bounty.token_address,
            from: self.contract_address,
            to: bounty.creator,
            amount: bounty.reward_amount,
        };
        bounty.status = BountyStatus::Cancelled;
        self.bounties.insert(bounty_id, bounty);
        Ok(refund)
    }

    /// Anyone expires an open bounty whose expiration time has come (ledger
    /// time `now`): its reward is refunded to the creator and the bounty is
    /// marked expired.
    pub fn expire_bounty(&mut self, bounty_id: u64, now: u64) -> (r: Result<Transfer, EscrowError>)
        ensures
            final(self).address() == old(self).address(),
            expire_refusal(old(self).bounties(), bounty_id, now) matches Some(e) ==> (r == Err::<
                Transfer,
                EscrowError,
            >(e) && final(self).bounties() == old(self).bounties()),
            expire_refusal(old(self).bounties(), bounty_id, now) is None ==> (r == Ok::<
                Transfer,
                EscrowError,
            >(refund_of(old(self).address(), old(self).bounties()[bounty_id]))
                && final(self).bounties() == old(self).bounties().insert(
                bounty_id,
                with_status(old(self).bounties()[bounty_id], BountyStatus::Expired),
            )),
    {
        let mut bounty = match self.bounties.get(&bounty_id) {
            Some(b) => *b,
            None => return Err(EscrowError::BountyNotFound),
        };
        if bounty.status != BountyStatus::Open {
            return Err(EscrowError::ExpireNotOpen);
        }
        if now < bounty.expiration_time {
            return Err(EscrowError::NotExpired);
        }
        let refund = Transfer {
            token: bounty.token_address,
            from: self.contract_address,
            to: bounty.creator,
            amount: bounty.reward_amount,
        };
        bounty.status = BountyStatus::Expired;
        self.bounties.insert(bounty_id, bounty);
        Ok(refund)
    }
}

/// A reward is refunded at most once: after a successful cancel or expiry,
/// every further cancel or expiry of the same bounty is refused.
pub proof fn lemma_refund_at_most_once(
    m: Map<u64, Bounty>,
    id: u64,
    s: BountyStatus,
    caller: Address,
    now: u64,
)
    requires
        m.contains_key(id),
        s != BountyStatus::Open,
    ensures
        cancel_refusal(m.insert(id, with_status(m[id], s)), id, caller) is Some,
        expire_refusal(m.insert(id, with_status(m[id], s)), id, now) is Some,
{
}

} // verus!
