//! The contract's data: bounties, contributors, identifiers, and what a
//! successful call hands back to the host (token transfers and events).
use vstd::prelude::*;

verus! {

/// An account or contract on the ledger, identified by the number the host
/// assigns to it.
#[derive(Copy, Clone, Debug, PartialEq, Eq, Structural, Hash)]
pub struct Address(pub u64);

/// A 32-byte bounty identifier, held as four big-endian 64-bit words.
///
/// Identifiers handed out by the contract carry the bounty's creation
/// sequence number in the last word and zero in the others.
#[derive(Copy, Clone, Debug, PartialEq, Eq, Structural, Hash)]
pub struct BountyId(pub u64, pub u64, pub u64, pub u64);

impl BountyId {
    /// The identifier the contract hands out to the bounty created `seq`-th.
    pub open spec fn spec_from_sequence(seq: u64) -> BountyId {
        BountyId(0, 0, 0, seq)
    }

    /// The creation sequence number this identifier encodes, if it has the
    /// shape of an identifier the contract hands out.
    pub open spec fn spec_sequence(&self) -> Option<u64> {
        if self.0 == 0 && self.1 == 0 && self.2 == 0 {
            Some(self.3)
        } else {
            None
        }
    }

    #[verifier::when_used_as_spec(spec_from_sequence)]
    pub fn from_sequence(seq: u64) -> (id: BountyId)
        ensures
            id == BountyId::spec_from_sequence(seq),
    {
        BountyId(0, 0, 0, seq)
    }

    #[verifier::when_used_as_spec(spec_sequence)]
    pub fn sequence(&self) -> (s: Option<u64>)
        ensures
            s == self.spec_sequence(),
    {
        if self.0 == 0 && self.1 == 0 && self.2 == 0 {
            Some(self.3)
        } else {
            None
        }
    }
}

/// The lifecycle status of a bounty.
#[derive(Copy, Clone, Debug, PartialEq, Eq, Structural, Hash)]
pub enum BountyStatus {
    Open,
    InProgress,
    Completed,
    Cancelled,
    Disputed,
}

/// The symbol under which each status is stored and queried.
pub open spec fn status_symbol(s: BountyStatus) -> Seq<char> {
    match s {
        BountyStatus::Open => "open"@,
        BountyStatus::InProgress => "in_progress"@,
        BountyStatus::Completed => "completed"@,
        BountyStatus::Cancelled => "cancelled"@,
        BountyStatus::Disputed => "disputed"@,
    }
}

impl BountyStatus {
    /// The status's symbol (`"open"`, `"in_progress"`, ...).
    pub fn symbol(&self) -> (sym: &'static str)
        ensures
            sym@ == status_symbol(*self),
    {
        match self {
            BountyStatus::Open => "open",
            BountyStatus::InProgress => "in_progress",
            BountyStatus::Completed => "completed",
            BountyStatus::Cancelled => "cancelled",
            BountyStatus::Disputed => "disputed",
        }
    }
}

/// One staged payout of a bounty.
#[derive(Clone, Debug, PartialEq, Eq)]
pub struct Milestone {
    pub description: String,
    pub reward: i128,
    pub completed: bool,
}

/// A bounty's canonical state.
#[derive(Clone, Debug, PartialEq, Eq)]
pub struct Bounty {
    pub creator: Address,
    pub reward_amount: i128,
    pub reward_token: Address,
    /// Each assignee with its share of the reward in basis points.
    pub assignees: Vec<(Address, u32)>,
    pub max_assignees: u32,
    pub status: BountyStatus,
    pub min_reputation: u32,
    /// Ledger sequence after which the bounty can no longer be claimed.
    pub deadline: Option<u32>,
    /// Addresses permitted to approve completion (multi-signature flow).
    pub required_verifiers: Option<Vec<Address>>,
    /// Approvals needed before completion executes; 0 counts as 1.
    pub approval_threshold: u32,
    pub tags: Vec<String>,
    /// Staged payouts; empty for an all-or-nothing bounty.
    pub milestones: Vec<Milestone>,
}

/// Title and description of a bounty.
#[derive(Clone, Debug, PartialEq, Eq)]
pub struct BountyMeta {
    pub title: String,
    pub description: String,
}

/// A contributor's profile.
#[derive(Clone, Debug, PartialEq, Eq)]
pub struct Contributor {
    pub address: Address,
    pub reputation: u32,
    pub total_earned: i128,
    pub contribution_count: u32,
    pub active_claims: u32,
    pub metadata: Option<String>,
}

/// The profile of an address that has not interacted with the contract yet.
pub open spec fn fresh_contributor(address: Address) -> Contributor {
    Contributor {
        address,
        reputation: 0,
        total_earned: 0,
        contribution_count: 0,
        active_claims: 0,
        metadata: None,
    }
}

impl Contributor {
    pub fn new(address: Address) -> (c: Contributor)
        ensures
            c == fresh_contributor(address),
    {
        Contributor {
            address,
            reputation: 0,
            total_earned: 0,
            contribution_count: 0,
            active_claims: 0,
            metadata: None,
        }
    }
}

/// Pagination metadata returned alongside a page of results.
#[derive(Copy, Clone, Debug, PartialEq, Eq, Structural)]
pub struct PageInfo {
    /// Zero-based offset of the first item in the page.
    pub offset: u32,
    /// Number of items requested.
    pub limit: u32,
    /// Total number of items at query time.
    pub total: u32,
}

/// A token transfer the host must carry out for a successful call.
#[derive(Copy, Clone, Debug, PartialEq, Eq, Structural)]
pub struct Transfer {
    pub token: Address,
    pub from: Address,
    pub to: Address,
    pub amount: i128,
}

/// An event a successful call publishes; the first topic of each is the
/// event's name (see [`event_name`]).
#[derive(Copy, Clone, Debug, PartialEq, Eq, Structural)]
pub enum ContractEvent {
    BountyCreated { id: BountyId, creator: Address, reward_amount: i128 },
    BountyClaimed { id: BountyId, contributor: Address },
    MilestoneCompleted { id: BountyId, index: u32, reward: i128 },
    RewardPaid { id: BountyId, assignee: Address, amount: i128 },
    BountyCompleted { id: BountyId, assignee: Address },
    ApprovalRecorded { id: BountyId, verifier: Address, approvals: u64 },
    BountyDisputed { id: BountyId, caller: Address },
    DisputeResolved { id: BountyId, arbitrator: Address, resolution: Resolution },
    BountyCancelled { id: BountyId, caller: Address },
    BountyExpired { id: BountyId, creator: Address },
}

/// How a dispute is resolved.
#[derive(Copy, Clone, Debug, PartialEq, Eq, Structural)]
pub enum Resolution {
    /// Pay the assignees.
    Complete,
    /// Refund the creator.
    Cancel,
}

/// The name (first topic) under which each event is published.
pub open spec fn spec_event_name(e: ContractEvent) -> Seq<char> {
    match e {
        ContractEvent::BountyCreated { .. } => "bounty_created"@,
        ContractEvent::BountyClaimed { .. } => "bounty_claimed"@,
        ContractEvent::MilestoneCompleted { .. } => "milestone_completed"@,
        ContractEvent::RewardPaid { .. } => "reward_paid"@,
        ContractEvent::BountyCompleted { .. } => "bounty_completed"@,
        ContractEvent::ApprovalRecorded { .. } => "approval_recorded"@,
        ContractEvent::BountyDisputed { .. } => "bounty_disputed"@,
        ContractEvent::DisputeResolved { .. } => "dispute_resolved"@,
        ContractEvent::BountyCancelled { .. } => "bounty_cancelled"@,
        ContractEvent::BountyExpired { .. } => "bounty_expired"@,
    }
}

/// The name (first topic) of an event.
pub fn event_name(e: &ContractEvent) -> (name: &'static str)
    ensures
        name@ == spec_event_name(*e),
{
    match e {
        ContractEvent::BountyCreated { .. } => "bounty_created",
        ContractEvent::BountyClaimed { .. } => "bounty_claimed",
        ContractEvent::MilestoneCompleted { .. } => "milestone_completed",
        ContractEvent::RewardPaid { .. } => "reward_paid",
        ContractEvent::BountyCompleted { .. } => "bounty_completed",
        ContractEvent::ApprovalRecorded { .. } => "approval_recorded",
        ContractEvent::BountyDisputed { .. } => "bounty_disputed",
        ContractEvent::DisputeResolved { .. } => "dispute_resolved",
        ContractEvent::BountyCancelled { .. } => "bounty_cancelled",
        ContractEvent::BountyExpired { .. } => "bounty_expired",
    }
}

/// What a successful mutating call hands back to the host: the transfers to
/// execute, in order, and the events to publish, in order.
#[derive(Debug)]
pub struct Receipt {
    pub transfers: Vec<Transfer>,
    pub events: Vec<ContractEvent>,
}

} // verus!
