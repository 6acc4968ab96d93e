use mergemint::contract::errors::{message, ContractError};
use mergemint::contract::types::{
    event_name, Address, BountyId, ContractEvent, Resolution,
};

#[test]
fn test_contract_error_messages() {

    assert_eq!(message(ContractError::BountyNotFound), "bounty not found");
    assert_eq!(
        message(ContractError::BountyAlreadyAssigned),
        "bounty already assigned"
    );
    assert_eq!(
        message(ContractError::AlreadyClaimed),
        "bounty already claimed by contributor"
    );
    assert_eq!(message(ContractError::BountyNotOpen), "bounty not open");
    assert_eq!(
        message(ContractError::BountyNotInProgress),
        "bounty is not in progress"
    );
    assert_eq!(
        message(ContractError::BountyHasNoAssignee),
        "bounty has no assignee"
    );
    assert_eq!(
        message(ContractError::RewardMustBePositive),
        "reward_amount must be positive"
    );
    assert_eq!(
        message(ContractError::NotBountyCreator),
        "not bounty creator"
    );
    assert_eq!(
        message(ContractError::VerifierCannotBeAssignee),
        "verifier cannot be the assignee"
    );
    assert_eq!(
        message(ContractError::CreatorCannotClaim),
        "creator cannot claim"
    );
    assert_eq!(
        message(ContractError::ContributorHasActiveClaim),
        "contributor already has an active claim"
    );
    assert_eq!(
        message(ContractError::BountyIsDisputed),
        "bounty is disputed"
    );
    assert_eq!(message(ContractError::TooManyTags), "too many tags");
    assert_eq!(
        message(ContractError::OnlyCreatorOrAssigneeCanDispute),
        "only creator or assignee can raise dispute"
    );
    assert_eq!(
        message(ContractError::DeadlineNotPassed),
        "deadline has not passed"
    );
    assert_eq!(
        message(ContractError::BountyDeadlinePassed),
        "bounty deadline passed"
    );
    assert_eq!(
        message(ContractError::BountyNoDeadline),
        "bounty has no deadline"
    );
    assert_eq!(
        message(ContractError::ReputationTooLow),
        "contributor reputation is too low"
    );
    assert_eq!(
        message(ContractError::VerifierNotAuthorized),
        "verifier is not in the required verifiers list"
    );
    assert_eq!(
        message(ContractError::AlreadyApproved),
        "verifier has already approved this bounty"
    );
    assert_eq!(
        message(ContractError::BountyNotDisputed),
        "bounty is not in disputed status"
    );
    assert_eq!(
        message(ContractError::NotArbitrator),
        "caller is not authorized to resolve this dispute"
    );
    assert_eq!(
        message(ContractError::RewardBelowMinimum),
        "reward_amount is below the minimum allowed"
    );
    assert_eq!(
        message(ContractError::MaxAssigneesMustBePositive),
        "max_assignees must be at least 1"
    );
    assert_eq!(
        message(ContractError::ApprovalThresholdExceedsVerifiers),
        "approval_threshold cannot exceed the number of required_verifiers"
    );
    assert_eq!(
        message(ContractError::InvalidRewardToken),
        "invalid reward_token address"
    );
    assert_eq!(
        message(ContractError::MilestoneAlreadyCompleted),
        "milestone is already completed"
    );
    assert_eq!(
        message(ContractError::NotAllMilestonesCompleted),
        "not all milestones are completed"
    );
    assert_eq!(
        message(ContractError::InvalidMilestoneIndex),
        "invalid milestone index"
    );
    assert_eq!(
        message(ContractError::MilestoneRewardsMismatch),
        "milestone rewards do not sum to reward_amount"
    );
    assert_eq!(
        message(ContractError::MetadataEmpty),
        "metadata must not be empty"
    );
}

/// Every `ContractError` variant must map to a distinct panic message.
#[test]
fn test_contract_error_messages_are_unique() {

    let variants = [
        ContractError::BountyNotFound,
        ContractError::BountyAlreadyAssigned,
        ContractError::BountyNotOpen,
        ContractError::BountyNotInProgress,
        ContractError::BountyHasNoAssignee,
        ContractError::RewardMustBePositive,
        ContractError::RewardBelowMinimum,
        ContractError::NotBountyCreator,
        ContractError::VerifierCannotBeAssignee,
        ContractError::CreatorCannotClaim,
        ContractError::ContributorHasActiveClaim,
        ContractError::BountyIsDisputed,
        ContractError::BountyDeadlinePassed,
        ContractError::BountyNoDeadline,
        ContractError::DeadlineNotPassed,
        ContractError::ReputationTooLow,
        ContractError::TooManyTags,
        ContractError::MaxAssigneesMustBePositive,
        ContractError::OnlyCreatorOrAssigneeCanDispute,
        ContractError::VerifierNotAuthorized,
        ContractError::AlreadyApproved,
        ContractError::BountyNotDisputed,
        ContractError::NotArbitrator,
        ContractError::ApprovalThresholdExceedsVerifiers,
        ContractError::InvalidRewardToken,
        ContractError::MilestoneAlreadyCompleted,
        ContractError::NotAllMilestonesCompleted,
        ContractError::InvalidMilestoneIndex,
        ContractError::MilestoneRewardsMismatch,
    ];

    for (i, left) in variants.iter().enumerate() {
        for right in variants.iter().skip(i + 1) {
            assert_ne!(
                message(*left),
                message(*right),
                "duplicate ContractError message between variants"
            );
        }
    }
}

const DOCUMENTED_MUTATION_EVENTS: &[&str] = &[
    "bounty_created",
    "bounty_claimed",
    "bounty_disputed",
    "bounty_completed",
    "reward_paid",
    "bounty_cancelled",
    "bounty_expired",
    "approval_recorded",
    "dispute_resolved",
];

#[test]
fn test_documented_event_schema_topics_are_complete() {
    assert_eq!(DOCUMENTED_MUTATION_EVENTS.len(), 9);
}

#[test]
fn documented_event_names_match_published_events() {
    let id = BountyId::from_sequence(1);
    let a = Address(1);
    let events = [
        ContractEvent::BountyCreated { id, creator: a, reward_amount: 1000 },
        ContractEvent::BountyClaimed { id, contributor: a },
        ContractEvent::BountyDisputed { id, caller: a },
        ContractEvent::BountyCompleted { id, assignee: a },
        ContractEvent::RewardPaid { id, assignee: a, amount: 1 },
        ContractEvent::BountyCancelled { id, caller: a },
        ContractEvent::BountyExpired { id, creator: a },
        ContractEvent::ApprovalRecorded { id, verifier: a, approvals: 1 },
        ContractEvent::DisputeResolved { id, arbitrator: a, resolution: Resolution::Cancel },
    ];
    for (event, name) in events.iter().zip(DOCUMENTED_MUTATION_EVENTS.iter()) {
        assert_eq!(event_name(event), *name);
    }
    let milestone = ContractEvent::MilestoneCompleted { id, index: 0, reward: 1 };
    assert_eq!(event_name(&milestone), "milestone_completed");
}

#[test]
fn invalid_resolution_has_its_own_message() {
    assert_eq!(
        message(ContractError::InvalidResolution),
        "resolution must be 'complete' or 'cancel'"
    );
    assert_ne!(message(ContractError::InvalidResolution), message(ContractError::InvalidStatus));
}
