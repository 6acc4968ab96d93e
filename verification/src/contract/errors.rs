//! Canonical contract error conditions and their messages.
use vstd::prelude::*;

verus! {

/// Every way a contract entry point can refuse a call.
///
/// The host reports a refusal by the variant's canonical message (see
/// [`message`]); no two variants share a message.
#[derive(Copy, Clone, Debug, PartialEq, Eq, Structural)]
pub enum ContractError {
    BountyNotFound,
    BountyAlreadyAssigned,
    AlreadyClaimed,
    BountyNotOpen,
    BountyNotInProgress,
    BountyHasNoAssignee,
    RewardMustBePositive,
    RewardBelowMinimum,
    NotBountyCreator,
    VerifierCannotBeAssignee,
    CreatorCannotClaim,
    ContributorHasActiveClaim,
    BountyIsDisputed,
    BountyDeadlinePassed,
    BountyNoDeadline,
    DeadlineNotPassed,
    ReputationTooLow,
    TooManyTags,
    MaxAssigneesMustBePositive,
    OnlyCreatorOrAssigneeCanDispute,
    VerifierNotAuthorized,
    AlreadyApproved,
    BountyNotDisputed,
    NotArbitrator,
    ApprovalThresholdExceedsVerifiers,
    InvalidRewardToken,
    InvalidStatus,
    InvalidTag,
    MilestoneAlreadyCompleted,
    NotAllMilestonesCompleted,
    InvalidMilestoneIndex,
    MilestoneRewardsMismatch,
    RewardAmountOverflow,
    MetadataEmpty,
    InvalidResolution,
}

/// The canonical message of each error, as a sequence of characters.
pub open spec fn error_message(e: ContractError) -> Seq<char> {
    match e {
        ContractError::BountyNotFound => "bounty not found"@,
        ContractError::BountyAlreadyAssigned => "bounty already assigned"@,
        ContractError::AlreadyClaimed => "bounty already claimed by contributor"@,
        ContractError::BountyNotOpen => "bounty not open"@,
        ContractError::BountyNotInProgress => "bounty is not in progress"@,
        ContractError::BountyHasNoAssignee => "bounty has no assignee"@,
        ContractError::RewardMustBePositive => "reward_amount must be positive"@,
        ContractError::RewardBelowMinimum => "reward_amount is below the minimum allowed"@,
        ContractError::NotBountyCreator => "not bounty creator"@,
        ContractError::VerifierCannotBeAssignee => "verifier cannot be the assignee"@,
        ContractError::CreatorCannotClaim => "creator cannot claim"@,
        ContractError::ContributorHasActiveClaim => "contributor already has an active claim"@,
        ContractError::BountyIsDisputed => "bounty is disputed"@,
        ContractError::BountyDeadlinePassed => "bounty deadline passed"@,
        ContractError::BountyNoDeadline => "bounty has no deadline"@,
        ContractError::DeadlineNotPassed => "deadline has not passed"@,
        ContractError::ReputationTooLow => "contributor reputation is too low"@,
        ContractError::TooManyTags => "too many tags"@,
        ContractError::MaxAssigneesMustBePositive => "max_assignees must be at least 1"@,
        ContractError::OnlyCreatorOrAssigneeCanDispute => "only creator or assignee can raise dispute"@,
        ContractError::VerifierNotAuthorized => "verifier is not in the required verifiers list"@,
        ContractError::AlreadyApproved => "verifier has already approved this bounty"@,
        ContractError::BountyNotDisputed => "bounty is not in disputed status"@,
        ContractError::NotArbitrator => "caller is not authorized to resolve this dispute"@,
        ContractError::ApprovalThresholdExceedsVerifiers => "approval_threshold cannot exceed the number of required_verifiers"@,
        ContractError::InvalidRewardToken => "invalid reward_token address"@,
        ContractError::InvalidStatus => "invalid bounty status"@,
        ContractError::InvalidTag => "invalid bounty tag"@,
        ContractError::MilestoneAlreadyCompleted => "milestone is already completed"@,
        ContractError::NotAllMilestonesCompleted => "not all milestones are completed"@,
        ContractError::InvalidMilestoneIndex => "invalid milestone index"@,
        ContractError::MilestoneRewardsMismatch => "milestone rewards do not sum to reward_amount"@,
        ContractError::RewardAmountOverflow => "reward amount arithmetic overflow"@,
        ContractError::MetadataEmpty => "metadata must not be empty"@,
        ContractError::InvalidResolution => "resolution must be 'complete' or 'cancel'"@,
    }
}

/// The canonical message of `e`.
pub fn message(e: ContractError) -> (m: &'static str)
    ensures
        m@ == error_message(e),
{
    match e {
        ContractError::BountyNotFound => "bounty not found",
        ContractError::BountyAlreadyAssigned => "bounty already assigned",
        ContractError::AlreadyClaimed => "bounty already claimed by contributor",
        ContractError::BountyNotOpen => "bounty not open",
        ContractError::BountyNotInProgress => "bounty is not in progress",
        ContractError::BountyHasNoAssignee => "bounty has no assignee",
        ContractError::RewardMustBePositive => "reward_amount must be positive",
        ContractError::RewardBelowMinimum => "reward_amount is below the minimum allowed",
        ContractError::NotBountyCreator => "not bounty creator",
        ContractError::VerifierCannotBeAssignee => "verifier cannot be the assignee",
        ContractError::CreatorCannotClaim => "creator cannot claim",
        ContractError::ContributorHasActiveClaim => "contributor already has an active claim",
        ContractError::BountyIsDisputed => "bounty is disputed",
        ContractError::BountyDeadlinePassed => "bounty deadline passed",
        ContractError::BountyNoDeadline => "bounty has no deadline",
        ContractError::DeadlineNotPassed => "deadline has not passed",
        ContractError::ReputationTooLow => "contributor reputation is too low",
        ContractError::TooManyTags => "too many tags",
        ContractError::MaxAssigneesMustBePositive => "max_assignees must be at least 1",
        ContractError::OnlyCreatorOrAssigneeCanDispute => "only creator or assignee can raise dispute",
        ContractError::VerifierNotAuthorized => "verifier is not in the required verifiers list",
        ContractError::AlreadyApproved => "verifier has already approved this bounty",
        ContractError::BountyNotDisputed => "bounty is not in disputed status",
        ContractError::NotArbitrator => "caller is not authorized to resolve this dispute",
        ContractError::ApprovalThresholdExceedsVerifiers => "approval_threshold cannot exceed the number of required_verifiers",
        ContractError::InvalidRewardToken => "invalid reward_token address",
        ContractError::InvalidStatus => "invalid bounty status",
        ContractError::InvalidTag => "invalid bounty tag",
        ContractError::MilestoneAlreadyCompleted => "milestone is already completed",
        ContractError::NotAllMilestonesCompleted => "not all milestones are completed",
        ContractError::InvalidMilestoneIndex => "invalid milestone index",
        ContractError::MilestoneRewardsMismatch => "milestone rewards do not sum to reward_amount",
        ContractError::RewardAmountOverflow => "reward amount arithmetic overflow",
        ContractError::MetadataEmpty => "metadata must not be empty",
        ContractError::InvalidResolution => "resolution must be 'complete' or 'cancel'",
    }
}

/// No two errors share a message: a message identifies its error.
pub proof fn lemma_error_messages_distinct(a: ContractError, b: ContractError)
    requires
        a != b,
    ensures
        error_message(a) != error_message(b),
{
    reveal_strlit("bounty not found");
    reveal_strlit("bounty already assigned");
    reveal_strlit("bounty already claimed by contributor");
    reveal_strlit("bounty not open");
    reveal_strlit("bounty is not in progress");
    reveal_strlit("bounty has no assignee");
    reveal_strlit("reward_amount must be positive");
    reveal_strlit("reward_amount is below the minimum allowed");
    reveal_strlit("not bounty creator");
    reveal_strlit("verifier cannot be the assignee");
    reveal_strlit("creator cannot claim");
    reveal_strlit("contributor already has an active claim");
    reveal_strlit("bounty is disputed");
    reveal_strlit("bounty deadline passed");
    reveal_strlit("bounty has no deadline");
    reveal_strlit("deadline has not passed");
    reveal_strlit("contributor reputation is too low");
    reveal_strlit("too many tags");
    reveal_strlit("max_assignees must be at least 1");
    reveal_strlit("only creator or assignee can raise dispute");
    reveal_strlit("verifier is not in the required verifiers list");
    reveal_strlit("verifier has already approved this bounty");
    reveal_strlit("bounty is not in disputed status");
    reveal_strlit("caller is not authorized to resolve this dispute");
    reveal_strlit("approval_threshold cannot exceed the number of required_verifiers");
    reveal_strlit("invalid reward_token address");
    reveal_strlit("invalid bounty status");
    reveal_strlit("invalid bounty tag");
    reveal_strlit("milestone is already completed");
    reveal_strlit("not all milestones are completed");
    reveal_strlit("invalid milestone index");
    reveal_strlit("milestone rewards do not sum to reward_amount");
    reveal_strlit("reward amount arithmetic overflow");
    reveal_strlit("metadata must not be empty");
    reveal_strlit("resolution must be 'complete' or 'cancel'");
    assert("bounty not found"@.len() == 16);
    assert("bounty already assigned"@.len() == 23);
    assert("bounty already claimed by contributor"@.len() == 37);
    assert("bounty not open"@.len() == 15);
    assert("bounty is not in progress"@.len() == 25);
    assert("bounty has no assignee"@.len() == 22);
    assert("reward_amount must be positive"@.len() == 30);
    assert("reward_amount is below the minimum allowed"@.len() == 42);
    assert("not bounty creator"@.len() == 18);
    assert("verifier cannot be the assignee"@.len() == 31);
    assert("creator cannot claim"@.len() == 20);
    assert("contributor already has an active claim"@.len() == 39);
    assert("bounty is disputed"@.len() == 18);
    assert("bounty deadline passed"@.len() == 22);
    assert("bounty has no deadline"@.len() == 22);
    assert("deadline has not passed"@.len() == 23);
    assert("contributor reputation is too low"@.len() == 33);
    assert("too many tags"@.len() == 13);
    assert("max_assignees must be at least 1"@.len() == 32);
    assert("only creator or assignee can raise dispute"@.len() == 42);
    assert("verifier is not in the required verifiers list"@.len() == 46);
    assert("verifier has already approved this bounty"@.len() == 41);
    assert("bounty is not in disputed status"@.len() == 32);
    assert("caller is not authorized to resolve this dispute"@.len() == 48);
    assert("approval_threshold cannot exceed the number of required_verifiers"@.len() == 65);
    assert("invalid reward_token address"@.len() == 28);
    assert("invalid bounty status"@.len() == 21);
    assert("invalid bounty tag"@.len() == 18);
    assert("milestone is already completed"@.len() == 30);
    assert("not all milestones are completed"@.len() == 32);
    assert("invalid milestone index"@.len() == 23);
    assert("milestone rewards do not sum to reward_amount"@.len() == 45);
    assert("reward amount arithmetic overflow"@.len() == 33);
    assert("metadata must not be empty"@.len() == 26);
    assert("resolution must be 'complete' or 'cancel'"@.len() == 41);
    assert("bounty already assigned"@[0] != "deadline has not passed"@[0]);
    assert("bounty already assigned"@[0] != "invalid milestone index"@[0]);
    assert("bounty has no assignee"@[7] != "bounty deadline passed"@[7]);
    assert("bounty has no assignee"@[14] != "bounty has no deadline"@[14]);
    assert("reward_amount must be positive"@[0] != "milestone is already completed"@[0]);
    assert("reward_amount is below the minimum allowed"@[0] != "only creator or assignee can raise dispute"@[0]);
    assert("not bounty creator"@[0] != "bounty is disputed"@[0]);
    assert("not bounty creator"@[0] != "invalid bounty tag"@[0]);
    assert("bounty is disputed"@[0] != "invalid bounty tag"@[0]);
    assert("bounty deadline passed"@[7] != "bounty has no deadline"@[7]);
    assert("deadline has not passed"@[0] != "invalid milestone index"@[0]);
    assert("contributor reputation is too low"@[0] != "reward amount arithmetic overflow"@[0]);
    assert("max_assignees must be at least 1"@[0] != "bounty is not in disputed status"@[0]);
    assert("max_assignees must be at least 1"@[0] != "not all milestones are completed"@[0]);
    assert("verifier has already approved this bounty"@[0] != "resolution must be 'complete' or 'cancel'"@[0]);
    assert("bounty is not in disputed status"@[0] != "not all milestones are completed"@[0]);
}

} // verus!
