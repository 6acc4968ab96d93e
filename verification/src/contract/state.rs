//! The contract's ledger state and its invariant.
//!
//! Storage layout (one ledger entry per item on chain):
//! * the bounty counter and, per bounty, its body, its title/description
//!   and its multi-signature approvals (indexed by creation sequence);
//! * contributor profiles, keyed by address;
//! * per creator, the ids of the bounties it created, in creation order;
//! * per contributor, the ids of bounties it was an assignee on when they
//!   reached a terminal status (`completed` or `cancelled`);
//! * one paged index per status and one paged list of open bounties.
use vstd::prelude::*;
use crate::contract::addr_map::AddrMap;
use crate::contract::errors::ContractError;
use crate::contract::paged::{copy_ids, first_index, lemma_first_index, lemma_swap_remove_membership, swap_remove, PagedIndex};
use crate::contract::pagination::{paginate, spec_paginate};
use crate::contract::ranking::{by_reputation, copy_contributor, rank_by_reputation};
use crate::contract::symbols::{is_allowed_tag, resolution_from_symbol, spec_resolution_of, spec_status_of, status_from_symbol, str_eq, validate_symbol, SymbolKind};
use crate::contract::types::{fresh_contributor, Address, Bounty, BountyId, BountyMeta, BountyStatus, ContractEvent, Contributor, Milestone, Receipt, Resolution, Transfer};

verus! {

proof fn lemma_push_no_dup<T>(l: Seq<T>, x: T)
    requires
        l.no_duplicates(),
        !l.contains(x),
    ensures
        l.push(x).no_duplicates(),
{
    let p = l.push(x);
    assert forall|a: int, c: int| 0 <= a < p.len() && 0 <= c < p.len() && a != c implies p[a] != p[c] by {
        if a == l.len() {
            assert(p[c] == l[c]);
            if l[c] == x {
                assert(l.contains(x));
            }
        } else if c == l.len() {
            assert(p[a] == l[a]);
            if l[a] == x {
                assert(l.contains(x));
            }
        } else {
            assert(p[a] == l[a] && p[c] == l[c]);
        }
    }
}

/// Smallest reward a bounty may offer.
pub const MIN_REWARD_AMOUNT: i128 = 100;

/// Most tags a bounty may carry.
pub const MAX_TAGS: usize = 5;

/// Sum of the rewards of the first `k` milestones.
pub open spec fn milestone_prefix_sum(ms: Seq<Milestone>, k: int) -> int
    decreases k,
{
    if k <= 0 {
        0
    } else {
        milestone_prefix_sum(ms, k - 1) + ms[k - 1].reward
    }
}

/// Whether summing the milestone rewards in order leaves the `i128` range.
pub open spec fn milestone_sum_overflows(ms: Seq<Milestone>) -> bool {
    exists|k: int| 1 <= k <= ms.len() && !(i128::MIN <= #[trigger] milestone_prefix_sum(ms, k) <= i128::MAX)
}

/// Whether `new` begins with `old`: every contributor already seen keeps
/// its place in the first-seen order.
pub open spec fn order_extends(old: Seq<Address>, new: Seq<Address>) -> bool {
    old.len() <= new.len() && forall|k: int| 0 <= k < old.len() ==> #[trigger] new[k] == old[k]
}

/// Whether a bounty's milestones (when it has any) pay out exactly its
/// reward.
pub open spec fn milestones_sum_to_reward(b: Bounty) -> bool {
    b.milestones@.len() == 0 || milestone_prefix_sum(b.milestones@, b.milestones@.len() as int)
        == b.reward_amount
}

/// Whether a bounty's reward is positive (creation refuses any other).
pub open spec fn reward_positive(b: Bounty) -> bool {
    b.reward_amount > 0
}

/// Marking milestone `idx` completed leaves every prefix sum of rewards as
/// it was.
proof fn lemma_prefix_sum_mark_completed(ms: Seq<Milestone>, idx: int, k: int)
    requires
        0 <= idx < ms.len(),
        k <= ms.len(),
    ensures
        milestone_prefix_sum(ms.update(idx, Milestone { completed: true, ..ms[idx] }), k)
            == milestone_prefix_sum(ms, k),
    decreases k,
{
    if k > 0 {
        lemma_prefix_sum_mark_completed(ms, idx, k - 1);
    }
}

/// Why `create_bounty` refuses its arguments, checked in this order.
pub open spec fn create_error(
    ledger_sequence: u32,
    reward_amount: i128,
    reward_token_responds: bool,
    deadline: Option<u32>,
    tags: Seq<String>,
    max_assignees: u32,
    required_verifiers: Option<Vec<Address>>,
    approval_threshold: u32,
    milestones: Seq<Milestone>,
) -> Option<ContractError> {
    if reward_amount <= 0 {
        Some(ContractError::RewardMustBePositive)
    } else if reward_amount < MIN_REWARD_AMOUNT {
        Some(ContractError::RewardBelowMinimum)
    } else if tags.len() > MAX_TAGS {
        Some(ContractError::TooManyTags)
    } else if exists|k: int| 0 <= k < tags.len() && !is_allowed_tag(#[trigger] tags[k]@) {
        Some(ContractError::InvalidTag)
    } else if max_assignees < 1 {
        Some(ContractError::MaxAssigneesMustBePositive)
    } else if required_verifiers matches Some(v) && approval_threshold > v@.len() {
        Some(ContractError::ApprovalThresholdExceedsVerifiers)
    } else if !reward_token_responds {
        Some(ContractError::InvalidRewardToken)
    } else if milestones.len() > 0 && milestone_sum_overflows(milestones) {
        Some(ContractError::RewardAmountOverflow)
    } else if milestones.len() > 0 && milestone_prefix_sum(milestones, milestones.len() as int) != reward_amount {
        Some(ContractError::MilestoneRewardsMismatch)
    } else if deadline matches Some(d) && ledger_sequence > d {
        Some(ContractError::BountyDeadlinePassed)
    } else {
        None
    }
}

/// Why `claim_bounty` refuses `contributor` claiming bounty `id`, checked
/// in this order.
pub open spec fn claim_error(st: &MergeMintContract, ledger_sequence: u32, contributor: Address, id: BountyId) -> Option<ContractError> {
    match st.index_of(id) {
        None => Some(ContractError::BountyNotFound),
        Some(i) => {
            let b = st.bounty(i);
            let c = st.contributor_or_fresh(contributor);
            if is_assignee(b, contributor) {
                Some(ContractError::AlreadyClaimed)
            } else if b.status != BountyStatus::Open && b.status != BountyStatus::InProgress {
                Some(ContractError::BountyNotOpen)
            } else if contributor == b.creator {
                Some(ContractError::CreatorCannotClaim)
            } else if b.assignees@.len() >= b.max_assignees {
                Some(ContractError::BountyAlreadyAssigned)
            } else if c.active_claims >= 1 {
                Some(ContractError::ContributorHasActiveClaim)
            } else if b.deadline matches Some(d) && ledger_sequence > d {
                Some(ContractError::BountyDeadlinePassed)
            } else if b.min_reputation > 0 && c.reputation < b.min_reputation {
                Some(ContractError::ReputationTooLow)
            } else {
                None
            }
        },
    }
}

/// The equal split of 10 000 basis points over `max` slots.
pub proof fn lemma_share_split(max: int)
    requires
        max >= 1,
    ensures
        10_000int / max * max + 10_000int % max == 10_000,
        0 <= 10_000int % max < max,
        0 <= 10_000int / max <= 10_000,
        10_000int / max + 10_000int % max <= 10_000,
{
    assert(10_000int / max * max + 10_000int % max == 10_000) by (nonlinear_arith)
        requires
            max >= 1,
    ;
    assert(0 <= 10_000int % max < max) by (nonlinear_arith)
        requires
            max >= 1,
    ;
    assert(0 <= 10_000int / max <= 10_000) by (nonlinear_arith)
        requires
            max >= 1,
    ;
    assert(10_000int / max + 10_000int % max <= 10_000) by (nonlinear_arith)
        requires
            max >= 1,
            10_000int / max * max + 10_000int % max == 10_000,
            0 <= 10_000int / max,
    ;
}

/// Why `raise_dispute` refuses `caller` disputing bounty `id`.
pub open spec fn dispute_error(st: &MergeMintContract, caller: Address, id: BountyId) -> Option<ContractError> {
    match st.index_of(id) {
        None => Some(ContractError::BountyNotFound),
        Some(i) => {
            let b = st.bounty(i);
            if b.status == BountyStatus::Disputed {
                Some(ContractError::BountyIsDisputed)
            } else if b.status != BountyStatus::Open && b.status != BountyStatus::InProgress {
                Some(ContractError::BountyNotDisputed)
            } else if caller != b.creator && !is_assignee(b, caller) {
                Some(ContractError::OnlyCreatorOrAssigneeCanDispute)
            } else {
                None
            }
        },
    }
}

/// Why `cancel_bounty` refuses `caller` cancelling bounty `id`.
pub open spec fn cancel_error(st: &MergeMintContract, caller: Address, id: BountyId) -> Option<ContractError> {
    match st.index_of(id) {
        None => Some(ContractError::BountyNotFound),
        Some(i) => {
            let b = st.bounty(i);
            if caller != b.creator {
                Some(ContractError::NotBountyCreator)
            } else if b.status != BountyStatus::Open {
                Some(ContractError::BountyNotOpen)
            } else {
                None
            }
        },
    }
}

/// Why `expire_bounty` refuses to expire bounty `id` at `ledger_sequence`.
pub open spec fn expire_error(st: &MergeMintContract, ledger_sequence: u32, id: BountyId) -> Option<ContractError> {
    match st.index_of(id) {
        None => Some(ContractError::BountyNotFound),
        Some(i) => {
            let b = st.bounty(i);
            match b.deadline {
                None => Some(ContractError::BountyNoDeadline),
                Some(d) => if ledger_sequence <= d {
                    Some(ContractError::DeadlineNotPassed)
                } else if b.status != BountyStatus::Open {
                    Some(ContractError::BountyNotOpen)
                } else {
                    None
                },
            }
        },
    }
}

/// Rust's integer division (rounding toward zero) by a positive `d`.
pub open spec fn trunc_div(x: int, d: int) -> int {
    if x >= 0 {
        x / d
    } else {
        -((-x) / d)
    }
}

/// The amount paid to an assignee holding `share` basis points of `reward`.
pub open spec fn payout_amount(reward: i128, share: u32) -> int {
    trunc_div(reward * share, 10_000)
}

/// A contributor profile after being paid `amount`: reputation +10, one
/// more contribution, one fewer active claim.
pub open spec fn paid_profile(c: Contributor, amount: int) -> Contributor {
    Contributor {
        reputation: (c.reputation + 10) as u32,
        total_earned: (c.total_earned + amount) as i128,
        contribution_count: (c.contribution_count + 1) as u32,
        active_claims: if c.active_claims > 0 {
            (c.active_claims - 1) as u32
        } else {
            0
        },
        ..c
    }
}

/// Whether paying the `k`-th assignee of `b` its share of `reward` leaves
/// the range of the amounts or of its profile counters.
pub open spec fn payout_overflows_at(st: &MergeMintContract, b: Bounty, reward: i128, k: int) -> bool {
    let a = b.assignees@[k].0;
    let share = b.assignees@[k].1;
    let c = st.contributor_or_fresh(a);
    ||| !(i128::MIN <= reward * share <= i128::MAX)
    ||| c.reputation + 10 > u32::MAX
    ||| !(i128::MIN <= c.total_earned + payout_amount(reward, share) <= i128::MAX)
    ||| c.contribution_count + 1 > u32::MAX
}

/// Whether paying out `reward` to the assignees of `b` overflows anywhere.
pub open spec fn payout_overflows(st: &MergeMintContract, b: Bounty, reward: i128) -> bool {
    exists|k: int| 0 <= k < b.assignees@.len() && #[trigger] payout_overflows_at(st, b, reward, k)
}

/// The transfers paying each assignee of `b` its share of `reward`, in
/// assignee order.
pub open spec fn payout_transfers(b: Bounty, from: Address, reward: i128) -> Seq<Transfer> {
    Seq::new(
        b.assignees@.len(),
        |k: int|
            Transfer {
                token: b.reward_token,
                from,
                to: b.assignees@[k].0,
                amount: payout_amount(reward, b.assignees@[k].1) as i128,
            },
    )
}

/// The `reward_paid` events of such a payout.
pub open spec fn payout_events(id: BountyId, b: Bounty, reward: i128) -> Seq<ContractEvent> {
    Seq::new(
        b.assignees@.len(),
        |k: int|
            ContractEvent::RewardPaid {
                id,
                assignee: b.assignees@[k].0,
                amount: payout_amount(reward, b.assignees@[k].1) as i128,
            },
    )
}

/// `new_map` is the profiles of `st` after paying the assignees of `b`.
pub open spec fn contributors_paid(new_map: Map<Address, Contributor>, st: &MergeMintContract, b: Bounty, reward: i128) -> bool {
    &&& forall|a: Address| #[trigger] new_map.contains_key(a) == (st.contributor_map().contains_key(a) || is_assignee(b, a))
    &&& forall|k: int| 0 <= k < b.assignees@.len() ==> new_map[#[trigger] b.assignees@[k].0] == paid_profile(
        st.contributor_or_fresh(b.assignees@[k].0),
        payout_amount(reward, b.assignees@[k].1),
    )
    &&& forall|a: Address| !is_assignee(b, a) && st.contributor_map().contains_key(a) ==> #[trigger] new_map[a] == st.contributor_map()[a]
}

/// Whether every milestone of `b` is completed.
pub open spec fn all_milestones_done(b: Bounty) -> bool {
    forall|k: int| 0 <= k < b.milestones@.len() ==> #[trigger] b.milestones@[k].completed
}

/// Why completing the in-progress bounty `i` (paying from `payer`) fails.
pub open spec fn completion_error(st: &MergeMintContract, i: int) -> Option<ContractError> {
    let b = st.bounty(i);
    if b.status != BountyStatus::InProgress {
        Some(ContractError::BountyNotInProgress)
    } else if b.assignees@.len() == 0 {
        Some(ContractError::BountyHasNoAssignee)
    } else if b.milestones@.len() > 0 {
        if !all_milestones_done(b) {
            Some(ContractError::NotAllMilestonesCompleted)
        } else {
            None
        }
    } else if payout_overflows(st, b, b.reward_amount) {
        Some(ContractError::RewardAmountOverflow)
    } else {
        None
    }
}

/// Why `complete_bounty` refuses `verifier` completing bounty `id`.
pub open spec fn complete_error(st: &MergeMintContract, verifier: Address, id: BountyId) -> Option<ContractError> {
    match st.index_of(id) {
        None => Some(ContractError::BountyNotFound),
        Some(i) => {
            let b = st.bounty(i);
            if b.status == BountyStatus::Disputed {
                Some(ContractError::BountyIsDisputed)
            } else if b.status != BountyStatus::InProgress {
                Some(ContractError::BountyNotInProgress)
            } else if b.assignees@.len() == 0 {
                Some(ContractError::BountyHasNoAssignee)
            } else if is_assignee(b, verifier) {
                Some(ContractError::VerifierCannotBeAssignee)
            } else {
                completion_error(st, i)
            }
        },
    }
}

/// The transfers of completing `b` with payment from `from`: none for a
/// milestone bounty, else each assignee's share of the reward.
pub open spec fn settle_transfers(b: Bounty, from: Address) -> Seq<Transfer> {
    if b.milestones@.len() > 0 {
        Seq::empty()
    } else {
        payout_transfers(b, from, b.reward_amount)
    }
}

/// The `reward_paid` events of completing bounty `id` (that is, `b`).
pub open spec fn settle_events(id: BountyId, b: Bounty) -> Seq<ContractEvent> {
    if b.milestones@.len() > 0 {
        Seq::empty()
    } else {
        payout_events(id, b, b.reward_amount)
    }
}

/// Why `complete_milestone` refuses `verifier` completing milestone `index`
/// of bounty `id`.
pub open spec fn milestone_error(st: &MergeMintContract, verifier: Address, id: BountyId, index: u32) -> Option<ContractError> {
    match st.index_of(id) {
        None => Some(ContractError::BountyNotFound),
        Some(i) => {
            let b = st.bounty(i);
            if b.status != BountyStatus::InProgress {
                Some(ContractError::BountyNotInProgress)
            } else if b.assignees@.len() == 0 {
                Some(ContractError::BountyHasNoAssignee)
            } else if index >= b.milestones@.len() {
                Some(ContractError::InvalidMilestoneIndex)
            } else if b.milestones@[index as int].completed {
                Some(ContractError::MilestoneAlreadyCompleted)
            } else if is_assignee(b, verifier) {
                Some(ContractError::VerifierCannotBeAssignee)
            } else if payout_overflows(st, b, b.milestones@[index as int].reward) {
                Some(ContractError::RewardAmountOverflow)
            } else {
                None
            }
        },
    }
}

/// The number of approvals a multi-signature bounty needs (0 counts as 1).
pub open spec fn effective_threshold(b: Bounty) -> int {
    if b.approval_threshold == 0 {
        1
    } else {
        b.approval_threshold as int
    }
}

/// Whether an accepted approval of bounty `id` completes it: without a
/// required-verifier list every approval does, with one the approval that
/// reaches the threshold does.
pub open spec fn approval_completes(st: &MergeMintContract, id: BountyId) -> bool {
    match st.index_of(id) {
        None => false,
        Some(i) => {
            let b = st.bounty(i);
            b.required_verifiers is None || st.approvals_of(i).len() + 1 >= effective_threshold(b)
        },
    }
}

/// Why `approve_completion` refuses `verifier` approving bounty `id`.
pub open spec fn approve_error(st: &MergeMintContract, verifier: Address, id: BountyId) -> Option<ContractError> {
    match st.index_of(id) {
        None => Some(ContractError::BountyNotFound),
        Some(i) => {
            let b = st.bounty(i);
            if b.assignees@.len() == 0 {
                Some(ContractError::BountyHasNoAssignee)
            } else if is_assignee(b, verifier) {
                Some(ContractError::VerifierCannotBeAssignee)
            } else if b.status != BountyStatus::InProgress {
                Some(ContractError::BountyNotInProgress)
            } else {
                match b.required_verifiers {
                    None => completion_error(st, i),
                    Some(v) => if !v@.contains(verifier) {
                        Some(ContractError::VerifierNotAuthorized)
                    } else if st.approvals_of(i).contains(verifier) {
                        Some(ContractError::AlreadyApproved)
                    } else if st.approvals_of(i).len() + 1 >= effective_threshold(b) {
                        if b.milestones@.len() > 0 && !all_milestones_done(b) {
                            Some(ContractError::NotAllMilestonesCompleted)
                        } else if b.milestones@.len() == 0 && payout_overflows(st, b, b.reward_amount) {
                            Some(ContractError::RewardAmountOverflow)
                        } else {
                            None
                        }
                    } else {
                        None
                    },
                }
            }
        },
    }
}

/// Why `resolve_dispute` refuses `arbitrator` resolving bounty `id` with
/// `resolution`.
pub open spec fn resolve_error(st: &MergeMintContract, arbitrator: Address, id: BountyId, resolution: Seq<char>) -> Option<ContractError> {
    match st.index_of(id) {
        None => Some(ContractError::BountyNotFound),
        Some(i) => {
            let b = st.bounty(i);
            if b.status != BountyStatus::Disputed {
                Some(ContractError::BountyNotDisputed)
            } else if arbitrator != b.creator {
                Some(ContractError::NotArbitrator)
            } else if b.min_reputation > 0 && st.contributor_or_fresh(arbitrator).reputation < b.min_reputation {
                Some(ContractError::ReputationTooLow)
            } else {
                match spec_resolution_of(resolution) {
                    Some(Resolution::Complete) => if b.assignees@.len() == 0 {
                        Some(ContractError::BountyHasNoAssignee)
                    } else if b.milestones@.len() > 0 && !all_milestones_done(b) {
                        Some(ContractError::NotAllMilestonesCompleted)
                    } else if b.milestones@.len() == 0 && payout_overflows(st, b, b.reward_amount) {
                        Some(ContractError::RewardAmountOverflow)
                    } else {
                        None
                    },
                    Some(Resolution::Cancel) => None,
                    None => Some(ContractError::InvalidResolution),
                }
            }
        },
    }
}

/// Whether `a` is in the list `v`.
fn address_in(v: &Vec<Address>, a: &Address) -> (r: bool)
    ensures
        r == v@.contains(*a),
{
    let mut k: usize = 0;
    while k < v.len()
        invariant
            k <= v@.len(),
            forall|l: int| 0 <= l < k ==> v@[l] != *a,
        decreases v@.len() - k,
    {
        if v[k] == *a {
            return true;
        }
        k = k + 1;
    }
    false
}

/// Whether the existing bounty `id` carries a tag spelled `tag`.
pub open spec fn has_tag(st: &MergeMintContract, id: BountyId, tag: Seq<char>) -> bool {
    match st.index_of(id) {
        Some(i) => exists|k: int| 0 <= k < st.bounty(i).tags@.len() && #[trigger] st.bounty(i).tags@[k]@ == tag,
        None => false,
    }
}

/// The ids of `ids` that carry `tag`, in order.
pub open spec fn ids_with_tag(st: &MergeMintContract, ids: Seq<BountyId>, tag: Seq<char>) -> Seq<BountyId>
    decreases ids.len(),
{
    if ids.len() == 0 {
        Seq::empty()
    } else {
        let rest = ids_with_tag(st, ids.drop_last(), tag);
        if has_tag(st, ids.last(), tag) {
            rest.push(ids.last())
        } else {
            rest
        }
    }
}

/// Every id kept by [`ids_with_tag`] is one of `ids` and carries `tag`.
proof fn lemma_ids_with_tag_subset(st: &MergeMintContract, ids: Seq<BountyId>, tag: Seq<char>, x: BountyId)
    requires
        ids_with_tag(st, ids, tag).contains(x),
    ensures
        ids.contains(x),
        has_tag(st, x, tag),
    decreases ids.len(),
{
    if ids.len() > 0 {
        let rest = ids_with_tag(st, ids.drop_last(), tag);
        if rest.contains(x) {
            lemma_ids_with_tag_subset(st, ids.drop_last(), tag, x);
            let k = choose|k: int| 0 <= k < ids.drop_last().len() && ids.drop_last()[k] == x;
            assert(ids[k] == x);
        } else {
            assert(x == ids.last());
            assert(ids[ids.len() - 1] == x);
        }
    }
}

/// Whether `a` is an assignee of the existing bounty `id`.
pub open spec fn assigned_to(st: &MergeMintContract, id: BountyId, a: Address) -> bool {
    match st.index_of(id) {
        Some(i) => is_assignee(st.bounty(i), a),
        None => false,
    }
}

/// Sum of the shares (basis points) in an assignee list.
pub open spec fn share_sum(s: Seq<(Address, u32)>) -> int
    decreases s.len(),
{
    if s.len() == 0 {
        0
    } else {
        share_sum(s.drop_last()) + s.last().1
    }
}

/// Sum of the amounts of a list of transfers.
pub open spec fn transfer_total(ts: Seq<Transfer>) -> int
    decreases ts.len(),
{
    if ts.len() == 0 {
        0
    } else {
        transfer_total(ts.drop_last()) + ts.last().amount
    }
}

/// Sum of the payouts of `reward` over the shares in `s`.
pub open spec fn payout_sum(s: Seq<(Address, u32)>, reward: i128) -> int
    decreases s.len(),
{
    if s.len() == 0 {
        0
    } else {
        payout_sum(s.drop_last(), reward) + payout_amount(reward, s.last().1)
    }
}

proof fn lemma_share_sum_formula(s: Seq<(Address, u32)>, max: int)
    requires
        max >= 1,
        forall|k: int| 0 <= k < s.len() ==> #[trigger] s[k].1 == share_for(k, max),
    ensures
        s.len() > 0 ==> share_sum(s) == 10_000int / max * s.len() + 10_000int % max,
        s.len() == 0 ==> share_sum(s) == 0,
    decreases s.len(),
{
    if s.len() > 0 {
        let t = s.drop_last();
        assert forall|k: int| 0 <= k < t.len() implies #[trigger] t[k].1 == share_for(k, max) by {
            assert(t[k] == s[k]);
        }
        lemma_share_sum_formula(t, max);
        let base = 10_000int / max;
        let n = s.len() as int;
        assert(s.last().1 == share_for(n - 1, max));
        assert(base * n == base * (n - 1) + base) by (nonlinear_arith);
    }
}

proof fn lemma_floor_sum(a: int, b: int, d: int)
    requires
        a >= 0,
        b >= 0,
        d > 0,
    ensures
        a / d + b / d <= (a + b) / d,
{
    assert(a / d + b / d <= (a + b) / d) by (nonlinear_arith)
        requires
            a >= 0,
            b >= 0,
            d > 0,
    ;
}

proof fn lemma_payout_sum_bound(s: Seq<(Address, u32)>, reward: i128)
    requires
        reward >= 0,
    ensures
        0 <= payout_sum(s, reward) <= (reward * share_sum(s)) / 10_000,
        share_sum(s) >= 0,
    decreases s.len(),
{
    if s.len() > 0 {
        let t = s.drop_last();
        lemma_payout_sum_bound(t, reward);
        let x = s.last().1 as int;
        let r = reward as int;
        let st = share_sum(t);
        assert(r * x >= 0) by (nonlinear_arith)
            requires
                r >= 0,
                x >= 0,
        ;
        assert(r * st >= 0) by (nonlinear_arith)
            requires
                r >= 0,
                st >= 0,
        ;
        assert(payout_amount(reward, s.last().1) == (r * x) / 10_000);
        lemma_floor_sum(r * st, r * x, 10_000);
        assert(r * st + r * x == r * (st + x)) by (nonlinear_arith);
        assert((r * x) / 10_000 >= 0) by (nonlinear_arith)
            requires
                r * x >= 0,
        ;
    }
}

proof fn lemma_transfer_total_prefix(b: Bounty, from: Address, reward: i128, k: int)
    requires
        0 <= k <= b.assignees@.len(),
        forall|l: int| 0 <= l < b.assignees@.len() ==> #[trigger] b.assignees@[l].1 <= 10_000,
    ensures
        transfer_total(payout_transfers(b, from, reward).take(k)) == payout_sum(b.assignees@.take(k), reward),
    decreases k,
{
    if k > 0 {
        lemma_transfer_total_prefix(b, from, reward, k - 1);
        let ts = payout_transfers(b, from, reward);
        assert(ts.take(k).drop_last() =~= ts.take(k - 1));
        assert(b.assignees@.take(k).drop_last() =~= b.assignees@.take(k - 1));
        // Each payout fits its `i128` amount.
        lemma_payout_fits(reward, b.assignees@[k - 1].1);
        assert(ts.take(k).last().amount == payout_amount(reward, b.assignees@[k - 1].1));
    }
}

/// A share of at most 10 000 basis points of an `i128` reward fits `i128`.
proof fn lemma_payout_fits(reward: i128, share: u32)
    ensures
        share <= 10_000 ==> i128::MIN <= payout_amount(reward, share) <= i128::MAX,
{
    if share <= 10_000 {
        let r = reward as int;
        let x = share as int;
        if r >= 0 {
            assert((r * x) / 10_000 <= r) by (nonlinear_arith)
                requires
                    r >= 0,
                    0 <= x <= 10_000,
            ;
            assert((r * x) / 10_000 >= 0) by (nonlinear_arith)
                requires
                    r >= 0,
                    0 <= x <= 10_000,
            ;
        } else {
            assert((-(r * x)) / 10_000 <= -r) by (nonlinear_arith)
                requires
                    r < 0,
                    0 <= x <= 10_000,
            ;
            assert((-(r * x)) / 10_000 >= 0) by (nonlinear_arith)
                requires
                    r < 0,
                    0 <= x <= 10_000,
            ;
        }
    }
}

/// Position of `a` among the assignees of `b`.
fn assignee_position(b: &Bounty, a: &Address) -> (r: Option<usize>)
    ensures
        r is None <==> !is_assignee(*b, *a),
        r matches Some(k) ==> k < b.assignees@.len() && b.assignees@[k as int].0 == *a,
{
    let mut k: usize = 0;
    while k < b.assignees.len()
        invariant
            k <= b.assignees@.len(),
            forall|l: int| 0 <= l < k ==> b.assignees@[l].0 != *a,
        decreases b.assignees@.len() - k,
    {
        if b.assignees[k].0 == *a {
            return Some(k);
        }
        k = k + 1;
    }
    assert(!is_assignee(*b, *a)) by {
        if is_assignee(*b, *a) {
            let l = choose|l: int| 0 <= l < b.assignees@.len() && #[trigger] b.assignees@[l].0 == *a;
        }
    }
    None
}

/// The bounty contract's state.
pub struct MergeMintContract {
    pub(crate) contract_address: Address,
    pub(crate) bounty_count: u64,
    pub(crate) bounties: Vec<Bounty>,
    pub(crate) metas: Vec<BountyMeta>,
    pub(crate) approvals: Vec<Vec<Address>>,
    pub(crate) contributors: AddrMap<Contributor>,
    /// Contributors in the order they were first paid.
    pub(crate) ranked: Vec<Address>,
    pub(crate) creator_bounties: AddrMap<Vec<BountyId>>,
    pub(crate) histories: AddrMap<Vec<BountyId>>,
    pub(crate) open_status: PagedIndex,
    pub(crate) in_progress_status: PagedIndex,
    pub(crate) completed_status: PagedIndex,
    pub(crate) cancelled_status: PagedIndex,
    pub(crate) disputed_status: PagedIndex,
    pub(crate) open_bounties: PagedIndex,
}

/// Share (in basis points) of the `k`-th assignee (0-based) of a bounty with
/// `max` slots: an equal split of 10 000, the first taking the remainder.
pub open spec fn share_for(k: int, max: int) -> int {
    if k == 0 {
        10_000int / max + 10_000int % max
    } else {
        10_000int / max
    }
}

/// A bounty's assignee list is well formed: distinct addresses, at most
/// `max_assignees` of them, each with its share.
pub open spec fn assignees_wf(b: Bounty) -> bool {
    &&& b.max_assignees >= 1
    &&& b.assignees@.len() <= b.max_assignees
    &&& forall|k: int| 0 <= k < b.assignees@.len() ==> #[trigger] b.assignees@[k].1 == share_for(k, b.max_assignees as int)
    &&& forall|k: int, l: int| 0 <= k < l < b.assignees@.len() ==> b.assignees@[k].0 != b.assignees@[l].0
}

/// The open list `open` after bounty `id` moves from status `from` to
/// `to`: it leaves the list when it leaves `open`.
pub open spec fn open_list_moved(open: Seq<BountyId>, id: BountyId, from: BountyStatus, to: BountyStatus) -> Seq<BountyId> {
    if from == BountyStatus::Open && to != BountyStatus::Open {
        swap_remove(open, first_index(open, id))
    } else {
        open
    }
}

/// The payment order `order` after paying the assignees `assignees`, in
/// turn: each one not yet in it joins at the end.
pub open spec fn rank_after_payout(order: Seq<Address>, assignees: Seq<(Address, u32)>) -> Seq<Address>
    decreases assignees.len(),
{
    if assignees.len() == 0 {
        order
    } else {
        let before = rank_after_payout(order, assignees.drop_last());
        if before.contains(assignees.last().0) {
            before
        } else {
            before.push(assignees.last().0)
        }
    }
}

/// Whether `a` is an assignee of `b`.
pub open spec fn is_assignee(b: Bounty, a: Address) -> bool {
    exists|k: int| 0 <= k < b.assignees@.len() && #[trigger] b.assignees@[k].0 == a
}

impl MergeMintContract {
    /// Number of bounties ever created.
    pub closed spec fn count(&self) -> nat {
        self.bounty_count as nat
    }

    /// The bounty created `i`-th.
    pub closed spec fn bounty(&self, i: int) -> Bounty {
        self.bounties@[i]
    }

    /// Title and description of the bounty created `i`-th.
    pub closed spec fn meta(&self, i: int) -> BountyMeta {
        self.metas@[i]
    }

    /// Verifier approvals recorded for the bounty created `i`-th.
    pub closed spec fn approvals_of(&self, i: int) -> Seq<Address> {
        self.approvals@[i]@
    }

    /// Contributor profiles.
    pub closed spec fn contributor_map(&self) -> Map<Address, Contributor> {
        self.contributors@
    }

    /// The profile of `a`, or a fresh one when `a` has none yet.
    pub open spec fn contributor_or_fresh(&self, a: Address) -> Contributor {
        if self.contributor_map().contains_key(a) {
            self.contributor_map()[a]
        } else {
            fresh_contributor(a)
        }
    }

    /// Ids of the bounties `a` created, in creation order.
    pub closed spec fn creator_list(&self, a: Address) -> Seq<BountyId> {
        if self.creator_bounties@.contains_key(a) {
            self.creator_bounties@[a]@
        } else {
            Seq::empty()
        }
    }

    /// Ids of the bounties `a` was an assignee on when they became terminal.
    pub closed spec fn history(&self, a: Address) -> Seq<BountyId> {
        if self.histories@.contains_key(a) {
            self.histories@[a]@
        } else {
            Seq::empty()
        }
    }

    /// The status index of `s`.
    pub closed spec fn status_list(&self, s: BountyStatus) -> Seq<BountyId> {
        match s {
            BountyStatus::Open => self.open_status@,
            BountyStatus::InProgress => self.in_progress_status@,
            BountyStatus::Completed => self.completed_status@,
            BountyStatus::Cancelled => self.cancelled_status@,
            BountyStatus::Disputed => self.disputed_status@,
        }
    }

    /// The list of open (claimable) bounties.
    pub closed spec fn open_list(&self) -> Seq<BountyId> {
        self.open_bounties@
    }

    /// The creation sequence of `id`, when it names an existing bounty.
    pub open spec fn index_of(&self, id: BountyId) -> Option<int> {
        match id.spec_sequence() {
            Some(q) => if q < self.count() {
                Some(q as int)
            } else {
                None
            },
            None => None,
        }
    }

    /// Whether `id` names an existing bounty whose status is `s`.
    pub open spec fn has_status(&self, id: BountyId, s: BountyStatus) -> bool {
        match self.index_of(id) {
            Some(i) => self.bounty(i).status == s,
            None => false,
        }
    }

    pub open spec fn status_total(&self) -> int {
        (self.status_list(BountyStatus::Open).len() + self.status_list(BountyStatus::InProgress).len()
            + self.status_list(BountyStatus::Completed).len() + self.status_list(
            BountyStatus::Cancelled,
        ).len() + self.status_list(BountyStatus::Disputed).len()) as int
    }

    /// Ids of the bounties among the first `n` created that `a` created, in
    /// creation order.
    pub open spec fn created_by(&self, a: Address, n: int) -> Seq<BountyId>
        decreases n,
    {
        if n <= 0 {
            Seq::empty()
        } else {
            let r = self.created_by(a, n - 1);
            if self.bounty(n - 1).creator == a {
                r.push(BountyId::spec_from_sequence((n - 1) as u64))
            } else {
                r
            }
        }
    }

    /// Two states whose first `n` bounties have the same creators agree on
    /// who created which of them.
    proof fn lemma_created_by_agree(&self, other: &MergeMintContract, a: Address, n: int)
        requires
            forall|j: int| 0 <= j < n ==> #[trigger] self.bounty(j).creator == other.bounty(j).creator,
        ensures
            self.created_by(a, n) == other.created_by(a, n),
        decreases n,
    {
        if n > 0 {
            self.lemma_created_by_agree(other, a, n - 1);
            assert(self.bounty(n - 1).creator == other.bounty(n - 1).creator);
        }
    }

    /// The state invariant.
    pub closed spec fn wf(&self) -> bool {
        &&& self.bounties@.len() == self.bounty_count
        &&& self.metas@.len() == self.bounty_count
        &&& self.approvals@.len() == self.bounty_count
        &&& self.contributors.wf()
        &&& self.ranked@.no_duplicates()
        &&& forall|a: Address| #[trigger] self.ranked@.contains(a) ==> self.contributors@.contains_key(a)
        &&& self.creator_bounties.wf()
        &&& self.histories.wf()
        &&& self.open_status.wf()
        &&& self.in_progress_status.wf()
        &&& self.completed_status.wf()
        &&& self.cancelled_status.wf()
        &&& self.disputed_status.wf()
        &&& self.open_bounties.wf()
        &&& self.indexes_wf()
        &&& forall|i: int| 0 <= i < self.bounty_count ==> #[trigger] assignees_wf(self.bounties@[i])
        &&& forall|i: int| 0 <= i < self.bounty_count ==> #[trigger] milestones_sum_to_reward(self.bounties@[i])
        &&& forall|i: int| 0 <= i < self.bounty_count ==> #[trigger] reward_positive(self.bounties@[i])
    }

    /// Every status index lists, without repetition, exactly the bounties
    /// in that status; the indexes together hold every bounty once; the
    /// open list is the index of `open` bounties.
    pub closed spec fn indexes_wf(&self) -> bool {
        &&& forall|s: BountyStatus| #[trigger] self.status_list(s).no_duplicates()
        &&& forall|s: BountyStatus, x: BountyId| #[trigger]
            self.status_list(s).contains(x) <==> self.has_status(x, s)
        &&& self.status_total() == self.count()
        &&& self.open_list().no_duplicates()
        &&& forall|x: BountyId| #[trigger] self.open_list().contains(x) ==> self.index_of(x) is Some
        &&& self.open_list().len() <= self.count()
        &&& self.open_list() == self.status_list(BountyStatus::Open)
        &&& forall|a: Address| #[trigger] self.creator_list(a).len() <= self.count()
        &&& forall|a: Address| #[trigger] self.creator_list(a).len() <= u32::MAX
        &&& forall|a: Address| #[trigger] self.creator_list(a) == self.created_by(a, self.count() as int)
    }

    /// Whether the index of status `s` can take one more entry (its count
    /// is a `u32`).
    pub open spec fn index_has_room(&self, s: BountyStatus) -> bool {
        self.status_list(s).len() < u32::MAX
    }

    /// The contract's own address (holder of escrowed rewards).
    pub closed spec fn address(&self) -> Address {
        self.contract_address
    }

    /// A contract deployed at `contract_address`, with no bounties and no
    /// contributors.
    pub fn new(contract_address: Address) -> (c: MergeMintContract)
        ensures
            c.wf(),
            c.address() == contract_address,
            c.count() == 0,
            c.contributor_map() == Map::<Address, Contributor>::empty(),
            forall|s: BountyStatus| c.status_list(s) == Seq::<BountyId>::empty(),
            c.open_list() == Seq::<BountyId>::empty(),
            forall|a: Address| c.creator_list(a) == Seq::<BountyId>::empty(),
            forall|a: Address| c.history(a) == Seq::<BountyId>::empty(),
    {
        let c = MergeMintContract {
            contract_address,
            bounty_count: 0,
            bounties: Vec::new(),
            metas: Vec::new(),
            approvals: Vec::new(),
            contributors: AddrMap::new(),
            ranked: Vec::new(),
            creator_bounties: AddrMap::new(),
            histories: AddrMap::new(),
            open_status: PagedIndex::new(),
            in_progress_status: PagedIndex::new(),
            completed_status: PagedIndex::new(),
            cancelled_status: PagedIndex::new(),
            disputed_status: PagedIndex::new(),
            open_bounties: PagedIndex::new(),
        };
        assert forall|s: BountyStatus, x: BountyId| #[trigger]
            c.status_list(s).contains(x) <==> c.has_status(x, s) by {}
        c
    }

    /// The creator lists, the bounty count and every bounty's creator are
    /// those of `old`: the creator lists still match the creators.
    proof fn lemma_creators_kept(&self, old: &MergeMintContract)
        requires
            old.wf(),
            self.creator_bounties == old.creator_bounties,
            self.bounty_count == old.bounty_count,
            forall|j: int| 0 <= j < old.count() ==> #[trigger] self.bounty(j).creator == old.bounty(j).creator,
        ensures
            forall|a: Address| #[trigger] self.creator_list(a).len() <= self.count(),
            forall|a: Address| #[trigger] self.creator_list(a).len() <= u32::MAX,
            forall|a: Address| #[trigger] self.creator_list(a) == self.created_by(a, self.count() as int),
    {
        assert forall|a: Address| #[trigger] self.creator_list(a).len() <= u32::MAX by {
            assert(self.creator_list(a) == old.creator_list(a));
        }
        assert forall|a: Address| #[trigger] self.creator_list(a).len() <= self.count() by {
            assert(self.creator_list(a) == old.creator_list(a));
        }
        assert forall|a: Address| #[trigger] self.creator_list(a) == self.created_by(a, self.count() as int) by {
            assert(self.creator_list(a) == old.creator_list(a));
            self.lemma_created_by_agree(old, a, self.count() as int);
        }
    }

    /// The position of the bounty named `id`, if it exists.
    pub fn find_bounty(&self, id: &BountyId) -> (r: Option<usize>)
        requires
            self.wf(),
        ensures
            r matches Some(i) ==> self.index_of(*id) == Some(i as int),
            r is None ==> self.index_of(*id) is None,
    {
        match id.sequence() {
            Some(q) => if q < self.bounty_count {
                let len = self.bounties.len();
                assert(q < len);
                Some(q as usize)
            } else {
                None
            },
            None => None,
        }
    }

    /// The status lists of `self` are those of `old` with `id` moved from
    /// the list of `from` to the list of `to` (nothing moves when equal).
    pub open spec fn lists_moved(&self, old: &MergeMintContract, id: BountyId, from: BountyStatus, to: BountyStatus) -> bool {
        forall|s: BountyStatus| #[trigger] self.status_list(s) == if from == to {
            old.status_list(s)
        } else if s == from {
            swap_remove(old.status_list(s), first_index(old.status_list(s), id))
        } else if s == to {
            old.status_list(s).push(id)
        } else {
            old.status_list(s)
        }
    }

    /// The histories of `self` are those of `old`, with `id` appended for
    /// every assignee of `b` when `b` reached a terminal status from `from`.
    pub open spec fn histories_moved(&self, old: &MergeMintContract, id: BountyId, b: Bounty, from: BountyStatus, to: BountyStatus) -> bool {
        forall|a: Address| #[trigger] self.history(a) == if from != to && (to == BountyStatus::Completed || to == BountyStatus::Cancelled) && is_assignee(b, a) {
            old.history(a).push(id)
        } else {
            old.history(a)
        }
    }

    /// `self` is `old` with bounty `i` moved to status `to` and nothing
    /// else changed but the status indexes and assignee histories.
    pub open spec fn status_changed(&self, old: &MergeMintContract, i: int, to: BountyStatus) -> bool {
        &&& self.status_moved(old, i, to)
        &&& self.contributor_map() == old.contributor_map()
        &&& self.ranked_order() == old.ranked_order()
    }

    /// As [`Self::status_changed`], saying nothing of contributor profiles.
    pub open spec fn status_moved(&self, old: &MergeMintContract, i: int, to: BountyStatus) -> bool {
        let id = BountyId::spec_from_sequence(i as u64);
        let b = old.bounty(i);
        &&& self.address() == old.address()
        &&& self.count() == old.count()
        &&& self.bounty(i) == (Bounty { status: to, ..b })
        &&& forall|j: int| 0 <= j < old.count() && j != i ==> #[trigger] self.bounty(j) == old.bounty(j)
        &&& forall|j: int| 0 <= j < old.count() ==> #[trigger] self.meta(j) == old.meta(j)
            && self.approvals_of(j) == old.approvals_of(j)
        &&& self.lists_moved(old, id, b.status, to)
        &&& self.histories_moved(old, id, b, b.status, to)
        &&& self.open_list() == open_list_moved(old.open_list(), id, b.status, to)
        &&& forall|a: Address| #[trigger] self.creator_list(a) == old.creator_list(a)
    }

    fn status_remove(&mut self, s: BountyStatus, id: &BountyId)
        requires
            old(self).open_status.wf(),
            old(self).in_progress_status.wf(),
            old(self).completed_status.wf(),
            old(self).cancelled_status.wf(),
            old(self).disputed_status.wf(),
        ensures
            final(self).open_status.wf(),
            final(self).in_progress_status.wf(),
            final(self).completed_status.wf(),
            final(self).cancelled_status.wf(),
            final(self).disputed_status.wf(),
            forall|t: BountyStatus| #[trigger] final(self).status_list(t) == if t == s && old(self).status_list(s).contains(*id) {
                swap_remove(old(self).status_list(s), first_index(old(self).status_list(s), *id))
            } else {
                old(self).status_list(t)
            },
            final(self).contract_address == old(self).contract_address,
            final(self).bounty_count == old(self).bounty_count,
            final(self).bounties == old(self).bounties,
            final(self).metas == old(self).metas,
            final(self).approvals == old(self).approvals,
            final(self).contributors == old(self).contributors,
            final(self).ranked == old(self).ranked,
            final(self).creator_bounties == old(self).creator_bounties,
            final(self).histories == old(self).histories,
            final(self).open_bounties == old(self).open_bounties,
    {
        match s {
            BountyStatus::Open => self.open_status.remove_first(id),
            BountyStatus::InProgress => self.in_progress_status.remove_first(id),
            BountyStatus::Completed => self.completed_status.remove_first(id),
            BountyStatus::Cancelled => self.cancelled_status.remove_first(id),
            BountyStatus::Disputed => self.disputed_status.remove_first(id),
        }
    }

    fn status_insert(&mut self, s: BountyStatus, id: BountyId)
        requires
            old(self).open_status.wf(),
            old(self).in_progress_status.wf(),
            old(self).completed_status.wf(),
            old(self).cancelled_status.wf(),
            old(self).disputed_status.wf(),
            old(self).status_list(s).len() < u32::MAX,
        ensures
            final(self).open_status.wf(),
            final(self).in_progress_status.wf(),
            final(self).completed_status.wf(),
            final(self).cancelled_status.wf(),
            final(self).disputed_status.wf(),
            forall|t: BountyStatus| #[trigger] final(self).status_list(t) == if t == s && !old(self).status_list(s).contains(id) {
                old(self).status_list(s).push(id)
            } else {
                old(self).status_list(t)
            },
            final(self).contract_address == old(self).contract_address,
            final(self).bounty_count == old(self).bounty_count,
            final(self).bounties == old(self).bounties,
            final(self).metas == old(self).metas,
            final(self).approvals == old(self).approvals,
            final(self).contributors == old(self).contributors,
            final(self).ranked == old(self).ranked,
            final(self).creator_bounties == old(self).creator_bounties,
            final(self).histories == old(self).histories,
            final(self).open_bounties == old(self).open_bounties,
    {
        match s {
            BountyStatus::Open => self.open_status.insert_unique(id),
            BountyStatus::InProgress => self.in_progress_status.insert_unique(id),
            BountyStatus::Completed => self.completed_status.insert_unique(id),
            BountyStatus::Cancelled => self.cancelled_status.insert_unique(id),
            BountyStatus::Disputed => self.disputed_status.insert_unique(id),
        }
    }

    /// Append `id` to the history of every assignee of bounty `i`.
    fn record_history(&mut self, i: usize, id: BountyId)
        requires
            old(self).histories.wf(),
            i < old(self).bounties@.len(),
            assignees_wf(old(self).bounties@[i as int]),
        ensures
            final(self).histories.wf(),
            forall|a: Address| #[trigger] final(self).history(a) == if is_assignee(old(self).bounties@[i as int], a) {
                old(self).history(a).push(id)
            } else {
                old(self).history(a)
            },
            final(self).contract_address == old(self).contract_address,
            final(self).bounty_count == old(self).bounty_count,
            final(self).bounties == old(self).bounties,
            final(self).metas == old(self).metas,
            final(self).approvals == old(self).approvals,
            final(self).contributors == old(self).contributors,
            final(self).ranked == old(self).ranked,
            final(self).creator_bounties == old(self).creator_bounties,
            final(self).open_bounties == old(self).open_bounties,
            final(self).open_status == old(self).open_status,
            final(self).in_progress_status == old(self).in_progress_status,
            final(self).completed_status == old(self).completed_status,
            final(self).cancelled_status == old(self).cancelled_status,
            final(self).disputed_status == old(self).disputed_status,
    {
        let ghost b = self.bounties@[i as int];
        let n = self.bounties[i].assignees.len();
        let mut k: usize = 0;
        while k < n
            invariant
                self.histories.wf(),
                i < self.bounties@.len(),
                self.bounties@[i as int] == b,
                n == b.assignees@.len(),
                assignees_wf(b),
                k <= n,
                forall|a: Address| #[trigger] self.history(a) == if exists|l: int| 0 <= l < k && #[trigger] b.assignees@[l].0 == a {
                    old(self).history(a).push(id)
                } else {
                    old(self).history(a)
                },
                self.bounty_count == old(self).bounty_count,
                self.contract_address == old(self).contract_address,
                self.bounties == old(self).bounties,
                self.metas == old(self).metas,
                self.approvals == old(self).approvals,
                self.contributors == old(self).contributors,
                self.ranked == old(self).ranked,
                self.creator_bounties == old(self).creator_bounties,
                self.open_bounties == old(self).open_bounties,
                self.open_status == old(self).open_status,
                self.in_progress_status == old(self).in_progress_status,
                self.completed_status == old(self).completed_status,
                self.cancelled_status == old(self).cancelled_status,
                self.disputed_status == old(self).disputed_status,
            decreases n - k,
        {
            let a = self.bounties[i].assignees[k].0;
            let mut list: Vec<BountyId> = match self.histories.get(&a) {
                Some(v) => copy_ids(v),
                None => Vec::new(),
            };
            proof {
                // `a` has not been handled yet: assignees are distinct.
                assert(!(exists|l: int| 0 <= l < k && #[trigger] b.assignees@[l].0 == a)) by {
                    if exists|l: int| 0 <= l < k && #[trigger] b.assignees@[l].0 == a {
                        let l = choose|l: int| 0 <= l < k && #[trigger] b.assignees@[l].0 == a;
                        assert(b.assignees@[l].0 != b.assignees@[k as int].0);
                    }
                }
                assert(list@ == self.history(a));
                assert(self.history(a) == old(self).history(a));
            }
            list.push(id);
            let ghost before = *self;
            self.histories.set(a, list);
            proof {
                assert forall|x: Address| #[trigger] self.history(x) == if exists|l: int| 0 <= l < k + 1 && #[trigger] b.assignees@[l].0 == x {
                    old(self).history(x).push(id)
                } else {
                    old(self).history(x)
                } by {
                    if x != a {
                        assert(self.history(x) == before.history(x));
                        if exists|l: int| 0 <= l < k + 1 && #[trigger] b.assignees@[l].0 == x {
                            let l = choose|l: int| 0 <= l < k + 1 && #[trigger] b.assignees@[l].0 == x;
                            assert(l < k);
                        }
                    } else {
                        assert(b.assignees@[k as int].0 == x);
                    }
                }
            }
            k = k + 1;
        }
    }

    /// Give bounty `i` the status `to`, moving its id between the status
    /// indexes (and off the open list when it leaves `open`) and, on
    /// reaching `completed` or `cancelled`, recording it in the history of
    /// each assignee. Nothing returns to `open`.
    fn move_status(&mut self, i: usize, to: BountyStatus)
        requires
            old(self).wf(),
            i < old(self).count(),
            to != BountyStatus::Open,
            old(self).bounty(i as int).status != to ==> old(self).index_has_room(to),
        ensures
            final(self).wf(),
            final(self).bounties@ == old(self).bounties@.update(
                i as int,
                Bounty { status: to, ..old(self).bounty(i as int) },
            ),
            final(self).lists_moved(old(self), BountyId::spec_from_sequence(i as u64), old(self).bounty(i as int).status, to),
            final(self).histories_moved(old(self), BountyId::spec_from_sequence(i as u64), old(self).bounty(i as int), old(self).bounty(i as int).status, to),
            final(self).status_changed(old(self), i as int, to),
            final(self).bounty_count == old(self).bounty_count,
            final(self).contract_address == old(self).contract_address,
            final(self).metas == old(self).metas,
            final(self).approvals == old(self).approvals,
            final(self).contributors == old(self).contributors,
            final(self).ranked == old(self).ranked,
            final(self).creator_bounties == old(self).creator_bounties,
    {
        let id = BountyId::from_sequence(i as u64);
        let from = self.bounties[i].status;
        let ghost b = self.bounties@[i as int];
        self.bounties[i].status = to;
        assert(self.bounties@[i as int] == Bounty { status: to, ..b });
        if from != to {
            proof {
                assert(old(self).index_of(id) == Some(i as int));
                assert(old(self).has_status(id, from));
                assert(old(self).status_list(from).contains(id));
                assert(!old(self).status_list(to).contains(id));
                lemma_swap_remove_membership(old(self).status_list(from), id);
                assert(old(self).status_list(from).len() >= 1);
            }
            let ghost before_remove = *self;
            self.status_remove(from, &id);
            let ghost after_remove = *self;
            self.status_insert(to, id);
            proof {
                assert forall|t: BountyStatus| #[trigger] self.status_list(t) == if t == from {
                    swap_remove(old(self).status_list(t), first_index(old(self).status_list(t), id))
                } else if t == to {
                    old(self).status_list(t).push(id)
                } else {
                    old(self).status_list(t)
                } by {
                    assert(after_remove.status_list(t) == if t == from {
                        swap_remove(before_remove.status_list(from), first_index(before_remove.status_list(from), id))
                    } else {
                        before_remove.status_list(t)
                    });
                    assert(before_remove.status_list(t) == old(self).status_list(t));
                }
            }
            let ghost before_history = *self;
            proof {
                assert(assignees_wf(old(self).bounties@[i as int]));
                assert(before_history.bounties@[i as int].assignees == b.assignees);
                assert(assignees_wf(before_history.bounties@[i as int]));
                assert forall|a: Address| is_assignee(before_history.bounties@[i as int], a) == is_assignee(b, a) by {}
            }
            if to == BountyStatus::Completed || to == BountyStatus::Cancelled {
                self.record_history(i, id);
            }
            let ghost before_open = *self;
            if from == BountyStatus::Open {
                self.open_bounties.remove_first(&id);
            }
            proof {
                assert(self.open_list() == open_list_moved(old(self).open_list(), id, from, to));
                assert forall|a: Address| #[trigger] self.history(a) == before_open.history(a) by {}
                assert forall|t: BountyStatus| #[trigger] self.status_list(t) == before_open.status_list(t) by {}
            }
            proof {
                assert forall|a: Address| #[trigger] self.history(a) == if from != to && (to == BountyStatus::Completed || to == BountyStatus::Cancelled) && is_assignee(b, a) {
                    old(self).history(a).push(id)
                } else {
                    old(self).history(a)
                } by {
                    assert(before_history.history(a) == old(self).history(a));
                }
                assert forall|t: BountyStatus| #[trigger] self.status_list(t) == if t == from {
                    swap_remove(old(self).status_list(t), first_index(old(self).status_list(t), id))
                } else if t == to {
                    old(self).status_list(t).push(id)
                } else {
                    old(self).status_list(t)
                } by {
                    assert(self.status_list(t) == before_history.status_list(t));
                }
                assert(self.lists_moved(old(self), id, from, to));
                self.lemma_moved_wf(old(self), i as int, from, to);
            }
        } else {
            proof {
                assert(self.bounties@ =~= old(self).bounties@);
                assert forall|t: BountyStatus| #[trigger] self.status_list(t) == old(self).status_list(t) by {}
                assert forall|a: Address| #[trigger] self.history(a) == old(self).history(a) by {}
                self.lemma_creators_kept(old(self));
            }
        }
        proof {
            let ii = i as int;
            assert(self.bounty(ii) == Bounty { status: to, ..b });
            assert forall|j: int| 0 <= j < old(self).count() && j != ii implies #[trigger] self.bounty(j) == old(self).bounty(j) by {}
            assert forall|j: int| 0 <= j < old(self).count() implies #[trigger] self.meta(j) == old(self).meta(j)
                && self.approvals_of(j) == old(self).approvals_of(j) by {}
            assert forall|a: Address| #[trigger] self.creator_list(a) == old(self).creator_list(a) by {}
        }
    }

    proof fn lemma_moved_wf(&self, old: &MergeMintContract, i: int, from: BountyStatus, to: BountyStatus)
        requires
            old.wf(),
            0 <= i < old.count(),
            from == old.bounty(i).status,
            from != to,
            self.bounties@ == old.bounties@.update(i, Bounty { status: to, ..old.bounty(i) }),
            self.lists_moved(old, BountyId::spec_from_sequence(i as u64), from, to),
            self.bounty_count == old.bounty_count,
            self.metas == old.metas,
            self.approvals == old.approvals,
            self.contributors == old.contributors,
            self.ranked == old.ranked,
            self.creator_bounties == old.creator_bounties,
            self.open_bounties.wf(),
            to != BountyStatus::Open,
            self.open_list() == open_list_moved(old.open_list(), BountyId::spec_from_sequence(i as u64), from, to),
            self.histories.wf(),
            self.open_status.wf(),
            self.in_progress_status.wf(),
            self.completed_status.wf(),
            self.cancelled_status.wf(),
            self.disputed_status.wf(),
        ensures
            self.wf(),
    {
        let id = BountyId::spec_from_sequence(i as u64);
        assert(old.status_list(from).contains(id));
        lemma_swap_remove_membership(old.status_list(from), id);
        assert(old.has_status(id, from));
        assert(!old.has_status(id, to));
        assert(!old.status_list(to).contains(id));
        assert forall|s: BountyStatus| #[trigger] self.status_list(s).no_duplicates() by {
            if s == to {
                lemma_push_no_dup(old.status_list(to), id);
            }
        }
        assert forall|x: BountyId| #[trigger] self.index_of(x) == old.index_of(x) by {}
        assert forall|s: BountyStatus, x: BountyId| #[trigger]
            self.status_list(s).contains(x) <==> self.has_status(x, s) by {
            if x == id {
                assert(self.index_of(x) == Some(i));
                assert(self.bounty(i).status == to);
                if s == to {
                    assert(self.status_list(s).last() == id);
                }
                if s != from && s != to {
                    assert(!old.has_status(id, s));
                }
            } else {
                assert(self.has_status(x, s) == old.has_status(x, s)) by {
                    if let Some(j) = self.index_of(x) {
                        assert(j != i);
                        assert(self.bounty(j) == old.bounty(j));
                    }
                }
                if s == to {
                    assert(old.status_list(s).push(id).contains(x) == old.status_list(s).contains(x)) by {
                        if old.status_list(s).push(id).contains(x) {
                            let k = choose|k: int| 0 <= k < old.status_list(s).len() + 1 && old.status_list(s).push(id)[k] == x;
                            assert(k < old.status_list(s).len());
                        }
                        if old.status_list(s).contains(x) {
                            let k = choose|k: int| 0 <= k < old.status_list(s).len() && old.status_list(s)[k] == x;
                            assert(old.status_list(s).push(id)[k] == x);
                        }
                    }
                }
            }
        }
        assert forall|j: int| 0 <= j < self.bounty_count implies #[trigger] assignees_wf(self.bounties@[j]) by {
            assert(assignees_wf(old.bounties@[j]));
        }
        assert forall|j: int| 0 <= j < self.bounty_count implies #[trigger] milestones_sum_to_reward(
            self.bounties@[j],
        ) by {
            assert(milestones_sum_to_reward(old.bounties@[j]));
        }
        assert forall|j: int| 0 <= j < self.bounty_count implies #[trigger] reward_positive(self.bounties@[j]) by {
            assert(reward_positive(old.bounties@[j]));
        }
        assert(self.status_total() == old.status_total());
        assert(self.open_list() == self.status_list(BountyStatus::Open));
        assert forall|x: BountyId| #[trigger] self.open_list().contains(x) implies self.index_of(x) is Some by {
            assert(self.status_list(BountyStatus::Open).contains(x));
            assert(self.has_status(x, BountyStatus::Open));
        }
        assert(self.open_list().len() <= self.count());
        self.lemma_creators_kept(old);
    }

    /// Create a new bounty in `open` status and return its id.
    ///
    /// `reward_token_responds` is whether `reward_token` answered a token
    /// `balance` probe; a non-token address is refused with
    /// `InvalidRewardToken`. `ledger_sequence` is the current ledger.
    /// The reward is not moved: the escrow is funded separately.
    #[verifier::loop_isolation(false)]
    pub fn create_bounty(
        &mut self,
        ledger_sequence: u32,
        creator: Address,
        title: String,
        description: String,
        reward_amount: i128,
        reward_token: Address,
        reward_token_responds: bool,
        min_reputation: u32,
        deadline: Option<u32>,
        tags: Vec<String>,
        max_assignees: u32,
        required_verifiers: Option<Vec<Address>>,
        approval_threshold: u32,
        milestones: Vec<Milestone>,
    ) -> (r: Result<(BountyId, Receipt), ContractError>)
        requires
            old(self).wf(),
            old(self).count() < u64::MAX,
            create_error(ledger_sequence, reward_amount, reward_token_responds, deadline, tags@, max_assignees, required_verifiers, approval_threshold, milestones@) is None
                ==> old(self).index_has_room(BountyStatus::Open) && old(self).creator_list(creator).len() < u32::MAX,
        ensures
            order_extends(old(self).contributor_order(), final(self).contributor_order()),
            final(self).wf(),
            create_error(ledger_sequence, reward_amount, reward_token_responds, deadline, tags@, max_assignees, required_verifiers, approval_threshold, milestones@) matches Some(e)
                ==> r == Err::<(BountyId, Receipt), ContractError>(e) && *final(self) == *old(self),
            create_error(ledger_sequence, reward_amount, reward_token_responds, deadline, tags@, max_assignees, required_verifiers, approval_threshold, milestones@) is None ==> {
                let n = old(self).count();
                let id = BountyId::spec_from_sequence(n as u64);
                &&& r matches Ok((rid, receipt)) && rid == id
                    && receipt.transfers@ == Seq::<Transfer>::empty()
                    && receipt.events@ == seq![ContractEvent::BountyCreated { id, creator, reward_amount }]
                &&& final(self).count() == n + 1
                &&& final(self).address() == old(self).address()
                &&& final(self).bounty(n as int) == (Bounty {
                    creator,
                    reward_amount,
                    reward_token,
                    assignees: final(self).bounty(n as int).assignees,
                    max_assignees,
                    status: BountyStatus::Open,
                    min_reputation,
                    deadline,
                    required_verifiers,
                    approval_threshold,
                    tags,
                    milestones,
                })
                &&& final(self).bounty(n as int).assignees@ == Seq::<(Address, u32)>::empty()
                &&& final(self).meta(n as int) == (BountyMeta { title, description })
                &&& final(self).approvals_of(n as int) == Seq::<Address>::empty()
                &&& forall|i: int| 0 <= i < n ==> #[trigger] final(self).bounty(i) == old(self).bounty(i)
                    && final(self).meta(i) == old(self).meta(i) && final(self).approvals_of(i) == old(self).approvals_of(i)
                &&& forall|s: BountyStatus| #[trigger] final(self).status_list(s) == if s == BountyStatus::Open {
                    old(self).status_list(s).push(id)
                } else {
                    old(self).status_list(s)
                }
                &&& final(self).open_list() == old(self).open_list().push(id)
                &&& forall|a: Address| #[trigger] final(self).creator_list(a) == if a == creator {
                    old(self).creator_list(a).push(id)
                } else {
                    old(self).creator_list(a)
                }
                &&& final(self).contributor_map() == old(self).contributor_map()
                &&& final(self).ranked_order() == old(self).ranked_order()
                &&& forall|a: Address| #[trigger] final(self).history(a) == old(self).history(a)
            },
            r is Ok ==> forall|tok: Address| #[trigger] final(self).escrowed(tok) == old(self).escrowed(tok) + if tok
                == reward_token {
                reward_amount as int
            } else {
                0
            },
    {
        if reward_amount <= 0 {
            return Err(ContractError::RewardMustBePositive);
        }
        if reward_amount < MIN_REWARD_AMOUNT {
            return Err(ContractError::RewardBelowMinimum);
        }
        if tags.len() > MAX_TAGS {
            return Err(ContractError::TooManyTags);
        }
        let mut t: usize = 0;
        while t < tags.len()
            invariant
                t <= tags@.len(),
                forall|k: int| 0 <= k < t ==> is_allowed_tag(#[trigger] tags@[k]@),
            decreases tags@.len() - t,
        {
            if validate_symbol(SymbolKind::Tag, tags[t].as_str()).is_err() {
                return Err(ContractError::InvalidTag);
            }
            t = t + 1;
        }
        if max_assignees < 1 {
            return Err(ContractError::MaxAssigneesMustBePositive);
        }
        match &required_verifiers {
            Some(verifiers) => {
                if approval_threshold as usize > verifiers.len() {
                    return Err(ContractError::ApprovalThresholdExceedsVerifiers);
                }
            },
            None => {},
        }
        if !reward_token_responds {
            return Err(ContractError::InvalidRewardToken);
        }
        if milestones.len() > 0 {
            let mut total: i128 = 0;
            let mut m: usize = 0;
            while m < milestones.len()
                invariant
                    m <= milestones@.len(),
                    total == milestone_prefix_sum(milestones@, m as int),
                    forall|k: int| 1 <= k <= m ==> i128::MIN <= #[trigger] milestone_prefix_sum(milestones@, k) <= i128::MAX,
                decreases milestones@.len() - m,
            {
                match total.checked_add(milestones[m].reward) {
                    Some(sum) => {
                        total = sum;
                    },
                    None => {
                        assert(!(i128::MIN <= milestone_prefix_sum(milestones@, m as int + 1) <= i128::MAX));
                        return Err(ContractError::RewardAmountOverflow);
                    },
                }
                m = m + 1;
            }
            if total != reward_amount {
                return Err(ContractError::MilestoneRewardsMismatch);
            }
        }
        match deadline {
            Some(d) => {
                if ledger_sequence > d {
                    return Err(ContractError::BountyDeadlinePassed);
                }
            },
            None => {},
        }
        let n = self.bounty_count;
        let id = BountyId::from_sequence(n);
        let bounty = Bounty {
            creator,
            reward_amount,
            reward_token,
            assignees: Vec::new(),
            max_assignees,
            status: BountyStatus::Open,
            min_reputation,
            deadline,
            required_verifiers,
            approval_threshold,
            tags,
            milestones,
        };
        let ghost before = *self;
        proof {
            assert(!self.open_status@.contains(id)) by {
                if self.open_status@.contains(id) {
                    assert(self.status_list(BountyStatus::Open).contains(id));
                }
            }
            assert(!self.open_bounties@.contains(id)) by {
                if self.open_bounties@.contains(id) {
                    assert(self.open_list().contains(id));
                }
            }
            assert(self.status_list(BountyStatus::Open).len() <= self.status_total());
        }
        self.bounties.push(bounty);
        self.metas.push(BountyMeta { title, description });
        self.approvals.push(Vec::new());
        self.bounty_count = n + 1;
        self.open_status.insert_unique(id);
        let mut created: Vec<BountyId> = match self.creator_bounties.get(&creator) {
            Some(v) => copy_ids(v),
            None => Vec::new(),
        };
        proof {
            assert(created@ == before.creator_list(creator));
        }
        created.push(id);
        self.creator_bounties.set(creator, created);
        self.open_bounties.append(id);
        let mut events: Vec<ContractEvent> = Vec::new();
        events.push(ContractEvent::BountyCreated { id, creator, reward_amount });
        proof {
            self.lemma_created_wf(&before, id);
            assert(events@ =~= seq![ContractEvent::BountyCreated { id, creator, reward_amount }]);
            assert forall|s: BountyStatus| #[trigger] self.status_list(s) == if s == BountyStatus::Open {
                before.status_list(s).push(id)
            } else {
                before.status_list(s)
            } by {}
            assert forall|tok: Address| #[trigger] self.escrowed(tok) == old(self).escrowed(tok) + if tok == reward_token {
                reward_amount as int
            } else {
                0
            } by {
                self.lemma_escrow_one_changed(old(self), n as int, tok, n as int);
                assert(self.bounty(n as int) == self.bounties@[n as int]);
            }
        }
        Ok((id, Receipt { transfers: Vec::new(), events }))
    }

    proof fn lemma_created_wf(&self, old: &MergeMintContract, id: BountyId)
        requires
            old.wf(),
            old.count() < u64::MAX,
            old.index_has_room(BountyStatus::Open),
            old.creator_list(self.bounties@.last().creator).len() < u32::MAX,
            id == BountyId::spec_from_sequence(old.bounty_count),
            self.bounty_count == old.bounty_count + 1,
            self.bounties@ == old.bounties@.push(self.bounties@.last()),
            self.bounties@.last().status == BountyStatus::Open,
            self.bounties@.last().assignees@.len() == 0,
            self.bounties@.last().max_assignees >= 1,
            milestones_sum_to_reward(self.bounties@.last()),
            reward_positive(self.bounties@.last()),
            self.metas@.len() == old.metas@.len() + 1,
            self.approvals@.len() == old.approvals@.len() + 1,
            self.contributors == old.contributors,
            self.ranked == old.ranked,
            self.creator_bounties.wf(),
            forall|a: Address| #[trigger] self.creator_list(a) == if a == self.bounties@.last().creator {
                old.creator_list(a).push(id)
            } else {
                old.creator_list(a)
            },
            self.histories == old.histories,
            self.open_status.wf(),
            self.open_status@ == old.open_status@.push(id),
            self.in_progress_status == old.in_progress_status,
            self.completed_status == old.completed_status,
            self.cancelled_status == old.cancelled_status,
            self.disputed_status == old.disputed_status,
            self.open_bounties.wf(),
            self.open_bounties@ == old.open_bounties@.push(id),
        ensures
            self.wf(),
    {
        assert forall|j: int| 0 <= j < self.bounty_count implies #[trigger] reward_positive(self.bounties@[j]) by {
            if j < old.bounty_count {
                assert(self.bounties@[j] == old.bounties@[j]);
                assert(reward_positive(old.bounties@[j]));
            }
        }
        let n = old.bounty_count as int;
        assert forall|a: Address| #[trigger] self.creator_list(a).len() <= self.count() by {
            assert(old.creator_list(a).len() <= old.count());
        }
        assert forall|a: Address| #[trigger] self.creator_list(a) == self.created_by(a, self.count() as int) by {
            assert(forall|j: int| 0 <= j < n ==> #[trigger] self.bounty(j) == old.bounty(j));
            self.lemma_created_by_agree(old, a, n);
            assert(old.creator_list(a) == old.created_by(a, n));
            assert(self.bounty(n) == self.bounties@.last());
        }
        assert(!old.status_list(BountyStatus::Open).contains(id)) by {
            if old.status_list(BountyStatus::Open).contains(id) {
                assert(old.has_status(id, BountyStatus::Open));
            }
        }
        assert(!old.open_list().contains(id)) by {
            if old.open_list().contains(id) {
                assert(old.index_of(id) is Some);
            }
        }
        lemma_push_no_dup(old.status_list(BountyStatus::Open), id);
        lemma_push_no_dup(old.open_list(), id);
        assert forall|j: int| 0 <= j < n implies #[trigger] self.bounty(j) == old.bounty(j) by {}
        assert forall|s: BountyStatus, x: BountyId| #[trigger]
            self.status_list(s).contains(x) <==> self.has_status(x, s) by {
            if x == id {
                assert(self.index_of(x) == Some(n));
                if s == BountyStatus::Open {
                    assert(self.status_list(s).last() == id);
                } else {
                    assert(!old.status_list(s).contains(id)) by {
                        if old.status_list(s).contains(id) {
                            assert(old.has_status(id, s));
                        }
                    }
                }
            } else {
                assert(self.has_status(x, s) == old.has_status(x, s)) by {
                    if let Some(j) = self.index_of(x) {
                        assert(j != n);
                        assert(old.index_of(x) == Some(j));
                    }
                }
                if s == BountyStatus::Open {
                    let l = old.status_list(s);
                    if l.push(id).contains(x) {
                        let k = choose|k: int| 0 <= k < l.len() + 1 && l.push(id)[k] == x;
                        assert(k < l.len());
                        assert(l[k] == x);
                    }
                    if l.contains(x) {
                        let k = choose|k: int| 0 <= k < l.len() && l[k] == x;
                        assert(l.push(id)[k] == x);
                    }
                }
            }
        }
        assert forall|x: BountyId| #[trigger] self.open_list().contains(x) implies self.index_of(x) is Some by {
            if x != id {
                let l = old.open_list();
                let k = choose|k: int| 0 <= k < l.len() + 1 && l.push(id)[k] == x;
                assert(k < l.len());
                assert(l.contains(x));
            }
        }
        assert forall|j: int| 0 <= j < self.bounty_count implies #[trigger] assignees_wf(self.bounties@[j]) by {
            if j < n {
                assert(self.bounties@[j] == old.bounties@[j]);
            }
        }
    }

    /// The stored profile of `a`, or a fresh one.
    fn load_contributor(&self, a: Address) -> (c: Contributor)
        requires
            self.wf(),
        ensures
            c == self.contributor_or_fresh(a),
    {
        match self.contributors.get(&a) {
            Some(c) => copy_contributor(c),
            None => Contributor::new(a),
        }
    }

    /// Bounty `i` keeps its status and creator, its assignee list is well
    /// formed and its milestones still pay its reward; everything else is as
    /// in `old`: the invariant still holds.
    proof fn lemma_assignees_edit_wf(&self, old: &MergeMintContract, i: int)
        requires
            old.wf(),
            0 <= i < old.count(),
            self.bounties@ == old.bounties@.update(i, self.bounties@[i]),
            self.bounties@[i].status == old.bounties@[i].status,
            self.bounties@[i].creator == old.bounties@[i].creator,
            assignees_wf(self.bounties@[i]),
            milestones_sum_to_reward(self.bounties@[i]),
            self.bounties@[i].reward_amount == old.bounties@[i].reward_amount,
            self.bounty_count == old.bounty_count,
            self.metas@.len() == old.metas@.len(),
            self.approvals@.len() == old.approvals@.len(),
            self.contributors == old.contributors,
            self.ranked == old.ranked,
            self.creator_bounties == old.creator_bounties,
            self.histories.wf(),
            self.open_status == old.open_status,
            self.in_progress_status == old.in_progress_status,
            self.completed_status == old.completed_status,
            self.cancelled_status == old.cancelled_status,
            self.disputed_status == old.disputed_status,
            self.open_bounties == old.open_bounties,
        ensures
            self.wf(),
    {
        assert forall|j: int| 0 <= j < self.bounty_count implies #[trigger] reward_positive(self.bounties@[j]) by {
            assert(reward_positive(old.bounties@[j]));
            if j != i {
                assert(self.bounties@[j] == old.bounties@[j]);
            }
        }
        self.lemma_creators_kept(old);
        assert forall|x: BountyId| #[trigger] self.index_of(x) == old.index_of(x) by {}
        assert forall|s: BountyStatus, x: BountyId| #[trigger]
            self.status_list(s).contains(x) <==> self.has_status(x, s) by {
            assert(self.has_status(x, s) == old.has_status(x, s)) by {
                if let Some(j) = self.index_of(x) {
                    if j != i {
                        assert(self.bounty(j) == old.bounty(j));
                    }
                }
            }
        }
        assert forall|j: int| 0 <= j < self.bounty_count implies #[trigger] assignees_wf(self.bounties@[j]) by {
            if j != i {
                assert(self.bounties@[j] == old.bounties@[j]);
            }
        }
    }

    /// `contributor` claims bounty `id`: it joins the assignees with its
    /// share of the reward, the bounty moves to `in_progress`, the
    /// contributor's active claim count rises to one, and the bounty leaves
    /// the open list.
    ///
    /// A single-slot bounty gives its assignee all 10 000 basis points; with
    /// more slots the shares are an equal split, the first assignee taking
    /// the remainder.
    pub fn claim_bounty(&mut self, ledger_sequence: u32, contributor: Address, id: BountyId) -> (r: Result<Receipt, ContractError>)
        requires
            old(self).wf(),
            claim_error(old(self), ledger_sequence, contributor, id) is None && old(self).has_status(id, BountyStatus::Open)
                ==> old(self).index_has_room(BountyStatus::InProgress),
        ensures
            order_extends(old(self).contributor_order(), final(self).contributor_order()),
            final(self).wf(),
            claim_error(old(self), ledger_sequence, contributor, id) matches Some(e)
                ==> r == Err::<Receipt, ContractError>(e) && *final(self) == *old(self),
            claim_error(old(self), ledger_sequence, contributor, id) is None ==> {
                let i = old(self).index_of(id)->0;
                let b = old(self).bounty(i);
                let c = old(self).contributor_or_fresh(contributor);
                &&& r matches Ok(receipt)
                    && receipt.transfers@ == Seq::<Transfer>::empty()
                    && receipt.events@ == seq![ContractEvent::BountyClaimed { id, contributor }]
                &&& final(self).bounty(i).assignees@ == b.assignees@.push(
                    (contributor, share_for(b.assignees@.len() as int, b.max_assignees as int) as u32),
                )
                &&& final(self).bounty(i) == (Bounty {
                    assignees: final(self).bounty(i).assignees,
                    status: BountyStatus::InProgress,
                    ..b
                })
                &&& final(self).count() == old(self).count()
                &&& final(self).address() == old(self).address()
                &&& forall|j: int| 0 <= j < old(self).count() && j != i ==> #[trigger] final(self).bounty(j) == old(self).bounty(j)
                &&& forall|j: int| 0 <= j < old(self).count() ==> #[trigger] final(self).meta(j) == old(self).meta(j)
                    && final(self).approvals_of(j) == old(self).approvals_of(j)
                &&& final(self).contributor_map() == old(self).contributor_map().insert(
                    contributor,
                    Contributor { active_claims: (c.active_claims + 1) as u32, ..c },
                )
                &&& final(self).lists_moved(old(self), id, b.status, BountyStatus::InProgress)
                &&& final(self).open_list() == open_list_moved(old(self).open_list(), id, b.status, BountyStatus::InProgress)
                &&& final(self).ranked_order() == old(self).ranked_order()
                &&& forall|a: Address| #[trigger] final(self).creator_list(a) == old(self).creator_list(a)
                &&& forall|a: Address| #[trigger] final(self).history(a) == old(self).history(a)
            },
            r matches Ok(receipt) ==> escrow_released(old(self), final(self), receipt.transfers@),
    {
        let i = match self.find_bounty(&id) {
            Some(i) => i,
            None => {
                return Err(ContractError::BountyNotFound);
            },
        };
        // A repeated claim by the same contributor is refused first.
        if assignee_position(&self.bounties[i], &contributor).is_some() {
            return Err(ContractError::AlreadyClaimed);
        }
        // A multi-slot bounty stays claimable while in progress.
        let status = self.bounties[i].status;
        if status != BountyStatus::Open && status != BountyStatus::InProgress {
            return Err(ContractError::BountyNotOpen);
        }
        if contributor == self.bounties[i].creator {
            return Err(ContractError::CreatorCannotClaim);
        }
        let max = self.bounties[i].max_assignees;
        let taken = self.bounties[i].assignees.len();
        if taken as u64 >= max as u64 {
            return Err(ContractError::BountyAlreadyAssigned);
        }
        let mut profile = self.load_contributor(contributor);
        if profile.active_claims >= 1 {
            return Err(ContractError::ContributorHasActiveClaim);
        }
        match self.bounties[i].deadline {
            Some(d) => {
                if ledger_sequence > d {
                    return Err(ContractError::BountyDeadlinePassed);
                }
            },
            None => {},
        }
        let min_reputation = self.bounties[i].min_reputation;
        if min_reputation > 0 && profile.reputation < min_reputation {
            return Err(ContractError::ReputationTooLow);
        }
        proof {
            assert(assignees_wf(self.bounties@[i as int]));
        }
        // Equal split of 10 000 basis points; the first assignee takes the
        // remainder.
        proof {
            lemma_share_split(max as int);
        }
        let base_share: u32 = 10_000 / max;
        let remainder: u32 = 10_000 % max;
        let share_bp = if taken == 0 {
            base_share + remainder
        } else {
            base_share
        };
        let ghost b = self.bounties@[i as int];
        self.bounties[i].assignees.push((contributor, share_bp));
        proof {
            let nb = self.bounties@[i as int];
            assert(nb.assignees@ == b.assignees@.push((contributor, share_bp)));
            assert forall|k: int| 0 <= k < nb.assignees@.len() implies #[trigger] nb.assignees@[k].1 == share_for(k, nb.max_assignees as int) by {
                if k < b.assignees@.len() {
                    assert(nb.assignees@[k] == b.assignees@[k]);
                }
            }
            assert forall|k: int, l: int| 0 <= k < l < nb.assignees@.len() implies nb.assignees@[k].0 != nb.assignees@[l].0 by {
                if l == b.assignees@.len() {
                    assert(nb.assignees@[k] == b.assignees@[k]);
                    if b.assignees@[k].0 == contributor {
                        assert(is_assignee(b, contributor));
                    }
                } else {
                    assert(nb.assignees@[k] == b.assignees@[k]);
                    assert(nb.assignees@[l] == b.assignees@[l]);
                }
            }
            assert(milestones_sum_to_reward(b));
            assert(self.bounties@[i as int].milestones == b.milestones);
            self.lemma_assignees_edit_wf(old(self), i as int);
        }
        let ghost after_push = *self;
        self.move_status(i, BountyStatus::InProgress);
        let ghost after_move = *self;
        profile.active_claims = profile.active_claims + 1;
        self.contributors.set(contributor, profile);
        proof {
            assert(after_move.wf());
            assert(self.wf()) by {
                self.lemma_creators_kept(&after_move);
                assert forall|s: BountyStatus, x: BountyId| #[trigger]
                    self.status_list(s).contains(x) <==> self.has_status(x, s) by {
                    assert(self.status_list(s) == after_move.status_list(s));
                    assert(self.has_status(x, s) == after_move.has_status(x, s));
                }
                assert forall|x: BountyId| #[trigger] self.open_list().contains(x) implies self.index_of(x) is Some by {
                    assert(after_move.open_list().contains(x));
                }
                assert forall|j: int| 0 <= j < self.bounty_count implies #[trigger] assignees_wf(self.bounties@[j]) by {
                    assert(assignees_wf(after_move.bounties@[j]));
                }
            }
        }
        let mut events: Vec<ContractEvent> = Vec::new();
        events.push(ContractEvent::BountyClaimed { id, contributor });
        proof {
            assert(events@ =~= seq![ContractEvent::BountyClaimed { id, contributor }]);
            assert forall|s: BountyStatus| #[trigger] self.status_list(s) == after_move.status_list(s) by {}
            assert(after_move.lists_moved(&after_push, id, b.status, BountyStatus::InProgress));
            assert forall|s: BountyStatus| #[trigger] after_push.status_list(s) == old(self).status_list(s) by {}
            assert forall|a: Address| #[trigger] self.history(a) == old(self).history(a) by {
                assert(after_move.history(a) == after_push.history(a));
            }
            assert forall|a: Address| #[trigger] self.creator_list(a) == old(self).creator_list(a) by {}
            assert forall|j: int| 0 <= j < old(self).count() && j != i implies #[trigger] self.bounty(j) == old(self).bounty(j) by {}
            assert forall|j: int| 0 <= j < old(self).count() implies #[trigger] self.meta(j) == old(self).meta(j)
                && self.approvals_of(j) == old(self).approvals_of(j) by {}
            assert(after_push.open_list() == old(self).open_list());
        }
        let transfers: Vec<Transfer> = Vec::new();
        proof {
            assert forall|tok: Address| #[trigger] self.escrowed(tok) == old(self).escrowed(tok) - paid_from(
                transfers@,
                old(self).address(),
                tok,
            ) by {
                self.lemma_escrow_one_changed(old(self), i as int, tok, old(self).count() as int);
                assert(paid_from(transfers@, old(self).address(), tok) == 0);
            }
        }
        Ok(Receipt { transfers, events })
    }

    /// The creator or an assignee disputes an open or in-progress bounty,
    /// which moves to `disputed`.
    pub fn raise_dispute(&mut self, caller: Address, id: BountyId) -> (r: Result<Receipt, ContractError>)
        requires
            old(self).wf(),
            dispute_error(old(self), caller, id) is None ==> old(self).index_has_room(BountyStatus::Disputed),
        ensures
            order_extends(old(self).contributor_order(), final(self).contributor_order()),
            final(self).wf(),
            dispute_error(old(self), caller, id) matches Some(e) ==> r == Err::<Receipt, ContractError>(e)
                && *final(self) == *old(self),
            dispute_error(old(self), caller, id) is None ==> {
                &&& r matches Ok(receipt) && receipt.transfers@ == Seq::<Transfer>::empty()
                    && receipt.events@ == seq![ContractEvent::BountyDisputed { id, caller }]
                &&& final(self).status_changed(old(self), old(self).index_of(id)->0, BountyStatus::Disputed)
            },
            r matches Ok(receipt) ==> escrow_released(old(self), final(self), receipt.transfers@),
    {
        let i = match self.find_bounty(&id) {
            Some(i) => i,
            None => {
                return Err(ContractError::BountyNotFound);
            },
        };
        let status = self.bounties[i].status;
        if status == BountyStatus::Disputed {
            return Err(ContractError::BountyIsDisputed);
        }
        if status != BountyStatus::Open && status != BountyStatus::InProgress {
            return Err(ContractError::BountyNotDisputed);
        }
        let is_assignee = assignee_position(&self.bounties[i], &caller).is_some();
        if caller != self.bounties[i].creator && !is_assignee {
            return Err(ContractError::OnlyCreatorOrAssigneeCanDispute);
        }
        self.move_status(i, BountyStatus::Disputed);
        let mut events: Vec<ContractEvent> = Vec::new();
        events.push(ContractEvent::BountyDisputed { id, caller });
        assert(events@ =~= seq![ContractEvent::BountyDisputed { id, caller }]);
        let transfers: Vec<Transfer> = Vec::new();
        proof {
            self.lemma_escrow_status_moved(old(self), i as int, BountyStatus::Disputed);
            assert forall|tok: Address| #[trigger] self.escrowed(tok) == old(self).escrowed(tok) - paid_from(
                transfers@,
                old(self).address(),
                tok,
            ) by {
                assert(paid_from(transfers@, old(self).address(), tok) == 0);
            }
        }
        Ok(Receipt { transfers, events })
    }

    /// The creator cancels an open bounty: the escrowed reward goes back
    /// from the contract to the creator and the bounty moves to `cancelled`,
    /// leaving the open list.
    pub fn cancel_bounty(&mut self, caller: Address, id: BountyId) -> (r: Result<Receipt, ContractError>)
        requires
            old(self).wf(),
            cancel_error(old(self), caller, id) is None ==> old(self).index_has_room(BountyStatus::Cancelled),
        ensures
            order_extends(old(self).contributor_order(), final(self).contributor_order()),
            final(self).wf(),
            cancel_error(old(self), caller, id) matches Some(e) ==> r == Err::<Receipt, ContractError>(e)
                && *final(self) == *old(self),
            cancel_error(old(self), caller, id) is None ==> {
                let b = old(self).bounty(old(self).index_of(id)->0);
                &&& r matches Ok(receipt)
                    && receipt.transfers@ == seq![Transfer { token: b.reward_token, from: old(self).address(), to: b.creator, amount: b.reward_amount }]
                    && receipt.events@ == seq![ContractEvent::BountyCancelled { id, caller }]
                &&& final(self).status_changed(old(self), old(self).index_of(id)->0, BountyStatus::Cancelled)
            },
            r matches Ok(receipt) ==> escrow_released(old(self), final(self), receipt.transfers@),
    {
        let i = match self.find_bounty(&id) {
            Some(i) => i,
            None => {
                return Err(ContractError::BountyNotFound);
            },
        };
        if caller != self.bounties[i].creator {
            return Err(ContractError::NotBountyCreator);
        }
        // Terminal statuses can never be cancelled (or re-cancelled).
        let status = self.bounties[i].status;
        if status == BountyStatus::Completed || status == BountyStatus::Cancelled {
            return Err(ContractError::BountyNotOpen);
        }
        if status != BountyStatus::Open {
            return Err(ContractError::BountyNotOpen);
        }
        // Refund the escrowed reward before the status changes.
        let refund = Transfer {
            token: self.bounties[i].reward_token,
            from: self.contract_address,
            to: self.bounties[i].creator,
            amount: self.bounties[i].reward_amount,
        };
        self.move_status(i, BountyStatus::Cancelled);
        let mut transfers: Vec<Transfer> = Vec::new();
        transfers.push(refund);
        let mut events: Vec<ContractEvent> = Vec::new();
        events.push(ContractEvent::BountyCancelled { id, caller });
        assert(events@ =~= seq![ContractEvent::BountyCancelled { id, caller }]);
        assert(transfers@ =~= seq![refund]);
        proof {
            self.lemma_escrow_status_moved(old(self), i as int, BountyStatus::Cancelled);
            assert forall|tok: Address| #[trigger] self.escrowed(tok) == old(self).escrowed(tok) - paid_from(
                transfers@,
                old(self).address(),
                tok,
            ) by {
                lemma_paid_from_single(refund, old(self).address(), tok);
            }
        }
        Ok(Receipt { transfers, events })
    }

    /// Anyone expires an open bounty whose deadline has passed: the escrowed
    /// reward goes back to the creator and the bounty moves to `cancelled`.
    pub fn expire_bounty(&mut self, ledger_sequence: u32, caller: Address, id: BountyId) -> (r: Result<Receipt, ContractError>)
        requires
            old(self).wf(),
            expire_error(old(self), ledger_sequence, id) is None ==> old(self).index_has_room(BountyStatus::Cancelled),
        ensures
            order_extends(old(self).contributor_order(), final(self).contributor_order()),
            final(self).wf(),
            expire_error(old(self), ledger_sequence, id) matches Some(e) ==> r == Err::<Receipt, ContractError>(e)
                && *final(self) == *old(self),
            expire_error(old(self), ledger_sequence, id) is None ==> {
                let b = old(self).bounty(old(self).index_of(id)->0);
                &&& r matches Ok(receipt)
                    && receipt.transfers@ == seq![Transfer { token: b.reward_token, from: old(self).address(), to: b.creator, amount: b.reward_amount }]
                    && receipt.events@ == seq![ContractEvent::BountyExpired { id, creator: b.creator }]
                &&& final(self).status_changed(old(self), old(self).index_of(id)->0, BountyStatus::Cancelled)
            },
            r matches Ok(receipt) ==> escrow_released(old(self), final(self), receipt.transfers@),
    {
        let i = match self.find_bounty(&id) {
            Some(i) => i,
            None => {
                return Err(ContractError::BountyNotFound);
            },
        };
        let deadline = match self.bounties[i].deadline {
            Some(d) => d,
            None => {
                return Err(ContractError::BountyNoDeadline);
            },
        };
        if ledger_sequence <= deadline {
            return Err(ContractError::DeadlineNotPassed);
        }
        if self.bounties[i].status != BountyStatus::Open {
            return Err(ContractError::BountyNotOpen);
        }
        let creator = self.bounties[i].creator;
        let refund = Transfer {
            token: self.bounties[i].reward_token,
            from: self.contract_address,
            to: creator,
            amount: self.bounties[i].reward_amount,
        };
        self.move_status(i, BountyStatus::Cancelled);
        let mut transfers: Vec<Transfer> = Vec::new();
        transfers.push(refund);
        let mut events: Vec<ContractEvent> = Vec::new();
        events.push(ContractEvent::BountyExpired { id, creator });
        assert(events@ =~= seq![ContractEvent::BountyExpired { id, creator }]);
        assert(transfers@ =~= seq![refund]);
        proof {
            self.lemma_escrow_status_moved(old(self), i as int, BountyStatus::Cancelled);
            assert forall|tok: Address| #[trigger] self.escrowed(tok) == old(self).escrowed(tok) - paid_from(
                transfers@,
                old(self).address(),
                tok,
            ) by {
                lemma_paid_from_single(refund, old(self).address(), tok);
            }
        }
        Ok(Receipt { transfers, events })
    }

    /// Set the metadata URI of `contributor`'s profile (creating the profile
    /// if needed). An empty URI is refused.
    pub fn update_contributor_metadata(&mut self, contributor: Address, metadata: String) -> (r: Result<(), ContractError>)
        requires
            old(self).wf(),
        ensures
            order_extends(old(self).contributor_order(), final(self).contributor_order()),
            final(self).wf(),
            metadata@.len() == 0 ==> r == Err::<(), ContractError>(ContractError::MetadataEmpty)
                && *final(self) == *old(self),
            metadata@.len() > 0 ==> {
                let c = old(self).contributor_or_fresh(contributor);
                &&& r is Ok
                &&& final(self).contributor_map() == old(self).contributor_map().insert(
                    contributor,
                    Contributor { metadata: Some(metadata), ..c },
                )
                &&& final(self).ranked_order() == old(self).ranked_order()
                &&& final(self).address() == old(self).address()
                &&& final(self).count() == old(self).count()
                &&& forall|j: int| 0 <= j < old(self).count() ==> #[trigger] final(self).bounty(j) == old(self).bounty(j)
                    && final(self).meta(j) == old(self).meta(j) && final(self).approvals_of(j) == old(self).approvals_of(j)
                &&& forall|s: BountyStatus| #[trigger] final(self).status_list(s) == old(self).status_list(s)
                &&& final(self).open_list() == old(self).open_list()
                &&& forall|a: Address| #[trigger] final(self).creator_list(a) == old(self).creator_list(a)
                &&& forall|a: Address| #[trigger] final(self).history(a) == old(self).history(a)
            },
    {
        if metadata.as_str().is_empty() {
            return Err(ContractError::MetadataEmpty);
        }
        let mut profile = self.load_contributor(contributor);
        profile.metadata = Some(metadata);
        let ghost before = *self;
        self.contributors.set(contributor, profile);
        proof {
            self.lemma_creators_kept(&before);
            assert forall|s: BountyStatus, x: BountyId| #[trigger]
                self.status_list(s).contains(x) <==> self.has_status(x, s) by {
                assert(self.status_list(s) == before.status_list(s));
                assert(self.has_status(x, s) == before.has_status(x, s));
            }
            assert forall|x: BountyId| #[trigger] self.open_list().contains(x) implies self.index_of(x) is Some by {
                assert(before.open_list().contains(x));
            }
            assert forall|j: int| 0 <= j < self.bounty_count implies #[trigger] assignees_wf(self.bounties@[j]) by {
                assert(assignees_wf(before.bounties@[j]));
            }
            assert forall|s: BountyStatus| #[trigger] self.status_list(s) == old(self).status_list(s) by {}
            assert forall|a: Address| #[trigger] self.creator_list(a) == old(self).creator_list(a) by {}
            assert forall|a: Address| #[trigger] self.history(a) == old(self).history(a) by {}
        }
        Ok(())
    }

    /// Whether paying out `reward` to the assignees of bounty `i` fits.
    fn payout_fits(&self, i: usize, reward: i128) -> (ok: bool)
        requires
            self.wf(),
            i < self.count(),
        ensures
            ok == !payout_overflows(self, self.bounty(i as int), reward),
    {
        let ghost b = self.bounty(i as int);
        let n = self.bounties[i].assignees.len();
        let mut k: usize = 0;
        while k < n
            invariant
                self.wf(),
                i < self.count(),
                b == self.bounty(i as int),
                n == b.assignees@.len(),
                k <= n,
                forall|l: int| 0 <= l < k ==> !#[trigger] payout_overflows_at(self, b, reward, l),
            decreases n - k,
        {
            let (a, share) = self.bounties[i].assignees[k];
            let profile = self.load_contributor(a);
            let product = reward.checked_mul(share as i128);
            match product {
                None => {
                    assert(payout_overflows_at(self, b, reward, k as int));
                    return false;
                },
                Some(prod) => {
                    let amount = match prod.checked_div(10_000) {
                        Some(q) => q,
                        None => 0,
                    };
                    assert(amount == payout_amount(reward, share));
                    if profile.reputation > u32::MAX - 10 || profile.contribution_count == u32::MAX
                        || profile.total_earned.checked_add(amount).is_none() {
                        assert(payout_overflows_at(self, b, reward, k as int));
                        return false;
                    }
                },
            }
            k = k + 1;
        }
        true
    }

    /// Pay each assignee of bounty `i` its share of `reward` from `from`:
    /// one transfer and one `reward_paid` event per assignee, and the
    /// assignee's profile credited.
    fn pay_out(
        &mut self,
        i: usize,
        from: Address,
        reward: i128,
        transfers: &mut Vec<Transfer>,
        events: &mut Vec<ContractEvent>,
    )
        requires
            old(self).wf(),
            i < old(self).count(),
            !payout_overflows(old(self), old(self).bounty(i as int), reward),
        ensures
            order_extends(old(self).contributor_order(), final(self).contributor_order()),
            final(self).wf(),
            contributors_paid(final(self).contributor_map(), old(self), old(self).bounty(i as int), reward),
            final(transfers)@ == old(transfers)@ + payout_transfers(old(self).bounty(i as int), from, reward),
            final(events)@ == old(events)@ + payout_events(BountyId::spec_from_sequence(i as u64), old(self).bounty(i as int), reward),
            final(self).ranked@ == rank_after_payout(old(self).ranked@, old(self).bounty(i as int).assignees@),
            final(self).contract_address == old(self).contract_address,
            final(self).bounty_count == old(self).bounty_count,
            final(self).bounties == old(self).bounties,
            final(self).metas == old(self).metas,
            final(self).approvals == old(self).approvals,
            final(self).creator_bounties == old(self).creator_bounties,
            final(self).histories == old(self).histories,
            final(self).open_bounties == old(self).open_bounties,
            final(self).open_status == old(self).open_status,
            final(self).in_progress_status == old(self).in_progress_status,
            final(self).completed_status == old(self).completed_status,
            final(self).cancelled_status == old(self).cancelled_status,
            final(self).disputed_status == old(self).disputed_status,
    {
        let id = BountyId::from_sequence(i as u64);
        let ghost b = old(self).bounty(i as int);
        let ghost st = *old(self);
        proof {
            assert(assignees_wf(b));
        }
        let n = self.bounties[i].assignees.len();
        let token = self.bounties[i].reward_token;
        let mut k: usize = 0;
        while k < n
            invariant
                self.wf(),
                i < self.count(),
                b == st.bounty(i as int),
                assignees_wf(b),
                !payout_overflows(&st, b, reward),
                n == b.assignees@.len(),
                token == b.reward_token,
                id == BountyId::spec_from_sequence(i as u64),
                k <= n,
                forall|a: Address| #[trigger] self.contributor_map().contains_key(a) == (st.contributor_map().contains_key(a)
                    || exists|l: int| 0 <= l < k && #[trigger] b.assignees@[l].0 == a),
                forall|l: int| 0 <= l < k ==> self.contributor_map()[#[trigger] b.assignees@[l].0] == paid_profile(
                    st.contributor_or_fresh(b.assignees@[l].0),
                    payout_amount(reward, b.assignees@[l].1),
                ),
                forall|a: Address| (!exists|l: int| 0 <= l < k && #[trigger] b.assignees@[l].0 == a) && st.contributor_map().contains_key(a)
                    ==> #[trigger] self.contributor_map()[a] == st.contributor_map()[a],
                order_extends(st.contributor_order(), self.contributor_order()),
                self.ranked@ == rank_after_payout(st.ranked@, b.assignees@.take(k as int)),
                transfers@ == old(transfers)@ + payout_transfers(b, from, reward).take(k as int),
                events@ == old(events)@ + payout_events(id, b, reward).take(k as int),
                self.contract_address == st.contract_address,
                self.bounty_count == st.bounty_count,
                self.bounties == st.bounties,
                self.metas == st.metas,
                self.approvals == st.approvals,
                self.creator_bounties == st.creator_bounties,
                self.histories == st.histories,
                self.open_bounties == st.open_bounties,
                self.open_status == st.open_status,
                self.in_progress_status == st.in_progress_status,
                self.completed_status == st.completed_status,
                self.cancelled_status == st.cancelled_status,
                self.disputed_status == st.disputed_status,
            decreases n - k,
        {
            let (a, share) = self.bounties[i].assignees[k];
            proof {
                assert(!payout_overflows_at(&st, b, reward, k as int));
                // `a` has not been paid yet: assignees are distinct.
                assert(!exists|l: int| 0 <= l < k && #[trigger] b.assignees@[l].0 == a) by {
                    if exists|l: int| 0 <= l < k && #[trigger] b.assignees@[l].0 == a {
                        let l = choose|l: int| 0 <= l < k && #[trigger] b.assignees@[l].0 == a;
                        assert(b.assignees@[l].0 != b.assignees@[k as int].0);
                    }
                }
            }
            let mut profile = self.load_contributor(a);
            proof {
                assert(profile == st.contributor_or_fresh(a));
            }
            let prod = reward * (share as i128);
            let amount = match prod.checked_div(10_000) {
                Some(q) => q,
                None => 0,
            };
            assert(amount == payout_amount(reward, share));
            transfers.push(Transfer { token, from, to: a, amount });
            profile.reputation = profile.reputation + 10;
            profile.total_earned = profile.total_earned + amount;
            profile.contribution_count = profile.contribution_count + 1;
            if profile.active_claims > 0 {
                profile.active_claims = profile.active_claims - 1;
            }
            let ghost before = *self;
            self.contributors.set(a, profile);
            if !address_in(&self.ranked, &a) {
                self.ranked.push(a);
            }
            events.push(ContractEvent::RewardPaid { id, assignee: a, amount });
            proof {
                assert(transfers@ =~= old(transfers)@ + payout_transfers(b, from, reward).take(k as int + 1));
                assert(events@ =~= old(events)@ + payout_events(id, b, reward).take(k as int + 1));
                assert forall|x: Address| #[trigger] self.contributor_map().contains_key(x) == (st.contributor_map().contains_key(x)
                    || exists|l: int| 0 <= l < k + 1 && #[trigger] b.assignees@[l].0 == x) by {
                    if x == a {
                        assert(b.assignees@[k as int].0 == x);
                    } else if exists|l: int| 0 <= l < k + 1 && #[trigger] b.assignees@[l].0 == x {
                        let l = choose|l: int| 0 <= l < k + 1 && #[trigger] b.assignees@[l].0 == x;
                        assert(l < k);
                    }
                }
                assert forall|l: int| 0 <= l < k + 1 implies self.contributor_map()[#[trigger] b.assignees@[l].0] == paid_profile(
                    st.contributor_or_fresh(b.assignees@[l].0),
                    payout_amount(reward, b.assignees@[l].1),
                ) by {
                    if l < k {
                        assert(b.assignees@[l].0 != a);
                    }
                }
                assert forall|x: Address| (!exists|l: int| 0 <= l < k + 1 && #[trigger] b.assignees@[l].0 == x) && st.contributor_map().contains_key(x)
                    implies #[trigger] self.contributor_map()[x] == st.contributor_map()[x] by {
                    assert(x != a) by {
                        if x == a {
                            assert(b.assignees@[k as int].0 == x);
                        }
                    }
                    assert(!exists|l: int| 0 <= l < k && #[trigger] b.assignees@[l].0 == x) by {
                        if exists|l: int| 0 <= l < k && #[trigger] b.assignees@[l].0 == x {
                            let l = choose|l: int| 0 <= l < k && #[trigger] b.assignees@[l].0 == x;
                            assert(0 <= l < k + 1 && b.assignees@[l].0 == x);
                        }
                    }
                }
                assert(self.wf()) by {
                    self.lemma_creators_kept(&before);
                    assert forall|s: BountyStatus, x: BountyId| #[trigger]
                        self.status_list(s).contains(x) <==> self.has_status(x, s) by {
                        assert(self.status_list(s) == before.status_list(s));
                        assert(self.has_status(x, s) == before.has_status(x, s));
                    }
                    assert forall|x: BountyId| #[trigger] self.open_list().contains(x) implies self.index_of(x) is Some by {
                        assert(before.open_list().contains(x));
                    }
                    assert forall|j: int| 0 <= j < self.bounty_count implies #[trigger] assignees_wf(self.bounties@[j]) by {
                        assert(assignees_wf(before.bounties@[j]));
                    }
                    if !before.ranked@.contains(a) {
                        lemma_push_no_dup(before.ranked@, a);
                    }
                    assert forall|x: Address| #[trigger] self.ranked@.contains(x) implies self.contributors@.contains_key(x) by {
                        if x != a {
                            if !before.ranked@.contains(a) {
                                let q = choose|q: int| 0 <= q < self.ranked@.len() && self.ranked@[q] == x;
                                assert(q < before.ranked@.len());
                                assert(before.ranked@[q] == x);
                            }
                            assert(before.ranked@.contains(x));
                            assert(before.contributors@.contains_key(x));
                        }
                    }
                }
                assert(b.assignees@.take(k as int + 1).drop_last() =~= b.assignees@.take(k as int));
                assert(b.assignees@.take(k as int + 1).last() == b.assignees@[k as int]);
            }
            k = k + 1;
        }
        proof {
            assert(b.assignees@.take(n as int) =~= b.assignees@);
            assert(payout_transfers(b, from, reward).take(n as int) =~= payout_transfers(b, from, reward));
            assert(payout_events(id, b, reward).take(n as int) =~= payout_events(id, b, reward));
            assert forall|x: Address| #[trigger] self.contributor_map().contains_key(x) == (st.contributor_map().contains_key(x) || is_assignee(b, x)) by {
                if is_assignee(b, x) {
                    let l = choose|l: int| 0 <= l < b.assignees@.len() && #[trigger] b.assignees@[l].0 == x;
                    assert(0 <= l < n && b.assignees@[l].0 == x);
                }
            }
            assert forall|x: Address| !is_assignee(b, x) && st.contributor_map().contains_key(x) implies #[trigger] self.contributor_map()[x] == st.contributor_map()[x] by {
                if exists|l: int| 0 <= l < n && #[trigger] b.assignees@[l].0 == x {
                    let l = choose|l: int| 0 <= l < n && #[trigger] b.assignees@[l].0 == x;
                    assert(is_assignee(b, x));
                }
            }
        }
    }

    /// `self` is `old` after bounty `i` moved to `completed`: a bounty with
    /// milestones (all paid already) just changes status; otherwise each
    /// assignee's profile is also credited with its share of the reward
    /// (see [`settle_transfers`] and [`settle_events`] for the payments).
    pub open spec fn settled(&self, old: &MergeMintContract, i: int) -> bool {
        let b = old.bounty(i);
        if b.milestones@.len() > 0 {
            self.status_changed(old, i, BountyStatus::Completed)
        } else {
            &&& self.status_moved(old, i, BountyStatus::Completed)
            &&& contributors_paid(self.contributor_map(), old, b, b.reward_amount)
            &&& self.ranked_order() == rank_after_payout(old.ranked_order(), b.assignees@)
        }
    }

    /// Whether every milestone of bounty `i` is completed.
    fn milestones_done(&self, i: usize) -> (r: bool)
        requires
            i < self.bounties@.len(),
        ensures
            r == all_milestones_done(self.bounties@[i as int]),
    {
        let n = self.bounties[i].milestones.len();
        let mut k: usize = 0;
        while k < n
            invariant
                i < self.bounties@.len(),
                n == self.bounties@[i as int].milestones@.len(),
                k <= n,
                forall|l: int| 0 <= l < k ==> #[trigger] self.bounties@[i as int].milestones@[l].completed,
            decreases n - k,
        {
            if !self.bounties[i].milestones[k].completed {
                return false;
            }
            k = k + 1;
        }
        true
    }

    /// Move bounty `i` to `completed`, paying its assignees from `from`
    /// unless it is paid by milestones.
    fn settle(&mut self, i: usize, from: Address) -> (r: (Vec<Transfer>, Vec<ContractEvent>))
        requires
            old(self).wf(),
            i < old(self).count(),
            old(self).bounty(i as int).milestones@.len() == 0 ==> !payout_overflows(old(self), old(self).bounty(i as int), old(self).bounty(i as int).reward_amount),
            old(self).bounty(i as int).status != BountyStatus::Completed,
            old(self).index_has_room(BountyStatus::Completed),
        ensures
            order_extends(old(self).contributor_order(), final(self).contributor_order()),
            final(self).wf(),
            final(self).settled(old(self), i as int),
            r.0@ == settle_transfers(old(self).bounty(i as int), from),
            r.1@ == settle_events(BountyId::spec_from_sequence(i as u64), old(self).bounty(i as int)),
    {
        let mut transfers: Vec<Transfer> = Vec::new();
        let mut events: Vec<ContractEvent> = Vec::new();
        if self.bounties[i].milestones.len() > 0 {
            self.move_status(i, BountyStatus::Completed);
            assert(transfers@ =~= Seq::<Transfer>::empty());
            return (transfers, events);
        }
        let reward = self.bounties[i].reward_amount;
        self.pay_out(i, from, reward, &mut transfers, &mut events);
        let ghost paid = *self;
        self.move_status(i, BountyStatus::Completed);
        proof {
            let ii = i as int;
            let id = BountyId::spec_from_sequence(i as u64);
            let b = old(self).bounty(ii);
            assert(transfers@ =~= payout_transfers(b, from, reward));
            assert(events@ =~= payout_events(id, b, reward));
            assert(paid.bounty(ii) == b);
            assert forall|j: int| 0 <= j < old(self).count() && j != ii implies #[trigger] self.bounty(j) == old(self).bounty(j) by {
                assert(self.bounty(j) == paid.bounty(j));
            }
            assert forall|j: int| 0 <= j < old(self).count() implies #[trigger] self.meta(j) == old(self).meta(j)
                && self.approvals_of(j) == old(self).approvals_of(j) by {
                assert(self.meta(j) == paid.meta(j));
                assert(self.approvals_of(j) == paid.approvals_of(j));
            }
            assert forall|t: BountyStatus| #[trigger] paid.status_list(t) == old(self).status_list(t) by {}
            assert(self.lists_moved(old(self), id, b.status, BountyStatus::Completed));
            assert forall|a: Address| #[trigger] paid.history(a) == old(self).history(a) by {}
            assert(self.histories_moved(old(self), id, b, b.status, BountyStatus::Completed));
            assert forall|a: Address| #[trigger] self.creator_list(a) == old(self).creator_list(a) by {
                assert(self.creator_list(a) == paid.creator_list(a));
            }
        }
        (transfers, events)
    }

    /// Complete an in-progress bounty: a milestone bounty needs every
    /// milestone completed and pays nothing more; otherwise each assignee is
    /// paid its share from the contract. Emits `bounty_completed` for the
    /// first assignee.
    fn complete_inner(&mut self, i: usize) -> (r: Result<Receipt, ContractError>)
        requires
            old(self).wf(),
            completion_error(old(self), i as int) is None ==> old(self).index_has_room(BountyStatus::Completed),
            i < old(self).count(),
        ensures
            order_extends(old(self).contributor_order(), final(self).contributor_order()),
            final(self).wf(),
            completion_error(old(self), i as int) matches Some(e) ==> r == Err::<Receipt, ContractError>(e)
                && *final(self) == *old(self),
            completion_error(old(self), i as int) is None ==> {
                let b = old(self).bounty(i as int);
                let id = BountyId::spec_from_sequence(i as u64);
                &&& r matches Ok(receipt)
                    && receipt.transfers@ == settle_transfers(b, old(self).address())
                    && receipt.events@ == settle_events(id, b).push(ContractEvent::BountyCompleted { id, assignee: b.assignees@[0].0 })
                &&& final(self).settled(old(self), i as int)
            },
            r matches Ok(receipt) ==> escrow_released_at_most(old(self), final(self), receipt.transfers@),
    {
        if self.bounties[i].status != BountyStatus::InProgress {
            return Err(ContractError::BountyNotInProgress);
        }
        if self.bounties[i].assignees.len() == 0 {
            return Err(ContractError::BountyHasNoAssignee);
        }
        if self.bounties[i].milestones.len() > 0 {
            if !self.milestones_done(i) {
                return Err(ContractError::NotAllMilestonesCompleted);
            }
        } else if !self.payout_fits(i, self.bounties[i].reward_amount) {
            return Err(ContractError::RewardAmountOverflow);
        }
        let primary = self.bounties[i].assignees[0].0;
        let id = BountyId::from_sequence(i as u64);
        let from = self.contract_address;
        let (transfers, mut events) = self.settle(i, from);
        let ghost evs = events@;
        events.push(ContractEvent::BountyCompleted { id, assignee: primary });
        proof {
            self.lemma_escrow_settled(old(self), i as int, from, from);
        }
        Ok(Receipt { transfers, events })
    }

    /// `verifier` (not an assignee) completes an in-progress bounty; see
    /// [`Self::settled`] for what changes. A disputed bounty must be
    /// resolved first.
    pub fn complete_bounty(&mut self, verifier: Address, id: BountyId) -> (r: Result<Receipt, ContractError>)
        requires
            old(self).wf(),
            complete_error(old(self), verifier, id) is None ==> old(self).index_has_room(BountyStatus::Completed),
        ensures
            order_extends(old(self).contributor_order(), final(self).contributor_order()),
            final(self).wf(),
            complete_error(old(self), verifier, id) matches Some(e) ==> r == Err::<Receipt, ContractError>(e)
                && *final(self) == *old(self),
            complete_error(old(self), verifier, id) is None ==> {
                let i = old(self).index_of(id)->0;
                let b = old(self).bounty(i);
                &&& r matches Ok(receipt)
                    && receipt.transfers@ == settle_transfers(b, old(self).address())
                    && receipt.events@ == settle_events(id, b).push(ContractEvent::BountyCompleted { id, assignee: b.assignees@[0].0 })
                &&& final(self).settled(old(self), i)
            },
            r matches Ok(receipt) ==> escrow_released_at_most(old(self), final(self), receipt.transfers@),
    {
        let i = match self.find_bounty(&id) {
            Some(i) => i,
            None => {
                return Err(ContractError::BountyNotFound);
            },
        };
        let status = self.bounties[i].status;
        // A disputed bounty must go through resolve_dispute.
        if status == BountyStatus::Disputed {
            return Err(ContractError::BountyIsDisputed);
        }
        // Blocks double completion and every other non-in-progress state.
        if status != BountyStatus::InProgress {
            return Err(ContractError::BountyNotInProgress);
        }
        if self.bounties[i].assignees.len() == 0 {
            return Err(ContractError::BountyHasNoAssignee);
        }
        // The verifier must be independent of the assignees.
        if assignee_position(&self.bounties[i], &verifier).is_some() {
            return Err(ContractError::VerifierCannotBeAssignee);
        }
        self.complete_inner(i)
    }

    /// `self` is `old` with `verifier` appended to the approvals of bounty
    /// `i` and nothing else changed.
    pub open spec fn approval_recorded(&self, old: &MergeMintContract, i: int, verifier: Address) -> bool {
        &&& self.address() == old.address()
        &&& self.count() == old.count()
        &&& forall|j: int| 0 <= j < old.count() ==> #[trigger] self.bounty(j) == old.bounty(j) && self.meta(j) == old.meta(j)
        &&& self.approvals_of(i) == old.approvals_of(i).push(verifier)
        &&& forall|j: int| 0 <= j < old.count() && j != i ==> #[trigger] self.approvals_of(j) == old.approvals_of(j)
        &&& forall|s: BountyStatus| #[trigger] self.status_list(s) == old.status_list(s)
        &&& self.open_list() == old.open_list()
        &&& forall|a: Address| #[trigger] self.creator_list(a) == old.creator_list(a)
        &&& forall|a: Address| #[trigger] self.history(a) == old.history(a)
        &&& self.contributor_map() == old.contributor_map()
        &&& self.ranked_order() == old.ranked_order()
    }

    /// `verifier` (not an assignee) completes milestone `index` of an
    /// in-progress bounty: the milestone is marked completed and each
    /// assignee is paid its share of the milestone reward from the
    /// verifier's wallet.
    pub fn complete_milestone(&mut self, verifier: Address, id: BountyId, index: u32) -> (r: Result<Receipt, ContractError>)
        requires
            old(self).wf(),
        ensures
            order_extends(old(self).contributor_order(), final(self).contributor_order()),
            final(self).wf(),
            milestone_error(old(self), verifier, id, index) matches Some(e) ==> r == Err::<Receipt, ContractError>(e)
                && *final(self) == *old(self),
            milestone_error(old(self), verifier, id, index) is None ==> {
                let i = old(self).index_of(id)->0;
                let b = old(self).bounty(i);
                let m = b.milestones@[index as int];
                &&& r matches Ok(receipt)
                    && receipt.transfers@ == payout_transfers(b, verifier, m.reward)
                    && receipt.events@ == payout_events(id, b, m.reward).push(
                        ContractEvent::MilestoneCompleted { id, index, reward: m.reward },
                    )
                &&& final(self).bounty(i).milestones@ == b.milestones@.update(index as int, Milestone { completed: true, ..m })
                &&& final(self).bounty(i) == (Bounty { milestones: final(self).bounty(i).milestones, ..b })
                &&& contributors_paid(final(self).contributor_map(), old(self), b, m.reward)
                &&& final(self).ranked_order() == rank_after_payout(old(self).ranked_order(), b.assignees@)
                &&& final(self).address() == old(self).address()
                &&& final(self).count() == old(self).count()
                &&& forall|j: int| 0 <= j < old(self).count() && j != i ==> #[trigger] final(self).bounty(j) == old(self).bounty(j)
                &&& forall|j: int| 0 <= j < old(self).count() ==> #[trigger] final(self).meta(j) == old(self).meta(j)
                    && final(self).approvals_of(j) == old(self).approvals_of(j)
                &&& forall|s: BountyStatus| #[trigger] final(self).status_list(s) == old(self).status_list(s)
                &&& final(self).open_list() == old(self).open_list()
                &&& forall|a: Address| #[trigger] final(self).creator_list(a) == old(self).creator_list(a)
                &&& forall|a: Address| #[trigger] final(self).history(a) == old(self).history(a)
            },
            verifier != old(self).address() ==> (r matches Ok(receipt) ==> escrow_released(
                old(self),
                final(self),
                receipt.transfers@,
            )),
    {
        let i = match self.find_bounty(&id) {
            Some(i) => i,
            None => {
                return Err(ContractError::BountyNotFound);
            },
        };
        if self.bounties[i].status != BountyStatus::InProgress {
            return Err(ContractError::BountyNotInProgress);
        }
        if self.bounties[i].assignees.len() == 0 {
            return Err(ContractError::BountyHasNoAssignee);
        }
        let idx = index as usize;
        if idx >= self.bounties[i].milestones.len() {
            return Err(ContractError::InvalidMilestoneIndex);
        }
        if self.bounties[i].milestones[idx].completed {
            return Err(ContractError::MilestoneAlreadyCompleted);
        }
        if assignee_position(&self.bounties[i], &verifier).is_some() {
            return Err(ContractError::VerifierCannotBeAssignee);
        }
        let reward = self.bounties[i].milestones[idx].reward;
        if !self.payout_fits(i, reward) {
            return Err(ContractError::RewardAmountOverflow);
        }
        let ghost b = self.bounties@[i as int];
        self.bounties[i].milestones[idx].completed = true;
        proof {
            assert(self.bounties@[i as int].assignees == b.assignees);
            assert(assignees_wf(b));
            assert(milestones_sum_to_reward(b));
            lemma_prefix_sum_mark_completed(b.milestones@, idx as int, b.milestones@.len() as int);
            self.lemma_assignees_edit_wf(old(self), i as int);
            assert forall|k: int| 0 <= k < b.assignees@.len() implies #[trigger] payout_overflows_at(self, self.bounty(i as int), reward, k)
                == payout_overflows_at(old(self), b, reward, k) by {}
        }
        let ghost edited = *self;
        let mut transfers: Vec<Transfer> = Vec::new();
        let mut events: Vec<ContractEvent> = Vec::new();
        let from = verifier;
        self.pay_out(i, from, reward, &mut transfers, &mut events);
        events.push(ContractEvent::MilestoneCompleted { id, index, reward });
        proof {
            let ii = i as int;
            assert(edited.bounty(ii).assignees == b.assignees);
            assert(edited.bounty(ii).reward_token == b.reward_token);
            assert(payout_transfers(edited.bounty(ii), from, reward) =~= payout_transfers(b, from, reward));
            assert(payout_events(id, edited.bounty(ii), reward) =~= payout_events(id, b, reward));
            assert forall|x: Address| #[trigger] edited.contributor_or_fresh(x) == old(self).contributor_or_fresh(x) by {}
            assert forall|x: Address| is_assignee(edited.bounty(ii), x) == is_assignee(b, x) by {}
            assert forall|j: int| 0 <= j < old(self).count() && j != ii implies #[trigger] self.bounty(j) == old(self).bounty(j) by {}
            assert forall|j: int| 0 <= j < old(self).count() implies #[trigger] self.meta(j) == old(self).meta(j)
                && self.approvals_of(j) == old(self).approvals_of(j) by {}
            assert forall|t: BountyStatus| #[trigger] self.status_list(t) == old(self).status_list(t) by {}
            assert forall|a: Address| #[trigger] self.creator_list(a) == old(self).creator_list(a) by {}
            assert forall|a: Address| #[trigger] self.history(a) == old(self).history(a) by {}
            if verifier != old(self).address() {
                let ts = payout_transfers(b, from, reward);
                assert forall|tok: Address| #[trigger] self.escrowed(tok) == old(self).escrowed(tok) - paid_from(
                    transfers@,
                    old(self).address(),
                    tok,
                ) by {
                    self.lemma_escrow_one_changed(old(self), ii, tok, old(self).count() as int);
                    assert forall|k: int| 0 <= k < ts.len() implies #[trigger] ts[k].from != old(self).address() by {}
                    lemma_paid_from_none(ts, old(self).address(), tok);
                }
            }
        }
        Ok(Receipt { transfers, events })
    }

    /// `verifier` approves completion of bounty `id`.
    ///
    /// Without a required-verifier list this completes the bounty directly
    /// (as `complete_bounty`, status permitting). With one, the verifier must
    /// be listed and not have approved before; its approval is recorded, and
    /// once the approvals reach the threshold the bounty completes (and is
    /// paid, unless paid by milestones). Only an in-progress bounty can be
    /// approved.
    pub fn approve_completion(&mut self, verifier: Address, id: BountyId) -> (r: Result<Receipt, ContractError>)
        requires
            old(self).wf(),
            approve_error(old(self), verifier, id) is None && approval_completes(old(self), id) ==> old(self).index_has_room(
                BountyStatus::Completed,
            ),
        ensures
            order_extends(old(self).contributor_order(), final(self).contributor_order()),
            final(self).wf(),
            approve_error(old(self), verifier, id) matches Some(e) ==> r == Err::<Receipt, ContractError>(e)
                && *final(self) == *old(self),
            approve_error(old(self), verifier, id) is None ==> {
                let i = old(self).index_of(id)->0;
                let b = old(self).bounty(i);
                let completion = ContractEvent::BountyCompleted { id, assignee: b.assignees@[0].0 };
                r matches Ok(receipt) && if b.required_verifiers is None {
                    &&& final(self).settled(old(self), i)
                    &&& receipt.transfers@ == settle_transfers(b, old(self).address())
                    &&& receipt.events@ == settle_events(id, b).push(completion)
                } else {
                    let n = old(self).approvals_of(i).len() + 1;
                    let recorded = ContractEvent::ApprovalRecorded { id, verifier, approvals: n as u64 };
                    if n >= effective_threshold(b) {
                        &&& exists|mid: MergeMintContract| #[trigger] mid.approval_recorded(old(self), i, verifier)
                            && final(self).settled(&mid, i)
                        &&& receipt.transfers@ == settle_transfers(b, old(self).address())
                        &&& receipt.events@ == seq![recorded] + settle_events(id, b).push(completion)
                    } else {
                        &&& final(self).approval_recorded(old(self), i, verifier)
                        &&& receipt.transfers@ == Seq::<Transfer>::empty()
                        &&& receipt.events@ == seq![recorded]
                    }
                }
            },
            r matches Ok(receipt) ==> escrow_released_at_most(old(self), final(self), receipt.transfers@),
    {
        let i = match self.find_bounty(&id) {
            Some(i) => i,
            None => {
                return Err(ContractError::BountyNotFound);
            },
        };
        if self.bounties[i].assignees.len() == 0 {
            return Err(ContractError::BountyHasNoAssignee);
        }
        if assignee_position(&self.bounties[i], &verifier).is_some() {
            return Err(ContractError::VerifierCannotBeAssignee);
        }
        // Only an in-progress bounty can be approved: a completed one is
        // never paid twice.
        if self.bounties[i].status != BountyStatus::InProgress {
            return Err(ContractError::BountyNotInProgress);
        }
        let listed = match &self.bounties[i].required_verifiers {
            None => {
                return self.complete_inner(i);
            },
            Some(required) => address_in(required, &verifier),
        };
        if !listed {
            return Err(ContractError::VerifierNotAuthorized);
        }
        if address_in(&self.approvals[i], &verifier) {
            return Err(ContractError::AlreadyApproved);
        }
        let threshold: u64 = if self.bounties[i].approval_threshold == 0 {
            1
        } else {
            self.bounties[i].approval_threshold as u64
        };
        let reached = self.approvals[i].len() as u64 >= threshold - 1;
        if reached {
            if self.bounties[i].milestones.len() > 0 {
                if !self.milestones_done(i) {
                    return Err(ContractError::NotAllMilestonesCompleted);
                }
            } else if !self.payout_fits(i, self.bounties[i].reward_amount) {
                return Err(ContractError::RewardAmountOverflow);
            }
        }
        self.approvals[i].push(verifier);
        let count = self.approvals[i].len() as u64;
        let ghost mid = *self;
        proof {
            assert(mid.wf()) by {
                mid.lemma_creators_kept(old(self));
                assert forall|s: BountyStatus, x: BountyId| #[trigger]
                    mid.status_list(s).contains(x) <==> mid.has_status(x, s) by {
                    assert(mid.status_list(s) == old(self).status_list(s));
                    assert(mid.has_status(x, s) == old(self).has_status(x, s));
                }
                assert forall|x: BountyId| #[trigger] mid.open_list().contains(x) implies mid.index_of(x) is Some by {
                    assert(old(self).open_list().contains(x));
                }
                assert forall|j: int| 0 <= j < mid.bounty_count implies #[trigger] assignees_wf(mid.bounties@[j]) by {
                    assert(assignees_wf(old(self).bounties@[j]));
                }
            }
            assert(mid.approval_recorded(old(self), i as int, verifier)) by {
                assert forall|j: int| 0 <= j < old(self).count() && j != i as int implies #[trigger] mid.approvals_of(j) == old(self).approvals_of(j) by {}
                assert forall|j: int| 0 <= j < old(self).count() implies #[trigger] mid.bounty(j) == old(self).bounty(j) && mid.meta(j) == old(self).meta(j) by {}
                assert forall|t: BountyStatus| #[trigger] mid.status_list(t) == old(self).status_list(t) by {}
                assert forall|a: Address| #[trigger] mid.creator_list(a) == old(self).creator_list(a) by {}
                assert forall|a: Address| #[trigger] mid.history(a) == old(self).history(a) by {}
            }
            assert forall|k: int| 0 <= k < mid.bounty(i as int).assignees@.len() implies #[trigger] payout_overflows_at(&mid, mid.bounty(i as int), mid.bounty(i as int).reward_amount, k)
                == payout_overflows_at(old(self), old(self).bounty(i as int), old(self).bounty(i as int).reward_amount, k) by {
                assert(mid.contributor_or_fresh(mid.bounty(i as int).assignees@[k].0) == old(self).contributor_or_fresh(mid.bounty(i as int).assignees@[k].0));
            }
        }
        let mut events: Vec<ContractEvent> = Vec::new();
        events.push(ContractEvent::ApprovalRecorded { id, verifier, approvals: count });
        if reached {
            let primary = self.bounties[i].assignees[0].0;
            let from = self.contract_address;
            let (transfers, more) = self.settle(i, from);
            let ghost evs = more@;
            let mut k: usize = 0;
            while k < more.len()
                invariant
                    k <= more@.len(),
                    events@ == seq![ContractEvent::ApprovalRecorded { id, verifier, approvals: count }] + more@.take(k as int),
                decreases more@.len() - k,
            {
                events.push(more[k]);
                k = k + 1;
                assert(events@ =~= seq![ContractEvent::ApprovalRecorded { id, verifier, approvals: count }] + more@.take(k as int));
            }
            events.push(ContractEvent::BountyCompleted { id, assignee: primary });
            proof {
                assert(more@.take(more@.len() as int) =~= more@);
                assert(events@ =~= seq![ContractEvent::ApprovalRecorded { id, verifier, approvals: count }] + evs.push(ContractEvent::BountyCompleted { id, assignee: primary }));
                assert(mid.address() == old(self).address());
                assert(self.settled(&mid, i as int));
                assert(count as int == old(self).approvals_of(i as int).len() + 1);
                self.lemma_escrow_settled(&mid, i as int, from, from);
                assert forall|tok: Address| #[trigger] mid.escrowed(tok) == old(self).escrowed(tok) by {
                    mid.lemma_escrow_one_changed(old(self), i as int, tok, old(self).count() as int);
                }
            }
            Ok(Receipt { transfers, events })
        } else {
            assert(events@ =~= seq![ContractEvent::ApprovalRecorded { id, verifier, approvals: count }]);
            assert(count as int == old(self).approvals_of(i as int).len() + 1);
            assert(self.approval_recorded(old(self), i as int, verifier));
            let transfers: Vec<Transfer> = Vec::new();
            proof {
                assert forall|tok: Address| 0 <= #[trigger] paid_from(transfers@, old(self).address(), tok)
                    <= old(self).escrowed(tok) - self.escrowed(tok) by {
                    self.lemma_escrow_one_changed(old(self), i as int, tok, old(self).count() as int);
                    assert(paid_from(transfers@, old(self).address(), tok) == 0);
                }
            }
            Ok(Receipt { transfers, events })
        }
    }

    /// The creator, as arbitrator, resolves a disputed bounty: `"complete"`
    /// pays the assignees from the arbitrator's own wallet (unless paid by
    /// milestones) and completes the bounty; `"cancel"` refunds the escrowed
    /// reward from the contract to the creator and cancels it. The arbitrator
    /// must meet the bounty's reputation floor.
    pub fn resolve_dispute(&mut self, arbitrator: Address, id: BountyId, resolution: &str) -> (r: Result<Receipt, ContractError>)
        requires
            old(self).wf(),
            resolve_error(old(self), arbitrator, id, resolution@) is None ==> old(self).index_has_room(
                if spec_resolution_of(resolution@) == Some(Resolution::Complete) {
                    BountyStatus::Completed
                } else {
                    BountyStatus::Cancelled
                },
            ),
        ensures
            order_extends(old(self).contributor_order(), final(self).contributor_order()),
            final(self).wf(),
            resolve_error(old(self), arbitrator, id, resolution@) matches Some(e) ==> r == Err::<Receipt, ContractError>(e)
                && *final(self) == *old(self),
            resolve_error(old(self), arbitrator, id, resolution@) is None ==> {
                let i = old(self).index_of(id)->0;
                let b = old(self).bounty(i);
                r matches Ok(receipt) && match spec_resolution_of(resolution@) {
                    Some(Resolution::Complete) => {
                        &&& final(self).settled(old(self), i)
                        &&& receipt.transfers@ == settle_transfers(b, arbitrator)
                        &&& receipt.events@ == settle_events(id, b).push(ContractEvent::DisputeResolved { id, arbitrator, resolution: Resolution::Complete })
                    },
                    _ => {
                        &&& final(self).status_changed(old(self), i, BountyStatus::Cancelled)
                        &&& receipt.transfers@ == seq![Transfer { token: b.reward_token, from: old(self).address(), to: b.creator, amount: b.reward_amount }]
                        &&& receipt.events@ == seq![ContractEvent::DisputeResolved { id, arbitrator, resolution: Resolution::Cancel }]
                    },
                }
            },
            r matches Ok(receipt) ==> escrow_released_at_most(old(self), final(self), receipt.transfers@),
            spec_resolution_of(resolution@) matches Some(Resolution::Cancel) ==> (r matches Ok(receipt) ==> escrow_released(
                old(self),
                final(self),
                receipt.transfers@,
            )),
    {
        let i = match self.find_bounty(&id) {
            Some(i) => i,
            None => {
                return Err(ContractError::BountyNotFound);
            },
        };
        if self.bounties[i].status != BountyStatus::Disputed {
            return Err(ContractError::BountyNotDisputed);
        }
        // The creator arbitrates; there is no separate admin.
        if arbitrator != self.bounties[i].creator {
            return Err(ContractError::NotArbitrator);
        }
        // The arbitrator must meet the bounty's own reputation floor.
        let profile = self.load_contributor(arbitrator);
        let min_reputation = self.bounties[i].min_reputation;
        if min_reputation > 0 && profile.reputation < min_reputation {
            return Err(ContractError::ReputationTooLow);
        }
        let chosen = match resolution_from_symbol(resolution) {
            Ok(res) => res,
            Err(e) => {
                return Err(e);
            },
        };
        match chosen {
            Resolution::Complete => {
                if self.bounties[i].assignees.len() == 0 {
                    return Err(ContractError::BountyHasNoAssignee);
                }
                if self.bounties[i].milestones.len() > 0 {
                    if !self.milestones_done(i) {
                        return Err(ContractError::NotAllMilestonesCompleted);
                    }
                } else if !self.payout_fits(i, self.bounties[i].reward_amount) {
                    return Err(ContractError::RewardAmountOverflow);
                }
                let (transfers, mut events) = self.settle(i, arbitrator);
                events.push(ContractEvent::DisputeResolved { id, arbitrator, resolution: Resolution::Complete });
                proof {
                    self.lemma_escrow_settled(old(self), i as int, arbitrator, old(self).address());
                }
                Ok(Receipt { transfers, events })
            },
            Resolution::Cancel => {
                let refund = Transfer {
                    token: self.bounties[i].reward_token,
                    from: self.contract_address,
                    to: self.bounties[i].creator,
                    amount: self.bounties[i].reward_amount,
                };
                self.move_status(i, BountyStatus::Cancelled);
                let mut transfers: Vec<Transfer> = Vec::new();
                transfers.push(refund);
                let mut events: Vec<ContractEvent> = Vec::new();
                events.push(ContractEvent::DisputeResolved { id, arbitrator, resolution: Resolution::Cancel });
                assert(transfers@ =~= seq![refund]);
                assert(events@ =~= seq![ContractEvent::DisputeResolved { id, arbitrator, resolution: Resolution::Cancel }]);
                proof {
                    self.lemma_escrow_status_moved(old(self), i as int, BountyStatus::Cancelled);
                    assert(reward_positive(old(self).bounties@[i as int]));
                    assert forall|tok: Address| #[trigger] self.escrowed(tok) == old(self).escrowed(tok) - paid_from(
                        transfers@,
                        old(self).address(),
                        tok,
                    ) by {
                        lemma_paid_from_single(refund, old(self).address(), tok);
                    }
                    assert forall|tok: Address| 0 <= #[trigger] paid_from(transfers@, old(self).address(), tok)
                        <= old(self).escrowed(tok) - self.escrowed(tok) by {
                        lemma_paid_from_single(refund, old(self).address(), tok);
                        assert(self.escrowed(tok) == old(self).escrowed(tok) - paid_from(transfers@, old(self).address(), tok));
                    }
                }
                Ok(Receipt { transfers, events })
            },
        }
    }

    /// Whether `id` has the shape of an id the contract hands out and its
    /// sequence is below the bounty count.
    pub fn bounty_id_was_allocated(&self, id: &BountyId) -> (r: bool)
        requires
            self.wf(),
        ensures
            r == (self.index_of(*id) is Some),
    {
        self.find_bounty(id).is_some()
    }

    /// The bounty named `id`, or `None` (never-allocated ids included).
    pub fn get_bounty(&self, id: &BountyId) -> (r: Option<&Bounty>)
        requires
            self.wf(),
        ensures
            r == match self.index_of(*id) {
                Some(i) => Some(&self.bounty(i)),
                None => None::<&Bounty>,
            },
    {
        match self.find_bounty(id) {
            Some(i) => Some(&self.bounties[i]),
            None => None,
        }
    }

    /// Title and description of the bounty named `id`, if it exists.
    pub fn get_bounty_meta(&self, id: &BountyId) -> (r: Option<&BountyMeta>)
        requires
            self.wf(),
        ensures
            r == match self.index_of(*id) {
                Some(i) => Some(&self.meta(i)),
                None => None::<&BountyMeta>,
            },
    {
        match self.find_bounty(id) {
            Some(i) => Some(&self.metas[i]),
            None => None,
        }
    }

    /// The metadata of each of `ids`, in order (`None` for unknown ids).
    pub fn get_bounty_metas(&self, ids: &Vec<BountyId>) -> (r: Vec<Option<&BountyMeta>>)
        requires
            self.wf(),
        ensures
            r@.len() == ids@.len(),
            forall|k: int| 0 <= k < ids@.len() ==> #[trigger] r@[k] == match self.index_of(ids@[k]) {
                Some(i) => Some(&self.meta(i)),
                None => None::<&BountyMeta>,
            },
    {
        let mut result: Vec<Option<&BountyMeta>> = Vec::new();
        let mut k: usize = 0;
        while k < ids.len()
            invariant
                self.wf(),
                k <= ids@.len(),
                result@.len() == k,
                forall|l: int| 0 <= l < k ==> #[trigger] result@[l] == match self.index_of(ids@[l]) {
                    Some(i) => Some(&self.meta(i)),
                    None => None::<&BountyMeta>,
                },
            decreases ids@.len() - k,
        {
            result.push(self.get_bounty_meta(&ids[k]));
            k = k + 1;
        }
        result
    }

    /// Each of `ids`, in order (`None` for unknown ids).
    pub fn get_bounties(&self, ids: &Vec<BountyId>) -> (r: Vec<Option<&Bounty>>)
        requires
            self.wf(),
        ensures
            r@.len() == ids@.len(),
            forall|k: int| 0 <= k < ids@.len() ==> #[trigger] r@[k] == match self.index_of(ids@[k]) {
                Some(i) => Some(&self.bounty(i)),
                None => None::<&Bounty>,
            },
    {
        let mut result: Vec<Option<&Bounty>> = Vec::new();
        let mut k: usize = 0;
        while k < ids.len()
            invariant
                self.wf(),
                k <= ids@.len(),
                result@.len() == k,
                forall|l: int| 0 <= l < k ==> #[trigger] result@[l] == match self.index_of(ids@[l]) {
                    Some(i) => Some(&self.bounty(i)),
                    None => None::<&Bounty>,
                },
            decreases ids@.len() - k,
        {
            result.push(self.get_bounty(&ids[k]));
            k = k + 1;
        }
        result
    }

    /// The profile of `address`, or `None` if it never interacted.
    pub fn get_contributor(&self, address: &Address) -> (r: Option<&Contributor>)
        requires
            self.wf(),
        ensures
            r == if self.contributor_map().contains_key(*address) {
                Some(&self.contributor_map()[*address])
            } else {
                None::<&Contributor>
            },
    {
        self.contributors.get(address)
    }

    /// The contributors in the order they first got a profile.
    pub closed spec fn contributor_order(&self) -> Seq<Address> {
        self.contributors.key_order()
    }

    /// The contributors who have been paid at least once, in the order they
    /// were first paid.
    pub closed spec fn ranked_order(&self) -> Seq<Address> {
        self.ranked@
    }

    /// The profiles of the contributors who have been paid, in the order
    /// they were first paid.
    pub open spec fn profiles_in_order(&self) -> Seq<Contributor> {
        self.ranked_order().map_values(|a: Address| self.contributor_map()[a])
    }

    /// Every contributor who has been paid occurs once in the payment order
    /// and has a profile.
    pub proof fn lemma_ranked_order(&self)
        requires
            self.wf(),
        ensures
            self.ranked_order().no_duplicates(),
            forall|a: Address| #[trigger] self.ranked_order().contains(a) ==> self.contributor_map().contains_key(a),
    {
    }

    /// Every contributor with a profile occurs once in the order.
    pub proof fn lemma_contributor_order(&self)
        requires
            self.wf(),
        ensures
            self.contributor_order().no_duplicates(),
            forall|a: Address| #[trigger]
                self.contributor_order().contains(a) <==> self.contributor_map().contains_key(a),
    {
        self.contributors.lemma_key_order();
    }

    /// The `limit` contributors of highest reputation among those who have
    /// been paid, best first; contributors of equal reputation in the order
    /// they were first paid.
    pub fn get_top_contributors(&self, limit: u32) -> (r: Vec<Contributor>)
        requires
            self.wf(),
        ensures
            r@ == by_reputation(self.profiles_in_order()).take(
                if limit as int <= self.profiles_in_order().len() {
                    limit as int
                } else {
                    self.profiles_in_order().len() as int
                },
            ),
    {
        let n = self.ranked.len();
        let mut profiles: Vec<Contributor> = Vec::new();
        let mut i: usize = 0;
        while i < n
            invariant
                self.wf(),
                n == self.ranked_order().len(),
                i <= n,
                profiles@ == self.profiles_in_order().take(i as int),
            decreases n - i,
        {
            let a = self.ranked[i];
            proof {
                assert(self.ranked@.contains(a));
            }
            let c = match self.contributors.get(&a) {
                Some(p) => copy_contributor(p),
                None => Contributor::new(a),
            };
            proof {
                assert(c == self.profiles_in_order()[i as int]);
                assert(self.profiles_in_order().take(i as int + 1) =~= self.profiles_in_order().take(
                    i as int,
                ).push(c));
            }
            profiles.push(c);
            i = i + 1;
        }
        proof {
            assert(self.profiles_in_order().take(n as int) =~= self.profiles_in_order());
        }
        let mut ranked = rank_by_reputation(profiles);
        proof {
            broadcast use vstd::seq_lib::group_to_multiset_ensures;

            // ranking keeps every profile, so it keeps their number
            crate::contract::ranking::lemma_by_reputation_ranks(self.profiles_in_order());
            assert(by_reputation(self.profiles_in_order()).to_multiset().len()
                == self.profiles_in_order().to_multiset().len());
        }
        let take: usize = if (limit as usize) <= ranked.len() {
            limit as usize
        } else {
            ranked.len()
        };
        ranked.truncate(take);
        ranked
    }

    /// Number of bounties ever created.
    pub fn get_bounty_count(&self) -> (n: u64)
        ensures
            n == self.count(),
    {
        self.bounty_count
    }

    fn status_index(&self, s: BountyStatus) -> (r: &PagedIndex)
        requires
            self.wf(),
        ensures
            r.wf(),
            r@ == self.status_list(s),
            forall|p: int| #[trigger] r.page_at(p) == self.status_index_page(s, p),
    {
        match s {
            BountyStatus::Open => &self.open_status,
            BountyStatus::InProgress => &self.in_progress_status,
            BountyStatus::Completed => &self.completed_status,
            BountyStatus::Cancelled => &self.cancelled_status,
            BountyStatus::Disputed => &self.disputed_status,
        }
    }

    /// A window of the ids in status `status` (see [`paginate`]); an unknown
    /// status is refused with `InvalidStatus`.
    pub fn get_bounties_by_status(&self, status: &str, cursor: Option<u32>, limit: u32) -> (r: Result<(Vec<BountyId>, Option<u32>), ContractError>)
        requires
            self.wf(),
        ensures
            match spec_status_of(status@) {
                None => r is Err && r->Err_0 == ContractError::InvalidStatus,
                Some(s) => r is Ok && r->Ok_0.0@ == spec_paginate(self.status_list(s), cursor, limit).0
                    && r->Ok_0.1 == spec_paginate(self.status_list(s), cursor, limit).1,
            },
    {
        let s = match status_from_symbol(status) {
            Ok(s) => s,
            Err(e) => {
                return Err(e);
            },
        };
        let index = self.status_index(s);
        let all = index.to_vec();
        proof {
            index.lemma_len_fits();
        }
        Ok(paginate(&all, cursor, limit))
    }

    /// Number of bounties in status `status`; an unknown status is refused
    /// with `InvalidStatus`.
    pub fn get_status_count(&self, status: &str) -> (r: Result<u32, ContractError>)
        requires
            self.wf(),
        ensures
            match spec_status_of(status@) {
                None => r == Err::<u32, ContractError>(ContractError::InvalidStatus),
                Some(s) => r is Ok && r->Ok_0 == self.status_list(s).len(),
            },
    {
        let s = match status_from_symbol(status) {
            Ok(s) => s,
            Err(e) => {
                return Err(e);
            },
        };
        Ok(self.status_index(s).count())
    }

    /// Stored page `page` of the index of status `s` (empty past the end).
    pub fn get_bounties_by_status_page(&self, s: BountyStatus, page: u32) -> (r: Vec<BountyId>)
        requires
            self.wf(),
        ensures
            r@ == self.status_index_page(s, page as int),
    {
        self.status_index(s).page(page)
    }

    /// Page `p` of the index of status `s`.
    pub closed spec fn status_index_page(&self, s: BountyStatus, p: int) -> Seq<BountyId> {
        match s {
            BountyStatus::Open => self.open_status.page_at(p),
            BountyStatus::InProgress => self.in_progress_status.page_at(p),
            BountyStatus::Completed => self.completed_status.page_at(p),
            BountyStatus::Cancelled => self.cancelled_status.page_at(p),
            BountyStatus::Disputed => self.disputed_status.page_at(p),
        }
    }

    /// A window of the open-bounty list (see [`paginate`]).
    pub fn get_open_bounties(&self, cursor: Option<u32>, limit: u32) -> (r: (Vec<BountyId>, Option<u32>))
        requires
            self.wf(),
        ensures
            r.0@ == spec_paginate(self.open_list(), cursor, limit).0,
            r.1 == spec_paginate(self.open_list(), cursor, limit).1,
    {
        let all = self.open_bounties.to_vec();
        proof {
            self.open_bounties.lemma_len_fits();
        }
        paginate(&all, cursor, limit)
    }

    /// Number of bounties currently open (the entries of the open-bounty
    /// list).
    pub fn get_open_bounties_count(&self) -> (n: u32)
        requires
            self.wf(),
        ensures
            n == self.open_list().len(),
            n == self.status_list(BountyStatus::Open).len(),
    {
        self.open_bounties.count()
    }

    /// The open-bounty ids from `offset`, at most `limit` of them (capped
    /// at 50); empty when `offset` is past the end.
    pub fn get_open_bounties_paged(&self, offset: u32, limit: u32) -> (r: Vec<BountyId>)
        requires
            self.wf(),
        ensures
            r@ == spec_paginate(self.open_list(), Some(offset), limit).0,
    {
        let (items, _) = self.get_open_bounties(Some(offset), limit);
        items
    }

    /// Page `p` of the open-bounty list.
    pub closed spec fn open_list_page(&self, p: int) -> Seq<BountyId> {
        self.open_bounties.page_at(p)
    }

    /// Stored page `page` of the open-bounty list.
    pub fn get_open_bounties_page_data(&self, page: u32) -> (r: Vec<BountyId>)
        requires
            self.wf(),
        ensures
            r@ == self.open_list_page(page as int),
    {
        self.open_bounties.page(page)
    }

    /// Whether bounty `i` carries `tag`.
    fn bounty_has_tag(&self, i: usize, tag: &str) -> (r: bool)
        requires
            i < self.bounties@.len(),
        ensures
            r == exists|k: int| 0 <= k < self.bounties@[i as int].tags@.len() && #[trigger] self.bounties@[i as int].tags@[k]@ == tag@,
    {
        let n = self.bounties[i].tags.len();
        let mut k: usize = 0;
        while k < n
            invariant
                i < self.bounties@.len(),
                n == self.bounties@[i as int].tags@.len(),
                k <= n,
                forall|l: int| 0 <= l < k ==> #[trigger] self.bounties@[i as int].tags@[l]@ != tag@,
            decreases n - k,
        {
            if str_eq(self.bounties[i].tags[k].as_str(), tag) {
                return true;
            }
            k = k + 1;
        }
        false
    }

    /// The open-bounty list entries whose bounty carries `tag`, in order; a
    /// tag outside the allow-list is refused with `InvalidTag`.
    pub fn get_bounties_by_tag(&self, tag: &str) -> (r: Result<Vec<BountyId>, ContractError>)
        requires
            self.wf(),
        ensures
            !is_allowed_tag(tag@) ==> r == Err::<Vec<BountyId>, ContractError>(ContractError::InvalidTag),
            is_allowed_tag(tag@) ==> r is Ok && r->Ok_0@ == ids_with_tag(self, self.open_list(), tag@),
            r matches Ok(ids) ==> forall|x: BountyId| #[trigger] ids@.contains(x) ==> self.has_status(x, BountyStatus::Open)
                && has_tag(self, x, tag@),
    {
        if validate_symbol(SymbolKind::Tag, tag).is_err() {
            return Err(ContractError::InvalidTag);
        }
        let open_ids = self.open_bounties.to_vec();
        let mut result: Vec<BountyId> = Vec::new();
        let mut k: usize = 0;
        while k < open_ids.len()
            invariant
                self.wf(),
                open_ids@ == self.open_list(),
                k <= open_ids@.len(),
                result@ == ids_with_tag(self, open_ids@.take(k as int), tag@),
            decreases open_ids@.len() - k,
        {
            let id = open_ids[k];
            proof {
                assert(open_ids@.take(k as int + 1).drop_last() =~= open_ids@.take(k as int));
            }
            match self.find_bounty(&id) {
                Some(i) => {
                    if self.bounty_has_tag(i, tag) {
                        result.push(id);
                    }
                },
                None => {},
            }
            k = k + 1;
        }
        assert(open_ids@.take(open_ids@.len() as int) =~= open_ids@);
        proof {
            assert forall|x: BountyId| #[trigger] result@.contains(x) implies self.has_status(x, BountyStatus::Open)
                && has_tag(self, x, tag@) by {
                lemma_ids_with_tag_subset(self, self.open_list(), tag@, x);
                assert(self.status_list(BountyStatus::Open).contains(x));
            }
        }
        Ok(result)
    }

    /// The first in-progress bounty (in index order) with `address` among
    /// its assignees, if any.
    pub fn get_contributor_active_bounty(&self, address: &Address) -> (r: Option<BountyId>)
        requires
            self.wf(),
        ensures
            r matches Some(x) ==> exists|k: int| 0 <= k < self.status_list(BountyStatus::InProgress).len()
                && #[trigger] self.status_list(BountyStatus::InProgress)[k] == x
                && assigned_to(self, x, *address)
                && forall|l: int| 0 <= l < k ==> !assigned_to(self, #[trigger] self.status_list(BountyStatus::InProgress)[l], *address),
            r is None ==> forall|l: int| 0 <= l < self.status_list(BountyStatus::InProgress).len()
                ==> !assigned_to(self, #[trigger] self.status_list(BountyStatus::InProgress)[l], *address),
    {
        let ids = self.in_progress_status.to_vec();
        let ghost list = self.status_list(BountyStatus::InProgress);
        let mut k: usize = 0;
        while k < ids.len()
            invariant
                self.wf(),
                ids@ == list,
                list == self.status_list(BountyStatus::InProgress),
                k <= ids@.len(),
                forall|l: int| 0 <= l < k ==> !assigned_to(self, #[trigger] list[l], *address),
            decreases ids@.len() - k,
        {
            let id = ids[k];
            match self.find_bounty(&id) {
                Some(i) => {
                    if assignee_position(&self.bounties[i], address).is_some() {
                        return Some(id);
                    }
                },
                None => {},
            }
            k = k + 1;
        }
        None
    }

    /// Ids of the bounties `address` was an assignee on when they reached
    /// `completed` or `cancelled`, in that order.
    pub fn get_contributor_bounty_history(&self, address: &Address) -> (r: Vec<BountyId>)
        requires
            self.wf(),
        ensures
            r@ == self.history(*address),
    {
        match self.histories.get(address) {
            Some(v) => copy_ids(v),
            None => Vec::new(),
        }
    }

    /// A window of the ids of the bounties `creator` created, in creation
    /// order (see [`paginate`]).
    pub fn get_bounties_by_creator(&self, creator: &Address, cursor: Option<u32>, limit: u32) -> (r: (Vec<BountyId>, Option<u32>))
        requires
            self.wf(),
        ensures
            r.0@ == spec_paginate(self.created_by(*creator, self.count() as int), cursor, limit).0,
            r.1 == spec_paginate(self.created_by(*creator, self.count() as int), cursor, limit).1,
    {
        let all = match self.creator_bounties.get(creator) {
            Some(v) => copy_ids(v),
            None => Vec::new(),
        };
        proof {
            assert(self.creator_list(*creator).len() <= self.count());
        }
        paginate(&all, cursor, limit)
    }

    /// The milestones of a bounty, when it has any, always pay out exactly
    /// its reward: creation checks it and no operation changes a reward.
    pub proof fn lemma_milestones_pay_the_reward(&self, i: int)
        requires
            self.wf(),
            0 <= i < self.count(),
        ensures
            milestones_sum_to_reward(self.bounty(i)),
    {
    }

    /// Every creator's list holds exactly the bounties it created, in
    /// creation order: creating appends to the creator's list and no other
    /// operation changes who created a bounty.
    pub proof fn lemma_creator_lists_match_creators(&self)
        requires
            self.wf(),
        ensures
            forall|a: Address| #[trigger] self.creator_list(a) == self.created_by(a, self.count() as int),
    {
    }

    /// Every status index lists, without repetition, exactly the existing
    /// bounties in that status, and together the indexes hold each bounty
    /// once: `get_status_count(s)` equals the length of
    /// `get_bounties_by_status(s)` and each id there has status `s`.
    pub proof fn lemma_status_indexes_match_statuses(&self)
        requires
            self.wf(),
        ensures
            forall|s: BountyStatus, x: BountyId| #[trigger] self.status_list(s).contains(x) <==> self.has_status(x, s),
            forall|s: BountyStatus| #[trigger] self.status_list(s).no_duplicates(),
            self.status_total() == self.count(),
            forall|s: BountyStatus| #[trigger] self.status_list(s).len() <= self.count(),
            forall|s: BountyStatus| #[trigger] self.status_list(s).len() <= u32::MAX,
    {
        self.open_status.lemma_len_fits();
        self.in_progress_status.lemma_len_fits();
        self.completed_status.lemma_len_fits();
        self.cancelled_status.lemma_len_fits();
        self.disputed_status.lemma_len_fits();
        assert forall|s: BountyStatus| #[trigger] self.status_list(s).len() <= u32::MAX by {}
    }

    /// Every entry of the open list names an existing bounty, none twice,
    /// and the open list is exactly the index of `open` bounties: a bounty
    /// joins it on creation and leaves it when it leaves `open`.
    pub proof fn lemma_open_list_entries_exist(&self)
        requires
            self.wf(),
        ensures
            self.open_list().no_duplicates(),
            forall|x: BountyId| #[trigger] self.open_list().contains(x) ==> self.index_of(x) is Some,
            self.open_list() == self.status_list(BountyStatus::Open),
            forall|x: BountyId| #[trigger] self.open_list().contains(x) <==> self.has_status(x, BountyStatus::Open),
    {
    }

    /// The assignees of a bounty are distinct and at most `max_assignees`;
    /// their shares never exceed 10 000 basis points in total and are
    /// exactly 10 000 once every slot is taken (the first assignee absorbing
    /// the remainder of the split).
    pub proof fn lemma_shares_split_whole_reward(&self, i: int)
        requires
            self.wf(),
            0 <= i < self.count(),
        ensures
            share_sum(self.bounty(i).assignees@) <= 10_000,
            self.bounty(i).assignees@.len() == self.bounty(i).max_assignees ==> share_sum(self.bounty(i).assignees@) == 10_000,
            forall|k: int, l: int| 0 <= k < l < self.bounty(i).assignees@.len() ==> self.bounty(i).assignees@[k].0 != self.bounty(i).assignees@[l].0,
    {
        let b = self.bounty(i);
        assert(assignees_wf(self.bounties@[i]));
        let max = b.max_assignees as int;
        let n = b.assignees@.len() as int;
        lemma_share_split(max);
        lemma_share_sum_formula(b.assignees@, max);
        if n > 0 {
            let base = 10_000int / max;
            assert(base * n <= base * max) by (nonlinear_arith)
                requires
                    0 <= base,
                    n <= max,
            ;
        }
    }

    /// Completing a bounty with a non-negative reward pays out, in total, no
    /// more than the reward (integer division may leave a remainder unpaid),
    /// and every transfer fits its amount.
    pub proof fn lemma_completion_pays_at_most_reward(&self, i: int, from: Address)
        requires
            self.wf(),
            0 <= i < self.count(),
            self.bounty(i).reward_amount >= 0,
        ensures
            0 <= transfer_total(settle_transfers(self.bounty(i), from)) <= self.bounty(i).reward_amount,
    {
        let b = self.bounty(i);
        self.lemma_shares_split_whole_reward(i);
        if b.milestones@.len() == 0 {
            let ts = payout_transfers(b, from, b.reward_amount);
            assert(assignees_wf(self.bounties@[i]));
            lemma_share_split(b.max_assignees as int);
            assert forall|l: int| 0 <= l < b.assignees@.len() implies #[trigger] b.assignees@[l].1 <= 10_000 by {
                assert(b.assignees@[l].1 == share_for(l, b.max_assignees as int));
            }
            lemma_transfer_total_prefix(b, from, b.reward_amount, b.assignees@.len() as int);
            assert(ts.take(ts.len() as int) =~= ts);
            assert(b.assignees@.take(b.assignees@.len() as int) =~= b.assignees@);
            lemma_payout_sum_bound(b.assignees@, b.reward_amount);
            let r = b.reward_amount as int;
            let ss = share_sum(b.assignees@);
            assert((r * ss) / 10_000 <= r) by (nonlinear_arith)
                requires
                    r >= 0,
                    0 <= ss <= 10_000,
            ;
        } else {
            assert(settle_transfers(b, from) == Seq::<Transfer>::empty());
        }
    }
}

/// What bounty `b` holds in escrow in token `tok`: its reward while it is
/// open, in progress or disputed and paid in `tok`; nothing otherwise.
pub open spec fn escrow_of(b: Bounty, tok: Address) -> int {
    if b.reward_token == tok && (b.status == BountyStatus::Open || b.status == BountyStatus::InProgress
        || b.status == BountyStatus::Disputed) {
        b.reward_amount as int
    } else {
        0
    }
}

/// The total of the transfers in `ts` of token `tok` paid from `from`.
pub open spec fn paid_from(ts: Seq<Transfer>, from: Address, tok: Address) -> int
    decreases ts.len(),
{
    if ts.len() == 0 {
        0
    } else {
        paid_from(ts.drop_last(), from, tok) + if ts.last().token == tok && ts.last().from == from {
            ts.last().amount as int
        } else {
            0
        }
    }
}

/// Transfers none of which is paid from `from` pay nothing from it.
proof fn lemma_paid_from_none(ts: Seq<Transfer>, from: Address, tok: Address)
    requires
        forall|k: int| 0 <= k < ts.len() ==> #[trigger] ts[k].from != from,
    ensures
        paid_from(ts, from, tok) == 0,
    decreases ts.len(),
{
    if ts.len() > 0 {
        assert forall|k: int| 0 <= k < ts.drop_last().len() implies #[trigger] ts.drop_last()[k].from != from by {
            assert(ts.drop_last()[k] == ts[k]);
        }
        lemma_paid_from_none(ts.drop_last(), from, tok);
        assert(ts.last() == ts[ts.len() - 1]);
    }
}

/// Of transfers of non-negative amounts, those paid from `from` in `tok`
/// total between zero and the total of all of them.
proof fn lemma_paid_from_within_total(ts: Seq<Transfer>, from: Address, tok: Address)
    requires
        forall|k: int| 0 <= k < ts.len() ==> #[trigger] ts[k].amount >= 0,
    ensures
        0 <= paid_from(ts, from, tok) <= transfer_total(ts),
    decreases ts.len(),
{
    if ts.len() > 0 {
        assert forall|k: int| 0 <= k < ts.drop_last().len() implies #[trigger] ts.drop_last()[k].amount >= 0 by {
            assert(ts.drop_last()[k] == ts[k]);
        }
        lemma_paid_from_within_total(ts.drop_last(), from, tok);
        assert(ts.last() == ts[ts.len() - 1]);
    }
}

/// A single transfer pays from `from` in `tok` its amount exactly when it
/// is of `tok` and from `from`.
proof fn lemma_paid_from_single(t: Transfer, from: Address, tok: Address)
    ensures
        paid_from(seq![t], from, tok) == if t.token == tok && t.from == from {
            t.amount as int
        } else {
            0
        },
        paid_from(Seq::<Transfer>::empty(), from, tok) == 0,
{
    assert(paid_from(Seq::<Transfer>::empty(), from, tok) == 0);
    assert(seq![t].drop_last() =~= Seq::<Transfer>::empty());
    assert(seq![t].last() == t);
}

impl MergeMintContract {
    /// The rewards held in escrow in token `tok` for the first `n` bounties.
    pub open spec fn escrowed_upto(&self, tok: Address, n: int) -> int
        decreases n,
    {
        if n <= 0 {
            0
        } else {
            self.escrowed_upto(tok, n - 1) + escrow_of(self.bounty(n - 1), tok)
        }
    }

    /// The rewards the contract holds in escrow in token `tok`: those of the
    /// bounties open, in progress or disputed that pay in `tok`.
    pub open spec fn escrowed(&self, tok: Address) -> int {
        self.escrowed_upto(tok, self.count() as int)
    }

    /// Two states that differ at most in bounty `i` differ in escrow by what
    /// that bounty holds.
    proof fn lemma_escrow_one_changed(&self, old: &MergeMintContract, i: int, tok: Address, n: int)
        requires
            0 <= i,
            n <= old.count(),
            forall|j: int| 0 <= j < old.count() && j != i ==> #[trigger] self.bounty(j) == old.bounty(j),
        ensures
            self.escrowed_upto(tok, n) == old.escrowed_upto(tok, n) + if i < n {
                escrow_of(self.bounty(i), tok) - escrow_of(old.bounty(i), tok)
            } else {
                0
            },
        decreases n,
    {
        if n > 0 {
            self.lemma_escrow_one_changed(old, i, tok, n - 1);
            if n - 1 != i {
                assert(self.bounty(n - 1) == old.bounty(n - 1));
            }
        }
    }

    /// After bounty `i` moves to status `to`, the escrow in each token
    /// changes by what the bounty held before and holds after.
    proof fn lemma_escrow_status_moved(&self, old: &MergeMintContract, i: int, to: BountyStatus)
        requires
            0 <= i < old.count(),
            self.status_moved(old, i, to),
        ensures
            forall|tok: Address| #[trigger] self.escrowed(tok) == old.escrowed(tok) - escrow_of(old.bounty(i), tok)
                + escrow_of(self.bounty(i), tok),
    {
        assert forall|tok: Address| #[trigger] self.escrowed(tok) == old.escrowed(tok) - escrow_of(old.bounty(i), tok)
            + escrow_of(self.bounty(i), tok) by {
            self.lemma_escrow_one_changed(old, i, tok, old.count() as int);
        }
    }

    /// Completing bounty `i` (in progress or disputed) with its payout paid
    /// from `from` releases its reward from escrow, and pays out of any
    /// holder no more than that reward.
    proof fn lemma_escrow_settled(&self, old: &MergeMintContract, i: int, from: Address, holder: Address)
        requires
            old.wf(),
            0 <= i < old.count(),
            old.bounty(i).status == BountyStatus::InProgress || old.bounty(i).status == BountyStatus::Disputed,
            self.settled(old, i),
        ensures
            forall|tok: Address| 0 <= #[trigger] paid_from(settle_transfers(old.bounty(i), from), holder, tok)
                <= old.escrowed(tok) - self.escrowed(tok),
    {
        let b = old.bounty(i);
        self.lemma_escrow_status_moved(old, i, BountyStatus::Completed);
        assert(reward_positive(old.bounties@[i]));
        old.lemma_completion_pays_at_most_reward(i, from);
        let ts = settle_transfers(b, from);
        assert(assignees_wf(old.bounties@[i]));
        assert forall|k: int| 0 <= k < ts.len() implies #[trigger] ts[k].amount >= 0 by {
            let share = b.assignees@[k].1;
            lemma_share_split(b.max_assignees as int);
            assert(share == share_for(k, b.max_assignees as int));
            let r = b.reward_amount as int;
            assert(0 <= r * share <= r * 10_000) by (nonlinear_arith)
                requires
                    r > 0,
                    0 <= share <= 10_000,
            ;
            assert(0 <= (r * share) / 10_000 <= r) by (nonlinear_arith)
                requires
                    0 <= r * share <= r * 10_000,
                    r > 0,
            ;
            assert(payout_amount(b.reward_amount, share) == (r * share) / 10_000);
        }
        assert forall|tok: Address| 0 <= #[trigger] paid_from(ts, holder, tok) <= old.escrowed(tok) - self.escrowed(tok) by {
            lemma_paid_from_within_total(ts, holder, tok);
            if b.reward_token != tok && b.milestones@.len() == 0 {
                assert forall|k: int| 0 <= k < ts.len() implies #[trigger] ts[k].token != tok by {}
                lemma_paid_from_no_token(ts, holder, tok);
            }
            if b.milestones@.len() > 0 {
                assert(ts =~= Seq::<Transfer>::empty());
            }
        }
    }
}

/// Transfers none of which is in `tok` pay nothing in it.
proof fn lemma_paid_from_no_token(ts: Seq<Transfer>, from: Address, tok: Address)
    requires
        forall|k: int| 0 <= k < ts.len() ==> #[trigger] ts[k].token != tok,
    ensures
        paid_from(ts, from, tok) == 0,
    decreases ts.len(),
{
    if ts.len() > 0 {
        assert forall|k: int| 0 <= k < ts.drop_last().len() implies #[trigger] ts.drop_last()[k].token != tok by {
            assert(ts.drop_last()[k] == ts[k]);
        }
        lemma_paid_from_no_token(ts.drop_last(), from, tok);
        assert(ts.last() == ts[ts.len() - 1]);
    }
}

/// A payout credits each assignee exactly what it is paid: its total
/// earned grows by the amount of its transfer (totals accumulate over every
/// payout), its reputation by 10 and its contribution count by one.
pub proof fn law_payout_credits_each_assignee(
    new_map: Map<Address, Contributor>,
    st: &MergeMintContract,
    b: Bounty,
    reward: i128,
    from: Address,
)
    requires
        contributors_paid(new_map, st, b, reward),
        !payout_overflows(st, b, reward),
    ensures
        forall|k: int| 0 <= k < b.assignees@.len() ==> {
            let a = #[trigger] b.assignees@[k].0;
            let before = st.contributor_or_fresh(a);
            let paid = payout_transfers(b, from, reward)[k];
            &&& new_map.contains_key(a)
            &&& paid.to == a && paid.from == from
            &&& new_map[a].total_earned == before.total_earned + paid.amount
            &&& new_map[a].reputation == before.reputation + 10
            &&& new_map[a].contribution_count == before.contribution_count + 1
        },
{
    assert forall|k: int| 0 <= k < b.assignees@.len() implies {
        let a = #[trigger] b.assignees@[k].0;
        let before = st.contributor_or_fresh(a);
        let paid = payout_transfers(b, from, reward)[k];
        &&& new_map.contains_key(a)
        &&& paid.to == a && paid.from == from
        &&& new_map[a].total_earned == before.total_earned + paid.amount
        &&& new_map[a].reputation == before.reputation + 10
        &&& new_map[a].contribution_count == before.contribution_count + 1
    } by {
        let a = b.assignees@[k].0;
        assert(is_assignee(b, a));
        assert(!payout_overflows_at(st, b, reward, k));
        let share = b.assignees@[k].1;
        let x = reward * share;
        let amt = payout_amount(reward, share);
        assert(i128::MIN <= x <= i128::MAX);
        assert(-0x8000_0000_0000_0000_0000_0000_0000_0000 <= amt <= 0x7fff_ffff_ffff_ffff_ffff_ffff_ffff_ffff) by {
            if x >= 0 {
                assert(0 <= x / 10_000 <= x) by (nonlinear_arith)
                    requires
                        x >= 0,
                ;
            } else {
                assert(0 <= (-x) / 10_000 <= -x) by (nonlinear_arith)
                    requires
                        -x > 0,
                ;
            }
        }
    }
}

impl MergeMintContract {
    /// A bounty that reaches `completed` or `cancelled` joins the history
    /// of each of its assignees, at the end; no other history changes, and a
    /// move to any other status changes no history.
    pub proof fn law_terminal_status_records_history(&self, old: &MergeMintContract, i: int, to: BountyStatus)
        requires
            0 <= i < old.count(),
            self.status_moved(old, i, to),
            old.bounty(i).status != to,
        ensures
            forall|a: Address| #[trigger] self.history(a) == if (to == BountyStatus::Completed
                || to == BountyStatus::Cancelled) && is_assignee(old.bounty(i), a) {
                old.history(a).push(BountyId::spec_from_sequence(i as u64))
            } else {
                old.history(a)
            },
            to == BountyStatus::Cancelled ==> forall|k: int| 0 <= k < old.bounty(i).assignees@.len()
                ==> #[trigger] self.history(old.bounty(i).assignees@[k].0).last() == BountyId::spec_from_sequence(i as u64),
    {
        let b = old.bounty(i);
        if to == BountyStatus::Cancelled {
            assert forall|k: int| 0 <= k < b.assignees@.len() implies #[trigger] self.history(b.assignees@[k].0).last()
                == BountyId::spec_from_sequence(i as u64) by {
                assert(is_assignee(b, b.assignees@[k].0));
            }
        }
    }
}

/// `ts` pays out of the contract of `old`, in every token, exactly what
/// leaves escrow between `old` and `new`.
pub open spec fn escrow_released(old: &MergeMintContract, new: &MergeMintContract, ts: Seq<Transfer>) -> bool {
    forall|tok: Address| #[trigger] new.escrowed(tok) == old.escrowed(tok) - paid_from(ts, old.address(), tok)
}

/// `ts` pays out of the contract of `old`, in every token, nothing more
/// than what leaves escrow between `old` and `new`.
pub open spec fn escrow_released_at_most(old: &MergeMintContract, new: &MergeMintContract, ts: Seq<Transfer>) -> bool {
    forall|tok: Address| 0 <= #[trigger] paid_from(ts, old.address(), tok) <= old.escrowed(tok) - new.escrowed(tok)
}

} // verus!
