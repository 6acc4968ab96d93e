#![allow(dead_code, unused_imports)]
use mergemint::contract::errors::{message, ContractError};
use mergemint::contract::state::MergeMintContract;
use mergemint::contract::types::{
    Address, BountyId, BountyStatus, ContractEvent, Milestone, Receipt, Resolution, Transfer,
};
use std::collections::HashMap;

const CONTRACT: Address = Address(1_000_000);

/// The contract plus the token balances its receipts move, and the ledger
/// sequence number calls run at.
struct Env {
    c: MergeMintContract,
    balances: HashMap<(Address, Address), i128>,
    sequence: u32,
    next_token: u64,
}

impl Env {
    fn new() -> Env {
        Env { c: MergeMintContract::new(CONTRACT), balances: HashMap::new(), sequence: 0, next_token: 500 }
    }

    fn token(&mut self) -> Address {
        self.next_token += 1;
        Address(self.next_token)
    }

    fn mint(&mut self, token: Address, to: Address, amount: i128) {
        *self.balances.entry((token, to)).or_default() += amount;
    }

    fn balance(&self, token: Address, holder: Address) -> i128 {
        *self.balances.get(&(token, holder)).unwrap_or(&0)
    }

    fn apply(&mut self, receipt: &Receipt) {
        for t in &receipt.transfers {
            apply_transfer(&mut self.balances, t);
        }
    }

    #[allow(clippy::too_many_arguments)]
    fn create(
        &mut self,
        creator: Address,
        title: &str,
        reward: i128,
        token: Address,
        min_reputation: u32,
        deadline: Option<u32>,
        tags: &[&str],
        max_assignees: u32,
        required_verifiers: Option<Vec<Address>>,
        approval_threshold: u32,
        milestones: Vec<Milestone>,
    ) -> Result<BountyId, ContractError> {
        let r = self.c.create_bounty(
            self.sequence,
            creator,
            title.to_string(),
            "desc".to_string(),
            reward,
            token,
            true,
            min_reputation,
            deadline,
            tags.iter().map(|t| t.to_string()).collect(),
            max_assignees,
            required_verifiers,
            approval_threshold,
            milestones,
        )?;
        self.apply(&r.1);
        Ok(r.0)
    }

    /// A bounty of 1000 in a fresh token, no reputation floor, one assignee.
    fn make_bounty(&mut self, creator: Address, title: &str, deadline: Option<u32>) -> BountyId {
        let token = self.token();
        self.create(creator, title, 1000, token, 0, deadline, &[], 1, None, 1, vec![]).unwrap()
    }

    /// A bounty whose reward is minted to the contract in a fresh token.
    fn make_bounty_with_token(
        &mut self,
        creator: Address,
        title: &str,
        reward: i128,
        deadline: Option<u32>,
    ) -> (BountyId, Address) {
        let token = self.token();
        self.mint(token, CONTRACT, reward);
        let id = self.create(creator, title, reward, token, 0, deadline, &[], 1, None, 1, vec![]).unwrap();
        (id, token)
    }

    fn claim(&mut self, who: Address, id: BountyId) -> Result<Receipt, ContractError> {
        let r = self.c.claim_bounty(self.sequence, who, id)?;
        self.apply(&r);
        Ok(r)
    }

    fn complete(&mut self, verifier: Address, id: BountyId) -> Result<Receipt, ContractError> {
        let r = self.c.complete_bounty(verifier, id)?;
        self.apply(&r);
        Ok(r)
    }

    fn dispute(&mut self, caller: Address, id: BountyId) -> Result<Receipt, ContractError> {
        let r = self.c.raise_dispute(caller, id)?;
        self.apply(&r);
        Ok(r)
    }

    fn cancel(&mut self, caller: Address, id: BountyId) -> Result<Receipt, ContractError> {
        let r = self.c.cancel_bounty(caller, id)?;
        self.apply(&r);
        Ok(r)
    }

    fn expire(&mut self, caller: Address, id: BountyId) -> Result<Receipt, ContractError> {
        let r = self.c.expire_bounty(self.sequence, caller, id)?;
        self.apply(&r);
        Ok(r)
    }

    fn resolve(&mut self, arbitrator: Address, id: BountyId, resolution: &str) -> Result<Receipt, ContractError> {
        let r = self.c.resolve_dispute(arbitrator, id, resolution)?;
        self.apply(&r);
        Ok(r)
    }

    fn approve(&mut self, verifier: Address, id: BountyId) -> Result<Receipt, ContractError> {
        let r = self.c.approve_completion(verifier, id)?;
        self.apply(&r);
        Ok(r)
    }
}

fn apply_transfer(balances: &mut HashMap<(Address, Address), i128>, t: &Transfer) {
    *balances.entry((t.token, t.from)).or_default() -= t.amount;
    *balances.entry((t.token, t.to)).or_default() += t.amount;
}

fn setup() -> (Env, Address, Address, Address) {
    (Env::new(), Address(1), Address(2), Address(3))
}

/// The refusal `r` carries, checked against its canonical message.
fn refusal<T: std::fmt::Debug>(r: Result<T, ContractError>, expected: &str) -> ContractError {
    let e = r.expect_err("the call must be refused");
    assert_eq!(message(e), expected);
    e
}

// ---------------------------------------------------------------------------
// Tags
// ---------------------------------------------------------------------------

#[test]
fn test_tags_stored_and_retrieved() {
    let (mut env, creator, _contributor, _verifier) = setup();
    let token = env.token();
    let id = env.create(creator, "tagged", 1000, token, 0, None, &["bug", "docs"], 1, None, 1, vec![]).unwrap();
    let bounty = env.c.get_bounty(&id).unwrap();
    assert_eq!(bounty.tags.len(), 2);
    assert_eq!(bounty.tags[0], "bug");
    assert_eq!(bounty.tags[1], "docs");
}

#[test]
fn test_empty_tags_valid() {
    let (mut env, creator, _contributor, _verifier) = setup();
    let id = env.make_bounty(creator, "no_tags", None);
    assert_eq!(env.c.get_bounty(&id).unwrap().tags.len(), 0);
}

#[test]
fn test_five_tags_allowed() {
    let (mut env, creator, _contributor, _verifier) = setup();
    let token = env.token();
    let id = env
        .create(creator, "max_tags", 1000, token, 0, None, &["bug", "docs", "feature", "security", "test"], 1, None, 1, vec![])
        .unwrap();
    assert_eq!(env.c.get_bounty(&id).unwrap().tags.len(), 5);
}

#[test]
fn test_too_many_tags_panics() {
    let (mut env, creator, _contributor, _verifier) = setup();
    let token = env.token();
    let r = env.create(creator, "overtags", 1000, token, 0, None, &["bug"; 6], 1, None, 1, vec![]);
    assert_eq!(refusal(r, "too many tags"), ContractError::TooManyTags);
    assert_eq!(env.c.get_bounty_count(), 0);
}

#[test]
fn test_create_bounty_rejects_unknown_tag() {
    let (mut env, creator, _contributor, _verifier) = setup();
    let token = env.token();
    let r = env.create(creator, "bad_tag", 1000, token, 0, None, &["bug", "not_a_tag"], 1, None, 1, vec![]);
    assert_eq!(refusal(r, "invalid bounty tag"), ContractError::InvalidTag);
}

#[test]
fn test_get_bounties_by_tag_rejects_unknown_tag() {
    let (env, _creator, _contributor, _verifier) = setup();
    assert_eq!(refusal(env.c.get_bounties_by_tag("nope"), "invalid bounty tag"), ContractError::InvalidTag);
}

#[test]
fn bounties_by_tag_lists_tagged_bounties_in_creation_order() {
    let (mut env, creator, _contributor, _verifier) = setup();
    let t = env.token();
    let a = env.create(creator, "a", 1000, t, 0, None, &["bug"], 1, None, 1, vec![]).unwrap();
    let _b = env.create(creator, "b", 1000, t, 0, None, &["docs"], 1, None, 1, vec![]).unwrap();
    let c = env.create(creator, "c", 1000, t, 0, None, &["docs", "bug"], 1, None, 1, vec![]).unwrap();
    assert_eq!(env.c.get_bounties_by_tag("bug").unwrap(), vec![a, c]);
    assert!(env.c.get_bounties_by_tag("perf").unwrap().is_empty());
}

// ---------------------------------------------------------------------------
// get_bounties_by_creator
// ---------------------------------------------------------------------------

#[test]
fn test_get_bounties_by_creator_returns_all() {
    let (mut env, creator, _contributor, _verifier) = setup();
    assert_eq!(env.c.get_bounties_by_creator(&creator, None, 50).0.len(), 0);
    let id1 = env.make_bounty(creator, "b1", None);
    let id2 = env.make_bounty(creator, "b2", None);
    let id3 = env.make_bounty(creator, "b3", None);
    let ids = env.c.get_bounties_by_creator(&creator, None, 50).0;
    assert_eq!(ids, vec![id1, id2, id3]);
}

#[test]
fn test_get_bounties_by_creator_independent_lists() {
    let (mut env, creator, _contributor, _verifier) = setup();
    let creator2 = Address(77);
    let id1 = env.make_bounty(creator, "c1a", None);
    let id2 = env.make_bounty(creator2, "c2a", None);
    assert_eq!(env.c.get_bounties_by_creator(&creator, None, 50).0, vec![id1]);
    assert_eq!(env.c.get_bounties_by_creator(&creator2, None, 50).0, vec![id2]);
}

#[test]
fn test_get_bounties_by_creator_unknown_address_empty() {
    let (env, _creator, _contributor, _verifier) = setup();
    assert_eq!(env.c.get_bounties_by_creator(&Address(999), None, 50).0.len(), 0);
}

#[test]
fn test_get_open_bounties_paged_limit_capped_at_max() {
    let (mut env, creator, _contributor, _verifier) = setup();
    for i in 0..55 {
        env.make_bounty(creator, &format!("o{i:02}"), None);
    }
    assert_eq!(env.c.get_open_bounties_count(), 55);
    let page = env.c.get_open_bounties_paged(0, 1000);
    assert_eq!(page.len(), 50, "limit above cap must return at most 50 items");
    let page2 = env.c.get_open_bounties_paged(50, 1000);
    assert_eq!(page2.len(), 5, "remaining open bounties after first capped page");
}

#[test]
fn test_get_bounties_by_creator_limit_capped_at_max() {
    let (mut env, creator, _contributor, _verifier) = setup();
    for i in 0..55 {
        env.make_bounty(creator, &format!("c{i:02}"), None);
    }
    let (page, next) = env.c.get_bounties_by_creator(&creator, None, 1000);
    assert_eq!(page.len(), 50, "limit above cap must return at most 50 items");
    assert_eq!(next, Some(50), "next_cursor should point past the capped page");
    let (page2, next2) = env.c.get_bounties_by_creator(&creator, Some(50), 1000);
    assert_eq!(page2.len(), 5, "remaining items after first capped page");
    assert_eq!(next2, None, "list exhausted after second page");
}

// ---------------------------------------------------------------------------
// Dispute guard in complete_bounty
// ---------------------------------------------------------------------------

#[test]
fn test_complete_disputed_bounty_panics() {
    let (mut env, creator, contributor, verifier) = setup();
    let id = env.make_bounty(creator, "disp_b", None);
    env.claim(contributor, id).unwrap();
    env.dispute(creator, id).unwrap();
    assert_eq!(refusal(env.complete(verifier, id), "bounty is disputed"), ContractError::BountyIsDisputed);
}

#[test]
fn test_complete_bounty_after_assignee_dispute_panics() {
    let (mut env, creator, contributor, verifier) = setup();
    let id = env.make_bounty(creator, "disp_c", None);
    env.claim(contributor, id).unwrap();
    env.dispute(contributor, id).unwrap();
    assert_eq!(refusal(env.complete(verifier, id), "bounty is disputed"), ContractError::BountyIsDisputed);
}

// ---------------------------------------------------------------------------
// create_bounty validation
// ---------------------------------------------------------------------------

#[test]
fn test_create_bounty_rejects_invalid_reward_token() {
    let (mut env, creator, _contributor, _verifier) = setup();
    let r = env.c.create_bounty(
        0, creator, "bad_token".to_string(), "desc".to_string(), 1000, Address(4242), false, 0, None,
        vec![], 1, None, 1, vec![],
    );
    assert_eq!(refusal(r, "invalid reward_token address"), ContractError::InvalidRewardToken);
}

#[test]
fn test_fail_too_many_tags_message() {
    assert_eq!(message(ContractError::TooManyTags), "too many tags");
}

#[test]
fn test_fail_bounty_is_disputed_message() {
    assert_eq!(message(ContractError::BountyIsDisputed), "bounty is disputed");
}

#[test]
fn test_create_bounty_rejects_past_deadline() {
    let (mut env, creator, _contributor, _verifier) = setup();
    env.sequence = 100;
    let token = env.token();
    let r = env.create(creator, "past_dl", 1000, token, 0, Some(50), &[], 1, None, 1, vec![]);
    assert_eq!(refusal(r, "bounty deadline passed"), ContractError::BountyDeadlinePassed);
}

#[test]
fn test_create_bounty_accepts_future_deadline() {
    let (mut env, creator, _contributor, _verifier) = setup();
    let token = env.token();
    assert!(env.create(creator, "future_dl", 1000, token, 0, Some(100), &[], 1, None, 1, vec![]).is_ok());
}

#[test]
fn test_create_bounty() {
    let (mut env, creator, _contributor, _verifier) = setup();
    let token = env.token();
    let id = env.create(creator, "test_b", 1000, token, 0, None, &[], 1, None, 1, vec![]).unwrap();
    let bounty = env.c.get_bounty(&id).unwrap();
    assert_eq!(bounty.reward_amount, 1000);
    assert_eq!(bounty.creator, creator);
    assert!(bounty.assignees.is_empty());
    let metas = env.c.get_bounty_metas(&vec![id]);
    let meta = metas[0].unwrap();
    assert_eq!(meta.title, "test_b");
    assert_eq!(meta.description, "desc");
}

#[test]
fn test_create_bounty_rejects_zero_reward() {
    let (mut env, creator, _contributor, _verifier) = setup();
    let token = env.token();
    let r = env.create(creator, "zero_rew", 0, token, 0, None, &[], 1, None, 1, vec![]);
    assert_eq!(refusal(r, "reward_amount must be positive"), ContractError::RewardMustBePositive);
}

#[test]
fn test_create_bounty_rejects_negative_reward() {
    let (mut env, creator, _contributor, _verifier) = setup();
    let token = env.token();
    let r = env.create(creator, "neg_rew", -50, token, 0, None, &[], 1, None, 1, vec![]);
    assert_eq!(refusal(r, "reward_amount must be positive"), ContractError::RewardMustBePositive);
}

#[test]
fn test_create_bounty_rejects_below_minimum_reward() {
    let (mut env, creator, _contributor, _verifier) = setup();
    let token = env.token();
    let r = env.create(creator, "small_rew", 50, token, 0, None, &[], 1, None, 1, vec![]);
    assert_eq!(refusal(r, "reward_amount is below the minimum allowed"), ContractError::RewardBelowMinimum);
}

#[test]
fn test_create_bounty_rejects_milestone_reward_overflow() {
    let (mut env, creator, _contributor, _verifier) = setup();
    let token = env.token();
    let milestones = vec![
        Milestone { description: "m1".to_string(), reward: i128::MAX, completed: false },
        Milestone { description: "m2".to_string(), reward: 1, completed: false },
    ];
    let r = env.create(creator, "overflow", 1000, token, 0, None, &[], 1, None, 1, milestones);
    assert_eq!(refusal(r, "reward amount arithmetic overflow"), ContractError::RewardAmountOverflow);
}

#[test]
fn create_bounty_rejects_milestones_not_summing_to_reward() {
    let (mut env, creator, _contributor, _verifier) = setup();
    let token = env.token();
    let milestones = vec![
        Milestone { description: "m1".to_string(), reward: 400, completed: false },
        Milestone { description: "m2".to_string(), reward: 500, completed: false },
    ];
    let r = env.create(creator, "mismatch", 1000, token, 0, None, &[], 1, None, 1, milestones);
    assert_eq!(refusal(r, "milestone rewards do not sum to reward_amount"), ContractError::MilestoneRewardsMismatch);
}

#[test]
fn create_bounty_rejects_zero_max_assignees_and_excess_threshold() {
    let (mut env, creator, _contributor, verifier) = setup();
    let token = env.token();
    let r = env.create(creator, "zero_max", 1000, token, 0, None, &[], 0, None, 1, vec![]);
    assert_eq!(refusal(r, "max_assignees must be at least 1"), ContractError::MaxAssigneesMustBePositive);
    let r = env.create(creator, "threshold", 1000, token, 0, None, &[], 1, Some(vec![verifier]), 2, vec![]);
    assert_eq!(
        refusal(r, "approval_threshold cannot exceed the number of required_verifiers"),
        ContractError::ApprovalThresholdExceedsVerifiers
    );
}

// ---------------------------------------------------------------------------
// Claims
// ---------------------------------------------------------------------------

#[test]
fn test_claim_bounty() {
    let (mut env, creator, contributor, _verifier) = setup();
    let id = env.make_bounty(creator, "bounty_1", None);
    let receipt = env.claim(contributor, id).unwrap();
    assert_eq!(receipt.events, vec![ContractEvent::BountyClaimed { id, contributor }]);
    let bounty = env.c.get_bounty(&id).unwrap();
    assert_eq!(bounty.assignees[0], (contributor, 10_000u32));
    assert_eq!(bounty.status, BountyStatus::InProgress);
}

#[test]
fn test_creator_cannot_claim_own_bounty() {
    let (mut env, creator, _contributor, _verifier) = setup();
    let id = env.make_bounty(creator, "bounty_1", None);
    assert_eq!(refusal(env.claim(creator, id), "creator cannot claim"), ContractError::CreatorCannotClaim);
}

#[test]
fn test_creator_self_claim_guard_no_alias_bypass() {
    let (mut env, creator, _contributor, _verifier) = setup();
    let id = env.make_bounty(creator, "alias_test", None);
    let also_creator = creator;
    assert_eq!(refusal(env.claim(also_creator, id), "creator cannot claim"), ContractError::CreatorCannotClaim);
}

#[test]
fn test_bounty_count() {
    let (mut env, creator, _contributor, _verifier) = setup();
    assert_eq!(env.c.get_bounty_count(), 0);
    let token = env.token();
    env.create(creator, "bounty_a", 100, token, 0, None, &[], 1, None, 1, vec![]).unwrap();
    assert_eq!(env.c.get_bounty_count(), 1);
    env.create(creator, "bounty_b", 200, token, 0, None, &[], 1, None, 1, vec![]).unwrap();
    assert_eq!(env.c.get_bounty_count(), 2);
}

#[test]
fn test_get_bounty_never_allocated_id_returns_none() {
    let (env, _creator, _contributor, _verifier) = setup();
    assert_eq!(env.c.get_bounty_count(), 0);
    let unallocated = BountyId::from_sequence(0);
    assert!(env.c.get_bounty(&unallocated).is_none());
    assert!(!env.c.bounty_id_was_allocated(&unallocated));
}

#[test]
fn test_get_bounty_id_beyond_count_returns_none() {
    let (mut env, creator, _contributor, _verifier) = setup();
    env.make_bounty(creator, "only", None);
    assert_eq!(env.c.get_bounty_count(), 1);
    assert!(env.c.get_bounty(&BountyId::from_sequence(99)).is_none());
}

#[test]
fn bounty_ids_follow_the_creation_sequence() {
    let (mut env, creator, _contributor, _verifier) = setup();
    let a = env.make_bounty(creator, "a", None);
    let b = env.make_bounty(creator, "b", None);
    assert_eq!(a, BountyId::from_sequence(0));
    assert_eq!(b, BountyId::from_sequence(1));
    assert_eq!(b.sequence(), Some(1));
    assert!(env.c.bounty_id_was_allocated(&a));
}

#[test]
fn test_single_assignee_gets_full_share() {
    let (mut env, creator, contributor, _verifier) = setup();
    let id = env.make_bounty(creator, "single", None);
    env.claim(contributor, id).unwrap();
    let bounty = env.c.get_bounty(&id).unwrap();
    assert_eq!(bounty.assignees.len(), 1);
    assert_eq!(bounty.assignees[0], (contributor, 10_000u32));
}

#[test]
fn open_list_keeps_only_open_bounties() {
    let (mut env, creator, _contributor, _verifier) = setup();
    let t = env.token();
    let a = env.create(creator, "a", 1000, t, 0, None, &["bug"], 1, None, 1, vec![]).unwrap();
    let b = env.create(creator, "b", 1000, t, 0, None, &["bug"], 1, None, 1, vec![]).unwrap();
    let c = env.create(creator, "c", 1000, t, 0, None, &["bug"], 1, None, 1, vec![]).unwrap();
    assert_eq!(env.c.get_open_bounties_count(), 3);
    let r = env.c.cancel_bounty(creator, b).unwrap();
    env.apply(&r);
    assert_eq!(env.c.get_open_bounties_count(), 2);
    assert_eq!(env.c.get_status_count("open"), Ok(2));
    assert_eq!(env.c.get_bounties_by_tag("bug").unwrap(), vec![a, c]);
    env.c.raise_dispute(creator, a).unwrap();
    assert_eq!(env.c.get_open_bounties_count(), 1);
    assert_eq!(env.c.get_bounties_by_tag("bug").unwrap(), vec![c]);
    assert_eq!(env.c.get_open_bounties(None, 50).0, vec![c]);
}
