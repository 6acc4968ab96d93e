#![allow(dead_code, unused_imports)]
use mergemint::contract::errors::{message, ContractError};
use mergemint::contract::state::MergeMintContract;
use mergemint::contract::types::{
    Address, BountyId, BountyStatus, ContractEvent, Milestone, Receipt, Resolution, Transfer,
};
use std::collections::HashMap;

const CONTRACT: Address = Address(1_000_000);

/// The contract plus the token balances its receipts move, and the ledger
/// sequence number calls run at.
struct Env {
    c: MergeMintContract,
    balances: HashMap<(Address, Address), i128>,
    sequence: u32,
    next_token: u64,
}

impl Env {
    fn new() -> Env {
        Env { c: MergeMintContract::new(CONTRACT), balances: HashMap::new(), sequence: 0, next_token: 500 }
    }

    fn token(&mut self) -> Address {
        self.next_token += 1;
        Address(self.next_token)
    }

    fn mint(&mut self, token: Address, to: Address, amount: i128) {
        *self.balances.entry((token, to)).or_default() += amount;
    }

    fn balance(&self, token: Address, holder: Address) -> i128 {
        *self.balances.get(&(token, holder)).unwrap_or(&0)
    }

    fn apply(&mut self, receipt: &Receipt) {
        for t in &receipt.transfers {
            apply_transfer(&mut self.balances, t);
        }
    }

    #[allow(clippy::too_many_arguments)]
    fn create(
        &mut self,
        creator: Address,
        title: &str,
        reward: i128,
        token: Address,
        min_reputation: u32,
        deadline: Option<u32>,
        tags: &[&str],
        max_assignees: u32,
        required_verifiers: Option<Vec<Address>>,
        approval_threshold: u32,
        milestones: Vec<Milestone>,
    ) -> Result<BountyId, ContractError> {
        let r = self.c.create_bounty(
            self.sequence,
            creator,
            title.to_string(),
            "desc".to_string(),
            reward,
            token,
            true,
            min_reputation,
            deadline,
            tags.iter().map(|t| t.to_string()).collect(),
            max_assignees,
            required_verifiers,
            approval_threshold,
            milestones,
        )?;
        self.apply(&r.1);
        Ok(r.0)
    }

    /// A bounty of 1000 in a fresh token, no reputation floor, one assignee.
    fn make_bounty(&mut self, creator: Address, title: &str, deadline: Option<u32>) -> BountyId {
        let token = self.token();
        self.create(creator, title, 1000, token, 0, deadline, &[], 1, None, 1, vec![]).unwrap()
    }

    /// A bounty whose reward is minted to the contract in a fresh token.
    fn make_bounty_with_token(
        &mut self,
        creator: Address,
        title: &str,
        reward: i128,
        deadline: Option<u32>,
    ) -> (BountyId, Address) {
        let token = self.token();
        self.mint(token, CONTRACT, reward);
        let id = self.create(creator, title, reward, token, 0, deadline, &[], 1, None, 1, vec![]).unwrap();
        (id, token)
    }

    fn claim(&mut self, who: Address, id: BountyId) -> Result<Receipt, ContractError> {
        let r = self.c.claim_bounty(self.sequence, who, id)?;
        self.apply(&r);
        Ok(r)
    }

    fn complete(&mut self, verifier: Address, id: BountyId) -> Result<Receipt, ContractError> {
        let r = self.c.complete_bounty(verifier, id)?;
        self.apply(&r);
        Ok(r)
    }

    fn dispute(&mut self, caller: Address, id: BountyId) -> Result<Receipt, ContractError> {
        let r = self.c.raise_dispute(caller, id)?;
        self.apply(&r);
        Ok(r)
    }

    fn cancel(&mut self, caller: Address, id: BountyId) -> Result<Receipt, ContractError> {
        let r = self.c.cancel_bounty(caller, id)?;
        self.apply(&r);
        Ok(r)
    }

    fn expire(&mut self, caller: Address, id: BountyId) -> Result<Receipt, ContractError> {
        let r = self.c.expire_bounty(self.sequence, caller, id)?;
        self.apply(&r);
        Ok(r)
    }

    fn resolve(&mut self, arbitrator: Address, id: BountyId, resolution: &str) -> Result<Receipt, ContractError> {
        let r = self.c.resolve_dispute(arbitrator, id, resolution)?;
        self.apply(&r);
        Ok(r)
    }

    fn approve(&mut self, verifier: Address, id: BountyId) -> Result<Receipt, ContractError> {
        let r = self.c.approve_completion(verifier, id)?;
        self.apply(&r);
        Ok(r)
    }
}

fn apply_transfer(balances: &mut HashMap<(Address, Address), i128>, t: &Transfer) {
    *balances.entry((t.token, t.from)).or_default() -= t.amount;
    *balances.entry((t.token, t.to)).or_default() += t.amount;
}

fn setup() -> (Env, Address, Address, Address) {
    (Env::new(), Address(1), Address(2), Address(3))
}

/// The refusal `r` carries, checked against its canonical message.
fn refusal<T: std::fmt::Debug>(r: Result<T, ContractError>, expected: &str) -> ContractError {
    let e = r.expect_err("the call must be refused");
    assert_eq!(message(e), expected);
    e
}

// ---------------------------------------------------------------------------
// Disputes
// ---------------------------------------------------------------------------

#[test]
fn test_raise_dispute_creator() {
    let (mut env, creator, contributor, _verifier) = setup();
    let id = env.make_bounty(creator, "dispute_1", None);
    env.claim(contributor, id).unwrap();
    let receipt = env.dispute(creator, id).unwrap();
    assert_eq!(receipt.events, vec![ContractEvent::BountyDisputed { id, caller: creator }]);
    assert_eq!(env.c.get_bounty(&id).unwrap().status, BountyStatus::Disputed);
}

#[test]
fn test_raise_dispute_assignee() {
    let (mut env, creator, contributor, _verifier) = setup();
    let id = env.make_bounty(creator, "dispute_2", None);
    env.claim(contributor, id).unwrap();
    env.dispute(contributor, id).unwrap();
    assert_eq!(env.c.get_bounty(&id).unwrap().status, BountyStatus::Disputed);
}

#[test]
fn test_raise_dispute_second_dispute_fails() {
    let (mut env, creator, contributor, _verifier) = setup();
    let id = env.make_bounty(creator, "dispute_2x", None);
    env.claim(contributor, id).unwrap();
    env.dispute(creator, id).unwrap();
    assert_eq!(refusal(env.dispute(creator, id), "bounty is disputed"), ContractError::BountyIsDisputed);
}

#[test]
fn test_raise_dispute_third_party_fails() {
    let (mut env, creator, contributor, _verifier) = setup();
    let third_party = Address(99);
    let id = env.make_bounty(creator, "dispute_3", None);
    env.claim(contributor, id).unwrap();
    assert_eq!(
        refusal(env.dispute(third_party, id), "only creator or assignee can raise dispute"),
        ContractError::OnlyCreatorOrAssigneeCanDispute
    );
}

// ---------------------------------------------------------------------------
// Claim guards
// ---------------------------------------------------------------------------

#[test]
fn test_second_claim_rejected_while_active() {
    let (mut env, creator, contributor, _verifier) = setup();
    let id1 = env.make_bounty(creator, "active1", None);
    let id2 = env.make_bounty(creator, "active2", None);
    env.claim(contributor, id1).unwrap();
    assert_eq!(
        refusal(env.claim(contributor, id2), "contributor already has an active claim"),
        ContractError::ContributorHasActiveClaim
    );
}

#[test]
fn test_second_contributor_cannot_claim_full_bounty() {
    let (mut env, creator, contributor, _verifier) = setup();
    let id = env.make_bounty(creator, "full_c", None);
    env.claim(contributor, id).unwrap();
    assert_eq!(refusal(env.claim(Address(55), id), "bounty already assigned"), ContractError::BountyAlreadyAssigned);
}

#[test]
fn test_complete_milestone_nonexistent_bounty() {
    let (mut env, _creator, _contributor, verifier) = setup();
    let fake_id = BountyId::from_sequence(42);
    assert_eq!(
        refusal(env.c.complete_milestone(verifier, fake_id, 0), "bounty not found"),
        ContractError::BountyNotFound
    );
}

#[test]
fn test_claim_bounty_idempotency_rejects_double_claim() {
    let (mut env, creator, contributor, _verifier) = setup();
    let id = env.make_bounty(creator, "idempotent", None);
    env.claim(contributor, id).unwrap();
    assert_eq!(
        refusal(env.claim(contributor, id), "bounty already claimed by contributor"),
        ContractError::AlreadyClaimed
    );
}

#[test]
fn test_claim_bounty_after_deadline_panics() {
    let (mut env, creator, contributor, _verifier) = setup();
    let id = env.make_bounty(creator, "dl_claim", Some(50));
    env.sequence = 100;
    assert_eq!(refusal(env.claim(contributor, id), "bounty deadline passed"), ContractError::BountyDeadlinePassed);
}

#[test]
fn test_claim_bounty_before_deadline_succeeds() {
    let (mut env, creator, contributor, _verifier) = setup();
    let id = env.make_bounty(creator, "dl_ok", Some(100));
    env.claim(contributor, id).unwrap();
    assert_eq!(env.c.get_bounty(&id).unwrap().status, BountyStatus::InProgress);
}

#[test]
fn claim_at_the_deadline_itself_is_allowed() {
    let (mut env, creator, contributor, _verifier) = setup();
    let id = env.make_bounty(creator, "dl_edge", Some(100));
    env.sequence = 100;
    assert!(env.claim(contributor, id).is_ok());
}

#[test]
fn test_claim_bounty_rejects_low_reputation() {
    let (mut env, creator, contributor, _verifier) = setup();
    let token = env.token();
    env.create(creator, "rep_b", 1000, token, 10, None, &[], 1, None, 1, vec![]).unwrap();
    let id = env.c.get_bounties_by_creator(&creator, None, 50).0[0];
    assert_eq!(
        refusal(env.claim(contributor, id), "contributor reputation is too low"),
        ContractError::ReputationTooLow
    );
}

#[test]
fn claim_of_unknown_bounty_is_not_found() {
    let (mut env, _creator, contributor, _verifier) = setup();
    assert_eq!(
        refusal(env.claim(contributor, BountyId::from_sequence(3)), "bounty not found"),
        ContractError::BountyNotFound
    );
}

// ---------------------------------------------------------------------------
// cancel_bounty refusals
// ---------------------------------------------------------------------------

#[test]
fn test_cancel_bounty_non_creator_fails() {
    let (mut env, creator, contributor, _verifier) = setup();
    let id = env.make_bounty(creator, "cancel_nc", None);
    assert_eq!(refusal(env.cancel(contributor, id), "not bounty creator"), ContractError::NotBountyCreator);
}

#[test]
fn test_cancel_bounty_claimed_bounty_fails() {
    let (mut env, creator, contributor, _verifier) = setup();
    let id = env.make_bounty(creator, "cancel_cl", None);
    env.claim(contributor, id).unwrap();
    assert_eq!(refusal(env.cancel(creator, id), "bounty not open"), ContractError::BountyNotOpen);
}

#[test]
fn test_cancel_bounty_completed_bounty_fails() {
    let (mut env, creator, contributor, verifier) = setup();
    let (id, _token) = env.make_bounty_with_token(creator, "cancel_done", 1000, None);
    env.claim(contributor, id).unwrap();
    env.complete(verifier, id).unwrap();
    assert_eq!(refusal(env.cancel(creator, id), "bounty not open"), ContractError::BountyNotOpen);
}

// ---------------------------------------------------------------------------
// Status index and counts
// ---------------------------------------------------------------------------

#[test]
fn test_status_index_open_on_create() {
    let (mut env, creator, _contributor, _verifier) = setup();
    let id = env.make_bounty(creator, "status_open", None);
    let open_ids = env.c.get_bounties_by_status("open", None, 50).unwrap().0;
    assert_eq!(open_ids, vec![id]);
}

#[test]
fn test_status_index_moves_on_cancel() {
    let (mut env, creator, _contributor, _verifier) = setup();
    let (id, _token) = env.make_bounty_with_token(creator, "bounty_z", 1000, None);
    env.cancel(creator, id).unwrap();
    assert_eq!(env.c.get_bounties_by_status("open", None, 50).unwrap().0.len(), 0);
    assert_eq!(env.c.get_bounties_by_status("cancelled", None, 50).unwrap().0, vec![id]);
}

#[test]
fn test_status_count_initial_zero() {
    let (env, _creator, _contributor, _verifier) = setup();
    for s in ["open", "in_progress", "completed", "cancelled"] {
        assert_eq!(env.c.get_status_count(s).unwrap(), 0);
    }
}

#[test]
fn test_status_count_one_on_create() {
    let (mut env, creator, _contributor, _verifier) = setup();
    env.make_bounty(creator, "count_one", None);
    assert_eq!(env.c.get_status_count("open").unwrap(), 1);
    assert_eq!(env.c.get_status_count("cancelled").unwrap(), 0);
    assert_eq!(env.c.get_status_count("completed").unwrap(), 0);
}

#[test]
fn test_status_count_moves_on_cancel() {
    let (mut env, creator, _contributor, _verifier) = setup();
    let (id, _token) = env.make_bounty_with_token(creator, "count_cancel", 1000, None);
    assert_eq!(env.c.get_status_count("open").unwrap(), 1);
    env.cancel(creator, id).unwrap();
    assert_eq!(env.c.get_status_count("open").unwrap(), 0);
    assert_eq!(env.c.get_status_count("cancelled").unwrap(), 1);
}

#[test]
fn test_status_count_multiple_bounties() {
    let (mut env, creator, _contributor, verifier) = setup();
    let (id1, _t) = env.make_bounty_with_token(creator, "count_multi_a", 1000, None);
    let id2 = env.make_bounty(creator, "count_multi_b", None);
    let _id3 = env.make_bounty(creator, "count_multi_c", None);
    assert_eq!(env.c.get_status_count("open").unwrap(), 3);
    env.cancel(creator, id1).unwrap();
    assert_eq!(env.c.get_status_count("open").unwrap(), 2);
    assert_eq!(env.c.get_status_count("cancelled").unwrap(), 1);
    env.claim(verifier, id2).unwrap();
    assert_eq!(env.c.get_status_count("open").unwrap(), 1);
    assert_eq!(env.c.get_status_count("in_progress").unwrap(), 1);
    assert_eq!(env.c.get_status_count("cancelled").unwrap(), 1);
}

#[test]
fn test_get_status_count_rejects_unknown_status() {
    let (env, _creator, _contributor, _verifier) = setup();
    assert_eq!(refusal(env.c.get_status_count("archived"), "invalid bounty status"), ContractError::InvalidStatus);
    assert_eq!(
        refusal(env.c.get_bounties_by_status("archived", None, 10), "invalid bounty status"),
        ContractError::InvalidStatus
    );
}

#[test]
fn test_status_count_open_on_create() {
    let (mut env, creator, _contributor, _verifier) = setup();
    assert_eq!(env.c.get_status_count("open").unwrap(), 0, "no bounties yet");
    env.make_bounty(creator, "sc_open", None);
    let open_count = env.c.get_status_count("open").unwrap();
    let open_ids = env.c.get_bounties_by_status("open", None, 50).unwrap().0;
    assert_eq!(open_count as usize, open_ids.len(), "count matches index length");
    assert_eq!(open_count, 1, "exactly one open bounty");
}

#[test]
fn test_status_count_across_transitions() {
    let (mut env, creator, contributor, _verifier) = setup();
    let id = env.make_bounty(creator, "sc_trans", None);
    assert_eq!(env.c.get_status_count("open").unwrap(), 1);
    assert_eq!(env.c.get_status_count("in_progress").unwrap(), 0);
    assert_eq!(env.c.get_status_count("cancelled").unwrap(), 0);
    env.claim(contributor, id).unwrap();
    assert_eq!(env.c.get_status_count("open").unwrap(), 0);
    assert_eq!(env.c.get_status_count("in_progress").unwrap(), 1);
    assert_eq!(
        env.c.get_status_count("in_progress").unwrap() as usize,
        env.c.get_bounties_by_status("in_progress", None, 50).unwrap().0.len()
    );
    let (id2, _t) = env.make_bounty_with_token(creator, "sc_trans2", 1000, None);
    assert_eq!(env.c.get_status_count("open").unwrap(), 1);
    env.cancel(creator, id2).unwrap();
    assert_eq!(env.c.get_status_count("open").unwrap(), 0);
    assert_eq!(env.c.get_status_count("cancelled").unwrap(), 1);
    assert_eq!(
        env.c.get_status_count("cancelled").unwrap() as usize,
        env.c.get_bounties_by_status("cancelled", None, 50).unwrap().0.len()
    );
}

#[test]
fn test_status_count_matches_index_length() {
    let (mut env, creator, _contributor, _verifier) = setup();
    for t in ["sc_multi1", "sc_multi2", "sc_multi3"] {
        env.make_bounty(creator, t, None);
    }
    assert_eq!(env.c.get_status_count("open").unwrap(), 3);
    assert_eq!(
        env.c.get_status_count("open").unwrap() as usize,
        env.c.get_bounties_by_status("open", None, 50).unwrap().0.len()
    );
}

#[test]
fn status_pages_hold_fifty_ids_each() {
    let (mut env, creator, _contributor, _verifier) = setup();
    let mut ids = Vec::new();
    for i in 0..60 {
        ids.push(env.make_bounty(creator, &format!("p{i}"), None));
    }
    assert_eq!(env.c.get_bounties_by_status_page(BountyStatus::Open, 0), ids[..50].to_vec());
    assert_eq!(env.c.get_bounties_by_status_page(BountyStatus::Open, 1), ids[50..].to_vec());
    assert!(env.c.get_bounties_by_status_page(BountyStatus::Open, 2).is_empty());
    assert_eq!(env.c.get_open_bounties_page_data(1), ids[50..].to_vec());
    let (first, next) = env.c.get_open_bounties(None, 20);
    assert_eq!(first, ids[..20].to_vec());
    assert_eq!(next, Some(20));
}

#[test]
fn removing_from_a_status_index_keeps_every_other_id() {
    // Cancelling bounties spread over several index pages (including the
    // last page, not at its end) leaves exactly the remaining ids listed.
    let (mut env, creator, _contributor, _verifier) = setup();
    let mut ids = Vec::new();
    for i in 0..105 {
        let token = env.token();
        env.mint(token, CONTRACT, 1000);
        ids.push(env.create(creator, &format!("r{i}"), 1000, token, 0, None, &[], 1, None, 1, vec![]).unwrap());
    }
    let cancelled = [3usize, 51, 101, 102, 0];
    for &k in &cancelled {
        env.cancel(creator, ids[k]).unwrap();
    }
    let mut open = env.c.get_bounties_by_status("open", None, 50).unwrap().0;
    let mut cursor = Some(50u32);
    while let Some(c) = cursor {
        let (page, next) = env.c.get_bounties_by_status("open", Some(c), 50).unwrap();
        open.extend(page);
        cursor = next;
    }
    let mut expected: Vec<BountyId> =
        ids.iter().enumerate().filter(|(k, _)| !cancelled.contains(k)).map(|(_, id)| *id).collect();
    open.sort_by_key(|id| id.sequence());
    expected.sort_by_key(|id| id.sequence());
    assert_eq!(open, expected);
    assert_eq!(env.c.get_status_count("open").unwrap(), 100);
    assert_eq!(env.c.get_status_count("cancelled").unwrap(), 5);
}

// ---------------------------------------------------------------------------
// Contributor metadata and batch queries
// ---------------------------------------------------------------------------

#[test]
fn test_update_contributor_metadata_stores_value() {
    let (mut env, _creator, contributor, _verifier) = setup();
    env.c.update_contributor_metadata(contributor, "ipfs_hash_1".to_string()).unwrap();
    let data = env.c.get_contributor(&contributor).unwrap();
    assert_eq!(data.metadata.as_deref(), Some("ipfs_hash_1"));
}

#[test]
fn test_update_contributor_metadata_overwrites() {
    let (mut env, _creator, contributor, _verifier) = setup();
    env.c.update_contributor_metadata(contributor, "old_uri".to_string()).unwrap();
    env.c.update_contributor_metadata(contributor, "new_uri".to_string()).unwrap();
    let data = env.c.get_contributor(&contributor).unwrap();
    assert_eq!(data.metadata.as_deref(), Some("new_uri"));
}

#[test]
fn test_update_contributor_metadata_rejects_empty_symbol() {
    let (mut env, _creator, contributor, _verifier) = setup();
    assert_eq!(
        refusal(env.c.update_contributor_metadata(contributor, String::new()), "metadata must not be empty"),
        ContractError::MetadataEmpty
    );
    assert!(env.c.get_contributor(&contributor).is_none());
}

#[test]
fn test_get_bounty_metas_batch() {
    let (mut env, creator, _contributor, _verifier) = setup();
    let id1 = env.make_bounty(creator, "meta1", None);
    let id2 = env.make_bounty(creator, "meta2", None);
    let unknown_id = BountyId(u64::MAX, u64::MAX, u64::MAX, u64::MAX);
    let results = env.c.get_bounty_metas(&vec![id1, unknown_id, id2]);
    assert_eq!(results.len(), 3);
    assert_eq!(results[0].expect("expected Some for known ID").title, "meta1");
    assert!(results[1].is_none(), "expected None for unknown ID");
    assert_eq!(results[2].expect("expected Some for known ID").title, "meta2");
    let bounties = env.c.get_bounties(&vec![unknown_id, id2]);
    assert!(bounties[0].is_none());
    assert_eq!(bounties[1].unwrap().creator, creator);
}

#[test]
fn test_double_complete_panics() {
    let (mut env, creator, _contributor, verifier) = setup();
    let id = env.make_bounty(creator, "dbl_complete", None);
    assert_eq!(refusal(env.complete(verifier, id), "bounty is not in progress"), ContractError::BountyNotInProgress);
}

#[test]
fn test_assignee_cannot_self_verify() {
    let (mut env, creator, contributor, _verifier) = setup();
    let id = env.make_bounty(creator, "self_verify", None);
    env.claim(contributor, id).unwrap();
    assert_eq!(
        refusal(env.complete(contributor, id), "verifier cannot be the assignee"),
        ContractError::VerifierCannotBeAssignee
    );
}

#[test]
fn active_bounty_and_history_follow_claim_and_completion() {
    let (mut env, creator, contributor, verifier) = setup();
    let (id, _t) = env.make_bounty_with_token(creator, "hist", 1000, None);
    assert_eq!(env.c.get_contributor_active_bounty(&contributor), None);
    env.claim(contributor, id).unwrap();
    assert_eq!(env.c.get_contributor_active_bounty(&contributor), Some(id));
    env.complete(verifier, id).unwrap();
    assert_eq!(env.c.get_contributor_active_bounty(&contributor), None);
    assert_eq!(env.c.get_contributor_bounty_history(&contributor), vec![id]);
    let profile = env.c.get_contributor(&contributor).unwrap();
    assert_eq!(profile.reputation, 10);
    assert_eq!(profile.total_earned, 1000);
    assert_eq!(profile.contribution_count, 1);
    assert_eq!(profile.active_claims, 0);
}

#[test]
fn top_contributors_rank_only_paid_contributors_with_ties_in_first_paid_order() {
    let (mut env, creator, _contributor, verifier) = setup();
    let (c1, c2, c3, c4, c5) = (Address(11), Address(12), Address(13), Address(14), Address(15));
    // c5 claims first but is paid last: ties follow the order of first payment.
    let (late, _t) = env.make_bounty_with_token(creator, "late", 1000, None);
    env.claim(c5, late).unwrap();
    for (who, title) in [(c1, "t1"), (c2, "t2"), (c1, "t3")] {
        let (id, _t) = env.make_bounty_with_token(creator, title, 1000, None);
        env.claim(who, id).unwrap();
        env.complete(verifier, id).unwrap();
    }
    env.complete(verifier, late).unwrap();
    // A claim or a metadata update alone does not rank a contributor.
    let (open_claim, _t) = env.make_bounty_with_token(creator, "open_claim", 1000, None);
    env.claim(c3, open_claim).unwrap();
    env.c.update_contributor_metadata(c4, "m4".to_string()).unwrap();
    let top: Vec<(Address, u32)> =
        env.c.get_top_contributors(10).iter().map(|c| (c.address, c.reputation)).collect();
    assert_eq!(top, vec![(c1, 20), (c2, 10), (c5, 10)]);
    let top2: Vec<Address> = env.c.get_top_contributors(2).iter().map(|c| c.address).collect();
    assert_eq!(top2, vec![c1, c2]);
    assert!(env.c.get_top_contributors(0).is_empty());
}
