use mergemint::contract::types::{Address, Transfer};
use mergemint::escrow::{Bounty, BountyContract, BountyStatus, EscrowError};
use std::collections::HashMap;

/// Token balances per (token, holder), moved by the transfers the contract
/// hands back.
#[derive(Default)]
struct Ledger {
    balances: HashMap<(Address, Address), i128>,
}

impl Ledger {
    fn mint(&mut self, token: Address, to: Address, amount: i128) {
        *self.balances.entry((token, to)).or_default() += amount;
    }
    fn apply(&mut self, t: &Transfer) {
        *self.balances.entry((t.token, t.from)).or_default() -= t.amount;
        *self.balances.entry((t.token, t.to)).or_default() += t.amount;
    }
    fn balance(&self, token: Address, holder: Address) -> i128 {
        *self.balances.get(&(token, holder)).unwrap_or(&0)
    }
}

const CONTRACT: Address = Address(900);
const TOKEN: Address = Address(800);

fn open_bounty(id: u64, creator: Address, reward_amount: i128, expiration_time: u64) -> Bounty {
    Bounty {
        id,
        creator,
        token_address: TOKEN,
        reward_amount,
        status: BountyStatus::Open,
        expiration_time,
    }
}

#[test]
fn escrow_refund_tests_test_cancel_bounty_refunds_escrow() {
    let mut ledger = Ledger::default();
    let mut contract = BountyContract::new(CONTRACT);
    let creator = Address(1);
    let reward_amount: i128 = 1000;
    ledger.mint(TOKEN, creator, reward_amount);
    assert_eq!(ledger.balance(TOKEN, creator), reward_amount);
    ledger.apply(&Transfer { token: TOKEN, from: creator, to: CONTRACT, amount: reward_amount });
    assert_eq!(ledger.balance(TOKEN, creator), 0);

    let bounty_id: u64 = 1;
    contract.set_bounty(bounty_id, open_bounty(bounty_id, creator, reward_amount, 86400));
    let refund = contract.cancel_bounty(bounty_id, creator).expect("creator may cancel");
    ledger.apply(&refund);

    assert_eq!(ledger.balance(TOKEN, creator), reward_amount);
    assert_eq!(ledger.balance(TOKEN, CONTRACT), 0);
    assert_eq!(contract.get_bounty(bounty_id).unwrap().status, BountyStatus::Cancelled);
}

#[test]
fn escrow_refund_tests_test_expire_bounty_refunds_escrow() {
    let mut ledger = Ledger::default();
    let mut contract = BountyContract::new(CONTRACT);
    let creator = Address(1);
    let reward_amount: i128 = 2000;
    ledger.mint(TOKEN, creator, reward_amount);
    ledger.apply(&Transfer { token: TOKEN, from: creator, to: CONTRACT, amount: reward_amount });

    let bounty_id: u64 = 2;
    let expiration_time = 100;
    contract.set_bounty(bounty_id, open_bounty(bounty_id, creator, reward_amount, expiration_time));
    let refund = contract.expire_bounty(bounty_id, expiration_time + 1).expect("expired");
    ledger.apply(&refund);

    assert_eq!(ledger.balance(TOKEN, creator), reward_amount);
    assert_eq!(ledger.balance(TOKEN, CONTRACT), 0);
    assert_eq!(contract.get_bounty(bounty_id).unwrap().status, BountyStatus::Expired);
}

#[test]
fn escrow_refund_tests_test_cancel_bounty_non_creator_fails() {
    let mut contract = BountyContract::new(CONTRACT);
    let creator = Address(1);
    let non_creator = Address(2);
    let bounty_id: u64 = 3;
    contract.set_bounty(bounty_id, open_bounty(bounty_id, creator, 500, 86400));
    let result = contract.cancel_bounty(bounty_id, non_creator);
    assert_eq!(result, Err(EscrowError::NotCreator));
    assert_eq!(EscrowError::NotCreator.message(), "Only creator can cancel bounty");
    assert_eq!(contract.get_bounty(bounty_id).unwrap().status, BountyStatus::Open);
}

#[test]
fn test_expire_bounty_before_expiration_fails() {
    let mut contract = BountyContract::new(CONTRACT);
    let bounty_id: u64 = 4;
    contract.set_bounty(bounty_id, open_bounty(bounty_id, Address(1), 750, 86400));
    let result = contract.expire_bounty(bounty_id, 0);
    assert_eq!(result, Err(EscrowError::NotExpired));
    assert_eq!(EscrowError::NotExpired.message(), "Bounty has not expired yet");
}

#[test]
fn expiry_at_the_exact_expiration_time_is_allowed() {
    let mut contract = BountyContract::new(CONTRACT);
    contract.set_bounty(5, open_bounty(5, Address(1), 10, 50));
    assert!(contract.expire_bounty(5, 50).is_ok());
}

#[test]
fn refunds_happen_at_most_once() {
    let mut contract = BountyContract::new(CONTRACT);
    contract.set_bounty(6, open_bounty(6, Address(1), 10, 50));
    assert!(contract.cancel_bounty(6, Address(1)).is_ok());
    assert_eq!(contract.cancel_bounty(6, Address(1)), Err(EscrowError::CancelNotOpen));
    assert_eq!(contract.expire_bounty(6, 1_000), Err(EscrowError::ExpireNotOpen));
    assert_eq!(EscrowError::CancelNotOpen.message(), "Can only cancel open bounties");
    assert_eq!(EscrowError::ExpireNotOpen.message(), "Can only expire open bounties");
}

#[test]
fn unknown_bounties_are_not_found() {
    let mut contract = BountyContract::new(CONTRACT);
    assert_eq!(contract.cancel_bounty(7, Address(1)), Err(EscrowError::BountyNotFound));
    assert_eq!(contract.expire_bounty(7, 1), Err(EscrowError::BountyNotFound));
    assert_eq!(EscrowError::BountyNotFound.message(), "Bounty not found");
    assert_eq!(contract.contract_address(), CONTRACT);
}
