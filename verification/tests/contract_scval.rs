use mergemint::contract::scval::{
    decode_bounty, decode_bounty_meta, decode_contributor, decode_symbol, encode_bounty,
    encode_bounty_meta, encode_contributor, symbol_scval,
};
use mergemint::contract::types::{Address, Bounty, BountyMeta, BountyStatus, Contributor};

fn bounty(creator: Address, reward_token: Address, amount: i128, max: u32, status: BountyStatus) -> Bounty {
    Bounty {
        creator,
        reward_amount: amount,
        reward_token,
        assignees: Vec::new(),
        max_assignees: max,
        status,
        min_reputation: 50,
        deadline: Some(12345),
        required_verifiers: None,
        approval_threshold: 1,
        tags: Vec::new(),
        milestones: Vec::new(),
    }
}

#[test]
fn test_symbol_scval_roundtrip() {
    let sym = "test_symbol".to_string();
    let encoded = symbol_scval(&sym);
    let decoded = decode_symbol(&encoded);
    assert_eq!(decoded, sym);
}

#[test]
fn test_bounty_roundtrip() {
    let creator = Address(1);
    let reward_token = Address(2);
    let status = BountyStatus::Open;
    let reward_amount: i128 = 1000;
    let max_assignees: u32 = 5;

    let (dec_creator, dec_amount, dec_token, dec_assignees, dec_status) =
        decode_bounty(&creator, reward_amount, &reward_token, max_assignees, &status);

    assert_eq!(dec_creator, creator);
    assert_eq!(dec_amount, reward_amount);
    assert_eq!(dec_token, reward_token);
    assert_eq!(dec_assignees, max_assignees);
    assert_eq!(dec_status, status);
}

#[test]
fn test_contributor_roundtrip() {
    let address = Address(7);
    let (dec_addr, dec_rep, dec_earned, dec_contrib, dec_claims) =
        decode_contributor(&address, 100, 5000, 10, 2);
    assert_eq!(dec_addr, address);
    assert_eq!(dec_rep, 100);
    assert_eq!(dec_earned, 5000);
    assert_eq!(dec_contrib, 10);
    assert_eq!(dec_claims, 2);
}

#[test]
fn test_bounty_meta_roundtrip() {
    let title = "bug_fix".to_string();
    let description = "Fix the critical bug".to_string();
    let (dec_title, dec_desc) = decode_bounty_meta(&title, &description);
    assert_eq!(dec_title, title);
    assert_eq!(dec_desc, description);
}

#[test]
fn test_encode_bounty_with_full_struct() {
    let creator = Address(1);
    let reward_token = Address(2);
    let b = bounty(creator, reward_token, 2000, 3, BountyStatus::InProgress);

    let (enc_creator, enc_amount, enc_token, enc_assignees, enc_status) = encode_bounty(&b);
    assert_eq!(enc_creator, creator);
    assert_eq!(enc_amount, 2000);
    assert_eq!(enc_token, reward_token);
    assert_eq!(enc_assignees, 3);
    assert_eq!(enc_status, BountyStatus::InProgress);

    let (dec_creator, dec_amount, dec_token, dec_assignees, dec_status) =
        decode_bounty(&enc_creator, enc_amount, &enc_token, enc_assignees, &enc_status);
    assert_eq!(dec_creator, creator);
    assert_eq!(dec_amount, 2000);
    assert_eq!(dec_token, reward_token);
    assert_eq!(dec_assignees, 3);
    assert_eq!(dec_status, BountyStatus::InProgress);
}

#[test]
fn test_encode_contributor_with_full_struct() {
    let address = Address(3);
    let contributor = Contributor {
        address,
        reputation: 250,
        total_earned: 15000,
        contribution_count: 25,
        active_claims: 3,
        metadata: None,
    };
    let (enc_addr, enc_rep, enc_earned, enc_contrib, enc_claims) = encode_contributor(&contributor);
    assert_eq!(enc_addr, address);
    assert_eq!(enc_rep, 250);
    assert_eq!(enc_earned, 15000);
    assert_eq!(enc_contrib, 25);
    assert_eq!(enc_claims, 3);

    let (dec_addr, dec_rep, dec_earned, dec_contrib, dec_claims) =
        decode_contributor(&enc_addr, enc_rep, enc_earned, enc_contrib, enc_claims);
    assert_eq!(dec_addr, address);
    assert_eq!(dec_rep, 250);
    assert_eq!(dec_earned, 15000);
    assert_eq!(dec_contrib, 25);
    assert_eq!(dec_claims, 3);
}

#[test]
fn test_encode_decode_bounty_boundaries() {
    let creator = Address(1);
    let reward_token = Address(2);
    let extremes: [i128; 4] = [i128::MIN, i128::MIN + 1, i128::MAX - 1, i128::MAX];
    for amount in extremes {
        let b = bounty(creator, reward_token, amount, u32::MAX, BountyStatus::Open);
        let (c, a, t, m, s) = encode_bounty(&b);
        let (dec_creator, dec_amount, dec_token, dec_assignees, dec_status) =
            decode_bounty(&c, a, &t, m, &s);
        assert_eq!(dec_creator, creator);
        assert_eq!(dec_amount, amount, "reward_amount boundary must round-trip");
        assert_eq!(dec_token, reward_token);
        assert_eq!(dec_assignees, u32::MAX);
        assert_eq!(dec_status, BountyStatus::Open);
    }
}

#[test]
fn test_encode_decode_contributor_boundaries() {
    let address = Address(4);
    for total_earned in [i128::MIN, i128::MAX] {
        let contributor = Contributor {
            address,
            reputation: u32::MAX,
            total_earned,
            contribution_count: u32::MAX,
            active_claims: u32::MAX,
            metadata: None,
        };
        let (a, r, e, n, k) = encode_contributor(&contributor);
        let (dec_addr, dec_rep, dec_earned, dec_contrib, dec_claims) = decode_contributor(&a, r, e, n, k);
        assert_eq!(dec_addr, address);
        assert_eq!(dec_rep, u32::MAX);
        assert_eq!(dec_earned, total_earned, "total_earned boundary must round-trip");
        assert_eq!(dec_contrib, u32::MAX);
        assert_eq!(dec_claims, u32::MAX);
    }
}

#[test]
fn test_encode_decode_bounty_meta_empty_string_boundary() {
    let title = "empty_desc".to_string();
    let description = String::new();
    let (enc_title, enc_desc) =
        encode_bounty_meta(&BountyMeta { title: title.clone(), description: description.clone() });
    let (dec_title, dec_desc) = decode_bounty_meta(&enc_title, &enc_desc);
    assert_eq!(dec_title, title);
    assert_eq!(dec_desc, description);
    assert_eq!(dec_desc.len(), 0, "empty description must survive the round-trip");
}

#[test]
fn test_symbol_scval_empty_boundary() {
    let sym = String::new();
    let encoded = symbol_scval(&sym);
    let decoded = decode_symbol(&encoded);
    assert_eq!(decoded, sym);
}
