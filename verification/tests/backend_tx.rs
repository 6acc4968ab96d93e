use mergemint::backend::db::{DbStore, IdempotencyEntry, IdempotencyStore};
use mergemint::backend::routes::tx::{
    build_payout_xdr, check_idempotency_key, fetch_bounty_record, finalize_idempotency_key,
    idempotency_check_from_entry, resolve_dispute_decision, self_claim_decision, AppError, Bounty,
    IdempotencyCheck, ResolveDisputeRequest, SelfClaimRequest, SELF_CLAIM_RATE_LIMIT,
    SELF_CLAIM_RATE_WINDOW_SECS,
};

#[test]
fn internal_error_body_does_not_contain_raw_detail() {
    let secret = "db password=hunter2 at 10.0.0.3";
    let err = AppError::internal(secret).client_view();
    assert_eq!(err.code, 500);
    assert_eq!(err.message, "internal server error");
    assert!(!err.message.contains("hunter2"));
}

#[test]
fn manually_constructed_500_is_redacted() {
    let err = AppError { code: 500, message: "stack trace: panic at rpc.rs:42".to_string() };
    let sent = err.client_view();
    assert_eq!(sent.code, 500);
    assert_eq!(sent.message, "internal server error");
    let err = AppError { code: 503, message: "upstream horizon timeout".to_string() };
    let sent = err.client_view();
    assert_eq!(sent.code, 503);
    assert_eq!(sent.message, "internal server error");
}

#[test]
fn client_errors_preserve_message() {
    for (code, msg) in [(400u16, "bad input"), (404, "bounty not found"), (429, "slow down")] {
        let sent = AppError { code, message: msg.to_string() }.client_view();
        assert_eq!(sent.code, code);
        assert_eq!(sent.message, msg);
    }
}

#[test]
fn bad_request_into_response_preserves_message() {
    let err = AppError::bad_request("corrupt bounty record".to_string());
    assert_eq!(err.code, 400);
    let sent = err.client_view();
    assert_eq!(sent.code, 400);
    assert_eq!(sent.message, "corrupt bounty record");
    assert_eq!(AppError::not_found("x".to_string()).code, 404);
    assert_eq!(AppError::too_many_requests("x".to_string()).code, 429);
}

#[test]
fn invalid_status_codes_are_sent_as_redacted_500() {
    let sent = AppError { code: 42, message: "weird".to_string() }.client_view();
    assert_eq!(sent.code, 500);
    assert_eq!(sent.message, "internal server error");
    let sent = AppError { code: 1000, message: "weird".to_string() }.client_view();
    assert_eq!(sent.code, 500);
    let sent = AppError { code: 999, message: "odd but valid".to_string() }.client_view();
    assert_eq!(sent.code, 999);
    assert_eq!(sent.message, "odd but valid");
}

#[test]
fn self_claim_without_idempotency_key_works_as_before() {
    let mut store = IdempotencyStore::new();
    assert!(matches!(check_idempotency_key(None, &mut store), IdempotencyCheck::NotRequested));
    assert!(matches!(check_idempotency_key(Some(""), &mut store), IdempotencyCheck::NotRequested));
    assert!(store.entries.is_empty());
}

#[test]
fn self_claim_replays_cached_response_for_repeated_key() {
    let mut store = IdempotencyStore::new();
    let key = match check_idempotency_key(Some("abc"), &mut store) {
        IdempotencyCheck::Proceed(key) => key,
        other => panic!("expected Proceed, got {other:?}"),
    };
    assert_eq!(key, "abc");
    finalize_idempotency_key(&mut store, key, Some(r#"{"ok":true}"#.to_string()));
    match check_idempotency_key(Some("abc"), &mut store) {
        IdempotencyCheck::Replay(body) => assert_eq!(body, r#"{"ok":true}"#),
        other => panic!("expected Replay, got {other:?}"),
    }
}

#[test]
fn self_claim_returns_409_for_in_flight_key() {
    let mut store = IdempotencyStore::new();
    assert!(matches!(check_idempotency_key(Some("k"), &mut store), IdempotencyCheck::Proceed(_)));
    match check_idempotency_key(Some("k"), &mut store) {
        IdempotencyCheck::Conflict(err) => {
            assert_eq!(err.code, 409);
            assert_eq!(err.message, "a request with this Idempotency-Key is already in progress");
        }
        other => panic!("expected Conflict, got {other:?}"),
    }
}

#[test]
fn self_claim_error_releases_the_idempotency_key() {
    let mut store = IdempotencyStore::new();
    assert!(matches!(check_idempotency_key(Some("k"), &mut store), IdempotencyCheck::Proceed(_)));
    finalize_idempotency_key(&mut store, "k".to_string(), None);
    assert!(store.entries.get("k").is_none());
    assert!(matches!(check_idempotency_key(Some("k"), &mut store), IdempotencyCheck::Proceed(_)));
}

#[test]
fn check_from_entry_maps_each_outcome() {
    assert!(matches!(
        idempotency_check_from_entry(&IdempotencyEntry::Completed("b".to_string())),
        IdempotencyCheck::Replay(body) if body == "b"
    ));
    assert!(matches!(
        idempotency_check_from_entry(&IdempotencyEntry::InFlight),
        IdempotencyCheck::Conflict(err) if err.code == 409
    ));
}

fn bounty() -> Bounty {
    Bounty { id: "b1".to_string(), creator: "carol".to_string(), amount: 1500, expires_at: 1_000 }
}

#[test]
fn payout_xdr_names_bounty_winner_and_amount() {
    assert_eq!(build_payout_xdr(&bounty(), "alice"), "XDR:bounty=b1,winner=alice,amount=1500");
    let zero = Bounty { amount: 0, ..bounty() };
    assert_eq!(build_payout_xdr(&zero, "x"), "XDR:bounty=b1,winner=x,amount=0");
    let max = Bounty { amount: u64::MAX, ..bounty() };
    assert_eq!(
        build_payout_xdr(&max, "x"),
        format!("XDR:bounty=b1,winner=x,amount={}", u64::MAX)
    );
}

#[test]
fn only_the_creator_may_arbitrate() {
    let req = ResolveDisputeRequest {
        bounty_id: "b1".to_string(),
        arbitrator: "mallory".to_string(),
        winner: "alice".to_string(),
    };
    let err = resolve_dispute_decision(&bounty(), &req).unwrap_err();
    assert_eq!(err.code, 400);
    assert_eq!(err.message, "only the bounty creator may act as arbitrator");

    let req = ResolveDisputeRequest { arbitrator: "carol".to_string(), ..req };
    let resp = resolve_dispute_decision(&bounty(), &req).unwrap();
    assert!(resp.ok);
    assert_eq!(resp.xdr.as_deref(), Some("XDR:bounty=b1,winner=alice,amount=1500"));
}

#[test]
fn self_claim_only_after_the_staleness_window() {
    let req = SelfClaimRequest { bounty_id: "b1".to_string(), claimant: "alice".to_string() };
    let err = self_claim_decision(&bounty(), &req, 1_000).unwrap_err();
    assert_eq!(err.code, 400);
    assert_eq!(err.message, "self-claim not yet available: staleness window has not elapsed");
    let resp = self_claim_decision(&bounty(), &req, 1_001).unwrap();
    assert_eq!(resp.xdr.as_deref(), Some("XDR:bounty=b1,winner=alice,amount=1500"));
}

#[test]
fn missing_records_are_404() {
    let mut db = DbStore::new();
    let err = fetch_bounty_record(&db, "b1").unwrap_err();
    assert_eq!(err.code, 404);
    assert_eq!(err.message, "bounty not found");
    db.records.insert("b1".to_string(), "{}".to_string());
    assert_eq!(fetch_bounty_record(&db, "b1").unwrap(), "{}");
}

#[test]
fn self_claim_rate_defaults() {
    assert_eq!(SELF_CLAIM_RATE_LIMIT, 5);
    assert_eq!(SELF_CLAIM_RATE_WINDOW_SECS, 60);
}
