use mergemint::backend::indexer::{
    extract_bounty_id_hex, poll_once, single_value_events, tuple_events, IndexerState, RawEvent,
    TopicDecodeResult,
};

// ── helpers ──────────────────────────────────────────────────────────────

fn ok_event(name: &str, ledger: u32) -> RawEvent {
    RawEvent {
        topics: vec![TopicDecodeResult::Decoded(name.to_owned())],
        value_hex: "deadbeef".to_owned(),
        ledger,
    }
}

fn err_event(ledger: u32) -> RawEvent {
    RawEvent {
        topics: vec![TopicDecodeResult::Failed("unexpected XDR tag".to_owned())],
        value_hex: String::new(),
        ledger,
    }
}

// ── Issue 1: last_ledger regression guard ─────────────────────────────

/// REGRESSION GUARD
///
/// `last_ledger` must NOT advance when the page is incomplete.  A full
/// page of events up to ledger 200 must not move the cursor if
/// `page_complete` is false — the next poll must re-start from the
/// previous `last_ledger` (100) to avoid skipping events.
#[test]
fn test_last_ledger_does_not_advance_on_partial_page() {
    let mut state = IndexerState { last_ledger: 100 };

    let events = vec![
        ok_event("bounty_created", 150),
        ok_event("bounty_claimed", 200),
    ];

    // Simulate a truncated page (page_complete = false).
    poll_once(&mut state, &events, false);

    assert_eq!(
        state.last_ledger, 100,
        "last_ledger must not advance on a truncated page"
    );
}

/// Complementary check: `last_ledger` DOES advance on a complete page.
#[test]
fn test_last_ledger_advances_on_complete_page() {
    let mut state = IndexerState { last_ledger: 100 };

    let events = vec![
        ok_event("bounty_created", 150),
        ok_event("bounty_claimed", 200),
    ];

    poll_once(&mut state, &events, true);

    assert_eq!(
        state.last_ledger, 200,
        "last_ledger must advance to the highest ledger on a complete page"
    );
}

/// An empty complete page must not regress last_ledger below its current
/// value.
#[test]
fn test_last_ledger_unchanged_on_empty_complete_page() {
    let mut state = IndexerState { last_ledger: 300 };
    poll_once(&mut state, &[], true);
    assert_eq!(state.last_ledger, 300);
}

// ── Issue 2: unrecognised event warning ───────────────────────────────

/// An event whose name is not in either SINGLE_VALUE_EVENTS or TUPLE_EVENTS
/// must still allow last_ledger to advance (we don't want unrecognised
/// events to block progress) and must trigger the warn path.
///
/// The tracing::warn! path is exercised here; capture tracing output in
/// an integration harness to assert the exact message is emitted.
#[test]
fn test_unrecognized_event_does_not_block_ledger_advance() {
    let mut state = IndexerState { last_ledger: 10 };

    // "bounty_upgraded" is a synthetic future event name not in any list.
    let events = vec![ok_event("bounty_upgraded", 20)];

    // With a complete page the ledger must advance despite the unknown name.
    poll_once(&mut state, &events, true);

    assert_eq!(
        state.last_ledger, 20,
        "unrecognised event must not block ledger advancement"
    );
}

/// `extract_bounty_id_hex` must return None for an unrecognised name,
/// which is the signal for `poll_once` to emit the warning.
#[test]
fn test_extract_bounty_id_hex_returns_none_for_unknown_event() {
    let result = extract_bounty_id_hex(&["bounty_upgraded".to_owned()], "cafebabe");
    assert!(
        result.is_none(),
        "unrecognised event name must yield None from extract_bounty_id_hex"
    );
}

/// `extract_bounty_id_hex` must return Some for every known event.
#[test]
fn test_extract_bounty_id_hex_known_events() {
    let known: Vec<&str> = single_value_events()
        .into_iter()
        .chain(tuple_events())
        .collect();

    for name in known {
        let result = extract_bounty_id_hex(&[name.to_owned()], "aabbccdd");
        assert!(
            result.is_some(),
            "expected Some for known event '{name}', got None"
        );
    }
}

// ── Issue 3: decode error logging ─────────────────────────────────────

/// An event with a decode-error topic must be skipped (not panic) and
/// good events on the same page must still advance last_ledger.
#[test]
fn test_decode_error_event_is_skipped_gracefully() {
    let mut state = IndexerState { last_ledger: 50 };

    let events = vec![
        err_event(60), // malformed topic → warn + skip
        ok_event("bounty_claimed", 70),
    ];

    poll_once(&mut state, &events, true);

    assert_eq!(
        state.last_ledger, 70,
        "decode-error events must be skipped; good events must still advance last_ledger"
    );
}

/// A partial page of decode-error events must not advance last_ledger.
#[test]
fn test_all_decode_error_events_partial_page() {
    let mut state = IndexerState { last_ledger: 50 };
    let events = vec![err_event(60), err_event(70)];
    poll_once(&mut state, &events, false);
    assert_eq!(state.last_ledger, 50);
}

/// On a complete page consisting entirely of decode-error events,
/// last_ledger stays at its prior value because no valid ledger numbers
/// were collected (all events were skipped before updating highest_ledger).
#[test]
fn test_all_decode_error_events_complete_page_no_valid_ledger() {
    let mut state = IndexerState { last_ledger: 50 };
    let events = vec![err_event(60), err_event(70)];
    poll_once(&mut state, &events, true);
    // highest_ledger never advanced past 50 because every event was skipped.
    assert_eq!(state.last_ledger, 50);
}

// ── Crash-resume: cursor correctness after a crash mid-batch ──────────
//
// `IndexerState.last_ledger` is the only piece of state persisted between
// runs, so "resuming correctly" means: after a crash that interrupts a
// batch before it is fully processed, the cursor must be exactly where it
// was before the crash — not advanced (which would skip the unprocessed
// remainder of the batch) and not regressed (which would reprocess events
// already handled in a prior, completed run).

/// Simulates a process crash partway through a batch: the run that
/// crashes only ever sees a *prefix* of the batch and is killed before
/// the page is marked complete (`page_complete = false`), mirroring a
/// process that dies mid-loop before reaching the completion check.
/// `last_ledger` must therefore stay exactly where it was.
///
/// On restart the indexer re-fetches the same batch from `last_ledger`
/// (Horizon/Soroban RPC pagination is cursor-based, so this is exactly
/// what a real restart would do) and this time runs it to completion.
/// The resumed run must land on the correct highest ledger — proving no
/// events were skipped (cursor didn't jump ahead of the crash) and none
/// were double-processed (the resumed run is a single, ordinary
/// `poll_once` call, not a replay of partial work already applied).
#[test]
fn test_indexer_resumes_from_correct_cursor_after_crash_mid_batch() {
    let mut state = IndexerState { last_ledger: 100 };

    let full_batch = vec![
        ok_event("bounty_created", 110),
        ok_event("bounty_claimed", 120),
        ok_event("reward_paid", 130),
    ];

    // ── Crash: the process dies after seeing only the first event of the
    // batch, before the page was ever marked complete.
    let seen_before_crash = &full_batch[..1];
    poll_once(&mut state, seen_before_crash, false);
    assert_eq!(
        state.last_ledger, 100,
        "cursor must not advance past a batch interrupted by a crash"
    );

    // ── Restart: resumes from last_ledger (100), re-fetches the full
    // batch, and this time processes it to completion.
    poll_once(&mut state, &full_batch, true);
    assert_eq!(
        state.last_ledger, 130,
        "resumed run must advance to the highest ledger in the re-fetched batch, \
         proving no events were skipped or reprocessed"
    );
}

/// Two consecutive crashes must each leave the cursor untouched; only the
/// eventual completed run may advance it. Guards against an off-by-one
/// that only shows up after repeated interruptions.
#[test]
fn test_indexer_cursor_stable_across_repeated_crashes() {
    let mut state = IndexerState { last_ledger: 500 };
    let batch = vec![
        ok_event("bounty_created", 510),
        ok_event("bounty_claimed", 520),
    ];

    // Crash on attempt 1: nothing processed at all.
    poll_once(&mut state, &[], false);
    assert_eq!(state.last_ledger, 500);

    // Crash on attempt 2: partial page again.
    poll_once(&mut state, &batch[..1], false);
    assert_eq!(state.last_ledger, 500);

    // Attempt 3 succeeds: the resumed run picks up from the same cursor
    // and completes.
    poll_once(&mut state, &batch, true);
    assert_eq!(state.last_ledger, 520);
}

#[test]
fn extract_bounty_id_hex_returns_none_without_topics() {
    assert_eq!(extract_bounty_id_hex(&[], "cafebabe"), None);
}

#[test]
fn extract_bounty_id_hex_returns_the_value_for_known_events() {
    assert_eq!(
        extract_bounty_id_hex(&["reward_paid".to_owned()], "cafebabe"),
        Some("cafebabe".to_string())
    );
}

#[test]
fn events_without_topics_do_not_move_the_cursor() {
    let mut state = IndexerState { last_ledger: 5 };
    let events = vec![RawEvent { topics: vec![], value_hex: String::new(), ledger: 90 }];
    poll_once(&mut state, &events, true);
    assert_eq!(state.last_ledger, 5);
}

#[test]
fn lower_ledgers_never_move_the_cursor_back() {
    let mut state = IndexerState { last_ledger: 500 };
    let events = vec![ok_event("bounty_created", 10), ok_event("bounty_claimed", 20)];
    poll_once(&mut state, &events, true);
    assert_eq!(state.last_ledger, 500);
}
