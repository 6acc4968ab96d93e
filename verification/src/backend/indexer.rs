//! Contract event indexer: extracts bounty ids from event topics and keeps
//! the ledger cursor, which never passes a ledger whose page was not fully
//! processed.
use vstd::prelude::*;
use crate::contract::symbols::str_eq;

verus! {

/// Events whose data payload is a single bounty id.
pub open spec fn is_single_value_event(name: Seq<char>) -> bool {
    ||| name == "bounty_claimed"@
    ||| name == "bounty_completed"@
    ||| name == "bounty_disputed"@
    ||| name == "bounty_cancelled"@
    ||| name == "bounty_expired"@
}

/// Events whose data payload is a tuple led by the bounty id.
pub open spec fn is_tuple_event(name: Seq<char>) -> bool {
    ||| name == "bounty_created"@
    ||| name == "reward_paid"@
    ||| name == "approval_recorded"@
    ||| name == "dispute_resolved"@
}

/// Events the indexer recognises.
pub open spec fn is_known_event(name: Seq<char>) -> bool {
    is_single_value_event(name) || is_tuple_event(name)
}

/// The events whose data payload is a single bounty id, in order.
pub fn single_value_events() -> (v: Vec<&'static str>)
    ensures
        v@.len() == 5,
        forall|i: int| 0 <= i < v@.len() ==> is_single_value_event(#[trigger] v@[i]@),
{
    vec!["bounty_claimed", "bounty_completed", "bounty_disputed", "bounty_cancelled", "bounty_expired"]
}

/// The events whose data payload is a tuple led by the bounty id, in order.
pub fn tuple_events() -> (v: Vec<&'static str>)
    ensures
        v@.len() == 4,
        forall|i: int| 0 <= i < v@.len() ==> is_tuple_event(#[trigger] v@[i]@),
{
    vec!["bounty_created", "reward_paid", "approval_recorded", "dispute_resolved"]
}

fn known_event(name: &str) -> (b: bool)
    ensures
        b == is_known_event(name@),
{
    str_eq(name, "bounty_claimed") || str_eq(name, "bounty_completed") || str_eq(
        name,
        "bounty_disputed",
    ) || str_eq(name, "bounty_cancelled") || str_eq(name, "bounty_expired") || str_eq(
        name,
        "bounty_created",
    ) || str_eq(name, "reward_paid") || str_eq(name, "approval_recorded") || str_eq(
        name,
        "dispute_resolved",
    )
}

/// The bounty id (hex) carried by an event with topics `topics` and data
/// `value_hex`: the data itself when the first topic names a recognised
/// event, otherwise none (no topic, or an unrecognised name).
pub fn extract_bounty_id_hex(topics: &[String], value_hex: &str) -> (r: Option<String>)
    ensures
        (topics@.len() > 0 && is_known_event(topics@[0]@)) ==> (r matches Some(s) && s@
            == value_hex@),
        !(topics@.len() > 0 && is_known_event(topics@[0]@)) ==> r is None,
{
    if topics.len() == 0 {
        return None;
    }
    if known_event(topics[0].as_str()) {
        Some(String::from_str(value_hex))
    } else {
        None
    }
}

/// Result of decoding a single event topic.
#[derive(Debug)]
pub enum TopicDecodeResult {
    /// The decoded topic.
    Decoded(String),
    /// The decode failed; carries a description of the failure.
    Failed(String),
}

/// One contract event as the indexer receives it.
#[derive(Debug)]
pub struct RawEvent {
    /// Decoded topics; the first is expected to be the event name.
    pub topics: Vec<TopicDecodeResult>,
    /// Hex-encoded event data.
    pub value_hex: String,
    /// The ledger the event was emitted in.
    pub ledger: u32,
}

/// State carried between polls: the last fully processed ledger.
#[derive(Debug)]
pub struct IndexerState {
    pub last_ledger: u32,
}

/// Whether an event's ledger is taken into account: its first topic
/// decoded (recognised or not).
pub open spec fn counts_toward_cursor(e: RawEvent) -> bool {
    e.topics@.len() > 0 && e.topics@[0] is Decoded
}

/// The highest ledger among `start` and the counted events of `events`.
pub open spec fn highest_ledger(start: u32, events: Seq<RawEvent>) -> u32
    decreases events.len(),
{
    if events.len() == 0 {
        start
    } else {
        let h = highest_ledger(start, events.drop_last());
        let e = events.last();
        if counts_toward_cursor(e) && e.ledger > h {
            e.ledger
        } else {
            h
        }
    }
}

/// The cursor after polling `events` from cursor `last`: the highest ledger
/// seen when the page is complete, otherwise unchanged.
pub open spec fn poll_effect(last: u32, events: Seq<RawEvent>, page_complete: bool) -> u32 {
    if page_complete {
        highest_ledger(last, events)
    } else {
        last
    }
}

/// Processes one page of events: the cursor moves to the highest ledger
/// seen only when the page is complete; a truncated page leaves it where it
/// was so the next poll fetches from the same boundary.
pub fn poll_once(state: &mut IndexerState, events: &[RawEvent], page_complete: bool)
    ensures
        final(state).last_ledger == poll_effect(old(state).last_ledger, events@, page_complete),
{
    let mut highest: u32 = state.last_ledger;
    let mut i: usize = 0;
    while i < events.len()
        invariant
            i <= events@.len(),
            highest == highest_ledger(old(state).last_ledger, events@.take(i as int)),
        decreases events@.len() - i,
    {
        let event = &events[i];
        let counted = event.topics.len() > 0 && match &event.topics[0] {
            TopicDecodeResult::Decoded(_) => true,
            TopicDecodeResult::Failed(_) => false,
        };
        proof {
            let prefix = events@.take(i as int + 1);
            assert(prefix.drop_last() =~= events@.take(i as int));
            assert(prefix.last() == *event);
        }
        if counted && event.ledger > highest {
            highest = event.ledger;
        }
        i = i + 1;
    }
    proof {
        assert(events@.take(i as int) =~= events@);
    }
    if page_complete {
        state.last_ledger = highest;
    }
}

/// Crash and resume: any number of interrupted polls (truncated pages)
/// followed by a complete poll of the re-fetched batch leave the cursor
/// exactly where a single complete poll would.
pub proof fn lemma_resume_after_interrupted_polls(
    start: u32,
    interrupted: Seq<Seq<RawEvent>>,
    batch: Seq<RawEvent>,
)
    ensures
        ({
            let after_crashes = interrupted.fold_left(
                start,
                |cursor: u32, page: Seq<RawEvent>| poll_effect(cursor, page, false),
            );
            poll_effect(after_crashes, batch, true) == poll_effect(start, batch, true)
        }),
    decreases interrupted.len(),
{
    if interrupted.len() > 0 {
        lemma_resume_after_interrupted_polls(start, interrupted.drop_last(), batch);
    }
}

/// The cursor never moves backwards: the highest ledger of a page is at
/// least the cursor it started from.
pub proof fn lemma_cursor_never_regresses(start: u32, events: Seq<RawEvent>)
    ensures
        highest_ledger(start, events) >= start,
    decreases events.len(),
{
    if events.len() > 0 {
        lemma_cursor_never_regresses(start, events.drop_last());
    }
}

/// The cursor after a complete page is the maximum of the starting cursor
/// and the ledgers of the events whose first topic decoded: at least each
/// of them, and equal to the start or to one of them.
pub proof fn lemma_cursor_is_highest_counted(start: u32, events: Seq<RawEvent>)
    ensures
        forall|i: int|
            0 <= i < events.len() && counts_toward_cursor(#[trigger] events[i]) ==> events[i].ledger
                <= highest_ledger(start, events),
        highest_ledger(start, events) == start || exists|i: int|
            0 <= i < events.len() && counts_toward_cursor(#[trigger] events[i]) && events[i].ledger
                == highest_ledger(start, events),
    decreases events.len(),
{
    if events.len() > 0 {
        let init = events.drop_last();
        lemma_cursor_is_highest_counted(start, init);
        let h = highest_ledger(start, init);
        assert forall|i: int|
            0 <= i < events.len() && counts_toward_cursor(#[trigger] events[i]) implies events[i].ledger
            <= highest_ledger(start, events) by {
            if i < events.len() - 1 {
                assert(init[i] == events[i]);
            }
        }
        if highest_ledger(start, events) != start {
            if highest_ledger(start, events) == h {
                let j = choose|j: int|
                    0 <= j < init.len() && counts_toward_cursor(#[trigger] init[j]) && init[j].ledger
                        == h;
                assert(events[j] == init[j]);
            } else {
                assert(counts_toward_cursor(events[events.len() - 1]));
            }
        }
    }
}

} // verus!
