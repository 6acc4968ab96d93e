//! Per-key token-bucket rate limiter protecting the relay-wallet endpoints.
use vstd::prelude::*;
use std::time::{Duration, Instant};
use crate::backend::clock::{duration_nanos, elapsed_since, instant_now, spec_duration_nanos};
use crate::backend::store::StrMap;

verus! {

/// The tokens left to a key and the start of its current window, in
/// nanoseconds on the limiter's clock.
#[derive(Copy, Clone, Debug, PartialEq, Eq, Structural)]
pub struct BucketState {
    pub tokens: u32,
    pub window_start: u128,
}

/// Fixed-window token bucket keyed by an arbitrary string (such as a
/// claimant address).
#[derive(Debug)]
pub struct TokenBucketLimiter {
    max_tokens: u32,
    window_nanos: u128,
    clock: Instant,
    buckets: StrMap<BucketState>,
}

/// The bucket a key is charged against at time `now`: its stored bucket (a
/// full one for a key never seen), refilled when at least a whole window has
/// passed since its window started.
pub open spec fn current_bucket(max: u32, window: u128, stored: Option<BucketState>, now: u128) -> BucketState {
    let b = match stored {
        Some(s) => s,
        None => BucketState { tokens: max, window_start: now },
    };
    let elapsed: int = if now >= b.window_start {
        now - b.window_start
    } else {
        0
    };
    if elapsed >= window {
        BucketState { tokens: max, window_start: now }
    } else {
        b
    }
}

/// One acquisition at time `now`: the bucket kept afterwards and whether the
/// request is allowed (a token was left and is consumed).
pub open spec fn acquire_step(max: u32, window: u128, stored: Option<BucketState>, now: u128) -> (
    BucketState,
    bool,
) {
    let b = current_bucket(max, window, stored, now);
    if b.tokens == 0 {
        (b, false)
    } else {
        (BucketState { tokens: (b.tokens - 1) as u32, window_start: b.window_start }, true)
    }
}

/// The stored bucket of `key`, if any.
pub open spec fn stored_bucket(m: Map<Seq<char>, BucketState>, key: Seq<char>) -> Option<
    BucketState,
> {
    if m.contains_key(key) {
        Some(m[key])
    } else {
        None
    }
}

impl TokenBucketLimiter {
    /// Tokens each key gets per window.
    pub closed spec fn max_tokens(&self) -> u32 {
        self.max_tokens
    }

    /// Window length in nanoseconds.
    pub closed spec fn window(&self) -> u128 {
        self.window_nanos
    }

    /// The bucket of every key seen so far.
    pub closed spec fn buckets(&self) -> Map<Seq<char>, BucketState> {
        self.buckets@
    }

    /// Every bucket holds at most the maximum of tokens.
    pub closed spec fn wf(&self) -> bool {
        forall|k: Seq<char>| #[trigger]
            self.buckets@.contains_key(k) ==> self.buckets@[k].tokens <= self.max_tokens
    }

    /// A limiter granting `max_tokens` requests per key per `window`.
    pub fn new(max_tokens: u32, window: Duration) -> (l: TokenBucketLimiter)
        ensures
            l.wf(),
            l.max_tokens() == max_tokens,
            l.window() == spec_duration_nanos(window),
            l.buckets() == Map::<Seq<char>, BucketState>::empty(),
    {
        TokenBucketLimiter {
            max_tokens,
            window_nanos: duration_nanos(&window),
            clock: instant_now(),
            buckets: StrMap::new(),
        }
    }

    /// One acquisition for `key` at time `now` (nanoseconds on the
    /// limiter's clock): `true` when allowed, consuming one token.
    pub fn try_acquire_at(&mut self, key: &str, now: u128) -> (allowed: bool)
        requires
            old(self).wf(),
        ensures
            final(self).wf(),
            final(self).max_tokens() == old(self).max_tokens(),
            final(self).window() == old(self).window(),
            ({
                let step = acquire_step(
                    old(self).max_tokens(),
                    old(self).window(),
                    stored_bucket(old(self).buckets(), key@),
                    now,
                );
                final(self).buckets() == old(self).buckets().insert(key@, step.0) && allowed
                    == step.1
            }),
    {
        let mut b = match self.buckets.get(key) {
            Some(s) => *s,
            None => BucketState { tokens: self.max_tokens, window_start: now },
        };
        let elapsed: u128 = if now >= b.window_start {
            now - b.window_start
        } else {
            0
        };
        if elapsed >= self.window_nanos {
            b = BucketState { tokens: self.max_tokens, window_start: now };
        }
        let allowed = if b.tokens == 0 {
            false
        } else {
            b.tokens = b.tokens - 1;
            true
        };
        self.buckets.insert(String::from_str(key), b);
        allowed
    }

    /// One acquisition for `key` now: `true` when allowed, consuming one
    /// token. The time is read from the monotonic clock, so the contract
    /// holds for whatever time was read.
    pub fn try_acquire(&mut self, key: &str) -> (allowed: bool)
        requires
            old(self).wf(),
        ensures
            final(self).wf(),
            final(self).max_tokens() == old(self).max_tokens(),
            final(self).window() == old(self).window(),
            exists|now: u128|
                #![trigger acquire_step(old(self).max_tokens(), old(self).window(), stored_bucket(old(self).buckets(), key@), now)]
                final(self).buckets() == old(self).buckets().insert(
                    key@,
                    acquire_step(
                        old(self).max_tokens(),
                        old(self).window(),
                        stored_bucket(old(self).buckets(), key@),
                        now,
                    ).0,
                ) && allowed == acquire_step(
                    old(self).max_tokens(),
                    old(self).window(),
                    stored_bucket(old(self).buckets(), key@),
                    now,
                ).1,
    {
        let now = duration_nanos(&elapsed_since(&self.clock));
        self.try_acquire_at(key, now)
    }
}

/// The bucket after a run of acquisitions at `times` starting from
/// `stored`, and how many of them were allowed.
pub open spec fn acquire_run(max: u32, window: u128, stored: Option<BucketState>, times: Seq<u128>) -> (
    Option<BucketState>,
    nat,
)
    decreases times.len(),
{
    if times.len() == 0 {
        (stored, 0)
    } else {
        let before = acquire_run(max, window, stored, times.drop_last());
        let step = acquire_step(max, window, before.0, times.last());
        (Some(step.0), before.1 + if step.1 {
            1nat
        } else {
            0nat
        })
    }
}

/// Within one window a key is allowed at most the tokens its bucket holds:
/// for a bucket whose window started at `w`, acquisitions at times inside
/// `[w, w + window)` are allowed at most `stored.tokens` times, and the
/// bucket keeps its window.
pub proof fn lemma_at_most_tokens_per_window(
    max: u32,
    window: u128,
    stored: BucketState,
    times: Seq<u128>,
)
    requires
        forall|i: int|
            0 <= i < times.len() ==> stored.window_start <= #[trigger] times[i] && times[i]
                - stored.window_start < window,
    ensures
        acquire_run(max, window, Some(stored), times).0 matches Some(b) && b.window_start
            == stored.window_start && b.tokens + acquire_run(max, window, Some(stored), times).1
            == stored.tokens,
        acquire_run(max, window, Some(stored), times).1 <= stored.tokens,
    decreases times.len(),
{
    if times.len() > 0 {
        let init = times.drop_last();
        assert forall|i: int|
            0 <= i < init.len() implies stored.window_start <= #[trigger] init[i] && init[i]
            - stored.window_start < window by {
            assert(init[i] == times[i]);
        }
        lemma_at_most_tokens_per_window(max, window, stored, init);
        assert(times.last() == times[times.len() - 1]);
    }
}

/// The smaller of `a` and `b`.
pub open spec fn min_nat(a: nat, b: nat) -> nat {
    if a <= b {
        a
    } else {
        b
    }
}

/// Within one window a bucket grants exactly its tokens: of acquisitions at
/// times inside `[w, w + window)` (for a bucket whose window started at
/// `w`), the first `stored.tokens` are allowed and the rest refused, so
/// `min(stored.tokens, n)` of `n` are allowed.
pub proof fn lemma_exact_tokens_per_window(
    max: u32,
    window: u128,
    stored: BucketState,
    times: Seq<u128>,
)
    requires
        forall|i: int|
            0 <= i < times.len() ==> stored.window_start <= #[trigger] times[i] && times[i]
                - stored.window_start < window,
    ensures
        acquire_run(max, window, Some(stored), times).1 == min_nat(stored.tokens as nat, times.len()),
        forall|i: int| 0 <= i < times.len() ==> (#[trigger] acquire_step(
            max,
            window,
            acquire_run(max, window, Some(stored), times.take(i)).0,
            times[i],
        ).1 <==> i < stored.tokens),
    decreases times.len(),
{
    lemma_at_most_tokens_per_window(max, window, stored, times);
    if times.len() > 0 {
        let init = times.drop_last();
        assert forall|i: int|
            0 <= i < init.len() implies stored.window_start <= #[trigger] init[i] && init[i]
            - stored.window_start < window by {
            assert(init[i] == times[i]);
        }
        lemma_exact_tokens_per_window(max, window, stored, init);
        lemma_at_most_tokens_per_window(max, window, stored, init);
        let n = times.len() - 1;
        assert(times.last() == times[n]);
        assert(times.take(n) =~= init);
        assert forall|i: int| 0 <= i < times.len() implies (#[trigger] acquire_step(
            max,
            window,
            acquire_run(max, window, Some(stored), times.take(i)).0,
            times[i],
        ).1 <==> i < stored.tokens) by {
            if i < n {
                assert(times.take(i) =~= init.take(i));
                assert(times[i] == init[i]);
            }
        }
    }
}

/// A key seen for the first time at `times[0]`, with every acquisition made
/// before a whole window has passed since then, is allowed exactly
/// `min(max, n)` of its `n` acquisitions: the first `max` of them.
pub proof fn lemma_new_key_first_max_allowed(max: u32, window: u128, times: Seq<u128>)
    requires
        times.len() > 0,
        window > 0,
        forall|i: int| 0 <= i < times.len() ==> times[0] <= #[trigger] times[i] && times[i] - times[0] < window,
    ensures
        acquire_run(max, window, None, times).1 == min_nat(max as nat, times.len()),
        acquire_run(max, window, None, times).1 <= max,
{
    let first = times.take(1);
    let rest = times.skip(1);
    assert(first.drop_last() =~= Seq::<u128>::empty());
    assert(first.last() == times[0]);
    assert(acquire_run(max, window, None, first.drop_last()) == (None::<BucketState>, 0nat));
    let b0 = acquire_run(max, window, None, first);
    let start = BucketState { tokens: max, window_start: times[0] };
    assert(current_bucket(max, window, None, times[0]) == start);
    assert(b0.0 == Some(acquire_step(max, window, None, times[0]).0));
    assert(b0.0->Some_0.tokens + b0.1 == max);
    lemma_run_split(max, window, None, first, rest);
    assert(first + rest =~= times);
    let after_first = b0.0->Some_0;
    assert(after_first.window_start == times[0]);
    assert forall|i: int| 0 <= i < rest.len() implies after_first.window_start <= #[trigger] rest[i]
        && rest[i] - after_first.window_start < window by {
        assert(rest[i] == times[i + 1]);
    }
    lemma_exact_tokens_per_window(max, window, after_first, rest);
}

/// A run over `a + b` is the run over `a` followed by the run over `b`.
proof fn lemma_run_split(
    max: u32,
    window: u128,
    stored: Option<BucketState>,
    a: Seq<u128>,
    b: Seq<u128>,
)
    ensures
        acquire_run(max, window, stored, a + b) == (
            acquire_run(max, window, acquire_run(max, window, stored, a).0, b).0,
            acquire_run(max, window, stored, a).1 + acquire_run(
                max,
                window,
                acquire_run(max, window, stored, a).0,
                b,
            ).1,
        ),
    decreases b.len(),
{
    if b.len() == 0 {
        assert(a + b =~= a);
    } else {
        lemma_run_split(max, window, stored, a, b.drop_last());
        assert((a + b).drop_last() =~= a + b.drop_last());
        assert((a + b).last() == b.last());
    }
}

/// An acquisition is allowed exactly when the key's current bucket has a
/// token left; it then takes one token and keeps the bucket's window.
pub proof fn lemma_refused_only_when_empty(
    max: u32,
    window: u128,
    stored: Option<BucketState>,
    now: u128,
)
    ensures
        acquire_step(max, window, stored, now).1 <==> current_bucket(max, window, stored, now).tokens
            > 0,
        acquire_step(max, window, stored, now).1 ==> acquire_step(max, window, stored, now).0.tokens
            == current_bucket(max, window, stored, now).tokens - 1,
        acquire_step(max, window, stored, now).0.window_start == current_bucket(
            max,
            window,
            stored,
            now,
        ).window_start,
{
}

/// Within a window a refused key stays refused: once a key's bucket is empty,
/// every later acquisition before its window ends is refused as well.
pub proof fn lemma_refusal_persists_within_window(
    max: u32,
    window: u128,
    stored: BucketState,
    now: u128,
)
    requires
        stored.tokens == 0,
        stored.window_start <= now,
        now - stored.window_start < window,
    ensures
        acquire_step(max, window, Some(stored), now) == (stored, false),
{
}

/// Keys are independent: an acquisition for one key leaves the bucket of
/// every other key as it was.
pub proof fn lemma_keys_are_independent(
    m: Map<Seq<char>, BucketState>,
    key: Seq<char>,
    other: Seq<char>,
    b: BucketState,
)
    requires
        key != other,
    ensures
        stored_bucket(m.insert(key, b), other) == stored_bucket(m, other),
{
}

/// A refill starts a new window at the current time: when a key has no
/// bucket yet, or a whole window has passed since its window started, the
/// acquisition at `now` is charged against a full bucket whose window starts
/// at `now`. It is allowed exactly when the limiter grants any token, and
/// leaves one token fewer than the maximum.
pub proof fn law_refill_starts_window_now(max: u32, window: u128, stored: Option<BucketState>, now: u128)
    requires
        stored matches Some(s) ==> s.window_start <= now && now - s.window_start >= window,
    ensures
        acquire_step(max, window, stored, now).0.window_start == now,
        acquire_step(max, window, stored, now).1 == (max > 0),
        acquire_step(max, window, stored, now).0.tokens == if max > 0 {
            max - 1
        } else {
            0
        },
{
}

/// Before a whole window has passed, a key's bucket keeps the start of its
/// window: the acquisition at `now` is allowed exactly when a token is left,
/// and then takes one token; a refused one changes nothing. A reading before
/// the window's start counts as no time elapsed.
pub proof fn law_within_window_keeps_start(max: u32, window: u128, stored: BucketState, now: u128)
    requires
        (stored.window_start <= now && now - stored.window_start < window) || (now < stored.window_start
            && window > 0),
    ensures
        acquire_step(max, window, Some(stored), now).0.window_start == stored.window_start,
        acquire_step(max, window, Some(stored), now).1 == (stored.tokens > 0),
        acquire_step(max, window, Some(stored), now).0.tokens == if stored.tokens > 0 {
            stored.tokens - 1
        } else {
            0
        },
{
}

/// After a refill at `start`, a key is allowed at most `max` acquisitions
/// among any that follow before a whole window has passed since `start`:
/// an idle spell never banks more than one window's tokens.
pub proof fn law_refill_grants_one_window(max: u32, window: u128, stored: Option<BucketState>, start: u128, later: Seq<u128>)
    requires
        stored matches Some(s) ==> s.window_start <= start && start - s.window_start >= window,
        forall|i: int| 0 <= i < later.len() ==> start <= #[trigger] later[i] && later[i] - start < window,
    ensures
        ({
            let first = acquire_step(max, window, stored, start);
            (if first.1 { 1int } else { 0int }) + acquire_run(max, window, Some(first.0), later).1 <= max
        }),
{
    law_refill_starts_window_now(max, window, stored, start);
    let first = acquire_step(max, window, stored, start);
    lemma_at_most_tokens_per_window(max, window, first.0, later);
}

} // verus!
