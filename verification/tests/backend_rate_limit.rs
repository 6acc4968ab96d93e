use mergemint::backend::rate_limit::TokenBucketLimiter;
use std::time::Duration;

#[test]
fn allows_up_to_max_tokens_then_rejects() {
    let mut limiter = TokenBucketLimiter::new(2, Duration::from_secs(60));
    assert!(limiter.try_acquire("alice"));
    assert!(limiter.try_acquire("alice"));
    assert!(!limiter.try_acquire("alice"));
}

#[test]
fn keys_are_independent() {
    let mut limiter = TokenBucketLimiter::new(1, Duration::from_secs(60));
    assert!(limiter.try_acquire("alice"));
    assert!(!limiter.try_acquire("alice"));
    assert!(limiter.try_acquire("bob"));
}

#[test]
fn a_new_window_refills_the_bucket() {
    let mut limiter = TokenBucketLimiter::new(1, Duration::from_nanos(100));
    assert!(limiter.try_acquire_at("alice", 1_000));
    assert!(!limiter.try_acquire_at("alice", 1_050));
    assert!(limiter.try_acquire_at("alice", 1_100));
    assert!(!limiter.try_acquire_at("alice", 1_150));
}

#[test]
fn a_clock_reading_before_the_window_start_counts_as_no_time_elapsed() {
    let mut limiter = TokenBucketLimiter::new(1, Duration::from_nanos(100));
    assert!(limiter.try_acquire_at("alice", 1_000));
    assert!(!limiter.try_acquire_at("alice", 500));
}

#[test]
fn zero_tokens_refuses_everything() {
    let mut limiter = TokenBucketLimiter::new(0, Duration::from_secs(60));
    assert!(!limiter.try_acquire("alice"));
}
