use std::sync::atomic::{AtomicU64, Ordering};
use std::sync::Arc;
use vmm_devices::rate_limit::{
    saturate_nanos, MonotonicClock, RateLimitClock, RateLimiter, TokenBucket, NANOS_PER_SEC,
};

#[derive(Debug, Clone)]
struct ManualClock {
    now_ns: Arc<AtomicU64>,
}

impl ManualClock {
    fn new(now_ns: u64) -> Self {
        Self {
            now_ns: Arc::new(AtomicU64::new(now_ns)),
        }
    }

    fn advance(&self, delta_ns: u64) {
        self.now_ns.fetch_add(delta_ns, Ordering::Relaxed);
    }
}

impl RateLimitClock for ManualClock {
    fn now_ns(&self) -> u64 {
        self.now_ns.load(Ordering::Relaxed)
    }
}

#[test]
fn token_bucket_charges_within_budget() {
    let mut bucket = TokenBucket::new(10, 10);

    assert!(bucket.consume(4, 0));

    assert_eq!(bucket.tokens(), 6);
}

#[test]
fn token_bucket_rejects_until_refill() {
    let mut bucket = TokenBucket::new(10, 10);

    assert!(bucket.consume(10, 0));
    assert!(!bucket.consume(1, 0));
    assert!(!bucket.consume(1, 99_999_999));
    assert!(bucket.consume(1, 100_000_000));

    assert_eq!(bucket.tokens(), 0);
}

#[test]
fn token_bucket_refill_caps_at_capacity() {
    let mut bucket = TokenBucket::new(10, 10);

    assert!(bucket.consume(9, 0));
    assert!(bucket.consume(0, 5 * NANOS_PER_SEC));

    assert_eq!(bucket.tokens(), 10);
}

#[test]
fn rate_limiter_charges_ops_and_bytes_atomically() {
    let clock = ManualClock::new(0);
    let mut limiter = RateLimiter::new_with_clock(2, 100, clock.clone());

    assert!(limiter.try_charge(1, 80));
    assert!(!limiter.try_charge(1, 30));
    assert!(limiter.try_charge(1, 20));
    assert!(!limiter.try_charge(1, 1));
    clock.advance(NANOS_PER_SEC);
    assert!(limiter.try_charge(1, 100));
}

#[test]
fn refill_keeps_the_remainder_of_a_token() {
    let mut bucket = TokenBucket::new_at(3, 3, 0);
    assert!(bucket.consume(3, 0));
    bucket.refill(500_000_000);
    assert_eq!(bucket.tokens(), 1);
    bucket.refill(666_666_667);
    assert_eq!(bucket.tokens(), 2);
}

#[test]
fn a_clock_that_goes_back_earns_nothing() {
    let mut bucket = TokenBucket::new_at(5, 5, NANOS_PER_SEC);
    assert!(bucket.consume(5, NANOS_PER_SEC));
    bucket.refill(0);
    assert_eq!(bucket.tokens(), 0);
}

#[test]
fn a_refused_charge_takes_nothing() {
    let mut limiter = RateLimiter::new_with_clock(1, 10, ManualClock::new(0));
    assert!(limiter.try_charge_at(1, 4, 0));
    let before = (limiter.ops.tokens(), limiter.bytes.tokens());
    assert!(!limiter.try_charge_at(1, 1, 0));
    assert_eq!((limiter.ops.tokens(), limiter.bytes.tokens()), before);
}

#[test]
fn the_monotonic_clock_does_not_go_back() {
    let clock = MonotonicClock::new();
    let a = clock.now_ns();
    let b = clock.now_ns();
    assert!(a <= b);
}

#[test]
fn nanoseconds_saturate() {
    assert_eq!(saturate_nanos(5), 5);
    assert_eq!(saturate_nanos(u64::MAX as u128 + 1), u64::MAX);
}

#[test]
fn a_refused_charge_goes_through_once_the_tokens_are_earned() {
    let mut bucket = TokenBucket::new(8, 4);
    assert!(bucket.consume(8, 0));
    assert!(!bucket.consume(3, 749_999_999));
    assert!(bucket.consume(3, 750_000_000));
    // A charge beyond the capacity waits for a full bucket, and leaves a debt.
    let mut bucket = TokenBucket::new(8, 4);
    assert!(bucket.consume(20, 0));
    assert_eq!(bucket.tokens(), -12);
    assert!(!bucket.consume(20, 4 * NANOS_PER_SEC));
    assert!(bucket.consume(20, 5 * NANOS_PER_SEC));
}

#[test]
fn a_refill_keeps_the_remainder_for_the_next() {
    let mut often = TokenBucket::new(100, 3);
    let mut once = TokenBucket::new(100, 3);
    assert!(often.consume(100, 0));
    assert!(once.consume(100, 0));
    often.refill(NANOS_PER_SEC / 2);
    often.refill(NANOS_PER_SEC);
    once.refill(NANOS_PER_SEC);
    assert_eq!(once.tokens(), 3);
    assert_eq!(often.tokens(), 3);
}

#[test]
fn a_refill_that_takes_less_than_a_nanosecond_uses_a_whole_one() {
    let mut often = TokenBucket::new(100, 2_500_000_000);
    let mut once = TokenBucket::new(100, 2_500_000_000);
    assert!(often.consume(100, 0));
    assert!(once.consume(100, 0));
    often.refill(1);
    often.refill(2);
    once.refill(2);
    assert_eq!(once.tokens(), 5);
    assert_eq!(often.tokens(), 4);
}
