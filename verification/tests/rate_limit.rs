//! The rate limiter.

use codex_nim_proxy::rate_limit::limiter_for;
use codex_nim_proxy::rate_limit::Acquired;
use codex_nim_proxy::RateLimiter;
use codex_nim_proxy::DEFAULT_RPM;

const MS: u64 = 1_000_000;

/// Acquires as a caller does that waits as long as it is told; returns the time
/// at which it was granted.
fn acquire(limiter: &mut RateLimiter, now: u64) -> u64 {
    let mut t = now;
    loop {
        match limiter.acquire(t) {
            Acquired::Granted => return t,
            Acquired::Wait(w) => t += w,
        }
    }
}

#[test]
fn allows_up_to_max_requests_without_sleep() {
    let mut limiter = RateLimiter::new(3);
    let t0 = 5 * MS;
    let mut t = acquire(&mut limiter, t0);
    t = acquire(&mut limiter, t);
    t = acquire(&mut limiter, t);
    let elapsed = t - t0;
    assert!(elapsed < 50 * MS, "first 3 should not sleep, took {elapsed:?}");
    assert_eq!(elapsed, 0);
}

#[test]
fn blocks_when_limit_reached() {
    let mut limiter = RateLimiter::with_window(1, 200 * MS);
    let t0 = acquire(&mut limiter, 0);
    let t = acquire(&mut limiter, t0);
    let elapsed = t - t0;
    assert!(
        elapsed >= 150 * MS,
        "second acquire should sleep, only took {elapsed:?}"
    );
    assert_eq!(elapsed, 250 * MS);
}

#[test]
fn current_count_drops_old_entries() {
    let mut limiter = RateLimiter::with_window(10, 50 * MS);
    let t = acquire(&mut limiter, 0);
    assert_eq!(limiter.current_count(t), 1);
    assert_eq!(limiter.current_count(t + 80 * MS), 0);
}

#[test]
fn a_wait_is_the_rest_of_the_window_and_a_margin() {
    let mut limiter = RateLimiter::new(2);
    assert_eq!(limiter.acquire(1000 * MS), Acquired::Granted);
    assert_eq!(limiter.acquire(2000 * MS), Acquired::Granted);
    assert_eq!(limiter.acquire(11000 * MS), Acquired::Wait(50_050 * MS));
    assert_eq!(limiter.acquire(60_999 * MS), Acquired::Wait(51 * MS));
    assert_eq!(limiter.acquire(61_000 * MS), Acquired::Granted);
    assert_eq!(limiter.current_count(61_000 * MS), 2);
}

#[test]
fn a_time_before_a_grant_counts_as_the_same_time() {
    let mut limiter = RateLimiter::with_window(1, 10 * MS);
    assert_eq!(limiter.acquire(100 * MS), Acquired::Granted);
    assert_eq!(limiter.acquire(90 * MS), Acquired::Wait(60 * MS));
}

#[test]
fn no_window_has_more_than_the_limit() {
    let mut limiter = RateLimiter::with_window(3, 100 * MS);
    let mut grants = Vec::new();
    for i in 0..400u64 {
        let now = i * 7 * MS;
        assert!(limiter.current_count(now) <= 3);
        if limiter.acquire(now) == Acquired::Granted {
            grants.push(now);
        }
    }
    assert!(grants.len() > 3);
    for i in 3..grants.len() {
        assert!(grants[i] - grants[i - 3] >= 100 * MS);
    }
}

#[test]
fn a_limit_of_zero_is_no_limiter() {
    assert!(limiter_for(0).is_none());
    let mut limiter = limiter_for(1).unwrap();
    assert_eq!(limiter.acquire(0), Acquired::Granted);
    assert_eq!(limiter.acquire(0), Acquired::Wait(60_050 * MS));
    assert_eq!(DEFAULT_RPM, 40);
}

#[test]
fn a_request_that_waited_is_granted() {
    let mut limiter = RateLimiter::with_window(2, 100 * MS);
    assert_eq!(limiter.acquire(3 * MS), Acquired::Granted);
    assert_eq!(limiter.acquire(9 * MS), Acquired::Granted);
    let Acquired::Wait(w) = limiter.acquire(20 * MS) else {
        panic!("granted over the limit");
    };
    assert_eq!(w, 133 * MS);
    assert_eq!(limiter.acquire(20 * MS + w), Acquired::Granted);
}
