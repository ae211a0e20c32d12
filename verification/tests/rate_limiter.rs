use rawrr::rate_limiter::RateLimiter;
use rawrr::time::Timestamp;
use std::sync::{Arc, Mutex};

#[test]
fn test_rate_limiter_allows_under_limit() {
    let mut limiter = RateLimiter::new(3, 60);
    assert!(limiter.can_poll());
    limiter.record_poll();
    assert!(limiter.can_poll());
    limiter.record_poll();
    assert!(limiter.can_poll());
    limiter.record_poll();
    assert!(!limiter.can_poll());
}

#[test]
fn test_seconds_until_next_poll_empty_queue() {
    let limiter = RateLimiter::new(10, 60);
    assert_eq!(limiter.seconds_until_next_poll(), 0);
}

#[test]
fn test_seconds_until_next_poll_after_record() {
    let mut limiter = RateLimiter::new(10, 60);
    limiter.record_poll();
    // Should be somewhere between 0 and 60 seconds
    let secs = limiter.seconds_until_next_poll();
    assert!(secs <= 60);
}

#[test]
fn test_clone_shares_state() {
    let limiter = Arc::new(Mutex::new(RateLimiter::new(3, 60)));
    let clone = limiter.clone();
    limiter.lock().unwrap().record_poll();
    clone.lock().unwrap().record_poll();
    clone.lock().unwrap().record_poll();
    // 3 polls recorded across both handles — limit is reached
    assert!(!limiter.lock().unwrap().can_poll());
}

fn at(secs: i64) -> Timestamp {
    Timestamp::from_parts(secs, 0).unwrap()
}

#[test]
fn old_polls_leave_the_window() {
    let mut limiter = RateLimiter::new(2, 60);
    limiter.record_poll_at(at(0));
    limiter.record_poll_at(at(10));
    assert!(!limiter.can_poll_at(at(20)));
    // A poll exactly as old as the window still counts.
    assert!(!limiter.can_poll_at(at(60)));
    assert!(limiter.can_poll_at(at(61)));
    limiter.record_poll_at(at(61));
    assert!(!limiter.can_poll_at(at(70)));
    assert!(limiter.can_poll_at(at(71)));
}

#[test]
fn waiting_times() {
    let mut limiter = RateLimiter::new(1, 60);
    limiter.record_poll_at(at(100));
    assert_eq!(limiter.seconds_until_next_poll_at(at(100)), 60);
    assert_eq!(limiter.seconds_until_next_poll_at(Timestamp::from_parts(100, 1).unwrap()), 59);
    assert_eq!(limiter.seconds_until_next_poll_at(at(159)), 1);
    assert_eq!(limiter.seconds_until_next_poll_at(at(160)), 0);
    assert_eq!(limiter.seconds_until_next_poll_at(at(1000)), 0);
    // One second after the announced wait there is room.
    assert!(!limiter.can_poll_at(at(160)));
    assert!(limiter.can_poll_at(at(161)));
}

#[test]
fn nobody_waits_while_polls_are_allowed() {
    let mut limiter = RateLimiter::new(10, 60);
    limiter.record_poll();
    assert_eq!(limiter.seconds_until_next_poll(), 0);
    let mut limiter = RateLimiter::new(2, 60);
    limiter.record_poll_at(at(100));
    assert_eq!(limiter.seconds_until_next_poll_at(at(100)), 0);
    limiter.record_poll_at(at(120));
    assert_eq!(limiter.seconds_until_next_poll_at(at(130)), 30);
    // The first poll no longer counts, though it is still on record.
    assert_eq!(limiter.seconds_until_next_poll_at(at(161)), 0);
    assert!(limiter.can_poll_at(at(161)));
}

#[test]
fn enough_polls_must_leave_the_window() {
    let mut limiter = RateLimiter::new(2, 60);
    for t in [100, 110, 120, 130] {
        limiter.record_poll_at(at(t));
    }
    // Only one of the four may be left.
    assert_eq!(limiter.seconds_until_next_poll_at(at(140)), 40);
    assert!(!limiter.can_poll_at(at(180)));
    assert!(limiter.can_poll_at(at(181)));
}

#[test]
fn nothing_is_allowed_with_a_limit_of_zero() {
    let mut limiter = RateLimiter::new(0, 60);
    assert!(!limiter.can_poll());
    assert_eq!(limiter.seconds_until_next_poll(), 0);
    limiter.record_poll_at(at(100));
    limiter.record_poll_at(at(110));
    assert_eq!(limiter.seconds_until_next_poll_at(at(120)), 40);
    assert_eq!(limiter.seconds_until_next_poll_at(at(165)), 0);
    assert!(!limiter.can_poll_at(at(1000)));
}

#[test]
fn asking_uses_up_nothing() {
    let mut limiter = RateLimiter::new(1, 60);
    for _ in 0..5 {
        assert!(limiter.can_poll_at(at(100)));
    }
    limiter.record_poll_at(at(100));
    for _ in 0..5 {
        assert!(!limiter.can_poll_at(at(100)));
    }
}

#[test]
fn no_window_holds_more_than_the_limit() {
    let mut limiter = RateLimiter::new(3, 10);
    let mut log: Vec<i64> = Vec::new();
    for t in 0..100 {
        if limiter.can_poll_at(at(t)) {
            limiter.record_poll_at(at(t));
            log.push(t);
        }
    }
    for i in 3..log.len() {
        assert!(log[i] - log[i - 3] > 10);
    }
    assert_eq!(log[0..6], [0, 1, 2, 11, 12, 13]);
}

#[test]
fn windows_out_of_range_are_found() {
    assert!(RateLimiter::new(1, 9_223_372_036_854_775).is_usable());
    assert!(!RateLimiter::new(1, 9_223_372_036_854_776).is_usable());
    assert!(RateLimiter::new(1, u64::MAX).is_usable());
    assert!(!RateLimiter::new(1, 1 << 63).is_usable());
    assert!(chrono::Duration::try_seconds(9_223_372_036_854_775).is_some());
    assert!(chrono::Duration::try_seconds(9_223_372_036_854_776).is_none());
}

#[test]
fn asking_once_for_several_polls_passes_the_limit_by_their_number() {
    let mut limiter = RateLimiter::new(3, 60);
    limiter.record_poll_at(at(0));
    limiter.record_poll_at(at(10));
    assert!(limiter.can_poll_at(at(20)));
    for t in 20..24 {
        limiter.record_poll_at(at(t));
    }
    // Six polls in one window: fewer than three and four together.
    assert_eq!(limiter.seconds_until_next_poll_at(at(24)), 57);
    assert!(!limiter.can_poll_at(at(81)));
    assert!(limiter.can_poll_at(at(82)));
}
