use rawrr::config::{Config, EnvVars};
use rawrr::poll::{after_poll, decide_poll, is_too_early, AfterPoll, PollDecision};
use rawrr::rate_limiter::RateLimiter;
use rawrr::state::RawrrState;
use rawrr::time::Timestamp;

fn config() -> Config {
    Config::from_vars(&EnvVars::default()).unwrap()
}

fn at(secs: i64) -> Timestamp {
    Timestamp::from_parts(secs, 0).unwrap()
}

#[test]
fn the_first_poll_takes_place() {
    let mut limiter = RateLimiter::new(1, 3600);
    assert_eq!(
        decide_poll(&config(), &RawrrState::new(), &mut limiter, at(1_700_000_000)),
        PollDecision::Proceed
    );
}

#[test]
fn polls_keep_their_distance() {
    let config = config();
    let mut state = RawrrState::new();
    let mut limiter = RateLimiter::new(100, 3600);
    state.last_poll_time = at(10_000);
    assert_eq!(
        decide_poll(&config, &state, &mut limiter, at(13_594)),
        PollDecision::Quiet { elapsed: 3594, quiet_secs: 3595 }
    );
    assert_eq!(decide_poll(&config, &state, &mut limiter, at(13_595)), PollDecision::Proceed);
    assert_eq!(
        decide_poll(&config, &state, &mut limiter, Timestamp::from_parts(13_594, 999_999_999).unwrap()),
        PollDecision::Quiet { elapsed: 3594, quiet_secs: 3595 }
    );
    assert_eq!(
        decide_poll(&config, &state, &mut limiter, at(9_000)),
        PollDecision::Quiet { elapsed: -1000, quiet_secs: 3595 }
    );
}

#[test]
fn dry_runs_have_no_quiet_period() {
    let mut config = config();
    config.dry_run = true;
    let mut state = RawrrState::new();
    let mut limiter = RateLimiter::new(2, 3600);
    state.last_poll_time = at(10_000);
    limiter.record_poll_at(at(10_000));
    assert_eq!(decide_poll(&config, &state, &mut limiter, at(10_001)), PollDecision::Proceed);
    limiter.record_poll_at(at(10_001));
    assert_eq!(
        decide_poll(&config, &state, &mut limiter, at(10_100)),
        PollDecision::RateLimited { wait_secs: 3500 }
    );
}

#[test]
fn short_and_extreme_intervals() {
    let mut config = config();
    let mut state = RawrrState::new();
    let mut limiter = RateLimiter::new(100, 3600);
    state.last_poll_time = at(10_000);
    config.poll_interval_secs = 3;
    assert_eq!(decide_poll(&config, &state, &mut limiter, at(10_000)), PollDecision::Proceed);
    config.poll_interval_secs = u64::MAX;
    assert_eq!(decide_poll(&config, &state, &mut limiter, at(10_000)), PollDecision::Proceed);
    config.poll_interval_secs = i64::MAX as u64;
    assert_eq!(
        decide_poll(&config, &state, &mut limiter, at(10_001)),
        PollDecision::Quiet { elapsed: 1, quiet_secs: i64::MAX - 5 }
    );
}

#[test]
fn quiet_periods_come_before_the_rate_limit() {
    let config = config();
    let mut state = RawrrState::new();
    state.last_poll_time = at(10_000);
    assert!(is_too_early(&config, &state, at(13_594)));
    assert!(!is_too_early(&config, &state, at(13_595)));
    // The window of this limiter is out of range.
    let mut limiter = RateLimiter::new(1, 1 << 63);
    assert_eq!(
        decide_poll(&config, &state, &mut limiter, at(10_001)),
        PollDecision::Quiet { elapsed: 1, quiet_secs: 3595 }
    );
}

#[test]
fn dry_runs_stop_after_a_poll() {
    let mut config = config();
    assert_eq!(after_poll(&config), AfterPoll::Wait { secs: 3600 });
    config.dry_run = true;
    assert_eq!(after_poll(&config), AfterPoll::Stop);
}
