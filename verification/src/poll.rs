//! When a poll takes place.

use crate::config::Config;
use crate::rate_limiter::{
    admits, chronological, in_window, law_dropped_polls_never_count_again, law_wait_is_needed,
    law_waiting_frees_a_poll, lemma_retained, seconds_to_wait, RateLimiter,
};
use crate::state::RawrrState;
use crate::time::{num_seconds, whole_seconds, Timestamp};
use vstd::prelude::*;

verus! {

/// Whether a poll takes place, and if not, why.
#[derive(Debug, Clone, Copy, PartialEq, Eq, Structural)]
pub enum PollDecision {
    /// The last poll was `elapsed` seconds ago, less than the `quiet_secs` that
    /// must lie between polls.
    Quiet { elapsed: i128, quiet_secs: i64 },
    /// The rate limit is reached. There is room again in `wait_secs` seconds.
    RateLimited { wait_secs: u64 },
    /// The poll takes place.
    Proceed,
}

/// The seconds that must lie between polls: five less than the poll interval.
/// They are counted as a signed number of 64 bits.
pub open spec fn quiet_seconds(poll_interval_secs: u64) -> int {
    let secs = if poll_interval_secs >= 5 {
        poll_interval_secs - 5
    } else {
        0
    };
    if secs <= i64::MAX {
        secs
    } else {
        secs - 0x1_0000_0000_0000_0000
    }
}

/// The seconds that must lie between polls.
fn quiet_period(poll_interval_secs: u64) -> (secs: i64)
    ensures
        secs == quiet_seconds(poll_interval_secs),
{
    let secs: u64 = poll_interval_secs.saturating_sub(5);
    assert(secs as i64 == if secs <= 0x7fff_ffff_ffff_ffffu64 {
        secs as int
    } else {
        secs - 0x1_0000_0000_0000_0000
    }) by (bit_vector);
    secs as i64
}

/// Whether the last poll is too recent for another. A dry run is never too
/// early.
pub open spec fn too_early(config: Config, last_poll: int, now: int) -> bool {
    !config.dry_run && whole_seconds(now - last_poll) < quiet_seconds(config.poll_interval_secs)
}

/// Whether the last poll is too recent for another at the time `now`.
pub fn is_too_early(config: &Config, state: &RawrrState, now: Timestamp) -> (yes: bool)
    ensures
        yes == too_early(*config, state.last_poll_time@, now@),
{
    let elapsed: i128 = num_seconds(now.nanos_since(&state.last_poll_time));
    !config.dry_run && elapsed < quiet_period(config.poll_interval_secs) as i128
}

/// Whether this is the decision on a poll at the time `now`, with these polls on
/// record before and after.
pub open spec fn decides(
    config: Config,
    last_poll: int,
    polls: Seq<Timestamp>,
    limit: u32,
    window: u64,
    now: int,
    decision: PollDecision,
    kept: Seq<Timestamp>,
) -> bool {
    if too_early(config, last_poll, now) {
        &&& decision matches PollDecision::Quiet { elapsed, quiet_secs }
        &&& elapsed == whole_seconds(now - last_poll)
        &&& quiet_secs == quiet_seconds(config.poll_interval_secs)
        &&& kept == polls
    } else {
        &&& kept == in_window(polls, now, window)
        &&& if admits(polls, now, limit, window) {
            decision == PollDecision::Proceed
        } else {
            &&& decision matches PollDecision::RateLimited { wait_secs }
            &&& wait_secs == seconds_to_wait(in_window(polls, now, window), now, limit, window)
        }
    }
}

/// Decides whether a poll takes place at the time `now`.
pub fn decide_poll(
    config: &Config,
    state: &RawrrState,
    limiter: &mut RateLimiter,
    now: Timestamp,
) -> (decision: PollDecision)
    requires
        too_early(*config, state.last_poll_time@, now@) || old(limiter).usable(),
    ensures
        final(limiter).limit() == old(limiter).limit(),
        final(limiter).window() == old(limiter).window(),
        decides(
            *config,
            state.last_poll_time@,
            old(limiter).polls(),
            old(limiter).limit(),
            old(limiter).window(),
            now@,
            decision,
            final(limiter).polls(),
        ),
{
    if is_too_early(config, state, now) {
        return PollDecision::Quiet {
            elapsed: num_seconds(now.nanos_since(&state.last_poll_time)),
            quiet_secs: quiet_period(config.poll_interval_secs),
        };
    }
    if limiter.can_poll_at(now) {
        PollDecision::Proceed
    } else {
        PollDecision::RateLimited { wait_secs: limiter.seconds_until_next_poll_at(now) }
    }
}

/// What is done after a poll.
#[derive(Debug, Clone, Copy, PartialEq, Eq, Structural)]
pub enum AfterPoll {
    /// Wait for this many seconds and poll again.
    Wait { secs: u64 },
    /// Stop.
    Stop,
}

/// What is done after a poll. A dry run stops; otherwise polls follow one
/// another at the poll interval.
pub open spec fn next_after_poll(config: Config) -> AfterPoll {
    if config.dry_run {
        AfterPoll::Stop
    } else {
        AfterPoll::Wait { secs: config.poll_interval_secs }
    }
}

/// What is done after a poll.
pub fn after_poll(config: &Config) -> (next: AfterPoll)
    ensures
        next == next_after_poll(*config),
{
    if config.dry_run {
        AfterPoll::Stop
    } else {
        AfterPoll::Wait { secs: config.poll_interval_secs }
    }
}

/// Except in a dry run, no poll takes place within the quiet period of the one
/// before.
pub proof fn law_polls_keep_apart(config: Config, last_poll: int, now: int)
    requires
        !config.dry_run,
        config.poll_interval_secs - 5 <= i64::MAX,
        last_poll <= now,
    ensures
        too_early(config, last_poll, now) <==> now - last_poll < (config.poll_interval_secs - 5)
            * crate::time::NANOS_PER_SEC,
{
    let d = now - last_poll;
    let q = config.poll_interval_secs - 5;
    let unit = crate::time::NANOS_PER_SEC as int;
    vstd::arithmetic::div_mod::lemma_fundamental_div_mod(d, unit);
    if q <= 0 {
        assert(d / unit >= 0) by (nonlinear_arith)
            requires
                d >= 0,
                unit > 0,
        ;
    } else if d / unit < q {
        assert(unit * (d / unit) <= unit * (q - 1)) by (nonlinear_arith)
            requires
                d / unit <= q - 1,
                unit > 0,
        ;
        assert(unit * (q - 1) == q * unit - unit) by (nonlinear_arith);
    } else {
        assert(unit * (d / unit) >= unit * q) by (nonlinear_arith)
            requires
                d / unit >= q,
                unit > 0,
        ;
        assert(unit * q == q * unit) by (nonlinear_arith);
    }
}

/// A dry run is never too early.
pub proof fn law_dry_run_is_never_too_early(config: Config, last_poll: int, now: int)
    requires
        config.dry_run,
    ensures
        !too_early(config, last_poll, now),
{
}

/// When a poll takes place: unless it is too early, and only if fewer polls are
/// in the window than are allowed. Otherwise it is said which of the two it is,
/// and how long it has been, or will be.
pub proof fn law_when_polls_take_place(
    config: Config,
    last_poll: int,
    polls: Seq<Timestamp>,
    limit: u32,
    window: u64,
    now: int,
    decision: PollDecision,
    kept: Seq<Timestamp>,
)
    requires
        decides(config, last_poll, polls, limit, window, now, decision, kept),
        config.poll_interval_secs - 5 <= i64::MAX,
        last_poll <= now,
    ensures
        ({
            let early = !config.dry_run && now - last_poll < (config.poll_interval_secs - 5)
                * 1_000_000_000;
            let room = in_window(polls, now, window).len() < limit;
            &&& decision is Quiet <==> early
            &&& decision is Proceed <==> !early && room
            &&& decision is RateLimited <==> !early && !room
            &&& decision matches PollDecision::Quiet { elapsed, quiet_secs } ==> quiet_secs
                == config.poll_interval_secs - 5 && elapsed * 1_000_000_000 <= now - last_poll < (
            elapsed + 1) * 1_000_000_000
            &&& early ==> kept == polls
            &&& !early ==> kept == in_window(polls, now, window)
        }),
{
    if !config.dry_run {
        law_polls_keep_apart(config, last_poll, now);
        assert((config.poll_interval_secs - 5) * crate::time::NANOS_PER_SEC == (
        config.poll_interval_secs - 5) * 1_000_000_000);
    }
}

/// How long there is to wait when the rate limit is reached: until enough polls
/// have left the window.
pub proof fn law_announced_wait(
    config: Config,
    last_poll: int,
    polls: Seq<Timestamp>,
    limit: u32,
    window: u64,
    now: int,
    later: int,
    wait_secs: u64,
    kept: Seq<Timestamp>,
)
    requires
        decides(
            config,
            last_poll,
            polls,
            limit,
            window,
            now,
            PollDecision::RateLimited { wait_secs },
            kept,
        ),
        chronological(polls),
        limit > 0,
        now <= later,
    ensures
        later < now + wait_secs * 1_000_000_000 ==> !admits(polls, later, limit, window),
        later >= now + (wait_secs + 1) * 1_000_000_000 ==> admits(polls, later, limit, window),
{
    let counted = in_window(polls, now, window);
    law_dropped_polls_never_count_again(polls, now, later, window);
    lemma_retained(polls, now - crate::rate_limiter::window_nanos(window));
    assert(chronological(counted)) by {
        let f = polls.len() - counted.len();
        assert forall|a: int, b: int| 0 <= a <= b < counted.len() implies counted[a]@
            <= counted[b]@ by {
            assert(polls[f + a]@ <= polls[f + b]@);
        }
    }
    if later < now + wait_secs * 1_000_000_000 {
        law_wait_is_needed(counted, now, later, limit, window);
    }
    if later >= now + (wait_secs + 1) * 1_000_000_000 {
        law_waiting_frees_a_poll(counted, now, later, limit, window);
    }
}

/// A dry run stops after its poll. Otherwise the program waits for the poll
/// interval, whatever that is, and polls again.
pub proof fn law_polls_are_repeated(config: Config)
    ensures
        next_after_poll(config) is Stop <==> config.dry_run,
        next_after_poll(config) matches AfterPoll::Wait { secs } ==> secs
            == config.poll_interval_secs,
{
}

} // verus!
