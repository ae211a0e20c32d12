//! Limiting how often the registries are polled.

use crate::time::{num_seconds, seconds_in_range, whole_seconds, Duration, Timestamp, NANOS_PER_SEC};
use std::collections::VecDeque;
use vstd::prelude::*;

verus! {

/// Allows a number of polls in any window of time.
#[derive(Debug)]
pub struct RateLimiter {
    /// When polls happened, oldest first.
    poll_times: VecDeque<Timestamp>,
    /// The polls allowed in a window.
    max_polls: u32,
    /// The length of the window in seconds.
    window_secs: u64,
}

/// The length of a window in nanoseconds. Seconds are counted as signed
/// numbers.
pub open spec fn window_nanos(window_secs: u64) -> int {
    (window_secs as i64) * NANOS_PER_SEC
}

/// The polls that remain when those before `cutoff` are dropped from the
/// front.
pub open spec fn retained(times: Seq<Timestamp>, cutoff: int) -> Seq<Timestamp>
    decreases times.len(),
{
    if times.len() > 0 && times[0]@ < cutoff {
        retained(times.drop_first(), cutoff)
    } else {
        times
    }
}

/// The polls that still count at the time `now`.
pub open spec fn in_window(times: Seq<Timestamp>, now: int, window_secs: u64) -> Seq<Timestamp> {
    retained(times, now - window_nanos(window_secs))
}

/// Whether a poll is allowed at the time `now`: fewer polls count than are
/// allowed.
pub open spec fn admits(times: Seq<Timestamp>, now: int, max_polls: u32, window_secs: u64) -> bool {
    in_window(times, now, window_secs).len() < max_polls
}

/// Of these polls, the one that must be as old as the window for another poll
/// to be allowed: it and all behind it are as many as are allowed. With a limit
/// of zero, where no poll is ever allowed, the oldest stands for that one.
pub open spec fn holding_back(polls: Seq<Timestamp>, max_polls: u32) -> int {
    if max_polls == 0 {
        0
    } else {
        polls.len() - max_polls
    }
}

/// The whole seconds from `now` until the next poll is allowed: none if one is
/// allowed now, otherwise those until enough polls are as old as the window.
/// With a limit of zero they are those until the oldest poll on record is.
pub open spec fn seconds_to_wait(
    times: Seq<Timestamp>,
    now: int,
    max_polls: u32,
    window_secs: u64,
) -> int {
    let polls = if max_polls == 0 {
        times
    } else {
        in_window(times, now, window_secs)
    };
    if polls.len() < max_polls || polls.len() == 0 {
        0
    } else {
        let end = polls[holding_back(polls, max_polls)]@ + window_nanos(window_secs);
        if now >= end {
            0
        } else {
            whole_seconds(end - now)
        }
    }
}

impl RateLimiter {
    /// The polls on record, oldest first.
    pub closed spec fn polls(&self) -> Seq<Timestamp> {
        self.poll_times@
    }

    /// The polls allowed in a window.
    pub closed spec fn limit(&self) -> u32 {
        self.max_polls
    }

    /// The length of the window in seconds.
    pub closed spec fn window(&self) -> u64 {
        self.window_secs
    }

    /// The window is a span of time that can be held.
    pub open spec fn usable(&self) -> bool {
        seconds_in_range(self.window() as i64 as int)
    }

    /// A limiter with no polls on record.
    pub fn new(max_polls: u32, window_secs: u64) -> (limiter: RateLimiter)
        ensures
            limiter.polls() == Seq::<Timestamp>::empty(),
            limiter.limit() == max_polls,
            limiter.window() == window_secs,
    {
        RateLimiter { poll_times: VecDeque::new(), max_polls, window_secs }
    }

    /// Whether the window is a span of time that can be held.
    pub fn is_usable(&self) -> (yes: bool)
        ensures
            yes == self.usable(),
    {
        let secs: i64 = self.window_secs as i64;
        -crate::time::MAX_DURATION_SECS <= secs && secs <= crate::time::MAX_DURATION_SECS
    }

    /// Drops the polls that no longer count at the time `now`, and tells
    /// whether another poll is allowed then.
    pub fn can_poll_at(&mut self, now: Timestamp) -> (allowed: bool)
        requires
            old(self).usable(),
        ensures
            final(self).polls() == in_window(old(self).polls(), now@, old(self).window()),
            final(self).limit() == old(self).limit(),
            final(self).window() == old(self).window(),
            allowed == admits(old(self).polls(), now@, old(self).limit(), old(self).window()),
    {
        let window: Duration = Duration::seconds(self.window_secs as i64);
        let cutoff: i128 = now.as_nanos() - window.as_nanos();
        let ghost times = self.poll_times@;
        while self.poll_times.len() > 0 && self.poll_times[0].as_nanos() < cutoff
            invariant
                retained(self.poll_times@, cutoff as int) == retained(times, cutoff as int),
                self.max_polls == old(self).max_polls,
                self.window_secs == old(self).window_secs,
            decreases self.poll_times.len(),
        {
            let ghost before = self.poll_times@;
            let dropped: Option<Timestamp> = self.poll_times.pop_front();
            assert(self.poll_times@ =~= before.drop_first());
        }
        let count: u64 = self.poll_times.len() as u64;
        count < self.max_polls as u64
    }

    /// Drops the polls that no longer count, and tells whether another poll is
    /// allowed now.
    pub fn can_poll(&mut self) -> (allowed: bool)
        requires
            old(self).usable(),
        ensures
            final(self).limit() == old(self).limit(),
            final(self).window() == old(self).window(),
            exists|now: Timestamp|
                0 <= now@ && final(self).polls() == #[trigger] in_window(
                    old(self).polls(),
                    now@,
                    old(self).window(),
                ) && allowed == admits(
                    old(self).polls(),
                    now@,
                    old(self).limit(),
                    old(self).window(),
                ),
    {
        let now: Timestamp = Timestamp::now();
        self.can_poll_at(now)
    }

    /// Records a poll at the time `now`.
    pub fn record_poll_at(&mut self, now: Timestamp)
        ensures
            final(self).polls() == old(self).polls().push(now),
            final(self).limit() == old(self).limit(),
            final(self).window() == old(self).window(),
    {
        self.poll_times.push_back(now);
    }

    /// Records a poll now.
    pub fn record_poll(&mut self)
        ensures
            final(self).polls().len() == old(self).polls().len() + 1,
            final(self).polls().drop_last() == old(self).polls(),
            0 <= final(self).polls().last()@,
            final(self).limit() == old(self).limit(),
            final(self).window() == old(self).window(),
    {
        let now: Timestamp = Timestamp::now();
        self.record_poll_at(now);
        assert(self.polls().drop_last() =~= old(self).polls());
    }

    /// The seconds from `now` until the next poll is allowed.
    pub fn seconds_until_next_poll_at(&self, now: Timestamp) -> (secs: u64)
        requires
            self.usable(),
        ensures
            secs == seconds_to_wait(self.polls(), now@, self.limit(), self.window()),
            admits(self.polls(), now@, self.limit(), self.window()) ==> secs == 0,
    {
        let window: Duration = Duration::seconds(self.window_secs as i64);
        let at: i128 = now.as_nanos();
        let cutoff: i128 = at - window.as_nanos();
        let n: usize = self.poll_times.len();
        let ghost times = self.poll_times@;
        let mut old: usize = 0;
        assert(times.skip(0) =~= times);
        while old < n && self.poll_times[old].as_nanos() < cutoff
            invariant
                n == self.poll_times.len(),
                times == self.poll_times@,
                old <= n,
                retained(times.skip(old as int), cutoff as int) == retained(times, cutoff as int),
            decreases n - old,
        {
            assert(times.skip(old as int).drop_first() =~= times.skip(old + 1));
            old = old + 1;
        }
        assert(in_window(times, now@, self.window_secs) == times.skip(old as int));
        let place: usize = if self.max_polls == 0 {
            if n == 0 {
                return 0;
            }
            0
        } else {
            if ((n - old) as u64) < self.max_polls as u64 {
                return 0;
            }
            n - self.max_polls as usize
        };
        let end: i128 = self.poll_times[place].as_nanos() + window.as_nanos();
        proof {
            if self.max_polls > 0 {
                assert(times.skip(old as int)[place - old] == times[place as int]);
            }
        }
        if at >= end {
            0
        } else {
            num_seconds(end - at) as u64
        }
    }

    /// The seconds until the next poll is allowed.
    pub fn seconds_until_next_poll(&self) -> (secs: u64)
        requires
            self.usable(),
        ensures
            self.polls().len() < self.limit() || self.polls().len() == 0 ==> secs == 0,
            exists|now: Timestamp|
                0 <= now@ && secs == #[trigger] seconds_to_wait(
                    self.polls(),
                    now@,
                    self.limit(),
                    self.window(),
                ),
    {
        let now: Timestamp = Timestamp::now();
        proof {
            lemma_retained(self.polls(), now@ - window_nanos(self.window()));
        }
        self.seconds_until_next_poll_at(now)
    }
}

/// The polls are in the order of their times.
pub open spec fn chronological(times: Seq<Timestamp>) -> bool {
    forall|a: int, b: int| 0 <= a <= b < times.len() ==> times[a]@ <= times[b]@
}

/// What [`retained`] keeps is the end of the list, from the first poll that is
/// not before the cutoff.
pub proof fn lemma_retained(times: Seq<Timestamp>, cutoff: int)
    ensures
        retained(times, cutoff).len() <= times.len(),
        retained(times, cutoff) == times.skip(times.len() - retained(times, cutoff).len()),
        forall|k: int|
            0 <= k < times.len() - retained(times, cutoff).len() ==> (#[trigger] times[k])@ < cutoff,
        retained(times, cutoff).len() > 0 ==> retained(times, cutoff)[0]@ >= cutoff,
    decreases times.len(),
{
    if times.len() > 0 && times[0]@ < cutoff {
        let r = times.drop_first();
        lemma_retained(r, cutoff);
        let kept = retained(times, cutoff);
        assert(kept =~= times.skip(times.len() - kept.len()));
        assert forall|k: int| 0 <= k < times.len() - kept.len() implies (#[trigger] times[k])@
            < cutoff by {
            if k > 0 {
                assert(r[k - 1]@ < cutoff);
            }
        }
    } else {
        assert(times =~= times.skip(0));
    }
}

/// With polls in the order of their times, exactly those that are not before
/// the start of the window count.
pub proof fn law_window_holds_recent_polls(times: Seq<Timestamp>, now: int, window_secs: u64, k: int)
    requires
        chronological(times),
        0 <= k < times.len(),
    ensures
        k >= times.len() - in_window(times, now, window_secs).len() <==> times[k]@ >= now
            - window_nanos(window_secs),
{
    let cutoff = now - window_nanos(window_secs);
    lemma_retained(times, cutoff);
    let f = times.len() - retained(times, cutoff).len();
    if k >= f {
        assert(retained(times, cutoff)[0] == times[f]);
        assert(times[f]@ <= times[k]@);
    }
}

/// Dropping polls that no longer count changes nothing for later times.
pub proof fn law_dropped_polls_never_count_again(
    times: Seq<Timestamp>,
    now: int,
    later: int,
    window_secs: u64,
)
    requires
        now <= later,
    ensures
        in_window(in_window(times, now, window_secs), later, window_secs) == in_window(
            times,
            later,
            window_secs,
        ),
    decreases times.len(),
{
    if times.len() > 0 && times[0]@ < now - window_nanos(window_secs) {
        law_dropped_polls_never_count_again(times.drop_first(), now, later, window_secs);
    }
}

/// A limiter that records only polls it allowed never has more polls on record
/// than it allows in a window.
pub proof fn law_record_stays_within_limit(
    times: Seq<Timestamp>,
    now: Timestamp,
    max_polls: u32,
    window_secs: u64,
)
    requires
        admits(times, now@, max_polls, window_secs),
    ensures
        in_window(times, now@, window_secs).push(now).len() <= max_polls,
{
    lemma_retained(times, now@ - window_nanos(window_secs));
}

/// Each poll of the log was allowed when it happened.
pub open spec fn each_allowed(log: Seq<Timestamp>, max_polls: u32, window_secs: u64) -> bool {
    forall|b: int|
        0 <= b < log.len() ==> admits(#[trigger] log.take(b), log[b]@, max_polls, window_secs)
}

/// If the limiter was asked before each poll, and each was allowed when it
/// happened, no window holds more polls than are allowed: two polls no further
/// apart than the window have fewer than `max_polls` steps between them.
pub proof fn law_at_most_max_polls_in_any_window(
    log: Seq<Timestamp>,
    max_polls: u32,
    window_secs: u64,
    a: int,
    b: int,
)
    requires
        chronological(log),
        each_allowed(log, max_polls, window_secs),
        0 <= a <= b < log.len(),
        log[b]@ - log[a]@ <= window_nanos(window_secs),
    ensures
        b - a + 1 <= max_polls,
{
    let before = log.take(b);
    assert(admits(before, log[b]@, max_polls, window_secs));
    lemma_retained(before, log[b]@ - window_nanos(window_secs));
    let kept = in_window(before, log[b]@, window_secs);
    let f = before.len() - kept.len();
    if a < f {
        assert(before[a]@ < log[b]@ - window_nanos(window_secs));
    }
}

/// A limiter with as many recent polls as it allows refuses another.
pub proof fn law_full_window_refuses(
    times: Seq<Timestamp>,
    now: int,
    max_polls: u32,
    window_secs: u64,
)
    requires
        times.len() == max_polls,
        forall|k: int| 0 <= k < times.len() ==> (#[trigger] times[k])@ >= now - window_nanos(
            window_secs,
        ),
    ensures
        !admits(times, now, max_polls, window_secs),
{
    assert(in_window(times, now, window_secs) == times);
}

/// One second after the wait that was announced a poll is allowed, unless none
/// ever is.
pub proof fn law_waiting_frees_a_poll(
    times: Seq<Timestamp>,
    now: int,
    later: int,
    max_polls: u32,
    window_secs: u64,
)
    requires
        chronological(times),
        max_polls > 0,
        later >= now + (seconds_to_wait(times, now, max_polls, window_secs) + 1) * NANOS_PER_SEC,
    ensures
        admits(times, later, max_polls, window_secs),
{
    let counted = in_window(times, now, window_secs);
    let kept = in_window(times, later, window_secs);
    let cutoff = later - window_nanos(window_secs);
    lemma_retained(times, now - window_nanos(window_secs));
    lemma_retained(times, cutoff);
    if counted.len() < max_polls {
        law_dropped_polls_never_count_again(times, now, later, window_secs);
        lemma_retained(counted, cutoff);
    } else {
        let h = times.len() - max_polls;
        assert(counted[counted.len() - max_polls] == times[h]);
        let f = times.len() - kept.len();
        if f <= h {
            assert(kept[0] == times[f]);
            assert(times[f]@ <= times[h]@);
        }
    }
}

/// Nobody has to wait longer than the window.
pub proof fn law_wait_is_at_most_the_window(
    times: Seq<Timestamp>,
    now: int,
    max_polls: u32,
    window_secs: u64,
)
    requires
        forall|k: int| 0 <= k < times.len() ==> (#[trigger] times[k])@ <= now,
        window_secs <= i64::MAX,
    ensures
        seconds_to_wait(times, now, max_polls, window_secs) <= window_secs,
{
    let counted = in_window(times, now, window_secs);
    lemma_retained(times, now - window_nanos(window_secs));
    if max_polls > 0 && counted.len() >= max_polls {
        let h = holding_back(counted, max_polls);
        assert(counted[h] == times[times.len() - counted.len() + h]);
    }
}

/// What is asked of a limiter, and when.
pub enum LimiterCall {
    /// Whether a poll is allowed.
    Ask(Timestamp),
    /// To record a poll.
    Record(Timestamp),
}

/// When a call was made.
pub open spec fn call_time(call: LimiterCall) -> int {
    match call {
        LimiterCall::Ask(at) => at@,
        LimiterCall::Record(at) => at@,
    }
}

/// The clock did not go back from one call to the next.
pub open spec fn in_time_order(calls: Seq<LimiterCall>) -> bool {
    forall|a: int, b: int|
        0 <= a <= b < calls.len() ==> call_time(calls[a]) <= call_time(calls[b])
}

/// The polls on record after these calls of a limiter that began with none.
pub open spec fn polls_after(calls: Seq<LimiterCall>, window_secs: u64) -> Seq<Timestamp>
    decreases calls.len(),
{
    if calls.len() == 0 {
        Seq::empty()
    } else {
        let before = polls_after(calls.drop_last(), window_secs);
        match calls.last() {
            LimiterCall::Ask(now) => in_window(before, now@, window_secs),
            LimiterCall::Record(now) => before.push(now),
        }
    }
}

/// How many of these calls recorded a poll at the time `since` or later.
pub open spec fn recorded_since(calls: Seq<LimiterCall>, since: int) -> nat
    decreases calls.len(),
{
    if calls.len() == 0 {
        0
    } else {
        recorded_since(calls.drop_last(), since) + match calls.last() {
            LimiterCall::Ask(_) => 0nat,
            LimiterCall::Record(at) => if at@ >= since {
                1
            } else {
                0
            },
        }
    }
}

/// Whatever was asked of a limiter before, a poll is allowed exactly if fewer
/// polls than allowed were ever recorded with a time within the window. A poll
/// exactly as old as the window still counts, an older one never does, and
/// asking uses up nothing.
pub proof fn law_allowed_iff_recent_polls_are_few(
    calls: Seq<LimiterCall>,
    now: int,
    max_polls: u32,
    window_secs: u64,
)
    requires
        in_time_order(calls),
        calls.len() > 0 ==> call_time(calls.last()) <= now,
    ensures
        admits(polls_after(calls, window_secs), now, max_polls, window_secs) <==> recorded_since(
            calls,
            now - window_nanos(window_secs),
        ) < max_polls,
{
    lemma_counted_polls(calls, now, window_secs);
}

/// How many of these calls recorded a poll.
pub open spec fn recorded(calls: Seq<LimiterCall>) -> nat
    decreases calls.len(),
{
    if calls.len() == 0 {
        0
    } else {
        recorded(calls.drop_last()) + match calls.last() {
            LimiterCall::Ask(_) => 0nat,
            LimiterCall::Record(_) => 1,
        }
    }
}

/// Polls that are recorded together after asking once pass the limit by no more
/// than their number: if a poll was allowed at the time `asked`, then in any
/// window that ends no earlier there are fewer polls than the limit and those
/// recorded since together.
pub proof fn law_asking_once_bounds_what_follows(
    earlier: Seq<LimiterCall>,
    asked: Timestamp,
    since: Seq<LimiterCall>,
    now: int,
    max_polls: u32,
    window_secs: u64,
)
    requires
        in_time_order(earlier),
        earlier.len() > 0 ==> call_time(earlier.last()) <= asked@,
        admits(polls_after(earlier, window_secs), asked@, max_polls, window_secs),
        asked@ <= now,
    ensures
        recorded_since(
            earlier.push(LimiterCall::Ask(asked)) + since,
            now - window_nanos(window_secs),
        ) < max_polls + recorded(since),
{
    let cutoff = now - window_nanos(window_secs);
    let before = earlier.push(LimiterCall::Ask(asked));
    law_allowed_iff_recent_polls_are_few(earlier, asked@, max_polls, window_secs);
    lemma_recorded_since_later(earlier, asked@ - window_nanos(window_secs), cutoff);
    assert(before.drop_last() =~= earlier);
    lemma_recorded_since_add(before, since, cutoff);
}

proof fn lemma_recorded_since_later(calls: Seq<LimiterCall>, since: int, later: int)
    requires
        since <= later,
    ensures
        recorded_since(calls, later) <= recorded_since(calls, since),
    decreases calls.len(),
{
    if calls.len() > 0 {
        lemma_recorded_since_later(calls.drop_last(), since, later);
    }
}

proof fn lemma_recorded_since_add(a: Seq<LimiterCall>, b: Seq<LimiterCall>, since: int)
    ensures
        recorded_since(a + b, since) <= recorded_since(a, since) + recorded(b),
    decreases b.len(),
{
    if b.len() == 0 {
        assert(a + b =~= a);
    } else {
        lemma_recorded_since_add(a, b.drop_last(), since);
        assert((a + b).drop_last() =~= a + b.drop_last());
    }
}

proof fn lemma_retained_push(times: Seq<Timestamp>, new: Timestamp, cutoff: int)
    ensures
        retained(times, cutoff).len() > 0 ==> retained(times.push(new), cutoff) == retained(
            times,
            cutoff,
        ).push(new),
        retained(times, cutoff).len() == 0 ==> retained(times.push(new), cutoff) == if new@
            >= cutoff {
            seq![new]
        } else {
            Seq::empty()
        },
    decreases times.len(),
{
    let longer = times.push(new);
    if times.len() == 0 {
        assert(longer.drop_first() =~= Seq::empty());
        assert(longer =~= seq![new]);
        assert(retained(longer.drop_first(), cutoff) =~= Seq::empty());
    } else if times[0]@ < cutoff {
        lemma_retained_push(times.drop_first(), new, cutoff);
        assert(longer.drop_first() =~= times.drop_first().push(new));
    }
}

proof fn lemma_counted_polls(calls: Seq<LimiterCall>, now: int, window_secs: u64)
    requires
        in_time_order(calls),
        calls.len() > 0 ==> call_time(calls.last()) <= now,
    ensures
        in_window(polls_after(calls, window_secs), now, window_secs).len() == recorded_since(
            calls,
            now - window_nanos(window_secs),
        ),
    decreases calls.len(),
{
    let cutoff = now - window_nanos(window_secs);
    if calls.len() > 0 {
        let r = calls.drop_last();
        let before = polls_after(r, window_secs);
        assert(in_time_order(r)) by {
            assert forall|a: int, b: int| 0 <= a <= b < r.len() implies call_time(r[a])
                <= call_time(r[b]) by {
                assert(call_time(calls[a]) <= call_time(calls[b]));
            }
        }
        if r.len() > 0 {
            assert(call_time(calls[r.len() - 1]) <= call_time(calls[r.len() as int]));
        }
        lemma_counted_polls(r, now, window_secs);
        match calls.last() {
            LimiterCall::Ask(at) => {
                law_dropped_polls_never_count_again(before, at@, now, window_secs);
            },
            LimiterCall::Record(at) => {
                lemma_retained_push(before, at, cutoff);
                if in_window(before, now, window_secs).len() > 0 && at@ < cutoff {
                    lemma_times_recorded(r, window_secs, at@);
                    lemma_retained(before, cutoff);
                    let kept = in_window(before, now, window_secs);
                    assert(kept[0] == before[before.len() - kept.len()]);
                }
            },
        }
    }
}

/// No poll on record is later than the last call.
proof fn lemma_times_recorded(calls: Seq<LimiterCall>, window_secs: u64, last: int)
    requires
        in_time_order(calls),
        calls.len() > 0 ==> call_time(calls.last()) <= last,
    ensures
        forall|k: int|
            0 <= k < polls_after(calls, window_secs).len() ==> (#[trigger] polls_after(
                calls,
                window_secs,
            )[k])@ <= last,
    decreases calls.len(),
{
    if calls.len() > 0 {
        let r = calls.drop_last();
        let before = polls_after(r, window_secs);
        assert(in_time_order(r)) by {
            assert forall|a: int, b: int| 0 <= a <= b < r.len() implies call_time(r[a])
                <= call_time(r[b]) by {
                assert(call_time(calls[a]) <= call_time(calls[b]));
            }
        }
        if r.len() > 0 {
            assert(call_time(calls[r.len() - 1]) <= call_time(calls[r.len() as int]));
        }
        lemma_times_recorded(r, window_secs, last);
        match calls.last() {
            LimiterCall::Ask(at) => {
                lemma_retained(before, at@ - window_nanos(window_secs));
            },
            LimiterCall::Record(at) => {},
        }
    }
}

/// The window is as many seconds long as it is set to.
pub proof fn law_length_of_the_window(window_secs: u64)
    requires
        window_secs <= i64::MAX,
    ensures
        window_nanos(window_secs) == window_secs * 1_000_000_000,
{
}

/// Nobody is told to wait longer than needed: before the wait that was announced
/// has passed, no poll is allowed.
pub proof fn law_wait_is_needed(
    times: Seq<Timestamp>,
    now: int,
    later: int,
    max_polls: u32,
    window_secs: u64,
)
    requires
        chronological(times),
        now <= later < now + seconds_to_wait(times, now, max_polls, window_secs) * NANOS_PER_SEC,
    ensures
        !admits(times, later, max_polls, window_secs),
{
    if max_polls > 0 {
        let counted = in_window(times, now, window_secs);
        let kept = in_window(times, later, window_secs);
        lemma_retained(times, now - window_nanos(window_secs));
        lemma_retained(times, later - window_nanos(window_secs));
        let h = times.len() - max_polls;
        assert(counted[counted.len() - max_polls] == times[h]);
        let f = times.len() - kept.len();
        if f > h {
            assert(times[h]@ < later - window_nanos(window_secs));
        }
    }
}

/// With a limit of zero no poll is ever allowed, and the wait is that until the
/// oldest poll on record is as old as the window.
pub proof fn law_limit_of_zero(times: Seq<Timestamp>, now: int, window_secs: u64)
    ensures
        !admits(times, now, 0, window_secs),
        times.len() == 0 ==> seconds_to_wait(times, now, 0, window_secs) == 0,
        times.len() > 0 && times[0]@ + window_nanos(window_secs) <= now ==> seconds_to_wait(
            times,
            now,
            0,
            window_secs,
        ) == 0,
        times.len() > 0 && times[0]@ + window_nanos(window_secs) > now ==> {
            let secs = seconds_to_wait(times, now, 0, window_secs);
            secs * 1_000_000_000 <= times[0]@ + window_nanos(window_secs) - now < (secs + 1)
                * 1_000_000_000
        },
{
}

/// While a poll is allowed nobody waits.
pub proof fn law_no_wait_while_allowed(
    times: Seq<Timestamp>,
    now: int,
    max_polls: u32,
    window_secs: u64,
)
    requires
        admits(times, now, max_polls, window_secs),
    ensures
        seconds_to_wait(times, now, max_polls, window_secs) == 0,
{
}

} // verus!
