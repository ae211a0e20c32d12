//! What holds of whole polls, and from one poll to the next.

use crate::config::{Config, LabelNames};
use crate::cycle::{
    dealt_with, goes_on, lemma_next_possible, lemma_next_relevant, next_possible, next_relevant,
    polls_with, relevant, Action, Event, PollCycle, Stage,
};
use crate::docker::Container;
use crate::plan::{rollout, Step};
use crate::plan_laws::law_each_step_exactly_once;
use crate::policy::service_name_of;
use crate::rate_limiter::{
    admits, call_time, in_time_order, in_window, law_asking_once_bounds_what_follows, polls_after,
    recorded, recorded_since, window_nanos, LimiterCall,
};
use crate::saved::{facts_of, SavedState};
use crate::state::{settled, RawrrState};
use crate::time::{Timestamp, NANOS_PER_SEC};
use vstd::prelude::*;

verus! {

/// A moment of a poll: an action has just been handed out.
pub struct Moment {
    pub cycle: PollCycle,
    pub state: RawrrState,
    /// The polls that the rate limiter has on record.
    pub polls: Seq<Timestamp>,
    pub action: Action,
}

/// What came of an action, and when.
pub struct Outcome {
    pub event: Event,
    pub now: Timestamp,
}

/// A poll begins.
pub open spec fn starts(config: Config, moment: Moment) -> bool {
    &&& moment.cycle.well_formed()
    &&& moment.cycle.pending@.len() == 0
    &&& moment.cycle.scans(moment.action, config.label_names(), 0)
}

/// A poll goes on from one moment to the next.
pub open spec fn follows(
    config: Config,
    before: Moment,
    outcome: Outcome,
    after: Moment,
) -> bool {
    &&& after.cycle.well_formed()
    &&& goes_on(
        config,
        before.cycle,
        after.cycle,
        before.state,
        after.state,
        outcome.event,
        outcome.now,
        after.action,
    )
    &&& after.polls == polls_with(before.polls, after.action, outcome.now)
}

/// The moments of a poll, or of a part of it from its beginning on, with what
/// came of each action but the last.
pub open spec fn is_poll(
    config: Config,
    moments: Seq<Moment>,
    outcomes: Seq<Outcome>,
) -> bool {
    &&& moments.len() == outcomes.len() + 1
    &&& starts(config, moments[0])
    &&& forall|k: int|
        0 <= k < outcomes.len() ==> follows(
            config,
            moments[k],
            #[trigger] outcomes[k],
            moments[k + 1],
        )
}

/// How many of the actions ask a registry for a digest.
pub open spec fn queries(moments: Seq<Moment>) -> nat
    decreases moments.len(),
{
    if moments.len() == 0 {
        0
    } else {
        queries(moments.drop_last()) + if moments.last().action is FetchDigest {
            1nat
        } else {
            0
        }
    }
}

/// The polls that the rate limiter has on record rise by one for each time that
/// a registry is asked, and by nothing else.
pub proof fn law_each_query_counts(
    config: Config,
    moments: Seq<Moment>,
    outcomes: Seq<Outcome>,
    polls: Seq<Timestamp>,
    began: Timestamp,
)
    requires
        is_poll(config, moments, outcomes),
        moments[0].polls == polls_with(polls, moments[0].action, began),
    ensures
        moments.last().polls.len() == polls.len() + queries(moments),
        moments.last().polls.take(polls.len() as int) == polls,
    decreases moments.len(),
{
    if moments.len() == 1 {
        assert(queries(moments.drop_last()) == 0);
        assert(moments.last().polls.take(polls.len() as int) =~= polls);
    } else {
        let r = moments.drop_last();
        let s = outcomes.drop_last();
        lemma_is_poll_before(config, moments, outcomes);
        law_each_query_counts(config, r, s, polls, began);
        assert(moments.last().polls.take(polls.len() as int) =~= r.last().polls.take(
            polls.len() as int,
        ));
    }
}

/// How many of the first containers have their updates looked for.
pub open spec fn watched(containers: Seq<Container>, names: LabelNames, count: int) -> nat
    decreases count,
{
    if count <= 0 {
        0
    } else {
        watched(containers, names, count - 1) + if relevant(containers[count - 1], names) {
            1nat
        } else {
            0
        }
    }
}

/// The number of containers that a registry was asked about, or that were
/// passed over.
pub open spec fn gone_through(cycle: PollCycle) -> int {
    match cycle.stage {
        Stage::Registry { index, .. } => index + 1,
        Stage::Local { index, .. } => index + 1,
        _ => cycle.containers@.len() as int,
    }
}

proof fn lemma_none_watched(containers: Seq<Container>, names: LabelNames, a: int, b: int)
    requires
        0 <= a <= b <= containers.len(),
        forall|k: int| a <= k < b ==> !relevant(#[trigger] containers[k], names),
    ensures
        watched(containers, names, b) == watched(containers, names, a),
    decreases b - a,
{
    if a < b {
        lemma_none_watched(containers, names, a, b - 1);
        assert(!relevant(containers[b - 1], names));
    }
}

/// A poll asks a registry once about each container whose updates are looked
/// for, as far as it has come, and about no other.
pub proof fn law_one_query_for_each_watched_container(
    config: Config,
    moments: Seq<Moment>,
    outcomes: Seq<Outcome>,
)
    requires
        is_poll(config, moments, outcomes),
    ensures
        queries(moments) == watched(
            moments[0].cycle.containers@,
            config.label_names(),
            gone_through(moments.last().cycle),
        ),
        0 <= gone_through(moments.last().cycle) <= moments[0].cycle.containers@.len(),
{
    lemma_queries(config, moments, outcomes);
}

proof fn lemma_is_poll_before(config: Config, moments: Seq<Moment>, outcomes: Seq<Outcome>)
    requires
        is_poll(config, moments, outcomes),
        moments.len() > 1,
    ensures
        is_poll(config, moments.drop_last(), outcomes.drop_last()),
        follows(
            config,
            moments[moments.len() - 2],
            outcomes.last(),
            moments.last(),
        ),
{
    let r = moments.drop_last();
    let s = outcomes.drop_last();
    assert forall|k: int| 0 <= k < s.len() implies follows(
        config,
        r[k],
        #[trigger] s[k],
        r[k + 1],
    ) by {
        assert(follows(config, moments[k], outcomes[k], moments[k + 1]));
    }
    let last = outcomes.len() - 1;
    assert(follows(config, moments[last], outcomes[last], moments[last + 1]));
}

proof fn lemma_queries(config: Config, moments: Seq<Moment>, outcomes: Seq<Outcome>)
    requires
        is_poll(config, moments, outcomes),
    ensures
        queries(moments) == watched(
            moments[0].cycle.containers@,
            config.label_names(),
            gone_through(moments.last().cycle),
        ),
        0 <= gone_through(moments.last().cycle) <= moments[0].cycle.containers@.len(),
        moments.last().cycle.containers == moments[0].cycle.containers,
        moments.last().cycle.well_formed(),
    decreases moments.len(),
{
    let names = config.label_names();
    let containers = moments[0].cycle.containers@;
    if moments.len() == 1 {
        assert(queries(moments.drop_last()) == 0);
        let k = next_relevant(containers, names, 0);
        lemma_next_relevant(containers, names, 0);
        lemma_none_watched(containers, names, 0, k);
    } else {
        let r = moments.drop_last();
        lemma_is_poll_before(config, moments, outcomes);
        lemma_queries(config, r, outcomes.drop_last());
        let from = gone_through(r.last().cycle);
        lemma_next_relevant(containers, names, from);
        lemma_none_watched(containers, names, from, next_relevant(containers, names, from));
    }
}

/// What the rate limiter is asked for in a poll that began at a time: to record
/// a poll for each time that a registry is asked.
pub open spec fn limiter_calls(
    moments: Seq<Moment>,
    outcomes: Seq<Outcome>,
    began: Timestamp,
) -> Seq<LimiterCall>
    decreases moments.len(),
{
    if moments.len() == 0 {
        Seq::empty()
    } else {
        let before = limiter_calls(moments.drop_last(), outcomes, began);
        let now = if moments.len() == 1 {
            began
        } else {
            outcomes[moments.len() - 2].now
        };
        if moments.last().action is FetchDigest {
            before.push(LimiterCall::Record(now))
        } else {
            before
        }
    }
}

/// How far the queries of a poll can pass the rate limit. The limiter is asked
/// once, at the time `decided`, before the poll begins. In any window that ends
/// no earlier, fewer queries were ever made than the limit and the containers
/// of this poll whose updates are looked for together.
pub proof fn law_queries_of_any_window_are_bounded(
    config: Config,
    moments: Seq<Moment>,
    outcomes: Seq<Outcome>,
    earlier: Seq<LimiterCall>,
    decided: Timestamp,
    began: Timestamp,
    max_polls: u32,
    window_secs: u64,
    now: int,
)
    requires
        is_poll(config, moments, outcomes),
        in_time_order(earlier),
        earlier.len() > 0 ==> call_time(earlier.last()) <= decided@,
        admits(polls_after(earlier, window_secs), decided@, max_polls, window_secs),
        moments[0].polls == polls_with(
            in_window(polls_after(earlier, window_secs), decided@, window_secs),
            moments[0].action,
            began,
        ),
        decided@ <= now,
    ensures
        ({
            let calls = earlier.push(LimiterCall::Ask(decided)) + limiter_calls(
                moments,
                outcomes,
                began,
            );
            let containers = moments[0].cycle.containers@;
            &&& moments.last().polls == polls_after(calls, window_secs)
            &&& recorded_since(calls, now - window_nanos(window_secs)) < max_polls + watched(
                containers,
                config.label_names(),
                containers.len() as int,
            )
        }),
{
    let containers = moments[0].cycle.containers@;
    let names = config.label_names();
    let since = limiter_calls(moments, outcomes, began);
    law_asking_once_bounds_what_follows(
        earlier,
        decided,
        since,
        now,
        max_polls,
        window_secs,
    );
    lemma_limiter_calls(config, moments, outcomes, earlier, decided, began, window_secs);
    lemma_queries(config, moments, outcomes);
    lemma_watched_grows(
        containers,
        names,
        gone_through(moments.last().cycle),
        containers.len() as int,
    );
}

proof fn lemma_watched_grows(containers: Seq<Container>, names: LabelNames, a: int, b: int)
    requires
        a <= b,
    ensures
        watched(containers, names, a) <= watched(containers, names, b),
    decreases b - a,
{
    if a < b {
        lemma_watched_grows(containers, names, a, b - 1);
    }
}

proof fn lemma_limiter_calls(
    config: Config,
    moments: Seq<Moment>,
    outcomes: Seq<Outcome>,
    earlier: Seq<LimiterCall>,
    decided: Timestamp,
    began: Timestamp,
    window_secs: u64,
)
    requires
        is_poll(config, moments, outcomes),
        moments[0].polls == polls_with(
            in_window(polls_after(earlier, window_secs), decided@, window_secs),
            moments[0].action,
            began,
        ),
    ensures
        moments.last().polls == polls_after(
            earlier.push(LimiterCall::Ask(decided)) + limiter_calls(moments, outcomes, began),
            window_secs,
        ),
        recorded(limiter_calls(moments, outcomes, began)) == queries(moments),
    decreases moments.len(),
{
    let asked = earlier.push(LimiterCall::Ask(decided));
    let calls = limiter_calls(moments, outcomes, began);
    let r = moments.drop_last();
    let before = limiter_calls(r, outcomes, began);
    if moments.len() == 1 {
        assert(before =~= Seq::empty());
        assert(asked + before =~= asked);
        assert(asked.drop_last() =~= earlier);
        assert(polls_after(asked, window_secs) == in_window(
            polls_after(earlier, window_secs),
            decided@,
            window_secs,
        ));
        assert(queries(r) == 0 && recorded(before) == 0);
    } else {
        let s = outcomes.drop_last();
        lemma_is_poll_before(config, moments, outcomes);
        lemma_limiter_calls(config, r, s, earlier, decided, began, window_secs);
        lemma_limiter_calls_prefix(r, outcomes, s, began);
        assert(r.last() == moments[moments.len() - 2]);
    }
    if moments.last().action is FetchDigest {
        assert((asked + calls).drop_last() =~= asked + before);
        assert((asked + calls).last() == calls.last());
        assert(calls.drop_last() =~= before);
    }
}

proof fn lemma_limiter_calls_prefix(
    moments: Seq<Moment>,
    a: Seq<Outcome>,
    b: Seq<Outcome>,
    began: Timestamp,
)
    requires
        moments.len() <= a.len() + 1,
        moments.len() <= b.len() + 1,
        forall|k: int| 0 <= k < moments.len() - 1 ==> #[trigger] a[k] == b[k],
    ensures
        limiter_calls(moments, a, began) == limiter_calls(moments, b, began),
    decreases moments.len(),
{
    if moments.len() > 0 {
        lemma_limiter_calls_prefix(moments.drop_last(), a, b, began);
        if moments.len() > 1 {
            assert(a[moments.len() - 2] == b[moments.len() - 2]);
        }
    }
}

/// No two containers run the same service.
pub open spec fn distinct_services(containers: Seq<Container>) -> bool {
    forall|a: int, b: int|
        0 <= a < b < containers.len() ==> service_name_of(#[trigger] containers[a])
            != service_name_of(#[trigger] containers[b])
}

/// The image with this digest is on record for a service.
pub open spec fn on_record(state: RawrrState, name: Seq<char>, digest: Seq<char>) -> bool {
    match state.image(name) {
        Some(known) => known.digest@ == digest,
        None => false,
    }
}

/// The number of containers that have been looked at.
pub open spec fn looked_at(cycle: PollCycle) -> int {
    match cycle.stage {
        Stage::Registry { index, .. } => index as int,
        Stage::Local { index, .. } => index as int,
        _ => cycle.containers@.len() as int,
    }
}

/// One of the first containers runs this service.
pub open spec fn runs_among(containers: Seq<Container>, name: Seq<char>, count: int) -> bool {
    exists|c: int|
        0 <= c < count && c < containers.len() && service_name_of(#[trigger] containers[c]) == name
}

/// The upgrades that are due are to images on record, and belong to containers
/// that have been looked at.
pub open spec fn keeps_track(moment: Moment) -> bool {
    let cycle = moment.cycle;
    &&& forall|i: int|
        #![trigger cycle.pending@[i]]
        0 <= i < cycle.pending@.len() ==> on_record(
            moment.state,
            cycle.pending@[i].service_name@,
            cycle.pending@[i].new_digest@,
        ) && runs_among(cycle.containers@, cycle.pending@[i].service_name@, looked_at(cycle))
    &&& match cycle.stage {
        Stage::Local { index, digest, .. } => on_record(
            moment.state,
            service_name_of(cycle.containers@[index as int]),
            digest@,
        ),
        _ => true,
    }
}

proof fn lemma_keeps_track(config: Config, before: Moment, outcome: Outcome, after: Moment)
    requires
        before.cycle.well_formed(),
        distinct_services(before.cycle.containers@),
        keeps_track(before),
        follows(config, before, outcome, after),
    ensures
        keeps_track(after),
{
    let a = before.cycle;
    let b = after.cycle;
    let containers = a.containers@;
    match a.stage {
        Stage::Registry { index, .. } => {
            lemma_next_relevant(containers, config.label_names(), index + 1);
        },
        Stage::Local { index, .. } => {
            lemma_next_relevant(containers, config.label_names(), index + 1);
        },
        _ => {},
    }
    assert(looked_at(a) <= looked_at(b));
    assert forall|i: int| #![trigger b.pending@[i]] 0 <= i < b.pending@.len() implies on_record(
        after.state,
        b.pending@[i].service_name@,
        b.pending@[i].new_digest@,
    ) && runs_among(containers, b.pending@[i].service_name@, looked_at(b)) by {
        let name = b.pending@[i].service_name@;
        if i < a.pending@.len() {
            assert(a.pending@[i] == b.pending@[i]) by {
                if b.pending@.len() > a.pending@.len() {
                    assert(b.pending@.drop_last()[i] == b.pending@[i]);
                }
            }
            let c = choose|c: int|
                0 <= c < looked_at(a) && c < containers.len() && service_name_of(
                    #[trigger] containers[c],
                ) == name;
            assert(service_name_of(containers[c]) == name);
            match a.stage {
                Stage::Registry { index, .. } => {
                    assert(service_name_of(containers[c]) != service_name_of(
                        containers[index as int],
                    ));
                },
                _ => {},
            }
        } else {
            assert(b.pending@[i] == b.pending@.last());
            match a.stage {
                Stage::Registry { index, .. } => {
                    assert(service_name_of(containers[index as int]) == name);
                },
                Stage::Local { index, .. } => {
                    assert(service_name_of(containers[index as int]) == name);
                },
                _ => {},
            }
        }
    }
}

proof fn lemma_poll_keeps_track(
    config: Config,
    moments: Seq<Moment>,
    outcomes: Seq<Outcome>,
    k: int,
)
    requires
        is_poll(config, moments, outcomes),
        distinct_services(moments[0].cycle.containers@),
        0 <= k < moments.len(),
    ensures
        keeps_track(moments[k]),
        moments[k].cycle.well_formed(),
        moments[k].cycle.containers == moments[0].cycle.containers,
    decreases k,
{
    if k > 0 {
        lemma_poll_keeps_track(config, moments, outcomes, k - 1);
        assert(follows(config, moments[k - 1], outcomes[k - 1], moments[k - 1 + 1]));
        lemma_keeps_track(config, moments[k - 1], outcomes[k - 1], moments[k]);
    }
}

/// At moment `j` of a poll a step is asked for that deals with upgrade `i`, and
/// it is done: an update that is only announced is announced, or a container
/// is started anew.
pub open spec fn deals_with(
    moments: Seq<Moment>,
    outcomes: Seq<Outcome>,
    j: int,
    i: int,
) -> bool {
    &&& 0 <= j < outcomes.len()
    &&& outcomes[j].event is Done
    &&& 0 <= i < moments[j].cycle.pending@.len()
    &&& match moments[j].cycle.stage {
        Stage::Rollout { at } => dealt_with(
            moments[j].cycle.steps@[at as int],
            moments[j].cycle.pending@,
        ) == Some(i),
        _ => false,
    }
}

proof fn lemma_stays_settled(
    config: Config,
    moments: Seq<Moment>,
    outcomes: Seq<Outcome>,
    j: int,
    i: int,
    m: int,
)
    requires
        is_poll(config, moments, outcomes),
        distinct_services(moments[0].cycle.containers@),
        deals_with(moments, outcomes, j, i),
        j < m < moments.len(),
    ensures
        ({
            let upgrade = moments[j].cycle.pending@[i];
            settled(
                moments[m].state.image(upgrade.service_name@),
                upgrade.new_digest@,
            )
        }),
        moments[m].cycle.stage is Rollout || moments[m].cycle.stage is Finished,
    decreases m,
{
    assert(follows(config, moments[m - 1], outcomes[m - 1], moments[m - 1 + 1]));
    if m == j + 1 {
        lemma_poll_keeps_track(config, moments, outcomes, j);
        let upgrade = moments[j].cycle.pending@[i];
        assert(on_record(moments[j].state, upgrade.service_name@, upgrade.new_digest@));
    } else {
        lemma_stays_settled(config, moments, outcomes, j, i, m - 1);
    }
}

/// The state is written after an upgrade was dealt with, and what is written
/// says so: in a poll that has come to its end, some action after that has the
/// state written with the image settled.
pub proof fn law_settled_upgrade_is_written(
    config: Config,
    moments: Seq<Moment>,
    outcomes: Seq<Outcome>,
    j: int,
    i: int,
)
    requires
        is_poll(config, moments, outcomes),
        distinct_services(moments[0].cycle.containers@),
        deals_with(moments, outcomes, j, i),
        moments.last().cycle.stage is Finished,
    ensures
        ({
            let upgrade = moments[j].cycle.pending@[i];
            exists|m: int|
                j < m < moments.len() && (#[trigger] moments[m]).action is SaveState && settled(
                    moments[m].state.image(upgrade.service_name@),
                    upgrade.new_digest@,
                )
        }),
{
    lemma_poll_keeps_track(config, moments, outcomes, j);
    let m = lemma_save_is_reached(config, moments, outcomes, j);
    lemma_stays_settled(config, moments, outcomes, j, i, m);
}

/// A rollout that has come to its end had the state written. `m` is when.
proof fn lemma_save_is_reached(
    config: Config,
    moments: Seq<Moment>,
    outcomes: Seq<Outcome>,
    j: int,
) -> (m: int)
    requires
        is_poll(config, moments, outcomes),
        0 <= j < moments.len(),
        moments[j].cycle.well_formed(),
        moments[j].cycle.stage matches Stage::Rollout { at } && moments[j].cycle.steps@[at as int]
            != Step::Save,
        moments.last().cycle.stage is Finished,
    ensures
        j < m < moments.len(),
        moments[m].action is SaveState,
    decreases moments.len() - j,
{
    let here = moments[j].cycle;
    let at = here.stage->Rollout_at;
    let there = moments[j + 1].cycle;
    assert(follows(config, moments[j], outcomes[j], moments[j + 1]));
    let last = here.steps@.len() - 1;
    assert(here.steps@[last] == Step::Save);
    lemma_next_possible(there.steps@, there.pending@, there.inspected@, at + 1);
    let next = next_possible(there.steps@, there.pending@, there.inspected@, at + 1);
    assert(next <= last);
    if there.steps@[next] == Step::Save {
        j + 1
    } else {
        lemma_save_is_reached(config, moments, outcomes, j + 1)
    }
}

/// Whenever a registry is asked about the image of this service and answers, it
/// gives this digest.
pub open spec fn registry_gives(
    moments: Seq<Moment>,
    outcomes: Seq<Outcome>,
    name: Seq<char>,
    digest: Seq<char>,
) -> bool {
    forall|k: int|
        0 <= k < outcomes.len() ==> match (
            moments[k].cycle.stage,
            (#[trigger] outcomes[k]).event,
        ) {
            (Stage::Registry { index, .. }, Event::Digest(given)) => service_name_of(
                moments[k].cycle.containers@[index as int],
            ) == name ==> given@ == digest,
            _ => true,
        }
}

/// Nothing is taken up for this service.
pub open spec fn left_alone(moment: Moment, name: Seq<char>) -> bool {
    let cycle = moment.cycle;
    &&& forall|i: int|
        0 <= i < cycle.pending@.len() ==> (#[trigger] cycle.pending@[i]).service_name@ != name
    &&& match cycle.stage {
        Stage::Local { index, .. } => service_name_of(cycle.containers@[index as int]) != name,
        _ => true,
    }
}

/// The action concerns a container of this service beyond asking a registry.
pub open spec fn acts_on(action: Action, name: Seq<char>) -> bool {
    match action {
        Action::Notify { notification } => notification.service_name@ == name,
        Action::FetchLocalDigest { service_name, .. } => service_name@ == name,
        Action::Inspect { service_name, .. } => service_name@ == name,
        Action::Pull { service_name, .. } => service_name@ == name,
        Action::Stop { service_name, .. } => service_name@ == name,
        Action::Start { service_name, .. } => service_name@ == name,
        _ => false,
    }
}

/// In a poll that begins with the image that the registry gives for a service
/// settled, nothing is done about that service, and the image stays settled.
pub proof fn law_settled_service_is_left_alone(
    config: Config,
    moments: Seq<Moment>,
    outcomes: Seq<Outcome>,
    name: Seq<char>,
    digest: Seq<char>,
    k: int,
)
    requires
        is_poll(config, moments, outcomes),
        settled(moments[0].state.image(name), digest),
        registry_gives(moments, outcomes, name, digest),
        0 <= k < moments.len(),
    ensures
        settled(moments[k].state.image(name), digest),
        !acts_on(moments[k].action, name),
{
    lemma_left_alone(config, moments, outcomes, name, digest, k);
}

proof fn lemma_left_alone(
    config: Config,
    moments: Seq<Moment>,
    outcomes: Seq<Outcome>,
    name: Seq<char>,
    digest: Seq<char>,
    k: int,
)
    requires
        is_poll(config, moments, outcomes),
        settled(moments[0].state.image(name), digest),
        registry_gives(moments, outcomes, name, digest),
        0 <= k < moments.len(),
    ensures
        settled(moments[k].state.image(name), digest),
        left_alone(moments[k], name),
        moments[k].cycle.well_formed(),
        !acts_on(moments[k].action, name),
    decreases k,
{
    if k > 0 {
        lemma_left_alone(config, moments, outcomes, name, digest, k - 1);
        let before = moments[k - 1];
        let after = moments[k];
        let a = before.cycle;
        let b = after.cycle;
        assert(follows(config, before, outcomes[k - 1], moments[k - 1 + 1]));
        assert forall|i: int| 0 <= i < b.pending@.len() implies (
        #[trigger] b.pending@[i]).service_name@ != name by {
            if i < a.pending@.len() {
                assert(a.pending@[i] == b.pending@[i]) by {
                    if b.pending@.len() > a.pending@.len() {
                        assert(b.pending@.drop_last()[i] == b.pending@[i]);
                    }
                }
            } else {
                assert(b.pending@[i] == b.pending@.last());
            }
        }
        lemma_steps_in_range(b);
    }
}

/// The step that a cycle is at is one for an upgrade that is due.
proof fn lemma_steps_in_range(cycle: PollCycle)
    requires
        cycle.well_formed(),
    ensures
        cycle.stage matches Stage::Rollout { at } ==> match cycle.steps@[at as int] {
            Step::Notify(i) => i < cycle.pending@.len(),
            Step::Inspect(i) => i < cycle.pending@.len(),
            Step::Pull(i) => i < cycle.pending@.len(),
            Step::Stop(i) => i < cycle.pending@.len(),
            Step::Start(i) => i < cycle.pending@.len(),
            Step::Save => true,
        },
{
    match cycle.stage {
        Stage::Rollout { at } => {
            assert(cycle.pending.len() == cycle.pending@.len());
            if cycle.pending@.len() > 0 {
                law_each_step_exactly_once(cycle.pending@);
            }
            assert(rollout(cycle.pending@).contains(cycle.steps@[at as int]));
        },
        _ => {},
    }
}

/// What has been dealt with in one poll is not taken up again in the next: if
/// an update was announced in a poll, or applied, and the registry still gives
/// the same digest, the next poll neither announces the update nor does
/// anything else about the service. It makes no difference how much time has
/// passed, nor whether the program was started anew in between from the state
/// as it was written at any moment after that.
pub proof fn law_dealt_with_is_not_taken_up_again(
    config: Config,
    first: Seq<Moment>,
    first_outcomes: Seq<Outcome>,
    j: int,
    i: int,
    m: int,
    saved: SavedState,
    next_config: Config,
    second: Seq<Moment>,
    second_outcomes: Seq<Outcome>,
    k: int,
)
    requires
        is_poll(config, first, first_outcomes),
        distinct_services(first[0].cycle.containers@),
        deals_with(first, first_outcomes, j, i),
        j < m < first.len(),
        saved.facts() == facts_of(first[m].state.services@),
        facts_of(second[0].state.services@) == saved.facts(),
        is_poll(next_config, second, second_outcomes),
        registry_gives(
            second,
            second_outcomes,
            first[j].cycle.pending@[i].service_name@,
            first[j].cycle.pending@[i].new_digest@,
        ),
        0 <= k < second.len(),
    ensures
        !acts_on(second[k].action, first[j].cycle.pending@[i].service_name@),
        settled(
            second[k].state.image(first[j].cycle.pending@[i].service_name@),
            first[j].cycle.pending@[i].new_digest@,
        ),
{
    let name = first[j].cycle.pending@[i].service_name@;
    let digest = first[j].cycle.pending@[i].new_digest@;
    lemma_stays_settled(config, first, first_outcomes, j, i, m);
    let kept = facts_of(first[m].state.services@);
    let restored = facts_of(second[0].state.services@);
    assert(kept.contains_key(name));
    assert(restored.contains_key(name));
    assert(kept[name] == first[m].state.services@[name]@);
    assert(restored[name] == second[0].state.services@[name]@);
    law_settled_service_is_left_alone(next_config, second, second_outcomes, name, digest, k);
}

/// The image on record for a service, if there is one, was first seen at this
/// time or later.
pub open spec fn known_no_longer_than(state: RawrrState, name: Seq<char>, time: int) -> bool {
    match state.image(name) {
        Some(known) => known.first_seen@ >= time,
        None => true,
    }
}

proof fn lemma_known_in_first(
    config: Config,
    moments: Seq<Moment>,
    outcomes: Seq<Outcome>,
    j: int,
    i: int,
    m: int,
)
    requires
        is_poll(config, moments, outcomes),
        deals_with(moments, outcomes, j, i),
        j < m < moments.len(),
        forall|x: int| j < x < m ==> (#[trigger] outcomes[x]).now@ >= outcomes[j].now@,
    ensures
        known_no_longer_than(
            moments[m].state,
            moments[j].cycle.pending@[i].service_name@,
            outcomes[j].now@,
        ),
        moments[m].cycle.stage is Rollout || moments[m].cycle.stage is Finished,
    decreases m,
{
    assert(follows(config, moments[m - 1], outcomes[m - 1], moments[m - 1 + 1]));
    if m > j + 1 {
        lemma_known_in_first(config, moments, outcomes, j, i, m - 1);
        assert(outcomes[m - 1].now@ >= outcomes[j].now@);
    }
}

proof fn lemma_left_alone_within_delay(
    config: Config,
    moments: Seq<Moment>,
    outcomes: Seq<Outcome>,
    name: Seq<char>,
    time: int,
    k: int,
)
    requires
        is_poll(config, moments, outcomes),
        known_no_longer_than(moments[0].state, name, time),
        config.release_delay_hours > 0,
        forall|x: int|
            0 <= x < outcomes.len() ==> time <= (#[trigger] outcomes[x]).now@ < time
                + config.release_delay_hours * 3600 * NANOS_PER_SEC,
        0 <= k < moments.len(),
    ensures
        known_no_longer_than(moments[k].state, name, time),
        left_alone(moments[k], name),
        moments[k].cycle.well_formed(),
        !acts_on(moments[k].action, name),
    decreases k,
{
    if k > 0 {
        lemma_left_alone_within_delay(config, moments, outcomes, name, time, k - 1);
        let before = moments[k - 1];
        let after = moments[k];
        let a = before.cycle;
        let b = after.cycle;
        assert(follows(config, before, outcomes[k - 1], moments[k - 1 + 1]));
        assert(time <= outcomes[k - 1].now@);
        assert forall|i: int| 0 <= i < b.pending@.len() implies (
        #[trigger] b.pending@[i]).service_name@ != name by {
            if i < a.pending@.len() {
                assert(a.pending@[i] == b.pending@[i]) by {
                    if b.pending@.len() > a.pending@.len() {
                        assert(b.pending@.drop_last()[i] == b.pending@[i]);
                    }
                }
            } else {
                assert(b.pending@[i] == b.pending@.last());
            }
        }
        lemma_steps_in_range(b);
    }
}

/// Within the release delay after an upgrade of a service was dealt with,
/// nothing at all is taken up for that service in the next poll, whatever the
/// registry gives, also if several containers run the service, and also if the
/// program was started anew in between from the state as it was written at any
/// moment after that.
pub proof fn law_nothing_is_taken_up_within_the_delay(
    config: Config,
    first: Seq<Moment>,
    first_outcomes: Seq<Outcome>,
    j: int,
    i: int,
    m: int,
    saved: SavedState,
    next_config: Config,
    second: Seq<Moment>,
    second_outcomes: Seq<Outcome>,
    k: int,
)
    requires
        is_poll(config, first, first_outcomes),
        deals_with(first, first_outcomes, j, i),
        j < m < first.len(),
        forall|x: int|
            j < x < m ==> (#[trigger] first_outcomes[x]).now@ >= first_outcomes[j].now@,
        saved.facts() == facts_of(first[m].state.services@),
        facts_of(second[0].state.services@) == saved.facts(),
        is_poll(next_config, second, second_outcomes),
        next_config.release_delay_hours > 0,
        forall|x: int|
            0 <= x < second_outcomes.len() ==> first_outcomes[j].now@ <= (
            #[trigger] second_outcomes[x]).now@ < first_outcomes[j].now@
                + next_config.release_delay_hours * 3600 * NANOS_PER_SEC,
        0 <= k < second.len(),
    ensures
        !acts_on(second[k].action, first[j].cycle.pending@[i].service_name@),
{
    let name = first[j].cycle.pending@[i].service_name@;
    let time = first_outcomes[j].now@;
    lemma_known_in_first(config, first, first_outcomes, j, i, m);
    let kept = facts_of(first[m].state.services@);
    let restored = facts_of(second[0].state.services@);
    assert(kept.contains_key(name) == first[m].state.services@.contains_key(name));
    assert(restored.contains_key(name) == second[0].state.services@.contains_key(name));
    if kept.contains_key(name) {
        assert(kept[name] == first[m].state.services@[name]@);
        assert(restored[name] == second[0].state.services@[name]@);
    }
    lemma_left_alone_within_delay(next_config, second, second_outcomes, name, time, k);
}

/// No two containers have the same identifier.
pub open spec fn distinct_ids(containers: Seq<Container>) -> bool {
    forall|a: int, b: int|
        0 <= a < b < containers.len() ==> (#[trigger] containers[a]).id@ != (
        #[trigger] containers[b]).id@
}

/// One of the containers of a range has this identifier.
pub open spec fn id_within(containers: Seq<Container>, id: Seq<char>, low: int, high: int) -> bool {
    exists|c: int|
        low <= c < high && 0 <= c < containers.len() && (#[trigger] containers[c]).id@ == id
}

proof fn lemma_containers_stay(
    config: Config,
    moments: Seq<Moment>,
    outcomes: Seq<Outcome>,
    k: int,
)
    requires
        is_poll(config, moments, outcomes),
        0 <= k < moments.len(),
    ensures
        moments[k].cycle.containers == moments[0].cycle.containers,
        moments[k].cycle.well_formed(),
    decreases k,
{
    if k > 0 {
        lemma_containers_stay(config, moments, outcomes, k - 1);
        assert(follows(config, moments[k - 1], outcomes[k - 1], moments[k - 1 + 1]));
    }
}

/// An upgrade is there from before, or it is that of the container that was
/// looked at.
proof fn lemma_added_id(
    config: Config,
    moments: Seq<Moment>,
    outcomes: Seq<Outcome>,
    k: int,
    i: int,
)
    requires
        is_poll(config, moments, outcomes),
        0 <= k < moments.len(),
        0 <= i < moments[k].cycle.pending@.len(),
    ensures
        id_within(
            moments[0].cycle.containers@,
            moments[k].cycle.pending@[i].container_id@,
            0,
            looked_at(moments[k].cycle),
        ),
        moments[k].cycle.containers == moments[0].cycle.containers,
        moments[k].cycle.well_formed(),
    decreases k,
{
    lemma_containers_stay(config, moments, outcomes, k);
    if k > 0 {
        lemma_containers_stay(config, moments, outcomes, k - 1);
        assert(follows(config, moments[k - 1], outcomes[k - 1], moments[k - 1 + 1]));
        let a = moments[k - 1].cycle;
        let b = moments[k].cycle;
        let containers = moments[0].cycle.containers@;
        lemma_looks_further(config, moments, outcomes, k);
        let id = b.pending@[i].container_id@;
        if i < a.pending@.len() {
            assert(a.pending@[i] == b.pending@[i]) by {
                if b.pending@.len() > a.pending@.len() {
                    assert(b.pending@.drop_last()[i] == b.pending@[i]);
                }
            }
            lemma_added_id(config, moments, outcomes, k - 1, i);
            let c = choose|c: int|
                0 <= c < looked_at(a) && 0 <= c < containers.len() && (
                #[trigger] containers[c]).id@ == id;
            assert(containers[c].id@ == id);
        } else {
            assert(b.pending@[i] == b.pending@.last());
            let c = looked_at(a);
            assert(containers[c].id@ == id);
        }
    }
}

proof fn lemma_looks_further(
    config: Config,
    moments: Seq<Moment>,
    outcomes: Seq<Outcome>,
    k: int,
)
    requires
        is_poll(config, moments, outcomes),
        0 < k < moments.len(),
    ensures
        looked_at(moments[k - 1].cycle) <= looked_at(moments[k].cycle),
        moments[k].cycle.pending@.len() > moments[k - 1].cycle.pending@.len() ==> looked_at(
            moments[k - 1].cycle,
        ) < looked_at(moments[k].cycle) && looked_at(moments[k - 1].cycle)
            < moments[0].cycle.containers@.len(),
        moments[k - 1].cycle.stage is Local ==> looked_at(moments[k - 1].cycle) < looked_at(
            moments[k].cycle,
        ),
{
    lemma_containers_stay(config, moments, outcomes, k - 1);
    assert(follows(config, moments[k - 1], outcomes[k - 1], moments[k - 1 + 1]));
    let a = moments[k - 1].cycle;
    match a.stage {
        Stage::Registry { index, .. } => {
            lemma_next_relevant(a.containers@, config.label_names(), index + 1);
        },
        Stage::Local { index, .. } => {
            lemma_next_relevant(a.containers@, config.label_names(), index + 1);
        },
        _ => {},
    }
}

/// If Docker reports at moment `j` that a container runs the image that the
/// registry gives, then at no later moment of the poll is there an upgrade for
/// that container, whatever its policy.
pub proof fn law_no_upgrade_to_a_running_image(
    config: Config,
    moments: Seq<Moment>,
    outcomes: Seq<Outcome>,
    j: int,
    index: usize,
    digest: String,
    local: String,
    m: int,
    i: int,
)
    requires
        is_poll(config, moments, outcomes),
        distinct_ids(moments[0].cycle.containers@),
        0 <= j < outcomes.len(),
        moments[j].cycle.stage matches Stage::Local { index: x, digest: d, .. } && x == index && d
            == digest,
        outcomes[j].event == Event::LocalDigest(Some(local)),
        local@ == digest@,
        j < m < moments.len(),
        0 <= i < moments[m].cycle.pending@.len(),
    ensures
        moments[m].cycle.pending@[i].container_id@
            != moments[0].cycle.containers@[index as int].id@,
    decreases m,
{
    let containers = moments[0].cycle.containers@;
    let a = moments[m - 1].cycle;
    let b = moments[m].cycle;
    let id = b.pending@[i].container_id@;
    lemma_containers_stay(config, moments, outcomes, j);
    lemma_containers_stay(config, moments, outcomes, m - 1);
    assert(follows(config, moments[m - 1], outcomes[m - 1], moments[m - 1 + 1]));
    if m == j + 1 {
        lemma_added_id(config, moments, outcomes, j, i);
        let c = choose|c: int|
            0 <= c < looked_at(moments[j].cycle) && 0 <= c < containers.len() && (
            #[trigger] containers[c]).id@ == id;
        assert(containers[c].id@ != containers[index as int].id@);
    } else if i < a.pending@.len() {
        assert(a.pending@[i] == b.pending@[i]) by {
            if b.pending@.len() > a.pending@.len() {
                assert(b.pending@.drop_last()[i] == b.pending@[i]);
            }
        }
        law_no_upgrade_to_a_running_image(
            config,
            moments,
            outcomes,
            j,
            index,
            digest,
            local,
            m - 1,
            i,
        );
    } else {
        assert(b.pending@[i] == b.pending@.last());
        lemma_looks_further(config, moments, outcomes, m);
        lemma_looked_at_grows(config, moments, outcomes, j + 1, m - 1);
        lemma_looks_further(config, moments, outcomes, j + 1);
        let c = looked_at(a);
        assert(containers[c].id@ == id);
        assert(index < c);
        assert(containers[index as int].id@ != containers[c].id@);
    }
}

proof fn lemma_looked_at_grows(
    config: Config,
    moments: Seq<Moment>,
    outcomes: Seq<Outcome>,
    a: int,
    b: int,
)
    requires
        is_poll(config, moments, outcomes),
        0 <= a <= b < moments.len(),
    ensures
        looked_at(moments[a].cycle) <= looked_at(moments[b].cycle),
    decreases b,
{
    if a < b {
        lemma_looked_at_grows(config, moments, outcomes, a, b - 1);
        lemma_looks_further(config, moments, outcomes, b);
    }
}

} // verus!
