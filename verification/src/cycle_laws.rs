//! What holds of poll cycles.

use crate::config::{Config, LabelNames};
use crate::cycle::{
    dealt_with, goes_on, holds_id, lemma_next_possible, lemma_next_relevant, performs, possible,
    relevant, Action, Event, PollCycle, Stage,
};
use crate::plan::{rollout, Step};
use crate::plan_laws::law_each_step_exactly_once;
use crate::policy::{service_name_of, ContainerPolicy};
use crate::state::{settled, upgrade_due, RawrrState};
use crate::time::{Timestamp, NANOS_PER_SEC};
use crate::upgrade::PendingUpgrade;
use vstd::prelude::*;

verus! {

/// A cycle begins with the first container whose updates are looked for.
pub proof fn law_begins_with_first_watched_container(
    cycle: PollCycle,
    action: Action,
    names: LabelNames,
)
    requires
        cycle.scans(action, names, 0),
    ensures
        match cycle.stage {
            Stage::Registry { index, .. } => {
                &&& relevant(cycle.containers@[index as int], names)
                &&& forall|k: int|
                    0 <= k < index ==> !relevant(#[trigger] cycle.containers@[k], names)
            },
            _ => forall|k: int|
                0 <= k < cycle.containers@.len() ==> !relevant(
                    #[trigger] cycle.containers@[k],
                    names,
                ),
        },
{
    lemma_next_relevant(cycle.containers@, names, 0);
}

/// The containers are asked about in their order, each at most once. None is
/// asked about whose updates are not looked for, and none is passed over whose
/// updates are.
pub proof fn law_each_watched_container_once(
    config: Config,
    before: PollCycle,
    after: PollCycle,
    state_before: RawrrState,
    state_after: RawrrState,
    event: Event,
    now: Timestamp,
    action: Action,
    index: usize,
)
    requires
        before.well_formed(),
        goes_on(config, before, after, state_before, state_after, event, now, action),
        match before.stage {
            Stage::Registry { index: i, .. } => i == index,
            Stage::Local { index: i, .. } => i == index,
            _ => false,
        },
    ensures
        match after.stage {
            Stage::Registry { index: next, .. } => {
                &&& index < next
                &&& relevant(after.containers@[next as int], config.label_names())
                &&& forall|k: int|
                    index < k < next ==> !relevant(
                        #[trigger] after.containers@[k],
                        config.label_names(),
                    )
            },
            Stage::Local { index: same, .. } => same == index && before.stage is Registry,
            Stage::Scanned => forall|k: int|
                index < k < after.containers@.len() ==> !relevant(
                    #[trigger] after.containers@[k],
                    config.label_names(),
                ),
            _ => false,
        },
{
    lemma_next_relevant(before.containers@, config.label_names(), index + 1);
}

/// An upgrade is taken up exactly if its image has been on record for the
/// release delay: it is added to those that are due, or Docker is asked whether
/// the container runs it already.
pub proof fn law_upgrades_wait_for_the_release_delay(
    config: Config,
    before: PollCycle,
    after: PollCycle,
    state_before: RawrrState,
    state_after: RawrrState,
    digest: String,
    now: Timestamp,
    action: Action,
    index: usize,
)
    requires
        goes_on(
            config,
            before,
            after,
            state_before,
            state_after,
            Event::Digest(digest),
            now,
            action,
        ),
        before.stage matches Stage::Registry { index: i, .. } && i == index,
    ensures
        after.stage is Local || after.pending@.len() > before.pending@.len() <==> upgrade_due(
            state_after.image(service_name_of(before.containers@[index as int])),
            digest@,
            config.release_delay_hours * 3600 * NANOS_PER_SEC,
            now@,
        ),
{
}

/// A failure leaves the state as it was.
pub proof fn law_failure_changes_no_state(
    config: Config,
    before: PollCycle,
    after: PollCycle,
    state_before: RawrrState,
    state_after: RawrrState,
    now: Timestamp,
    action: Action,
)
    requires
        goes_on(config, before, after, state_before, state_after, Event::Failed, now, action),
    ensures
        state_after == state_before,
{
}

/// When an upgrade has been dealt with, the image on record for its service is
/// settled, and no upgrade to it is due, whatever the delay and the time.
pub proof fn law_dealt_with_is_not_due_again(
    config: Config,
    before: PollCycle,
    after: PollCycle,
    state_before: RawrrState,
    state_after: RawrrState,
    now: Timestamp,
    action: Action,
    at: usize,
    i: int,
    digest: Seq<char>,
    delay: int,
    later: int,
)
    requires
        goes_on(config, before, after, state_before, state_after, Event::Done, now, action),
        before.stage == (Stage::Rollout { at }),
        dealt_with(before.steps@[at as int], before.pending@) == Some(i),
        state_before.image(before.pending@[i].service_name@) matches Some(known)
            && known.digest@ == digest,
    ensures
        settled(state_after.image(before.pending@[i].service_name@), digest),
        !upgrade_due(
            state_after.image(before.pending@[i].service_name@),
            digest,
            delay,
            later,
        ),
{
}

/// What an answer of the registry or a step changes in the state concerns one
/// service: that of the container asked about, or that of the upgrade dealt
/// with. The others keep what is on record.
pub proof fn law_cycle_touches_one_service(
    config: Config,
    before: PollCycle,
    after: PollCycle,
    state_before: RawrrState,
    state_after: RawrrState,
    event: Event,
    now: Timestamp,
    action: Action,
    other: Seq<char>,
)
    requires
        goes_on(config, before, after, state_before, state_after, event, now, action),
        match before.stage {
            Stage::Registry { index, .. } => other != service_name_of(
                before.containers@[index as int],
            ),
            Stage::Rollout { at } => match dealt_with(before.steps@[at as int], before.pending@) {
                Some(i) => other != before.pending@[i].service_name@,
                None => true,
            },
            _ => true,
        },
    ensures
        state_after.image(other) == state_before.image(other),
        state_after.last_poll_time == state_before.last_poll_time,
{
}

/// Only containers whose updates are applied are inspected, stopped and
/// started, and only their images are pulled.
pub proof fn law_only_updates_touch_containers(cycle: PollCycle, action: Action, at: usize)
    requires
        cycle.well_formed(),
        cycle.pending@.len() <= usize::MAX,
        cycle.stage == (Stage::Rollout { at }),
        performs(action, cycle.steps@[at as int], cycle.pending@),
    ensures
        match action {
            Action::Inspect { container_id, .. } => has_update(cycle.pending@, container_id@),
            Action::Stop { container_id, .. } => has_update(cycle.pending@, container_id@),
            Action::Start { container_id, .. } => has_update(cycle.pending@, container_id@),
            Action::Pull { image, .. } => exists|i: int|
                0 <= i < cycle.pending@.len() && #[trigger] cycle.pending@[i].image@ == image@
                    && cycle.pending@[i].policy == ContainerPolicy::Update,
            Action::Notify { .. } => true,
            Action::SaveState => true,
            _ => false,
        },
{
    let step = cycle.steps@[at as int];
    law_each_step_exactly_once(cycle.pending@);
    assert(rollout(cycle.pending@).contains(step));
    match step {
        Step::Pull(i) => {
            assert(cycle.pending@[i as int].policy == ContainerPolicy::Update);
        },
        _ => {},
    }
}

/// An upgrade of this container is to be applied.
pub open spec fn has_update(pending: Seq<PendingUpgrade>, container_id: Seq<char>) -> bool {
    exists|i: int|
        0 <= i < pending.len() && #[trigger] pending[i].container_id@ == container_id
            && pending[i].policy == ContainerPolicy::Update
}

/// Of the steps of a rollout none is left out but to start a container whose
/// set-up was not noted, and no such container is started.
pub proof fn law_only_starts_without_set_up_are_left_out(
    cycle: PollCycle,
    action: Action,
    from: int,
    k: int,
)
    requires
        0 <= from <= k < cycle.steps@.len(),
        cycle.runs(action, from),
        match cycle.stage {
            Stage::Rollout { at } => k <= at,
            _ => true,
        },
    ensures
        ({
            let carried_out = cycle.stage matches Stage::Rollout { at } && at == k;
            carried_out <==> possible(cycle.steps@[k], cycle.pending@, cycle.inspected@)
        }),
        possible(cycle.steps@[k], cycle.pending@, cycle.inspected@) <==> match cycle.steps@[k] {
            Step::Start(i) => holds_id(
                cycle.inspected@,
                cycle.pending@[i as int].container_id@,
            ),
            _ => true,
        },
{
    lemma_next_possible(cycle.steps@, cycle.pending@, cycle.inspected@, from);
}

} // verus!
