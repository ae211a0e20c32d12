//! What holds of a single step of a poll cycle.

use crate::config::{Config, LabelNames};
use crate::cycle::{
    begins, goes_on, holds_id, lemma_next_possible, lemma_next_relevant, performs, relevant,
    Action, Event, Poll, PollCycle, Stage,
};
use crate::docker::Container;
use crate::notifier::NotificationAction;
use crate::plan::{project_name, rollout, Step};
use crate::policy::{labelled_policy, service_name_of, ContainerPolicy};
use crate::state::{upgrade_due, RawrrState};
use crate::text::views;
use crate::time::Timestamp;
use crate::upgrade::{dependencies_of, PendingUpgrade};
use vstd::prelude::*;

verus! {

/// Updates are looked for if the policy is to notify or to update, and else not.
pub proof fn law_watched_containers(container: Container, names: LabelNames)
    ensures
        relevant(container, names) <==> labelled_policy(container.labels@, names) == Some(
            ContainerPolicy::Notify,
        ) || labelled_policy(container.labels@, names) == Some(ContainerPolicy::Update),
{
}

/// Whoever scans asks the registry for the image of the container that it has
/// come to, and keeps the policy of that container.
pub proof fn law_registry_is_asked_for_the_image(
    cycle: PollCycle,
    action: Action,
    names: LabelNames,
    from: int,
)
    requires
        cycle.scans(action, names, from),
        0 <= from <= cycle.containers@.len(),
    ensures
        match cycle.stage {
            Stage::Registry { index, policy } => {
                let container = cycle.containers@[index as int];
                &&& from <= index < cycle.containers@.len()
                &&& action matches Action::FetchDigest { service_name, image }
                &&& image@ == container.image@
                &&& service_name@ == service_name_of(container)
                &&& Some(policy) == labelled_policy(container.labels@, names)
                &&& policy != ContainerPolicy::Ignore
            },
            Stage::Scanned => action is SaveState,
            _ => false,
        },
{
    lemma_next_relevant(cycle.containers@, names, from);
}

/// A container that Docker reports to run the new image is left alone, whatever
/// its policy: after Docker was asked, the list of upgrades grows exactly if the
/// answer was not the digest that the registry gave. Nothing is changed in the
/// state.
pub proof fn law_running_image_is_left_alone(
    config: Config,
    before: PollCycle,
    after: PollCycle,
    state_before: RawrrState,
    state_after: RawrrState,
    event: Event,
    now: Timestamp,
    action: Action,
    index: usize,
    policy: ContainerPolicy,
    old_digest: String,
    digest: String,
)
    requires
        goes_on(config, before, after, state_before, state_after, event, now, action),
        before.stage == (Stage::Local { index, policy, old_digest, digest }),
    ensures
        ({
            let running = event matches Event::LocalDigest(Some(local)) && local@ == digest@;
            &&& running ==> after.pending == before.pending
            &&& !running ==> after.pending@.len() == before.pending@.len() + 1
            &&& !running ==> after.pending@.take(before.pending@.len() as int) == before.pending@
        }),
        state_after == state_before,
{
    if after.pending@.len() == before.pending@.len() + 1 {
        assert(after.pending@.take(before.pending@.len() as int) =~= after.pending@.drop_last());
    }
}

/// What follows from an answer of the registry: if an upgrade is due, Docker is
/// asked which image the container runs, or, if the container has no image
/// identifier, the upgrade is added; if none is due, neither.
pub proof fn law_due_upgrade_is_checked_or_added(
    config: Config,
    before: PollCycle,
    after: PollCycle,
    state_before: RawrrState,
    state_after: RawrrState,
    digest: String,
    now: Timestamp,
    action: Action,
    index: usize,
    policy: ContainerPolicy,
)
    requires
        goes_on(
            config,
            before,
            after,
            state_before,
            state_after,
            Event::Digest(digest),
            now,
            action,
        ),
        before.stage == (Stage::Registry { index, policy }),
    ensures
        ({
            let container = before.containers@[index as int];
            let name = service_name_of(container);
            let due = upgrade_due(
                state_after.image(name),
                digest@,
                config.release_delay_hours * 3600 * 1_000_000_000,
                now@,
            );
            &&& due && container.image_id@.len() > 0 ==> {
                &&& after.pending == before.pending
                &&& action matches Action::FetchLocalDigest { service_name, image_id }
                &&& image_id@ == container.image_id@
                &&& service_name@ == name
                &&& after.stage matches Stage::Local {
                    index: i,
                    policy: p,
                    old_digest: o,
                    digest: d,
                }
                &&& i == index
                &&& p == policy
                &&& d@ == digest@
                &&& state_before.image(name) matches Some(known) ==> o@ == known.digest@
                &&& state_before.image(name) is None ==> o@.len() == 0
            }
            &&& due && container.image_id@.len() == 0 ==> {
                &&& after.pending@.len() == before.pending@.len() + 1
                &&& after.pending@.take(before.pending@.len() as int) == before.pending@
                &&& after.pending@.last().new_digest@ == digest@
                &&& after.pending@.last().policy == policy
                &&& state_before.image(name) matches Some(known)
                    ==> after.pending@.last().old_digest@ == known.digest@
                &&& state_before.image(name) is None ==> after.pending@.last().old_digest@.len()
                    == 0
            }
            &&& !due ==> after.pending == before.pending && !(after.stage is Local)
        }),
{
    reveal_strlit("");
    if after.pending@.len() == before.pending@.len() + 1 {
        assert(after.pending@.take(before.pending@.len() as int) =~= after.pending@.drop_last());
    }
}

/// An upgrade that is added says what it is for: the service, the identifier and
/// the image of the container that was looked at, its project, and what it
/// depends on.
pub proof fn law_added_upgrade_is_for_the_container(
    config: Config,
    before: PollCycle,
    after: PollCycle,
    state_before: RawrrState,
    state_after: RawrrState,
    event: Event,
    now: Timestamp,
    action: Action,
    index: usize,
)
    requires
        goes_on(config, before, after, state_before, state_after, event, now, action),
        after.pending@.len() > before.pending@.len(),
        match before.stage {
            Stage::Registry { index: i, .. } => i == index,
            Stage::Local { index: i, .. } => i == index,
            _ => true,
        },
    ensures
        before.stage is Registry || before.stage is Local,
        ({
            let container = before.containers@[index as int];
            let upgrade = after.pending@.last();
            &&& upgrade.service_name@ == service_name_of(container)
            &&& upgrade.container_id@ == container.id@
            &&& upgrade.image@ == container.image@
            &&& views(upgrade.depends_on@) == dependencies_of(container.labels@)
            &&& upgrade.compose_project is Some <==> container.labels@.contains_key(
                "com.docker.compose.project"@,
            )
            &&& upgrade.compose_project matches Some(project) ==> project@
                == container.labels@["com.docker.compose.project"@]@
            &&& before.stage matches Stage::Registry { policy, .. } ==> upgrade.policy == policy
            &&& before.stage matches Stage::Local { policy, old_digest, digest, .. }
                ==> upgrade.policy == policy && upgrade.old_digest@ == old_digest@
                && upgrade.new_digest@ == digest@
        }),
{
}

/// An answer of the registry is put on record at once: the image is on record
/// with the digest that was given, checked now, and first seen when the same
/// digest was, or else now.
pub proof fn law_answer_is_put_on_record(
    config: Config,
    before: PollCycle,
    after: PollCycle,
    state_before: RawrrState,
    state_after: RawrrState,
    digest: String,
    now: Timestamp,
    action: Action,
    index: usize,
    policy: ContainerPolicy,
)
    requires
        goes_on(
            config,
            before,
            after,
            state_before,
            state_after,
            Event::Digest(digest),
            now,
            action,
        ),
        before.stage == (Stage::Registry { index, policy }),
    ensures
        ({
            let name = service_name_of(before.containers@[index as int]);
            let known = state_before.image(name);
            &&& state_after.image(name) matches Some(image)
            &&& image.digest@ == digest@
            &&& image.last_checked@ == now@
            &&& (known matches Some(k) && k.digest@ == digest@) ==> image.first_seen@
                == known->0.first_seen@ && image.dealt_with == known->0.dealt_with
            &&& !(known matches Some(k) && k.digest@ == digest@) ==> image.first_seen@ == now@
                && !image.dealt_with
            &&& state_after.services@.contains_key(name)
            &&& state_before.services@.contains_key(name) ==> state_after.services@[name].name
                == state_before.services@[name].name
            &&& !state_before.services@.contains_key(name) ==> state_after.services@[name].name@
                == name
        }),
        state_after.last_poll_time == state_before.last_poll_time,
{
}

/// Unless the registry gives a digest, nothing is put on record and no upgrade
/// is added for the container.
pub proof fn law_no_answer_no_record(
    config: Config,
    before: PollCycle,
    after: PollCycle,
    state_before: RawrrState,
    state_after: RawrrState,
    event: Event,
    now: Timestamp,
    action: Action,
)
    requires
        goes_on(config, before, after, state_before, state_after, event, now, action),
        before.stage is Registry,
        !(event is Digest),
    ensures
        state_after == state_before,
        after.pending == before.pending,
        !(after.stage is Local),
{
}

/// Which steps change the state, if they are done: to announce an update that is
/// not applied, and to start a container. The delay of that service is started
/// anew, and its image was dealt with. Nothing else does, and no failure does.
pub proof fn law_what_changes_the_state(
    config: Config,
    before: PollCycle,
    after: PollCycle,
    state_before: RawrrState,
    state_after: RawrrState,
    event: Event,
    now: Timestamp,
    action: Action,
    at: usize,
    i: usize,
)
    requires
        goes_on(config, before, after, state_before, state_after, event, now, action),
        before.stage == (Stage::Rollout { at }),
    ensures
        ({
            let step = before.steps@[at as int];
            let name = before.pending@[i as int].service_name@;
            let marked = match state_before.image(name) {
                Some(known) => {
                    &&& state_after.image(name) matches Some(image)
                    &&& image.first_seen@ == now@
                    &&& image.dealt_with
                    &&& image.digest@ == known.digest@
                },
                None => state_after.image(name) is None,
            };
            &&& step == Step::Start(i) && event is Done ==> marked
            &&& step == Step::Notify(i) && event is Done && before.pending@[i as int].policy
                != ContainerPolicy::Update ==> marked
            &&& step == Step::Notify(i) && before.pending@[i as int].policy
                == ContainerPolicy::Update ==> state_after == state_before
            &&& step == Step::Inspect(i) || step == Step::Pull(i) || step == Step::Stop(i) || step
                == Step::Save ==> state_after == state_before
            &&& !(event is Done) ==> state_after == state_before
        }),
        state_after.last_poll_time == state_before.last_poll_time,
{
}

/// A container is noted as inspected exactly when it was, and nothing is
/// forgotten.
pub proof fn law_inspections_are_noted(
    config: Config,
    before: PollCycle,
    after: PollCycle,
    state_before: RawrrState,
    state_after: RawrrState,
    event: Event,
    now: Timestamp,
    action: Action,
    at: usize,
    id: Seq<char>,
)
    requires
        goes_on(config, before, after, state_before, state_after, event, now, action),
        before.stage == (Stage::Rollout { at }),
    ensures
        ({
            let new = match before.steps@[at as int] {
                Step::Inspect(i) => event is Done && before.pending@[i as int].container_id@ == id,
                _ => false,
            };
            is_inspected(after, id) <==> is_inspected(before, id) || new
        }),
        after.pending == before.pending,
        after.steps == before.steps,
{
    let step = before.steps@[at as int];
    if after.inspected@.len() == before.inspected@.len() + 1 {
        if is_inspected(before, id) {
            let k = choose|k: int|
                0 <= k < before.inspected@.len() && (#[trigger] before.inspected@[k])@ == id;
            assert(after.inspected@.drop_last()[k] == after.inspected@[k]);
        }
        if is_inspected(after, id) {
            let k = choose|k: int|
                0 <= k < after.inspected@.len() && (#[trigger] after.inspected@[k])@ == id;
            if k < before.inspected@.len() {
                assert(after.inspected@.drop_last()[k] == after.inspected@[k]);
                assert(before.inspected@[k]@ == id);
            }
        }
        assert(after.inspected@[after.inspected@.len() - 1] == after.inspected@.last());
    }
}

/// The set-up of the container with this identifier was noted.
pub open spec fn is_inspected(cycle: PollCycle, id: Seq<char>) -> bool {
    exists|k: int| 0 <= k < cycle.inspected@.len() && (#[trigger] cycle.inspected@[k])@ == id
}

/// No container is started unless its set-up was noted.
pub proof fn law_only_inspected_containers_are_started(
    cycle: PollCycle,
    action: Action,
    from: int,
)
    requires
        cycle.runs(action, from),
        0 <= from <= cycle.steps@.len(),
    ensures
        action matches Action::Start { container_id, .. } ==> is_inspected(cycle, container_id@),
{
    lemma_next_possible(cycle.steps@, cycle.pending@, cycle.inspected@, from);
    match cycle.stage {
        Stage::Rollout { at } => {
            match cycle.steps@[at as int] {
                Step::Start(i) => {
                    lemma_holds_id(cycle, cycle.pending@[i as int].container_id@);
                },
                _ => {},
            }
        },
        _ => {},
    }
}

proof fn lemma_holds_id(cycle: PollCycle, id: Seq<char>)
    ensures
        holds_id(cycle.inspected@, id) <==> is_inspected(cycle, id),
{
    let ids = views(cycle.inspected@);
    if ids.contains(id) {
        let k = choose|k: int| 0 <= k < ids.len() && ids[k] == id;
        assert(cycle.inspected@[k]@ == id);
    }
    if is_inspected(cycle, id) {
        let k = choose|k: int|
            0 <= k < cycle.inspected@.len() && (#[trigger] cycle.inspected@[k])@ == id;
        assert(ids[k] == id);
    }
}

/// The steps of a rollout are carried out one after another: of those from
/// `from` on, the first comes next unless it is to start a container whose
/// set-up was not noted, and so on; behind the last the cycle is finished.
pub proof fn law_next_step(cycle: PollCycle, action: Action, from: int)
    requires
        cycle.runs(action, from),
        0 <= from <= cycle.steps@.len(),
    ensures
        from == cycle.steps@.len() ==> cycle.stage is Finished && action is Finish,
        from < cycle.steps@.len() && !(cycle.steps@[from] is Start) ==> cycle.stage
            == (Stage::Rollout { at: from as usize }) || from > usize::MAX,
        from < cycle.steps@.len() && (cycle.steps@[from] matches Step::Start(i) && is_inspected(
            cycle,
            cycle.pending@[i as int].container_id@,
        )) ==> cycle.stage == (Stage::Rollout { at: from as usize }) || from > usize::MAX,
        cycle.stage matches Stage::Rollout { at } ==> from <= at < cycle.steps@.len() && forall|
            k: int,
        |
            from <= k < at ==> ((#[trigger] cycle.steps@[k]) matches Step::Start(i)
                && !is_inspected(cycle, cycle.pending@[i as int].container_id@)),
        cycle.stage is Finished ==> forall|k: int|
            from <= k < cycle.steps@.len() ==> ((#[trigger] cycle.steps@[k]) matches Step::Start(i)
                && !is_inspected(cycle, cycle.pending@[i as int].container_id@)),
        cycle.stage is Rollout || cycle.stage is Finished,
{
    lemma_next_possible(cycle.steps@, cycle.pending@, cycle.inspected@, from);
    assert forall|k: int| from <= k < cycle.steps@.len() implies ((
    #[trigger] cycle.steps@[k]) matches Step::Start(i) ==> (holds_id(
        cycle.inspected@,
        cycle.pending@[i as int].container_id@,
    ) <==> is_inspected(cycle, cycle.pending@[i as int].container_id@))) by {
        match cycle.steps@[k] {
            Step::Start(i) => {
                lemma_holds_id(cycle, cycle.pending@[i as int].container_id@);
            },
            _ => {},
        }
    }
}

/// What each step has done: the notification tells of the update, of its two
/// digests and whether it is applied; containers are inspected, stopped and
/// started by their identifiers; and the image of the container is pulled.
pub proof fn law_steps_ask_for_the_right_thing(
    action: Action,
    pending: Seq<PendingUpgrade>,
    i: usize,
)
    ensures
        performs(action, Step::Notify(i), pending) ==> {
            &&& action matches Action::Notify { notification }
            &&& notification.service_name@ == pending[i as int].service_name@
            &&& notification.old_digest@ == pending[i as int].old_digest@
            &&& notification.new_digest@ == pending[i as int].new_digest@
            &&& notification.action == NotificationAction::Update <==> pending[i as int].policy
                == ContainerPolicy::Update
        },
        performs(action, Step::Inspect(i), pending) ==> {
            &&& action matches Action::Inspect { service_name, container_id }
            &&& container_id@ == pending[i as int].container_id@
            &&& service_name@ == pending[i as int].service_name@
        },
        performs(action, Step::Pull(i), pending) ==> {
            &&& action matches Action::Pull { service_name, image }
            &&& image@ == pending[i as int].image@
            &&& service_name@ == pending[i as int].service_name@
        },
        performs(action, Step::Stop(i), pending) ==> {
            &&& action matches Action::Stop { service_name, container_id }
            &&& container_id@ == pending[i as int].container_id@
            &&& service_name@ == pending[i as int].service_name@
        },
        performs(action, Step::Start(i), pending) ==> {
            &&& action matches Action::Start { service_name, container_id }
            &&& container_id@ == pending[i as int].container_id@
            &&& service_name@ == pending[i as int].service_name@
        },
        performs(action, Step::Save, pending) ==> action is SaveState,
{
}

/// After the scan, without upgrades the cycle is finished; otherwise the first
/// upgrade is announced first.
pub proof fn law_announcements_follow_the_scan(
    config: Config,
    before: PollCycle,
    after: PollCycle,
    state_before: RawrrState,
    state_after: RawrrState,
    event: Event,
    now: Timestamp,
    action: Action,
)
    requires
        goes_on(config, before, after, state_before, state_after, event, now, action),
        before.stage is Scanned,
    ensures
        state_after == state_before,
        after.pending == before.pending,
        before.pending@.len() == 0 ==> after.stage is Finished && action is Finish
            && after.steps@.len() == 0,
        before.pending@.len() > 0 ==> {
            &&& after.stage == (Stage::Rollout { at: 0 })
            &&& action matches Action::Notify { notification }
            &&& notification.service_name@ == before.pending@[0].service_name@
            &&& notification.new_digest@ == before.pending@[0].new_digest@
        },
{
    lemma_next_possible(after.steps@, after.pending@, after.inspected@, 0);
    if before.pending@.len() > 0 {
        assert(after.steps@[0] == Step::Notify(0));
    }
}

/// Without upgrades there are no steps.
pub proof fn law_nothing_due_nothing_done(pending: Seq<PendingUpgrade>)
    ensures
        rollout(pending).len() == 0 <==> pending.len() == 0,
{
}

/// Projects are the same if both have no name, or the same one.
pub proof fn law_same_project(a: Option<String>, b: Option<String>)
    ensures
        project_name(a) == project_name(b) <==> match (a, b) {
            (Some(x), Some(y)) => x@ == y@,
            (None, None) => true,
            _ => false,
        },
{
}

/// A cycle that is finished stays so.
pub proof fn law_finished_cycle_stays_finished(
    config: Config,
    before: PollCycle,
    after: PollCycle,
    state_before: RawrrState,
    state_after: RawrrState,
    event: Event,
    now: Timestamp,
    action: Action,
)
    requires
        goes_on(config, before, after, state_before, state_after, event, now, action),
        before.stage is Finished,
    ensures
        after == before,
        state_after == state_before,
        action is Finish,
{
}

/// How a poll starts: the time is noted, a dry run reports on every container
/// and asks nothing, and otherwise a cycle begins that has no upgrades yet.
pub proof fn law_start_of_a_poll(
    config: Config,
    containers: Vec<Container>,
    state_before: RawrrState,
    state_after: RawrrState,
    polls_before: Seq<Timestamp>,
    polls_after: Seq<Timestamp>,
    now: Timestamp,
    poll: Poll,
)
    requires
        begins(
            config,
            containers,
            state_before,
            state_after,
            polls_before,
            polls_after,
            now,
            poll,
        ),
    ensures
        state_after.last_poll_time == now,
        state_after.services == state_before.services,
        poll is DryRun <==> config.dry_run,
        config.dry_run ==> polls_after == polls_before,
        poll matches Poll::DryRun(lines) ==> lines@.len() == containers@.len(),
        poll matches Poll::Cycle(cycle, action) ==> {
            &&& cycle.containers == containers
            &&& cycle.pending@.len() == 0
            &&& action is FetchDigest ==> polls_after == polls_before.push(now)
            &&& !(action is FetchDigest) ==> polls_after == polls_before
        },
{
}

} // verus!
