//! One poll cycle: finding the upgrades that are due and carrying them out.
//!
//! The cycle does no work of its own outside the program. It hands out one
//! action at a time and is resumed with the outcome.

use crate::config::{Config, LabelNames};
use crate::docker::Container;
use crate::notifier::{Notification, NotificationAction};
use crate::plan::{plan_rollout, project_name, rollout, Step};
use crate::plan_laws::law_each_step_exactly_once;
use crate::policy::{
    dry_run_report, get_container_policy, labelled_policy, reports, service_name, service_name_of,
    ContainerPolicy, DryRunLine,
};
use crate::rate_limiter::RateLimiter;
use crate::state::{known_since, services_restarted, settled, with_image, ImageState, RawrrState, ServiceState};
use crate::text::views;
use crate::time::{Timestamp, NANOS_PER_SEC};
use crate::upgrade::{dependencies_of, parse_depends_on, PendingUpgrade};
use vstd::prelude::*;

verus! {

/// Where a cycle stands.
#[derive(Debug)]
pub enum Stage {
    /// The registry was asked for the digest that the image of a container has
    /// there.
    Registry { index: usize, policy: ContainerPolicy },
    /// An upgrade is due, and Docker was asked for the digest of the image that
    /// the container runs.
    Local { index: usize, policy: ContainerPolicy, old_digest: String, digest: String },
    /// All containers were looked at, and the state is being written.
    Scanned,
    /// A step of the rollout is being carried out.
    Rollout { at: usize },
    /// Nothing is left to do.
    Finished,
}

/// Work that the cycle needs done.
#[derive(Debug, Clone)]
pub enum Action {
    /// Ask the registry for the digest of an image.
    FetchDigest { service_name: String, image: String },
    /// Ask Docker for the digest of an image that it holds.
    FetchLocalDigest { service_name: String, image_id: String },
    /// Write the state file.
    SaveState,
    /// Send a notification.
    Notify { notification: Notification },
    /// Note how a container is set up.
    Inspect { service_name: String, container_id: String },
    /// Pull an image.
    Pull { service_name: String, image: String },
    /// Stop and remove a container.
    Stop { service_name: String, container_id: String },
    /// Create and start a container as it was set up when it was inspected.
    Start { service_name: String, container_id: String },
    /// Nothing is left to do.
    Finish,
}

/// The outcome of an action.
#[derive(Debug, Clone)]
pub enum Event {
    /// The digest in the registry.
    Digest(String),
    /// The digest of the local image, if it has one.
    LocalDigest(Option<String>),
    /// The action was carried out.
    Done,
    /// The action failed.
    Failed,
}

/// A poll cycle.
#[derive(Debug)]
pub struct PollCycle {
    /// The running containers.
    pub containers: Vec<Container>,
    /// The upgrades found to be due.
    pub pending: Vec<PendingUpgrade>,
    /// The steps of the rollout.
    pub steps: Vec<Step>,
    /// The containers whose set-up was noted.
    pub inspected: Vec<String>,
    /// Where the cycle stands.
    pub stage: Stage,
}

/// Whether updates of a container are looked for.
pub open spec fn relevant(container: Container, names: LabelNames) -> bool {
    match labelled_policy(container.labels@, names) {
        Some(policy) => policy != ContainerPolicy::Ignore,
        None => false,
    }
}

/// The first container from `from` on whose updates are looked for, or the
/// number of containers if there is none.
pub open spec fn next_relevant(containers: Seq<Container>, names: LabelNames, from: int) -> int
    decreases containers.len() - from,
{
    if from >= containers.len() {
        containers.len() as int
    } else if relevant(containers[from], names) {
        from
    } else {
        next_relevant(containers, names, from + 1)
    }
}

/// The identifiers of these containers hold `id`.
pub open spec fn holds_id(ids: Seq<String>, id: Seq<char>) -> bool {
    views(ids).contains(id)
}

/// Whether a step can be carried out: a container is only started if its
/// set-up was noted.
pub open spec fn possible(
    step: Step,
    pending: Seq<PendingUpgrade>,
    inspected: Seq<String>,
) -> bool {
    match step {
        Step::Start(i) => holds_id(inspected, pending[i as int].container_id@),
        _ => true,
    }
}

/// The first step from `from` on that can be carried out, or the number of
/// steps if there is none.
pub open spec fn next_possible(
    steps: Seq<Step>,
    pending: Seq<PendingUpgrade>,
    inspected: Seq<String>,
    from: int,
) -> int
    decreases steps.len() - from,
{
    if from >= steps.len() {
        steps.len() as int
    } else if possible(steps[from], pending, inspected) {
        from
    } else {
        next_possible(steps, pending, inspected, from + 1)
    }
}

/// Whether the notification announces the upgrade.
pub open spec fn tells_of(notification: Notification, upgrade: PendingUpgrade) -> bool {
    &&& notification.service_name@ == upgrade.service_name@
    &&& notification.old_digest@ == upgrade.old_digest@
    &&& notification.new_digest@ == upgrade.new_digest@
    &&& notification.action == if upgrade.policy == ContainerPolicy::Update {
        NotificationAction::Update
    } else {
        NotificationAction::NotifyOnly
    }
}

/// Whether the action is the one that a step asks for.
pub open spec fn performs(action: Action, step: Step, pending: Seq<PendingUpgrade>) -> bool {
    match step {
        Step::Notify(i) => {
            &&& action matches Action::Notify { notification }
            &&& tells_of(notification, pending[i as int])
        },
        Step::Inspect(i) => {
            &&& action matches Action::Inspect { service_name, container_id }
            &&& service_name@ == pending[i as int].service_name@
            &&& container_id@ == pending[i as int].container_id@
        },
        Step::Pull(i) => {
            &&& action matches Action::Pull { service_name, image }
            &&& service_name@ == pending[i as int].service_name@
            &&& image@ == pending[i as int].image@
        },
        Step::Stop(i) => {
            &&& action matches Action::Stop { service_name, container_id }
            &&& service_name@ == pending[i as int].service_name@
            &&& container_id@ == pending[i as int].container_id@
        },
        Step::Start(i) => {
            &&& action matches Action::Start { service_name, container_id }
            &&& service_name@ == pending[i as int].service_name@
            &&& container_id@ == pending[i as int].container_id@
        },
        Step::Save => action is SaveState,
    }
}

/// Whether the upgrade is the one of a container from one digest to another.
pub open spec fn is_upgrade_of(
    upgrade: PendingUpgrade,
    container: Container,
    policy: ContainerPolicy,
    old_digest: Seq<char>,
    new_digest: Seq<char>,
) -> bool {
    &&& upgrade.service_name@ == service_name_of(container)
    &&& upgrade.container_id@ == container.id@
    &&& upgrade.image@ == container.image@
    &&& upgrade.old_digest@ == old_digest
    &&& upgrade.new_digest@ == new_digest
    &&& upgrade.policy == policy
    &&& project_name(upgrade.compose_project) == if container.labels@.contains_key(
        "com.docker.compose.project"@,
    ) {
        Some(container.labels@["com.docker.compose.project"@]@)
    } else {
        None
    }
    &&& views(upgrade.depends_on@) == dependencies_of(container.labels@)
}

/// The digest of an image on record, empty if there is none.
pub open spec fn recorded_digest(image: Option<ImageState>) -> Seq<char> {
    match image {
        Some(known) => known.digest@,
        None => ""@,
    }
}

/// The services after one of them was offered an image.
pub open spec fn offered(
    before: RawrrState,
    after: Map<Seq<char>, ServiceState>,
    name: Seq<char>,
    digest: String,
    now: Timestamp,
) -> bool {
    exists|service_name: String|
        service_name@ == name && after == before.services@.insert(
            name,
            #[trigger] with_image(before.service_or_new(service_name), digest, now),
        )
}

/// The list of upgrades with the upgrade of one container added.
pub open spec fn adds_upgrade(
    before: Seq<PendingUpgrade>,
    after: Seq<PendingUpgrade>,
    container: Container,
    policy: ContainerPolicy,
    old_digest: Seq<char>,
    new_digest: Seq<char>,
) -> bool {
    &&& after.len() == before.len() + 1
    &&& after.drop_last() == before
    &&& is_upgrade_of(after.last(), container, policy, old_digest, new_digest)
}

/// How a cycle goes on when the registry has answered, or has not.
pub open spec fn goes_on_from_registry(
    config: Config,
    before: PollCycle,
    after: PollCycle,
    state_before: RawrrState,
    state_after: RawrrState,
    event: Event,
    now: Timestamp,
    action: Action,
    index: usize,
    policy: ContainerPolicy,
) -> bool {
    let container = before.containers@[index as int];
    let name = service_name_of(container);
    let known = state_before.image(name);
    match event {
        Event::Digest(digest) => {
            let due = !settled(known, digest@) && now@ - known_since(known, digest@, now)@
                >= config.release_delay_hours * 3600 * NANOS_PER_SEC;
            &&& offered(state_before, state_after.services@, name, digest, now)
            &&& state_after.last_poll_time == state_before.last_poll_time
            &&& if due && container.image_id@.len() > 0 {
                &&& after.pending == before.pending
                &&& after.stage matches Stage::Local {
                    index: i,
                    policy: p,
                    old_digest: o,
                    digest: d,
                }
                &&& i == index
                &&& p == policy
                &&& o@ == recorded_digest(known)
                &&& d@ == digest@
                &&& action matches Action::FetchLocalDigest { service_name, image_id }
                &&& service_name@ == name
                &&& image_id@ == container.image_id@
            } else {
                &&& after.scans(action, config.label_names(), index + 1)
                &&& if due {
                    adds_upgrade(
                        before.pending@,
                        after.pending@,
                        container,
                        policy,
                        recorded_digest(known),
                        digest@,
                    )
                } else {
                    after.pending == before.pending
                }
            }
        },
        _ => {
            &&& state_after == state_before
            &&& after.pending == before.pending
            &&& after.scans(action, config.label_names(), index + 1)
        },
    }
}

/// How a cycle goes on when Docker has told which image a container runs, or
/// has not. The upgrade is dropped only if the container already runs it.
pub open spec fn goes_on_from_local(
    config: Config,
    before: PollCycle,
    after: PollCycle,
    event: Event,
    action: Action,
    index: usize,
    policy: ContainerPolicy,
    old_digest: Seq<char>,
    digest: Seq<char>,
) -> bool {
    let current = match event {
        Event::LocalDigest(Some(local)) => local@ == digest,
        _ => false,
    };
    &&& after.scans(action, config.label_names(), index + 1)
    &&& if current {
        after.pending == before.pending
    } else {
        adds_upgrade(
            before.pending@,
            after.pending@,
            before.containers@[index as int],
            policy,
            old_digest,
            digest,
        )
    }
}

/// The upgrade that has been dealt with when a step is done: one that is only
/// announced when it was announced, another when its container was started.
pub open spec fn dealt_with(step: Step, pending: Seq<PendingUpgrade>) -> Option<int> {
    match step {
        Step::Notify(i) => if pending[i as int].policy != ContainerPolicy::Update {
            Some(i as int)
        } else {
            None
        },
        Step::Start(i) => Some(i as int),
        _ => None,
    }
}

/// How a cycle goes on when a step of the rollout is done, or has failed.
pub open spec fn goes_on_from_step(
    before: PollCycle,
    after: PollCycle,
    state_before: RawrrState,
    state_after: RawrrState,
    event: Event,
    now: Timestamp,
    action: Action,
    at: usize,
) -> bool {
    let step = before.steps@[at as int];
    &&& after.pending == before.pending
    &&& after.steps == before.steps
    &&& after.runs(action, at + 1)
    &&& match step {
        Step::Inspect(i) if event is Done => {
            &&& after.inspected@.len() == before.inspected@.len() + 1
            &&& after.inspected@.drop_last() == before.inspected@
            &&& after.inspected@.last()@ == before.pending@[i as int].container_id@
        },
        _ => after.inspected == before.inspected,
    }
    &&& match dealt_with(step, before.pending@) {
        Some(i) if event is Done => {
            &&& state_after.last_poll_time == state_before.last_poll_time
            &&& state_after.services@ == services_restarted(
                state_before.services@,
                before.pending@[i].service_name@,
                now,
            )
        },
        _ => state_after == state_before,
    }
}

/// How a cycle goes on from the stage that it is in.
pub open spec fn goes_on(
    config: Config,
    before: PollCycle,
    after: PollCycle,
    state_before: RawrrState,
    state_after: RawrrState,
    event: Event,
    now: Timestamp,
    action: Action,
) -> bool {
    &&& after.containers == before.containers
    &&& match before.stage {
        Stage::Registry { index, policy } => {
            &&& after.inspected == before.inspected
            &&& goes_on_from_registry(
                config,
                before,
                after,
                state_before,
                state_after,
                event,
                now,
                action,
                index,
                policy,
            )
        },
        Stage::Local { index, policy, old_digest, digest } => {
            &&& after.inspected == before.inspected
            &&& state_after == state_before
            &&& goes_on_from_local(
                config,
                before,
                after,
                event,
                action,
                index,
                policy,
                old_digest@,
                digest@,
            )
        },
        Stage::Scanned => {
            &&& after.pending == before.pending
            &&& after.inspected == before.inspected
            &&& after.steps@ == rollout(before.pending@)
            &&& after.runs(action, 0)
            &&& state_after == state_before
        },
        Stage::Rollout { at } => goes_on_from_step(
            before,
            after,
            state_before,
            state_after,
            event,
            now,
            action,
            at,
        ),
        Stage::Finished => {
            &&& after == before
            &&& state_after == state_before
            &&& action is Finish
        },
    }
}

/// The stages that a cycle passes through, counted down.
pub open spec fn stages_left(stage: Stage) -> nat {
    match stage {
        Stage::Registry { .. } => 3,
        Stage::Local { .. } => 3,
        Stage::Scanned => 2,
        Stage::Rollout { .. } => 1,
        Stage::Finished => 0,
    }
}

/// What is left within the stage.
pub open spec fn left_in_stage(cycle: PollCycle) -> int {
    match cycle.stage {
        Stage::Registry { index, .. } => 2 * (cycle.containers@.len() - index) + 1,
        Stage::Local { index, .. } => 2 * (cycle.containers@.len() - index),
        Stage::Rollout { at } => cycle.steps@.len() - at,
        _ => 0,
    }
}

/// The cycle has come nearer to its end.
pub open spec fn progresses(before: PollCycle, after: PollCycle) -> bool {
    ||| stages_left(after.stage) < stages_left(before.stage)
    ||| stages_left(after.stage) == stages_left(before.stage) && 0 <= left_in_stage(after)
        < left_in_stage(before)
}

/// The next container whose updates are looked for is not behind `from`, it is
/// one whose updates are looked for, and none before it is.
pub proof fn lemma_next_relevant(containers: Seq<Container>, names: LabelNames, from: int)
    requires
        0 <= from <= containers.len(),
    ensures
        from <= next_relevant(containers, names, from) <= containers.len(),
        next_relevant(containers, names, from) < containers.len() ==> relevant(
            containers[next_relevant(containers, names, from)],
            names,
        ),
        forall|k: int|
            from <= k < next_relevant(containers, names, from) ==> !relevant(
                #[trigger] containers[k],
                names,
            ),
    decreases containers.len() - from,
{
    if from < containers.len() && !relevant(containers[from], names) {
        lemma_next_relevant(containers, names, from + 1);
    }
}

/// The next step that can be carried out is not behind `from`, it can be
/// carried out, and none before it can.
pub proof fn lemma_next_possible(
    steps: Seq<Step>,
    pending: Seq<PendingUpgrade>,
    inspected: Seq<String>,
    from: int,
)
    requires
        0 <= from <= steps.len(),
    ensures
        from <= next_possible(steps, pending, inspected, from) <= steps.len(),
        next_possible(steps, pending, inspected, from) < steps.len() ==> possible(
            steps[next_possible(steps, pending, inspected, from)],
            pending,
            inspected,
        ),
        forall|k: int|
            from <= k < next_possible(steps, pending, inspected, from) ==> !possible(
                #[trigger] steps[k],
                pending,
                inspected,
            ),
    decreases steps.len() - from,
{
    if from < steps.len() && !possible(steps[from], pending, inspected) {
        lemma_next_possible(steps, pending, inspected, from + 1);
    }
}

/// The digest of the image on record for a service, empty if there is none.
fn recorded(state: &RawrrState, name: &String) -> (digest: String)
    ensures
        digest@ == recorded_digest(state.image(name@)),
{
    match state.services.get(name.as_str()) {
        Some(service) => match &service.image {
            Some(image) => image.digest.clone(),
            None => "".to_owned(),
        },
        None => "".to_owned(),
    }
}

impl PollCycle {
    /// The cycle stands at a container or a step that there is.
    pub open spec fn well_formed(&self) -> bool {
        &&& forall|i: int|
            0 <= i < self.pending@.len() ==> (#[trigger] self.pending@[i]).policy
                != ContainerPolicy::Ignore
        &&& match self.stage {
            Stage::Registry { index, policy } => {
                &&& index < self.containers@.len()
                &&& policy != ContainerPolicy::Ignore
                &&& self.inspected@.len() == 0
            },
            Stage::Local { index, policy, .. } => {
                &&& index < self.containers@.len()
                &&& policy != ContainerPolicy::Ignore
                &&& self.inspected@.len() == 0
            },
            Stage::Scanned => self.inspected@.len() == 0,
            Stage::Rollout { at } => {
                &&& self.steps@ == rollout(self.pending@)
                &&& at < self.steps@.len()
            },
            Stage::Finished => true,
        }
    }

    /// The cycle goes on with the containers from `from` on: it asks about the
    /// next one whose updates are looked for, or has the state written.
    pub open spec fn scans(&self, action: Action, names: LabelNames, from: int) -> bool {
        let k = next_relevant(self.containers@, names, from);
        if k < self.containers@.len() {
            let container = self.containers@[k];
            &&& self.stage matches Stage::Registry { index, policy }
            &&& index == k
            &&& Some(policy) == labelled_policy(container.labels@, names)
            &&& action matches Action::FetchDigest { service_name, image }
            &&& service_name@ == service_name_of(container)
            &&& image@ == container.image@
        } else {
            &&& self.stage is Scanned
            &&& action is SaveState
        }
    }

    /// The cycle goes on with the steps from `from` on: it has the next one
    /// that can be carried out performed, or is finished.
    pub open spec fn runs(&self, action: Action, from: int) -> bool {
        let k = next_possible(self.steps@, self.pending@, self.inspected@, from);
        if k < self.steps@.len() {
            &&& self.stage matches Stage::Rollout { at }
            &&& at == k
            &&& performs(action, self.steps@[k], self.pending@)
        } else {
            &&& self.stage is Finished
            &&& action is Finish
        }
    }

    /// Asks about the next container from `from` on whose updates are looked
    /// for, or has the state written.
    fn scan_from(&mut self, config: &Config, from: usize) -> (action: Action)
        requires
            from <= old(self).containers.len(),
            old(self).inspected.len() == 0,
            forall|i: int|
                0 <= i < old(self).pending@.len() ==> (#[trigger] old(self).pending@[i]).policy
                    != ContainerPolicy::Ignore,
        ensures
            final(self).scans(action, config.label_names(), from as int),
            final(self).well_formed(),
            final(self).containers == old(self).containers,
            final(self).pending == old(self).pending,
            final(self).steps == old(self).steps,
            final(self).inspected == old(self).inspected,
    {
        let mut k: usize = from;
        while k < self.containers.len()
            invariant
                from <= k <= self.containers.len(),
                *self == *old(self),
                self.inspected.len() == 0,
                forall|i: int|
                    0 <= i < self.pending@.len() ==> (#[trigger] self.pending@[i]).policy
                        != ContainerPolicy::Ignore,
                next_relevant(self.containers@, config.label_names(), from as int)
                    == next_relevant(self.containers@, config.label_names(), k as int),
            decreases self.containers.len() - k,
        {
            match get_container_policy(config, &self.containers[k].labels) {
                Some(policy) => {
                    if policy != ContainerPolicy::Ignore {
                        let action = Action::FetchDigest {
                            service_name: service_name(&self.containers[k]),
                            image: self.containers[k].image.clone(),
                        };
                        self.stage = Stage::Registry { index: k, policy };
                        return action;
                    }
                },
                None => {},
            }
            k = k + 1;
        }
        self.stage = Stage::Scanned;
        Action::SaveState
    }

    /// Whether the set-up of a container was noted.
    fn was_inspected(&self, id: &String) -> (yes: bool)
        ensures
            yes == holds_id(self.inspected@, id@),
    {
        let mut k: usize = 0;
        while k < self.inspected.len()
            invariant
                k <= self.inspected.len(),
                forall|j: int| 0 <= j < k ==> (#[trigger] self.inspected@[j])@ != id@,
            decreases self.inspected.len() - k,
        {
            if self.inspected[k] == *id {
                assert(views(self.inspected@)[k as int] == id@);
                return true;
            }
            k = k + 1;
        }
        proof {
            if views(self.inspected@).contains(id@) {
                let j = choose|j: int|
                    0 <= j < views(self.inspected@).len() && views(self.inspected@)[j] == id@;
                assert(self.inspected@[j]@ == id@);
            }
        }
        false
    }

    /// The action that a step asks for.
    fn action_for(&self, step: Step) -> (action: Action)
        requires
            match step {
                Step::Notify(i) => i < self.pending.len(),
                Step::Inspect(i) => i < self.pending.len(),
                Step::Pull(i) => i < self.pending.len(),
                Step::Stop(i) => i < self.pending.len(),
                Step::Start(i) => i < self.pending.len(),
                Step::Save => true,
            },
        ensures
            performs(action, step, self.pending@),
    {
        match step {
            Step::Notify(i) => {
                let u: &PendingUpgrade = &self.pending[i];
                Action::Notify {
                    notification: Notification {
                        service_name: u.service_name.clone(),
                        old_digest: u.old_digest.clone(),
                        new_digest: u.new_digest.clone(),
                        action: if u.policy == ContainerPolicy::Update {
                            NotificationAction::Update
                        } else {
                            NotificationAction::NotifyOnly
                        },
                    },
                }
            },
            Step::Inspect(i) => {
                let u: &PendingUpgrade = &self.pending[i];
                Action::Inspect {
                    service_name: u.service_name.clone(),
                    container_id: u.container_id.clone(),
                }
            },
            Step::Pull(i) => {
                let u: &PendingUpgrade = &self.pending[i];
                Action::Pull { service_name: u.service_name.clone(), image: u.image.clone() }
            },
            Step::Stop(i) => {
                let u: &PendingUpgrade = &self.pending[i];
                Action::Stop {
                    service_name: u.service_name.clone(),
                    container_id: u.container_id.clone(),
                }
            },
            Step::Start(i) => {
                let u: &PendingUpgrade = &self.pending[i];
                Action::Start {
                    service_name: u.service_name.clone(),
                    container_id: u.container_id.clone(),
                }
            },
            Step::Save => Action::SaveState,
        }
    }

    /// Has the next step from `from` on performed that can be carried out, or
    /// finishes.
    fn run_from(&mut self, from: usize) -> (action: Action)
        requires
            from <= old(self).steps.len(),
            old(self).steps@ == rollout(old(self).pending@),
            forall|i: int|
                0 <= i < old(self).pending@.len() ==> (#[trigger] old(self).pending@[i]).policy
                    != ContainerPolicy::Ignore,
        ensures
            final(self).runs(action, from as int),
            final(self).well_formed(),
            final(self).containers == old(self).containers,
            final(self).pending == old(self).pending,
            final(self).steps == old(self).steps,
            final(self).inspected == old(self).inspected,
    {
        proof {
            if self.pending.len() > 0 {
                law_each_step_exactly_once(self.pending@);
            }
        }
        let mut k: usize = from;
        while k < self.steps.len()
            invariant
                from <= k <= self.steps.len(),
                *self == *old(self),
                self.steps@ == rollout(self.pending@),
                forall|i: int|
                    0 <= i < self.pending@.len() ==> (#[trigger] self.pending@[i]).policy
                        != ContainerPolicy::Ignore,
                self.pending.len() > 0 ==> forall|step: Step| #[trigger]
                    rollout(self.pending@).contains(step) ==> match step {
                        Step::Notify(i) => i < self.pending.len(),
                        Step::Inspect(i) => i < self.pending.len(),
                        Step::Pull(i) => i < self.pending.len(),
                        Step::Stop(i) => i < self.pending.len(),
                        Step::Start(i) => i < self.pending.len(),
                        Step::Save => true,
                    },
                next_possible(self.steps@, self.pending@, self.inspected@, from as int)
                    == next_possible(self.steps@, self.pending@, self.inspected@, k as int),
            decreases self.steps.len() - k,
        {
            let step: Step = self.steps[k];
            assert(rollout(self.pending@).contains(step));
            let ready: bool = match step {
                Step::Start(i) => self.was_inspected(&self.pending[i].container_id),
                _ => true,
            };
            if ready {
                let action: Action = self.action_for(step);
                self.stage = Stage::Rollout { at: k };
                return action;
            }
            k = k + 1;
        }
        self.stage = Stage::Finished;
        Action::Finish
    }

    /// Adds the upgrade of a container to those that are due.
    fn add_upgrade(
        &mut self,
        index: usize,
        policy: ContainerPolicy,
        old_digest: String,
        digest: String,
    )
        requires
            index < old(self).containers.len(),
            policy != ContainerPolicy::Ignore,
            forall|i: int|
                0 <= i < old(self).pending@.len() ==> (#[trigger] old(self).pending@[i]).policy
                    != ContainerPolicy::Ignore,
        ensures
            adds_upgrade(
                old(self).pending@,
                final(self).pending@,
                old(self).containers@[index as int],
                policy,
                old_digest@,
                digest@,
            ),
            forall|i: int|
                0 <= i < final(self).pending@.len() ==> (#[trigger] final(self).pending@[i]).policy
                    != ContainerPolicy::Ignore,
            final(self).containers == old(self).containers,
            final(self).steps == old(self).steps,
            final(self).inspected == old(self).inspected,
            final(self).stage == old(self).stage,
    {
        let container: &Container = &self.containers[index];
        let compose_project: Option<String> = match container.labels.get(
            "com.docker.compose.project",
        ) {
            Some(project) => Some(project.clone()),
            None => None,
        };
        let upgrade = PendingUpgrade {
            service_name: service_name(container),
            container_id: container.id.clone(),
            image: container.image.clone(),
            old_digest,
            new_digest: digest,
            policy,
            compose_project,
            depends_on: parse_depends_on(&container.labels),
        };
        self.pending.push(upgrade);
        assert(self.pending@.drop_last() =~= old(self).pending@);
    }

    /// A cycle over these containers, and the first thing that it needs done.
    fn begin(config: &Config, containers: Vec<Container>) -> (begun: (PollCycle, Action))
        ensures
            begun.0.containers == containers,
            begun.0.pending@.len() == 0,
            begun.0.well_formed(),
            begun.0.scans(begun.1, config.label_names(), 0),
    {
        let mut cycle = PollCycle {
            containers,
            pending: Vec::new(),
            steps: Vec::new(),
            inspected: Vec::new(),
            stage: Stage::Finished,
        };
        let action: Action = cycle.scan_from(config, 0);
        (cycle, action)
    }

    /// Goes on after the last action had this outcome at the time `now`, and
    /// gives the next action. An outcome of another kind than the action calls
    /// for counts as a failure. Each time that a registry is to be asked counts
    /// as a poll.
    pub fn resume(
        &mut self,
        config: &Config,
        state: &mut RawrrState,
        limiter: &mut RateLimiter,
        event: Event,
        now: Timestamp,
    ) -> (action: Action)
        requires
            old(self).well_formed(),
            old(self).stage is Registry && event is Digest ==> config.delay_in_range(),
        ensures
            final(self).well_formed(),
            goes_on(
                *config,
                *old(self),
                *final(self),
                *old(state),
                *final(state),
                event,
                now,
                action,
            ),
            old(state).services.well_formed() ==> final(state).services.well_formed(),
            final(limiter).polls() == polls_with(old(limiter).polls(), action, now),
            final(limiter).limit() == old(limiter).limit(),
            final(limiter).window() == old(limiter).window(),
            action is Finish <==> final(self).stage is Finished,
            old(self).stage !is Finished ==> progresses(*old(self), *final(self)),
    {
        let action: Action = self.proceed(config, state, event, now);
        count_query(limiter, &action, now);
        action
    }

    /// Goes on after the last action had this outcome.
    fn proceed(
        &mut self,
        config: &Config,
        state: &mut RawrrState,
        event: Event,
        now: Timestamp,
    ) -> (action: Action)
        requires
            old(self).well_formed(),
            old(self).stage is Registry && event is Digest ==> config.delay_in_range(),
        ensures
            final(self).well_formed(),
            goes_on(
                *config,
                *old(self),
                *final(self),
                *old(state),
                *final(state),
                event,
                now,
                action,
            ),
            old(state).services.well_formed() ==> final(state).services.well_formed(),
            action is Finish <==> final(self).stage is Finished,
            old(self).stage !is Finished ==> progresses(*old(self), *final(self)),
    {
        let mut stage: Stage = Stage::Finished;
        std::mem::swap(&mut stage, &mut self.stage);
        match stage {
            Stage::Registry { index, policy } => {
                proof {
                    assert(index < self.containers.len());
                    lemma_next_relevant(self.containers@, config.label_names(), index + 1);
                }
                match event {
                    Event::Digest(digest) => {
                        let name: String = service_name(&self.containers[index]);
                        let old_digest: String = recorded(state, &name);
                        let kept: String = digest.clone();
                        let ghost before = *state;
                        state.update_service_image_at(name.clone(), digest, now);
                        let due: bool = state.should_upgrade_at(
                            name.as_str(),
                            kept.as_str(),
                            config.get_release_delay(),
                            now,
                        );
                        if !due {
                            return self.scan_from(config, index + 1);
                        }
                        if !self.containers[index].image_id.as_str().is_empty() {
                            let action = Action::FetchLocalDigest {
                                service_name: name,
                                image_id: self.containers[index].image_id.clone(),
                            };
                            self.stage = Stage::Local { index, policy, old_digest, digest: kept };
                            return action;
                        }
                        self.add_upgrade(index, policy, old_digest, kept);
                        self.scan_from(config, index + 1)
                    },
                    _ => self.scan_from(config, index + 1),
                }
            },
            Stage::Local { index, policy, old_digest, digest } => {
                proof {
                    assert(index < self.containers.len());
                    lemma_next_relevant(self.containers@, config.label_names(), index + 1);
                }
                let current: bool = match event {
                    Event::LocalDigest(Some(local)) => local == digest,
                    _ => false,
                };
                if !current {
                    self.add_upgrade(index, policy, old_digest, digest);
                }
                self.scan_from(config, index + 1)
            },
            Stage::Scanned => {
                self.steps = plan_rollout(&self.pending);
                self.run_from(0)
            },
            Stage::Rollout { at } => {
                let done: bool = match event {
                    Event::Done => true,
                    _ => false,
                };
                proof {
                    if self.pending.len() > 0 {
                        law_each_step_exactly_once(self.pending@);
                    }
                    assert(rollout(self.pending@).contains(self.steps@[at as int]));
                }
                if done {
                    match self.steps[at] {
                        Step::Notify(i) => {
                            if self.pending[i].policy != ContainerPolicy::Update {
                                state.mark_upgraded_at(self.pending[i].service_name.as_str(), now);
                            }
                        },
                        Step::Inspect(i) => {
                            let id: String = self.pending[i].container_id.clone();
                            self.inspected.push(id);
                            assert(self.inspected@.drop_last() =~= old(self).inspected@);
                        },
                        Step::Start(i) => {
                            state.mark_upgraded_at(self.pending[i].service_name.as_str(), now);
                        },
                        _ => {},
                    }
                }
                proof {
                    assert(at < self.steps.len());
                    lemma_next_possible(self.steps@, self.pending@, self.inspected@, at + 1);
                }
                self.run_from(at + 1)
            },
            Stage::Finished => Action::Finish,
        }
    }
}

/// The polls on record after an action was handed out: to ask a registry for a
/// digest counts as a poll.
pub open spec fn polls_with(
    polls: Seq<Timestamp>,
    action: Action,
    now: Timestamp,
) -> Seq<Timestamp> {
    if action is FetchDigest {
        polls.push(now)
    } else {
        polls
    }
}

/// Records a poll if the action is to ask a registry.
fn count_query(limiter: &mut RateLimiter, action: &Action, now: Timestamp)
    ensures
        final(limiter).polls() == polls_with(old(limiter).polls(), *action, now),
        final(limiter).limit() == old(limiter).limit(),
        final(limiter).window() == old(limiter).window(),
{
    match action {
        Action::FetchDigest { .. } => limiter.record_poll_at(now),
        _ => {},
    }
}

/// What a poll leads to once the containers are listed.
#[derive(Debug)]
pub enum Poll {
    /// A report of the policy found for each container.
    DryRun(Vec<DryRunLine>),
    /// A cycle, and the first thing that it needs done.
    Cycle(PollCycle, Action),
}

/// Whether this is how a poll of these containers begins at the time `now`.
pub open spec fn begins(
    config: Config,
    containers: Vec<Container>,
    state_before: RawrrState,
    state_after: RawrrState,
    polls_before: Seq<Timestamp>,
    polls_after: Seq<Timestamp>,
    now: Timestamp,
    poll: Poll,
) -> bool {
    &&& state_after.last_poll_time == now
    &&& state_after.services == state_before.services
    &&& match poll {
        Poll::DryRun(lines) => {
            &&& config.dry_run
            &&& polls_after == polls_before
            &&& lines@.len() == containers@.len()
            &&& forall|i: int|
                0 <= i < lines@.len() ==> reports(
                    #[trigger] lines@[i],
                    containers@[i],
                    config.label_names(),
                )
        },
        Poll::Cycle(cycle, action) => {
            &&& !config.dry_run
            &&& polls_after == polls_with(polls_before, action, now)
            &&& cycle.containers == containers
            &&& cycle.pending@.len() == 0
            &&& cycle.well_formed()
            &&& cycle.scans(action, config.label_names(), 0)
        },
    }
}

/// Starts a poll of these containers at the time `now`. A dry run only reports
/// on them: nothing is asked of a registry, and nothing is done. Otherwise, if
/// a registry is to be asked first, that counts as a poll.
pub fn start_poll(
    config: &Config,
    containers: Vec<Container>,
    state: &mut RawrrState,
    limiter: &mut RateLimiter,
    now: Timestamp,
) -> (poll: Poll)
    ensures
        final(limiter).limit() == old(limiter).limit(),
        final(limiter).window() == old(limiter).window(),
        begins(
            *config,
            containers,
            *old(state),
            *final(state),
            old(limiter).polls(),
            final(limiter).polls(),
            now,
            poll,
        ),
{
    state.last_poll_time = now;
    if config.dry_run {
        Poll::DryRun(dry_run_report(config, &containers))
    } else {
        let (cycle, action): (PollCycle, Action) = PollCycle::begin(config, containers);
        count_query(limiter, &action, now);
        Poll::Cycle(cycle, action)
    }
}

} // verus!
