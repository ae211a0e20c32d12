//! What holds of the steps by which upgrades are carried out.

use crate::order::{ascending, lemma_select, ranks};
use crate::plan::{
    lemma_pick, lemma_pick_rest_shorter, lemma_updates, members, pick, project_name, restart_group,
    restarts, rollout, started, updates, Step,
};
use crate::policy::ContainerPolicy;
use crate::text::views;
use crate::upgrade::{
    dependency_graph, law_dependencies_start_first, law_every_service_started_once,
    lemma_position_of, lemma_positions_of, position_of, positions_of, start_order, PendingUpgrade,
};
use vstd::prelude::*;

verus! {

/// A container is stopped and started again after that.
pub open spec fn stopped_then_started(steps: Seq<Step>, i: int) -> bool {
    exists|a: int, b: int|
        0 <= a < b < steps.len() && #[trigger] steps[a] == Step::Stop(i as usize)
            && #[trigger] steps[b] == Step::Start(i as usize)
}

/// The steps stop and start each container of the list, and do nothing else
/// and nothing twice.
pub open spec fn restarts_each(steps: Seq<Step>, list: Seq<int>) -> bool {
    &&& steps.no_duplicates()
    &&& forall|k: int|
        0 <= k < steps.len() ==> match #[trigger] steps[k] {
            Step::Stop(i) => list.contains(i as int),
            Step::Start(i) => list.contains(i as int),
            _ => false,
        }
    &&& forall|i: int| #[trigger] list.contains(i) ==> stopped_then_started(steps, i)
}

/// The entries of the list are positions of upgrades.
pub open spec fn in_range(list: Seq<int>, n: nat) -> bool {
    &&& n <= usize::MAX
    &&& forall|i: int| #[trigger] list.contains(i) ==> 0 <= i < n
}

proof fn lemma_started(pending: Seq<PendingUpgrade>, group: Seq<int>)
    requires
        group.no_duplicates(),
    ensures
        started(pending, group).len() == group.len(),
        started(pending, group).no_duplicates(),
        forall|i: int| #[trigger] started(pending, group).contains(i) <==> group.contains(i),
{
    let these = members(pending, group);
    let order = start_order(these);
    let line = started(pending, group);
    law_every_service_started_once(these);
    assert forall|k: int| 0 <= k < order.len() implies 0 <= #[trigger] order[k] < group.len() by {
        assert(order.contains(order[k]));
    }
    assert forall|a: int, b: int| 0 <= a < b < line.len() implies line[a] != line[b] by {
        assert(order[a] != order[b]);
    }
    assert forall|i: int| #[trigger] line.contains(i) <==> group.contains(i) by {
        if line.contains(i) {
            let k = choose|k: int| 0 <= k < line.len() && line[k] == i;
            assert(group[order[k]] == i);
        }
        if group.contains(i) {
            let k = choose|k: int| 0 <= k < group.len() && group[k] == i;
            assert(order.contains(k));
            let m = choose|m: int| 0 <= m < order.len() && order[m] == k;
            assert(line[m] == i);
        }
    }
}

proof fn lemma_restart_group(pending: Seq<PendingUpgrade>, group: Seq<int>)
    requires
        group.no_duplicates(),
        in_range(group, pending.len()),
    ensures
        restarts_each(restart_group(pending, group), group),
{
    let line = started(pending, group);
    let steps = restart_group(pending, group);
    let n = line.len() as int;
    lemma_started(pending, group);
    assert forall|k: int| 0 <= k < n implies group.contains(#[trigger] line[k]) && 0 <= line[k]
        <= usize::MAX by {
        assert(line.contains(line[k]));
    }
    assert forall|k: int| 0 <= k < n implies #[trigger] steps[k] == Step::Stop(
        line[n - 1 - k] as usize,
    ) by {}
    assert forall|k: int| n <= k < 2 * n implies #[trigger] steps[k] == Step::Start(
        line[k - n] as usize,
    ) by {}
    assert forall|a: int, b: int| 0 <= a < b < steps.len() implies steps[a] != steps[b] by {
        if b < n {
            assert(line[n - 1 - a] != line[n - 1 - b]);
        } else if a >= n {
            assert(line[a - n] != line[b - n]);
        }
    }
    assert forall|i: int| #[trigger] group.contains(i) implies stopped_then_started(steps, i) by {
        assert(line.contains(i));
        let k = choose|k: int| 0 <= k < line.len() && line[k] == i;
        assert(steps[n - 1 - k] == Step::Stop(i as usize));
        assert(steps[n + k] == Step::Start(i as usize));
    }
}

proof fn lemma_restarts(pending: Seq<PendingUpgrade>, list: Seq<int>)
    requires
        list.no_duplicates(),
        in_range(list, pending.len()),
    ensures
        restarts_each(restarts(pending, list), list),
    decreases list.len(),
{
    let steps = restarts(pending, list);
    if list.len() > 0 {
        let project = project_name(pending[list[0]].compose_project);
        let group = pick(pending, list, project, true);
        let rest = pick(pending, list, project, false);
        lemma_pick(pending, list, project, true);
        lemma_pick(pending, list, project, false);
        lemma_pick_rest_shorter(pending, list);
        lemma_restart_group(pending, group);
        lemma_restarts(pending, rest);
        let front = restart_group(pending, group);
        let back = restarts(pending, rest);
        let n = front.len() as int;
        assert(steps =~= front + back);
        assert forall|k: int| 0 <= k < steps.len() implies match #[trigger] steps[k] {
            Step::Stop(i) => list.contains(i as int),
            Step::Start(i) => list.contains(i as int),
            _ => false,
        } by {
            if k < n {
                assert(steps[k] == front[k]);
            } else {
                assert(steps[k] == back[k - n]);
            }
        }
        assert forall|a: int, b: int| 0 <= a < b < steps.len() implies steps[a] != steps[b] by {
            if a < n && b >= n {
                assert(steps[a] == front[a]);
                assert(steps[b] == back[b - n]);
            }
        }
        assert forall|i: int| #[trigger] list.contains(i) implies stopped_then_started(
            steps,
            i,
        ) by {
            if group.contains(i) {
                let (a, b) = choose|a: int, b: int|
                    0 <= a < b < front.len() && #[trigger] front[a] == Step::Stop(i as usize)
                        && #[trigger] front[b] == Step::Start(i as usize);
                assert(steps[a] == front[a] && steps[b] == front[b]);
            } else {
                assert(rest.contains(i));
                let (a, b) = choose|a: int, b: int|
                    0 <= a < b < back.len() && #[trigger] back[a] == Step::Stop(i as usize)
                        && #[trigger] back[b] == Step::Start(i as usize);
                assert(steps[n + a] == back[a] && steps[n + b] == back[b]);
            }
        }
    }
}

/// The steps of a rollout, phase by phase.
proof fn lemma_rollout(pending: Seq<PendingUpgrade>)
    requires
        0 < pending.len() <= usize::MAX,
    ensures
        ({
            let r = rollout(pending);
            let u = updates(pending);
            let t = restarts(pending, u);
            let n = pending.len() as int;
            let m = u.len() as int;
            &&& u.no_duplicates()
            &&& restarts_each(t, u)
            &&& r.len() == n + 2 * m + t.len() + 1
            &&& forall|k: int| 0 <= k < n ==> #[trigger] r[k] == Step::Notify(k as usize)
            &&& forall|k: int|
                n <= k < n + m ==> #[trigger] r[k] == Step::Inspect(u[k - n] as usize)
            &&& forall|k: int|
                n + m <= k < n + 2 * m ==> #[trigger] r[k] == Step::Pull(u[k - n - m] as usize)
            &&& forall|k: int|
                n + 2 * m <= k < n + 2 * m + t.len() ==> #[trigger] r[k] == t[k - n - 2 * m]
            &&& r[n + 2 * m + t.len()] == Step::Save
        }),
{
    lemma_updates(pending);
    lemma_restarts(pending, updates(pending));
}

/// Every update is announced, every update that is to be applied is inspected,
/// pulled, stopped and started, the state file is written, nothing else is
/// done, and nothing is done twice.
pub proof fn law_each_step_exactly_once(pending: Seq<PendingUpgrade>)
    requires
        0 < pending.len() <= usize::MAX,
    ensures
        rollout(pending).no_duplicates(),
        forall|step: Step| #[trigger]
            rollout(pending).contains(step) <==> match step {
                Step::Notify(i) => i < pending.len(),
                Step::Inspect(i) => i < pending.len() && pending[i as int].policy
                    == ContainerPolicy::Update,
                Step::Pull(i) => i < pending.len() && pending[i as int].policy
                    == ContainerPolicy::Update,
                Step::Stop(i) => i < pending.len() && pending[i as int].policy
                    == ContainerPolicy::Update,
                Step::Start(i) => i < pending.len() && pending[i as int].policy
                    == ContainerPolicy::Update,
                Step::Save => true,
            },
{
    let r = rollout(pending);
    let u = updates(pending);
    let t = restarts(pending, u);
    let n = pending.len() as int;
    let m = u.len() as int;
    lemma_rollout(pending);
    lemma_updates(pending);
    assert forall|k: int| 0 <= k < m implies 0 <= #[trigger] u[k] < n && pending[u[k]].policy
        == ContainerPolicy::Update by {
        assert(u.contains(u[k]));
    }
    assert forall|a: int, b: int| 0 <= a < b < r.len() implies r[a] != r[b] by {
        if b < n {
        } else if b < n + m {
            if a >= n {
                assert(u[a - n] != u[b - n]);
            }
        } else if b < n + 2 * m {
            if a >= n + m {
                assert(u[a - n - m] != u[b - n - m]);
            }
        } else if b < n + 2 * m + t.len() {
            assert(r[b] == t[b - n - 2 * m]);
            if a >= n + 2 * m {
                assert(t[a - n - 2 * m] != t[b - n - 2 * m]);
            }
        } else if n + 2 * m <= a {
            assert(r[a] == t[a - n - 2 * m]);
        }
    }
    assert forall|step: Step| #[trigger] r.contains(step) <==> (match step {
        Step::Notify(i) => i < n,
        Step::Save => true,
        Step::Inspect(i) => u.contains(i as int),
        Step::Pull(i) => u.contains(i as int),
        Step::Stop(i) => u.contains(i as int),
        Step::Start(i) => u.contains(i as int),
    }) by {
        if r.contains(step) {
            let k = choose|k: int| 0 <= k < r.len() && r[k] == step;
            if n <= k < n + m {
                assert(u.contains(u[k - n]));
            } else if n + m <= k < n + 2 * m {
                assert(u.contains(u[k - n - m]));
            } else if n + 2 * m <= k < n + 2 * m + t.len() {
                assert(r[k] == t[k - n - 2 * m]);
            }
        }
        match step {
            Step::Notify(i) => {
                if i < n {
                    assert(r[i as int] == step);
                }
            },
            Step::Inspect(i) => {
                if u.contains(i as int) {
                    let k = choose|k: int| 0 <= k < m && u[k] == i;
                    assert(r[n + k] == step);
                }
            },
            Step::Pull(i) => {
                if u.contains(i as int) {
                    let k = choose|k: int| 0 <= k < m && u[k] == i;
                    assert(r[n + m + k] == step);
                }
            },
            Step::Stop(i) => {
                if u.contains(i as int) {
                    assert(stopped_then_started(t, i as int));
                    let k = choose|k: int| 0 <= k < t.len() && #[trigger] t[k] == step;
                    assert(r[n + 2 * m + k] == step);
                }
            },
            Step::Start(i) => {
                if u.contains(i as int) {
                    assert(stopped_then_started(t, i as int));
                    let k = choose|k: int| 0 <= k < t.len() && #[trigger] t[k] == step;
                    assert(r[n + 2 * m + k] == step);
                }
            },
            Step::Save => {
                assert(r[n + 2 * m + t.len()] == step);
            },
        }
    }
}

/// The phase that a step belongs to.
pub open spec fn phase(step: Step) -> int {
    match step {
        Step::Notify(_) => 0,
        Step::Inspect(_) => 1,
        Step::Pull(_) => 2,
        Step::Stop(_) => 3,
        Step::Start(_) => 3,
        Step::Save => 4,
    }
}

/// All updates are announced, in their order, before any container is
/// inspected; all containers are inspected before any image is pulled; all
/// images are pulled before any container is stopped; and the state file is
/// written at the end.
pub proof fn law_phases_in_order(pending: Seq<PendingUpgrade>, a: int, b: int)
    requires
        pending.len() <= usize::MAX,
        0 <= a < b < rollout(pending).len(),
    ensures
        phase(rollout(pending)[a]) <= phase(rollout(pending)[b]),
        a < pending.len() ==> rollout(pending)[a] == Step::Notify(a as usize),
        rollout(pending).last() == Step::Save,
{
    lemma_rollout(pending);
    let n = pending.len() as int;
    let u = updates(pending);
    let t = restarts(pending, u);
    let first = n + 2 * u.len();
    let r = rollout(pending);
    if first <= a < first + t.len() {
        assert(r[a] == t[a - first]);
    }
    if first <= b < first + t.len() {
        assert(r[b] == t[b - first]);
    }
}

/// A container that is upgraded is stopped before it is started again.
pub proof fn law_stopped_before_started(pending: Seq<PendingUpgrade>, i: int)
    requires
        pending.len() <= usize::MAX,
        0 <= i < pending.len(),
        pending[i].policy == ContainerPolicy::Update,
    ensures
        stopped_then_started(rollout(pending), i),
{
    let r = rollout(pending);
    let u = updates(pending);
    let t = restarts(pending, u);
    let first = pending.len() + 2 * u.len();
    lemma_rollout(pending);
    lemma_updates(pending);
    assert(u.contains(i));
    let (a, b) = choose|a: int, b: int|
        0 <= a < b < t.len() && #[trigger] t[a] == Step::Stop(i as usize) && #[trigger] t[b]
            == Step::Start(i as usize);
    assert(r[first + a] == t[a] && r[first + b] == t[b]);
}

proof fn lemma_pick_ascending(
    pending: Seq<PendingUpgrade>,
    list: Seq<int>,
    project: Option<Seq<char>>,
    inside: bool,
)
    requires
        ascending(list),
    ensures
        ascending(pick(pending, list, project, inside)),
    decreases list.len(),
{
    if list.len() > 0 {
        let r = list.drop_last();
        let rest = pick(pending, r, project, inside);
        lemma_pick_ascending(pending, r, project, inside);
        lemma_pick(pending, r, project, inside);
        assert forall|k: int| 0 <= k < rest.len() implies #[trigger] rest[k] < list.last() by {
            assert(rest.contains(rest[k]));
            let a = choose|a: int| 0 <= a < r.len() && r[a] == rest[k];
            assert(list[a] < list[list.len() - 1]);
        }
    }
}

/// Taking out one project leaves the others as they were.
proof fn lemma_pick_of_rest(
    pending: Seq<PendingUpgrade>,
    list: Seq<int>,
    taken: Option<Seq<char>>,
    project: Option<Seq<char>>,
)
    requires
        taken != project,
    ensures
        pick(pending, pick(pending, list, taken, false), project, true) == pick(
            pending,
            list,
            project,
            true,
        ),
    decreases list.len(),
{
    if list.len() > 0 {
        let r = list.drop_last();
        lemma_pick_of_rest(pending, r, taken, project);
        let rest = pick(pending, list, taken, false);
        if project_name(pending[list.last()].compose_project) != taken {
            assert(rest.drop_last() =~= pick(pending, r, taken, false));
        }
    }
}

/// The steps that restart a project follow one another. `first` is the place
/// at which they begin.
proof fn lemma_project_restarts_together(
    pending: Seq<PendingUpgrade>,
    list: Seq<int>,
    project: Option<Seq<char>>,
) -> (first: int)
    requires
        pick(pending, list, project, true).len() > 0,
    ensures
        ({
            let block = restart_group(pending, pick(pending, list, project, true));
            &&& 0 <= first
            &&& first + block.len() <= restarts(pending, list).len()
            &&& forall|k: int|
                0 <= k < block.len() ==> restarts(pending, list)[first + k] == #[trigger] block[k]
        }),
    decreases list.len(),
{
    let head = project_name(pending[list[0]].compose_project);
    if head == project {
        0
    } else {
        let rest = pick(pending, list, head, false);
        lemma_pick_rest_shorter(pending, list);
        lemma_pick_of_rest(pending, list, head, project);
        let inner = lemma_project_restarts_together(pending, rest, project);
        let n = restart_group(pending, pick(pending, list, head, true)).len() as int;
        let block = restart_group(pending, pick(pending, list, project, true));
        assert forall|k: int| 0 <= k < block.len() implies restarts(pending, list)[n + inner + k]
            == #[trigger] block[k] by {
            assert(restarts(pending, rest)[inner + k] == block[k]);
        }
        n + inner
    }
}

/// Two containers that are upgraded belong to the same project, or both to
/// none.
pub open spec fn upgraded_together(pending: Seq<PendingUpgrade>, i: int, j: int) -> bool {
    &&& 0 <= i < pending.len()
    &&& 0 <= j < pending.len()
    &&& pending[i].policy == ContainerPolicy::Update
    &&& pending[j].policy == ContainerPolicy::Update
    &&& project_name(pending[i].compose_project) == project_name(pending[j].compose_project)
}

/// Container `i` names the service of container `j` as a dependency, and the
/// two are upgraded together. Of several containers under one name the last is
/// meant.
pub open spec fn needs(pending: Seq<PendingUpgrade>, i: int, j: int) -> bool {
    &&& upgraded_together(pending, i, j)
    &&& views(pending[i].depends_on@).contains(pending[j].service_name@)
    &&& forall|k: int|
        j < k && #[trigger] upgraded_together(pending, j, k) ==> pending[k].service_name@
            != pending[j].service_name@
}

/// No container that is upgraded together with `i` is in a cycle of
/// dependencies: some ranking puts every container above those that it needs.
pub open spec fn acyclic_around(
    pending: Seq<PendingUpgrade>,
    i: int,
    rank: spec_fn(int) -> nat,
) -> bool {
    forall|a: int, b: int|
        upgraded_together(pending, i, a) && #[trigger] needs(pending, a, b) ==> rank(b) < rank(a)
}

/// Where no cycle is in the way, a container is started after each container
/// that it needs, and stopped before it.
pub proof fn law_dependencies_restart_in_order(
    pending: Seq<PendingUpgrade>,
    rank: spec_fn(int) -> nat,
    i: int,
    j: int,
    a: int,
    b: int,
)
    requires
        pending.len() <= usize::MAX,
        acyclic_around(pending, i, rank),
        needs(pending, i, j),
        0 <= a < rollout(pending).len(),
        0 <= b < rollout(pending).len(),
    ensures
        rollout(pending)[a] == Step::Start(j as usize) && rollout(pending)[b] == Step::Start(
            i as usize,
        ) ==> a < b,
        rollout(pending)[a] == Step::Stop(i as usize) && rollout(pending)[b] == Step::Stop(
            j as usize,
        ) ==> a < b,
{
    let r = rollout(pending);
    let u = updates(pending);
    let t = restarts(pending, u);
    let project = project_name(pending[i].compose_project);
    let group = pick(pending, u, project, true);
    let these = members(pending, group);
    let order = start_order(these);
    let line = started(pending, group);
    let block = restart_group(pending, group);
    let n = group.len() as int;
    lemma_updates(pending);
    lemma_select(
        pending.len() as int,
        |i: int| pending[i].policy == ContainerPolicy::Update,
    );
    lemma_pick(pending, u, project, true);
    lemma_pick_ascending(pending, u, project, true);
    lemma_started(pending, group);
    law_every_service_started_once(these);
    assert forall|k: int| 0 <= k < n implies upgraded_together(pending, i, #[trigger] group[k]) by {
        assert(group.contains(group[k]));
        assert(u.contains(group[k]));
    }
    let by_place = |k: int| rank(group[k]);
    let g = dependency_graph(these);
    assert(ranks(g, by_place)) by {
        assert forall|k: int, m: int| 0 <= k < g.len() && 0 <= m < g[k].len() implies by_place(
            #[trigger] g[k][m],
        ) < by_place(k) by {
            lemma_dependency_needed(pending, group, i, k, m);
            assert(upgraded_together(pending, i, group[k]));
        }
    }
    assert(u.contains(i) && u.contains(j));
    assert(group.contains(i) && group.contains(j));
    let gi = choose|k: int| 0 <= k < n && group[k] == i;
    let gj = choose|k: int| 0 <= k < n && group[k] == j;
    let name = pending[j].service_name@;
    assert(position_of(these, name) == gj) by {
        lemma_position_of(these, name);
        let place = position_of(these, name);
        assert(these[gj].service_name@ == name);
        if place > gj {
            assert(group[gj] < group[place]);
            assert(upgraded_together(pending, i, group[place]));
            assert(upgraded_together(pending, j, group[place]));
            assert(these[place].service_name@ == name);
        }
    }
    assert(order.contains(gi) && order.contains(gj));
    let at_i = choose|k: int| 0 <= k < order.len() && order[k] == gi;
    let at_j = choose|k: int| 0 <= k < order.len() && order[k] == gj;
    assert(these[gi].depends_on == pending[i].depends_on);
    law_dependencies_start_first(these, by_place, at_j, at_i);
    assert(at_j < at_i);
    assert(line[at_i] == i && line[at_j] == j);
    assert(block[n + at_j] == Step::Start(j as usize));
    assert(block[n + at_i] == Step::Start(i as usize));
    assert(block[n - 1 - at_j] == Step::Stop(j as usize));
    assert(block[n - 1 - at_i] == Step::Stop(i as usize));
    let inner = lemma_project_restarts_together(pending, u, project);
    lemma_rollout(pending);
    law_each_step_exactly_once(pending);
    let first = pending.len() + 2 * u.len() + inner;
    assert forall|k: int| 0 <= k < block.len() implies r[first + k] == #[trigger] block[k] by {
        assert(t[inner + k] == block[k]);
    }
    assert(r[first + n + at_j] == Step::Start(j as usize));
    assert(r[first + n + at_i] == Step::Start(i as usize));
    assert(r[first + n - 1 - at_j] == Step::Stop(j as usize));
    assert(r[first + n - 1 - at_i] == Step::Stop(i as usize));
}

/// What the dependencies within a project stand for.
proof fn lemma_dependency_needed(
    pending: Seq<PendingUpgrade>,
    group: Seq<int>,
    i: int,
    k: int,
    m: int,
)
    requires
        ascending(group),
        group == pick(
            pending,
            updates(pending),
            project_name(pending[i].compose_project),
            true,
        ),
        forall|k: int|
            0 <= k < group.len() ==> upgraded_together(pending, i, #[trigger] group[k]),
        0 <= k < group.len(),
        0 <= m < dependency_graph(members(pending, group))[k].len(),
    ensures
        needs(pending, group[k], group[dependency_graph(members(pending, group))[k][m]]),
{
    let these = members(pending, group);
    let names = views(these[k].depends_on@);
    let d = dependency_graph(these)[k][m];
    lemma_positions_of(these, names);
    let name = these[d].service_name@;
    let j = group[d];
    assert(upgraded_together(pending, i, group[k]));
    assert(upgraded_together(pending, i, group[d]));
    lemma_positions_are_last(these, names, m);
    lemma_position_of(these, name);
    lemma_updates(pending);
    lemma_pick(pending, updates(pending), project_name(pending[i].compose_project), true);
    assert forall|l: int| j < l && #[trigger] upgraded_together(
        pending,
        j,
        l,
    ) implies pending[l].service_name@ != name by {
        assert(updates(pending).contains(l));
        assert(group.contains(l));
        let gl = choose|gl: int| 0 <= gl < group.len() && group[gl] == l;
        if gl <= d {
            assert(gl == d || group[gl] < group[d]);
        }
        assert(these[gl].service_name@ != name);
    }
}

/// Each position that is found is that of the last upgrade under its name.
proof fn lemma_positions_are_last(
    upgrades: Seq<PendingUpgrade>,
    names: Seq<Seq<char>>,
    m: int,
)
    requires
        0 <= m < positions_of(upgrades, names).len(),
    ensures
        positions_of(upgrades, names)[m] == position_of(
            upgrades,
            upgrades[positions_of(upgrades, names)[m]].service_name@,
        ),
    decreases names.len(),
{
    let r = names.drop_last();
    lemma_position_of(upgrades, names.last());
    if m < positions_of(upgrades, r).len() {
        lemma_positions_are_last(upgrades, r, m);
    }
}

/// The containers of a project are all stopped before any of them is started,
/// and they are started in the reverse of the order in which they are stopped.
/// Here `a` and `b` are where two of them are stopped, `c` and `d` where they
/// are started.
pub proof fn law_project_stops_then_starts_in_reverse(
    pending: Seq<PendingUpgrade>,
    i: int,
    j: int,
    a: int,
    b: int,
    c: int,
    d: int,
)
    requires
        pending.len() <= usize::MAX,
        upgraded_together(pending, i, j),
        0 <= a < rollout(pending).len(),
        0 <= b < rollout(pending).len(),
        0 <= c < rollout(pending).len(),
        0 <= d < rollout(pending).len(),
        rollout(pending)[a] == Step::Stop(i as usize),
        rollout(pending)[b] == Step::Stop(j as usize),
        rollout(pending)[c] == Step::Start(i as usize),
        rollout(pending)[d] == Step::Start(j as usize),
    ensures
        a < d,
        b < c,
        a < b <==> d < c,
{
    let r = rollout(pending);
    let u = updates(pending);
    let project = project_name(pending[i].compose_project);
    let group = pick(pending, u, project, true);
    let line = started(pending, group);
    let block = restart_group(pending, group);
    let n = group.len() as int;
    lemma_updates(pending);
    lemma_pick(pending, u, project, true);
    lemma_started(pending, group);
    assert(u.contains(i) && u.contains(j));
    assert(group.contains(i) && group.contains(j));
    assert(line.contains(i) && line.contains(j));
    let at_i = choose|k: int| 0 <= k < line.len() && line[k] == i;
    let at_j = choose|k: int| 0 <= k < line.len() && line[k] == j;
    assert(block[n + at_j] == Step::Start(j as usize));
    assert(block[n + at_i] == Step::Start(i as usize));
    assert(block[n - 1 - at_j] == Step::Stop(j as usize));
    assert(block[n - 1 - at_i] == Step::Stop(i as usize));
    let inner = lemma_project_restarts_together(pending, u, project);
    lemma_rollout(pending);
    law_each_step_exactly_once(pending);
    let t = restarts(pending, u);
    let first = pending.len() + 2 * u.len() + inner;
    assert forall|k: int| 0 <= k < block.len() implies r[first + k] == #[trigger] block[k] by {
        assert(t[inner + k] == block[k]);
    }
    assert(r[first + n + at_j] == Step::Start(j as usize));
    assert(r[first + n + at_i] == Step::Start(i as usize));
    assert(r[first + n - 1 - at_j] == Step::Stop(j as usize));
    assert(r[first + n - 1 - at_i] == Step::Stop(i as usize));
}

/// The containers of a project are restarted without a step for any other
/// container in between.
pub proof fn law_project_is_restarted_in_one_go(
    pending: Seq<PendingUpgrade>,
    i: int,
    j: int,
    a: int,
    b: int,
    k: int,
    other: int,
)
    requires
        pending.len() <= usize::MAX,
        upgraded_together(pending, i, j),
        0 <= a < k < b < rollout(pending).len(),
        rollout(pending)[a] == Step::Stop(i as usize) || rollout(pending)[a] == Step::Start(
            i as usize,
        ),
        rollout(pending)[b] == Step::Stop(j as usize) || rollout(pending)[b] == Step::Start(
            j as usize,
        ),
        0 <= other < pending.len(),
        rollout(pending)[k] == Step::Stop(other as usize) || rollout(pending)[k] == Step::Start(
            other as usize,
        ),
    ensures
        upgraded_together(pending, i, other),
{
    let r = rollout(pending);
    let u = updates(pending);
    let project = project_name(pending[i].compose_project);
    let group = pick(pending, u, project, true);
    let block = restart_group(pending, group);
    lemma_updates(pending);
    lemma_pick(pending, u, project, true);
    assert(u.contains(i) && u.contains(j));
    assert(group.contains(i) && group.contains(j));
    lemma_restart_group(pending, group);
    assert(stopped_then_started(block, i) && stopped_then_started(block, j));
    let inner = lemma_project_restarts_together(pending, u, project);
    lemma_rollout(pending);
    law_each_step_exactly_once(pending);
    let t = restarts(pending, u);
    let first = pending.len() + 2 * u.len() + inner;
    assert forall|x: int| 0 <= x < block.len() implies r[first + x] == #[trigger] block[x] by {
        assert(t[inner + x] == block[x]);
    }
    let x = choose|x: int| 0 <= x < block.len() && #[trigger] block[x] == r[a];
    let y = choose|y: int| 0 <= y < block.len() && #[trigger] block[y] == r[b];
    assert(r[first + x] == r[a] && r[first + y] == r[b]);
    assert(a == first + x && b == first + y);
    let z = k - first;
    assert(r[first + z] == block[z]);
    assert(group.contains(other));
}

} // verus!
