//! The steps by which upgrades that are due are carried out.

use crate::order::{ints, lemma_select, select};
use crate::policy::ContainerPolicy;
use crate::upgrade::{
    law_every_service_started_once, start_order, topological_sort, PendingUpgrade,
};
use vstd::prelude::*;

verus! {

/// A step. It names the upgrade that it is for by its position.
#[derive(Debug, Clone, Copy, PartialEq, Eq, Structural)]
pub enum Step {
    /// Announce the update.
    Notify(usize),
    /// Note how the container is set up.
    Inspect(usize),
    /// Pull the new image.
    Pull(usize),
    /// Stop and remove the container.
    Stop(usize),
    /// Create and start the container anew.
    Start(usize),
    /// Write the state file.
    Save,
}

/// The upgrades that are applied, ascending.
pub open spec fn updates(pending: Seq<PendingUpgrade>) -> Seq<int> {
    select(pending.len() as int, |i: int| pending[i].policy == ContainerPolicy::Update)
}

/// The name of a Compose project, if there is one.
pub open spec fn project_name(project: Option<String>) -> Option<Seq<char>> {
    match project {
        Some(name) => Some(name@),
        None => None,
    }
}

/// The upgrades of a list that belong to a project (`inside`), or that do not.
pub open spec fn pick(
    pending: Seq<PendingUpgrade>,
    list: Seq<int>,
    project: Option<Seq<char>>,
    inside: bool,
) -> Seq<int>
    decreases list.len(),
{
    if list.len() == 0 {
        Seq::empty()
    } else {
        let rest = pick(pending, list.drop_last(), project, inside);
        if (project_name(pending[list.last()].compose_project) == project) == inside {
            rest.push(list.last())
        } else {
            rest
        }
    }
}

/// The upgrades at these positions.
pub open spec fn members(pending: Seq<PendingUpgrade>, group: Seq<int>) -> Seq<PendingUpgrade> {
    group.map_values(|i: int| pending[i])
}

/// The upgrades of a group in the order in which they are started.
pub open spec fn started(pending: Seq<PendingUpgrade>, group: Seq<int>) -> Seq<int> {
    start_order(members(pending, group)).map_values(|k: int| group[k])
}

/// How the containers of a group are restarted: they are stopped in the
/// reverse of the order in which they are then started.
pub open spec fn restart_group(pending: Seq<PendingUpgrade>, group: Seq<int>) -> Seq<Step> {
    let order = started(pending, group);
    order.reverse().map_values(|i: int| Step::Stop(i as usize)) + order.map_values(
        |i: int| Step::Start(i as usize),
    )
}

/// How the containers of a list are restarted: project by project, in the
/// order in which the projects occur first.
pub open spec fn restarts(pending: Seq<PendingUpgrade>, list: Seq<int>) -> Seq<Step>
    decreases list.len(),
{
    if list.len() == 0 {
        Seq::empty()
    } else {
        let project = project_name(pending[list[0]].compose_project);
        proof {
            lemma_pick_rest_shorter(pending, list);
        }
        restart_group(pending, pick(pending, list, project, true)) + restarts(
            pending,
            pick(pending, list, project, false),
        )
    }
}

/// How upgrades are applied: all containers are inspected and all images
/// pulled before any container is stopped.
pub open spec fn applications(pending: Seq<PendingUpgrade>) -> Seq<Step> {
    updates(pending).map_values(|i: int| Step::Inspect(i as usize)) + updates(pending).map_values(
        |i: int| Step::Pull(i as usize),
    ) + restarts(pending, updates(pending))
}

/// The announcements of all upgrades.
pub open spec fn announcements(pending: Seq<PendingUpgrade>) -> Seq<Step> {
    Seq::new(pending.len(), |i: int| Step::Notify(i as usize))
}

/// The steps by which upgrades are carried out. Without upgrades there are
/// none; otherwise the state file is written at the end.
pub open spec fn rollout(pending: Seq<PendingUpgrade>) -> Seq<Step> {
    if pending.len() == 0 {
        Seq::empty()
    } else {
        announcements(pending) + applications(pending) + seq![Step::Save]
    }
}

pub proof fn lemma_pick(
    pending: Seq<PendingUpgrade>,
    list: Seq<int>,
    project: Option<Seq<char>>,
    inside: bool,
)
    ensures
        pick(pending, list, project, inside).len() <= list.len(),
        forall|i: int| #[trigger]
            pick(pending, list, project, inside).contains(i) <==> list.contains(i) && (project_name(
                pending[i].compose_project,
            ) == project) == inside,
        list.no_duplicates() ==> pick(pending, list, project, inside).no_duplicates(),
    decreases list.len(),
{
    let picked = pick(pending, list, project, inside);
    if list.len() > 0 {
        let r = list.drop_last();
        lemma_pick(pending, r, project, inside);
        let rest = pick(pending, r, project, inside);
        let last = list.last();
        assert forall|i: int| #[trigger] picked.contains(i) <==> list.contains(i) && (project_name(
            pending[i].compose_project,
        ) == project) == inside by {
            assert(rest.contains(i) <==> r.contains(i) && (project_name(
                pending[i].compose_project,
            ) == project) == inside);
            assert(list.contains(i) <==> r.contains(i) || i == last) by {
                if list.contains(i) {
                    let a = choose|a: int| 0 <= a < list.len() && list[a] == i;
                    if a < r.len() {
                        assert(r[a] == i);
                    }
                }
                if r.contains(i) {
                    let a = choose|a: int| 0 <= a < r.len() && r[a] == i;
                    assert(list[a] == i);
                }
                assert(list[list.len() - 1] == last);
            }
            if picked.len() > rest.len() {
                assert(picked.contains(i) <==> rest.contains(i) || i == last) by {
                    if picked.contains(i) {
                        let a = choose|a: int| 0 <= a < picked.len() && picked[a] == i;
                        if a < rest.len() {
                            assert(rest[a] == i);
                        }
                    }
                    if rest.contains(i) {
                        let a = choose|a: int| 0 <= a < rest.len() && rest[a] == i;
                        assert(picked[a] == i);
                    }
                    assert(picked[rest.len() as int] == last);
                }
            }
        }
        if list.no_duplicates() {
            assert(r.no_duplicates());
            assert(!r.contains(last)) by {
                if r.contains(last) {
                    let a = choose|a: int| 0 <= a < r.len() && r[a] == last;
                    assert(list[a] == list[list.len() - 1]);
                }
            }
            assert(!rest.contains(last));
            assert(picked.no_duplicates());
        }
    }
}

/// Taking out the project of the first upgrade shortens the list.
pub proof fn lemma_pick_rest_shorter(pending: Seq<PendingUpgrade>, list: Seq<int>)
    requires
        list.len() > 0,
    ensures
        pick(
            pending,
            list,
            project_name(pending[list[0]].compose_project),
            false,
        ).len() < list.len(),
    decreases list.len(),
{
    let project = project_name(pending[list[0]].compose_project);
    let r = list.drop_last();
    if r.len() > 0 {
        lemma_pick_rest_shorter(pending, r);
        assert(r[0] == list[0]);
    } else {
        assert(pick(pending, r, project, false).len() == 0);
    }
}

/// The upgrades that are applied.
fn list_updates(pending: &Vec<PendingUpgrade>) -> (list: Vec<usize>)
    ensures
        ints(list@) == updates(pending@),
{
    let ghost applied = |i: int| pending@[i].policy == ContainerPolicy::Update;
    let mut list: Vec<usize> = Vec::new();
    let mut i: usize = 0;
    assert(ints(list@) =~= select(0, applied));
    while i < pending.len()
        invariant
            i <= pending.len(),
            applied == (|i: int| pending@[i].policy == ContainerPolicy::Update),
            ints(list@) == select(i as int, applied),
        decreases pending.len() - i,
    {
        if pending[i].policy == ContainerPolicy::Update {
            let ghost before = list@;
            list.push(i);
            assert(ints(list@) =~= ints(before).push(i as int));
        }
        i = i + 1;
    }
    list
}

/// Whether two containers belong to the same project, or both to none.
fn same_project(a: &Option<String>, b: &Option<String>) -> (same: bool)
    ensures
        same == (project_name(*a) == project_name(*b)),
{
    match (a, b) {
        (Some(x), Some(y)) => *x == *y,
        (None, None) => true,
        _ => false,
    }
}

/// The upgrades of a list that belong to a project (`inside`), or that do not.
fn pick_project(
    pending: &Vec<PendingUpgrade>,
    list: &Vec<usize>,
    project: &Option<String>,
    inside: bool,
) -> (picked: Vec<usize>)
    requires
        forall|k: int| 0 <= k < list.len() ==> #[trigger] list@[k] < pending.len(),
    ensures
        ints(picked@) == pick(pending@, ints(list@), project_name(*project), inside),
{
    let ghost all = ints(list@);
    let ghost name = project_name(*project);
    let mut picked: Vec<usize> = Vec::new();
    let mut k: usize = 0;
    assert(ints(picked@) =~= pick(pending@, all.take(0), name, inside));
    while k < list.len()
        invariant
            k <= list.len(),
            all == ints(list@),
            name == project_name(*project),
            forall|k: int| 0 <= k < list.len() ==> #[trigger] list@[k] < pending.len(),
            ints(picked@) == pick(pending@, all.take(k as int), name, inside),
        decreases list.len() - k,
    {
        let i: usize = list[k];
        proof {
            assert(all.take(k + 1).drop_last() =~= all.take(k as int));
            assert(all.take(k + 1).last() == i);
        }
        if same_project(&pending[i].compose_project, project) == inside {
            let ghost before = picked@;
            picked.push(i);
            assert(ints(picked@) =~= ints(before).push(i as int));
        }
        k = k + 1;
    }
    assert(all.take(k as int) =~= all);
    picked
}

/// Appends the steps that restart the containers of a group.
fn append_restart_group(
    pending: &Vec<PendingUpgrade>,
    group: &Vec<usize>,
    steps: &mut Vec<Step>,
)
    requires
        forall|k: int| 0 <= k < group.len() ==> #[trigger] group@[k] < pending.len(),
    ensures
        final(steps)@ == old(steps)@ + restart_group(pending@, ints(group@)),
{
    let n: usize = group.len();
    let ghost places = ints(group@);
    let mut upgrades: Vec<&PendingUpgrade> = Vec::new();
    let mut k: usize = 0;
    while k < n
        invariant
            k <= n,
            n == group.len(),
            forall|k: int| 0 <= k < group.len() ==> #[trigger] group@[k] < pending.len(),
            upgrades.len() == k,
            forall|j: int|
                0 <= j < k ==> *(#[trigger] upgrades@[j]) == pending@[group@[j] as int],
        decreases n - k,
    {
        upgrades.push(&pending[group[k]]);
        k = k + 1;
    }
    let order: Vec<usize> = topological_sort(upgrades.as_slice());
    let ghost line = started(pending@, places);
    proof {
        assert(upgrades@.unref() =~= members(pending@, places));
        law_every_service_started_once(members(pending@, places));
        assert forall|j: int| 0 <= j < n implies 0 <= #[trigger] order@[j] < n && line[j]
            == group@[order@[j] as int] by {
            assert(ints(order@)[j] == order@[j]);
            assert(start_order(members(pending@, places)).contains(ints(order@)[j]));
        }
    }
    let ghost before = steps@;
    let ghost stops = line.reverse().map_values(|i: int| Step::Stop(i as usize));
    let ghost starts = line.map_values(|i: int| Step::Start(i as usize));
    assert(before + stops.take(0) =~= before);
    k = 0;
    while k < n
        invariant
            k <= n,
            n == group.len(),
            order.len() == n,
            line.len() == n,
            stops == line.reverse().map_values(|i: int| Step::Stop(i as usize)),
            forall|j: int|
                0 <= j < n ==> 0 <= #[trigger] order@[j] < n && line[j]
                    == group@[order@[j] as int],
            steps@ == before + stops.take(k as int),
        decreases n - k,
    {
        let i: usize = group[order[n - 1 - k]];
        assert(stops[k as int] == Step::Stop(i));
        steps.push(Step::Stop(i));
        assert(before + stops.take(k + 1) =~= (before + stops.take(k as int)).push(
            stops[k as int],
        ));
        k = k + 1;
    }
    assert(stops.take(n as int) =~= stops);
    let ghost middle = steps@;
    assert(middle + starts.take(0) =~= middle);
    k = 0;
    while k < n
        invariant
            k <= n,
            n == group.len(),
            order.len() == n,
            line.len() == n,
            starts == line.map_values(|i: int| Step::Start(i as usize)),
            forall|j: int|
                0 <= j < n ==> 0 <= #[trigger] order@[j] < n && line[j]
                    == group@[order@[j] as int],
            steps@ == middle + starts.take(k as int),
        decreases n - k,
    {
        let i: usize = group[order[k]];
        assert(starts[k as int] == Step::Start(i));
        steps.push(Step::Start(i));
        assert(middle + starts.take(k + 1) =~= (middle + starts.take(k as int)).push(
            starts[k as int],
        ));
        k = k + 1;
    }
    assert(starts.take(n as int) =~= starts);
    assert(steps@ =~= before + restart_group(pending@, places));
}

/// Appends the steps that restart the containers of a list, project by
/// project.
fn append_restarts(pending: &Vec<PendingUpgrade>, list: Vec<usize>, steps: &mut Vec<Step>)
    requires
        forall|k: int| 0 <= k < list.len() ==> #[trigger] list@[k] < pending.len(),
    ensures
        final(steps)@ == old(steps)@ + restarts(pending@, ints(list@)),
{
    let ghost target = steps@ + restarts(pending@, ints(list@));
    let mut waiting: Vec<usize> = list;
    while waiting.len() > 0
        invariant
            forall|k: int| 0 <= k < waiting.len() ==> #[trigger] waiting@[k] < pending.len(),
            steps@ + restarts(pending@, ints(waiting@)) == target,
        decreases waiting.len(),
    {
        let ghost all = ints(waiting@);
        let ghost before = steps@;
        let project: &Option<String> = &pending[waiting[0]].compose_project;
        let ghost name = project_name(*project);
        assert(all[0] == waiting@[0]);
        let group: Vec<usize> = pick_project(pending, &waiting, project, true);
        let rest: Vec<usize> = pick_project(pending, &waiting, project, false);
        proof {
            lemma_pick(pending@, all, name, true);
            lemma_pick(pending@, all, name, false);
            lemma_pick_rest_shorter(pending@, all);
            lemma_picked_in_range(waiting@, group@, pending.len());
            lemma_picked_in_range(waiting@, rest@, pending.len());
            assert(ints(rest@).len() == rest.len());
        }
        append_restart_group(pending, &group, steps);
        proof {
            assert(steps@ + restarts(pending@, ints(rest@)) =~= before + (restart_group(
                pending@,
                ints(group@),
            ) + restarts(pending@, ints(rest@))));
        }
        waiting = rest;
    }
    assert(steps@ =~= steps@ + restarts(pending@, ints(waiting@)));
}

proof fn lemma_picked_in_range(all: Seq<usize>, picked: Seq<usize>, n: usize)
    requires
        forall|k: int| 0 <= k < all.len() ==> #[trigger] all[k] < n,
        forall|i: int| #[trigger] ints(picked).contains(i) ==> ints(all).contains(i),
    ensures
        forall|k: int| 0 <= k < picked.len() ==> #[trigger] picked[k] < n,
{
    assert forall|k: int| 0 <= k < picked.len() implies #[trigger] picked[k] < n by {
        let i = ints(picked)[k];
        assert(ints(picked).contains(i));
        let m = choose|m: int| 0 <= m < ints(all).len() && ints(all)[m] == i;
        assert(all[m] < n);
    }
}

/// The steps by which upgrades are carried out.
pub fn plan_rollout(pending: &Vec<PendingUpgrade>) -> (steps: Vec<Step>)
    ensures
        steps@ == rollout(pending@),
{
    let mut steps: Vec<Step> = Vec::new();
    let n: usize = pending.len();
    if n == 0 {
        assert(steps@ =~= Seq::<Step>::empty());
        return steps;
    }
    let ghost notices = announcements(pending@);
    let mut i: usize = 0;
    while i < n
        invariant
            i <= n,
            n == pending.len(),
            notices == announcements(pending@),
            steps@ == notices.take(i as int),
        decreases n - i,
    {
        steps.push(Step::Notify(i));
        assert(notices.take(i + 1) =~= notices.take(i as int).push(notices[i as int]));
        i = i + 1;
    }
    assert(notices.take(n as int) =~= notices);
    let list: Vec<usize> = list_updates(pending);
    let ghost chosen = updates(pending@);
    proof {
        lemma_updates(pending@);
        assert forall|k: int| 0 <= k < list.len() implies #[trigger] list@[k] < n by {
            assert(chosen.contains(ints(list@)[k]));
        }
    }
    let ghost inspections = chosen.map_values(|i: int| Step::Inspect(i as usize));
    let ghost pulls = chosen.map_values(|i: int| Step::Pull(i as usize));
    let mut k: usize = 0;
    assert(notices + inspections.take(0) =~= notices);
    while k < list.len()
        invariant
            k <= list.len(),
            chosen == ints(list@),
            inspections == chosen.map_values(|i: int| Step::Inspect(i as usize)),
            steps@ == notices + inspections.take(k as int),
        decreases list.len() - k,
    {
        steps.push(Step::Inspect(list[k]));
        assert(notices + inspections.take(k + 1) =~= (notices + inspections.take(k as int)).push(
            inspections[k as int],
        ));
        k = k + 1;
    }
    assert(inspections.take(k as int) =~= inspections);
    let ghost before = steps@;
    k = 0;
    assert(before + pulls.take(0) =~= before);
    while k < list.len()
        invariant
            k <= list.len(),
            chosen == ints(list@),
            pulls == chosen.map_values(|i: int| Step::Pull(i as usize)),
            steps@ == before + pulls.take(k as int),
        decreases list.len() - k,
    {
        steps.push(Step::Pull(list[k]));
        assert(before + pulls.take(k + 1) =~= (before + pulls.take(k as int)).push(
            pulls[k as int],
        ));
        k = k + 1;
    }
    assert(pulls.take(k as int) =~= pulls);
    append_restarts(pending, list, &mut steps);
    steps.push(Step::Save);
    assert(steps@ =~= rollout(pending@));
    steps
}

/// The upgrades that are applied are those with that policy, none twice.
pub proof fn lemma_updates(pending: Seq<PendingUpgrade>)
    ensures
        updates(pending).no_duplicates(),
        forall|i: int| #[trigger]
            updates(pending).contains(i) <==> 0 <= i < pending.len() && pending[i].policy
                == ContainerPolicy::Update,
{
    lemma_select(
        pending.len() as int,
        |i: int| pending[i].policy == ContainerPolicy::Update,
    );
}

} // verus!
