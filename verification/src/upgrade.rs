//! Upgrades that are due, and the order in which containers are restarted.

use crate::name_map::NameMap;
use crate::order::{
    closed_graph, dependency_order, graph, ints, law_dependencies_first,
    law_order_is_a_permutation, ranks, sort_by_dependency,
};
use crate::policy::ContainerPolicy;
use crate::text::{find_char, first_of, lemma_first_of, split, split_text, trim, trim_text, views};
use vstd::prelude::*;

verus! {

/// An upgrade that is due.
#[derive(Debug, Clone)]
pub struct PendingUpgrade {
    pub service_name: String,
    pub container_id: String,
    pub image: String,
    pub old_digest: String,
    pub new_digest: String,
    pub policy: ContainerPolicy,
    /// The Compose project that the container belongs to.
    pub compose_project: Option<String>,
    /// The services that must run before this one.
    pub depends_on: Vec<String>,
}

/// The texts that are not empty.
pub open spec fn non_empty(texts: Seq<Seq<char>>) -> Seq<Seq<char>>
    decreases texts.len(),
{
    if texts.len() == 0 {
        Seq::empty()
    } else if texts.last().len() > 0 {
        non_empty(texts.drop_last()).push(texts.last())
    } else {
        non_empty(texts.drop_last())
    }
}

/// The services that a Compose dependency list names. An entry is a service,
/// a condition and a flag, joined by colons.
pub open spec fn compose_dependencies(value: Seq<char>) -> Seq<Seq<char>> {
    non_empty(split(value, ',').map_values(|entry: Seq<char>| entry.take(first_of(entry, ':'))))
}

/// The services that a plain dependency list names.
pub open spec fn plain_dependencies(value: Seq<char>) -> Seq<Seq<char>> {
    non_empty(split(value, ',').map_values(|entry: Seq<char>| trim(entry)))
}

/// The services that a container with these labels depends on. The label of
/// Compose counts before the plain one.
pub open spec fn dependencies_of(labels: Map<Seq<char>, String>) -> Seq<Seq<char>> {
    if labels.contains_key("com.docker.compose.depends_on"@) {
        compose_dependencies(labels["com.docker.compose.depends_on"@]@)
    } else if labels.contains_key("rawrr.depends_on"@) {
        plain_dependencies(labels["rawrr.depends_on"@]@)
    } else {
        Seq::empty()
    }
}

/// Reads a Compose dependency list.
fn read_compose_dependencies(value: &str) -> (names: Vec<String>)
    ensures
        views(names@) == compose_dependencies(value@),
{
    let entries: Vec<String> = split_text(value, ',');
    let ghost wanted = split(value@, ',').map_values(
        |entry: Seq<char>| entry.take(first_of(entry, ':')),
    );
    let mut names: Vec<String> = Vec::new();
    let mut i: usize = 0;
    assert(views(names@) =~= non_empty(wanted.take(0)));
    while i < entries.len()
        invariant
            i <= entries.len(),
            views(entries@) == split(value@, ','),
            wanted == split(value@, ',').map_values(
                |entry: Seq<char>| entry.take(first_of(entry, ':')),
            ),
            views(names@) == non_empty(wanted.take(i as int)),
        decreases entries.len() - i,
    {
        let entry: &str = entries[i].as_str();
        proof {
            lemma_first_of(entry@, ':');
            assert(views(entries@)[i as int] == entry@);
            assert(wanted.take(i + 1).drop_last() =~= wanted.take(i as int));
        }
        let end: usize = match find_char(entry, ':') {
            Some(k) => k,
            None => entry.unicode_len(),
        };
        let name: &str = entry.substring_char(0, end);
        assert(name@ =~= wanted[i as int]);
        if !name.is_empty() {
            let ghost before = names@;
            names.push(name.to_owned());
            assert(views(names@) =~= views(before).push(name@));
        }
        i = i + 1;
    }
    assert(wanted.take(i as int) =~= wanted);
    names
}

/// Reads a plain dependency list.
fn read_plain_dependencies(value: &str) -> (names: Vec<String>)
    ensures
        views(names@) == plain_dependencies(value@),
{
    let entries: Vec<String> = split_text(value, ',');
    let ghost wanted = split(value@, ',').map_values(|entry: Seq<char>| trim(entry));
    let mut names: Vec<String> = Vec::new();
    let mut i: usize = 0;
    assert(views(names@) =~= non_empty(wanted.take(0)));
    while i < entries.len()
        invariant
            i <= entries.len(),
            views(entries@) == split(value@, ','),
            wanted == split(value@, ',').map_values(|entry: Seq<char>| trim(entry)),
            views(names@) == non_empty(wanted.take(i as int)),
        decreases entries.len() - i,
    {
        let name: &str = trim_text(entries[i].as_str());
        proof {
            assert(views(entries@)[i as int] == entries@[i as int]@);
            assert(wanted[i as int] == name@);
            assert(wanted.take(i + 1).drop_last() =~= wanted.take(i as int));
        }
        if !name.is_empty() {
            let ghost before = names@;
            names.push(name.to_owned());
            assert(views(names@) =~= views(before).push(name@));
        }
        i = i + 1;
    }
    assert(wanted.take(i as int) =~= wanted);
    names
}

/// The services that a container with these labels depends on.
pub fn parse_depends_on(labels: &NameMap<String>) -> (names: Vec<String>)
    ensures
        views(names@) == dependencies_of(labels@),
{
    match labels.get("com.docker.compose.depends_on") {
        Some(value) => {
            return read_compose_dependencies(value.as_str());
        },
        None => {},
    }
    match labels.get("rawrr.depends_on") {
        Some(value) => {
            return read_plain_dependencies(value.as_str());
        },
        None => {},
    }
    let names: Vec<String> = Vec::new();
    assert(views(names@) =~= Seq::<Seq<char>>::empty());
    names
}

/// Position of the last upgrade of the named service, or `-1` if there is
/// none.
pub open spec fn position_of(upgrades: Seq<PendingUpgrade>, name: Seq<char>) -> int
    decreases upgrades.len(),
{
    if upgrades.len() == 0 || upgrades.last().service_name@ == name {
        upgrades.len() - 1
    } else {
        position_of(upgrades.drop_last(), name)
    }
}

/// The positions of the named services, as far as they are among the upgrades.
pub open spec fn positions_of(
    upgrades: Seq<PendingUpgrade>,
    names: Seq<Seq<char>>,
) -> Seq<int>
    decreases names.len(),
{
    if names.len() == 0 {
        Seq::empty()
    } else {
        let rest = positions_of(upgrades, names.drop_last());
        let i = position_of(upgrades, names.last());
        if i >= 0 {
            rest.push(i)
        } else {
            rest
        }
    }
}

/// The dependencies among the upgrades, by position.
pub open spec fn dependency_graph(upgrades: Seq<PendingUpgrade>) -> Seq<Seq<int>> {
    Seq::new(
        upgrades.len(),
        |i: int| positions_of(upgrades, views(upgrades[i].depends_on@)),
    )
}

/// The order in which the upgraded services are started.
pub open spec fn start_order(upgrades: Seq<PendingUpgrade>) -> Seq<int> {
    dependency_order(dependency_graph(upgrades))
}

pub proof fn lemma_position_of(upgrades: Seq<PendingUpgrade>, name: Seq<char>)
    ensures
        -1 <= position_of(upgrades, name) < upgrades.len(),
        position_of(upgrades, name) >= 0 ==> upgrades[position_of(upgrades, name)].service_name@
            == name,
        forall|k: int|
            position_of(upgrades, name) < k < upgrades.len() ==> (#[trigger] upgrades[k]).service_name@
                != name,
    decreases upgrades.len(),
{
    if upgrades.len() == 0 || upgrades.last().service_name@ == name {
    } else {
        let r = upgrades.drop_last();
        lemma_position_of(r, name);
        assert forall|k: int| position_of(upgrades, name) < k < upgrades.len() implies (
        #[trigger] upgrades[k]).service_name@ != name by {
            if k < r.len() {
                assert(r[k].service_name@ != name);
            }
        }
    }
}

/// The named services are found, and nothing else.
pub proof fn lemma_positions_of(upgrades: Seq<PendingUpgrade>, names: Seq<Seq<char>>)
    ensures
        forall|k: int|
            0 <= k < positions_of(upgrades, names).len() ==> 0 <= #[trigger] positions_of(
                upgrades,
                names,
            )[k] < upgrades.len() && names.contains(
                upgrades[positions_of(upgrades, names)[k]].service_name@,
            ),
        forall|m: int|
            0 <= m < names.len() && position_of(upgrades, #[trigger] names[m]) >= 0
                ==> positions_of(upgrades, names).contains(position_of(upgrades, names[m])),
    decreases names.len(),
{
    if names.len() > 0 {
        let r = names.drop_last();
        lemma_positions_of(upgrades, r);
        lemma_position_of(upgrades, names.last());
        let i = position_of(upgrades, names.last());
        let rest = positions_of(upgrades, r);
        let all = positions_of(upgrades, names);
        assert forall|k: int| 0 <= k < all.len() implies 0 <= #[trigger] all[k] < upgrades.len()
            && names.contains(upgrades[all[k]].service_name@) by {
            if k < rest.len() {
                assert(all[k] == rest[k]);
                let name = upgrades[rest[k]].service_name@;
                let m = choose|m: int| 0 <= m < r.len() && r[m] == name;
                assert(names[m] == name);
            } else {
                assert(names[names.len() - 1] == names.last());
            }
        }
        assert forall|m: int| 0 <= m < names.len() && position_of(
            upgrades,
            #[trigger] names[m],
        ) >= 0 implies all.contains(position_of(upgrades, names[m])) by {
            if m < r.len() {
                let j = position_of(upgrades, r[m]);
                assert(rest.contains(j));
                let k = choose|k: int| 0 <= k < rest.len() && rest[k] == j;
                assert(all[k] == j);
            } else {
                assert(all[rest.len() as int] == i);
            }
        }
    }
}

/// Dependencies are positions among the upgrades.
pub proof fn lemma_dependency_graph_closed(upgrades: Seq<PendingUpgrade>)
    ensures
        closed_graph(dependency_graph(upgrades)),
        dependency_graph(upgrades).len() == upgrades.len(),
{
    let g = dependency_graph(upgrades);
    assert forall|i: int, k: int| 0 <= i < g.len() && 0 <= k < g[i].len() implies 0
        <= #[trigger] g[i][k] < g.len() by {
        lemma_positions_of(upgrades, views(upgrades[i].depends_on@));
    }
}

/// Position of the last upgrade of the named service.
fn find_upgrade(upgrades: &[&PendingUpgrade], name: &String) -> (found: Option<usize>)
    ensures
        match found {
            Some(i) => i == position_of(upgrades@.unref(), name@),
            None => position_of(upgrades@.unref(), name@) == -1,
        },
{
    let ghost all = upgrades@.unref();
    let mut i: usize = upgrades.len();
    assert(all.take(i as int) =~= all);
    while i > 0
        invariant
            i <= upgrades.len(),
            all == upgrades@.unref(),
            position_of(all.take(i as int), name@) == position_of(all, name@),
        decreases i,
    {
        assert(all.take(i as int).drop_last() =~= all.take(i - 1));
        assert(all.take(i as int).last() == *upgrades@[i - 1]);
        i = i - 1;
        if upgrades[i].service_name == *name {
            return Some(i);
        }
    }
    None
}

/// The order in which the upgraded services are started: those that others
/// depend on first. Services in or behind a cycle of dependencies come last.
pub fn topological_sort(upgrades: &[&PendingUpgrade]) -> (order: Vec<usize>)
    ensures
        ints(order@) == start_order(upgrades@.unref()),
{
    let ghost all = upgrades@.unref();
    let ghost g = dependency_graph(all);
    let n: usize = upgrades.len();
    let mut dependencies: Vec<Vec<usize>> = Vec::new();
    let mut i: usize = 0;
    while i < n
        invariant
            n == upgrades.len(),
            i <= n,
            all == upgrades@.unref(),
            g == dependency_graph(all),
            dependencies.len() == i,
            forall|j: int| 0 <= j < i ==> ints((#[trigger] dependencies@[j])@) == g[j],
        decreases n - i,
    {
        let names: &Vec<String> = &upgrades[i].depends_on;
        let ghost wanted = views(names@);
        let mut found: Vec<usize> = Vec::new();
        let mut k: usize = 0;
        assert(ints(found@) =~= positions_of(all, wanted.take(0)));
        while k < names.len()
            invariant
                k <= names.len(),
                all == upgrades@.unref(),
                wanted == views(names@),
                ints(found@) == positions_of(all, wanted.take(k as int)),
            decreases names.len() - k,
        {
            proof {
                assert(wanted.take(k + 1).drop_last() =~= wanted.take(k as int));
                assert(wanted.take(k + 1).last() == names@[k as int]@);
            }
            match find_upgrade(upgrades, &names[k]) {
                Some(j) => {
                    let ghost before = found@;
                    found.push(j);
                    assert(ints(found@) =~= ints(before).push(j as int));
                },
                None => {},
            }
            k = k + 1;
        }
        assert(wanted.take(k as int) =~= wanted);
        dependencies.push(found);
        i = i + 1;
    }
    proof {
        lemma_dependency_graph_closed(all);
        assert(graph(dependencies@) =~= g);
    }
    sort_by_dependency(&dependencies)
}

/// Every service is started exactly once.
pub proof fn law_every_service_started_once(upgrades: Seq<PendingUpgrade>)
    ensures
        start_order(upgrades).no_duplicates(),
        start_order(upgrades).len() == upgrades.len(),
        forall|i: int| #[trigger]
            start_order(upgrades).contains(i) <==> 0 <= i < upgrades.len(),
{
    lemma_dependency_graph_closed(upgrades);
    law_order_is_a_permutation(dependency_graph(upgrades));
}

/// Without cycles of dependencies, the service at position `b` of the order
/// starts after the service at position `a` if it names that service as a
/// dependency. Of several upgrades under one name the last is meant.
pub proof fn law_dependencies_start_first(
    upgrades: Seq<PendingUpgrade>,
    rank: spec_fn(int) -> nat,
    a: int,
    b: int,
)
    requires
        ranks(dependency_graph(upgrades), rank),
        0 <= a < upgrades.len(),
        0 <= b < upgrades.len(),
        ({
            let name = upgrades[start_order(upgrades)[a]].service_name@;
            &&& views(upgrades[start_order(upgrades)[b]].depends_on@).contains(name)
            &&& position_of(upgrades, name) == start_order(upgrades)[a]
        }),
    ensures
        a < b,
{
    let g = dependency_graph(upgrades);
    let order = start_order(upgrades);
    lemma_dependency_graph_closed(upgrades);
    law_order_is_a_permutation(g);
    law_dependencies_first(g, rank);
    assert(order.contains(order[a]));
    assert(order.contains(order[b]));
    let names = views(upgrades[order[b]].depends_on@);
    let name = upgrades[order[a]].service_name@;
    lemma_positions_of(upgrades, names);
    let m = choose|m: int| 0 <= m < names.len() && names[m] == name;
    assert(position_of(upgrades, names[m]) >= 0);
    assert(g[order[b]].contains(order[a]));
}

} // verus!
