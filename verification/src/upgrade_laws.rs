//! What holds of the dependencies that labels name, and of the order of start.

use crate::order::{
    closed_graph, dependency_order, lemma_queue_grows, lemma_select, queue_after, resolved, select,
};
use crate::text::{
    first_of, lemma_first_of_is, lemma_split_join, lemma_split_whole, lemma_trim_parts, split, trim,
    white_space,
};
use crate::upgrade::{compose_dependencies, dependencies_of, non_empty, plain_dependencies};
use vstd::prelude::*;

verus! {

/// Texts joined by a separator.
pub open spec fn joined(texts: Seq<Seq<char>>, sep: char) -> Seq<char>
    decreases texts.len(),
{
    if texts.len() == 0 {
        Seq::empty()
    } else if texts.len() == 1 {
        texts[0]
    } else {
        joined(texts.drop_last(), sep) + seq![sep] + texts.last()
    }
}

/// Texts joined by a separator that none of them holds are split into these.
pub proof fn law_joined_texts_are_split(texts: Seq<Seq<char>>, sep: char)
    requires
        texts.len() > 0,
        forall|k: int| 0 <= k < texts.len() ==> !(#[trigger] texts[k]).contains(sep),
    ensures
        split(joined(texts, sep), sep) == texts,
    decreases texts.len(),
{
    if texts.len() == 1 {
        lemma_split_whole(texts[0], sep);
        assert(seq![texts[0]] =~= texts);
    } else {
        let r = texts.drop_last();
        assert forall|k: int| 0 <= k < r.len() implies !(#[trigger] r[k]).contains(sep) by {
            assert(!texts[k].contains(sep));
        }
        law_joined_texts_are_split(r, sep);
        lemma_split_join(joined(r, sep), texts.last(), sep);
        assert(!texts[texts.len() - 1].contains(sep));
        lemma_split_whole(texts.last(), sep);
        assert(r + seq![texts.last()] =~= texts);
    }
}

proof fn lemma_non_empty_all(texts: Seq<Seq<char>>)
    requires
        forall|k: int| 0 <= k < texts.len() ==> (#[trigger] texts[k]).len() > 0,
    ensures
        non_empty(texts) == texts,
    decreases texts.len(),
{
    if texts.len() > 0 {
        let r = texts.drop_last();
        assert forall|k: int| 0 <= k < r.len() implies (#[trigger] r[k]).len() > 0 by {
            assert(texts[k].len() > 0);
        }
        lemma_non_empty_all(r);
        assert(texts[texts.len() - 1].len() > 0);
        assert(r.push(texts.last()) =~= texts);
    }
}

proof fn lemma_non_empty_add(a: Seq<Seq<char>>, b: Seq<Seq<char>>)
    ensures
        non_empty(a + b) == non_empty(a) + non_empty(b),
    decreases b.len(),
{
    if b.len() == 0 {
        assert(a + b =~= a);
        assert(non_empty(a) + non_empty(b) =~= non_empty(a));
    } else {
        lemma_non_empty_add(a, b.drop_last());
        assert((a + b).drop_last() =~= a + b.drop_last());
        assert(non_empty(a + b) =~= non_empty(a) + non_empty(b));
    }
}

/// What a Compose dependency list says of a container, if the entries are made
/// of these names, each with something behind it that begins with `:`, such as
/// a condition and a flag, or with nothing behind it.
pub open spec fn compose_entries(
    names: Seq<Seq<char>>,
    details: Seq<Seq<char>>,
) -> Seq<Seq<char>> {
    Seq::new(names.len(), |k: int| names[k] + details[k])
}

/// The Compose label names exactly the services that its entries begin with, in
/// their order, whatever stands behind the `:` of each entry. It counts before
/// the plain label.
pub proof fn law_compose_dependencies_read_back(
    labels: Map<Seq<char>, String>,
    names: Seq<Seq<char>>,
    details: Seq<Seq<char>>,
)
    requires
        names.len() > 0,
        details.len() == names.len(),
        forall|k: int|
            0 <= k < names.len() ==> (#[trigger] names[k]).len() > 0 && !names[k].contains(',')
                && !names[k].contains(':'),
        forall|k: int|
            0 <= k < details.len() ==> !(#[trigger] details[k]).contains(',') && (
            details[k].len() == 0 || details[k][0] == ':'),
        labels.contains_key("com.docker.compose.depends_on"@),
        labels["com.docker.compose.depends_on"@]@ == joined(compose_entries(names, details), ','),
    ensures
        dependencies_of(labels) == names,
{
    let entries = compose_entries(names, details);
    assert forall|k: int| 0 <= k < entries.len() implies !(#[trigger] entries[k]).contains(',') by {
        if entries[k].contains(',') {
            let m = choose|m: int| 0 <= m < entries[k].len() && entries[k][m] == ',';
            if m < names[k].len() {
                assert(names[k][m] == ',');
            } else {
                assert(details[k][m - names[k].len()] == ',');
            }
        }
    }
    law_joined_texts_are_split(entries, ',');
    let wanted = entries.map_values(
        |entry: Seq<char>| entry.take(first_of(entry, ':')),
    );
    assert forall|k: int| 0 <= k < names.len() implies #[trigger] wanted[k] == names[k] by {
        let entry = entries[k];
        let n = names[k].len() as int;
        assert forall|m: int| 0 <= m < n implies entry[m] != ':' by {
            assert(entry[m] == names[k][m]);
            assert(names[k].contains(names[k][m]));
        }
        if n < entry.len() {
            assert(entry[n] == details[k][0]);
        }
        lemma_first_of_is(entry, ':', n);
        assert(entry.take(n) =~= names[k]);
    }
    assert(wanted =~= names);
    lemma_non_empty_all(names);
}

/// Compose lists that are joined by a comma name what both name.
pub proof fn law_compose_lists_join(a: Seq<char>, b: Seq<char>)
    ensures
        compose_dependencies(a + seq![','] + b) == compose_dependencies(a)
            + compose_dependencies(b),
{
    let f = |entry: Seq<char>| entry.take(first_of(entry, ':'));
    lemma_split_join(a, b, ',');
    assert((split(a, ',') + split(b, ',')).map_values(f) =~= split(a, ',').map_values(f) + split(
        b,
        ',',
    ).map_values(f));
    lemma_non_empty_add(split(a, ',').map_values(f), split(b, ',').map_values(f));
}

/// An entry without a name names nothing: an empty one, or one that begins with
/// `:`.
pub proof fn law_nameless_entry_names_nothing(entry: Seq<char>)
    requires
        !entry.contains(','),
        entry.len() == 0 || entry[0] == ':',
    ensures
        compose_dependencies(entry).len() == 0,
{
    let f = |e: Seq<char>| e.take(first_of(e, ':'));
    lemma_split_whole(entry, ',');
    let wanted = seq![entry].map_values(f);
    assert(wanted.last() =~= Seq::empty());
    assert(wanted.drop_last() =~= Seq::empty());
    assert(non_empty(wanted.drop_last()).len() == 0);
}

/// The entries of a plain dependency list: names with white space around them.
pub open spec fn spaced(
    before: Seq<Seq<char>>,
    names: Seq<Seq<char>>,
    after: Seq<Seq<char>>,
) -> Seq<Seq<char>> {
    Seq::new(names.len(), |k: int| before[k] + names[k] + after[k])
}

/// A piece of white space without a comma.
pub open spec fn is_space(s: Seq<char>) -> bool {
    forall|k: int| 0 <= k < s.len() ==> white_space(#[trigger] s[k])
}

/// Without the Compose label, the plain label names exactly the services that
/// it lists, in their order, with white space around them or not.
pub proof fn law_plain_dependencies_read_back(
    labels: Map<Seq<char>, String>,
    before: Seq<Seq<char>>,
    names: Seq<Seq<char>>,
    after: Seq<Seq<char>>,
)
    requires
        names.len() > 0,
        before.len() == names.len(),
        after.len() == names.len(),
        forall|k: int|
            0 <= k < names.len() ==> (#[trigger] names[k]).len() > 0 && !names[k].contains(',')
                && !white_space(names[k][0]) && !white_space(names[k].last()),
        forall|k: int| 0 <= k < before.len() ==> is_space(#[trigger] before[k]),
        forall|k: int| 0 <= k < after.len() ==> is_space(#[trigger] after[k]),
        !labels.contains_key("com.docker.compose.depends_on"@),
        labels.contains_key("rawrr.depends_on"@),
        labels["rawrr.depends_on"@]@ == joined(spaced(before, names, after), ','),
    ensures
        dependencies_of(labels) == names,
{
    let entries = spaced(before, names, after);
    assert forall|k: int| 0 <= k < entries.len() implies !(#[trigger] entries[k]).contains(',') by {
        assert(is_space(before[k]) && is_space(after[k]));
        if entries[k].contains(',') {
            let m = choose|m: int| 0 <= m < entries[k].len() && entries[k][m] == ',';
            let a = before[k].len();
            let b = names[k].len();
            if m < a {
                assert(white_space(before[k][m]));
            } else if m < a + b {
                assert(names[k][m - a] == ',');
            } else {
                assert(white_space(after[k][m - a - b]));
            }
        }
    }
    law_joined_texts_are_split(entries, ',');
    let wanted = entries.map_values(|entry: Seq<char>| trim(entry));
    assert forall|k: int| 0 <= k < names.len() implies #[trigger] wanted[k] == names[k] by {
        assert(is_space(before[k]) && is_space(after[k]));
        lemma_trim_parts(before[k], names[k], after[k]);
    }
    assert(wanted =~= names);
    lemma_non_empty_all(names);
}

/// Plain lists that are joined by a comma name what both name.
pub proof fn law_plain_lists_join(a: Seq<char>, b: Seq<char>)
    ensures
        plain_dependencies(a + seq![','] + b) == plain_dependencies(a) + plain_dependencies(b),
{
    let f = |entry: Seq<char>| trim(entry);
    lemma_split_join(a, b, ',');
    assert((split(a, ',') + split(b, ',')).map_values(f) =~= split(a, ',').map_values(f) + split(
        b,
        ',',
    ).map_values(f));
    lemma_non_empty_add(split(a, ',').map_values(f), split(b, ',').map_values(f));
}

/// A container without either label depends on nothing.
pub proof fn law_no_label_no_dependencies(labels: Map<Seq<char>, String>)
    requires
        !labels.contains_key("com.docker.compose.depends_on"@),
        !labels.contains_key("rawrr.depends_on"@),
    ensures
        dependencies_of(labels).len() == 0,
{
}

/// Without dependencies the order is kept.
pub proof fn law_independent_nodes_keep_their_order(g: Seq<Seq<int>>, k: int)
    requires
        closed_graph(g),
        forall|i: int| 0 <= i < g.len() ==> (#[trigger] g[i]).len() == 0,
        0 <= k < g.len(),
    ensures
        dependency_order(g)[k] == k,
{
    let free = |i: int| g[i].len() == 0;
    let first = select(g.len() as int, free);
    lemma_select_all(g.len() as int, free);
    assert(queue_after(g, 0) == first);
    lemma_queue_grows(g, 0, g.len());
    assert(resolved(g)[k] == first[k]);
}

proof fn lemma_select_all(n: int, p: spec_fn(int) -> bool)
    requires
        0 <= n,
        forall|i: int| 0 <= i < n ==> #[trigger] p(i),
    ensures
        select(n, p).len() == n,
        forall|k: int| 0 <= k < n ==> select(n, p)[k] == k,
    decreases n,
{
    if n > 0 {
        lemma_select_all(n - 1, p);
        assert(p(n - 1));
    }
}

/// What is in or behind a cycle of dependencies comes last, in its order.
pub proof fn law_unresolved_nodes_come_last_in_order(g: Seq<Seq<int>>, a: int, b: int)
    requires
        closed_graph(g),
        resolved(g).len() <= a < b < dependency_order(g).len(),
    ensures
        dependency_order(g)[a] < dependency_order(g)[b],
        dependency_order(g).take(resolved(g).len() as int) == resolved(g),
{
    let q = resolved(g);
    let p = |i: int| !q.contains(i);
    lemma_select(g.len() as int, p);
    let rest = select(g.len() as int, p);
    assert(dependency_order(g) =~= q + rest);
    assert(rest[a - q.len()] < rest[b - q.len()]);
    assert(dependency_order(g).take(q.len() as int) =~= q);
}

} // verus!
