//! Ordering of the nodes of a dependency graph.
//!
//! A graph is the list of the dependencies of each node: `g[i]` holds the
//! nodes that `i` depends on, possibly more than once.

use std::collections::VecDeque;
use vstd::prelude::*;

verus! {

/// A list of indices as integers.
pub open spec fn ints(list: Seq<usize>) -> Seq<int> {
    list.map_values(|i: usize| i as int)
}

/// The graph that is held as lists of indices.
pub open spec fn graph(lists: Seq<Vec<usize>>) -> Seq<Seq<int>> {
    lists.map_values(|list: Vec<usize>| ints(list@))
}

/// The numbers below `n` that satisfy `p`, ascending.
pub open spec fn select(n: int, p: spec_fn(int) -> bool) -> Seq<int>
    decreases n,
{
    if n <= 0 {
        Seq::empty()
    } else if p(n - 1) {
        select(n - 1, p).push(n - 1)
    } else {
        select(n - 1, p)
    }
}

/// Whether node `i` becomes ready when the node at position `h` of the queue
/// `q` is taken: `i` depends on it, and on no node behind it.
pub open spec fn released(g: Seq<Seq<int>>, q: Seq<int>, h: int, i: int) -> bool {
    &&& g[i].contains(q[h])
    &&& forall|k: int| 0 <= k < g[i].len() ==> q.take(h + 1).contains(#[trigger] g[i][k])
}

/// The queue of ready nodes once `h` nodes have been taken from its front:
/// first the nodes without dependencies, then, for each node taken, the nodes
/// that it releases. Taken nodes stay in place.
pub open spec fn queue_after(g: Seq<Seq<int>>, h: nat) -> Seq<int>
    decreases h,
{
    if h == 0 {
        select(g.len() as int, |i: int| g[i].len() == 0)
    } else {
        let q = queue_after(g, (h - 1) as nat);
        if h - 1 < q.len() {
            q + select(g.len() as int, |i: int| released(g, q, h - 1, i))
        } else {
            q
        }
    }
}

/// The nodes that can be placed behind all their dependencies, in the order in
/// which they become ready.
pub open spec fn resolved(g: Seq<Seq<int>>) -> Seq<int> {
    queue_after(g, g.len())
}

/// All nodes: the resolved ones, then the others in ascending order.
pub open spec fn dependency_order(g: Seq<Seq<int>>) -> Seq<int> {
    resolved(g) + select(g.len() as int, |i: int| !resolved(g).contains(i))
}

/// Every dependency is a node of the graph.
pub open spec fn closed_graph(g: Seq<Seq<int>>) -> bool {
    forall|i: int, k: int|
        0 <= i < g.len() && 0 <= k < g[i].len() ==> 0 <= #[trigger] g[i][k] < g.len()
}

/// The list is strictly ascending.
pub open spec fn ascending(s: Seq<int>) -> bool {
    forall|a: int, b: int| 0 <= a < b < s.len() ==> s[a] < s[b]
}

pub proof fn lemma_select(n: int, p: spec_fn(int) -> bool)
    ensures
        ascending(select(n, p)),
        forall|i: int| #[trigger] select(n, p).contains(i) <==> 0 <= i < n && p(i),
    decreases n,
{
    if n > 0 {
        lemma_select(n - 1, p);
        let s = select(n - 1, p);
        assert forall|a: int| 0 <= a < s.len() implies 0 <= #[trigger] s[a] < n - 1 by {
            assert(s.contains(s[a]));
        }
        if p(n - 1) {
            let t = select(n, p);
            assert forall|i: int| #[trigger] t.contains(i) <==> 0 <= i < n && p(i) by {
                if s.contains(i) {
                    let a = choose|a: int| 0 <= a < s.len() && s[a] == i;
                    assert(t[a] == i);
                }
                if i == n - 1 {
                    assert(t[t.len() - 1] == i);
                }
            }
        }
    }
}

/// Two ascending lists of the same numbers are the same list.
pub proof fn lemma_ascending_unique(s: Seq<int>, t: Seq<int>)
    requires
        ascending(s),
        ascending(t),
        forall|i: int| #[trigger] s.contains(i) <==> t.contains(i),
    ensures
        s == t,
    decreases s.len(),
{
    if s.len() == 0 {
        if t.len() > 0 {
            assert(t.contains(t[0]));
            assert(s.contains(t[0]));
        }
        assert(s =~= t);
    } else {
        assert(s.contains(s.last()));
        assert(t.contains(s.last()));
        assert(t.contains(t.last()));
        assert(s.contains(t.last()));
        let a = choose|a: int| 0 <= a < t.len() && t[a] == s.last();
        let b = choose|b: int| 0 <= b < s.len() && s[b] == t.last();
        assert(s.last() == t.last());
        let s1 = s.drop_last();
        let t1 = t.drop_last();
        assert forall|i: int| #[trigger] s1.contains(i) <==> t1.contains(i) by {
            if s1.contains(i) {
                let k = choose|k: int| 0 <= k < s1.len() && s1[k] == i;
                assert(s[k] == i);
                assert(s.contains(i));
                assert(t.contains(i));
                let m = choose|m: int| 0 <= m < t.len() && t[m] == i;
                assert(t1[m] == i);
            }
            if t1.contains(i) {
                let k = choose|k: int| 0 <= k < t1.len() && t1[k] == i;
                assert(t[k] == i);
                assert(t.contains(i));
                assert(s.contains(i));
                let m = choose|m: int| 0 <= m < s.len() && s[m] == i;
                assert(s1[m] == i);
            }
        }
        lemma_ascending_unique(s1, t1);
        assert(s =~= s1.push(s.last()));
        assert(t =~= t1.push(t.last()));
    }
}

/// The queue holds nodes, none twice, each behind all its dependencies; and
/// all these dependencies have been taken.
pub proof fn lemma_queue(g: Seq<Seq<int>>, h: nat)
    requires
        closed_graph(g),
    ensures
        queue_after(g, h).no_duplicates(),
        forall|a: int| 0 <= a < queue_after(g, h).len() ==> 0 <= #[trigger] queue_after(g, h)[a]
            < g.len(),
        forall|a: int, k: int|
            0 <= a < queue_after(g, h).len() && 0 <= k < g[queue_after(g, h)[a]].len()
                ==> queue_after(g, h).take(a).contains(#[trigger] g[queue_after(g, h)[a]][k]),
        forall|a: int, k: int|
            0 <= a < queue_after(g, h).len() && 0 <= k < g[queue_after(g, h)[a]].len()
                ==> queue_after(g, h).take(h as int).contains(
                #[trigger] g[queue_after(g, h)[a]][k],
            ) || h >= queue_after(g, h).len(),
    decreases h,
{
    let q = queue_after(g, h);
    let n = g.len() as int;
    if h == 0 {
        let p = |i: int| g[i].len() == 0;
        lemma_select(n, p);
        assert forall|a: int| 0 <= a < q.len() implies 0 <= #[trigger] q[a] < n && g[q[a]].len()
            == 0 by {
            assert(select(n, p).contains(q[a]));
        }
    } else {
        let old_q = queue_after(g, (h - 1) as nat);
        lemma_queue(g, (h - 1) as nat);
        if h - 1 < old_q.len() {
            let p = |i: int| released(g, old_q, h - 1, i);
            let fresh = select(n, p);
            lemma_select(n, p);
            assert forall|a: int| 0 <= a < fresh.len() implies 0 <= #[trigger] fresh[a] < n
                && released(g, old_q, h - 1, fresh[a]) && !old_q.contains(fresh[a]) by {
                assert(fresh.contains(fresh[a]));
                let i = fresh[a];
                let k = choose|k: int| 0 <= k < g[i].len() && g[i][k] == old_q[h - 1];
                assert(g[i][k] == old_q[h - 1]);
                if old_q.contains(i) {
                    let b = choose|b: int| 0 <= b < old_q.len() && old_q[b] == i;
                    assert(g[old_q[b]][k] == old_q[h - 1]);
                    let front = old_q.take(h - 1);
                    let x = old_q[h - 1];
                    assert(front.contains(g[old_q[b]][k]));
                    let c = choose|c: int| 0 <= c < front.len() && front[c] == x;
                    assert(old_q[c] == old_q[h - 1]);
                    assert(false);
                }
            }
            assert(q.no_duplicates()) by {
                assert forall|a: int, b: int| 0 <= a < b < q.len() implies q[a] != q[b] by {
                    if b < old_q.len() {
                    } else if a >= old_q.len() {
                        assert(fresh[a - old_q.len()] < fresh[b - old_q.len()]);
                    } else {
                        assert(old_q.contains(old_q[a]));
                        assert(!old_q.contains(fresh[b - old_q.len()]));
                    }
                }
            }
            assert forall|a: int, k: int|
                0 <= a < q.len() && 0 <= k < g[q[a]].len() implies q.take(a).contains(
                #[trigger] g[q[a]][k],
            ) && q.take(h as int).contains(g[q[a]][k]) by {
                let d = g[q[a]][k];
                if a < old_q.len() {
                    assert(g[old_q[a]][k] == d);
                    assert(old_q.take(a) =~= q.take(a));
                    let front = old_q.take(h - 1);
                    assert(front.contains(d));
                    let c = choose|c: int| 0 <= c < front.len() && front[c] == d;
                    assert(q.take(h as int)[c] == d);
                } else {
                    let i = fresh[a - old_q.len()];
                    assert(released(g, old_q, h - 1, i));
                    let front = old_q.take(h as int);
                    assert(front.contains(g[i][k]));
                    let c = choose|c: int| 0 <= c < front.len() && front[c] == d;
                    assert(q.take(h as int)[c] == d);
                    assert(q.take(a)[c] == d);
                }
            }
        }
    }
}

/// Distinct nodes are no more than there are nodes.
pub proof fn lemma_distinct_len(s: Seq<int>, n: nat)
    requires
        s.no_duplicates(),
        forall|a: int| 0 <= a < s.len() ==> 0 <= #[trigger] s[a] < n,
    ensures
        s.len() <= n,
{
    let all = vstd::set_lib::set_int_range(0, n as int);
    vstd::set_lib::lemma_int_range(0, n as int);
    s.unique_seq_to_set();
    assert(s.to_set().subset_of(all));
    vstd::set_lib::lemma_len_subset(s.to_set(), all);
}

/// Once all nodes of the queue are taken, the queue stays as it is.
pub proof fn lemma_queue_stable(g: Seq<Seq<int>>, h: nat, m: nat)
    requires
        queue_after(g, h).len() <= h,
        h <= m,
    ensures
        queue_after(g, m) == queue_after(g, h),
    decreases m,
{
    if h < m {
        lemma_queue_stable(g, h, (m - 1) as nat);
    }
}

/// The queue only grows, at its end.
pub proof fn lemma_queue_grows(g: Seq<Seq<int>>, h: nat, m: nat)
    requires
        h <= m,
    ensures
        queue_after(g, h).len() <= queue_after(g, m).len(),
        queue_after(g, m).take(queue_after(g, h).len() as int) == queue_after(g, h),
    decreases m,
{
    let q = queue_after(g, h);
    if h < m {
        lemma_queue_grows(g, h, (m - 1) as nat);
        let p = queue_after(g, (m - 1) as nat);
        assert(queue_after(g, m).take(q.len() as int) =~= p.take(q.len() as int));
    } else {
        assert(q.take(q.len() as int) =~= q);
    }
}

/// A node all of whose dependencies are resolved is resolved.
pub proof fn lemma_resolved_complete(g: Seq<Seq<int>>, i: int)
    requires
        closed_graph(g),
        0 <= i < g.len(),
        forall|k: int| 0 <= k < g[i].len() ==> resolved(g).contains(#[trigger] g[i][k]),
    ensures
        resolved(g).contains(i),
{
    let q = resolved(g);
    let n = g.len();
    lemma_queue(g, n);
    lemma_distinct_len(q, n);
    if g[i].len() == 0 {
        let p = |j: int| g[j].len() == 0;
        lemma_select(n as int, p);
        assert(queue_after(g, 0).contains(i));
        lemma_queue_grows(g, 0, n);
        let a = choose|a: int| 0 <= a < queue_after(g, 0).len() && queue_after(g, 0)[a] == i;
        assert(q.take(queue_after(g, 0).len() as int)[a] == i);
        assert(q[a] == i);
    } else {
        // The dependency that is taken last releases the node.
        let h = latest(g[i], q);
        lemma_latest(g[i], q);
        let p0 = queue_after(g, h as nat);
        let p1 = queue_after(g, (h + 1) as nat);
        lemma_queue_grows(g, h as nat, n);
        assert(h < p0.len()) by {
            if p0.len() <= h {
                lemma_queue_stable(g, h as nat, n);
            }
        }
        assert(p0[h] == q[h]) by {
            assert(q.take(p0.len() as int)[h] == p0[h]);
        }
        assert forall|k: int| 0 <= k < g[i].len() implies p0.take(h + 1).contains(
            #[trigger] g[i][k],
        ) by {
            let d = g[i][k];
            let b = choose|b: int| 0 <= b <= h && b < q.len() && q[b] == d;
            assert(q.take(p0.len() as int)[b] == p0[b]);
            assert(p0.take(h + 1)[b] == d);
        }
        assert(released(g, p0, h, i));
        let p = |j: int| released(g, p0, h, j);
        lemma_select(n as int, p);
        let fresh = select(n as int, p);
        assert(fresh.contains(i));
        let a = choose|a: int| 0 <= a < fresh.len() && fresh[a] == i;
        assert(p1[p0.len() + a] == i);
        lemma_queue_grows(g, (h + 1) as nat, n);
        assert(q.take(p1.len() as int)[p0.len() + a] == i);
        assert(q[p0.len() + a] == i);
    }
}

/// The greatest position in `q` of an element of `d`.
spec fn latest(d: Seq<int>, q: Seq<int>) -> int
    decreases d.len(),
{
    if d.len() == 0 {
        -1
    } else {
        let rest = latest(d.drop_last(), q);
        let here = q.index_of(d.last());
        if here > rest {
            here
        } else {
            rest
        }
    }
}

proof fn lemma_latest(d: Seq<int>, q: Seq<int>)
    requires
        d.len() > 0,
        forall|k: int| 0 <= k < d.len() ==> q.contains(#[trigger] d[k]),
    ensures
        0 <= latest(d, q) < q.len(),
        d.contains(q[latest(d, q)]),
        forall|k: int|
            #![trigger d[k]]
            0 <= k < d.len() ==> exists|b: int| 0 <= b <= latest(d, q) && b < q.len() && q[b] == d[k],
    decreases d.len(),
{
    let here = q.index_of(d.last());
    assert(q.contains(d[d.len() - 1]));
    assert(0 <= here < q.len() && q[here] == d.last());
    assert(d.contains(d[d.len() - 1]));
    let e = d.drop_last();
    if e.len() > 0 {
        assert forall|k: int| 0 <= k < e.len() implies q.contains(#[trigger] e[k]) by {
            assert(q.contains(d[k]));
        }
        lemma_latest(e, q);
        let r = latest(e, q);
        let m = choose|m: int| 0 <= m < e.len() && e[m] == q[r];
        assert(d[m] == q[r]);
        assert forall|k: int| #![trigger d[k]] 0 <= k < d.len() implies exists|b: int|
            0 <= b <= latest(d, q) && b < q.len() && q[b] == d[k] by {
            if k < e.len() {
                assert(d[k] == e[k]);
                let b = choose|b: int| 0 <= b <= r && b < q.len() && q[b] == e[k];
                assert(q[b] == d[k]);
            } else {
                assert(q[here] == d[k]);
            }
        }
    } else {
        assert(latest(e, q) == -1);
        assert forall|k: int| #![trigger d[k]] 0 <= k < d.len() implies exists|b: int|
            0 <= b <= latest(d, q) && b < q.len() && q[b] == d[k] by {
            assert(q[here] == d[k]);
        }
    }
}

/// The order holds every node exactly once.
pub proof fn law_order_is_a_permutation(g: Seq<Seq<int>>)
    requires
        closed_graph(g),
    ensures
        dependency_order(g).no_duplicates(),
        dependency_order(g).len() == g.len(),
        forall|i: int| #[trigger] dependency_order(g).contains(i) <==> 0 <= i < g.len(),
{
    let q = resolved(g);
    let n = g.len() as int;
    let p = |i: int| !q.contains(i);
    let rest = select(n, p);
    let order = dependency_order(g);
    lemma_queue(g, g.len());
    lemma_select(n, p);
    assert(order =~= q + rest);
    assert forall|a: int| 0 <= a < rest.len() implies 0 <= #[trigger] rest[a] < n && !q.contains(
        rest[a],
    ) by {
        assert(rest.contains(rest[a]));
    }
    assert forall|a: int, b: int| 0 <= a < b < order.len() implies order[a] != order[b] by {
        if a >= q.len() {
            assert(rest[a - q.len()] < rest[b - q.len()]);
        } else if b >= q.len() {
            assert(q.contains(q[a]));
            assert(!q.contains(rest[b - q.len()]));
        }
    }
    assert forall|i: int| #[trigger] order.contains(i) <==> 0 <= i < n by {
        if order.contains(i) {
            let a = choose|a: int| 0 <= a < order.len() && order[a] == i;
            if a < q.len() {
                assert(0 <= q[a] < n);
            } else {
                assert(0 <= rest[a - q.len()] < n);
            }
        }
        if 0 <= i < n {
            if q.contains(i) {
                let a = choose|a: int| 0 <= a < q.len() && q[a] == i;
                assert(order[a] == i);
            } else {
                assert(rest.contains(i));
                let a = choose|a: int| 0 <= a < rest.len() && rest[a] == i;
                assert(order[q.len() + a] == i);
            }
        }
    }
    let all = vstd::set_lib::set_int_range(0, n);
    vstd::set_lib::lemma_int_range(0, n);
    order.unique_seq_to_set();
    assert(order.to_set() =~= all) by {
        assert forall|i: int| order.to_set().contains(i) <==> all.contains(i) by {
            assert(order.contains(i) <==> 0 <= i < n);
        }
    }
}

/// A resolved node stands behind all its dependencies, cycles elsewhere in the
/// graph notwithstanding.
pub proof fn law_resolved_after_dependencies(g: Seq<Seq<int>>, a: int, k: int)
    requires
        closed_graph(g),
        0 <= a < resolved(g).len(),
        0 <= k < g[resolved(g)[a]].len(),
    ensures
        dependency_order(g)[a] == resolved(g)[a],
        dependency_order(g).take(a).contains(g[dependency_order(g)[a]][k]),
{
    lemma_queue(g, g.len());
    let q = resolved(g);
    let d = g[q[a]][k];
    assert(q.take(a).contains(d));
    assert(dependency_order(g).take(a) =~= q.take(a));
}

/// A node is left unresolved only because of a dependency that is unresolved.
pub proof fn law_unresolved_has_unresolved_dependency(g: Seq<Seq<int>>, i: int)
    requires
        closed_graph(g),
        0 <= i < g.len(),
        !resolved(g).contains(i),
    ensures
        exists|k: int| 0 <= k < g[i].len() && !resolved(g).contains(#[trigger] g[i][k]),
{
    if forall|k: int| 0 <= k < g[i].len() ==> resolved(g).contains(#[trigger] g[i][k]) {
        lemma_resolved_complete(g, i);
    }
}

/// The graph has no cycle: some ranking puts every node above all its
/// dependencies.
pub open spec fn ranks(g: Seq<Seq<int>>, rank: spec_fn(int) -> nat) -> bool {
    forall|i: int, k: int|
        0 <= i < g.len() && 0 <= k < g[i].len() ==> rank(#[trigger] g[i][k]) < rank(i)
}

/// Without cycles every node is resolved.
pub proof fn lemma_acyclic_resolved(g: Seq<Seq<int>>, rank: spec_fn(int) -> nat, i: int)
    requires
        closed_graph(g),
        ranks(g, rank),
        0 <= i < g.len(),
    ensures
        resolved(g).contains(i),
    decreases rank(i),
{
    assert forall|k: int| 0 <= k < g[i].len() implies resolved(g).contains(#[trigger] g[i][k]) by {
        lemma_acyclic_resolved(g, rank, g[i][k]);
    }
    lemma_resolved_complete(g, i);
}

/// Without cycles the order puts every dependency before the nodes that need
/// it.
pub proof fn law_dependencies_first(g: Seq<Seq<int>>, rank: spec_fn(int) -> nat)
    requires
        closed_graph(g),
        ranks(g, rank),
    ensures
        forall|a: int, b: int|
            #![trigger dependency_order(g)[a], dependency_order(g)[b]]
            0 <= a < g.len() && 0 <= b < g.len() && g[dependency_order(g)[b]].contains(
                dependency_order(g)[a],
            ) ==> a < b,
{
    let order = dependency_order(g);
    let q = resolved(g);
    law_order_is_a_permutation(g);
    assert forall|a: int, b: int|
        #![trigger order[a], order[b]]
        0 <= a < g.len() && 0 <= b < g.len() && g[order[b]].contains(order[a]) implies a < b by {
        let i = order[b];
        assert(order.contains(i));
        lemma_acyclic_resolved(g, rank, i);
        let c = choose|c: int| 0 <= c < q.len() && q[c] == i;
        assert(order[c] == i);
        assert(c == b);
        let k = choose|k: int| 0 <= k < g[i].len() && g[i][k] == order[a];
        law_resolved_after_dependencies(g, b, k);
        let front = order.take(b);
        let m = choose|m: int| 0 <= m < front.len() && front[m] == order[a];
        assert(order[m] == order[a]);
    }
}

/// How often `x` occurs in `s`.
spec fn occurrences(s: Seq<int>, x: int) -> nat
    decreases s.len(),
{
    if s.len() == 0 {
        0
    } else {
        occurrences(s.drop_last(), x) + if s.last() == x {
            1nat
        } else {
            0
        }
    }
}

/// How many entries of `s` are not in `done`.
spec fn outstanding(s: Seq<int>, done: Seq<int>) -> nat
    decreases s.len(),
{
    if s.len() == 0 {
        0
    } else {
        outstanding(s.drop_last(), done) + if done.contains(s.last()) {
            0nat
        } else {
            1
        }
    }
}

proof fn lemma_occurrences(s: Seq<int>, x: int)
    ensures
        occurrences(s, x) > 0 <==> s.contains(x),
        occurrences(s, x) <= s.len(),
    decreases s.len(),
{
    if s.len() > 0 {
        let r = s.drop_last();
        lemma_occurrences(r, x);
        if s.contains(x) {
            let a = choose|a: int| 0 <= a < s.len() && s[a] == x;
            if a < r.len() {
                assert(r[a] == x);
            }
        }
        if r.contains(x) {
            let a = choose|a: int| 0 <= a < r.len() && r[a] == x;
            assert(s[a] == x);
        }
        if s.last() == x {
            assert(s[s.len() - 1] == x);
        }
    }
}

proof fn lemma_occurrences_take(s: Seq<int>, t: int, x: int)
    requires
        0 <= t < s.len(),
    ensures
        occurrences(s.take(t + 1), x) == occurrences(s.take(t), x) + if s[t] == x {
            1nat
        } else {
            0
        },
        occurrences(s.take(t + 1), x) <= occurrences(s, x),
    decreases s.len(),
{
    assert(s.take(t + 1).drop_last() =~= s.take(t));
    if t + 1 == s.len() {
        assert(s.take(t + 1) =~= s);
    } else {
        let r = s.drop_last();
        lemma_occurrences_take(r, t, x);
        assert(r.take(t + 1) =~= s.take(t + 1));
    }
}

proof fn lemma_outstanding_push(s: Seq<int>, done: Seq<int>, x: int)
    requires
        !done.contains(x),
    ensures
        outstanding(s, done.push(x)) + occurrences(s, x) == outstanding(s, done),
    decreases s.len(),
{
    if s.len() > 0 {
        lemma_outstanding_push(s.drop_last(), done, x);
        let y = s.last();
        let more = done.push(x);
        if done.contains(y) {
            let a = choose|a: int| 0 <= a < done.len() && done[a] == y;
            assert(more[a] == y);
        }
        if more.contains(y) {
            let a = choose|a: int| 0 <= a < more.len() && more[a] == y;
            if a < done.len() {
                assert(done[a] == y);
            }
        }
        assert(more[done.len() as int] == x);
    }
}

proof fn lemma_outstanding_none(s: Seq<int>, done: Seq<int>)
    ensures
        outstanding(s, done) == 0 <==> forall|k: int| 0 <= k < s.len() ==> done.contains(
            #[trigger] s[k],
        ),
    decreases s.len(),
{
    if s.len() > 0 {
        let r = s.drop_last();
        lemma_outstanding_none(r, done);
        if outstanding(s, done) == 0 {
            assert forall|k: int| 0 <= k < s.len() implies done.contains(#[trigger] s[k]) by {
                if k < r.len() {
                    assert(done.contains(r[k]));
                }
            }
        } else if forall|k: int| 0 <= k < s.len() ==> done.contains(#[trigger] s[k]) {
            assert(done.contains(s[s.len() - 1]));
            assert forall|k: int| 0 <= k < r.len() implies done.contains(#[trigger] r[k]) by {
                assert(done.contains(s[k]));
            }
        }
    }
}

proof fn lemma_outstanding_all(s: Seq<int>)
    ensures
        outstanding(s, Seq::empty()) == s.len(),
    decreases s.len(),
{
    if s.len() > 0 {
        lemma_outstanding_all(s.drop_last());
    }
}

/// How often `m` must be listed as a dependent of `j` once the dependencies of
/// the nodes below `i`, and the first `k` of node `i`, have been entered.
spec fn entered(g: Seq<Seq<int>>, i: int, k: int, m: int, j: int) -> nat {
    if m < i {
        occurrences(g[m], j)
    } else if m == i {
        occurrences(g[m].take(k), j)
    } else {
        0
    }
}

/// The lists of dependents mirror the lists of dependencies entered so far, in
/// ascending order.
spec fn mirrors(lists: Seq<Vec<usize>>, g: Seq<Seq<int>>, i: int, k: int) -> bool {
    &&& lists.len() == g.len()
    &&& forall|j: int, a: int|
        0 <= j < g.len() && 0 <= a < lists[j]@.len() ==> #[trigger] lists[j]@[a] <= i
            && lists[j]@[a] < g.len()
    &&& forall|j: int, a: int, b: int|
        0 <= j < g.len() && 0 <= a < b < lists[j]@.len() ==> #[trigger] lists[j]@[a]
            <= #[trigger] lists[j]@[b]
    &&& forall|j: int, m: int|
        0 <= j < g.len() && 0 <= m < g.len() ==> #[trigger] occurrences(ints(lists[j]@), m)
            == entered(g, i, k, m, j)
}

/// The dependents of every node.
fn list_dependents(dependencies: &Vec<Vec<usize>>) -> (dependents: Vec<Vec<usize>>)
    requires
        closed_graph(graph(dependencies@)),
    ensures
        mirrors(
            dependents@,
            graph(dependencies@),
            dependencies.len() as int,
            0,
        ),
{
    let n: usize = dependencies.len();
    let ghost g = graph(dependencies@);
    let mut dependents: Vec<Vec<usize>> = Vec::new();
    let mut i: usize = 0;
    while i < n
        invariant
            i <= n,
            dependents.len() == i,
            forall|j: int| 0 <= j < i ==> (#[trigger] dependents@[j])@.len() == 0,
        decreases n - i,
    {
        dependents.push(Vec::new());
        i = i + 1;
    }
    assert(mirrors(dependents@, g, 0, 0)) by {
        assert forall|j: int, m: int| 0 <= j < g.len() && 0 <= m < g.len() implies
            #[trigger] occurrences(ints(dependents@[j]@), m) == entered(g, 0, 0, m, j) by {
            assert(ints(dependents@[j]@).len() == 0);
            assert(g[m].take(0).len() == 0);
        }
    }
    i = 0;
    while i < n
        invariant
            n == dependencies.len(),
            i <= n,
            g == graph(dependencies@),
            closed_graph(g),
            mirrors(dependents@, g, i as int, 0),
        decreases n - i,
    {
        let mut k: usize = 0;
        while k < dependencies[i].len()
            invariant
                n == dependencies.len(),
                i < n,
                k <= dependencies@[i as int].len(),
                g == graph(dependencies@),
                closed_graph(g),
                mirrors(dependents@, g, i as int, k as int),
            decreases dependencies@[i as int].len() - k,
        {
            let d: usize = dependencies[i][k];
            assert(g[i as int][k as int] == d);
            let ghost before = dependents@;
            dependents[d].push(i);
            proof {
                assert(forall|j: int|
                    0 <= j < g.len() && j != d ==> dependents@[j] == before[j]);
                assert(dependents@[d as int]@ == before[d as int]@.push(i));
                assert forall|j: int, m: int| 0 <= j < g.len() && 0 <= m < g.len() implies
                    #[trigger] occurrences(ints(dependents@[j]@), m) == entered(
                    g,
                    i as int,
                    k + 1,
                    m,
                    j,
                ) by {
                    assert(occurrences(ints(before[j]@), m) == entered(g, i as int, k as int, m, j));
                    if m == i {
                        lemma_occurrences_take(g[m], k as int, j);
                    }
                    if j == d {
                        let now = ints(dependents@[j]@);
                        assert(now.drop_last() =~= ints(before[j]@));
                    }
                }
                assert(mirrors(dependents@, g, i as int, k + 1));
            }
            k = k + 1;
        }
        proof {
            assert forall|j: int, m: int| 0 <= j < g.len() && 0 <= m < g.len() implies
                #[trigger] occurrences(ints(dependents@[j]@), m) == entered(g, i + 1, 0, m, j) by {
                assert(occurrences(ints(dependents@[j]@), m) == entered(g, i as int, k as int, m, j));
                if m == i {
                    assert(g[m].take(k as int) =~= g[m]);
                }
                if m == i + 1 {
                    assert(g[m].take(0).len() == 0);
                }
            }
        }
        i = i + 1;
    }
    dependents
}

/// Takes the node `node` from the front of the queue: lowers the count of
/// outstanding dependencies of its dependents, and appends to the queue those
/// that have none left.
fn release_dependents(
    node: usize,
    dependents: &Vec<usize>,
    missing: &mut Vec<usize>,
    queue: &mut VecDeque<usize>,
    Ghost(g): Ghost<Seq<Seq<int>>>,
    Ghost(done): Ghost<Seq<int>>,
)
    requires
        node < g.len(),
        !done.contains(node as int),
        old(missing).len() == g.len(),
        forall|i: int| 0 <= i < g.len() ==> #[trigger] old(missing)@[i] == outstanding(g[i], done),
        forall|a: int| 0 <= a < dependents.len() ==> #[trigger] dependents@[a] < g.len(),
        forall|a: int, b: int|
            0 <= a < b < dependents.len() ==> #[trigger] dependents@[a] <= #[trigger] dependents@[b],
        forall|i: int|
            0 <= i < g.len() ==> #[trigger] occurrences(ints(dependents@), i) == occurrences(
                g[i],
                node as int,
            ),
    ensures
        final(missing).len() == g.len(),
        forall|i: int|
            0 <= i < g.len() ==> #[trigger] final(missing)@[i] == outstanding(
                g[i],
                done.push(node as int),
            ),
        ints(final(queue)@) == ints(old(queue)@) + select(
            g.len() as int,
            |i: int| released(g, done.push(node as int), done.len() as int, i),
        ),
{
    let ghost list = ints(dependents@);
    let ghost queued = ints(queue@);
    let ghost mut fresh: Seq<int> = Seq::empty();
    let mut t: usize = 0;
    proof {
        assert(list.take(0) =~= Seq::<int>::empty());
        assert(queued + fresh =~= queued);
    }
    while t < dependents.len()
        invariant
            node < g.len(),
            !done.contains(node as int),
            t <= dependents.len(),
            list == ints(dependents@),
            missing.len() == g.len(),
            ints(queue@) == queued + fresh,
            forall|a: int| 0 <= a < dependents.len() ==> #[trigger] dependents@[a] < g.len(),
            forall|a: int, b: int|
                0 <= a < b < dependents.len() ==> #[trigger] dependents@[a]
                    <= #[trigger] dependents@[b],
            forall|i: int|
                0 <= i < g.len() ==> #[trigger] occurrences(list, i) == occurrences(
                    g[i],
                    node as int,
                ),
            forall|i: int|
                0 <= i < g.len() ==> #[trigger] missing@[i] + occurrences(list.take(t as int), i)
                    == outstanding(g[i], done),
            ascending(fresh),
            forall|i: int| #[trigger]
                fresh.contains(i) <==> 0 <= i < g.len() && list.take(t as int).contains(i)
                    && missing@[i] == 0,
        decreases dependents.len() - t,
    {
        let d: usize = dependents[t];
        let ghost before = missing@;
        proof {
            assert(list[t as int] == d);
            lemma_occurrences_take(list, t as int, d as int);
            lemma_outstanding_push(g[d as int], done, node as int);
            assert(occurrences(list, d as int) == occurrences(g[d as int], node as int));
            assert(missing@[d as int] + occurrences(list.take(t as int), d as int) == outstanding(
                g[d as int],
                done,
            ));
        }
        let left: usize = missing[d] - 1;
        missing.set(d, left);
        let ghost was = fresh;
        let ghost now = list.take(t + 1);
        proof {
            assert forall|i: int| 0 <= i < g.len() implies #[trigger] missing@[i] + occurrences(
                now,
                i,
            ) == outstanding(g[i], done) by {
                lemma_occurrences_take(list, t as int, i);
                assert(before[i] + occurrences(list.take(t as int), i) == outstanding(g[i], done));
            }
            assert forall|i: int| #[trigger] now.contains(i) <==> list.take(t as int).contains(i)
                || i == d by {
                lemma_occurrences_take(list, t as int, i);
                lemma_occurrences(now, i);
                lemma_occurrences(list.take(t as int), i);
            }
        }
        if left == 0 {
            let ghost behind = queue@;
            queue.push_back(d);
            proof {
                fresh = fresh.push(d as int);
                assert(ints(queue@) =~= ints(behind).push(d as int));
                assert(queued + fresh =~= (queued + was).push(d as int));
                assert forall|a: int| 0 <= a < was.len() implies #[trigger] was[a] < d by {
                    assert(was.contains(was[a]));
                    let front = list.take(t as int);
                    assert(front.contains(was[a]));
                    let b = choose|b: int| 0 <= b < front.len() && front[b] == was[a];
                    assert(dependents@[b] <= dependents@[t as int]);
                    assert(before[d as int] != 0);
                }
            }
        }
        proof {
            assert forall|i: int| #[trigger] fresh.contains(i) <==> 0 <= i < g.len()
                && now.contains(i) && missing@[i] == 0 by {
                assert(was.contains(i) <==> 0 <= i < g.len() && list.take(t as int).contains(i)
                    && before[i] == 0);
                if left == 0 {
                    assert(fresh.contains(i) <==> was.contains(i) || i == d) by {
                        assert(fresh[was.len() as int] == d);
                        if was.contains(i) {
                            let a = choose|a: int| 0 <= a < was.len() && was[a] == i;
                            assert(fresh[a] == i);
                        }
                    }
                }
            }
        }
        t = t + 1;
    }
    proof {
        let all = done.push(node as int);
        let p = |i: int| released(g, all, done.len() as int, i);
        assert(list.take(t as int) =~= list);
        assert forall|i: int| 0 <= i < g.len() implies #[trigger] missing@[i] == outstanding(
            g[i],
            all,
        ) by {
            lemma_outstanding_push(g[i], done, node as int);
            assert(occurrences(list, i) == occurrences(g[i], node as int));
        }
        lemma_select(g.len() as int, p);
        assert(all.take((done.len() + 1) as int) =~= all);
        assert forall|i: int| #[trigger] fresh.contains(i) <==> select(g.len() as int, p).contains(
            i,
        ) by {
            if 0 <= i < g.len() {
                lemma_occurrences(list, i);
                lemma_occurrences(g[i], node as int);
                lemma_outstanding_none(g[i], all);
                assert(occurrences(list, i) == occurrences(g[i], node as int));
                assert(missing@[i] == outstanding(g[i], all));
            }
        }
        lemma_ascending_unique(fresh, select(g.len() as int, p));
    }
}

/// Whether `node` is in the list.
fn holds(list: &Vec<usize>, node: usize) -> (found: bool)
    ensures
        found == ints(list@).contains(node as int),
{
    let mut k: usize = 0;
    while k < list.len()
        invariant
            k <= list.len(),
            forall|j: int| 0 <= j < k ==> list@[j] != node,
        decreases list.len() - k,
    {
        if list[k] == node {
            assert(ints(list@)[k as int] == node);
            return true;
        }
        k = k + 1;
    }
    false
}

/// Kahn's algorithm: the nodes with dependencies before dependents, as far as
/// there are no cycles, then the remaining nodes.
pub fn sort_by_dependency(dependencies: &Vec<Vec<usize>>) -> (order: Vec<usize>)
    requires
        closed_graph(graph(dependencies@)),
    ensures
        ints(order@) == dependency_order(graph(dependencies@)),
{
    let n: usize = dependencies.len();
    let ghost g = graph(dependencies@);
    let dependents: Vec<Vec<usize>> = list_dependents(dependencies);
    let mut missing: Vec<usize> = Vec::new();
    let mut queue: VecDeque<usize> = VecDeque::new();
    let ghost free = |i: int| g[i].len() == 0;
    let mut i: usize = 0;
    while i < n
        invariant
            n == dependencies.len(),
            g == graph(dependencies@),
            free == (|i: int| g[i].len() == 0),
            i <= n,
            missing.len() == i,
            forall|j: int| 0 <= j < i ==> #[trigger] missing@[j] == g[j].len(),
            ints(queue@) == select(i as int, free),
        decreases n - i,
    {
        missing.push(dependencies[i].len());
        if dependencies[i].len() == 0 {
            let ghost before = queue@;
            queue.push_back(i);
            assert(ints(queue@) =~= ints(before).push(i as int));
        }
        i = i + 1;
    }
    let mut order: Vec<usize> = Vec::new();
    proof {
        assert forall|j: int| 0 <= j < n implies #[trigger] missing@[j] == outstanding(
            g[j],
            ints(order@),
        ) by {
            lemma_outstanding_all(g[j]);
            assert(ints(order@) =~= Seq::<int>::empty());
        }
        assert(ints(order@) + ints(queue@) =~= queue_after(g, 0));
    }
    while queue.len() > 0
        invariant
            n == dependencies.len(),
            g == graph(dependencies@),
            closed_graph(g),
            mirrors(dependents@, g, n as int, 0),
            missing.len() == n,
            forall|j: int|
                0 <= j < n ==> #[trigger] missing@[j] == outstanding(g[j], ints(order@)),
            ints(order@) + ints(queue@) == queue_after(g, order@.len()),
        decreases n - order.len(),
    {
        let ghost h = order@.len();
        let ghost done = ints(order@);
        let ghost waiting = ints(queue@);
        let ghost q = queue_after(g, h);
        proof {
            lemma_queue(g, h);
            lemma_distinct_len(q, n as nat);
            assert(q[h as int] == waiting[0]);
            assert(0 <= q[h as int] < n);
        }
        match queue.pop_front() {
            Some(node) => {
                proof {
                    assert(waiting[0] == node);
                    assert(ints(queue@) =~= waiting.drop_first());
                    if done.contains(node as int) {
                        let a = choose|a: int| 0 <= a < done.len() && done[a] == node;
                        assert(q[a] == node);
                        assert(false);
                    }
                    assert forall|m: int| 0 <= m < g.len() implies #[trigger] occurrences(
                        ints(dependents@[node as int]@),
                        m,
                    ) == occurrences(g[m], node as int) by {
                        assert(occurrences(ints(dependents@[node as int]@), m) == entered(
                            g,
                            n as int,
                            0,
                            m,
                            node as int,
                        ));
                    }
                }
                order.push(node);
                release_dependents(
                    node,
                    &dependents[node],
                    &mut missing,
                    &mut queue,
                    Ghost(g),
                    Ghost(done),
                );
                proof {
                    let p1 = |i: int| released(g, done.push(node as int), done.len() as int, i);
                    let p2 = |i: int| released(g, q, h as int, i);
                    assert(done.push(node as int).take((h + 1) as int) =~= q.take((h + 1) as int));
                    lemma_select(n as int, p1);
                    lemma_select(n as int, p2);
                    assert(done.push(node as int)[h as int] == q[h as int]);
                    assert forall|i: int|
                        select(n as int, p1).contains(i) <==> #[trigger] select(
                            n as int,
                            p2,
                        ).contains(i) by {
                        assert(p1(i) == p2(i));
                    }
                    lemma_ascending_unique(select(n as int, p1), select(n as int, p2));
                    assert(ints(order@) =~= done.push(node as int));
                    assert(ints(order@) + ints(queue@) =~= q + select(n as int, p2));
                }
            },
            None => {
                return order;
            },
        }
    }
    proof {
        assert(ints(order@) + ints(queue@) =~= ints(order@));
        lemma_queue(g, order@.len());
        lemma_distinct_len(ints(order@), n as nat);
        lemma_queue_stable(g, order@.len(), n as nat);
        assert(ints(order@) == resolved(g));
    }
    let ghost settled = ints(order@);
    let ghost open = |i: int| !settled.contains(i);
    i = 0;
    assert(settled + select(0, open) =~= settled);
    while i < n
        invariant
            i <= n,
            open == (|i: int| !settled.contains(i)),
            ints(order@) == settled + select(i as int, open),
        decreases n - i,
    {
        proof {
            lemma_select(i as int, open);
            assert(ints(order@).contains(i as int) <==> settled.contains(i as int)) by {
                let tail = select(i as int, open);
                if ints(order@).contains(i as int) && !settled.contains(i as int) {
                    let a = choose|a: int| 0 <= a < ints(order@).len() && ints(order@)[a] == i;
                    if a < settled.len() {
                        assert(settled[a] == i);
                    } else {
                        assert(tail[a - settled.len()] == i);
                        assert(tail.contains(i as int));
                    }
                }
                if settled.contains(i as int) {
                    let a = choose|a: int| 0 <= a < settled.len() && settled[a] == i;
                    assert(ints(order@)[a] == i);
                }
            }
        }
        if !holds(&order, i) {
            let ghost before = order@;
            order.push(i);
            assert(ints(order@) =~= ints(before).push(i as int));
            assert(ints(order@) =~= settled + select(i + 1, open));
        }
        i = i + 1;
    }
    proof {
        let p = |i: int| !resolved(g).contains(i);
        lemma_select(n as int, open);
        lemma_select(n as int, p);
        lemma_ascending_unique(select(n as int, open), select(n as int, p));
    }
    order
}

} // verus!
