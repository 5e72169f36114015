//! What the walks find: every node within the depth, once.

use vstd::prelude::*;

use crate::graph::traversal::{bfs_from, spec_bfs, unvisited, visit, visit_level, Walk};

verus! {

/// The nodes within `d` steps of a set of start nodes.
pub open spec fn reach_within(next: spec_fn(u128) -> Seq<u128>, start: Set<u128>, d: nat) -> Set<u128>
    decreases d,
{
    if d == 0 {
        start
    } else {
        let near = reach_within(next, start, (d - 1) as nat);
        Set::new(|x: u128| near.contains(x) || exists|y: u128| near.contains(y) && next(y).contains(x))
    }
}

/// The nodes at most one step from a set.
pub open spec fn one_step(next: spec_fn(u128) -> Seq<u128>, near: Set<u128>) -> Set<u128> {
    Set::new(|x: u128| near.contains(x) || exists|y: u128| near.contains(y) && next(y).contains(x))
}

/// A walk at depth 0 from one node visits that node and nothing else.
pub proof fn lemma_bfs_depth_zero(next: spec_fn(u128) -> Seq<u128>, v: u128)
    ensures
        spec_bfs(next, seq![v], 0) == seq![v],
{
    let w0 = Walk { visited: Set::empty(), result: Seq::empty(), pending: Seq::empty() };
    let level = seq![v];
    assert(visit_level(next, w0, level, 0) == w0);
    assert(visit_level(next, w0, level, 1) == visit(next, w0, v));
    assert(visit(next, w0, v).result =~= seq![v]);
}

/// A neighbour is among those that are not yet visited exactly if it is
/// a neighbour and not in the visited set.
pub proof fn lemma_unvisited_one(ns: Seq<u128>, visited: Set<u128>, x: u128)
    ensures
        unvisited(ns, visited).contains(x) <==> (ns.contains(x) && !visited.contains(x)),
    decreases ns.len(),
{
    if ns.len() > 0 {
        let front = ns.drop_last();
        lemma_unvisited_one(front, visited, x);
        let u = unvisited(ns, visited);
        let uf = unvisited(front, visited);
        if u.contains(x) {
            let i = choose|i: int| 0 <= i < u.len() && u[i] == x;
            if !visited.contains(ns.last()) && i == uf.len() {
                assert(ns[ns.len() - 1] == x);
            } else {
                assert(uf[i] == x);
                assert(uf.contains(x));
                assert(front.contains(x));
                let j = choose|j: int| 0 <= j < front.len() && front[j] == x;
                assert(ns[j] == x);
            }
        }
        if ns.contains(x) && !visited.contains(x) {
            let j = choose|j: int| 0 <= j < ns.len() && ns[j] == x;
            if j == ns.len() - 1 {
                assert(u[uf.len() as int] == x);
            } else {
                assert(front[j] == x);
                assert(front.contains(x));
                assert(uf.contains(x));
                let i = choose|i: int| 0 <= i < uf.len() && uf[i] == x;
                assert(u[i] == x);
            }
        }
    }
}

/// The neighbours that are not yet visited are the neighbours that are not
/// in the visited set.
pub proof fn lemma_unvisited(ns: Seq<u128>, visited: Set<u128>)
    ensures
        forall|x: u128|
            #![trigger unvisited(ns, visited).contains(x)]
            unvisited(ns, visited).contains(x) <==> (ns.contains(x) && !visited.contains(x)),
{
    assert forall|x: u128| #![trigger unvisited(ns, visited).contains(x)]
        unvisited(ns, visited).contains(x) <==> (ns.contains(x) && !visited.contains(x)) by {
        lemma_unvisited_one(ns, visited, x);
    }
}

/// The node is one of the first `k` of the level.
pub open spec fn in_level(level: Seq<u128>, k: int, x: u128) -> bool {
    exists|i: int| 0 <= i < k && level[i] == x
}

proof fn lemma_in_level_step(level: Seq<u128>, k: int, x: u128)
    requires
        0 < k <= level.len(),
    ensures
        in_level(level, k, x) <==> (in_level(level, k - 1, x) || level[k - 1] == x),
{
    if in_level(level, k, x) {
        let i = choose|i: int| 0 <= i < k && level[i] == x;
        if i < k - 1 {
            assert(in_level(level, k - 1, x));
        }
    }
    if in_level(level, k - 1, x) {
        let i = choose|i: int| 0 <= i < k - 1 && level[i] == x;
        assert(0 <= i < k && level[i] == x);
    }
}

/// What holds of a walk while it goes through a level that began with the
/// set `before` visited: the record has each visited node once; what is
/// visited is what was visited before and the nodes of the level so far;
/// every pending node is a neighbour of a node that this level visited;
/// and every neighbour of a node that this level visited is visited or
/// pending.
pub open spec fn level_inv(
    next: spec_fn(u128) -> Seq<u128>,
    before: Set<u128>,
    level: Seq<u128>,
    k: int,
    w: Walk,
) -> bool {
    &&& w.result.no_duplicates()
    &&& forall|x: u128| w.result.contains(x) <==> w.visited.contains(x)
    &&& forall|x: u128|
        #![trigger w.visited.contains(x)]
        w.visited.contains(x) <==> (before.contains(x) || in_level(level, k, x))
    &&& forall|x: u128|
        w.pending.contains(x) ==> exists|y: u128|
            w.visited.contains(y) && !before.contains(y) && #[trigger] next(y).contains(x)
    &&& forall|y: u128, x: u128|
        w.visited.contains(y) && !before.contains(y) && #[trigger] next(y).contains(x)
            ==> w.visited.contains(x) || w.pending.contains(x)
}

proof fn lemma_contains_push(s: Seq<u128>, v: u128)
    ensures
        forall|x: u128| s.push(v).contains(x) <==> (s.contains(x) || x == v),
{
    assert forall|x: u128| s.push(v).contains(x) <==> (s.contains(x) || x == v) by {
        if s.contains(x) {
            let i = choose|i: int| 0 <= i < s.len() && s[i] == x;
            assert(s.push(v)[i] == x);
        }
        if x == v {
            assert(s.push(v)[s.len() as int] == x);
        }
        if s.push(v).contains(x) {
            let i = choose|i: int| 0 <= i < s.push(v).len() && s.push(v)[i] == x;
            if i < s.len() {
                assert(s[i] == x);
            }
        }
    }
}

proof fn lemma_contains_add(a: Seq<u128>, b: Seq<u128>)
    ensures
        forall|x: u128| (a + b).contains(x) <==> (a.contains(x) || b.contains(x)),
{
    assert forall|x: u128| (a + b).contains(x) <==> (a.contains(x) || b.contains(x)) by {
        if a.contains(x) {
            let i = choose|i: int| 0 <= i < a.len() && a[i] == x;
            assert((a + b)[i] == x);
        }
        if b.contains(x) {
            let i = choose|i: int| 0 <= i < b.len() && b[i] == x;
            assert((a + b)[a.len() + i] == x);
        }
        if (a + b).contains(x) {
            let i = choose|i: int| 0 <= i < (a + b).len() && (a + b)[i] == x;
            if i < a.len() {
                assert(a[i] == x);
            } else {
                assert(b[i - a.len()] == x);
            }
        }
    }
}

/// Going through a level keeps what holds of the walk.
pub proof fn lemma_level(
    next: spec_fn(u128) -> Seq<u128>,
    w0: Walk,
    level: Seq<u128>,
    k: int,
)
    requires
        0 <= k <= level.len(),
        w0.result.no_duplicates(),
        forall|x: u128| w0.result.contains(x) <==> w0.visited.contains(x),
        w0.pending.len() == 0,
    ensures
        level_inv(next, w0.visited, level, k, visit_level(next, w0, level, k)),
    decreases k,
{
    let before = w0.visited;
    if k == 0 {
        let w = visit_level(next, w0, level, 0);
        assert(w == w0);
    } else {
        lemma_level(next, w0, level, k - 1);
        let p = visit_level(next, w0, level, k - 1);
        let node = level[k - 1];
        let w = visit(next, p, node);
        assert(visit_level(next, w0, level, k) == w);
        if p.visited.contains(node) {
            assert forall|x: u128| #![trigger w.visited.contains(x)]
                w.visited.contains(x) <==> (before.contains(x) || in_level(level, k, x)) by {
                lemma_in_level_step(level, k, x);
                assert(p.visited.contains(x) <==> (before.contains(x) || in_level(
                    level,
                    k - 1,
                    x,
                )));
            }
        } else {
            let visited = p.visited.insert(node);
            let fresh = unvisited(next(node), visited);
            lemma_unvisited(next(node), visited);
            lemma_contains_push(p.result, node);
            lemma_contains_add(p.pending, fresh);
            assert(w.result == p.result.push(node));
            assert(w.pending == p.pending + fresh);
            assert(w.result.no_duplicates()) by {
                assert forall|i: int, j: int|
                    0 <= i < w.result.len() && 0 <= j < w.result.len() && i != j implies w.result[i]
                    != w.result[j] by {
                    if i == p.result.len() {
                        assert(p.result[j] == w.result[j]);
                        assert(p.result.contains(p.result[j]));
                    } else if j == p.result.len() {
                        assert(p.result[i] == w.result[i]);
                        assert(p.result.contains(p.result[i]));
                    } else {
                        assert(p.result[i] == w.result[i]);
                        assert(p.result[j] == w.result[j]);
                    }
                }
            }
            assert forall|x: u128| #![trigger w.visited.contains(x)]
                w.visited.contains(x) <==> (before.contains(x) || in_level(level, k, x)) by {
                lemma_in_level_step(level, k, x);
                assert(p.visited.contains(x) <==> (before.contains(x) || in_level(
                    level,
                    k - 1,
                    x,
                )));
            }
            assert forall|x: u128| w.pending.contains(x) implies exists|y: u128|
                w.visited.contains(y) && !before.contains(y) && #[trigger] next(y).contains(x) by {
                if p.pending.contains(x) {
                    let y = choose|y: u128|
                        p.visited.contains(y) && !before.contains(y) && #[trigger] next(y).contains(
                            x,
                        );
                    assert(w.visited.contains(y) && !before.contains(y) && next(y).contains(x));
                } else {
                    assert(fresh.contains(x));
                    assert(!before.contains(node)) by {
                        if before.contains(node) {
                            assert(p.visited.contains(node));
                        }
                    }
                    assert(w.visited.contains(node) && !before.contains(node) && next(
                        node,
                    ).contains(x));
                }
            }
            assert forall|y: u128, x: u128|
                w.visited.contains(y) && !before.contains(y) && #[trigger] next(y).contains(
                    x,
                ) implies w.visited.contains(x) || w.pending.contains(x) by {
                if y == node {
                    if !visited.contains(x) {
                        assert(fresh.contains(x));
                    }
                } else {
                    assert(p.visited.contains(y));
                    assert(p.visited.contains(x) || p.pending.contains(x));
                }
            }
        }
    }
}

/// The nodes within fewer steps are within more steps.
pub proof fn lemma_reach_grows(next: spec_fn(u128) -> Seq<u128>, start: Set<u128>, d: nat, e: nat)
    requires
        d <= e,
    ensures
        reach_within(next, start, d).subset_of(reach_within(next, start, e)),
    decreases e - d,
{
    if d < e {
        lemma_reach_grows(next, start, d, (e - 1) as nat);
    }
}

/// Where one more step reaches nothing new, no number of steps does.
pub proof fn lemma_reach_settled(next: spec_fn(u128) -> Seq<u128>, start: Set<u128>, d: nat, e: nat)
    requires
        d <= e,
        reach_within(next, start, d + 1) =~= reach_within(next, start, d),
    ensures
        reach_within(next, start, e) =~= reach_within(next, start, d),
    decreases e - d,
{
    if d < e {
        lemma_reach_settled(next, start, d, (e - 1) as nat);
        let a = reach_within(next, start, (e - 1) as nat);
        assert(a =~= reach_within(next, start, d));
        assert(reach_within(next, start, e) =~= one_step(next, a));
        assert(reach_within(next, start, d + 1) =~= one_step(next, reach_within(next, start, d)));
    }
}

/// What holds between two levels of a walk from `start`, `k` levels in:
/// the record has each visited node once; the visited nodes are those
/// within `k - 1` steps (none before the first level); the nodes of the
/// level are within `k` steps; and every node within `k` steps is visited
/// or in the level.
pub open spec fn walk_inv(
    next: spec_fn(u128) -> Seq<u128>,
    start: Set<u128>,
    k: nat,
    visited: Set<u128>,
    result: Seq<u128>,
    level: Seq<u128>,
) -> bool {
    &&& result.no_duplicates()
    &&& forall|x: u128| result.contains(x) <==> visited.contains(x)
    &&& if k == 0 {
        visited =~= Set::<u128>::empty()
    } else {
        visited =~= reach_within(next, start, (k - 1) as nat)
    }
    &&& forall|x: u128| level.contains(x) ==> reach_within(next, start, k).contains(x)
    &&& forall|x: u128|
        reach_within(next, start, k).contains(x) ==> visited.contains(x) || level.contains(x)
}

/// A walk that goes on from a level in the `k`-th place, with `left` more
/// levels allowed, records the nodes within `k + left` steps, each once.
pub proof fn lemma_bfs_from(
    next: spec_fn(u128) -> Seq<u128>,
    start: Set<u128>,
    k: nat,
    visited: Set<u128>,
    result: Seq<u128>,
    level: Seq<u128>,
    left: nat,
)
    requires
        walk_inv(next, start, k, visited, result, level),
    ensures
        bfs_from(next, visited, result, level, left).no_duplicates(),
        forall|x: u128|
            bfs_from(next, visited, result, level, left).contains(x) <==> reach_within(
                next,
                start,
                k + left,
            ).contains(x),
    decreases left,
{
    let rk = reach_within(next, start, k);
    if level.len() == 0 {
        // nothing is within k steps that was not within k - 1
        assert(rk =~= visited) by {
            if k > 0 {
                lemma_reach_grows(next, start, (k - 1) as nat, k);
            }
            assert forall|x: u128| rk.contains(x) implies visited.contains(x) by {
                assert(!level.contains(x));
            }
        }
        if k == 0 {
            lemma_reach_settled_from_empty(next, start, k + left);
        } else {
            lemma_reach_settled(next, start, (k - 1) as nat, k + left);
        }
    } else {
        let w0 = Walk { visited, result, pending: Seq::empty() };
        lemma_level(next, w0, level, level.len() as int);
        let w = visit_level(next, w0, level, level.len() as int);
        assert(level_inv(next, visited, level, level.len() as int, w));
        if k > 0 {
            lemma_reach_grows(next, start, (k - 1) as nat, k);
        }
        // what is visited now is what lies within k steps
        assert(w.visited =~= rk) by {
            assert forall|x: u128| w.visited.contains(x) <==> rk.contains(x) by {
                if w.visited.contains(x) && !visited.contains(x) {
                    assert(in_level(level, level.len() as int, x));
                    let i = choose|i: int| 0 <= i < level.len() && level[i] == x;
                    assert(level.contains(x));
                }
                if rk.contains(x) && !visited.contains(x) {
                    assert(level.contains(x));
                    let i = choose|i: int| 0 <= i < level.len() && level[i] == x;
                    assert(in_level(level, level.len() as int, x));
                }
            }
        }
        if left > 0 {
            let rk1 = reach_within(next, start, k + 1);
            assert(rk1 =~= one_step(next, rk));
            assert(walk_inv(next, start, k + 1, w.visited, w.result, w.pending)) by {
                assert forall|x: u128| w.pending.contains(x) implies rk1.contains(x) by {
                    let y = choose|y: u128|
                        w.visited.contains(y) && !visited.contains(y) && #[trigger] next(
                            y,
                        ).contains(x);
                    assert(rk.contains(y) && next(y).contains(x));
                }
                assert forall|x: u128| rk1.contains(x) implies w.visited.contains(x)
                    || w.pending.contains(x) by {
                    if !rk.contains(x) {
                        let y = choose|y: u128| rk.contains(y) && next(y).contains(x);
                        if visited.contains(y) {
                            // then x would lie within k steps
                            assert(k > 0);
                            let near = reach_within(next, start, (k - 1) as nat);
                            assert(near.contains(y) && next(y).contains(x));
                            assert(rk =~= one_step(next, near));
                            assert(rk.contains(x));
                        }
                        assert(w.visited.contains(y) && !visited.contains(y) && next(y).contains(x));
                    }
                }
            }
            lemma_bfs_from(next, start, k + 1, w.visited, w.result, w.pending, (left - 1) as nat);
            assert(k + 1 + (left - 1) as nat == k + left);
        }
    }
}

proof fn lemma_reach_settled_from_empty(next: spec_fn(u128) -> Seq<u128>, start: Set<u128>, e: nat)
    requires
        start =~= Set::<u128>::empty(),
    ensures
        reach_within(next, start, e) =~= Set::<u128>::empty(),
    decreases e,
{
    if e > 0 {
        lemma_reach_settled_from_empty(next, start, (e - 1) as nat);
    }
}

/// A breadth-first walk visits each node within `max_depth` steps of the
/// start nodes once, and no other node: its record has no node twice, and
/// is as long as the set of those nodes is large.
pub proof fn lemma_bfs_reaches(next: spec_fn(u128) -> Seq<u128>, start: Seq<u128>, max_depth: nat)
    ensures
        spec_bfs(next, start, max_depth).no_duplicates(),
        spec_bfs(next, start, max_depth).to_set() =~= reach_within(
            next,
            start.to_set(),
            max_depth,
        ),
        spec_bfs(next, start, max_depth).len() == reach_within(next, start.to_set(), max_depth).len(),
{
    let s = start.to_set();
    let empty = Seq::<u128>::empty();
    assert(walk_inv(next, s, 0, Set::empty(), empty, start));
    lemma_bfs_from(next, s, 0, Set::empty(), empty, start, max_depth);
    let r = spec_bfs(next, start, max_depth);
    assert(r.to_set() =~= reach_within(next, s, max_depth));
    r.unique_seq_to_set();
}


/// A set that holds the start nodes and, of the nodes within `d` steps,
/// whatever lies one step from a node it holds, holds every node within
/// `k` steps, for `k` up to `d`.
pub proof fn lemma_closed_covers(
    next: spec_fn(u128) -> Seq<u128>,
    start: Set<u128>,
    seen: Set<u128>,
    d: nat,
    k: nat,
)
    requires
        k <= d,
        start.subset_of(seen),
        forall|y: u128, z: u128|
            seen.contains(y) && #[trigger] next(y).contains(z) && reach_within(
                next,
                start,
                d,
            ).contains(z) ==> seen.contains(z),
    ensures
        reach_within(next, start, k).subset_of(seen),
    decreases k,
{
    if k > 0 {
        lemma_closed_covers(next, start, seen, d, (k - 1) as nat);
        lemma_reach_grows(next, start, k, d);
        let near = reach_within(next, start, (k - 1) as nat);
        assert forall|x: u128| reach_within(next, start, k).contains(x) implies seen.contains(
            x,
        ) by {
            if !near.contains(x) {
                let y = choose|y: u128| near.contains(y) && next(y).contains(x);
                assert(seen.contains(y));
                assert(next(y).contains(x));
            }
        }
    }
}

/// A record without a node twice that holds the nodes within `max_depth`
/// steps of the start nodes, as a depth-first walk gives it, holds the
/// nodes that a breadth-first walk visits, and as many.
pub proof fn lemma_dfs_reaches(
    next: spec_fn(u128) -> Seq<u128>,
    start: Seq<u128>,
    max_depth: nat,
    r: Seq<u128>,
)
    requires
        r.no_duplicates(),
        r.to_set() == reach_within(next, start.to_set(), max_depth),
    ensures
        r.to_set() == spec_bfs(next, start, max_depth).to_set(),
        r.len() == spec_bfs(next, start, max_depth).len(),
        r.len() == reach_within(next, start.to_set(), max_depth).len(),
{
    lemma_bfs_reaches(next, start, max_depth);
    r.unique_seq_to_set();
}

} // verus!
