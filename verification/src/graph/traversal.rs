//! Bounded breadth-first and depth-first traversal over a neighbour
//! function that the caller supplies.

use std::collections::HashSet;

use vstd::prelude::*;
use vstd::slice::*;

use crate::graph::reach::{lemma_bfs_reaches, lemma_closed_covers, lemma_unvisited_one, reach_within};

verus! {

broadcast use vstd::std_specs::hash::group_hash_axioms;

/// The state of a breadth-first walk: the nodes visited so far, the same
/// nodes in the order of their first visit, and the nodes found for the
/// next level.
pub ghost struct Walk {
    pub visited: Set<u128>,
    pub result: Seq<u128>,
    pub pending: Seq<u128>,
}

/// The neighbours that are not yet visited, in their order.
pub open spec fn unvisited(ns: Seq<u128>, visited: Set<u128>) -> Seq<u128>
    decreases ns.len(),
{
    if ns.len() == 0 {
        Seq::empty()
    } else if visited.contains(ns.last()) {
        unvisited(ns.drop_last(), visited)
    } else {
        unvisited(ns.drop_last(), visited).push(ns.last())
    }
}

/// Visiting a node: one that was visited before changes nothing; a new one
/// is recorded, and its neighbours that are not yet visited are added to
/// the next level.
pub open spec fn visit(next: spec_fn(u128) -> Seq<u128>, w: Walk, node: u128) -> Walk {
    if w.visited.contains(node) {
        w
    } else {
        let visited = w.visited.insert(node);
        Walk {
            visited,
            result: w.result.push(node),
            pending: w.pending + unvisited(next(node), visited),
        }
    }
}

/// Visiting the first `k` nodes of a level, in order.
pub open spec fn visit_level(
    next: spec_fn(u128) -> Seq<u128>,
    w: Walk,
    level: Seq<u128>,
    k: int,
) -> Walk
    decreases k,
{
    if k <= 0 {
        w
    } else {
        visit(next, visit_level(next, w, level, k - 1), level[k - 1])
    }
}

/// The walk that goes on from `level` with `depth_left` more levels
/// allowed below it: it visits the level, and unless the level is empty or
/// no depth is left, goes on with what the level found.
pub open spec fn bfs_from(
    next: spec_fn(u128) -> Seq<u128>,
    visited: Set<u128>,
    result: Seq<u128>,
    level: Seq<u128>,
    depth_left: nat,
) -> Seq<u128>
    decreases depth_left,
{
    if level.len() == 0 {
        result
    } else {
        let w = visit_level(
            next,
            Walk { visited, result, pending: Seq::empty() },
            level,
            level.len() as int,
        );
        if depth_left == 0 {
            w.result
        } else {
            bfs_from(next, w.visited, w.result, w.pending, (depth_left - 1) as nat)
        }
    }
}

/// The nodes that a breadth-first walk from `start` visits within
/// `max_depth` steps, each once, in the order of first discovery. The
/// start nodes are at depth 0.
pub open spec fn spec_bfs(next: spec_fn(u128) -> Seq<u128>, start: Seq<u128>, max_depth: nat) -> Seq<
    u128,
> {
    bfs_from(next, Set::empty(), Seq::empty(), start, max_depth)
}

/// Whatever the function answers for a node is `next` of that node.
pub open spec fn agrees<F: Fn(u128) -> Vec<u128>>(f: F, next: spec_fn(u128) -> Seq<u128>) -> bool {
    forall|id: u128, r: Vec<u128>| call_ensures(f, (id,), r) ==> r@ == next(id)
}

/// The function answers every node in one way only.
pub open spec fn deterministic<F: Fn(u128) -> Vec<u128>>(f: F) -> bool {
    forall|id: u128, r1: Vec<u128>, r2: Vec<u128>|
        call_ensures(f, (id,), r1) && call_ensures(f, (id,), r2) ==> r1@ == r2@
}

/// What the function answers for a node.
pub open spec fn answer_of<F: Fn(u128) -> Vec<u128>>(f: F, id: u128) -> Seq<u128> {
    (choose|r: Vec<u128>| call_ensures(f, (id,), r))@
}

/// A function that answers in one way only agrees with its answers.
pub proof fn lemma_deterministic_agrees<F: Fn(u128) -> Vec<u128>>(f: F)
    requires
        deterministic(f),
    ensures
        agrees(f, |id: u128| answer_of(f, id)),
{
    assert forall|id: u128, r: Vec<u128>| call_ensures(f, (id,), r) implies r@ == answer_of(
        f,
        id,
    ) by {
        let r3 = choose|r3: Vec<u128>| call_ensures(f, (id,), r3);
        assert(call_ensures(f, (id,), r3));
        assert(r3@ == r@);
    }
}

/// Appends to `pending` the neighbours that are not yet visited.
fn push_unvisited(pending: &mut Vec<u128>, ns: &Vec<u128>, visited: &HashSet<u128>)
    ensures
        final(pending)@ == old(pending)@ + unvisited(ns@, visited@),
{
    let mut j: usize = 0;
    assert(ns@.subrange(0, 0) =~= Seq::<u128>::empty());
    assert(pending@ =~= old(pending)@ + unvisited(ns@.subrange(0, 0), visited@));
    while j < ns.len()
        invariant
            j <= ns@.len(),
            pending@ == old(pending)@ + unvisited(ns@.subrange(0, j as int), visited@),
        decreases ns@.len() - j,
    {
        let x: u128 = ns[j];
        proof {
            let a = ns@.subrange(0, j + 1);
            assert(a.drop_last() =~= ns@.subrange(0, j as int));
            assert(a.last() == x);
        }
        if !visited.contains(&x) {
            pending.push(x);
        }
        j += 1;
        assert(pending@ =~= old(pending)@ + unvisited(ns@.subrange(0, j as int), visited@));
    }
    assert(ns@.subrange(0, ns@.len() as int) =~= ns@);
}

/// Breadth-first traversal over a neighbour function whose answers are
/// known to be `next`.
pub(crate) fn bfs_over<F>(
    start: &[u128],
    max_depth: usize,
    get_neighbors: &F,
    Ghost(next): Ghost<spec_fn(u128) -> Seq<u128>>,
) -> (r: Vec<u128>) where F: Fn(u128) -> Vec<u128>
    requires
        forall|id: u128| call_requires(*get_neighbors, (id,)),
    ensures
        agrees(*get_neighbors, next) ==> r@ == spec_bfs(next, start@, max_depth as nat),
        r@.no_duplicates(),
        forall|i: int| 0 <= i < start@.len() ==> r@.contains(#[trigger] start@[i]),
{
    let mut visited: HashSet<u128> = HashSet::new();
    let mut result: Vec<u128> = Vec::new();
    let mut level: Vec<u128> = slice_to_vec(start);
    let mut depth: usize = 0;
    let mut done: bool = false;
    let ghost ok = agrees(*get_neighbors, next);
    while level.len() > 0 && !done
        invariant
            depth <= max_depth,
            forall|id: u128| call_requires(*get_neighbors, (id,)),
            ok == agrees(*get_neighbors, next),
            ok && done ==> result@ == spec_bfs(next, start@, max_depth as nat),
            ok && !done ==> spec_bfs(next, start@, max_depth as nat) == bfs_from(
                next,
                visited@,
                result@,
                level@,
                (max_depth - depth) as nat,
            ),
            result@.no_duplicates(),
            forall|x: u128| visited@.contains(x) <==> result@.contains(x),
            forall|i: int|
                0 <= i < start@.len() ==> result@.contains(#[trigger] start@[i]) || (depth == 0
                    && !done && level@ == start@),
        decreases max_depth - depth + (if done { 0int } else { 1int }),
    {
        let mut pending: Vec<u128> = Vec::new();
        let ghost w0 = Walk { visited: visited@, result: result@, pending: Seq::empty() };
        let mut i: usize = 0;
        while i < level.len()
            invariant
                i <= level@.len(),
                forall|id: u128| call_requires(*get_neighbors, (id,)),
                ok == agrees(*get_neighbors, next),
                ok ==> visited@ == visit_level(next, w0, level@, i as int).visited,
                ok ==> result@ == visit_level(next, w0, level@, i as int).result,
                ok ==> pending@ == visit_level(next, w0, level@, i as int).pending,
                result@.no_duplicates(),
                forall|x: u128| visited@.contains(x) <==> result@.contains(x),
                forall|x: u128| w0.result.contains(x) ==> result@.contains(x),
                forall|k: int| 0 <= k < i ==> result@.contains(#[trigger] level@[k]),
            decreases level@.len() - i,
        {
            let node: u128 = level[i];
            let ghost before = result@;
            if visited.insert(node) {
                result.push(node);
                let ns = get_neighbors(node);
                push_unvisited(&mut pending, &ns, &visited);
                proof {
                    assert forall|x: u128| visited@.contains(x) <==> result@.contains(x) by {
                        if x == node {
                            assert(result@[before.len() as int] == node);
                        }
                        if before.contains(x) {
                            let k = choose|k: int| 0 <= k < before.len() && before[k] == x;
                            assert(result@[k] == x);
                        }
                    }
                    assert forall|x: u128| w0.result.contains(x) implies result@.contains(x) by {
                        let k = choose|k: int| 0 <= k < before.len() && before[k] == x;
                        assert(result@[k] == x);
                    }
                    assert forall|k: int| 0 <= k < i + 1 implies result@.contains(
                        #[trigger] level@[k],
                    ) by {
                        if k < i {
                            let kk = choose|kk: int| 0 <= kk < before.len() && before[kk] == level@[k];
                            assert(result@[kk] == level@[k]);
                        } else {
                            assert(result@[before.len() as int] == node);
                        }
                    }
                }
            }
            i += 1;
        }
        proof {
            assert forall|k: int| 0 <= k < start@.len() implies result@.contains(
                #[trigger] start@[k],
            ) by {}
        }
        level = pending;
        if depth == max_depth {
            done = true;
        } else {
            depth += 1;
        }
    }
    result
}

/// Breadth-first traversal from `start`, at most `max_depth` steps deep.
/// Every start node is visited, even at depth 0; no node is visited twice;
/// the nodes come in the order of first discovery.
pub fn bfs<F>(start: &[u128], max_depth: usize, get_neighbors: F) -> (r: Vec<u128>) where
    F: Fn(u128) -> Vec<u128>,

    requires
        forall|id: u128| call_requires(get_neighbors, (id,)),
    ensures
        deterministic(get_neighbors) ==> r@ == spec_bfs(
            |id: u128| answer_of(get_neighbors, id),
            start@,
            max_depth as nat,
        ),
        r@.no_duplicates(),
        forall|i: int| 0 <= i < start@.len() ==> r@.contains(#[trigger] start@[i]),
{
    proof {
        if deterministic(get_neighbors) {
            lemma_deterministic_agrees(get_neighbors);
        }
    }
    bfs_over(start, max_depth, &get_neighbors, Ghost(|id: u128| answer_of(get_neighbors, id)))
}

/// The ids of a list as a set.
fn set_of(ids: &Vec<u128>) -> (r: HashSet<u128>)
    ensures
        r@ == ids@.to_set(),
{
    let mut out: HashSet<u128> = HashSet::new();
    let mut i: usize = 0;
    assert(out@ =~= ids@.subrange(0, 0).to_set());
    while i < ids.len()
        invariant
            i <= ids@.len(),
            out@ == ids@.subrange(0, i as int).to_set(),
        decreases ids@.len() - i,
    {
        let ghost before = ids@.subrange(0, i as int);
        out.insert(ids[i]);
        i += 1;
        proof {
            let now = ids@.subrange(0, i as int);
            assert(now =~= before.push(ids@[i - 1]));
            assert forall|x: u128| out@.contains(x) <==> now.to_set().contains(x) by {
                if before.contains(x) {
                    let k = choose|k: int| 0 <= k < before.len() && before[k] == x;
                    assert(now[k] == x);
                }
                if x == ids@[i - 1] {
                    assert(now[i - 1] == x);
                }
            }
            assert(out@ =~= now.to_set());
        }
    }
    assert(ids@.subrange(0, ids@.len() as int) =~= ids@);
    out
}

/// The state of a depth-first walk: the nodes visited so far, the same
/// nodes in the order of their first visit, and the stack of nodes to
/// look at.
pub ghost struct Descent {
    pub visited: Set<u128>,
    pub result: Seq<u128>,
    pub stack: Seq<u128>,
}

/// One step of a depth-first walk through the nodes of `within`: the top
/// of the stack is taken off; if it is one of these nodes and was not
/// visited before, it is recorded, and its neighbours that are not yet
/// visited are put on the stack, the last one on top. With an empty
/// stack nothing changes.
pub open spec fn dfs_step(next: spec_fn(u128) -> Seq<u128>, within: Set<u128>, d: Descent) -> Descent {
    if d.stack.len() == 0 {
        d
    } else {
        let node = d.stack.last();
        let rest = d.stack.drop_last();
        if !within.contains(node) || d.visited.contains(node) {
            Descent { stack: rest, ..d }
        } else {
            let visited = d.visited.insert(node);
            Descent {
                visited,
                result: d.result.push(node),
                stack: rest + unvisited(next(node), visited),
            }
        }
    }
}

/// The state after `n` steps.
pub open spec fn dfs_after(
    next: spec_fn(u128) -> Seq<u128>,
    within: Set<u128>,
    d: Descent,
    n: nat,
) -> Descent
    decreases n,
{
    if n == 0 {
        d
    } else {
        dfs_step(next, within, dfs_after(next, within, d, (n - 1) as nat))
    }
}

/// `r` is the record of the depth-first walk from `start` through the
/// nodes of `within`: the walk begins with nothing visited and the start
/// nodes on the stack, the last one on top, and comes to an empty stack
/// after some number of steps, with `r` as its record.
pub open spec fn is_dfs(
    next: spec_fn(u128) -> Seq<u128>,
    within: Set<u128>,
    start: Seq<u128>,
    r: Seq<u128>,
) -> bool {
    exists|n: nat|
        (#[trigger] dfs_after(
            next,
            within,
            Descent { visited: Set::empty(), result: Seq::empty(), stack: start },
            n,
        )).stack.len() == 0 && dfs_after(
            next,
            within,
            Descent { visited: Set::empty(), result: Seq::empty(), stack: start },
            n,
        ).result == r
}

/// Once the stack is empty, more steps change nothing.
pub proof fn lemma_dfs_settled(
    next: spec_fn(u128) -> Seq<u128>,
    within: Set<u128>,
    d: Descent,
    n: nat,
    m: nat,
)
    requires
        dfs_after(next, within, d, n).stack.len() == 0,
        n <= m,
    ensures
        dfs_after(next, within, d, m) == dfs_after(next, within, d, n),
    decreases m - n,
{
    if n < m {
        lemma_dfs_settled(next, within, d, n, (m - 1) as nat);
    }
}

/// A depth-first walk has one record only.
pub proof fn lemma_dfs_unique(
    next: spec_fn(u128) -> Seq<u128>,
    within: Set<u128>,
    start: Seq<u128>,
    r1: Seq<u128>,
    r2: Seq<u128>,
)
    requires
        is_dfs(next, within, start, r1),
        is_dfs(next, within, start, r2),
    ensures
        r1 == r2,
{
    let d = Descent { visited: Set::empty(), result: Seq::empty(), stack: start };
    let n1 = choose|n: nat|
        (#[trigger] dfs_after(next, within, d, n)).stack.len() == 0 && dfs_after(
            next,
            within,
            d,
            n,
        ).result == r1;
    let n2 = choose|n: nat|
        (#[trigger] dfs_after(next, within, d, n)).stack.len() == 0 && dfs_after(
            next,
            within,
            d,
            n,
        ).result == r2;
    if n1 <= n2 {
        lemma_dfs_settled(next, within, d, n1, n2);
    } else {
        lemma_dfs_settled(next, within, d, n2, n1);
    }
}

/// Among the nodes of `within`, whatever lies one step from a seen node
/// is seen or waits on the stack.
pub open spec fn closed_but_for(
    next: spec_fn(u128) -> Seq<u128>,
    within: Set<u128>,
    seen: Set<u128>,
    stack: Seq<u128>,
) -> bool {
    forall|y: u128, z: u128|
        seen.contains(y) && #[trigger] next(y).contains(z) && within.contains(z) ==> seen.contains(
            z,
        ) || stack.contains(z)
}

/// Depth-first traversal over a neighbour function whose answers are known
/// to be `next`: a walk through the nodes that lie within `max_depth`
/// steps of the start nodes, which goes on from the node it came to last.
pub(crate) fn dfs_over<F>(
    start: &[u128],
    max_depth: usize,
    get_neighbors: &F,
    Ghost(next): Ghost<spec_fn(u128) -> Seq<u128>>,
) -> (r: Vec<u128>) where F: Fn(u128) -> Vec<u128>
    requires
        forall|id: u128| call_requires(*get_neighbors, (id,)),
    ensures
        agrees(*get_neighbors, next) ==> r@.to_set() == reach_within(
            next,
            start@.to_set(),
            max_depth as nat,
        ),
        agrees(*get_neighbors, next) ==> is_dfs(
            next,
            reach_within(next, start@.to_set(), max_depth as nat),
            start@,
            r@,
        ),
        r@.no_duplicates(),
        forall|i: int| 0 <= i < start@.len() ==> r@.contains(#[trigger] start@[i]),
{
    // the nodes that lie within the depth
    let near = bfs_over(start, max_depth, get_neighbors, Ghost(next));
    let within = set_of(&near);
    let ghost ok = agrees(*get_neighbors, next);
    let ghost goal = reach_within(next, start@.to_set(), max_depth as nat);
    proof {
        if ok {
            lemma_bfs_reaches(next, start@, max_depth as nat);
        }
    }
    let mut visited: HashSet<u128> = HashSet::new();
    let mut result: Vec<u128> = Vec::new();
    let mut stack: Vec<u128> = slice_to_vec(start);
    let ghost d0 = Descent { visited: Set::empty(), result: Seq::empty(), stack: start@ };
    let ghost mut steps: nat = 0;
    proof {
        assert forall|i: int| 0 <= i < start@.len() implies stack@.contains(
            #[trigger] start@[i],
        ) by {
            assert(stack@[i] == start@[i]);
        }
    }
    while stack.len() > 0
        invariant
            forall|id: u128| call_requires(*get_neighbors, (id,)),
            ok == agrees(*get_neighbors, next),
            ok ==> within@ =~= goal,
            forall|i: int| 0 <= i < start@.len() ==> within@.contains(#[trigger] start@[i]),
            result@.no_duplicates(),
            forall|x: u128| visited@.contains(x) <==> result@.contains(x),
            forall|x: u128| visited@.contains(x) ==> within@.contains(x),
            result@.len() <= usize::MAX,
            forall|i: int|
                0 <= i < start@.len() ==> result@.contains(#[trigger] start@[i]) || stack@.contains(
                    start@[i],
                ),
            ok ==> closed_but_for(next, within@, visited@, stack@),
            d0 == (Descent { visited: Set::empty(), result: Seq::empty(), stack: start@ }),
            ok ==> dfs_after(next, goal, d0, steps) == (Descent {
                visited: visited@,
                result: result@,
                stack: stack@,
            }),
        decreases usize::MAX - result@.len(), stack@.len(),
    {
        let ghost old_stack = stack@;
        let ghost before = result@;
        let ghost seen = visited@;
        let node: u128 = stack.pop().unwrap();
        let ghost rest = stack@;
        proof {
            steps = steps + 1;
            assert(rest =~= old_stack.drop_last());
        }
        let fresh: bool = if within.contains(&node) {
            visited.insert(node)
        } else {
            false
        };
        if fresh {
            result.push(node);
            let n: usize = result.len();
            let ns = get_neighbors(node);
            push_unvisited(&mut stack, &ns, &visited);
            proof {
                assert forall|x: u128| visited@.contains(x) <==> result@.contains(x) by {
                    if x == node {
                        assert(result@[before.len() as int] == node);
                    }
                    if before.contains(x) {
                        let k = choose|k: int| 0 <= k < before.len() && before[k] == x;
                        assert(result@[k] == x);
                    }
                }
                assert forall|z: u128| rest.contains(z) implies stack@.contains(z) by {
                    let j = choose|j: int| 0 <= j < rest.len() && rest[j] == z;
                    assert(stack@[j] == z);
                }
                assert forall|z: u128| old_stack.contains(z) implies z == node || rest.contains(
                    z,
                ) by {
                    let j = choose|j: int| 0 <= j < old_stack.len() && old_stack[j] == z;
                    if j < old_stack.len() - 1 {
                        assert(rest[j] == z);
                    }
                }
                if ok {
                    assert(ns@ == next(node));
                    let prev = dfs_after(next, goal, d0, (steps - 1) as nat);
                    assert(prev.stack.last() == node);
                    assert(goal.contains(node) && !prev.visited.contains(node));
                    assert(visited@ =~= prev.visited.insert(node));
                    assert(result@ =~= prev.result.push(node));
                    assert(stack@ =~= prev.stack.drop_last() + unvisited(next(node), visited@));
                    assert forall|y: u128, z: u128|
                        visited@.contains(y) && #[trigger] next(y).contains(z)
                            && within@.contains(z) implies visited@.contains(z) || stack@.contains(
                        z,
                    ) by {
                        if y == node {
                            if !visited@.contains(z) {
                                let u = unvisited(ns@, visited@);
                                lemma_unvisited_one(ns@, visited@, z);
                                let j = choose|j: int| 0 <= j < u.len() && u[j] == z;
                                assert(stack@[rest.len() + j] == z);
                            }
                        } else {
                            assert(seen.contains(y));
                            assert(seen.contains(z) || old_stack.contains(z));
                        }
                    }
                }
            }
        } else {
            proof {
                assert forall|z: u128| old_stack.contains(z) implies z == node || rest.contains(
                    z,
                ) by {
                    let j = choose|j: int| 0 <= j < old_stack.len() && old_stack[j] == z;
                    if j < old_stack.len() - 1 {
                        assert(rest[j] == z);
                    }
                }
                if ok {
                    let prev = dfs_after(next, goal, d0, (steps - 1) as nat);
                    assert(prev.stack.last() == node);
                    assert(!goal.contains(node) || prev.visited.contains(node));
                    assert(visited@ =~= prev.visited);
                    assert(stack@ =~= prev.stack.drop_last());
                    assert forall|y: u128, z: u128|
                        visited@.contains(y) && #[trigger] next(y).contains(z)
                            && within@.contains(z) implies visited@.contains(z) || stack@.contains(
                        z,
                    ) by {
                        assert(seen.contains(z) || old_stack.contains(z));
                    }
                }
            }
        }
    }
    proof {
        assert forall|i: int| 0 <= i < start@.len() implies result@.contains(
            #[trigger] start@[i],
        ) by {
            assert(!stack@.contains(start@[i]));
        }
        if ok {
            assert forall|x: u128| start@.to_set().contains(x) implies visited@.contains(x) by {
                let i = choose|i: int| 0 <= i < start@.len() && start@[i] == x;
                assert(result@.contains(start@[i]));
            }
            assert forall|y: u128, z: u128|
                visited@.contains(y) && #[trigger] next(y).contains(z) && goal.contains(
                    z,
                ) implies visited@.contains(z) by {
                assert(within@.contains(z));
                assert(!stack@.contains(z));
            }
            lemma_closed_covers(next, start@.to_set(), visited@, max_depth as nat, max_depth as nat);
            assert(result@.to_set() =~= goal);
        }
    }
    result
}

/// Depth-first traversal from `start`: the nodes that lie within
/// `max_depth` steps of the start nodes, each once, in the order of a walk
/// through these nodes that goes on from the node it came to last. The
/// last start node is visited first, and of the neighbours of a node the
/// last one.
pub fn dfs<F>(start: &[u128], max_depth: usize, get_neighbors: F) -> (r: Vec<u128>) where
    F: Fn(u128) -> Vec<u128>,

    requires
        forall|id: u128| call_requires(get_neighbors, (id,)),
    ensures
        deterministic(get_neighbors) ==> r@.to_set() == reach_within(
            |id: u128| answer_of(get_neighbors, id),
            start@.to_set(),
            max_depth as nat,
        ),
        deterministic(get_neighbors) ==> is_dfs(
            |id: u128| answer_of(get_neighbors, id),
            reach_within(|id: u128| answer_of(get_neighbors, id), start@.to_set(), max_depth as nat),
            start@,
            r@,
        ),
        r@.no_duplicates(),
        forall|i: int| 0 <= i < start@.len() ==> r@.contains(#[trigger] start@[i]),
{
    proof {
        if deterministic(get_neighbors) {
            lemma_deterministic_agrees(get_neighbors);
        }
    }
    dfs_over(start, max_depth, &get_neighbors, Ghost(|id: u128| answer_of(get_neighbors, id)))
}

} // verus!
