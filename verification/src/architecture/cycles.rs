//! Depth-first search for the first directed dependency cycle.

use vstd::prelude::*;

use crate::behavior::graph::{adjacency_wf, has_edge};

verus! {

/// A closed walk of at least one edge.
pub open spec fn is_cycle(adj: Seq<Seq<usize>>, c: Seq<int>) -> bool {
    &&& c.len() >= 2
    &&& c[0] == c.last()
    &&& forall|k: int| 0 <= k < c.len() - 1 ==> has_edge(adj, #[trigger] c[k], c[k + 1])
}

/// The graph has no closed walk.
pub open spec fn acyclic(adj: Seq<Seq<usize>>) -> bool {
    forall|c: Seq<int>| !#[trigger] is_cycle(adj, c)
}

/// The state of the depth-first search: each node's visit state (unseen,
/// visiting, complete), the path of visiting nodes, the stack of nodes with
/// the offset of their next successor, the next start node, and the cycle
/// found, if any.
pub struct DfsState {
    pub state: Seq<u8>,
    pub path: Seq<usize>,
    pub stack: Seq<(usize, usize)>,
    pub start: int,
    pub found: Option<Seq<int>>,
}

/// The search has found a cycle, or has tried every start node.
pub open spec fn dfs_done(adj: Seq<Seq<usize>>, s: DfsState) -> bool {
    s.found is Some || (s.stack.len() == 0 && s.start >= adj.len())
}

/// The closed walk from the path's node `dep` along the path and back to it.
pub open spec fn closing_walk(path: Seq<usize>, dep: usize) -> Seq<int> {
    let p = choose|p: int| 0 <= p < path.len() && path[p] == dep;
    path.subrange(p, path.len() as int).push(dep).map_values(|x: usize| x as int)
}

/// One step of the search. With an empty stack, an unseen start node opens
/// a frame, and a seen one is passed. Otherwise the top frame is completed
/// when its successors are exhausted; else its next successor is taken: an
/// unseen one is entered, a visiting one closes a cycle, a complete one is
/// passed.
pub open spec fn dfs_step(adj: Seq<Seq<usize>>, s: DfsState) -> DfsState {
    if dfs_done(adj, s) {
        s
    } else if s.stack.len() == 0 {
        if s.state[s.start] == 0 {
            DfsState {
                state: s.state.update(s.start, 1),
                path: seq![s.start as usize],
                stack: seq![(s.start as usize, 0usize)],
                start: s.start,
                found: None,
            }
        } else {
            DfsState { start: s.start + 1, ..s }
        }
    } else {
        let node = s.stack.last().0;
        let offset = s.stack.last().1;
        if offset >= adj[node as int].len() {
            DfsState {
                state: s.state.update(node as int, 2),
                path: s.path.drop_last(),
                stack: s.stack.drop_last(),
                ..s
            }
        } else {
            let dep = adj[node as int][offset as int];
            let advanced = s.stack.update(s.stack.len() - 1, (node, (offset + 1) as usize));
            if s.state[dep as int] == 0 {
                DfsState {
                    state: s.state.update(dep as int, 1),
                    path: s.path.push(dep),
                    stack: advanced.push((dep, 0usize)),
                    ..s
                }
            } else if s.state[dep as int] == 1 {
                DfsState { stack: advanced, found: Some(closing_walk(s.path, dep)), ..s }
            } else {
                DfsState { stack: advanced, ..s }
            }
        }
    }
}

/// The search before any step: every node unseen.
pub open spec fn dfs_init(adj: Seq<Seq<usize>>) -> DfsState {
    DfsState { state: Seq::new(adj.len(), |x: int| 0u8), path: Seq::empty(), stack: Seq::empty(), start: 0, found: None }
}

/// The search after `k` steps.
pub open spec fn dfs_run(adj: Seq<Seq<usize>>, k: nat) -> DfsState
    decreases k,
{
    if k == 0 {
        dfs_init(adj)
    } else {
        dfs_step(adj, dfs_run(adj, (k - 1) as nat))
    }
}

/// The cycle the depth-first search finds first, starting nodes in order
/// and taking each node's successors in order, if it finds one.
pub open spec fn first_dfs_cycle(adj: Seq<Seq<usize>>) -> Option<Seq<int>> {
    dfs_run(adj, choose|k: nat| dfs_done(adj, #[trigger] dfs_run(adj, k))).found
}

proof fn lemma_dfs_stays(adj: Seq<Seq<usize>>, k: nat, j: nat)
    requires
        dfs_done(adj, dfs_run(adj, k)),
        k <= j,
    ensures
        dfs_run(adj, j) == dfs_run(adj, k),
    decreases j - k,
{
    if j > k {
        lemma_dfs_stays(adj, k, (j - 1) as nat);
    }
}

/// Once the search is done after `k` steps, its outcome is the first cycle.
proof fn lemma_dfs_outcome(adj: Seq<Seq<usize>>, k: nat)
    requires
        dfs_done(adj, dfs_run(adj, k)),
    ensures
        first_dfs_cycle(adj) == dfs_run(adj, k).found,
{
    let c = choose|k: nat| dfs_done(adj, #[trigger] dfs_run(adj, k));
    assert(dfs_done(adj, dfs_run(adj, c)));
    if c <= k {
        lemma_dfs_stays(adj, c, k);
    } else {
        lemma_dfs_stays(adj, k, c);
    }
}

/// Remaining successors on the search stack.
pub open spec fn remaining(adj: Seq<Seq<usize>>, stack: Seq<(usize, usize)>) -> nat
    decreases stack.len(),
{
    if stack.len() == 0 {
        0
    } else {
        let top = stack.last();
        remaining(adj, stack.drop_last()) + (if top.0 < adj.len() && top.1 <= adj[top.0 as int].len() {
            (adj[top.0 as int].len() - top.1) as nat
        } else {
            0nat
        })
    }
}

/// Number of unseen nodes.
pub open spec fn unseen(state: Seq<u8>) -> nat
    decreases state.len(),
{
    if state.len() == 0 {
        0
    } else {
        unseen(state.drop_last()) + (if state.last() == 0 { 1nat } else { 0nat })
    }
}

proof fn lemma_unseen_update(state: Seq<u8>, x: int, v: u8)
    requires
        0 <= x < state.len(),
        state[x] == 0,
        v != 0,
    ensures
        unseen(state.update(x, v)) + 1 == unseen(state),
    decreases state.len(),
{
    let s2 = state.update(x, v);
    if x == state.len() - 1 {
        assert(s2.drop_last() =~= state.drop_last());
    } else {
        assert(s2.drop_last() =~= state.drop_last().update(x, v));
        lemma_unseen_update(state.drop_last(), x, v);
    }
}

proof fn lemma_unseen_same(state: Seq<u8>, x: int, v: u8)
    requires
        0 <= x < state.len(),
        state[x] != 0,
        v != 0,
    ensures
        unseen(state.update(x, v)) == unseen(state),
    decreases state.len(),
{
    let s2 = state.update(x, v);
    if x == state.len() - 1 {
        assert(s2.drop_last() =~= state.drop_last());
    } else {
        assert(s2.drop_last() =~= state.drop_last().update(x, v));
        lemma_unseen_same(state.drop_last(), x, v);
    }
}

proof fn lemma_remaining_set_top(adj: Seq<Seq<usize>>, stack: Seq<(usize, usize)>, off: usize)
    requires
        stack.len() > 0,
        (stack.last().0 as int) < adj.len(),
        stack.last().1 < off <= adj[stack.last().0 as int].len(),
    ensures
        remaining(adj, stack.update(stack.len() - 1, (stack.last().0, off))) + (off - stack.last().1) == remaining(adj, stack),
{
    let s2 = stack.update(stack.len() - 1, (stack.last().0, off));
    assert(s2.drop_last() =~= stack.drop_last());
}

/// The search state: the path is a walk of visiting nodes matching the stack;
/// complete nodes have complete successors of lower completion rank; every
/// successor already passed on the stack is complete, or is the next node
/// of the path.
pub open spec fn search_inv(
    adj: Seq<Seq<usize>>,
    state: Seq<u8>,
    rank: Seq<nat>,
    counter: nat,
    path: Seq<usize>,
    stack: Seq<(usize, usize)>,
) -> bool {
    &&& state.len() == adj.len()
    &&& rank.len() == adj.len()
    &&& path.len() == stack.len()
    &&& forall|k: int| 0 <= k < path.len() ==> (#[trigger] path[k] as int) < adj.len() && stack[k].0 == path[k]
        && stack[k].1 <= adj[path[k] as int].len()
    &&& forall|x: int| 0 <= x < adj.len() ==> (#[trigger] state[x] <= 2)
    &&& forall|a: int, b: int| 0 <= a < b < path.len() ==> path[a] != path[b]
    &&& forall|x: int| 0 <= x < adj.len() ==> (state[x] == 1 <==> path.contains(x as usize))
    &&& forall|k: int| 0 <= k < path.len() - 1 ==> has_edge(adj, #[trigger] path[k] as int, path[k + 1] as int)
    &&& forall|x: int, y: int|
        0 <= x < adj.len() && state[x] == 2 && #[trigger] has_edge(adj, x, y) ==> state[y] == 2 && rank[y] < rank[x]
    &&& forall|x: int| 0 <= x < adj.len() && state[x] == 2 ==> rank[x] < counter
    &&& frames_ok(adj, state, path, stack)
}

/// Every successor already passed on the stack is complete, or is the next
/// node of the path.
pub open spec fn frames_ok(adj: Seq<Seq<usize>>, state: Seq<u8>, path: Seq<usize>, stack: Seq<(usize, usize)>) -> bool {
    forall|k: int, j: int|
        0 <= k < stack.len() && 0 <= j < stack[k].1 ==> #[trigger] frame_entry_ok(adj, state, path, stack, k, j)
}

/// One passed successor is complete, or is the next node of the path.
pub open spec fn frame_entry_ok(adj: Seq<Seq<usize>>, state: Seq<u8>, path: Seq<usize>, stack: Seq<(usize, usize)>, k: int, j: int) -> bool {
    state[adj[stack[k].0 as int][j] as int] == 2 || (k < stack.len() - 1 && j == stack[k].1 - 1
        && adj[stack[k].0 as int][j] == path[k + 1])
}

proof fn lemma_frames_after_pop(adj: Seq<Seq<usize>>, state: Seq<u8>, path: Seq<usize>, stack: Seq<(usize, usize)>)
    requires
        frames_ok(adj, state, path, stack),
        adjacency_wf(adj),
        state.len() == adj.len(),
        forall|k: int| 0 <= k < stack.len() ==> (#[trigger] stack[k].0 as int) < adj.len() && stack[k].1 <= adj[stack[k].0 as int].len(),
        stack.len() > 0,
        path.len() == stack.len(),
        (path.last() as int) < state.len(),
    ensures
        frames_ok(adj, state.update(path.last() as int, 2), path.drop_last(), stack.drop_last()),
{
    let s2 = state.update(path.last() as int, 2);
    let p2 = path.drop_last();
    let t2 = stack.drop_last();
    assert forall|k: int, j: int| 0 <= k < t2.len() && 0 <= j < t2[k].1 implies #[trigger] frame_entry_ok(adj, s2, p2, t2, k, j) by {
        assert(t2[k] == stack[k]);
        assert(frame_entry_ok(adj, state, path, stack, k, j));
        let x = adj[stack[k].0 as int][j];
        assert((x as int) < adj.len());
        if state[x as int] != 2 {
            assert(k < stack.len() - 1 && j == stack[k].1 - 1 && x == path[k + 1]);
            if k + 1 < p2.len() {
                assert(k < t2.len() - 1);
                assert(j == t2[k].1 - 1);
                assert(p2[k + 1] == path[k + 1]);
            } else {
                assert(x == path.last());
                assert(s2[x as int] == 2);
            }
        } else {
            if x == path.last() {
                assert(s2[x as int] == 2);
            } else {
                assert(s2[x as int] == state[x as int]);
            }
        }
    }
}

proof fn lemma_frames_after_push(
    adj: Seq<Seq<usize>>,
    state: Seq<u8>,
    path: Seq<usize>,
    stack: Seq<(usize, usize)>,
    dep: usize,
)
    requires
        frames_ok(adj, state, path, stack),
        adjacency_wf(adj),
        state.len() == adj.len(),
        forall|k: int| 0 <= k < stack.len() ==> (#[trigger] stack[k].0 as int) < adj.len() && stack[k].1 <= adj[stack[k].0 as int].len(),
        stack.len() > 0,
        path.len() == stack.len(),
        (dep as int) < state.len(),
        state[dep as int] == 0,
        (stack.last().0 as int) < adj.len(),
        stack.last().1 < adj[stack.last().0 as int].len(),
        adj[stack.last().0 as int][stack.last().1 as int] == dep,
    ensures
        frames_ok(
            adj,
            state.update(dep as int, 1),
            path.push(dep),
            stack.update(stack.len() - 1, (stack.last().0, (stack.last().1 + 1) as usize)).push((dep, 0usize)),
        ),
{
    let top = stack.len() - 1;
    let s2 = state.update(dep as int, 1);
    let p2 = path.push(dep);
    let t2 = stack.update(top, (stack.last().0, (stack.last().1 + 1) as usize)).push((dep, 0usize));
    assert forall|k: int, j: int| 0 <= k < t2.len() && 0 <= j < t2[k].1 implies #[trigger] frame_entry_ok(adj, s2, p2, t2, k, j) by {
        if k < top {
            assert(t2[k] == stack[k]);
            assert(p2[k + 1] == path[k + 1]);
            assert(frame_entry_ok(adj, state, path, stack, k, j));
            let x = adj[stack[k].0 as int][j];
            assert((x as int) < adj.len());
            if state[x as int] == 2 {
                assert(x != dep);
                assert(s2[x as int] == 2);
            } else {
                assert(k < stack.len() - 1 && j == stack[k].1 - 1 && x == path[k + 1]);
                assert(k < t2.len() - 1);
            }
        } else if k == top {
            assert(t2[k] == (stack[k].0, (stack[k].1 + 1) as usize));
            if j < stack[k].1 {
                assert(frame_entry_ok(adj, state, path, stack, k, j));
                let x = adj[stack[k].0 as int][j];
                assert((x as int) < adj.len());
                assert(state[x as int] == 2);
                assert(x != dep);
                assert(s2[x as int] == 2);
            } else {
                assert(p2[k + 1] == dep);
                assert(k < t2.len() - 1);
            }
        } else {
            assert(t2[k].1 == 0);
        }
    }
}

proof fn lemma_frames_after_advance(adj: Seq<Seq<usize>>, state: Seq<u8>, path: Seq<usize>, stack: Seq<(usize, usize)>)
    requires
        frames_ok(adj, state, path, stack),
        stack.len() > 0,
        (stack.last().0 as int) < adj.len(),
        stack.last().1 < adj[stack.last().0 as int].len(),
        state[adj[stack.last().0 as int][stack.last().1 as int] as int] == 2,
    ensures
        frames_ok(adj, state, path, stack.update(stack.len() - 1, (stack.last().0, (stack.last().1 + 1) as usize))),
{
    let top = stack.len() - 1;
    let t2 = stack.update(top, (stack.last().0, (stack.last().1 + 1) as usize));
    assert forall|k: int, j: int| 0 <= k < t2.len() && 0 <= j < t2[k].1 implies #[trigger] frame_entry_ok(adj, state, path, t2, k, j) by {
        if k < top {
            assert(t2[k] == stack[k]);
            assert(frame_entry_ok(adj, state, path, stack, k, j));
        } else if j < stack[k].1 {
            assert(frame_entry_ok(adj, state, path, stack, k, j));
        }
    }
}

proof fn lemma_rank_decreases(adj: Seq<Seq<usize>>, state: Seq<u8>, rank: Seq<nat>, c: Seq<int>, k: int)
    requires
        forall|x: int| 0 <= x < adj.len() ==> state[x] == 2,
        forall|x: int, y: int|
            0 <= x < adj.len() && state[x] == 2 && #[trigger] has_edge(adj, x, y) ==> state[y] == 2 && rank[y] < rank[x],
        forall|t: int| 0 <= t < c.len() - 1 ==> has_edge(adj, #[trigger] c[t], c[t + 1]),
        1 <= k < c.len(),
    ensures
        rank[c[k]] < rank[c[0]],
    decreases k,
{
    assert(has_edge(adj, c[k - 1], c[k]));
    if k > 1 {
        lemma_rank_decreases(adj, state, rank, c, k - 1);
    } else {
        assert(has_edge(adj, c[0], c[1]));
    }
}

/// Searches depth first, starting nodes in order, for the first closed walk.
#[verifier::rlimit(80)]
pub fn first_cycle(adj: &Vec<Vec<usize>>) -> (r: Option<Vec<usize>>)
    requires
        adjacency_wf(adj@.map_values(|s: Vec<usize>| s@)),
    ensures
        r matches Some(c) ==> is_cycle(adj@.map_values(|s: Vec<usize>| s@), c@.map_values(|x: usize| x as int)),
        r is None ==> acyclic(adj@.map_values(|s: Vec<usize>| s@)),
        match first_dfs_cycle(adj@.map_values(|s: Vec<usize>| s@)) {
            Some(c) => r matches Some(v) && v@.map_values(|x: usize| x as int) == c,
            None => r is None,
        },
        r matches Some(c) ==> forall|a: int, b: int| 0 <= a < b < c@.len() - 1 ==> c@[a] != c@[b],
{
    let ghost g = adj@.map_values(|s: Vec<usize>| s@);
    let m = adj.len();
    assert(g.len() == m);
    let mut state: Vec<u8> = Vec::new();
    let ghost mut rank: Seq<nat> = Seq::empty();
    let mut i: usize = 0;
    while i < m
        invariant
            i <= m,
            state@.len() == i,
            rank.len() == i,
            forall|x: int| 0 <= x < i ==> state@[x] == 0,
        decreases m - i,
    {
        state.push(0);
        proof {
            rank = rank.push(0);
        }
        i = i + 1;
    }
    let ghost mut counter: nat = 0;
    let ghost mut steps: nat = 0;
    assert(state@ =~= dfs_init(g).state);
    let mut start: usize = 0;
    while start < m
        invariant
            g == adj@.map_values(|s: Vec<usize>| s@),
            g.len() == m,
            adjacency_wf(g),
            start <= m,
            dfs_run(g, steps) == (DfsState { state: state@, path: Seq::empty(), stack: Seq::empty(), start: start as int, found: None }),
            search_inv(g, state@, rank, counter, Seq::empty(), Seq::empty()),
            forall|x: int| 0 <= x < start ==> state@[x] == 2,
        decreases m - start,
    {
        if state[start] == 0 {
            proof {
                lemma_unseen_update(state@, start as int, 1);
            }
            state.set(start, 1);
            let mut path: Vec<usize> = Vec::new();
            path.push(start);
            let mut stack: Vec<(usize, usize)> = Vec::new();
            stack.push((start, 0));
            proof {
                steps = steps + 1;
                assert(path@ =~= seq![start]);
                assert(stack@ =~= seq![(start, 0usize)]);
                assert(dfs_run(g, steps) == (DfsState { state: state@, path: path@, stack: stack@, start: start as int, found: None }));
            }
            assert(search_inv(g, state@, rank, counter, path@, stack@)) by {
                assert forall|x: int| 0 <= x < g.len() implies (state@[x] == 1 <==> path@.contains(x as usize)) by {
                    if x == start as int {
                        assert(path@[0] == start);
                    }
                }
            }
            while stack.len() > 0
                invariant
                    g == adj@.map_values(|s: Vec<usize>| s@),
                    g.len() == m,
                    adjacency_wf(g),
                    start < m,
                    search_inv(g, state@, rank, counter, path@, stack@),
                    dfs_run(g, steps) == (DfsState { state: state@, path: path@, stack: stack@, start: start as int, found: None }),
                    forall|x: int| 0 <= x < start ==> state@[x] == 2,
                    state@[start as int] != 0,
                decreases unseen(state@), remaining(g, stack@), stack@.len(),
            {
                let top = stack.len() - 1;
                let (node, offset) = stack[top];
                assert((path@[top as int] as int) < g.len() && stack@[top as int].0 == path@[top as int]);
                assert(g[node as int] == adj@[node as int]@);
                if offset >= adj[node].len() {
                    proof {
                        assert(path@[top as int] == node);
                        assert forall|j: int| 0 <= j < g[node as int].len() implies state@[g[node as int][j] as int] == 2 by {
                            assert(stack@[top as int].1 == offset);
                            assert(frame_entry_ok(g, state@, path@, stack@, top as int, j));
                        }
                        lemma_unseen_same(state@, node as int, 2);
                        rank = rank.update(node as int, counter);
                        counter = counter + 1;
                    }
                    let ghost old_state = state@;
                    let ghost old_path = path@;
                    let ghost old_stack = stack@;
                    state.set(node, 2);
                    stack.pop();
                    path.pop();
                    proof {
                        assert(stack@ =~= old_stack.drop_last());
                        assert(path@ =~= old_path.drop_last());
                        assert(old_stack.drop_last() =~= old_stack.subrange(0, old_stack.len() - 1));
                        assert forall|x: int| 0 <= x < g.len() implies (state@[x] == 1 <==> path@.contains(x as usize)) by {
                            if x == node as int {
                                if path@.contains(x as usize) {
                                    let k = choose|k: int| 0 <= k < path@.len() && path@[k] == x as usize;
                                    assert(old_path[k] == node);
                                    assert(old_path[top as int] == node);
                                    assert(false);
                                }
                            } else {
                                if old_path.contains(x as usize) {
                                    let k = choose|k: int| 0 <= k < old_path.len() && old_path[k] == x as usize;
                                    if k < path@.len() {
                                        assert(path@[k] == x as usize);
                                    }
                                }
                                if path@.contains(x as usize) {
                                    let k = choose|k: int| 0 <= k < path@.len() && path@[k] == x as usize;
                                    assert(old_path[k] == x as usize);
                                }
                            }
                        }
                        assert forall|x: int, y: int| 0 <= x < g.len() && state@[x] == 2 && #[trigger] has_edge(g, x, y) implies state@[y] == 2 && rank[y] < rank[x] by {
                            if x == node as int {
                                let j = choose|j: int| 0 <= j < g[x].len() && g[x][j] == y as usize;
                                assert(old_state[g[node as int][j] as int] == 2);
                            }
                        }
                        assert(state@ == old_state.update(node as int, 2));
                        assert(old_path.last() == node);
                        assert forall|k: int| 0 <= k < old_stack.len() implies (#[trigger] old_stack[k].0 as int) < g.len() && old_stack[k].1 <= g[old_stack[k].0 as int].len() by {
                            assert((old_path[k] as int) < g.len() && old_stack[k].0 == old_path[k]);
                        }
                        lemma_frames_after_pop(g, old_state, old_path, old_stack);
                    }
                    assert(remaining(g, old_stack) == remaining(g, stack@) + (g[node as int].len() - offset));
                    proof {
                        steps = steps + 1;
                        assert(old_stack.last() == (node, offset));
                        assert(dfs_run(g, steps) == (DfsState { state: state@, path: path@, stack: stack@, start: start as int, found: None }));
                    }
                } else {
                    let dep = adj[node][offset];
                    assert(dep == g[node as int][offset as int]);
                    assert((dep as int) < g.len());
                    let ghost old_stack = stack@;
                    proof {
                        lemma_remaining_set_top(g, stack@, (offset + 1) as usize);
                    }
                    stack.set(top, (node, offset + 1));
                    assert(stack@ =~= old_stack.update(top as int, (node, (offset + 1) as usize)));
                    let s = state[dep];
                    if s == 0 {
                        proof {
                            lemma_unseen_update(state@, dep as int, 1);
                        }
                        let ghost old_state = state@;
                        let ghost old_path = path@;
                        let ghost mid_stack = stack@;
                        state.set(dep, 1);
                        path.push(dep);
                        stack.push((dep, 0));
                        proof {
                            assert(path@[top as int] == node);
                            assert(has_edge(g, node as int, dep as int));
                            assert(!old_path.contains(dep));
                            assert forall|a: int, b: int| 0 <= a < b < path@.len() implies path@[a] != path@[b] by {
                                if b == path@.len() - 1 {
                                    assert(path@[a] == old_path[a]);
                                    assert(old_path.contains(old_path[a]));
                                } else {
                                    assert(path@[a] == old_path[a] && path@[b] == old_path[b]);
                                }
                            }
                            assert forall|x: int| 0 <= x < g.len() implies (state@[x] == 1 <==> path@.contains(x as usize)) by {
                                if x == dep as int {
                                    assert(path@[path@.len() - 1] == dep);
                                } else {
                                    if old_path.contains(x as usize) {
                                        let k = choose|k: int| 0 <= k < old_path.len() && old_path[k] == x as usize;
                                        assert(path@[k] == x as usize);
                                    }
                                    if path@.contains(x as usize) {
                                        let k = choose|k: int| 0 <= k < path@.len() && path@[k] == x as usize;
                                        if k < old_path.len() {
                                            assert(old_path[k] == x as usize);
                                        }
                                    }
                                }
                            }
                            assert(state@ == old_state.update(dep as int, 1));
                            assert(old_stack.last() == (node, offset));
                            assert forall|k: int| 0 <= k < old_stack.len() implies (#[trigger] old_stack[k].0 as int) < g.len() && old_stack[k].1 <= g[old_stack[k].0 as int].len() by {
                                assert((old_path[k] as int) < g.len() && old_stack[k].0 == old_path[k]);
                            }
                            lemma_frames_after_push(g, old_state, old_path, old_stack, dep);
                            assert forall|x: int, y: int| 0 <= x < g.len() && state@[x] == 2 && #[trigger] has_edge(g, x, y) implies state@[y] == 2 && rank[y] < rank[x] by {
                                assert(old_state[x] == 2);
                            }
                            steps = steps + 1;
                            assert(old_stack.last() == (node, offset));
                            assert(dfs_run(g, steps) == (DfsState { state: state@, path: path@, stack: stack@, start: start as int, found: None }));
                        }
                    } else if s == 1 {
                        let pos = position_in(&path, dep);
                        let mut cycle: Vec<usize> = Vec::new();
                        let mut k = pos;
                        while k < path.len()
                            invariant
                                g == adj@.map_values(|s: Vec<usize>| s@),
                                pos <= k <= path@.len(),
                                pos < path@.len(),
                                path@[pos as int] == dep,
                                forall|t: int| 0 <= t < path@.len() - 1 ==> has_edge(g, #[trigger] path@[t] as int, path@[t + 1] as int),
                                cycle@ == path@.subrange(pos as int, k as int),
                            decreases path.len() - k,
                        {
                            cycle.push(path[k]);
                            assert(cycle@ =~= path@.subrange(pos as int, k + 1));
                            k = k + 1;
                        }
                        cycle.push(dep);
                        proof {
                            let c = cycle@.map_values(|x: usize| x as int);
                            assert(path@[top as int] == node);
                            assert(has_edge(g, node as int, dep as int));
                            assert forall|t: int| 0 <= t < c.len() - 1 implies has_edge(g, #[trigger] c[t], c[t + 1]) by {
                                if t < c.len() - 2 {
                                    assert(c[t] == path@[pos + t] as int);
                                    assert(c[t + 1] == path@[pos + t + 1] as int);
                                } else {
                                    assert(c[t] == path@[path@.len() - 1] as int);
                                }
                            }
                            assert(c[0] == dep as int);
                            steps = steps + 1;
                            assert(old_stack.last() == (node, offset));
                            let p = choose|p: int| 0 <= p < path@.len() && path@[p] == dep;
                            assert(p == pos as int);
                            assert(c =~= closing_walk(path@, dep));
                            assert(dfs_run(g, steps).found == Some(c));
                            lemma_dfs_outcome(g, steps);
                        }
                        return Some(cycle);
                    } else {
                        proof {
                            assert(old_stack.last() == (node, offset));
                            lemma_frames_after_advance(g, state@, path@, old_stack);
                            steps = steps + 1;
                            assert(dfs_run(g, steps) == (DfsState { state: state@, path: path@, stack: stack@, start: start as int, found: None }));
                        }
                    }
                }
            }
            proof {
                assert(path@ =~= Seq::<usize>::empty());
                assert(stack@ =~= Seq::<(usize, usize)>::empty());
            }
        }
        proof {
            steps = steps + 1;
            assert(state@[start as int] != 0);
            assert(dfs_run(g, steps) == (DfsState { state: state@, path: Seq::empty(), stack: Seq::empty(), start: start + 1, found: None }));
        }
        start = start + 1;
    }
    proof {
        lemma_dfs_outcome(g, steps);
        assert forall|c: Seq<int>| !#[trigger] is_cycle(g, c) by {
            if is_cycle(g, c) {
                lemma_rank_decreases(g, state@, rank, c, c.len() - 1);
            }
        }
    }
    None
}

fn position_in(path: &Vec<usize>, x: usize) -> (r: usize)
    requires
        path@.contains(x),
    ensures
        r < path@.len(),
        path@[r as int] == x,
{
    let mut i: usize = 0;
    while i < path.len()
        invariant
            i <= path@.len(),
            path@.contains(x),
            forall|k: int| 0 <= k < i ==> path@[k] != x,
        decreases path.len() - i,
    {
        if path[i] == x {
            return i;
        }
        i = i + 1;
    }
    assert(false);
    0
}

} // verus!
