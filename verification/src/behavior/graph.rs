//! Reachability over small directed graphs given by adjacency lists.

use vstd::prelude::*;

verus! {

/// `adj` has an edge from `u` to `v`.
pub open spec fn has_edge(adj: Seq<Seq<usize>>, u: int, v: int) -> bool {
    0 <= u < adj.len() && 0 <= v < adj.len() && adj[u].contains(v as usize)
}

/// Every successor named by `adj` is a node of the graph.
pub open spec fn adjacency_wf(adj: Seq<Seq<usize>>) -> bool {
    forall|u: int, k: int| 0 <= u < adj.len() && 0 <= k < adj[u].len() ==> #[trigger] adj[u][k] < adj.len()
}

/// A non-empty walk along edges that never visits `blocked`.
pub open spec fn is_walk(adj: Seq<Seq<usize>>, path: Seq<int>, blocked: Option<usize>) -> bool {
    &&& path.len() > 0
    &&& forall|t: int| 0 <= t < path.len() ==> 0 <= #[trigger] path[t] < adj.len()
    &&& forall|t: int| 0 <= t < path.len() ==> Some(#[trigger] path[t] as usize) != blocked
    &&& forall|t: int| 0 <= t < path.len() - 1 ==> has_edge(adj, #[trigger] path[t], path[t + 1])
}

/// Some walk avoiding `blocked` leads from a source to `v`.
pub open spec fn reachable_from(
    adj: Seq<Seq<usize>>,
    sources: Seq<bool>,
    blocked: Option<usize>,
    v: int,
) -> bool {
    exists|path: Seq<int>|
        #[trigger] is_walk(adj, path, blocked) && sources[path[0]] && path.last() == v
}

/// `u` reaches `v` (in zero or more steps).
pub open spec fn reaches(adj: Seq<Seq<usize>>, u: int, v: int) -> bool {
    exists|path: Seq<int>| #[trigger] is_walk(adj, path, None) && path[0] == u && path.last() == v
}

/// `u` reaches `v` without visiting `d`.
pub open spec fn reaches_avoiding(adj: Seq<Seq<usize>>, u: int, v: int, d: usize) -> bool {
    exists|path: Seq<int>| #[trigger] is_walk(adj, path, Some(d)) && path[0] == u && path.last() == v
}

/// A non-empty walk along a relation over nodes `0..n` that never visits `blocked`.
pub open spec fn relation_walk(n: nat, rel: spec_fn(int, int) -> bool, path: Seq<int>, blocked: Option<usize>) -> bool {
    &&& path.len() > 0
    &&& forall|t: int| 0 <= t < path.len() ==> 0 <= #[trigger] path[t] < n
    &&& forall|t: int| 0 <= t < path.len() ==> Some(#[trigger] path[t] as usize) != blocked
    &&& forall|t: int| 0 <= t < path.len() - 1 ==> rel(#[trigger] path[t], path[t + 1])
}

/// Some walk along a relation leads from a source to `v`.
pub open spec fn relation_reachable(n: nat, rel: spec_fn(int, int) -> bool, sources: Seq<bool>, v: int) -> bool {
    exists|path: Seq<int>| #[trigger] relation_walk(n, rel, path, None) && sources[path[0]] && path.last() == v
}

/// Reachability over an adjacency list is reachability along the relation
/// its edges encode.
pub proof fn lemma_relation_reachable(adj: Seq<Seq<usize>>, rel: spec_fn(int, int) -> bool, sources: Seq<bool>, v: int)
    requires
        forall|a: int, b: int| 0 <= a < adj.len() && 0 <= b < adj.len() ==> (#[trigger] has_edge(adj, a, b) <==> rel(a, b)),
    ensures
        reachable_from(adj, sources, None, v) <==> relation_reachable(adj.len(), rel, sources, v),
{
    if reachable_from(adj, sources, None, v) {
        let path = choose|path: Seq<int>| #[trigger] is_walk(adj, path, None) && sources[path[0]] && path.last() == v;
        assert forall|t: int| 0 <= t < path.len() - 1 implies rel(#[trigger] path[t], path[t + 1]) by {
            assert(has_edge(adj, path[t], path[t + 1]));
        }
        assert(relation_walk(adj.len(), rel, path, None));
    }
    if relation_reachable(adj.len(), rel, sources, v) {
        let path = choose|path: Seq<int>| #[trigger] relation_walk(adj.len(), rel, path, None) && sources[path[0]] && path.last() == v;
        assert forall|t: int| 0 <= t < path.len() - 1 implies has_edge(adj, #[trigger] path[t], path[t + 1]) by {
            assert(rel(path[t], path[t + 1]));
        }
        assert(is_walk(adj, path, None));
    }
}

/// The sources flag exactly one node.
pub open spec fn single_source(n: nat, u: int) -> Seq<bool> {
    Seq::new(n, |i: int| i == u)
}

proof fn lemma_closed_contains_reachable(
    adj: Seq<Seq<usize>>,
    sources: Seq<bool>,
    blocked: Option<usize>,
    flags: Seq<bool>,
    path: Seq<int>,
)
    requires
        flags.len() == adj.len(),
        sources.len() == adj.len(),
        is_walk(adj, path, blocked),
        sources[path[0]],
        forall|v: int| 0 <= v < adj.len() && sources[v] && Some(v as usize) != blocked ==> flags[v],
        forall|u: int, w: int|
            0 <= u < adj.len() && flags[u] && #[trigger] has_edge(adj, u, w) && Some(w as usize) != blocked
                ==> flags[w],
    ensures
        flags[path.last()],
    decreases path.len(),
{
    if path.len() > 1 {
        let prefix = path.drop_last();
        assert forall|t: int| 0 <= t < prefix.len() - 1 implies has_edge(adj, #[trigger] prefix[t], prefix[t + 1]) by {
            assert(prefix[t] == path[t] && prefix[t + 1] == path[t + 1]);
        }
        assert forall|t: int| 0 <= t < prefix.len() implies 0 <= #[trigger] prefix[t] < adj.len() by {
            assert(prefix[t] == path[t]);
        }
        assert forall|t: int| 0 <= t < prefix.len() implies Some(#[trigger] prefix[t] as usize) != blocked by {
            assert(prefix[t] == path[t]);
        }
        lemma_closed_contains_reachable(adj, sources, blocked, flags, prefix);
        let t = path.len() - 2;
        assert(has_edge(adj, path[t], path[t + 1]));
        assert(Some(path[t + 1] as usize) != blocked);
    } else {
        assert(Some(path[0] as usize) != blocked);
    }
}

proof fn lemma_extend_walk(adj: Seq<Seq<usize>>, sources: Seq<bool>, blocked: Option<usize>, u: int, w: int)
    requires
        reachable_from(adj, sources, blocked, u),
        has_edge(adj, u, w),
        0 <= w < adj.len(),
        Some(w as usize) != blocked,
    ensures
        reachable_from(adj, sources, blocked, w),
{
    let p = choose|p: Seq<int>| #[trigger] is_walk(adj, p, blocked) && sources[p[0]] && p.last() == u;
    let q = p.push(w);
    assert forall|t: int| 0 <= t < q.len() - 1 implies has_edge(adj, #[trigger] q[t], q[t + 1]) by {
        if t < q.len() - 2 {
            assert(q[t] == p[t] && q[t + 1] == p[t + 1]);
        }
    }
    assert forall|t: int| 0 <= t < q.len() implies 0 <= #[trigger] q[t] < adj.len() by {
        if t < p.len() {
            assert(q[t] == p[t]);
        }
    }
    assert forall|t: int| 0 <= t < q.len() implies Some(#[trigger] q[t] as usize) != blocked by {
        if t < p.len() {
            assert(q[t] == p[t]);
        }
    }
    assert(is_walk(adj, q, blocked));
    assert(q[0] == p[0]);
}

/// The worklist state: `queue` lists each flagged node once, flagged nodes
/// are reachable, and the first `head` entries have all their successors
/// flagged.
pub open spec fn worklist_inv(
    g: Seq<Seq<usize>>,
    sources: Seq<bool>,
    blocked: Option<usize>,
    flags: Seq<bool>,
    queue: Seq<usize>,
    head: int,
) -> bool {
    &&& flags.len() == g.len()
    &&& 0 <= head <= queue.len() <= g.len()
    &&& forall|k: int| 0 <= k < queue.len() ==> (#[trigger] queue[k] as int) < g.len() && flags[queue[k] as int]
    &&& forall|x: int| 0 <= x < g.len() && flags[x] ==> queue.contains(x as usize)
    &&& forall|a: int, b: int| 0 <= a < b < queue.len() ==> queue[a] != queue[b]
    &&& forall|x: int| 0 <= x < g.len() && sources[x] && Some(x as usize) != blocked ==> flags[x]
    &&& forall|x: int| 0 <= x < g.len() && flags[x] ==> reachable_from(g, sources, blocked, x)
    &&& forall|k: int, w: int|
        0 <= k < head && #[trigger] has_edge(g, queue[k] as int, w) && Some(w as usize) != blocked
            ==> flags[w]
}

#[verifier::rlimit(40)]
proof fn lemma_flag(
    g: Seq<Seq<usize>>,
    sources: Seq<bool>,
    blocked: Option<usize>,
    flags: Seq<bool>,
    queue: Seq<usize>,
    head: int,
    u: int,
    w: int,
)
    requires
        worklist_inv(g, sources, blocked, flags, queue, head),
        head < queue.len(),
        queue[head] as int == u,
        has_edge(g, u, w),
        0 <= w < g.len(),
        Some(w as usize) != blocked,
        !flags[w],
        g.len() <= usize::MAX,
    ensures
        worklist_inv(g, sources, blocked, flags.update(w, true), queue.push(w as usize), head),
{
    broadcast use vstd::seq_lib::group_seq_properties;

    assert(flags[u]);
    lemma_extend_walk(g, sources, blocked, u, w);
    assert(!queue.contains(w as usize));
    if queue.len() == g.len() {
        lemma_distinct_below_covers(queue, g.len() as int);
    }
    let f2 = flags.update(w, true);
    let q2 = queue.push(w as usize);
    assert forall|x: int| 0 <= x < g.len() && f2[x] implies q2.contains(x as usize) by {
        if x == w {
            assert(q2[q2.len() - 1] == w as usize);
        } else {
            assert(queue.contains(x as usize));
        }
    }
    assert forall|k: int, x: int|
        0 <= k < head && #[trigger] has_edge(g, q2[k] as int, x) && Some(x as usize) != blocked implies f2[x] by {
        assert(q2[k] == queue[k]);
        assert(has_edge(g, queue[k] as int, x));
        assert(flags[x]);
    }
    assert forall|k: int| 0 <= k < q2.len() implies (#[trigger] q2[k] as int) < g.len() && f2[q2[k] as int] by {
        if k < queue.len() {
            assert(q2[k] == queue[k]);
        }
    }
}

/// Flags every node reachable from a source along walks that avoid `blocked`.
pub fn reach_flags(adj: &Vec<Vec<usize>>, sources: &Vec<bool>, blocked: Option<usize>) -> (flags: Vec<bool>)
    requires
        adjacency_wf(adj@.map_values(|s: Vec<usize>| s@)),
        sources@.len() == adj@.len(),
    ensures
        flags@.len() == adj@.len(),
        forall|v: int|
            0 <= v < adj@.len() ==> (flags@[v] <==> reachable_from(
                adj@.map_values(|s: Vec<usize>| s@),
                sources@,
                blocked,
                v,
            )),
{
    broadcast use vstd::seq_lib::group_seq_properties;

    let ghost g = adj@.map_values(|s: Vec<usize>| s@);
    let n = adj.len();
    let mut flags: Vec<bool> = Vec::new();
    let mut queue: Vec<usize> = Vec::new();
    let mut v: usize = 0;
    while v < n
        invariant
            n == adj@.len(),
            g == adj@.map_values(|s: Vec<usize>| s@),
            sources@.len() == n,
            v <= n,
            flags@.len() == v,
            queue@.len() <= v,
            forall|x: int| 0 <= x < v ==> (flags@[x] <==> (sources@[x] && Some(x as usize) != blocked)),
            forall|k: int| 0 <= k < queue@.len() ==> (#[trigger] queue@[k] as int) < v && flags@[queue@[k] as int],
            forall|a: int, b: int| 0 <= a < b < queue@.len() ==> queue@[a] < queue@[b],
            forall|x: int| 0 <= x < v && flags@[x] ==> queue@.contains(x as usize),
        decreases n - v,
    {
        let flagged = sources[v] && !(match blocked {
            Some(b) => b == v,
            None => false,
        });
        let ghost old_queue = queue@;
        flags.push(flagged);
        if flagged {
            queue.push(v);
            assert(queue@[queue@.len() - 1] == v);
        }
        proof {
            assert forall|x: int| 0 <= x < v + 1 && flags@[x] implies queue@.contains(x as usize) by {
                if x == v {
                    assert(queue@[queue@.len() - 1] == v);
                } else {
                    let t = choose|t: int| 0 <= t < old_queue.len() && old_queue[t] == x as usize;
                    assert(queue@[t] == x as usize);
                }
            }
        }
        v = v + 1;
    }
    proof {
        assert forall|x: int| 0 <= x < n && flags@[x] implies reachable_from(g, sources@, blocked, x) by {
            let path = seq![x];
            assert(is_walk(g, path, blocked));
        }
        assert(worklist_inv(g, sources@, blocked, flags@, queue@, 0));
    }
    let mut head: usize = 0;
    while head < queue.len()
        invariant
            n == adj@.len(),
            g == adj@.map_values(|s: Vec<usize>| s@),
            adjacency_wf(g),
            sources@.len() == n,
            worklist_inv(g, sources@, blocked, flags@, queue@, head as int),
        decreases n - head,
    {
        let u = queue[head];
        assert(g[u as int] == adj@[u as int]@);
        let succ = &adj[u];
        let mut k: usize = 0;
        while k < succ.len()
            invariant
                n == adj@.len(),
                g == adj@.map_values(|s: Vec<usize>| s@),
                adjacency_wf(g),
                sources@.len() == n,
                u < n,
                g[u as int] == succ@,
                head < queue@.len(),
                queue@[head as int] == u,
                worklist_inv(g, sources@, blocked, flags@, queue@, head as int),
                k <= succ@.len(),
                forall|j: int| 0 <= j < k && Some(#[trigger] succ@[j]) != blocked ==> flags@[succ@[j] as int],
            decreases succ.len() - k,
        {
            let w = succ[k];
            assert(w < n) by {
                assert(g[u as int][k as int] == w);
            }
            let is_blocked = match blocked {
                Some(b) => b == w,
                None => false,
            };
            if !is_blocked && !flags[w] {
                proof {
                    assert(has_edge(g, u as int, w as int)) by {
                        assert(g[u as int][k as int] == w);
                    }
                    lemma_flag(g, sources@, blocked, flags@, queue@, head as int, u as int, w as int);
                }
                flags.set(w, true);
                queue.push(w);
            }
            k = k + 1;
        }
        proof {
            assert forall|k2: int, w: int|
                0 <= k2 < head + 1 && #[trigger] has_edge(g, queue@[k2] as int, w) && Some(w as usize)
                    != blocked implies flags@[w] by {
                if k2 == head {
                    assert(g[u as int].contains(w as usize));
                    let j = choose|j: int| 0 <= j < succ@.len() && succ@[j] == w as usize;
                    assert(Some(succ@[j]) != blocked);
                    assert(flags@[succ@[j] as int]);
                }
            }
        }
        head = head + 1;
    }
    proof {
        assert forall|v: int| 0 <= v < n && reachable_from(g, sources@, blocked, v) implies flags@[v] by {
            let path = choose|path: Seq<int>|
                #[trigger] is_walk(g, path, blocked) && sources@[path[0]] && path.last() == v;
            assert forall|u: int, w: int|
                0 <= u < g.len() && flags@[u] && #[trigger] has_edge(g, u, w) && Some(w as usize)
                    != blocked implies flags@[w] by {
                let t = choose|t: int| 0 <= t < queue@.len() && queue@[t] == u as usize;
                assert(has_edge(g, queue@[t] as int, w));
            }
            lemma_closed_contains_reachable(g, sources@, blocked, flags@, path);
        }
    }
    flags
}

/// A duplicate-free sequence of `n` values below `n` holds every such value.
proof fn lemma_distinct_below_covers(s: Seq<usize>, n: int)
    requires
        s.len() == n,
        n <= usize::MAX,
        forall|k: int| 0 <= k < s.len() ==> (#[trigger] s[k] as int) < n,
        forall|a: int, b: int| 0 <= a < b < s.len() ==> s[a] != s[b],
    ensures
        forall|x: usize| (x as int) < n ==> s.contains(x),
{
    assert forall|x: usize| (x as int) < n implies s.contains(x) by {
        if !s.contains(x) {
            assert(s.no_duplicates()) by {
                assert forall|i: int, j: int| 0 <= i < s.len() && 0 <= j < s.len() && i != j implies s[i] != s[j] by {
                    if i < j {
                        assert(s[i] != s[j]);
                    } else {
                        assert(s[j] != s[i]);
                    }
                }
            }
            s.unique_seq_to_set();
            let m = s.to_set();
            let full = Set::new(|y: usize| (y as int) < n);
            lemma_usize_range_len(n);
            assert(full.contains(x));
            assert(m.subset_of(full.remove(x))) by {
                assert forall|y: usize| m.contains(y) implies full.remove(x).contains(y) by {
                    let k = choose|k: int| 0 <= k < s.len() && s[k] == y;
                    assert((s[k] as int) < n);
                }
            }
            vstd::set_lib::lemma_len_subset(m, full.remove(x));
            assert(false);
        }
    }
}

proof fn lemma_usize_range_len(n: int)
    requires
        0 <= n <= usize::MAX + 1,
    ensures
        Set::new(|y: usize| (y as int) < n).finite(),
        Set::new(|y: usize| (y as int) < n).len() == n,
    decreases n,
{
    if n == 0 {
        assert(Set::new(|y: usize| (y as int) < n) =~= Set::<usize>::empty());
    } else {
        lemma_usize_range_len(n - 1);
        let smaller = Set::new(|y: usize| (y as int) < n - 1);
        assert(Set::new(|y: usize| (y as int) < n) =~= smaller.insert((n - 1) as usize));
    }
}

} // verus!
