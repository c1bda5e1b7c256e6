//! Immediate dominators and post-dominators of intended flows.
//!
//! A checkpoint `d` dominates `v` (both reachable from the root) when every
//! walk from the root to `v` visits `d`; the immediate dominator of `v` is its
//! strict dominator with the most dominators of its own (the last such one in
//! checkpoint order).

use vstd::prelude::*;

use crate::order::views;
use crate::text::{concat, copy_text, texts};
use super::graph::{adjacency_wf, reach_flags, reachable_from, single_source};
use super::model::{DominationModel, ImmediateDomination};

verus! {

/// `x` dominates `v` in the graph rooted at `s`.
pub open spec fn dominates(adj: Seq<Seq<usize>>, s: int, x: int, v: int) -> bool {
    &&& reachable_from(adj, single_source(adj.len(), s), None, x)
    &&& !reachable_from(adj, single_source(adj.len(), s), Some(x as usize), v)
}

/// How many of the first `k` nodes dominate `d`.
pub open spec fn dominator_count(adj: Seq<Seq<usize>>, s: int, d: int, k: int) -> nat
    decreases k,
{
    if k <= 0 {
        0
    } else {
        dominator_count(adj, s, d, k - 1) + (if dominates(adj, s, k - 1, d) { 1nat } else { 0nat })
    }
}

/// Among the first `k` nodes, the strict dominator of `v` with the most
/// dominators, the later one on ties.
pub open spec fn best_dominator(adj: Seq<Seq<usize>>, s: int, v: int, k: int) -> Option<int>
    decreases k,
{
    if k <= 0 {
        None
    } else {
        let b = best_dominator(adj, s, v, k - 1);
        let c = k - 1;
        if c != v && dominates(adj, s, c, v) && (match b {
            None => true,
            Some(x) => dominator_count(adj, s, c, adj.len() as int) >= dominator_count(adj, s, x, adj.len() as int),
        }) {
            Some(c)
        } else {
            b
        }
    }
}

/// The immediate dominator of `v`.
pub open spec fn immediate_dominator(adj: Seq<Seq<usize>>, s: int, v: int) -> Option<int> {
    best_dominator(adj, s, v, adj.len() as int)
}

/// The relation record of node `v` named by `names`: `kind:v:idom`, with
/// `root` at the root; the immediate dominator `hidden` is reported as none.
pub open spec fn domination_of(
    adj: Seq<Seq<usize>>,
    s: int,
    names: Seq<Seq<char>>,
    kind: Seq<char>,
    hidden: Option<int>,
    v: int,
) -> DominationModel {
    let idom = if v == s { None } else { immediate_dominator(adj, s, v) };
    DominationModel {
        checkpoint: names[v],
        immediate: match idom {
            None => None,
            Some(b) => if Some(b) == hidden { None } else { Some(names[b]) },
        },
        derivation: kind + ":"@ + names[v] + ":"@ + (match idom {
            None => "root"@,
            Some(b) => names[b],
        }),
    }
}

/// Records for the nodes below `k`, other than `hidden`, reachable from `s`.
pub open spec fn dominations(
    adj: Seq<Seq<usize>>,
    s: int,
    names: Seq<Seq<char>>,
    kind: Seq<char>,
    hidden: Option<int>,
    k: int,
) -> Seq<DominationModel>
    decreases k,
{
    if k <= 0 {
        Seq::empty()
    } else {
        dominations(adj, s, names, kind, hidden, k - 1) + (if reachable_from(
            adj,
            single_source(adj.len(), s),
            None,
            k - 1,
        ) && Some(k - 1) != hidden {
            seq![domination_of(adj, s, names, kind, hidden, k - 1)]
        } else {
            Seq::empty()
        })
    }
}

fn single_exec(n: usize, s: usize) -> (r: Vec<bool>)
    ensures
        r@ == single_source(n as nat, s as int),
{
    let mut r: Vec<bool> = Vec::new();
    let mut k: usize = 0;
    while k < n
        invariant
            k <= n,
            r@ == single_source(n as nat, s as int).take(k as int),
        decreases n - k,
    {
        r.push(k == s);
        assert(r@ =~= single_source(n as nat, s as int).take(k + 1));
        k = k + 1;
    }
    assert(r@ =~= single_source(n as nat, s as int));
    r
}

/// Computes the immediate-domination records of every node reachable from
/// `s`, except `hidden`, in node order.
pub(crate) fn compute_dominations(
    adj: &Vec<Vec<usize>>,
    s: usize,
    names: &Vec<String>,
    kind: &str,
    hidden: Option<usize>,
) -> (r: Vec<ImmediateDomination>)
    requires
        adjacency_wf(adj@.map_values(|x: Vec<usize>| x@)),
        s < adj@.len(),
        names@.len() == adj@.len(),
    ensures
        views(r@) == dominations(
            adj@.map_values(|x: Vec<usize>| x@),
            s as int,
            texts(names@),
            kind@,
            match hidden {
                Some(h) => Some(h as int),
                None => None,
            },
            adj@.len() as int,
        ),
{
    let ghost g = adj@.map_values(|x: Vec<usize>| x@);
    let ghost nm = texts(names@);
    let ghost hid: Option<int> = match hidden {
        Some(h) => Some(h as int),
        None => None,
    };
    let n = adj.len();
    assert(g.len() == n);
    let source = single_exec(n, s);
    let reach = reach_flags(adj, &source, None);
    let mut avoid: Vec<Vec<bool>> = Vec::new();
    let mut d: usize = 0;
    while d < n
        invariant
            g == adj@.map_values(|x: Vec<usize>| x@),
            g.len() == n,
            adjacency_wf(g),
            source@ == single_source(n as nat, s as int),
            d <= n,
            avoid@.len() == d,
            forall|x: int| 0 <= x < d ==> #[trigger] avoid@[x]@.len() == n,
            forall|x: int, v: int|
                0 <= x < d && 0 <= v < n ==> (avoid@[x]@[v] <==> reachable_from(g, source@, Some(x as usize), v)),
        decreases n - d,
    {
        let row = reach_flags(adj, &source, Some(d));
        avoid.push(row);
        d = d + 1;
    }
    let mut counts: Vec<usize> = Vec::new();
    let mut x: usize = 0;
    while x < n
        invariant
            g == adj@.map_values(|x: Vec<usize>| x@),
            g.len() == n,
            source@ == single_source(n as nat, s as int),
            reach@.len() == n,
            forall|v: int| 0 <= v < n ==> (reach@[v] <==> reachable_from(g, source@, None, v)),
            avoid@.len() == n,
            forall|x2: int| 0 <= x2 < n ==> #[trigger] avoid@[x2]@.len() == n,
            forall|x2: int, v: int|
                0 <= x2 < n && 0 <= v < n ==> (avoid@[x2]@[v] <==> reachable_from(g, source@, Some(x2 as usize), v)),
            x <= n,
            counts@.len() == x,
            forall|q: int| 0 <= q < x ==> counts@[q] == dominator_count(g, s as int, q, n as int),
        decreases n - x,
    {
        let mut c: usize = 0;
        let mut y: usize = 0;
        while y < n
            invariant
                g == adj@.map_values(|x: Vec<usize>| x@),
                g.len() == n,
                source@ == single_source(n as nat, s as int),
                reach@.len() == n,
                forall|v: int| 0 <= v < n ==> (reach@[v] <==> reachable_from(g, source@, None, v)),
                avoid@.len() == n,
                forall|x2: int| 0 <= x2 < n ==> #[trigger] avoid@[x2]@.len() == n,
                forall|x2: int, v: int|
                    0 <= x2 < n && 0 <= v < n ==> (avoid@[x2]@[v] <==> reachable_from(g, source@, Some(x2 as usize), v)),
                x < n,
                y <= n,
                c <= y,
                c == dominator_count(g, s as int, x as int, y as int),
            decreases n - y,
        {
            assert(avoid@[y as int]@.len() == n);
            if reach[y] && !avoid[y][x] {
                c = c + 1;
            }
            y = y + 1;
        }
        counts.push(c);
        x = x + 1;
    }
    let mut out: Vec<ImmediateDomination> = Vec::new();
    let mut v: usize = 0;
    while v < n
        invariant
            g == adj@.map_values(|x: Vec<usize>| x@),
            g.len() == n,
            nm == texts(names@),
            names@.len() == n,
            s < n,
            hid == (match hidden {
                Some(h) => Some(h as int),
                None => None,
            }),
            source@ == single_source(n as nat, s as int),
            reach@.len() == n,
            forall|q: int| 0 <= q < n ==> (reach@[q] <==> reachable_from(g, source@, None, q)),
            avoid@.len() == n,
            forall|x2: int| 0 <= x2 < n ==> #[trigger] avoid@[x2]@.len() == n,
            forall|x2: int, q: int|
                0 <= x2 < n && 0 <= q < n ==> (avoid@[x2]@[q] <==> reachable_from(g, source@, Some(x2 as usize), q)),
            counts@.len() == n,
            forall|q: int| 0 <= q < n ==> counts@[q] == dominator_count(g, s as int, q, n as int),
            v <= n,
            views(out@) == dominations(g, s as int, nm, kind@, hid, v as int),
        decreases n - v,
    {
        let is_hidden = match hidden {
            Some(h) => h == v,
            None => false,
        };
        if reach[v] && !is_hidden {
            let mut best: Option<usize> = None;
            if v != s {
                let mut c: usize = 0;
                while c < n
                    invariant
                        g == adj@.map_values(|x: Vec<usize>| x@),
                        g.len() == n,
                        source@ == single_source(n as nat, s as int),
                        reach@.len() == n,
                        forall|q: int| 0 <= q < n ==> (reach@[q] <==> reachable_from(g, source@, None, q)),
                        avoid@.len() == n,
                        forall|x2: int| 0 <= x2 < n ==> #[trigger] avoid@[x2]@.len() == n,
                        forall|x2: int, q: int|
                            0 <= x2 < n && 0 <= q < n ==> (avoid@[x2]@[q] <==> reachable_from(g, source@, Some(x2 as usize), q)),
                        counts@.len() == n,
                        forall|q: int| 0 <= q < n ==> counts@[q] == dominator_count(g, s as int, q, n as int),
                        v < n,
                        c <= n,
                        match best {
                            None => best_dominator(g, s as int, v as int, c as int) is None,
                            Some(b) => b < n && best_dominator(g, s as int, v as int, c as int) == Some(b as int),
                        },
                    decreases n - c,
                {
                    assert(avoid@[c as int]@.len() == n);
                    if c != v && reach[c] && !avoid[c][v] {
                        let better = match best {
                            None => true,
                            Some(b) => counts[c] >= counts[b],
                        };
                        if better {
                            best = Some(c);
                        }
                    }
                    c = c + 1;
                }
            }
            let name = copy_text(names[v].as_str());
            assert(nm[v as int] == names@[v as int]@);
            let head = concat(kind, ":");
            let head = concat(head.as_str(), names[v].as_str());
            let head = concat(head.as_str(), ":");
            let (immediate, derivation) = match best {
                None => (None, concat(head.as_str(), "root")),
                Some(b) => {
                    assert(nm[b as int] == names@[b as int]@);
                    let shown = match hidden {
                        Some(h) => h != b,
                        None => true,
                    };
                    let immediate = if shown {
                        Some(copy_text(names[b].as_str()))
                    } else {
                        None
                    };
                    (immediate, concat(head.as_str(), names[b].as_str()))
                },
            };
            let record = ImmediateDomination::build(name, immediate, derivation);
            assert(record@ == domination_of(g, s as int, nm, kind@, hid, v as int));
            proof {
                crate::order::lemma_views_push_seq(out@, record);
            }
            out.push(record);
        }
        v = v + 1;
    }
    out
}

} // verus!
