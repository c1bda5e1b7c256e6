//! Strongly connected components and structural flow violations.

use vstd::prelude::*;

use crate::codec::{decimal, decimal_of};
use crate::order::{canonical_set, canonical_set_exec, views};
use crate::text::{concat, copy_text, join, join_texts, prefix_each, prefixed, texts};
use super::flow::{
    flow_adjacency, flow_edges, flow_input_wf, flow_nodes, flow_reaches, flow_triggers,
    node_of, position_of, position_exec_pub, reachable_from_trigger, reaches_terminal, checkpoint_ids,
    CheckpointDeclaration, DeclarationModel,
};
use super::graph::has_edge;
use super::model::{
    BehavioralViolation, BfgEdge, BfgNode, BfgProvenance, CheckpointKind, ComponentModel,
    EdgeModel, NodeModel, ProvenanceModel, StronglyConnectedComponent, ViolationModel,
};

verus! {

/// Checkpoints `a` and `b` reach each other.
pub open spec fn mutual(ds: Seq<DeclarationModel>, a: int, b: int) -> bool {
    flow_reaches(ds, a, b) && flow_reaches(ds, b, a)
}

/// Identities of the checkpoints among the first `n` in the component of `v`.
pub open spec fn class_ids(ds: Seq<DeclarationModel>, v: int, n: int) -> Seq<Seq<char>>
    decreases n,
{
    if n <= 0 {
        Seq::empty()
    } else {
        class_ids(ds, v, n - 1) + (if mutual(ds, v, n - 1) {
            seq![ds[n - 1].checkpoint]
        } else {
            Seq::empty()
        })
    }
}

/// `v` is the first checkpoint of its component.
pub open spec fn is_representative(ds: Seq<DeclarationModel>, v: int) -> bool {
    forall|u: int| 0 <= u < v ==> !#[trigger] mutual(ds, v, u)
}

/// The component record of checkpoint `v`.
pub open spec fn component_of(ds: Seq<DeclarationModel>, v: int) -> ComponentModel {
    let members = class_ids(ds, v, ds.len() as int);
    ComponentModel {
        id: "scc:"@ + join_texts(members, "+"@),
        checkpoints: members,
        is_loop: members.len() > 1 || has_edge(flow_adjacency(ds), v, v),
        can_reach_terminal: exists|u: int| 0 <= u < ds.len() && #[trigger] mutual(ds, v, u) && reaches_terminal(ds, u),
        derivation: "strongly_connected_component:"@ + join_texts(members, ":"@),
    }
}

/// One component per representative among the first `n` checkpoints.
pub open spec fn representative_components(ds: Seq<DeclarationModel>, n: int) -> Seq<ComponentModel>
    decreases n,
{
    if n <= 0 {
        Seq::empty()
    } else {
        representative_components(ds, n - 1) + (if is_representative(ds, n - 1) {
            seq![component_of(ds, n - 1)]
        } else {
            Seq::empty()
        })
    }
}

/// The strongly connected components of a flow in canonical order.
pub open spec fn flow_components(ds: Seq<DeclarationModel>) -> Seq<ComponentModel> {
    canonical_set::<StronglyConnectedComponent>(representative_components(ds, ds.len() as int))
}

/// The provenance of every node.
pub open spec fn node_provenance(ds: Seq<DeclarationModel>) -> Seq<ProvenanceModel> {
    ds.map_values(|d: DeclarationModel| node_of(d).provenance)
}

/// The violation for a trigger count other than one.
pub open spec fn trigger_count_violation(ds: Seq<DeclarationModel>, feature: Seq<char>) -> ViolationModel {
    ViolationModel {
        code: "BFG-TRIGGER-COUNT"@,
        feature,
        checkpoint: None,
        message: "modeled Feature `"@ + feature + "` must have exactly one trigger, found "@ + decimal_of(
            flow_triggers(ds).len(),
        ),
        input_facts: prefixed(flow_triggers(ds), "checkpoint:"@),
        provenance: canonical_set::<BfgProvenance>(node_provenance(ds)),
    }
}

/// The violation for a flow without terminal.
pub open spec fn terminal_missing_violation(ds: Seq<DeclarationModel>, feature: Seq<char>) -> ViolationModel {
    ViolationModel {
        code: "BFG-TERMINAL-MISSING"@,
        feature,
        checkpoint: None,
        message: "modeled Feature `"@ + feature + "` has no terminal checkpoint"@,
        input_facts: Seq::empty(),
        provenance: canonical_set::<BfgProvenance>(node_provenance(ds)),
    }
}

/// The violation for checkpoint `i` unreachable from the unique trigger.
pub open spec fn unreachable_violation(ds: Seq<DeclarationModel>, feature: Seq<char>, i: int) -> ViolationModel {
    let c = ds[i].checkpoint;
    let t = flow_triggers(ds)[0];
    ViolationModel {
        code: "BFG-UNREACHABLE-CHECKPOINT"@,
        feature,
        checkpoint: Some(c),
        message: "checkpoint `"@ + c + "` is unreachable from trigger `"@ + t + "`"@,
        input_facts: seq!["trigger:"@ + t, "checkpoint:"@ + c],
        provenance: canonical_set::<BfgProvenance>(seq![node_of(ds[i]).provenance]),
    }
}

/// The violation for nonterminal checkpoint `i` that reaches no terminal.
pub open spec fn no_terminal_violation(ds: Seq<DeclarationModel>, feature: Seq<char>, i: int) -> ViolationModel {
    let c = ds[i].checkpoint;
    ViolationModel {
        code: "BFG-NO-TERMINAL-PATH"@,
        feature,
        checkpoint: Some(c),
        message: "nonterminal checkpoint `"@ + c + "` cannot reach any terminal"@,
        input_facts: seq!["checkpoint:"@ + c],
        provenance: canonical_set::<BfgProvenance>(seq![node_of(ds[i]).provenance]),
    }
}

/// The violation for decision edge `e` whose target reaches no terminal.
pub open spec fn branch_violation(ds: Seq<DeclarationModel>, feature: Seq<char>, e: EdgeModel) -> ViolationModel {
    let d = position_of(ds, e.source);
    ViolationModel {
        code: "BFG-NONVIABLE-BRANCH"@,
        feature,
        checkpoint: Some(e.source),
        message: "decision `"@ + e.source + "` outcome `"@ + (match e.decision_outcome {
            Some(o) => o,
            None => "unlabeled"@,
        }) + "` targets `"@ + e.target + "` without a terminal path"@,
        input_facts: seq!["edge:"@ + e.source + ":"@ + e.target],
        provenance: canonical_set::<BfgProvenance>(seq![node_of(ds[d]).provenance, e.provenance]),
    }
}

/// The provenance of the nodes named by `ids`.
pub open spec fn provenance_of_ids(ds: Seq<DeclarationModel>, ids: Seq<Seq<char>>) -> Seq<ProvenanceModel> {
    ids.map_values(|id: Seq<char>| node_of(ds[position_of(ds, id)]).provenance)
}

/// The violation for a loop component without exit to a terminal.
pub open spec fn closed_loop_violation(ds: Seq<DeclarationModel>, feature: Seq<char>, c: ComponentModel) -> ViolationModel {
    ViolationModel {
        code: "BFG-CLOSED-SCC"@,
        feature,
        checkpoint: if c.checkpoints.len() > 0 {
            Some(c.checkpoints[0])
        } else {
            None
        },
        message: "closed loop `"@ + join_texts(c.checkpoints, " -> "@) + "` has no route to a terminal"@,
        input_facts: prefixed(c.checkpoints, "checkpoint:"@),
        provenance: canonical_set::<BfgProvenance>(provenance_of_ids(ds, c.checkpoints)),
    }
}

/// Unreachable-checkpoint violations among the first `n` checkpoints.
pub open spec fn unreachable_violations(ds: Seq<DeclarationModel>, feature: Seq<char>, n: int) -> Seq<ViolationModel>
    decreases n,
{
    if n <= 0 {
        Seq::empty()
    } else {
        unreachable_violations(ds, feature, n - 1) + (if flow_triggers(ds).len() == 1
            && !reachable_from_trigger(ds, n - 1) {
            seq![unreachable_violation(ds, feature, n - 1)]
        } else {
            Seq::empty()
        })
    }
}

/// No-terminal-path violations among the first `n` checkpoints.
pub open spec fn no_terminal_violations(ds: Seq<DeclarationModel>, feature: Seq<char>, n: int) -> Seq<ViolationModel>
    decreases n,
{
    if n <= 0 {
        Seq::empty()
    } else {
        no_terminal_violations(ds, feature, n - 1) + (if ds[n - 1].kind != CheckpointKind::Terminal
            && !reaches_terminal(ds, n - 1) {
            seq![no_terminal_violation(ds, feature, n - 1)]
        } else {
            Seq::empty()
        })
    }
}

/// Nonviable-branch violations among the first `n` edges.
pub open spec fn branch_violations(ds: Seq<DeclarationModel>, feature: Seq<char>, edges: Seq<EdgeModel>, n: int) -> Seq<ViolationModel>
    decreases n,
{
    if n <= 0 {
        Seq::empty()
    } else {
        let e = edges[n - 1];
        branch_violations(ds, feature, edges, n - 1) + (if ds[position_of(ds, e.source)].kind
            == CheckpointKind::Decision && !reaches_terminal(ds, position_of(ds, e.target)) {
            seq![branch_violation(ds, feature, e)]
        } else {
            Seq::empty()
        })
    }
}

/// Closed-loop violations among the first `n` components.
pub open spec fn closed_loop_violations(ds: Seq<DeclarationModel>, feature: Seq<char>, cs: Seq<ComponentModel>, n: int) -> Seq<ViolationModel>
    decreases n,
{
    if n <= 0 {
        Seq::empty()
    } else {
        closed_loop_violations(ds, feature, cs, n - 1) + (if cs[n - 1].is_loop && !cs[n - 1].can_reach_terminal {
            seq![closed_loop_violation(ds, feature, cs[n - 1])]
        } else {
            Seq::empty()
        })
    }
}

/// Every structural contradiction of a flow, before canonical ordering.
pub open spec fn all_violations(ds: Seq<DeclarationModel>, feature: Seq<char>) -> Seq<ViolationModel> {
    (if flow_triggers(ds).len() != 1 {
        seq![trigger_count_violation(ds, feature)]
    } else {
        Seq::empty()
    }) + (if super::flow::flow_terminals(ds).len() == 0 {
        seq![terminal_missing_violation(ds, feature)]
    } else {
        Seq::empty()
    }) + unreachable_violations(ds, feature, ds.len() as int) + no_terminal_violations(
        ds,
        feature,
        ds.len() as int,
    ) + branch_violations(ds, feature, flow_edges(ds), flow_edges(ds).len() as int)
        + closed_loop_violations(ds, feature, flow_components(ds), flow_components(ds).len() as int)
}

/// The structural contradictions of a flow in canonical order.
pub open spec fn flow_violations(ds: Seq<DeclarationModel>, feature: Seq<char>) -> Seq<ViolationModel> {
    canonical_set::<BehavioralViolation>(all_violations(ds, feature))
}

proof fn lemma_unreachable_violations_feature(ds: Seq<DeclarationModel>, feature: Seq<char>, n: int)
    ensures
        forall|j: int|
            0 <= j < unreachable_violations(ds, feature, n).len() ==> (#[trigger] unreachable_violations(
                ds,
                feature,
                n,
            )[j]).feature == feature,
    decreases n,
{
    if n > 0 {
        lemma_unreachable_violations_feature(ds, feature, n - 1);
    }
}

proof fn lemma_no_terminal_violations_feature(ds: Seq<DeclarationModel>, feature: Seq<char>, n: int)
    ensures
        forall|j: int|
            0 <= j < no_terminal_violations(ds, feature, n).len() ==> (#[trigger] no_terminal_violations(
                ds,
                feature,
                n,
            )[j]).feature == feature,
    decreases n,
{
    if n > 0 {
        lemma_no_terminal_violations_feature(ds, feature, n - 1);
    }
}

proof fn lemma_branch_violations_feature(ds: Seq<DeclarationModel>, feature: Seq<char>, edges: Seq<EdgeModel>, n: int)
    ensures
        forall|j: int|
            0 <= j < branch_violations(ds, feature, edges, n).len() ==> (#[trigger] branch_violations(
                ds,
                feature,
                edges,
                n,
            )[j]).feature == feature,
    decreases n,
{
    if n > 0 {
        lemma_branch_violations_feature(ds, feature, edges, n - 1);
    }
}

proof fn lemma_closed_loop_violations_feature(ds: Seq<DeclarationModel>, feature: Seq<char>, cs: Seq<ComponentModel>, n: int)
    ensures
        forall|j: int|
            0 <= j < closed_loop_violations(ds, feature, cs, n).len() ==> (#[trigger] closed_loop_violations(
                ds,
                feature,
                cs,
                n,
            )[j]).feature == feature,
    decreases n,
{
    if n > 0 {
        lemma_closed_loop_violations_feature(ds, feature, cs, n - 1);
    }
}

/// Every structural contradiction of a flow names the flow's Feature.
pub proof fn lemma_flow_violations_feature(ds: Seq<DeclarationModel>, feature: Seq<char>)
    ensures
        forall|v: ViolationModel| #[trigger] flow_violations(ds, feature).contains(v) ==> v.feature == feature,
{
    let all = all_violations(ds, feature);
    lemma_unreachable_violations_feature(ds, feature, ds.len() as int);
    lemma_no_terminal_violations_feature(ds, feature, ds.len() as int);
    lemma_branch_violations_feature(ds, feature, flow_edges(ds), flow_edges(ds).len() as int);
    lemma_closed_loop_violations_feature(ds, feature, flow_components(ds), flow_components(ds).len() as int);
    crate::order::lemma_canonical_set::<BehavioralViolation>(all);
    assert forall|j: int| 0 <= j < all.len() implies (#[trigger] all[j]).feature == feature by {
        let a = if flow_triggers(ds).len() != 1 { seq![trigger_count_violation(ds, feature)] } else { Seq::empty() };
        let b = if super::flow::flow_terminals(ds).len() == 0 {
            seq![terminal_missing_violation(ds, feature)]
        } else {
            Seq::empty()
        };
        let c = unreachable_violations(ds, feature, ds.len() as int);
        let d = no_terminal_violations(ds, feature, ds.len() as int);
        let e = branch_violations(ds, feature, flow_edges(ds), flow_edges(ds).len() as int);
        let f = closed_loop_violations(ds, feature, flow_components(ds), flow_components(ds).len() as int);
        assert(all == a + b + c + d + e + f);
        let o1 = a.len() as int;
        let o2 = o1 + b.len();
        let o3 = o2 + c.len();
        let o4 = o3 + d.len();
        let o5 = o4 + e.len();
        if j < o1 {
            assert(all[j] == a[j]);
        } else if j < o2 {
            assert(all[j] == b[j - o1]);
        } else if j < o3 {
            assert(all[j] == c[j - o2]);
        } else if j < o4 {
            assert(all[j] == d[j - o3]);
        } else if j < o5 {
            assert(all[j] == e[j - o4]);
        } else {
            assert(all[j] == f[j - o5]);
        }
    }
    assert forall|v: ViolationModel| #[trigger] flow_violations(ds, feature).contains(v) implies v.feature == feature by {
        assert(all.contains(v));
        let j = choose|j: int| 0 <= j < all.len() && all[j] == v;
        assert(all[j].feature == feature);
    }
}

/// Facts about the reachability matrix used throughout.
pub open spec fn matrix_wf(ds: Seq<DeclarationModel>, r: Seq<Vec<bool>>) -> bool {
    &&& r.len() == ds.len()
    &&& forall|i: int| 0 <= i < ds.len() ==> #[trigger] r[i]@.len() == ds.len()
    &&& forall|i: int, j: int| 0 <= i < ds.len() && 0 <= j < ds.len() ==> (r[i]@[j] <==> flow_reaches(ds, i, j))
}

/// Flags the checkpoints that reach a terminal.
pub(crate) fn terminal_reach(ds: &[CheckpointDeclaration], r: &Vec<Vec<bool>>) -> (out: Vec<bool>)
    requires
        matrix_wf(views(ds@), r@),
    ensures
        out@.len() == ds@.len(),
        forall|i: int| 0 <= i < ds@.len() ==> (out@[i] <==> reaches_terminal(views(ds@), i)),
{
    let ghost dv = views(ds@);
    let n = ds.len();
    let mut out: Vec<bool> = Vec::new();
    let mut i: usize = 0;
    while i < n
        invariant
            dv == views(ds@),
            n == ds@.len(),
            matrix_wf(dv, r@),
            i <= n,
            out@.len() == i,
            forall|a: int| 0 <= a < i ==> (out@[a] <==> reaches_terminal(dv, a)),
        decreases n - i,
    {
        let mut found = false;
        let mut j: usize = 0;
        while j < n
            invariant
                dv == views(ds@),
                n == ds@.len(),
                matrix_wf(dv, r@),
                i < n,
                j <= n,
                found <==> exists|k: int| 0 <= k < j && dv[k].kind == CheckpointKind::Terminal && #[trigger] flow_reaches(dv, i as int, k),
            decreases n - j,
        {
            assert(dv[j as int] == ds@[j as int]@);
            assert(r@[i as int]@.len() == n);
            if ds[j].kind() == CheckpointKind::Terminal && r[i][j] {
                found = true;
            }
            proof {
                assert(r@[i as int]@[j as int] == flow_reaches(dv, i as int, j as int));
                if dv[j as int].kind == CheckpointKind::Terminal && flow_reaches(dv, i as int, j as int) {
                    assert(found);
                }
            }
            j = j + 1;
        }
        out.push(found);
        i = i + 1;
    }
    out
}

/// Builds the components of a flow in canonical order.
pub(crate) fn build_components(
    ds: &[CheckpointDeclaration],
    adj: &Vec<Vec<usize>>,
    r: &Vec<Vec<bool>>,
    terminal: &Vec<bool>,
) -> (out: Vec<StronglyConnectedComponent>)
    requires
        flow_input_wf(views(ds@)),
        adj@.map_values(|s: Vec<usize>| s@) == flow_adjacency(views(ds@)),
        matrix_wf(views(ds@), r@),
        terminal@.len() == ds@.len(),
        forall|i: int| 0 <= i < ds@.len() ==> (terminal@[i] <==> reaches_terminal(views(ds@), i)),
    ensures
        views(out@) == flow_components(views(ds@)),
        forall|c: ComponentModel| views(out@).contains(c) <==> representative_components(views(ds@), ds@.len() as int).contains(c),
{
    let ghost dv = views(ds@);
    let n = ds.len();
    assert(adj@.map_values(|s: Vec<usize>| s@).len() == adj@.len());
    let mut reps: Vec<StronglyConnectedComponent> = Vec::new();
    let mut v: usize = 0;
    while v < n
        invariant
            dv == views(ds@),
            n == ds@.len(),
            adj@.len() == n,
            adj@.map_values(|s: Vec<usize>| s@) == flow_adjacency(dv),
            matrix_wf(dv, r@),
            terminal@.len() == n,
            forall|i: int| 0 <= i < n ==> (terminal@[i] <==> reaches_terminal(dv, i)),
            v <= n,
            views(reps@) == representative_components(dv, v as int),
        decreases n - v,
    {
        assert(r@[v as int]@.len() == n);
        let mut representative = true;
        let mut u: usize = 0;
        while u < v
            invariant
                dv == views(ds@),
                n == ds@.len(),
                matrix_wf(dv, r@),
                v < n,
                u <= v,
                representative <==> forall|w: int| 0 <= w < u ==> !#[trigger] mutual(dv, v as int, w),
            decreases v - u,
        {
            assert(r@[v as int]@.len() == n && r@[u as int]@.len() == n);
            if r[v][u] && r[u][v] {
                representative = false;
            }
            assert(mutual(dv, v as int, u as int) == (r@[v as int]@[u as int] && r@[u as int]@[v as int]));
            u = u + 1;
        }
        if representative {
            let mut members: Vec<String> = Vec::new();
            let mut can_reach = false;
            let mut w: usize = 0;
            while w < n
                invariant
                    dv == views(ds@),
                    n == ds@.len(),
                    matrix_wf(dv, r@),
                    terminal@.len() == n,
                    forall|i: int| 0 <= i < n ==> (terminal@[i] <==> reaches_terminal(dv, i)),
                    v < n,
                    w <= n,
                    texts(members@) == class_ids(dv, v as int, w as int),
                    can_reach <==> exists|x: int| 0 <= x < w && #[trigger] mutual(dv, v as int, x) && reaches_terminal(dv, x),
                decreases n - w,
            {
                assert(r@[v as int]@.len() == n && r@[w as int]@.len() == n);
                if r[v][w] && r[w][v] {
                    assert(dv[w as int] == ds@[w as int]@);
                    let ghost old = members@;
                    members.push(copy_text(ds[w].checkpoint()));
                    assert(texts(members@) =~= texts(old).push(dv[w as int].checkpoint));
                    if terminal[w] {
                        can_reach = true;
                    }
                }
                proof {
                    assert(mutual(dv, v as int, w as int) == (r@[v as int]@[w as int] && r@[w as int]@[v as int]));
                    if mutual(dv, v as int, w as int) && reaches_terminal(dv, w as int) {
                        assert(can_reach);
                    }
                }
                w = w + 1;
            }
            let self_loop = contains_usize(&adj[v], v);
            assert(adj@[v as int]@ == flow_adjacency(dv)[v as int]);
            let is_loop = members.len() > 1 || self_loop;
            assert(texts(members@).len() == members@.len());
            let id = concat("scc:", join(members.as_slice(), "+").as_str());
            let derivation = concat("strongly_connected_component:", join(members.as_slice(), ":").as_str());
            let component = StronglyConnectedComponent::build(id, members, is_loop, can_reach, derivation);
            assert(component@ == component_of(dv, v as int));
            proof {
                crate::order::lemma_views_push_seq(reps@, component);
            }
            reps.push(component);
        }
        v = v + 1;
    }
    canonical_set_exec(reps)
}

fn contains_usize(v: &Vec<usize>, x: usize) -> (r: bool)
    ensures
        r == v@.contains(x),
{
    let mut i: usize = 0;
    while i < v.len()
        invariant
            i <= v@.len(),
            forall|k: int| 0 <= k < i ==> v@[k] != x,
        decreases v.len() - i,
    {
        if v[i] == x {
            return true;
        }
        i = i + 1;
    }
    false
}

proof fn lemma_ids_of_kind_are_ids(ds: Seq<DeclarationModel>, kind: CheckpointKind, n: int)
    requires
        0 <= n <= ds.len(),
    ensures
        forall|k: int| 0 <= k < super::flow::ids_of_kind(ds, kind, n).len() ==> checkpoint_ids(ds).contains(
            #[trigger] super::flow::ids_of_kind(ds, kind, n)[k],
        ),
    decreases n,
{
    if n > 0 {
        lemma_ids_of_kind_are_ids(ds, kind, n - 1);
        let s = super::flow::ids_of_kind(ds, kind, n);
        let s0 = super::flow::ids_of_kind(ds, kind, n - 1);
        assert forall|k: int| 0 <= k < s.len() implies checkpoint_ids(ds).contains(#[trigger] s[k]) by {
            if k < s0.len() {
                assert(s[k] == s0[k]);
            } else {
                assert(s[k] == ds[n - 1].checkpoint);
                assert(checkpoint_ids(ds)[n - 1] == ds[n - 1].checkpoint);
            }
        }
    }
}

proof fn lemma_class_ids_are_ids(ds: Seq<DeclarationModel>, v: int, n: int)
    requires
        0 <= n <= ds.len(),
    ensures
        forall|k: int| 0 <= k < class_ids(ds, v, n).len() ==> checkpoint_ids(ds).contains(
            #[trigger] class_ids(ds, v, n)[k],
        ),
    decreases n,
{
    if n > 0 {
        lemma_class_ids_are_ids(ds, v, n - 1);
        let s = class_ids(ds, v, n);
        let s0 = class_ids(ds, v, n - 1);
        assert forall|k: int| 0 <= k < s.len() implies checkpoint_ids(ds).contains(#[trigger] s[k]) by {
            if k < s0.len() {
                assert(s[k] == s0[k]);
            } else {
                assert(s[k] == ds[n - 1].checkpoint);
                assert(checkpoint_ids(ds)[n - 1] == ds[n - 1].checkpoint);
            }
        }
    }
}

proof fn lemma_representative_components(ds: Seq<DeclarationModel>, n: int, c: ComponentModel)
    requires
        0 <= n <= ds.len(),
        representative_components(ds, n).contains(c),
    ensures
        exists|v: int| 0 <= v < n && c == #[trigger] component_of(ds, v),
    decreases n,
{
    let a = representative_components(ds, n - 1);
    let s = representative_components(ds, n);
    let k = choose|k: int| 0 <= k < s.len() && s[k] == c;
    if k < a.len() {
        assert(a[k] == c);
        assert(a.contains(c));
        lemma_representative_components(ds, n - 1, c);
    } else {
        assert(c == component_of(ds, n - 1));
    }
}

pub(crate) fn ids_of_kind_exec(ds: &[CheckpointDeclaration], kind: CheckpointKind) -> (r: Vec<String>)
    ensures
        texts(r@) == super::flow::ids_of_kind(views(ds@), kind, ds@.len() as int),
{
    let ghost dv = views(ds@);
    let mut out: Vec<String> = Vec::new();
    let mut i: usize = 0;
    while i < ds.len()
        invariant
            dv == views(ds@),
            i <= ds@.len(),
            texts(out@) == super::flow::ids_of_kind(dv, kind, i as int),
        decreases ds.len() - i,
    {
        assert(dv[i as int] == ds@[i as int]@);
        if ds[i].kind() == kind {
            let ghost old = out@;
            out.push(copy_text(ds[i].checkpoint()));
            assert(texts(out@) =~= texts(old).push(dv[i as int].checkpoint));
        }
        i = i + 1;
    }
    out
}

pub(crate) fn node_provenances(nodes: &Vec<BfgNode>) -> (r: Vec<BfgProvenance>)
    ensures
        views(r@) == views(nodes@).map_values(|n: NodeModel| n.provenance),
{
    let mut out: Vec<BfgProvenance> = Vec::new();
    let mut i: usize = 0;
    while i < nodes.len()
        invariant
            i <= nodes@.len(),
            views(out@) == views(nodes@).map_values(|n: NodeModel| n.provenance).take(i as int),
        decreases nodes.len() - i,
    {
        let p = nodes[i].provenance().duplicate();
        let ghost old = out@;
        out.push(p);
        assert(views(out@) =~= views(old).push(nodes@[i as int]@.provenance));
        assert(views(nodes@).map_values(|n: NodeModel| n.provenance).take(i + 1) =~= views(nodes@).map_values(|n: NodeModel| n.provenance).take(i as int).push(nodes@[i as int]@.provenance));
        i = i + 1;
    }
    assert(views(nodes@).map_values(|n: NodeModel| n.provenance).take(nodes@.len() as int) =~= views(nodes@).map_values(|n: NodeModel| n.provenance));
    out
}

fn one_provenance(p: BfgProvenance) -> (r: Vec<BfgProvenance>)
    ensures
        views(r@) == seq![p@],
{
    let mut v: Vec<BfgProvenance> = Vec::new();
    v.push(p);
    assert(views(v@) =~= seq![p@]);
    v
}

/// Builds the structural contradictions of a flow in canonical order.
#[verifier::rlimit(60)]
pub(crate) fn build_violations(
    ds: &[CheckpointDeclaration],
    feature: &str,
    nodes: &Vec<BfgNode>,
    edges: &Vec<BfgEdge>,
    components: &Vec<StronglyConnectedComponent>,
    r: &Vec<Vec<bool>>,
    terminal: &Vec<bool>,
) -> (out: Vec<BehavioralViolation>)
    requires
        flow_input_wf(views(ds@)),
        views(nodes@) == flow_nodes(views(ds@)),
        views(edges@) == flow_edges(views(ds@)),
        forall|e: EdgeModel| views(edges@).contains(e) <==> super::flow::authored_edges(views(ds@), ds@.len() as int).contains(e),
        views(components@) == flow_components(views(ds@)),
        forall|c: ComponentModel| views(components@).contains(c) <==> representative_components(views(ds@), ds@.len() as int).contains(c),
        matrix_wf(views(ds@), r@),
        terminal@.len() == ds@.len(),
        forall|i: int| 0 <= i < ds@.len() ==> (terminal@[i] <==> reaches_terminal(views(ds@), i)),
    ensures
        views(out@) == flow_violations(views(ds@), feature@),
{
    let ghost dv = views(ds@);
    let ghost f = feature@;
    let n = ds.len();
    let triggers = ids_of_kind_exec(ds, CheckpointKind::Trigger);
    let terminals = ids_of_kind_exec(ds, CheckpointKind::Terminal);
    proof {
        assert(views(nodes@).len() == nodes@.len());
        assert forall|q: int| 0 <= q < n implies #[trigger] nodes@[q]@ == node_of(dv[q]) by {
            assert(views(nodes@)[q] == nodes@[q]@);
        }
        lemma_ids_of_kind_are_ids(dv, CheckpointKind::Trigger, n as int);
        assert(views(nodes@).map_values(|x: NodeModel| x.provenance) =~= node_provenance(dv));
    }
    let mut all: Vec<BehavioralViolation> = Vec::new();
    let ghost mut expected: Seq<crate::behavior::model::ViolationModel> = Seq::empty();
    if triggers.len() != 1 {
        let message = concat("modeled Feature `", feature);
        let message = concat(message.as_str(), "` must have exactly one trigger, found ");
        let message = concat(message.as_str(), decimal(triggers.len() as u64).as_str());
        let facts = prefix_each(triggers.as_slice(), "checkpoint:");
        let provenance = canonical_set_exec(node_provenances(nodes));
        let v = BehavioralViolation::new(copy_text("BFG-TRIGGER-COUNT"), copy_text(feature), None, message, facts, provenance);
        assert(v@ == trigger_count_violation(dv, f));
        all.push(v);
        proof {
            expected = seq![trigger_count_violation(dv, f)];
        }
    }
    if terminals.len() == 0 {
        let message = concat("modeled Feature `", feature);
        let message = concat(message.as_str(), "` has no terminal checkpoint");
        let provenance = canonical_set_exec(node_provenances(nodes));
        let facts: Vec<String> = Vec::new();
        assert(texts(facts@) =~= Seq::<Seq<char>>::empty());
        let v = BehavioralViolation::new(copy_text("BFG-TERMINAL-MISSING"), copy_text(feature), None, message, facts, provenance);
        assert(v@ == terminal_missing_violation(dv, f));
        all.push(v);
        proof {
            expected = expected.push(terminal_missing_violation(dv, f));
        }
    }
    assert(views(all@) == expected);
    let ghost head = expected;
    let trigger_position: usize = if triggers.len() == 1 {
        assert(texts(triggers@)[0] == triggers@[0]@);
        position_exec_pub(ds, triggers[0].as_str())
    } else {
        0
    };
    let mut i: usize = 0;
    while i < n
        invariant
            dv == views(ds@),
            f == feature@,
            n == ds@.len(),
            flow_input_wf(dv),
            views(nodes@) == flow_nodes(dv),
            nodes@.len() == n,
            forall|q: int| 0 <= q < n ==> #[trigger] nodes@[q]@ == node_of(dv[q]),
            matrix_wf(dv, r@),
            texts(triggers@) == flow_triggers(dv),
            triggers@.len() == 1 ==> trigger_position < n && trigger_position == position_of(dv, flow_triggers(dv)[0]),
            i <= n,
            views(all@) == head + unreachable_violations(dv, f, i as int),
        decreases n - i,
    {
        if triggers.len() == 1 {
            assert(r@[trigger_position as int]@.len() == n);
            if !r[trigger_position][i] {
                assert(!reachable_from_trigger(dv, i as int));
                assert(texts(triggers@)[0] == triggers@[0]@);
                let c = ds[i].checkpoint();
                assert(dv[i as int] == ds@[i as int]@);
                let message = concat("checkpoint `", c);
                let message = concat(message.as_str(), "` is unreachable from trigger `");
                let message = concat(message.as_str(), triggers[0].as_str());
                let message = concat(message.as_str(), "`");
                let mut facts: Vec<String> = Vec::new();
                facts.push(concat("trigger:", triggers[0].as_str()));
                facts.push(concat("checkpoint:", c));
                assert(texts(facts@) =~= seq!["trigger:"@ + flow_triggers(dv)[0], "checkpoint:"@ + dv[i as int].checkpoint]);
                assert(nodes@[i as int]@ == node_of(dv[i as int]));
                let provenance = canonical_set_exec(one_provenance(nodes[i].provenance().duplicate()));
                let v = BehavioralViolation::new(
                    copy_text("BFG-UNREACHABLE-CHECKPOINT"),
                    copy_text(feature),
                    Some(copy_text(c)),
                    message,
                    facts,
                    provenance,
                );
                assert(v@ == unreachable_violation(dv, f, i as int));
                proof {
                    crate::order::lemma_views_push_seq(all@, v);
                }
                all.push(v);
            } else {
                assert(reachable_from_trigger(dv, i as int));
            }
        }
        i = i + 1;
    }
    let ghost head = views(all@);
    let mut i: usize = 0;
    while i < n
        invariant
            dv == views(ds@),
            f == feature@,
            n == ds@.len(),
            views(nodes@) == flow_nodes(dv),
            nodes@.len() == n,
            forall|q: int| 0 <= q < n ==> #[trigger] nodes@[q]@ == node_of(dv[q]),
            terminal@.len() == n,
            forall|k: int| 0 <= k < n ==> (terminal@[k] <==> reaches_terminal(dv, k)),
            i <= n,
            views(all@) == head + no_terminal_violations(dv, f, i as int),
        decreases n - i,
    {
        assert(dv[i as int] == ds@[i as int]@);
        if ds[i].kind() != CheckpointKind::Terminal && !terminal[i] {
            let c = ds[i].checkpoint();
            let message = concat("nonterminal checkpoint `", c);
            let message = concat(message.as_str(), "` cannot reach any terminal");
            let mut facts: Vec<String> = Vec::new();
            facts.push(concat("checkpoint:", c));
            assert(texts(facts@) =~= seq!["checkpoint:"@ + dv[i as int].checkpoint]);
            assert(nodes@[i as int]@ == node_of(dv[i as int]));
            let provenance = canonical_set_exec(one_provenance(nodes[i].provenance().duplicate()));
            let v = BehavioralViolation::new(
                copy_text("BFG-NO-TERMINAL-PATH"),
                copy_text(feature),
                Some(copy_text(c)),
                message,
                facts,
                provenance,
            );
            assert(v@ == no_terminal_violation(dv, f, i as int));
            proof {
                crate::order::lemma_views_push_seq(all@, v);
            }
            all.push(v);
        }
        i = i + 1;
    }
    let ghost head = views(all@);
    let ghost ev = views(edges@);
    let mut k: usize = 0;
    while k < edges.len()
        invariant
            dv == views(ds@),
            f == feature@,
            n == ds@.len(),
            flow_input_wf(dv),
            views(nodes@) == flow_nodes(dv),
            nodes@.len() == n,
            forall|q: int| 0 <= q < n ==> #[trigger] nodes@[q]@ == node_of(dv[q]),
            ev == views(edges@),
            ev == flow_edges(dv),
            forall|e: EdgeModel| ev.contains(e) <==> super::flow::authored_edges(dv, n as int).contains(e),
            terminal@.len() == n,
            forall|q: int| 0 <= q < n ==> (terminal@[q] <==> reaches_terminal(dv, q)),
            k <= edges@.len(),
            views(all@) == head + branch_violations(dv, f, ev, k as int),
        decreases edges.len() - k,
    {
        let e = &edges[k];
        assert(ev[k as int] == e@);
        proof {
            assert(ev.contains(e@));
            super::flow::lemma_authored_edge(dv, n as int, e@);
            let (a, t) = choose|a: int, t: int| 0 <= a < n && 0 <= t < dv[a].transitions.len() && e@ == #[trigger] super::flow::edge_of(dv, a, t);
            assert(checkpoint_ids(dv)[a] == dv[a].checkpoint);
            assert(checkpoint_ids(dv).contains(dv[a].transitions[t].target));
        }
        let s = position_exec_pub(ds, e.source());
        let t = position_exec_pub(ds, e.target());
        assert(dv[s as int] == ds@[s as int]@);
        if ds[s].kind() == CheckpointKind::Decision && !terminal[t] {
            let message = concat("decision `", e.source());
            let message = concat(message.as_str(), "` outcome `");
            let outcome = match e.decision_outcome() {
                Some(o) => copy_text(o),
                None => copy_text("unlabeled"),
            };
            let message = concat(message.as_str(), outcome.as_str());
            let message = concat(message.as_str(), "` targets `");
            let message = concat(message.as_str(), e.target());
            let message = concat(message.as_str(), "` without a terminal path");
            let fact = concat("edge:", e.source());
            let fact = concat(fact.as_str(), ":");
            let fact = concat(fact.as_str(), e.target());
            let mut facts: Vec<String> = Vec::new();
            facts.push(fact);
            assert(texts(facts@) =~= seq!["edge:"@ + e@.source + ":"@ + e@.target]);
            assert(nodes@[s as int]@ == node_of(dv[s as int]));
            let mut pv: Vec<BfgProvenance> = Vec::new();
            pv.push(nodes[s].provenance().duplicate());
            pv.push(e.provenance().duplicate());
            assert(views(pv@) =~= seq![node_of(dv[s as int]).provenance, e@.provenance]);
            let provenance = canonical_set_exec(pv);
            let v = BehavioralViolation::new(
                copy_text("BFG-NONVIABLE-BRANCH"),
                copy_text(feature),
                Some(copy_text(e.source())),
                message,
                facts,
                provenance,
            );
            assert(v@ == branch_violation(dv, f, e@));
            proof {
                crate::order::lemma_views_push_seq(all@, v);
            }
            all.push(v);
        }
        k = k + 1;
    }
    let ghost head = views(all@);
    let ghost cv = views(components@);
    let mut k: usize = 0;
    while k < components.len()
        invariant
            dv == views(ds@),
            f == feature@,
            n == ds@.len(),
            flow_input_wf(dv),
            views(nodes@) == flow_nodes(dv),
            nodes@.len() == n,
            forall|q: int| 0 <= q < n ==> #[trigger] nodes@[q]@ == node_of(dv[q]),
            cv == views(components@),
            cv == flow_components(dv),
            forall|c: ComponentModel| cv.contains(c) <==> representative_components(dv, n as int).contains(c),
            k <= components@.len(),
            views(all@) == head + closed_loop_violations(dv, f, cv, k as int),
        decreases components.len() - k,
    {
        let c = &components[k];
        assert(cv[k as int] == c@);
        if c.loops_without_exit() {
            let members = c.checkpoint_list();
            proof {
                assert(cv.contains(c@));
                lemma_representative_components(dv, n as int, c@);
                let v = choose|v: int| 0 <= v < n && c@ == #[trigger] component_of(dv, v);
                lemma_class_ids_are_ids(dv, v, n as int);
            }
            let mut pv: Vec<BfgProvenance> = Vec::new();
            let mut m: usize = 0;
            while m < members.len()
                invariant
                    dv == views(ds@),
                    n == ds@.len(),
                    flow_input_wf(dv),
                    views(nodes@) == flow_nodes(dv),
            nodes@.len() == n,
            forall|q: int| 0 <= q < n ==> #[trigger] nodes@[q]@ == node_of(dv[q]),
                    forall|q: int| 0 <= q < texts(members@).len() ==> checkpoint_ids(dv).contains(#[trigger] texts(members@)[q]),
                    m <= members@.len(),
                    views(pv@) == provenance_of_ids(dv, texts(members@)).take(m as int),
                decreases members.len() - m,
            {
                assert(texts(members@)[m as int] == members@[m as int]@);
                let p = position_exec_pub(ds, members[m].as_str());
                assert(nodes@[p as int]@ == node_of(dv[p as int]));
                let ghost old = pv@;
                pv.push(nodes[p].provenance().duplicate());
                assert(views(pv@) =~= views(old).push(node_of(dv[p as int]).provenance));
                assert(provenance_of_ids(dv, texts(members@)).take(m + 1) =~= provenance_of_ids(dv, texts(members@)).take(m as int).push(node_of(dv[p as int]).provenance));
                m = m + 1;
            }
            assert(provenance_of_ids(dv, texts(members@)).take(members@.len() as int) =~= provenance_of_ids(dv, texts(members@)));
            let provenance = canonical_set_exec(pv);
            let message = concat("closed loop `", join(members, " -> ").as_str());
            let message = concat(message.as_str(), "` has no route to a terminal");
            let facts = prefix_each(members, "checkpoint:");
            let first = if members.len() > 0 {
                assert(texts(members@)[0] == members@[0]@);
                Some(copy_text(members[0].as_str()))
            } else {
                None
            };
            let v = BehavioralViolation::new(copy_text("BFG-CLOSED-SCC"), copy_text(feature), first, message, facts, provenance);
            assert(v@ == closed_loop_violation(dv, f, c@));
            proof {
                crate::order::lemma_views_push_seq(all@, v);
            }
            all.push(v);
        }
        k = k + 1;
    }
    proof {
        assert(views(all@) =~= all_violations(dv, f));
    }
    canonical_set_exec(all)
}

/// The unique trigger of a flow is a declared checkpoint.
pub proof fn lemma_trigger_is_id(ds: Seq<DeclarationModel>)
    requires
        flow_triggers(ds).len() == 1,
    ensures
        checkpoint_ids(ds).contains(flow_triggers(ds)[0]),
{
    lemma_ids_of_kind_are_ids(ds, CheckpointKind::Trigger, ds.len() as int);
}

} // verus!
