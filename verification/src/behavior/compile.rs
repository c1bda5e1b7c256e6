//! Assembly of one Feature's intended flow and its derived facts.

use vstd::prelude::*;

use crate::json::{
    documents, lemma_member_models, member_models, optional_text_value, text, text_array, text_values, Json,
    JsonDocument, JsonModel,
};
use crate::order::{canonical_set, canonical_set_exec, views};
use crate::text::{concat, copy_text, copy_texts, join, join_texts, prefix_each, prefixed, texts};
use super::analysis::{
    build_components, build_violations, flow_components, flow_violations, ids_of_kind_exec,
    matrix_wf, node_provenances, terminal_reach,
};
use super::dominance::{compute_dominations, dominations};
use super::flow::{
    build_adjacency, build_edges, build_nodes, flow_adjacency, flow_edges, flow_input_wf,
    flow_nodes, flow_terminals, flow_triggers, position_exec_pub, position_of, reach_matrix,
    reaches_terminal, checkpoint_ids, CheckpointDeclaration, DeclarationModel,
};
use super::graph::{adjacency_wf, has_edge};
use super::model::{
    branch_document, component_document, derivation_document, domination_document, edge_document,
    modeling_state_name, modeling_state_name_exec, node_document, provenance_document, provenance_documents,
    optional_view, BehavioralModelingState, BehavioralViolation, BfgDerivation, BfgEdge, BfgNode,
    BfgProvenance, BranchModel, CheckpointKind, ComponentModel, DecisionBranch, DerivationModel,
    DominationModel, EdgeModel, ImmediateDomination, NodeModel, ProvenanceModel,
    StronglyConnectedComponent, ViolationModel,
};

verus! {

/// Abstract value of one compiled Feature flow.
pub struct FlowModel {
    pub feature: Seq<char>,
    pub owner: Seq<char>,
    pub state: BehavioralModelingState,
    pub participating_modules: Seq<Seq<char>>,
    pub trigger_checkpoint: Option<Seq<char>>,
    pub terminal_checkpoints: Seq<Seq<char>>,
    pub nodes: Seq<NodeModel>,
    pub edges: Seq<EdgeModel>,
    pub module_boundary_crossings: Seq<EdgeModel>,
    pub decision_branches: Seq<BranchModel>,
    pub strongly_connected_components: Seq<ComponentModel>,
    pub immediate_dominators: Seq<DominationModel>,
    pub immediate_post_dominators: Seq<DominationModel>,
    pub derivations: Seq<DerivationModel>,
    pub provenance: Seq<ProvenanceModel>,
}

/// One independently compiled intended Feature flow.
#[derive(Clone, Debug, PartialEq, Eq)]
pub struct IntendedFeatureFlow {
    feature: String,
    owner: String,
    state: BehavioralModelingState,
    participating_modules: Vec<String>,
    trigger_checkpoint: Option<String>,
    terminal_checkpoints: Vec<String>,
    nodes: Vec<BfgNode>,
    edges: Vec<BfgEdge>,
    module_boundary_crossings: Vec<BfgEdge>,
    decision_branches: Vec<DecisionBranch>,
    strongly_connected_components: Vec<StronglyConnectedComponent>,
    immediate_dominators: Vec<ImmediateDomination>,
    immediate_post_dominators: Vec<ImmediateDomination>,
    derivations: Vec<BfgDerivation>,
    provenance: Vec<BfgProvenance>,
}

impl View for IntendedFeatureFlow {
    type V = FlowModel;

    closed spec fn view(&self) -> FlowModel {
        FlowModel {
            feature: self.feature@,
            owner: self.owner@,
            state: self.state,
            participating_modules: texts(self.participating_modules@),
            trigger_checkpoint: optional_view(self.trigger_checkpoint),
            terminal_checkpoints: texts(self.terminal_checkpoints@),
            nodes: views(self.nodes@),
            edges: views(self.edges@),
            module_boundary_crossings: views(self.module_boundary_crossings@),
            decision_branches: views(self.decision_branches@),
            strongly_connected_components: views(self.strongly_connected_components@),
            immediate_dominators: views(self.immediate_dominators@),
            immediate_post_dominators: views(self.immediate_post_dominators@),
            derivations: views(self.derivations@),
            provenance: views(self.provenance@),
        }
    }
}

impl IntendedFeatureFlow {
    /// Returns the modeled Feature.
    pub fn feature(&self) -> (r: &str)
        ensures
            r@ == self@.feature,
    {
        self.feature.as_str()
    }

    /// Returns the Feature owner.
    pub fn owner(&self) -> (r: &str)
        ensures
            r@ == self@.owner,
    {
        self.owner.as_str()
    }

    /// Returns coherent or incoherent modeled state.
    pub fn state(&self) -> (r: BehavioralModelingState)
        ensures
            r == self@.state,
    {
        self.state
    }

    /// Returns participating Module lanes.
    pub fn participating_modules(&self) -> (r: &[String])
        ensures
            texts(r@) == self@.participating_modules,
    {
        self.participating_modules.as_slice()
    }

    /// Returns the unique trigger when coherent enough to identify one.
    pub fn trigger_checkpoint(&self) -> (r: Option<&str>)
        ensures
            match r {
                Some(t) => self@.trigger_checkpoint == Some(t@),
                None => self@.trigger_checkpoint is None,
            },
    {
        match &self.trigger_checkpoint {
            Some(t) => Some(t.as_str()),
            None => None,
        }
    }

    /// Returns all terminal checkpoints.
    pub fn terminal_checkpoints(&self) -> (r: &[String])
        ensures
            texts(r@) == self@.terminal_checkpoints,
    {
        self.terminal_checkpoints.as_slice()
    }

    /// Returns canonical nodes.
    pub fn nodes(&self) -> (r: &[BfgNode])
        ensures
            views(r@) == self@.nodes,
    {
        self.nodes.as_slice()
    }

    /// Returns canonical edges.
    pub fn edges(&self) -> (r: &[BfgEdge])
        ensures
            views(r@) == self@.edges,
    {
        self.edges.as_slice()
    }

    /// Returns cross-Module edges.
    pub fn module_boundary_crossings(&self) -> (r: &[BfgEdge])
        ensures
            views(r@) == self@.module_boundary_crossings,
    {
        self.module_boundary_crossings.as_slice()
    }

    /// Returns decision branches.
    pub fn decision_branches(&self) -> (r: &[DecisionBranch])
        ensures
            views(r@) == self@.decision_branches,
    {
        self.decision_branches.as_slice()
    }

    /// Returns canonical strongly connected components.
    pub fn strongly_connected_components(&self) -> (r: &[StronglyConnectedComponent])
        ensures
            views(r@) == self@.strongly_connected_components,
    {
        self.strongly_connected_components.as_slice()
    }

    /// Returns compact immediate dominators.
    pub fn immediate_dominators(&self) -> (r: &[ImmediateDomination])
        ensures
            views(r@) == self@.immediate_dominators,
    {
        self.immediate_dominators.as_slice()
    }

    /// Returns compact immediate post-dominators using a synthetic common exit.
    pub fn immediate_post_dominators(&self) -> (r: &[ImmediateDomination])
        ensures
            views(r@) == self@.immediate_post_dominators,
    {
        self.immediate_post_dominators.as_slice()
    }

    /// Returns the explainable derived facts.
    pub fn derivations(&self) -> (r: &[BfgDerivation])
        ensures
            views(r@) == self@.derivations,
    {
        self.derivations.as_slice()
    }

    /// Returns the canonical provenance of every node and edge.
    pub fn provenance(&self) -> (r: &[BfgProvenance])
        ensures
            views(r@) == self@.provenance,
    {
        self.provenance.as_slice()
    }
}

/// The synthetic exit joining every terminal for post-domination.
pub open spec fn common_exit() -> Seq<char> {
    "__BFG_COMMON_EXIT__"@
}

/// Sources of the edges into `x` among the first `k` checkpoints, both ends
/// reaching a terminal.
pub open spec fn reverse_row(ds: Seq<DeclarationModel>, x: int, k: int) -> Seq<usize>
    decreases k,
{
    if k <= 0 {
        Seq::empty()
    } else {
        reverse_row(ds, x, k - 1) + (if reaches_terminal(ds, k - 1) && reaches_terminal(ds, x)
            && has_edge(flow_adjacency(ds), k - 1, x) {
            seq![(k - 1) as usize]
        } else {
            Seq::empty()
        })
    }
}

/// Terminal positions among the first `k` checkpoints.
pub open spec fn terminal_row(ds: Seq<DeclarationModel>, k: int) -> Seq<usize>
    decreases k,
{
    if k <= 0 {
        Seq::empty()
    } else {
        terminal_row(ds, k - 1) + (if ds[k - 1].kind == CheckpointKind::Terminal {
            seq![(k - 1) as usize]
        } else {
            Seq::empty()
        })
    }
}

/// The graph whose dominators are the post-dominators: reversed edges among
/// terminal-reaching checkpoints, and the exit (last node) to every terminal.
pub open spec fn post_graph(ds: Seq<DeclarationModel>) -> Seq<Seq<usize>> {
    Seq::new(
        (ds.len() + 1) as nat,
        |x: int| if x < ds.len() { reverse_row(ds, x, ds.len() as int) } else { terminal_row(ds, ds.len() as int) },
    )
}

/// Node names of the post-domination graph.
pub open spec fn post_names(ds: Seq<DeclarationModel>) -> Seq<Seq<char>> {
    checkpoint_ids(ds).push(common_exit())
}

/// The forward immediate dominators of a flow.
pub open spec fn flow_dominators(ds: Seq<DeclarationModel>) -> Seq<DominationModel> {
    if flow_triggers(ds).len() == 1 {
        dominations(
            flow_adjacency(ds),
            position_of(ds, flow_triggers(ds)[0]),
            checkpoint_ids(ds),
            "dominator"@,
            None,
            ds.len() as int,
        )
    } else {
        Seq::empty()
    }
}

/// The immediate post-dominators of a flow.
pub open spec fn flow_post_dominators(ds: Seq<DeclarationModel>) -> Seq<DominationModel> {
    dominations(post_graph(ds), ds.len() as int, post_names(ds), "post_dominator"@, Some(ds.len() as int), (ds.len() + 1) as int)
}

/// Edges that change Module lane, in canonical order.
pub open spec fn crossing_edges(edges: Seq<EdgeModel>) -> Seq<EdgeModel>
    decreases edges.len(),
{
    if edges.len() == 0 {
        Seq::empty()
    } else {
        crossing_edges(edges.drop_last()) + (if edges.last().crosses_module_boundary {
            seq![edges.last()]
        } else {
            Seq::empty()
        })
    }
}

/// The branch record of a decision edge.
pub open spec fn branch_of(ds: Seq<DeclarationModel>, e: EdgeModel) -> BranchModel {
    BranchModel {
        decision: e.source,
        outcome: match e.decision_outcome {
            Some(o) => o,
            None => Seq::empty(),
        },
        target: e.target,
        can_reach_terminal: reaches_terminal(ds, position_of(ds, e.target)),
        derivation: "branch_viability:"@ + e.source + ":"@ + e.target,
    }
}

/// Branch records of the decision edges among the first `k` edges.
pub open spec fn decision_branches_of(ds: Seq<DeclarationModel>, edges: Seq<EdgeModel>, k: int) -> Seq<BranchModel>
    decreases k,
{
    if k <= 0 {
        Seq::empty()
    } else {
        decision_branches_of(ds, edges, k - 1) + (if ds[position_of(ds, edges[k - 1].source)].kind
            == CheckpointKind::Decision {
            seq![branch_of(ds, edges[k - 1])]
        } else {
            Seq::empty()
        })
    }
}

/// The canonical provenance of every node and edge of a flow.
pub open spec fn flow_provenance(ds: Seq<DeclarationModel>) -> Seq<ProvenanceModel> {
    canonical_set::<BfgProvenance>(
        flow_nodes(ds).map_values(|n: NodeModel| n.provenance) + flow_edges(ds).map_values(|e: EdgeModel| e.provenance),
    )
}

/// The Modules declaring checkpoints of the flow, in canonical order.
pub open spec fn flow_modules(ds: Seq<DeclarationModel>) -> Seq<Seq<char>> {
    canonical_set::<String>(ds.map_values(|d: DeclarationModel| d.module))
}

/// The participant derivation for one Module.
pub open spec fn participant_derivation(feature: Seq<char>, module: Seq<char>, prov: Seq<ProvenanceModel>) -> DerivationModel {
    DerivationModel {
        id: "participant:"@ + feature + ":"@ + module,
        kind: "participant_module"@,
        fact: "Feature `"@ + feature + "` includes Module `"@ + module + "`"@,
        input_facts: seq!["checkpoint_owner:"@ + module],
        explanation_path: seq![feature, module],
        provenance: prov,
    }
}

/// The boundary derivation for one crossing edge.
pub open spec fn boundary_derivation(e: EdgeModel) -> DerivationModel {
    DerivationModel {
        id: "boundary:"@ + e.source + ":"@ + e.target,
        kind: "boundary_crossing"@,
        fact: e.source + " -> "@ + e.target + " crosses Module ownership"@,
        input_facts: seq!["edge:"@ + e.source + ":"@ + e.target],
        explanation_path: seq![e.source, e.target],
        provenance: seq![e.provenance],
    }
}

/// The component derivation for one component.
pub open spec fn component_derivation(c: ComponentModel, prov: Seq<ProvenanceModel>) -> DerivationModel {
    DerivationModel {
        id: c.derivation,
        kind: "strongly_connected_component"@,
        fact: "SCC contains "@ + join_texts(c.checkpoints, ", "@),
        input_facts: prefixed(c.checkpoints, "checkpoint:"@),
        explanation_path: c.checkpoints,
        provenance: prov,
    }
}

/// The derivation of one (post-)domination record.
pub open spec fn domination_derivation(feature: Seq<char>, kind: Seq<char>, d: DominationModel, prov: Seq<ProvenanceModel>) -> DerivationModel {
    DerivationModel {
        id: d.derivation,
        kind,
        fact: d.checkpoint + " immediate "@ + kind + " is "@ + (match d.immediate {
            Some(i) => i,
            None => "none"@,
        }),
        input_facts: seq!["feature_graph:"@ + feature],
        explanation_path: match d.immediate {
            Some(i) => seq![i, d.checkpoint],
            None => seq![d.checkpoint],
        },
        provenance: prov,
    }
}

/// Every derivation of a flow before canonical ordering.
pub open spec fn all_derivations(ds: Seq<DeclarationModel>, feature: Seq<char>) -> Seq<DerivationModel> {
    let prov = flow_provenance(ds);
    flow_modules(ds).map_values(|m: Seq<char>| participant_derivation(feature, m, prov))
        + crossing_edges(flow_edges(ds)).map_values(|e: EdgeModel| boundary_derivation(e))
        + flow_components(ds).map_values(|c: ComponentModel| component_derivation(c, prov))
        + flow_dominators(ds).map_values(|d: DominationModel| domination_derivation(feature, "dominator"@, d, prov))
        + flow_post_dominators(ds).map_values(|d: DominationModel| domination_derivation(feature, "post_dominator"@, d, prov))
}

/// The complete compiled flow of one Feature.
pub open spec fn feature_flow(ds: Seq<DeclarationModel>, feature: Seq<char>, owner: Seq<char>) -> FlowModel {
    FlowModel {
        feature,
        owner,
        state: if flow_violations(ds, feature).len() == 0 {
            BehavioralModelingState::ModeledCoherent
        } else {
            BehavioralModelingState::ModeledIncoherent
        },
        participating_modules: flow_modules(ds),
        trigger_checkpoint: if flow_triggers(ds).len() == 1 { Some(flow_triggers(ds)[0]) } else { None },
        terminal_checkpoints: flow_terminals(ds),
        nodes: flow_nodes(ds),
        edges: flow_edges(ds),
        module_boundary_crossings: crossing_edges(flow_edges(ds)),
        decision_branches: decision_branches_of(ds, flow_edges(ds), flow_edges(ds).len() as int),
        strongly_connected_components: flow_components(ds),
        immediate_dominators: flow_dominators(ds),
        immediate_post_dominators: flow_post_dominators(ds),
        derivations: canonical_set::<BfgDerivation>(all_derivations(ds, feature)),
        provenance: flow_provenance(ds),
    }
}

fn contains_index(v: &Vec<usize>, x: usize) -> (r: bool)
    ensures
        r == v@.contains(x),
{
    let mut i: usize = 0;
    while i < v.len()
        invariant
            i <= v@.len(),
            forall|k: int| 0 <= k < i ==> v@[k] != x,
        decreases v.len() - i,
    {
        if v[i] == x {
            return true;
        }
        i = i + 1;
    }
    false
}

/// Builds the post-domination graph.
fn build_post_graph(ds: &[CheckpointDeclaration], adj: &Vec<Vec<usize>>, terminal: &Vec<bool>) -> (r: Vec<Vec<usize>>)
    requires
        flow_input_wf(views(ds@)),
        adj@.map_values(|x: Vec<usize>| x@) == flow_adjacency(views(ds@)),
        terminal@.len() == ds@.len(),
        forall|i: int| 0 <= i < ds@.len() ==> (terminal@[i] <==> reaches_terminal(views(ds@), i)),
        ds@.len() < usize::MAX,
    ensures
        r@.map_values(|x: Vec<usize>| x@) == post_graph(views(ds@)),
        adjacency_wf(post_graph(views(ds@))),
{
    let ghost dv = views(ds@);
    let n = ds.len();
    assert(adj@.map_values(|x: Vec<usize>| x@).len() == adj@.len());
    let mut rows: Vec<Vec<usize>> = Vec::new();
    let mut x: usize = 0;
    while x < n
        invariant
            dv == views(ds@),
            n == ds@.len(),
            adj@.len() == n,
            adj@.map_values(|y: Vec<usize>| y@) == flow_adjacency(dv),
            terminal@.len() == n,
            forall|i: int| 0 <= i < n ==> (terminal@[i] <==> reaches_terminal(dv, i)),
            x <= n,
            rows@.len() == x,
            forall|q: int| 0 <= q < x ==> #[trigger] rows@[q]@ == reverse_row(dv, q, n as int),
        decreases n - x,
    {
        let mut row: Vec<usize> = Vec::new();
        let mut k: usize = 0;
        while k < n
            invariant
                dv == views(ds@),
                n == ds@.len(),
                adj@.len() == n,
                adj@.map_values(|y: Vec<usize>| y@) == flow_adjacency(dv),
                terminal@.len() == n,
                forall|i: int| 0 <= i < n ==> (terminal@[i] <==> reaches_terminal(dv, i)),
                x < n,
                k <= n,
                row@ == reverse_row(dv, x as int, k as int),
            decreases n - k,
        {
            assert(adj@[k as int]@ == flow_adjacency(dv)[k as int]);
            if terminal[k] && terminal[x] && contains_index(&adj[k], x) {
                row.push(k);
            }
            k = k + 1;
        }
        rows.push(row);
        x = x + 1;
    }
    let mut exits: Vec<usize> = Vec::new();
    let mut k: usize = 0;
    while k < n
        invariant
            dv == views(ds@),
            n == ds@.len(),
            k <= n,
            exits@ == terminal_row(dv, k as int),
        decreases n - k,
    {
        assert(dv[k as int] == ds@[k as int]@);
        if ds[k].kind() == CheckpointKind::Terminal {
            exits.push(k);
        }
        k = k + 1;
    }
    rows.push(exits);
    assert(rows@.map_values(|y: Vec<usize>| y@) =~= post_graph(dv));
    proof {
        let g = post_graph(dv);
        assert forall|u: int, j: int| 0 <= u < g.len() && 0 <= j < g[u].len() implies #[trigger] g[u][j] < g.len() by {
            if u < n {
                lemma_reverse_row_bound(dv, u, n as int);
            } else {
                lemma_terminal_row_bound(dv, n as int);
            }
        }
    }
    rows
}

proof fn lemma_reverse_row_bound(ds: Seq<DeclarationModel>, x: int, k: int)
    requires
        0 <= k <= ds.len(),
    ensures
        forall|j: int| 0 <= j < reverse_row(ds, x, k).len() ==> (#[trigger] reverse_row(ds, x, k)[j] as int) < k,
    decreases k,
{
    if k > 0 {
        lemma_reverse_row_bound(ds, x, k - 1);
        let s = reverse_row(ds, x, k);
        let s0 = reverse_row(ds, x, k - 1);
        assert forall|j: int| 0 <= j < s.len() implies (#[trigger] s[j] as int) < k by {
            if j < s0.len() {
                assert(s[j] == s0[j]);
            }
        }
    }
}

proof fn lemma_terminal_row_bound(ds: Seq<DeclarationModel>, k: int)
    requires
        0 <= k <= ds.len(),
    ensures
        forall|j: int| 0 <= j < terminal_row(ds, k).len() ==> (#[trigger] terminal_row(ds, k)[j] as int) < k,
    decreases k,
{
    if k > 0 {
        lemma_terminal_row_bound(ds, k - 1);
        let s = terminal_row(ds, k);
        let s0 = terminal_row(ds, k - 1);
        assert forall|j: int| 0 <= j < s.len() implies (#[trigger] s[j] as int) < k by {
            if j < s0.len() {
                assert(s[j] == s0[j]);
            }
        }
    }
}

fn checkpoint_names(ds: &[CheckpointDeclaration]) -> (r: Vec<String>)
    ensures
        texts(r@) == checkpoint_ids(views(ds@)),
{
    let mut out: Vec<String> = Vec::new();
    let mut i: usize = 0;
    while i < ds.len()
        invariant
            i <= ds@.len(),
            texts(out@) == checkpoint_ids(views(ds@)).take(i as int),
        decreases ds.len() - i,
    {
        let ghost old = out@;
        out.push(copy_text(ds[i].checkpoint()));
        assert(texts(out@) =~= texts(old).push(ds@[i as int]@.checkpoint));
        assert(checkpoint_ids(views(ds@)).take(i + 1) =~= checkpoint_ids(views(ds@)).take(i as int).push(ds@[i as int]@.checkpoint));
        i = i + 1;
    }
    assert(checkpoint_ids(views(ds@)).take(ds@.len() as int) =~= checkpoint_ids(views(ds@)));
    out
}

fn crossings_of(edges: &Vec<BfgEdge>) -> (r: Vec<BfgEdge>)
    ensures
        views(r@) == crossing_edges(views(edges@)),
{
    let mut out: Vec<BfgEdge> = Vec::new();
    let mut i: usize = 0;
    while i < edges.len()
        invariant
            i <= edges@.len(),
            views(out@) == crossing_edges(views(edges@).take(i as int)),
        decreases edges.len() - i,
    {
        assert(views(edges@).take(i + 1).drop_last() =~= views(edges@).take(i as int));
        assert(views(edges@).take(i + 1).last() == edges@[i as int]@);
        if edges[i].crosses_module_boundary() {
            let e = edges[i].duplicate();
            proof {
                crate::order::lemma_views_push_seq(out@, e);
            }
            out.push(e);
        }
        i = i + 1;
    }
    assert(views(edges@).take(edges@.len() as int) =~= views(edges@));
    out
}

fn branches_of(
    ds: &[CheckpointDeclaration],
    edges: &Vec<BfgEdge>,
    terminal: &Vec<bool>,
) -> (r: Vec<DecisionBranch>)
    requires
        flow_input_wf(views(ds@)),
        views(edges@) == flow_edges(views(ds@)),
        forall|e: EdgeModel| views(edges@).contains(e) <==> super::flow::authored_edges(views(ds@), ds@.len() as int).contains(e),
        terminal@.len() == ds@.len(),
        forall|i: int| 0 <= i < ds@.len() ==> (terminal@[i] <==> reaches_terminal(views(ds@), i)),
    ensures
        views(r@) == decision_branches_of(views(ds@), views(edges@), edges@.len() as int),
{
    let ghost dv = views(ds@);
    let ghost ev = views(edges@);
    let n = ds.len();
    let mut out: Vec<DecisionBranch> = Vec::new();
    let mut k: usize = 0;
    while k < edges.len()
        invariant
            dv == views(ds@),
            n == ds@.len(),
            flow_input_wf(dv),
            ev == views(edges@),
            forall|e: EdgeModel| ev.contains(e) <==> super::flow::authored_edges(dv, n as int).contains(e),
            terminal@.len() == n,
            forall|q: int| 0 <= q < n ==> (terminal@[q] <==> reaches_terminal(dv, q)),
            k <= edges@.len(),
            views(out@) == decision_branches_of(dv, ev, k as int),
        decreases edges.len() - k,
    {
        let e = &edges[k];
        assert(ev[k as int] == e@);
        proof {
            assert(ev.contains(e@));
            super::flow::lemma_authored_edge(dv, n as int, e@);
            let (a, t) = choose|a: int, t: int| 0 <= a < n && 0 <= t < dv[a].transitions.len() && e@ == #[trigger] super::flow::edge_of(dv, a, t);
            assert(checkpoint_ids(dv)[a] == dv[a].checkpoint);
            assert(checkpoint_ids(dv).contains(dv[a].transitions[t].target));
        }
        let s = position_exec_pub(ds, e.source());
        assert(dv[s as int] == ds@[s as int]@);
        if ds[s].kind() == CheckpointKind::Decision {
            let t = position_exec_pub(ds, e.target());
            let outcome = match e.decision_outcome() {
                Some(o) => copy_text(o),
                None => String::new(),
            };
            let derivation = concat("branch_viability:", e.source());
            let derivation = concat(derivation.as_str(), ":");
            let derivation = concat(derivation.as_str(), e.target());
            let branch = DecisionBranch::build(copy_text(e.source()), outcome, copy_text(e.target()), terminal[t], derivation);
            assert(branch@ == branch_of(dv, e@));
            proof {
                crate::order::lemma_views_push_seq(out@, branch);
            }
            out.push(branch);
        }
        k = k + 1;
    }
    out
}

fn module_names(ds: &[CheckpointDeclaration]) -> (r: Vec<String>)
    ensures
        views(r@) == flow_modules(views(ds@)),
{
    let mut out: Vec<String> = Vec::new();
    let mut i: usize = 0;
    while i < ds.len()
        invariant
            i <= ds@.len(),
            views(out@) == views(ds@).map_values(|d: DeclarationModel| d.module).take(i as int),
        decreases ds.len() - i,
    {
        let ghost old = out@;
        out.push(copy_text(ds[i].module()));
        assert(views(out@) =~= views(old).push(ds@[i as int]@.module));
        assert(views(ds@).map_values(|d: DeclarationModel| d.module).take(i + 1) =~= views(ds@).map_values(|d: DeclarationModel| d.module).take(i as int).push(ds@[i as int]@.module));
        i = i + 1;
    }
    assert(views(ds@).map_values(|d: DeclarationModel| d.module).take(ds@.len() as int) =~= views(ds@).map_values(|d: DeclarationModel| d.module));
    canonical_set_exec(out)
}

fn all_provenance(nodes: &Vec<BfgNode>, edges: &Vec<BfgEdge>) -> (r: Vec<BfgProvenance>)
    ensures
        views(r@) == canonical_set::<BfgProvenance>(
            views(nodes@).map_values(|n: NodeModel| n.provenance) + views(edges@).map_values(|e: EdgeModel| e.provenance),
        ),
{
    let mut out = node_provenances(nodes);
    let ghost head = views(out@);
    let mut i: usize = 0;
    while i < edges.len()
        invariant
            i <= edges@.len(),
            views(out@) == head + views(edges@).map_values(|e: EdgeModel| e.provenance).take(i as int),
        decreases edges.len() - i,
    {
        let p = edges[i].provenance().duplicate();
        let ghost old = out@;
        out.push(p);
        assert(views(out@) =~= views(old).push(edges@[i as int]@.provenance));
        assert(views(edges@).map_values(|e: EdgeModel| e.provenance).take(i + 1) =~= views(edges@).map_values(|e: EdgeModel| e.provenance).take(i as int).push(edges@[i as int]@.provenance));
        i = i + 1;
    }
    assert(views(edges@).map_values(|e: EdgeModel| e.provenance).take(edges@.len() as int) =~= views(edges@).map_values(|e: EdgeModel| e.provenance));
    canonical_set_exec(out)
}

fn copy_provenance(p: &Vec<BfgProvenance>) -> (r: Vec<BfgProvenance>)
    ensures
        views(r@) == views(p@),
{
    let mut out: Vec<BfgProvenance> = Vec::new();
    let mut i: usize = 0;
    while i < p.len()
        invariant
            i <= p@.len(),
            views(out@) == views(p@).take(i as int),
        decreases p.len() - i,
    {
        let x = p[i].duplicate();
        let ghost old = out@;
        out.push(x);
        assert(views(out@) =~= views(old).push(p@[i as int]@));
        assert(views(p@).take(i + 1) =~= views(p@).take(i as int).push(p@[i as int]@));
        i = i + 1;
    }
    assert(views(p@).take(p@.len() as int) =~= views(p@));
    out
}

fn two_texts(a: String, b: String) -> (r: Vec<String>)
    ensures
        texts(r@) == seq![a@, b@],
{
    let mut v: Vec<String> = Vec::new();
    v.push(a);
    v.push(b);
    assert(texts(v@) =~= seq![a@, b@]);
    v
}

fn one_text(a: String) -> (r: Vec<String>)
    ensures
        texts(r@) == seq![a@],
{
    let mut v: Vec<String> = Vec::new();
    v.push(a);
    assert(texts(v@) =~= seq![a@]);
    v
}

fn domination_derivations(
    feature: &str,
    kind: &str,
    records: &Vec<ImmediateDomination>,
    prov: &Vec<BfgProvenance>,
) -> (r: Vec<BfgDerivation>)
    ensures
        views(r@) == views(records@).map_values(|d: DominationModel| domination_derivation(feature@, kind@, d, views(prov@))),
{
    let mut out: Vec<BfgDerivation> = Vec::new();
    let mut i: usize = 0;
    while i < records.len()
        invariant
            i <= records@.len(),
            views(out@) == views(records@).map_values(|d: DominationModel| domination_derivation(feature@, kind@, d, views(prov@))).take(i as int),
        decreases records.len() - i,
    {
        let d = &records[i];
        let checkpoint = d.checkpoint();
        let fact = concat(checkpoint, " immediate ");
        let fact = concat(fact.as_str(), kind);
        let fact = concat(fact.as_str(), " is ");
        let (fact, path) = match d.immediate() {
            Some(im) => (concat(fact.as_str(), im), two_texts(copy_text(im), copy_text(checkpoint))),
            None => (concat(fact.as_str(), "none"), one_text(copy_text(checkpoint))),
        };
        let derivation = BfgDerivation::build(
            copy_text(d.derivation_text()),
            copy_text(kind),
            fact,
            one_text(concat("feature_graph:", feature)),
            path,
            copy_provenance(prov),
        );
        assert(derivation@ == domination_derivation(feature@, kind@, d@, views(prov@)));
        let ghost old = out@;
        out.push(derivation);
        assert(views(out@) =~= views(old).push(derivation@));
        assert(views(records@).map_values(|x: DominationModel| domination_derivation(feature@, kind@, x, views(prov@))).take(i + 1) =~= views(records@).map_values(|x: DominationModel| domination_derivation(feature@, kind@, x, views(prov@))).take(i as int).push(domination_derivation(feature@, kind@, records@[i as int]@, views(prov@))));
        i = i + 1;
    }
    assert(views(records@).map_values(|d: DominationModel| domination_derivation(feature@, kind@, d, views(prov@))).take(records@.len() as int) =~= views(records@).map_values(|d: DominationModel| domination_derivation(feature@, kind@, d, views(prov@))));
    out
}

#[verifier::rlimit(60)]
fn build_derivations(
    feature: &str,
    modules: &Vec<String>,
    crossings: &Vec<BfgEdge>,
    components: &Vec<StronglyConnectedComponent>,
    dominators: &Vec<ImmediateDomination>,
    post_dominators: &Vec<ImmediateDomination>,
    prov: &Vec<BfgProvenance>,
) -> (r: Vec<BfgDerivation>)
    ensures
        views(r@) == canonical_set::<BfgDerivation>(
            views(modules@).map_values(|m: Seq<char>| participant_derivation(feature@, m, views(prov@)))
                + views(crossings@).map_values(|e: EdgeModel| boundary_derivation(e))
                + views(components@).map_values(|c: ComponentModel| component_derivation(c, views(prov@)))
                + views(dominators@).map_values(|d: DominationModel| domination_derivation(feature@, "dominator"@, d, views(prov@)))
                + views(post_dominators@).map_values(|d: DominationModel| domination_derivation(feature@, "post_dominator"@, d, views(prov@))),
        ),
{
    let ghost pv = views(prov@);
    let mut out: Vec<BfgDerivation> = Vec::new();
    let mut i: usize = 0;
    while i < modules.len()
        invariant
            pv == views(prov@),
            i <= modules@.len(),
            views(out@) == views(modules@).map_values(|m: Seq<char>| participant_derivation(feature@, m, pv)).take(i as int),
        decreases modules.len() - i,
    {
        let m = modules[i].as_str();
        let id = concat("participant:", feature);
        let id = concat(id.as_str(), ":");
        let id = concat(id.as_str(), m);
        let fact = concat("Feature `", feature);
        let fact = concat(fact.as_str(), "` includes Module `");
        let fact = concat(fact.as_str(), m);
        let fact = concat(fact.as_str(), "`");
        let d = BfgDerivation::build(
            id,
            copy_text("participant_module"),
            fact,
            one_text(concat("checkpoint_owner:", m)),
            two_texts(copy_text(feature), copy_text(m)),
            copy_provenance(prov),
        );
        assert(d@ == participant_derivation(feature@, modules@[i as int]@, pv));
        let ghost old = out@;
        out.push(d);
        assert(views(out@) =~= views(old).push(d@));
        assert(views(modules@).map_values(|x: Seq<char>| participant_derivation(feature@, x, pv)).take(i + 1) =~= views(modules@).map_values(|x: Seq<char>| participant_derivation(feature@, x, pv)).take(i as int).push(d@));
        i = i + 1;
    }
    assert(views(modules@).map_values(|m: Seq<char>| participant_derivation(feature@, m, pv)).take(modules@.len() as int) =~= views(modules@).map_values(|m: Seq<char>| participant_derivation(feature@, m, pv)));
    let ghost part1 = views(out@);
    let mut i: usize = 0;
    while i < crossings.len()
        invariant
            i <= crossings@.len(),
            views(out@) == part1 + views(crossings@).map_values(|e: EdgeModel| boundary_derivation(e)).take(i as int),
        decreases crossings.len() - i,
    {
        let e = &crossings[i];
        let id = concat("boundary:", e.source());
        let id = concat(id.as_str(), ":");
        let id = concat(id.as_str(), e.target());
        let fact = concat(e.source(), " -> ");
        let fact = concat(fact.as_str(), e.target());
        let fact = concat(fact.as_str(), " crosses Module ownership");
        let input = concat("edge:", e.source());
        let input = concat(input.as_str(), ":");
        let input = concat(input.as_str(), e.target());
        let mut pv1: Vec<BfgProvenance> = Vec::new();
        pv1.push(e.provenance().duplicate());
        assert(views(pv1@) =~= seq![e@.provenance]);
        let d = BfgDerivation::build(
            id,
            copy_text("boundary_crossing"),
            fact,
            one_text(input),
            two_texts(copy_text(e.source()), copy_text(e.target())),
            pv1,
        );
        assert(d@ == boundary_derivation(e@));
        let ghost old = out@;
        out.push(d);
        assert(views(out@) =~= views(old).push(d@));
        assert(views(crossings@).map_values(|x: EdgeModel| boundary_derivation(x)).take(i + 1) =~= views(crossings@).map_values(|x: EdgeModel| boundary_derivation(x)).take(i as int).push(d@));
        i = i + 1;
    }
    assert(views(crossings@).map_values(|e: EdgeModel| boundary_derivation(e)).take(crossings@.len() as int) =~= views(crossings@).map_values(|e: EdgeModel| boundary_derivation(e)));
    let ghost part2 = views(out@);
    let mut i: usize = 0;
    while i < components.len()
        invariant
            pv == views(prov@),
            i <= components@.len(),
            views(out@) == part2 + views(components@).map_values(|c: ComponentModel| component_derivation(c, pv)).take(i as int),
        decreases components.len() - i,
    {
        let c = &components[i];
        let members = c.checkpoint_list();
        let fact = concat("SCC contains ", join(members, ", ").as_str());
        let path = copy_texts(members);
        let d = BfgDerivation::build(
            copy_text(c.derivation_text()),
            copy_text("strongly_connected_component"),
            fact,
            prefix_each(members, "checkpoint:"),
            path,
            copy_provenance(prov),
        );
        assert(d@ == component_derivation(c@, pv));
        let ghost old = out@;
        out.push(d);
        assert(views(out@) =~= views(old).push(d@));
        assert(views(components@).map_values(|x: ComponentModel| component_derivation(x, pv)).take(i + 1) =~= views(components@).map_values(|x: ComponentModel| component_derivation(x, pv)).take(i as int).push(d@));
        i = i + 1;
    }
    assert(views(components@).map_values(|c: ComponentModel| component_derivation(c, pv)).take(components@.len() as int) =~= views(components@).map_values(|c: ComponentModel| component_derivation(c, pv)));
    let ghost part3 = views(out@);
    let mut dom = domination_derivations(feature, "dominator", dominators, prov);
    let ghost part4 = views(dom@);
    out.append(&mut dom);
    assert(views(out@) =~= part3 + part4);
    let ghost part34 = views(out@);
    let mut post = domination_derivations(feature, "post_dominator", post_dominators, prov);
    let ghost part5 = views(post@);
    out.append(&mut post);
    assert(views(out@) =~= part34 + part5);
    canonical_set_exec(out)
}

/// Compiles one Feature's declarations (ordered by checkpoint identity, each
/// transition naming a declared checkpoint) into its intended flow and its
/// structural contradictions in canonical order.
#[verifier::rlimit(80)]
pub fn compile_feature_flow(
    feature: &str,
    owner: &str,
    declarations: &[CheckpointDeclaration],
) -> (r: (IntendedFeatureFlow, Vec<BehavioralViolation>))
    requires
        flow_input_wf(views(declarations@)),
        declarations@.len() < usize::MAX,
    ensures
        r.0@ == feature_flow(views(declarations@), feature@, owner@),
        views(r.1@) == flow_violations(views(declarations@), feature@),
{
    let ds = declarations;
    let ghost dv = views(ds@);
    let n = ds.len();
    let nodes = build_nodes(ds);
    let edges = build_edges(ds);
    let adj = build_adjacency(ds);
    let r = reach_matrix(ds, &adj);
    let terminal = terminal_reach(ds, &r);
    let components = build_components(ds, &adj, &r, &terminal);
    let violations = build_violations(ds, feature, &nodes, &edges, &components, &r, &terminal);
    let triggers = ids_of_kind_exec(ds, CheckpointKind::Trigger);
    let terminals = ids_of_kind_exec(ds, CheckpointKind::Terminal);
    let names = checkpoint_names(ds);
    assert(texts(names@).len() == names@.len());
    assert(adj@.map_values(|x: Vec<usize>| x@).len() == adj@.len());
    let (trigger_checkpoint, dominators) = if triggers.len() == 1 {
        assert(texts(triggers@)[0] == triggers@[0]@);
        proof {
            super::analysis::lemma_trigger_is_id(dv);
        }
        let s = position_exec_pub(ds, triggers[0].as_str());
        let dominators = compute_dominations(&adj, s, &names, "dominator", None);
        (Some(copy_text(triggers[0].as_str())), dominators)
    } else {
        let none: Vec<ImmediateDomination> = Vec::new();
        assert(views(none@) =~= Seq::<DominationModel>::empty());
        (None, none)
    };
    let post_adj = build_post_graph(ds, &adj, &terminal);
    let mut post_names = checkpoint_names(ds);
    let ghost before_names = post_names@;
    post_names.push(copy_text("__BFG_COMMON_EXIT__"));
    assert(texts(post_names@) =~= post_names_spec_helper(dv));
    assert(post_adj@.map_values(|x: Vec<usize>| x@).len() == post_adj@.len());
    let post_dominators = compute_dominations(&post_adj, n, &post_names, "post_dominator", Some(n));
    let modules = module_names(ds);
    let crossings = crossings_of(&edges);
    let branches = branches_of(ds, &edges, &terminal);
    let provenance = all_provenance(&nodes, &edges);
    proof {
        assert(views(nodes@).map_values(|x: NodeModel| x.provenance) == flow_nodes(dv).map_values(|x: NodeModel| x.provenance));
    }
    let derivations = build_derivations(feature, &modules, &crossings, &components, &dominators, &post_dominators, &provenance);
    let state = if violations.len() == 0 {
        BehavioralModelingState::ModeledCoherent
    } else {
        BehavioralModelingState::ModeledIncoherent
    };
    assert(views(violations@).len() == violations@.len());
    let flow = IntendedFeatureFlow {
        feature: copy_text(feature),
        owner: copy_text(owner),
        state,
        participating_modules: modules,
        trigger_checkpoint,
        terminal_checkpoints: terminals,
        nodes,
        edges,
        module_boundary_crossings: crossings,
        decision_branches: branches,
        strongly_connected_components: components,
        immediate_dominators: dominators,
        immediate_post_dominators: post_dominators,
        derivations,
        provenance,
    };
    proof {
        assert(flow@.derivations == canonical_set::<BfgDerivation>(all_derivations(dv, feature@)));
    }
    (flow, violations)
}

/// The post-domination names, spelled out.
pub open spec fn post_names_spec_helper(ds: Seq<DeclarationModel>) -> Seq<Seq<char>> {
    post_names(ds)
}

// ---------------------------------------------------------------------------
// Canonical JSON.

/// The JSON document of a flow: every field, in declaration order.
pub open spec fn flow_document(f: FlowModel) -> JsonModel {
    JsonModel::Object(
        seq![
            ("feature"@, JsonModel::Text(f.feature)),
            ("owner"@, JsonModel::Text(f.owner)),
            ("state"@, JsonModel::Text(modeling_state_name(f.state))),
            ("participating_modules"@, JsonModel::Array(text_values(f.participating_modules))),
            ("trigger_checkpoint"@, optional_text_value(f.trigger_checkpoint)),
            ("terminal_checkpoints"@, JsonModel::Array(text_values(f.terminal_checkpoints))),
            ("nodes"@, JsonModel::Array(f.nodes.map_values(|n: NodeModel| node_document(n)))),
            ("edges"@, JsonModel::Array(f.edges.map_values(|e: EdgeModel| edge_document(e)))),
            (
                "module_boundary_crossings"@,
                JsonModel::Array(f.module_boundary_crossings.map_values(|e: EdgeModel| edge_document(e))),
            ),
            ("decision_branches"@, JsonModel::Array(f.decision_branches.map_values(|b: BranchModel| branch_document(b)))),
            (
                "strongly_connected_components"@,
                JsonModel::Array(f.strongly_connected_components.map_values(|c: ComponentModel| component_document(c))),
            ),
            (
                "immediate_dominators"@,
                JsonModel::Array(f.immediate_dominators.map_values(|d: DominationModel| domination_document(d))),
            ),
            (
                "immediate_post_dominators"@,
                JsonModel::Array(f.immediate_post_dominators.map_values(|d: DominationModel| domination_document(d))),
            ),
            ("derivations"@, JsonModel::Array(f.derivations.map_values(|d: DerivationModel| derivation_document(d)))),
            ("provenance"@, provenance_documents(f.provenance)),
        ],
    )
}

impl JsonDocument for IntendedFeatureFlow {
    open spec fn document(v: FlowModel) -> JsonModel {
        flow_document(v)
    }

    fn to_json(&self) -> (r: Json) {
        let trigger = match &self.trigger_checkpoint {
            Some(t) => text(t.as_str()),
            None => Json::Null,
        };
        let members = vec![
            (String::from_str("feature"), text(self.feature.as_str())),
            (String::from_str("owner"), text(self.owner.as_str())),
            (String::from_str("state"), text(modeling_state_name_exec(self.state))),
            (String::from_str("participating_modules"), text_array(self.participating_modules.as_slice())),
            (String::from_str("trigger_checkpoint"), trigger),
            (String::from_str("terminal_checkpoints"), text_array(self.terminal_checkpoints.as_slice())),
            (String::from_str("nodes"), documents(self.nodes.as_slice())),
            (String::from_str("edges"), documents(self.edges.as_slice())),
            (String::from_str("module_boundary_crossings"), documents(self.module_boundary_crossings.as_slice())),
            (String::from_str("decision_branches"), documents(self.decision_branches.as_slice())),
            (String::from_str("strongly_connected_components"), documents(self.strongly_connected_components.as_slice())),
            (String::from_str("immediate_dominators"), documents(self.immediate_dominators.as_slice())),
            (String::from_str("immediate_post_dominators"), documents(self.immediate_post_dominators.as_slice())),
            (String::from_str("derivations"), documents(self.derivations.as_slice())),
            (String::from_str("provenance"), documents(self.provenance.as_slice())),
        ];
        proof {
            lemma_member_models(members@);
            assert(self.participating_modules@.map_values(|s: String| s@) =~= texts(self.participating_modules@));
            assert(self.terminal_checkpoints@.map_values(|s: String| s@) =~= texts(self.terminal_checkpoints@));
            let f = self@;
            assert(f.nodes.map_values(|v: NodeModel| BfgNode::document(v)) =~= f.nodes.map_values(
                |n: NodeModel| node_document(n),
            ));
            assert(f.edges.map_values(|v: EdgeModel| BfgEdge::document(v)) =~= f.edges.map_values(
                |e: EdgeModel| edge_document(e),
            ));
            assert(f.module_boundary_crossings.map_values(|v: EdgeModel| BfgEdge::document(v))
                =~= f.module_boundary_crossings.map_values(|e: EdgeModel| edge_document(e)));
            assert(f.decision_branches.map_values(|v: BranchModel| DecisionBranch::document(v))
                =~= f.decision_branches.map_values(|b: BranchModel| branch_document(b)));
            assert(f.strongly_connected_components.map_values(|v: ComponentModel| StronglyConnectedComponent::document(v))
                =~= f.strongly_connected_components.map_values(|c: ComponentModel| component_document(c)));
            assert(f.immediate_dominators.map_values(|v: DominationModel| ImmediateDomination::document(v))
                =~= f.immediate_dominators.map_values(|d: DominationModel| domination_document(d)));
            assert(f.immediate_post_dominators.map_values(|v: DominationModel| ImmediateDomination::document(v))
                =~= f.immediate_post_dominators.map_values(|d: DominationModel| domination_document(d)));
            assert(f.derivations.map_values(|v: DerivationModel| BfgDerivation::document(v))
                =~= f.derivations.map_values(|d: DerivationModel| derivation_document(d)));
            assert(f.provenance.map_values(|v: ProvenanceModel| BfgProvenance::document(v))
                =~= f.provenance.map_values(|p: ProvenanceModel| provenance_document(p)));
            assert(member_models(members@) =~= seq![
                ("feature"@, JsonModel::Text(f.feature)),
                ("owner"@, JsonModel::Text(f.owner)),
                ("state"@, JsonModel::Text(modeling_state_name(f.state))),
                ("participating_modules"@, JsonModel::Array(text_values(f.participating_modules))),
                ("trigger_checkpoint"@, optional_text_value(f.trigger_checkpoint)),
                ("terminal_checkpoints"@, JsonModel::Array(text_values(f.terminal_checkpoints))),
                ("nodes"@, JsonModel::Array(f.nodes.map_values(|n: NodeModel| node_document(n)))),
                ("edges"@, JsonModel::Array(f.edges.map_values(|e: EdgeModel| edge_document(e)))),
                (
                    "module_boundary_crossings"@,
                    JsonModel::Array(f.module_boundary_crossings.map_values(|e: EdgeModel| edge_document(e))),
                ),
                ("decision_branches"@, JsonModel::Array(f.decision_branches.map_values(|b: BranchModel| branch_document(b)))),
                (
                    "strongly_connected_components"@,
                    JsonModel::Array(f.strongly_connected_components.map_values(|c: ComponentModel| component_document(c))),
                ),
                (
                    "immediate_dominators"@,
                    JsonModel::Array(f.immediate_dominators.map_values(|d: DominationModel| domination_document(d))),
                ),
                (
                    "immediate_post_dominators"@,
                    JsonModel::Array(f.immediate_post_dominators.map_values(|d: DominationModel| domination_document(d))),
                ),
                ("derivations"@, JsonModel::Array(f.derivations.map_values(|d: DerivationModel| derivation_document(d)))),
                ("provenance"@, provenance_documents(f.provenance)),
            ]);
        }
        Json::Object(members)
    }
}

} // verus!
