//! Compilation of one Feature's authored checkpoints into its intended flow.

use vstd::prelude::*;

use crate::codec::{decimal, decimal_of};
use crate::order::{canonical_set, canonical_set_exec, views};
use crate::text::{concat, copy_text, strictly_sorted, text_eq, texts};
use super::graph::{adjacency_wf, has_edge, reach_flags, reachable_from, single_source};
use super::model::{
    optional_view, BfgEdge, BfgNode, BfgProvenance, CheckpointKind, EdgeModel, NodeModel,
    ProvenanceModel,
};

verus! {

/// Abstract value of one authored transition.
pub struct TransitionModel {
    pub target: Seq<char>,
    pub outcome: Option<Seq<char>>,
}

/// One authored transition of a checkpoint.
#[derive(Clone, Debug, PartialEq, Eq)]
pub struct CheckpointTransition {
    target: String,
    outcome: Option<String>,
}

impl View for CheckpointTransition {
    type V = TransitionModel;

    closed spec fn view(&self) -> TransitionModel {
        TransitionModel { target: self.target@, outcome: optional_view(self.outcome) }
    }
}

impl CheckpointTransition {
    /// Creates one transition to `target`, labeled for decision branches.
    pub fn new(target: String, outcome: Option<String>) -> (r: Self)
        ensures
            r@ == (TransitionModel { target: target@, outcome: optional_view(outcome) }),
    {
        CheckpointTransition { target, outcome }
    }

    /// Returns the target checkpoint.
    pub fn target(&self) -> (r: &str)
        ensures
            r@ == self@.target,
    {
        self.target.as_str()
    }

    /// Returns the decision outcome, when labeled.
    pub fn outcome(&self) -> (r: Option<&str>)
        ensures
            match r {
                Some(o) => self@.outcome == Some(o@),
                None => self@.outcome is None,
            },
    {
        match &self.outcome {
            Some(o) => Some(o.as_str()),
            None => None,
        }
    }
}

/// Abstract value of one authored checkpoint declaration.
pub struct DeclarationModel {
    pub checkpoint: Seq<char>,
    pub feature: Seq<char>,
    pub module: Seq<char>,
    pub kind: CheckpointKind,
    pub outcome: Option<Seq<char>>,
    pub transitions: Seq<TransitionModel>,
    pub contract_path: Seq<char>,
    pub index: usize,
}

/// One checkpoint as authored in a Module contract: its identity, declaring
/// Module, kind, terminal outcome, transitions, and where it was declared
/// (`index` is its position in that contract's behavior list).
#[derive(Clone, Debug, PartialEq, Eq)]
pub struct CheckpointDeclaration {
    checkpoint: String,
    feature: String,
    module: String,
    kind: CheckpointKind,
    outcome: Option<String>,
    transitions: Vec<CheckpointTransition>,
    contract_path: String,
    index: usize,
}

impl View for CheckpointDeclaration {
    type V = DeclarationModel;

    closed spec fn view(&self) -> DeclarationModel {
        DeclarationModel {
            checkpoint: self.checkpoint@,
            feature: self.feature@,
            module: self.module@,
            kind: self.kind,
            outcome: optional_view(self.outcome),
            transitions: views(self.transitions@),
            contract_path: self.contract_path@,
            index: self.index,
        }
    }
}

impl CheckpointDeclaration {
    /// Creates one declaration.
    pub fn new(
        checkpoint: String,
        feature: String,
        module: String,
        kind: CheckpointKind,
        outcome: Option<String>,
        transitions: Vec<CheckpointTransition>,
        contract_path: String,
        index: usize,
    ) -> (r: Self)
        ensures
            r@ == (DeclarationModel {
                checkpoint: checkpoint@,
                feature: feature@,
                module: module@,
                kind,
                outcome: optional_view(outcome),
                transitions: views(transitions@),
                contract_path: contract_path@,
                index,
            }),
    {
        CheckpointDeclaration { checkpoint, feature, module, kind, outcome, transitions, contract_path, index }
    }

    /// Returns the Feature the checkpoint belongs to.
    pub fn feature(&self) -> (r: &str)
        ensures
            r@ == self@.feature,
    {
        self.feature.as_str()
    }

    /// Copies the declaration.
    pub fn duplicate(&self) -> (r: Self)
        ensures
            r@ == self@,
    {
        let mut transitions: Vec<CheckpointTransition> = Vec::new();
        let mut i: usize = 0;
        while i < self.transitions.len()
            invariant
                i <= self.transitions@.len(),
                views(transitions@) == views(self.transitions@).take(i as int),
            decreases self.transitions.len() - i,
        {
            let t = &self.transitions[i];
            let copy = CheckpointTransition::new(copy_text(t.target.as_str()), copy_optional(&t.outcome));
            let ghost old = transitions@;
            transitions.push(copy);
            assert(views(transitions@) =~= views(old).push(t@));
            assert(views(self.transitions@).take(i + 1) =~= views(self.transitions@).take(i as int).push(t@));
            i = i + 1;
        }
        assert(views(self.transitions@).take(self.transitions@.len() as int) =~= views(self.transitions@));
        CheckpointDeclaration {
            checkpoint: copy_text(self.checkpoint.as_str()),
            feature: copy_text(self.feature.as_str()),
            module: copy_text(self.module.as_str()),
            kind: self.kind,
            outcome: copy_optional(&self.outcome),
            transitions,
            contract_path: copy_text(self.contract_path.as_str()),
            index: self.index,
        }
    }

    /// Returns the checkpoint identity.
    pub fn checkpoint(&self) -> (r: &str)
        ensures
            r@ == self@.checkpoint,
    {
        self.checkpoint.as_str()
    }

    /// Returns the checkpoint kind.
    pub fn kind(&self) -> (r: CheckpointKind)
        ensures
            r == self@.kind,
    {
        self.kind
    }

    /// Returns the declaring Module.
    pub fn module(&self) -> (r: &str)
        ensures
            r@ == self@.module,
    {
        self.module.as_str()
    }
}

/// The checkpoint identities of the declarations.
pub open spec fn checkpoint_ids(ds: Seq<DeclarationModel>) -> Seq<Seq<char>> {
    ds.map_values(|d: DeclarationModel| d.checkpoint)
}

/// A Feature's declarations: strictly ordered by checkpoint identity, with
/// every transition naming a declared checkpoint.
pub open spec fn flow_input_wf(ds: Seq<DeclarationModel>) -> bool {
    &&& strictly_sorted(checkpoint_ids(ds))
    &&& forall|i: int, t: int|
        0 <= i < ds.len() && 0 <= t < ds[i].transitions.len() ==> checkpoint_ids(ds).contains(
            #[trigger] ds[i].transitions[t].target,
        )
}

/// The position of the declaration of checkpoint `id`.
pub open spec fn position_of(ds: Seq<DeclarationModel>, id: Seq<char>) -> int {
    choose|i: int| 0 <= i < ds.len() && ds[i].checkpoint == id
}

/// JSON pointer of a declaration inside its contract.
pub open spec fn declaration_pointer(d: DeclarationModel) -> Seq<char> {
    "/behavior/"@ + decimal_of(d.index as nat)
}

/// The node compiled from one declaration.
pub open spec fn node_of(d: DeclarationModel) -> NodeModel {
    NodeModel {
        checkpoint: d.checkpoint,
        module: d.module,
        kind: d.kind,
        terminal_outcome: d.outcome,
        provenance: ProvenanceModel { path: d.contract_path, pointer: declaration_pointer(d) },
    }
}

/// The nodes of a flow, in checkpoint order.
pub open spec fn flow_nodes(ds: Seq<DeclarationModel>) -> Seq<NodeModel> {
    ds.map_values(|d: DeclarationModel| node_of(d))
}

/// The edge compiled from transition `t` of declaration `i`.
pub open spec fn edge_of(ds: Seq<DeclarationModel>, i: int, t: int) -> EdgeModel {
    let d = ds[i];
    let tr = d.transitions[t];
    EdgeModel {
        source: d.checkpoint,
        target: tr.target,
        decision_outcome: tr.outcome,
        crosses_module_boundary: d.module != ds[position_of(ds, tr.target)].module,
        provenance: ProvenanceModel {
            path: d.contract_path,
            pointer: declaration_pointer(d) + "/transitions/"@ + decimal_of(t as nat),
        },
    }
}

/// All edges of the first `n` declarations, in authoring order.
pub open spec fn authored_edges(ds: Seq<DeclarationModel>, n: int) -> Seq<EdgeModel>
    decreases n,
{
    if n <= 0 {
        Seq::empty()
    } else {
        authored_edges(ds, n - 1) + Seq::new(ds[n - 1].transitions.len(), |t: int| edge_of(ds, n - 1, t))
    }
}

/// The edges of a flow in canonical order.
pub open spec fn flow_edges(ds: Seq<DeclarationModel>) -> Seq<EdgeModel> {
    canonical_set::<BfgEdge>(authored_edges(ds, ds.len() as int))
}

/// Every authored edge comes from one transition of one declaration.
pub proof fn lemma_authored_edge(ds: Seq<DeclarationModel>, n: int, e: EdgeModel)
    requires
        0 <= n <= ds.len(),
        authored_edges(ds, n).contains(e),
    ensures
        exists|i: int, t: int| 0 <= i < n && 0 <= t < ds[i].transitions.len() && e == #[trigger] edge_of(ds, i, t),
    decreases n,
{
    let a = authored_edges(ds, n - 1);
    let b = Seq::new(ds[n - 1].transitions.len(), |t: int| edge_of(ds, n - 1, t));
    assert(authored_edges(ds, n) == a + b);
    let k = choose|k: int| 0 <= k < (a + b).len() && (a + b)[k] == e;
    if k < a.len() {
        assert(a[k] == e);
        assert(a.contains(e));
        lemma_authored_edge(ds, n - 1, e);
    } else {
        assert(b[k - a.len()] == e);
        assert(e == edge_of(ds, n - 1, k - a.len()));
    }
}

/// Successor positions of each declaration.
pub open spec fn flow_adjacency(ds: Seq<DeclarationModel>) -> Seq<Seq<usize>> {
    Seq::new(
        ds.len(),
        |i: int| Seq::new(ds[i].transitions.len(), |t: int| position_of(ds, ds[i].transitions[t].target) as usize),
    )
}

/// Checkpoint `j` is reachable from checkpoint `i`.
pub open spec fn flow_reaches(ds: Seq<DeclarationModel>, i: int, j: int) -> bool {
    reachable_from(flow_adjacency(ds), single_source(ds.len(), i), None, j)
}

/// Checkpoint `i` reaches some terminal checkpoint.
pub open spec fn reaches_terminal(ds: Seq<DeclarationModel>, i: int) -> bool {
    exists|j: int| 0 <= j < ds.len() && ds[j].kind == CheckpointKind::Terminal && #[trigger] flow_reaches(ds, i, j)
}

/// Identities of the checkpoints of one kind among the first `n`, in order.
pub open spec fn ids_of_kind(ds: Seq<DeclarationModel>, kind: CheckpointKind, n: int) -> Seq<Seq<char>>
    decreases n,
{
    if n <= 0 {
        Seq::empty()
    } else {
        ids_of_kind(ds, kind, n - 1) + (if ds[n - 1].kind == kind {
            seq![ds[n - 1].checkpoint]
        } else {
            Seq::empty()
        })
    }
}

/// The trigger identities of a flow.
pub open spec fn flow_triggers(ds: Seq<DeclarationModel>) -> Seq<Seq<char>> {
    ids_of_kind(ds, CheckpointKind::Trigger, ds.len() as int)
}

/// The terminal identities of a flow.
pub open spec fn flow_terminals(ds: Seq<DeclarationModel>) -> Seq<Seq<char>> {
    ids_of_kind(ds, CheckpointKind::Terminal, ds.len() as int)
}

/// Checkpoint `i` is reachable from the unique trigger (false without one).
pub open spec fn reachable_from_trigger(ds: Seq<DeclarationModel>, i: int) -> bool {
    flow_triggers(ds).len() == 1 && flow_reaches(ds, position_of(ds, flow_triggers(ds)[0]), i)
}

proof fn lemma_positions_unique(ds: Seq<DeclarationModel>, a: int, b: int)
    requires
        flow_input_wf(ds),
        0 <= a < ds.len(),
        0 <= b < ds.len(),
        ds[a].checkpoint == ds[b].checkpoint,
    ensures
        a == b,
{
    let ids = checkpoint_ids(ds);
    assert(ids[a] == ds[a].checkpoint && ids[b] == ds[b].checkpoint);
    if a < b {
        assert(crate::text::seq_lt(ids[a], ids[b]));
    } else if b < a {
        assert(crate::text::seq_lt(ids[b], ids[a]));
    }
}

/// Finds the declaration of a checkpoint.
fn position_exec(ds: &[CheckpointDeclaration], id: &str) -> (r: usize)
    requires
        flow_input_wf(views(ds@)),
        checkpoint_ids(views(ds@)).contains(id@),
    ensures
        r < ds@.len(),
        r == position_of(views(ds@), id@),
        views(ds@)[r as int].checkpoint == id@,
{
    let ghost dv = views(ds@);
    let ghost k = choose|k: int| 0 <= k < checkpoint_ids(dv).len() && checkpoint_ids(dv)[k] == id@;
    assert(dv[k].checkpoint == id@);
    let mut p: usize = 0;
    while p < ds.len()
        invariant
            dv == views(ds@),
            flow_input_wf(dv),
            p <= ds@.len(),
            0 <= k < ds@.len(),
            dv[k].checkpoint == id@,
            forall|q: int| 0 <= q < p ==> dv[q].checkpoint != id@,
        decreases ds.len() - p,
    {
        assert(dv[p as int] == ds@[p as int]@);
        if text_eq(ds[p].checkpoint.as_str(), id) {
            proof {
                let c = position_of(dv, id@);
                lemma_positions_unique(dv, c, p as int);
            }
            return p;
        }
        p = p + 1;
    }
    assert(false);
    0
}

/// Finds the declaration of a checkpoint.
pub(crate) fn position_exec_pub(ds: &[CheckpointDeclaration], id: &str) -> (r: usize)
    requires
        flow_input_wf(views(ds@)),
        checkpoint_ids(views(ds@)).contains(id@),
    ensures
        r < ds@.len(),
        r == position_of(views(ds@), id@),
        views(ds@)[r as int].checkpoint == id@,
{
    position_exec(ds, id)
}

fn copy_optional(o: &Option<String>) -> (r: Option<String>)
    ensures
        optional_view(r) == optional_view(*o),
{
    match o {
        Some(t) => Some(copy_text(t.as_str())),
        None => None,
    }
}

fn pointer_exec(d: &CheckpointDeclaration) -> (r: String)
    ensures
        r@ == declaration_pointer(d@),
{
    concat("/behavior/", decimal(d.index as u64).as_str())
}

/// Builds the nodes of a flow.
pub(crate) fn build_nodes(ds: &[CheckpointDeclaration]) -> (r: Vec<BfgNode>)
    ensures
        views(r@) == flow_nodes(views(ds@)),
{
    let mut nodes: Vec<BfgNode> = Vec::new();
    let mut i: usize = 0;
    while i < ds.len()
        invariant
            i <= ds@.len(),
            views(nodes@) == flow_nodes(views(ds@)).take(i as int),
        decreases ds.len() - i,
    {
        let d = &ds[i];
        let outcome = copy_optional(&d.outcome);
        let node = BfgNode::build(
            copy_text(d.checkpoint.as_str()),
            copy_text(d.module.as_str()),
            d.kind,
            outcome,
            BfgProvenance::new(copy_text(d.contract_path.as_str()), pointer_exec(d)),
        );
        assert(node@ == node_of(d@));
        let ghost old = nodes@;
        nodes.push(node);
        assert(views(nodes@) =~= views(old).push(node@));
        assert(flow_nodes(views(ds@)).take(i + 1) =~= flow_nodes(views(ds@)).take(i as int).push(node_of(ds@[i as int]@)));
        i = i + 1;
    }
    assert(flow_nodes(views(ds@)).take(ds@.len() as int) =~= flow_nodes(views(ds@)));
    nodes
}

/// Builds the edges of a flow in canonical order.
pub(crate) fn build_edges(ds: &[CheckpointDeclaration]) -> (r: Vec<BfgEdge>)
    requires
        flow_input_wf(views(ds@)),
    ensures
        views(r@) == flow_edges(views(ds@)),
        forall|e: EdgeModel| views(r@).contains(e) <==> authored_edges(views(ds@), ds@.len() as int).contains(e),
{
    let ghost dv = views(ds@);
    let mut edges: Vec<BfgEdge> = Vec::new();
    let mut i: usize = 0;
    while i < ds.len()
        invariant
            dv == views(ds@),
            flow_input_wf(dv),
            i <= ds@.len(),
            views(edges@) == authored_edges(dv, i as int),
        decreases ds.len() - i,
    {
        let d = &ds[i];
        assert(dv[i as int] == d@);
        let ghost before = views(edges@);
        let pointer = pointer_exec(d);
        let mut t: usize = 0;
        while t < d.transitions.len()
            invariant
                dv == views(ds@),
                flow_input_wf(dv),
                i < ds@.len(),
                dv[i as int] == d@,
                t <= d.transitions@.len(),
                pointer@ == declaration_pointer(d@),
                views(edges@) == before + Seq::new(t as nat, |t2: int| edge_of(dv, i as int, t2)),
            decreases d.transitions.len() - t,
        {
            let tr = &d.transitions[t];
            assert(d@.transitions[t as int] == tr@);
            assert(checkpoint_ids(dv).contains(dv[i as int].transitions[t as int].target));
            let target = position_exec(ds, tr.target.as_str());
            assert(dv[target as int] == ds@[target as int]@);
            let crosses = !text_eq(d.module.as_str(), ds[target].module.as_str());
            let head = concat(pointer.as_str(), "/transitions/");
            let edge_pointer = concat(head.as_str(), decimal(t as u64).as_str());
            let outcome = copy_optional(&tr.outcome);
            let edge = BfgEdge::build(
                copy_text(d.checkpoint.as_str()),
                copy_text(tr.target.as_str()),
                outcome,
                crosses,
                BfgProvenance::new(copy_text(d.contract_path.as_str()), edge_pointer),
            );
            assert(edge@ == edge_of(dv, i as int, t as int));
            let ghost old = edges@;
            edges.push(edge);
            assert(views(edges@) =~= before + Seq::new((t + 1) as nat, |t2: int| edge_of(dv, i as int, t2))) by {
                assert(views(edges@) =~= views(old).push(edge@));
            }
            t = t + 1;
        }
        assert(authored_edges(dv, i + 1) =~= before + Seq::new(d@.transitions.len(), |t2: int| edge_of(dv, i as int, t2)));
        i = i + 1;
    }
    canonical_set_exec(edges)
}

/// Builds the successor positions of every declaration.
pub(crate) fn build_adjacency(ds: &[CheckpointDeclaration]) -> (r: Vec<Vec<usize>>)
    requires
        flow_input_wf(views(ds@)),
    ensures
        r@.map_values(|s: Vec<usize>| s@) == flow_adjacency(views(ds@)),
        adjacency_wf(flow_adjacency(views(ds@))),
{
    let ghost dv = views(ds@);
    let mut adj: Vec<Vec<usize>> = Vec::new();
    let mut i: usize = 0;
    while i < ds.len()
        invariant
            dv == views(ds@),
            flow_input_wf(dv),
            i <= ds@.len(),
            adj@.map_values(|s: Vec<usize>| s@) == flow_adjacency(dv).take(i as int),
        decreases ds.len() - i,
    {
        let d = &ds[i];
        assert(dv[i as int] == d@);
        let mut succ: Vec<usize> = Vec::new();
        let mut t: usize = 0;
        while t < d.transitions.len()
            invariant
                dv == views(ds@),
                flow_input_wf(dv),
                i < ds@.len(),
                dv[i as int] == d@,
                t <= d.transitions@.len(),
                succ@ == flow_adjacency(dv)[i as int].take(t as int),
            decreases d.transitions.len() - t,
        {
            assert(d@.transitions[t as int] == d.transitions@[t as int]@);
            assert(checkpoint_ids(dv).contains(dv[i as int].transitions[t as int].target));
            let p = position_exec(ds, d.transitions[t].target.as_str());
            succ.push(p);
            assert(succ@ =~= flow_adjacency(dv)[i as int].take(t + 1));
            t = t + 1;
        }
        assert(succ@ =~= flow_adjacency(dv)[i as int]);
        let ghost old = adj@;
        adj.push(succ);
        assert(adj@.map_values(|s: Vec<usize>| s@) =~= flow_adjacency(dv).take(i + 1)) by {
            assert(adj@.map_values(|s: Vec<usize>| s@) =~= old.map_values(|s: Vec<usize>| s@).push(flow_adjacency(dv)[i as int]));
        }
        i = i + 1;
    }
    assert(flow_adjacency(dv).take(ds@.len() as int) =~= flow_adjacency(dv));
    proof {
        let g = flow_adjacency(dv);
        assert forall|u: int, k: int| 0 <= u < g.len() && 0 <= k < g[u].len() implies #[trigger] g[u][k] < g.len() by {
            assert(checkpoint_ids(dv).contains(dv[u].transitions[k].target));
            let c = choose|c: int| 0 <= c < checkpoint_ids(dv).len() && checkpoint_ids(dv)[c] == dv[u].transitions[k].target;
            assert(dv[c].checkpoint == dv[u].transitions[k].target);
            let p = position_of(dv, dv[u].transitions[k].target);
            assert(0 <= p < dv.len());
        }
    }
    adj
}

/// The reachability matrix: row `i` flags the checkpoints reachable from `i`.
pub(crate) fn reach_matrix(ds: &[CheckpointDeclaration], adj: &Vec<Vec<usize>>) -> (r: Vec<Vec<bool>>)
    requires
        flow_input_wf(views(ds@)),
        adj@.map_values(|s: Vec<usize>| s@) == flow_adjacency(views(ds@)),
        adjacency_wf(flow_adjacency(views(ds@))),
    ensures
        r@.len() == ds@.len(),
        forall|i: int| 0 <= i < ds@.len() ==> #[trigger] r@[i]@.len() == ds@.len(),
        forall|i: int, j: int|
            0 <= i < ds@.len() && 0 <= j < ds@.len() ==> (r@[i]@[j] <==> flow_reaches(views(ds@), i, j)),
{
    let ghost dv = views(ds@);
    let n = ds.len();
    assert(adj@.map_values(|s: Vec<usize>| s@).len() == adj@.len());
    let mut rows: Vec<Vec<bool>> = Vec::new();
    let mut i: usize = 0;
    while i < n
        invariant
            dv == views(ds@),
            n == ds@.len(),
            adj@.len() == n,
            adj@.map_values(|s: Vec<usize>| s@) == flow_adjacency(dv),
            adjacency_wf(flow_adjacency(dv)),
            i <= n,
            rows@.len() == i,
            forall|a: int| 0 <= a < i ==> #[trigger] rows@[a]@.len() == n,
            forall|a: int, j: int| 0 <= a < i && 0 <= j < n ==> (rows@[a]@[j] <==> flow_reaches(dv, a, j)),
        decreases n - i,
    {
        let mut sources: Vec<bool> = Vec::new();
        let mut k: usize = 0;
        while k < n
            invariant
                k <= n,
                sources@ == single_source(n as nat, i as int).take(k as int),
            decreases n - k,
        {
            sources.push(k == i);
            assert(sources@ =~= single_source(n as nat, i as int).take(k + 1));
            k = k + 1;
        }
        assert(sources@ =~= single_source(n as nat, i as int));
        assert(flow_adjacency(dv).len() == n);
        let row = reach_flags(adj, &sources, None);
        rows.push(row);
        i = i + 1;
    }
    rows
}

} // verus!
