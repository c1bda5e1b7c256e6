//! Intended behavioral flow graph records, their views and canonical orders.

use vstd::prelude::*;

use crate::order::{
    fields_le, fields_le_exec, group_views, groups_le, groups_le_exec, lemma_fields_le_antisymmetric,
    lemma_fields_le_reflexive, lemma_fields_le_total, lemma_fields_le_transitive,
    lemma_groups_le_antisymmetric, lemma_groups_le_reflexive, lemma_groups_le_total,
    lemma_groups_le_transitive, optional_field, optional_field_exec, rank_field, rank_field_exec,
    single, single_exec, texts_exec, views, CanonicalOrder, TotalOrder,
};
use crate::json::{
    documents, lemma_member_models, member_models, optional_text_value, text, text_array, text_values, Json,
    JsonDocument, JsonModel,
};
use crate::text::{chars_of, texts};

verus! {

/// Per-Feature behavioral modeling state without treating absence as success.
#[derive(Clone, Copy, Debug, PartialEq, Eq, Structural)]
pub enum BehavioralModelingState {
    /// No checkpoint has been authored for the Feature.
    Unmodeled,
    /// Authored checkpoints satisfy all structural flow semantics.
    ModeledCoherent,
    /// Authored checkpoints contradict one or more structural flow semantics.
    ModeledIncoherent,
}

/// Semantic kind of one authored checkpoint.
#[derive(Clone, Copy, Debug, PartialEq, Eq, Structural)]
pub enum CheckpointKind {
    /// The event that starts a Feature flow.
    Trigger,
    /// One step of work.
    Action,
    /// A branch point with labeled outcomes.
    Decision,
    /// An end of the flow with an outcome.
    Terminal,
}

/// Abstract value of one provenance record.
pub struct ProvenanceModel {
    pub path: Seq<char>,
    pub pointer: Seq<char>,
}

/// Exact contract source location supporting a behavioral fact.
#[derive(Clone, Debug, PartialEq, Eq)]
pub struct BfgProvenance {
    path: String,
    pointer: String,
}

impl View for BfgProvenance {
    type V = ProvenanceModel;

    closed spec fn view(&self) -> ProvenanceModel {
        ProvenanceModel { path: self.path@, pointer: self.pointer@ }
    }
}

impl BfgProvenance {
    /// Creates one provenance record.
    pub fn new(path: String, pointer: String) -> (r: Self)
        ensures
            r@ == (ProvenanceModel { path: path@, pointer: pointer@ }),
    {
        BfgProvenance { path, pointer }
    }

    /// Returns the repository-relative contract path.
    pub fn path(&self) -> (r: &str)
        ensures
            r@ == self@.path,
    {
        self.path.as_str()
    }

    /// Returns the canonical JSON pointer.
    pub fn pointer(&self) -> (r: &str)
        ensures
            r@ == self@.pointer,
    {
        self.pointer.as_str()
    }

    /// Copies the record.
    pub fn duplicate(&self) -> (r: Self)
        ensures
            r@ == self@,
    {
        BfgProvenance { path: crate::text::copy_text(self.path.as_str()), pointer: crate::text::copy_text(self.pointer.as_str()) }
    }
}

/// The two text fields of a provenance record.
pub open spec fn provenance_fields(p: ProvenanceModel) -> Seq<Seq<char>> {
    seq![p.path, p.pointer]
}

impl CanonicalOrder for BfgProvenance {
    open spec fn ordered(a: ProvenanceModel, b: ProvenanceModel) -> bool {
        fields_le(provenance_fields(a), provenance_fields(b))
    }

    proof fn lemma_ordered_reflexive(a: ProvenanceModel) {
        lemma_fields_le_reflexive(provenance_fields(a));
    }

    proof fn lemma_ordered_transitive(a: ProvenanceModel, b: ProvenanceModel, c: ProvenanceModel) {
        lemma_fields_le_transitive(provenance_fields(a), provenance_fields(b), provenance_fields(c));
    }

    proof fn lemma_ordered_total(a: ProvenanceModel, b: ProvenanceModel) {
        lemma_fields_le_total(provenance_fields(a), provenance_fields(b));
    }

    fn precedes(&self, other: &Self) -> (r: bool) {
        let a = provenance_fields_exec(self);
        let b = provenance_fields_exec(other);
        fields_le_exec(&a, &b)
    }
}

impl TotalOrder for BfgProvenance {
    proof fn lemma_ordered_antisymmetric(a: ProvenanceModel, b: ProvenanceModel) {
        lemma_fields_le_antisymmetric(provenance_fields(a), provenance_fields(b));
        assert(provenance_fields(a)[0] == a.path && provenance_fields(a)[1] == a.pointer);
        assert(provenance_fields(b)[0] == b.path && provenance_fields(b)[1] == b.pointer);
    }
}

fn provenance_fields_exec(p: &BfgProvenance) -> (r: Vec<Vec<char>>)
    ensures
        r@.map_values(|c: Vec<char>| c@) == provenance_fields(p@),
{
    let mut r: Vec<Vec<char>> = Vec::new();
    r.push(chars_of(p.path.as_str()));
    r.push(chars_of(p.pointer.as_str()));
    assert(r@.map_values(|c: Vec<char>| c@) =~= provenance_fields(p@));
    r
}

/// Provenance records flattened into their text fields, two per record.
pub open spec fn provenance_list_fields(ps: Seq<ProvenanceModel>) -> Seq<Seq<char>>
    decreases ps.len(),
{
    if ps.len() == 0 {
        Seq::empty()
    } else {
        provenance_list_fields(ps.drop_last()) + provenance_fields(ps.last())
    }
}

proof fn lemma_provenance_list_fields_len(ps: Seq<ProvenanceModel>)
    ensures
        provenance_list_fields(ps).len() == 2 * ps.len(),
        forall|k: int|
            0 <= k < ps.len() ==> provenance_list_fields(ps)[2 * k] == ps[k].path
                && provenance_list_fields(ps)[2 * k + 1] == ps[k].pointer,
    decreases ps.len(),
{
    if ps.len() > 0 {
        lemma_provenance_list_fields_len(ps.drop_last());
        let f = provenance_list_fields(ps);
        let f0 = provenance_list_fields(ps.drop_last());
        assert forall|k: int| 0 <= k < ps.len() implies f[2 * k] == ps[k].path && f[2 * k + 1] == ps[k].pointer by {
            if k < ps.len() - 1 {
                assert(f[2 * k] == f0[2 * k]);
                assert(f[2 * k + 1] == f0[2 * k + 1]);
                assert(ps.drop_last()[k] == ps[k]);
            }
        }
    }
}

proof fn lemma_provenance_list_fields_injective(a: Seq<ProvenanceModel>, b: Seq<ProvenanceModel>)
    requires
        provenance_list_fields(a) == provenance_list_fields(b),
    ensures
        a == b,
{
    lemma_provenance_list_fields_len(a);
    lemma_provenance_list_fields_len(b);
    assert forall|k: int| 0 <= k < a.len() implies a[k] == b[k] by {
        assert(provenance_list_fields(a)[2 * k] == a[k].path);
        assert(provenance_list_fields(b)[2 * k] == b[k].path);
    }
    assert(a =~= b);
}

fn provenance_list_fields_exec(ps: &[BfgProvenance]) -> (r: Vec<Vec<char>>)
    ensures
        r@.map_values(|c: Vec<char>| c@) == provenance_list_fields(views(ps@)),
{
    let mut r: Vec<Vec<char>> = Vec::new();
    let mut i: usize = 0;
    while i < ps.len()
        invariant
            i <= ps@.len(),
            r@.map_values(|c: Vec<char>| c@) == provenance_list_fields(views(ps@).take(i as int)),
        decreases ps.len() - i,
    {
        let ghost old = r@;
        assert(views(ps@).take(i + 1).drop_last() =~= views(ps@).take(i as int));
        assert(views(ps@).take(i + 1).last() == ps@[i as int]@);
        r.push(chars_of(ps[i].path.as_str()));
        r.push(chars_of(ps[i].pointer.as_str()));
        assert(r@.map_values(|c: Vec<char>| c@) =~= old.map_values(|c: Vec<char>| c@) + provenance_fields(ps@[i as int]@));
        i = i + 1;
    }
    assert(views(ps@).take(ps@.len() as int) =~= views(ps@));
    r
}

/// Abstract value of one violation.
pub struct ViolationModel {
    pub code: Seq<char>,
    pub feature: Seq<char>,
    pub checkpoint: Option<Seq<char>>,
    pub message: Seq<char>,
    pub input_facts: Seq<Seq<char>>,
    pub provenance: Seq<ProvenanceModel>,
}

/// Deterministic graph-level contradiction found while compiling one Feature.
#[derive(Clone, Debug, PartialEq, Eq)]
pub struct BehavioralViolation {
    code: String,
    feature: String,
    checkpoint: Option<String>,
    message: String,
    input_facts: Vec<String>,
    provenance: Vec<BfgProvenance>,
}

/// The view of an optional text.
pub open spec fn optional_view(o: Option<String>) -> Option<Seq<char>> {
    match o {
        Some(s) => Some(s@),
        None => None,
    }
}

impl View for BehavioralViolation {
    type V = ViolationModel;

    closed spec fn view(&self) -> ViolationModel {
        ViolationModel {
            code: self.code@,
            feature: self.feature@,
            checkpoint: optional_view(self.checkpoint),
            message: self.message@,
            input_facts: texts(self.input_facts@),
            provenance: views(self.provenance@),
        }
    }
}

impl BehavioralViolation {
    /// Creates one violation record.
    pub fn new(
        code: String,
        feature: String,
        checkpoint: Option<String>,
        message: String,
        input_facts: Vec<String>,
        provenance: Vec<BfgProvenance>,
    ) -> (r: Self)
        ensures
            r@ == (ViolationModel {
                code: code@,
                feature: feature@,
                checkpoint: optional_view(checkpoint),
                message: message@,
                input_facts: texts(input_facts@),
                provenance: views(provenance@),
            }),
    {
        BehavioralViolation { code, feature, checkpoint, message, input_facts, provenance }
    }

    /// Returns the stable violation code.
    pub fn code(&self) -> (r: &str)
        ensures
            r@ == self@.code,
    {
        self.code.as_str()
    }

    /// Returns the affected Feature.
    pub fn feature(&self) -> (r: &str)
        ensures
            r@ == self@.feature,
    {
        self.feature.as_str()
    }

    /// Returns the affected checkpoint when the contradiction is node-local.
    pub fn checkpoint(&self) -> (r: Option<&str>)
        ensures
            match r {
                Some(c) => self@.checkpoint == Some(c@),
                None => self@.checkpoint is None,
            },
    {
        match &self.checkpoint {
            Some(c) => Some(c.as_str()),
            None => None,
        }
    }

    /// Returns the deterministic explanation.
    pub fn message(&self) -> (r: &str)
        ensures
            r@ == self@.message,
    {
        self.message.as_str()
    }

    /// Returns exact source and derived inputs.
    pub fn input_facts(&self) -> (r: &[String])
        ensures
            texts(r@) == self@.input_facts,
    {
        self.input_facts.as_slice()
    }

    /// Returns complete source provenance for the contradiction.
    pub fn provenance(&self) -> (r: &[BfgProvenance])
        ensures
            views(r@) == self@.provenance,
    {
        self.provenance.as_slice()
    }
}

/// The order fields of a violation.
pub open spec fn violation_groups(v: ViolationModel) -> Seq<Seq<Seq<char>>> {
    seq![
        single(v.code),
        single(v.feature),
        single(optional_field(v.checkpoint)),
        single(v.message),
        v.input_facts,
        provenance_list_fields(v.provenance),
    ]
}

fn violation_groups_exec(v: &BehavioralViolation) -> (r: Vec<Vec<Vec<char>>>)
    ensures
        group_views(r@) == violation_groups(v@),
{
    let mut r: Vec<Vec<Vec<char>>> = Vec::new();
    r.push(single_exec(v.code.as_str()));
    r.push(single_exec(v.feature.as_str()));
    let mut c: Vec<Vec<char>> = Vec::new();
    c.push(optional_field_exec(&v.checkpoint));
    assert(c@.map_values(|x: Vec<char>| x@) =~= single(optional_field(v@.checkpoint)));
    r.push(c);
    r.push(single_exec(v.message.as_str()));
    r.push(texts_exec(v.input_facts.as_slice()));
    r.push(provenance_list_fields_exec(v.provenance.as_slice()));
    assert(group_views(r@) =~= violation_groups(v@));
    r
}

impl CanonicalOrder for BehavioralViolation {
    open spec fn ordered(a: ViolationModel, b: ViolationModel) -> bool {
        groups_le(violation_groups(a), violation_groups(b))
    }

    proof fn lemma_ordered_reflexive(a: ViolationModel) {
        lemma_groups_le_reflexive(violation_groups(a));
    }

    proof fn lemma_ordered_transitive(a: ViolationModel, b: ViolationModel, c: ViolationModel) {
        lemma_groups_le_transitive(violation_groups(a), violation_groups(b), violation_groups(c));
    }

    proof fn lemma_ordered_total(a: ViolationModel, b: ViolationModel) {
        lemma_groups_le_total(violation_groups(a), violation_groups(b));
    }

    fn precedes(&self, other: &Self) -> (r: bool) {
        let a = violation_groups_exec(self);
        let b = violation_groups_exec(other);
        groups_le_exec(&a, &b)
    }
}

impl TotalOrder for BehavioralViolation {
    proof fn lemma_ordered_antisymmetric(a: ViolationModel, b: ViolationModel) {
        lemma_groups_le_antisymmetric(violation_groups(a), violation_groups(b));
        let ga = violation_groups(a);
        let gb = violation_groups(b);
        assert(ga[0][0] == a.code && gb[0][0] == b.code);
        assert(ga[1][0] == a.feature && gb[1][0] == b.feature);
        assert(ga[2][0] == optional_field(a.checkpoint) && gb[2][0] == optional_field(b.checkpoint));
        crate::affected::lemma_optional_field_injective(a.checkpoint, b.checkpoint);
        assert(ga[3][0] == a.message && gb[3][0] == b.message);
        assert(ga[4] == a.input_facts && gb[4] == b.input_facts);
        assert(ga[5] == provenance_list_fields(a.provenance));
        lemma_provenance_list_fields_injective(a.provenance, b.provenance);
    }
}

/// Abstract value of the aggregate counts.
pub struct BfgSummaryModel {
    pub total_features: usize,
    pub modeled_features: usize,
    pub unmodeled_features: usize,
    pub coherent_features: usize,
    pub incoherent_features: usize,
    pub checkpoints: usize,
    pub edges: usize,
    pub decisions: usize,
    pub terminals: usize,
    pub participant_modules: usize,
    pub boundary_crossings: usize,
    pub loops: usize,
}

/// Summary counts for the complete intended behavioral model.
#[derive(Clone, Copy, Debug, PartialEq, Eq, Structural)]
pub struct BfgSummary {
    pub(crate) total_features: usize,
    pub(crate) modeled_features: usize,
    pub(crate) unmodeled_features: usize,
    pub(crate) coherent_features: usize,
    pub(crate) incoherent_features: usize,
    pub(crate) checkpoints: usize,
    pub(crate) edges: usize,
    pub(crate) decisions: usize,
    pub(crate) terminals: usize,
    pub(crate) participant_modules: usize,
    pub(crate) boundary_crossings: usize,
    pub(crate) loops: usize,
}

impl View for BfgSummary {
    type V = BfgSummaryModel;

    closed spec fn view(&self) -> BfgSummaryModel {
        BfgSummaryModel {
            total_features: self.total_features,
            modeled_features: self.modeled_features,
            unmodeled_features: self.unmodeled_features,
            coherent_features: self.coherent_features,
            incoherent_features: self.incoherent_features,
            checkpoints: self.checkpoints,
            edges: self.edges,
            decisions: self.decisions,
            terminals: self.terminals,
            participant_modules: self.participant_modules,
            boundary_crossings: self.boundary_crossings,
            loops: self.loops,
        }
    }
}

impl BfgSummary {
    pub(crate) fn build(m: BfgSummaryModel) -> (r: Self)
        ensures
            r@ == m,
    {
        BfgSummary {
            total_features: m.total_features,
            modeled_features: m.modeled_features,
            unmodeled_features: m.unmodeled_features,
            coherent_features: m.coherent_features,
            incoherent_features: m.incoherent_features,
            checkpoints: m.checkpoints,
            edges: m.edges,
            decisions: m.decisions,
            terminals: m.terminals,
            participant_modules: m.participant_modules,
            boundary_crossings: m.boundary_crossings,
            loops: m.loops,
        }
    }

    /// Returns all Feature identities.
    pub fn total_features(self) -> (r: usize)
        ensures
            r == self@.total_features,
    {
        self.total_features
    }

    /// Returns Features containing authored checkpoints.
    pub fn modeled_features(self) -> (r: usize)
        ensures
            r == self@.modeled_features,
    {
        self.modeled_features
    }

    /// Returns Features with no authored checkpoints.
    pub fn unmodeled_features(self) -> (r: usize)
        ensures
            r == self@.unmodeled_features,
    {
        self.unmodeled_features
    }

    /// Returns modeled Features without graph contradictions.
    pub fn coherent_features(self) -> (r: usize)
        ensures
            r == self@.coherent_features,
    {
        self.coherent_features
    }

    /// Returns modeled Features with graph contradictions.
    pub fn incoherent_features(self) -> (r: usize)
        ensures
            r == self@.incoherent_features,
    {
        self.incoherent_features
    }

    /// Returns modeled checkpoints.
    pub fn checkpoints(self) -> (r: usize)
        ensures
            r == self@.checkpoints,
    {
        self.checkpoints
    }

    /// Returns authored transition edges.
    pub fn edges(self) -> (r: usize)
        ensures
            r == self@.edges,
    {
        self.edges
    }

    /// Returns decision checkpoints.
    pub fn decisions(self) -> (r: usize)
        ensures
            r == self@.decisions,
    {
        self.decisions
    }

    /// Returns terminal checkpoints.
    pub fn terminals(self) -> (r: usize)
        ensures
            r == self@.terminals,
    {
        self.terminals
    }

    /// Returns distinct Modules participating in modeled flows.
    pub fn participant_modules(self) -> (r: usize)
        ensures
            r == self@.participant_modules,
    {
        self.participant_modules
    }

    /// Returns transitions crossing Module boundaries.
    pub fn boundary_crossings(self) -> (r: usize)
        ensures
            r == self@.boundary_crossings,
    {
        self.boundary_crossings
    }

    /// Returns cyclic strongly connected components.
    pub fn loops(self) -> (r: usize)
        ensures
            r == self@.loops,
    {
        self.loops
    }
}

/// Abstract value of one Feature modeling state.
pub struct FeatureStateModel {
    pub feature: Seq<char>,
    pub owner: Seq<char>,
    pub state: BehavioralModelingState,
}

/// Modeling state projected for every Feature, including unmodeled Features.
#[derive(Clone, Debug, PartialEq, Eq)]
pub struct FeatureModelingState {
    pub(crate) feature: String,
    pub(crate) owner: String,
    pub(crate) state: BehavioralModelingState,
}

impl View for FeatureModelingState {
    type V = FeatureStateModel;

    closed spec fn view(&self) -> FeatureStateModel {
        FeatureStateModel { feature: self.feature@, owner: self.owner@, state: self.state }
    }
}

impl FeatureModelingState {
    pub(crate) fn build(feature: String, owner: String, state: BehavioralModelingState) -> (r: Self)
        ensures
            r@ == (FeatureStateModel { feature: feature@, owner: owner@, state }),
    {
        FeatureModelingState { feature, owner, state }
    }

    /// Returns the Feature identity.
    pub fn feature(&self) -> (r: &str)
        ensures
            r@ == self@.feature,
    {
        self.feature.as_str()
    }

    /// Returns the Feature-owning Module.
    pub fn owner(&self) -> (r: &str)
        ensures
            r@ == self@.owner,
    {
        self.owner.as_str()
    }

    /// Returns the explicit modeling state.
    pub fn state(&self) -> (r: BehavioralModelingState)
        ensures
            r == self@.state,
    {
        self.state
    }
}

/// Abstract value of one node.
pub struct NodeModel {
    pub checkpoint: Seq<char>,
    pub module: Seq<char>,
    pub kind: CheckpointKind,
    pub terminal_outcome: Option<Seq<char>>,
    pub provenance: ProvenanceModel,
}

/// One semantic checkpoint node in an intended Feature flow.
#[derive(Clone, Debug, PartialEq, Eq)]
pub struct BfgNode {
    pub(crate) checkpoint: String,
    pub(crate) module: String,
    pub(crate) kind: CheckpointKind,
    pub(crate) terminal_outcome: Option<String>,
    pub(crate) provenance: BfgProvenance,
}

impl View for BfgNode {
    type V = NodeModel;

    closed spec fn view(&self) -> NodeModel {
        NodeModel {
            checkpoint: self.checkpoint@,
            module: self.module@,
            kind: self.kind,
            terminal_outcome: optional_view(self.terminal_outcome),
            provenance: self.provenance@,
        }
    }
}

impl BfgNode {
    pub(crate) fn build(
        checkpoint: String,
        module: String,
        kind: CheckpointKind,
        terminal_outcome: Option<String>,
        provenance: BfgProvenance,
    ) -> (r: Self)
        ensures
            r@ == (NodeModel {
                checkpoint: checkpoint@,
                module: module@,
                kind,
                terminal_outcome: optional_view(terminal_outcome),
                provenance: provenance@,
            }),
    {
        BfgNode { checkpoint, module, kind, terminal_outcome, provenance }
    }

    /// Returns the checkpoint identity.
    pub fn checkpoint(&self) -> (r: &str)
        ensures
            r@ == self@.checkpoint,
    {
        self.checkpoint.as_str()
    }

    /// Returns the declaring Module lane.
    pub fn module(&self) -> (r: &str)
        ensures
            r@ == self@.module,
    {
        self.module.as_str()
    }

    /// Returns trigger, action, decision, or terminal kind.
    pub fn kind(&self) -> (r: CheckpointKind)
        ensures
            r == self@.kind,
    {
        self.kind
    }

    /// Returns terminal outcome when applicable.
    pub fn terminal_outcome(&self) -> (r: Option<&str>)
        ensures
            match r {
                Some(c) => self@.terminal_outcome == Some(c@),
                None => self@.terminal_outcome is None,
            },
    {
        match &self.terminal_outcome {
            Some(c) => Some(c.as_str()),
            None => None,
        }
    }

    /// Returns contract provenance.
    pub fn provenance(&self) -> (r: &BfgProvenance)
        ensures
            r@ == self@.provenance,
    {
        &self.provenance
    }
}

/// Abstract value of one edge.
pub struct EdgeModel {
    pub source: Seq<char>,
    pub target: Seq<char>,
    pub decision_outcome: Option<Seq<char>>,
    pub crosses_module_boundary: bool,
    pub provenance: ProvenanceModel,
}

/// One intended transition edge.
#[derive(Clone, Debug, PartialEq, Eq)]
pub struct BfgEdge {
    pub(crate) source: String,
    pub(crate) target: String,
    pub(crate) decision_outcome: Option<String>,
    pub(crate) crosses_module_boundary: bool,
    pub(crate) provenance: BfgProvenance,
}

impl View for BfgEdge {
    type V = EdgeModel;

    closed spec fn view(&self) -> EdgeModel {
        EdgeModel {
            source: self.source@,
            target: self.target@,
            decision_outcome: optional_view(self.decision_outcome),
            crosses_module_boundary: self.crosses_module_boundary,
            provenance: self.provenance@,
        }
    }
}

impl BfgEdge {
    pub(crate) fn build(
        source: String,
        target: String,
        decision_outcome: Option<String>,
        crosses_module_boundary: bool,
        provenance: BfgProvenance,
    ) -> (r: Self)
        ensures
            r@ == (EdgeModel {
                source: source@,
                target: target@,
                decision_outcome: optional_view(decision_outcome),
                crosses_module_boundary,
                provenance: provenance@,
            }),
    {
        BfgEdge { source, target, decision_outcome, crosses_module_boundary, provenance }
    }

    /// Returns the source checkpoint.
    pub fn source(&self) -> (r: &str)
        ensures
            r@ == self@.source,
    {
        self.source.as_str()
    }

    /// Returns the target checkpoint.
    pub fn target(&self) -> (r: &str)
        ensures
            r@ == self@.target,
    {
        self.target.as_str()
    }

    /// Returns a decision branch outcome when present.
    pub fn decision_outcome(&self) -> (r: Option<&str>)
        ensures
            match r {
                Some(c) => self@.decision_outcome == Some(c@),
                None => self@.decision_outcome is None,
            },
    {
        match &self.decision_outcome {
            Some(c) => Some(c.as_str()),
            None => None,
        }
    }

    /// Returns whether the transition changes declaring Module lane.
    pub fn crosses_module_boundary(&self) -> (r: bool)
        ensures
            r == self@.crosses_module_boundary,
    {
        self.crosses_module_boundary
    }

    /// Returns transition source provenance.
    pub fn provenance(&self) -> (r: &BfgProvenance)
        ensures
            r@ == self@.provenance,
    {
        &self.provenance
    }
}

/// The order fields of an edge.
pub open spec fn edge_fields(e: EdgeModel) -> Seq<Seq<char>> {
    seq![
        e.source,
        e.target,
        optional_field(e.decision_outcome),
        rank_field(if e.crosses_module_boundary { 1 } else { 0 }),
        e.provenance.path,
        e.provenance.pointer,
    ]
}

fn edge_fields_exec(e: &BfgEdge) -> (r: Vec<Vec<char>>)
    ensures
        r@.map_values(|c: Vec<char>| c@) == edge_fields(e@),
{
    let mut r: Vec<Vec<char>> = Vec::new();
    r.push(chars_of(e.source.as_str()));
    r.push(chars_of(e.target.as_str()));
    r.push(optional_field_exec(&e.decision_outcome));
    r.push(rank_field_exec(if e.crosses_module_boundary { 1 } else { 0 }));
    r.push(chars_of(e.provenance.path.as_str()));
    r.push(chars_of(e.provenance.pointer.as_str()));
    assert(r@.map_values(|c: Vec<char>| c@) =~= edge_fields(e@));
    r
}

impl CanonicalOrder for BfgEdge {
    open spec fn ordered(a: EdgeModel, b: EdgeModel) -> bool {
        fields_le(edge_fields(a), edge_fields(b))
    }

    proof fn lemma_ordered_reflexive(a: EdgeModel) {
        lemma_fields_le_reflexive(edge_fields(a));
    }

    proof fn lemma_ordered_transitive(a: EdgeModel, b: EdgeModel, c: EdgeModel) {
        lemma_fields_le_transitive(edge_fields(a), edge_fields(b), edge_fields(c));
    }

    proof fn lemma_ordered_total(a: EdgeModel, b: EdgeModel) {
        lemma_fields_le_total(edge_fields(a), edge_fields(b));
    }

    fn precedes(&self, other: &Self) -> (r: bool) {
        let a = edge_fields_exec(self);
        let b = edge_fields_exec(other);
        fields_le_exec(&a, &b)
    }
}

proof fn lemma_rank_flag_injective(a: bool, b: bool)
    requires
        rank_field(if a { 1 } else { 0 }) == rank_field(if b { 1 } else { 0 }),
    ensures
        a == b,
{
    assert(rank_field(if a { 1 } else { 0 }).len() == (if a { 1nat } else { 0nat }));
    assert(rank_field(if b { 1 } else { 0 }).len() == (if b { 1nat } else { 0nat }));
}

impl TotalOrder for BfgEdge {
    proof fn lemma_ordered_antisymmetric(a: EdgeModel, b: EdgeModel) {
        lemma_fields_le_antisymmetric(edge_fields(a), edge_fields(b));
        let fa = edge_fields(a);
        let fb = edge_fields(b);
        assert(fa[0] == a.source && fb[0] == b.source);
        assert(fa[1] == a.target && fb[1] == b.target);
        assert(fa[2] == optional_field(a.decision_outcome) && fb[2] == optional_field(b.decision_outcome));
        crate::affected::lemma_optional_field_injective(a.decision_outcome, b.decision_outcome);
        assert(fa[3] == fb[3]);
        lemma_rank_flag_injective(a.crosses_module_boundary, b.crosses_module_boundary);
        assert(fa[4] == a.provenance.path && fb[4] == b.provenance.path);
        assert(fa[5] == a.provenance.pointer && fb[5] == b.provenance.pointer);
    }
}

impl TotalOrder for StronglyConnectedComponent {
    proof fn lemma_ordered_antisymmetric(a: ComponentModel, b: ComponentModel) {
        lemma_groups_le_antisymmetric(component_groups(a), component_groups(b));
        let ga = component_groups(a);
        let gb = component_groups(b);
        assert(ga[0][0] == a.id && gb[0][0] == b.id);
        assert(ga[1] == a.checkpoints && gb[1] == b.checkpoints);
        assert(ga[2][0] == gb[2][0]);
        lemma_rank_flag_injective(a.is_loop, b.is_loop);
        assert(ga[3][0] == gb[3][0]);
        lemma_rank_flag_injective(a.can_reach_terminal, b.can_reach_terminal);
        assert(ga[4][0] == a.derivation && gb[4][0] == b.derivation);
    }
}

/// Abstract value of one decision branch.
pub struct BranchModel {
    pub decision: Seq<char>,
    pub outcome: Seq<char>,
    pub target: Seq<char>,
    pub can_reach_terminal: bool,
    pub derivation: Seq<char>,
}

/// One decision branch and its terminal viability.
#[derive(Clone, Debug, PartialEq, Eq)]
pub struct DecisionBranch {
    pub(crate) decision: String,
    pub(crate) outcome: String,
    pub(crate) target: String,
    pub(crate) can_reach_terminal: bool,
    pub(crate) derivation: String,
}

impl View for DecisionBranch {
    type V = BranchModel;

    closed spec fn view(&self) -> BranchModel {
        BranchModel {
            decision: self.decision@,
            outcome: self.outcome@,
            target: self.target@,
            can_reach_terminal: self.can_reach_terminal,
            derivation: self.derivation@,
        }
    }
}

/// Abstract value of one strongly connected component.
pub struct ComponentModel {
    pub id: Seq<char>,
    pub checkpoints: Seq<Seq<char>>,
    pub is_loop: bool,
    pub can_reach_terminal: bool,
    pub derivation: Seq<char>,
}

/// One strongly connected component and loop interpretation.
#[derive(Clone, Debug, PartialEq, Eq)]
pub struct StronglyConnectedComponent {
    pub(crate) id: String,
    pub(crate) checkpoints: Vec<String>,
    pub(crate) is_loop: bool,
    pub(crate) can_reach_terminal: bool,
    pub(crate) derivation: String,
}

impl View for StronglyConnectedComponent {
    type V = ComponentModel;

    closed spec fn view(&self) -> ComponentModel {
        ComponentModel {
            id: self.id@,
            checkpoints: texts(self.checkpoints@),
            is_loop: self.is_loop,
            can_reach_terminal: self.can_reach_terminal,
            derivation: self.derivation@,
        }
    }
}

impl StronglyConnectedComponent {
    pub(crate) fn build(
        id: String,
        checkpoints: Vec<String>,
        is_loop: bool,
        can_reach_terminal: bool,
        derivation: String,
    ) -> (r: Self)
        ensures
            r@ == (ComponentModel {
                id: id@,
                checkpoints: texts(checkpoints@),
                is_loop,
                can_reach_terminal,
                derivation: derivation@,
            }),
    {
        StronglyConnectedComponent { id, checkpoints, is_loop, can_reach_terminal, derivation }
    }

    pub(crate) fn checkpoint_list(&self) -> (r: &[String])
        ensures
            texts(r@) == self@.checkpoints,
    {
        self.checkpoints.as_slice()
    }

    pub(crate) fn loops_without_exit(&self) -> (r: bool)
        ensures
            r == (self@.is_loop && !self@.can_reach_terminal),
    {
        self.is_loop && !self.can_reach_terminal
    }
}

/// The order fields of a component.
pub open spec fn component_groups(c: ComponentModel) -> Seq<Seq<Seq<char>>> {
    seq![
        single(c.id),
        c.checkpoints,
        single(rank_field(if c.is_loop { 1 } else { 0 })),
        single(rank_field(if c.can_reach_terminal { 1 } else { 0 })),
        single(c.derivation),
    ]
}

fn component_groups_exec(c: &StronglyConnectedComponent) -> (r: Vec<Vec<Vec<char>>>)
    ensures
        group_views(r@) == component_groups(c@),
{
    let mut r: Vec<Vec<Vec<char>>> = Vec::new();
    r.push(single_exec(c.id.as_str()));
    r.push(texts_exec(c.checkpoints.as_slice()));
    let mut l: Vec<Vec<char>> = Vec::new();
    l.push(rank_field_exec(if c.is_loop { 1 } else { 0 }));
    assert(l@.map_values(|x: Vec<char>| x@) =~= single(rank_field(if c.is_loop { 1 } else { 0 })));
    r.push(l);
    let mut t: Vec<Vec<char>> = Vec::new();
    t.push(rank_field_exec(if c.can_reach_terminal { 1 } else { 0 }));
    assert(t@.map_values(|x: Vec<char>| x@) =~= single(rank_field(if c.can_reach_terminal { 1 } else { 0 })));
    r.push(t);
    r.push(single_exec(c.derivation.as_str()));
    assert(group_views(r@) =~= component_groups(c@));
    r
}

impl CanonicalOrder for StronglyConnectedComponent {
    open spec fn ordered(a: ComponentModel, b: ComponentModel) -> bool {
        groups_le(component_groups(a), component_groups(b))
    }

    proof fn lemma_ordered_reflexive(a: ComponentModel) {
        lemma_groups_le_reflexive(component_groups(a));
    }

    proof fn lemma_ordered_transitive(a: ComponentModel, b: ComponentModel, c: ComponentModel) {
        lemma_groups_le_transitive(component_groups(a), component_groups(b), component_groups(c));
    }

    proof fn lemma_ordered_total(a: ComponentModel, b: ComponentModel) {
        lemma_groups_le_total(component_groups(a), component_groups(b));
    }

    fn precedes(&self, other: &Self) -> (r: bool) {
        let a = component_groups_exec(self);
        let b = component_groups_exec(other);
        groups_le_exec(&a, &b)
    }
}

/// Abstract value of one immediate (post-)dominator relation.
pub struct DominationModel {
    pub checkpoint: Seq<char>,
    pub immediate: Option<Seq<char>>,
    pub derivation: Seq<char>,
}

/// Compact immediate-dominator or post-dominator relation.
#[derive(Clone, Debug, PartialEq, Eq)]
pub struct ImmediateDomination {
    pub(crate) checkpoint: String,
    pub(crate) immediate: Option<String>,
    pub(crate) derivation: String,
}

impl View for ImmediateDomination {
    type V = DominationModel;

    closed spec fn view(&self) -> DominationModel {
        DominationModel {
            checkpoint: self.checkpoint@,
            immediate: optional_view(self.immediate),
            derivation: self.derivation@,
        }
    }
}

impl ImmediateDomination {
    pub(crate) fn build(checkpoint: String, immediate: Option<String>, derivation: String) -> (r: Self)
        ensures
            r@ == (DominationModel { checkpoint: checkpoint@, immediate: optional_view(immediate), derivation: derivation@ }),
    {
        ImmediateDomination { checkpoint, immediate, derivation }
    }

    /// Returns the dominated checkpoint.
    pub fn checkpoint(&self) -> (r: &str)
        ensures
            r@ == self@.checkpoint,
    {
        self.checkpoint.as_str()
    }

    /// Returns its immediate dominator, or none at the root or exit boundary.
    pub fn immediate(&self) -> (r: Option<&str>)
        ensures
            match r {
                Some(c) => self@.immediate == Some(c@),
                None => self@.immediate is None,
            },
    {
        match &self.immediate {
            Some(c) => Some(c.as_str()),
            None => None,
        }
    }
}

/// Abstract value of one derivation.
pub struct DerivationModel {
    pub id: Seq<char>,
    pub kind: Seq<char>,
    pub fact: Seq<char>,
    pub input_facts: Seq<Seq<char>>,
    pub explanation_path: Seq<Seq<char>>,
    pub provenance: Seq<ProvenanceModel>,
}

/// Explainable derived flow fact.
#[derive(Clone, Debug, PartialEq, Eq)]
pub struct BfgDerivation {
    id: String,
    kind: String,
    fact: String,
    input_facts: Vec<String>,
    explanation_path: Vec<String>,
    provenance: Vec<BfgProvenance>,
}

impl View for BfgDerivation {
    type V = DerivationModel;

    closed spec fn view(&self) -> DerivationModel {
        DerivationModel {
            id: self.id@,
            kind: self.kind@,
            fact: self.fact@,
            input_facts: texts(self.input_facts@),
            explanation_path: texts(self.explanation_path@),
            provenance: views(self.provenance@),
        }
    }
}

impl BfgDerivation {
    pub(crate) fn build(
        id: String,
        kind: String,
        fact: String,
        input_facts: Vec<String>,
        explanation_path: Vec<String>,
        provenance: Vec<BfgProvenance>,
    ) -> (r: Self)
        ensures
            r@ == (DerivationModel {
                id: id@,
                kind: kind@,
                fact: fact@,
                input_facts: texts(input_facts@),
                explanation_path: texts(explanation_path@),
                provenance: views(provenance@),
            }),
    {
        BfgDerivation { id, kind, fact, input_facts, explanation_path, provenance }
    }
}

/// The order fields of a derivation.
pub open spec fn derivation_groups(d: DerivationModel) -> Seq<Seq<Seq<char>>> {
    seq![
        single(d.id),
        single(d.kind),
        single(d.fact),
        d.input_facts,
        d.explanation_path,
        provenance_list_fields(d.provenance),
    ]
}

fn derivation_groups_exec(d: &BfgDerivation) -> (r: Vec<Vec<Vec<char>>>)
    ensures
        group_views(r@) == derivation_groups(d@),
{
    let mut r: Vec<Vec<Vec<char>>> = Vec::new();
    r.push(single_exec(d.id.as_str()));
    r.push(single_exec(d.kind.as_str()));
    r.push(single_exec(d.fact.as_str()));
    r.push(texts_exec(d.input_facts.as_slice()));
    r.push(texts_exec(d.explanation_path.as_slice()));
    r.push(provenance_list_fields_exec(d.provenance.as_slice()));
    assert(group_views(r@) =~= derivation_groups(d@));
    r
}

impl CanonicalOrder for BfgDerivation {
    open spec fn ordered(a: DerivationModel, b: DerivationModel) -> bool {
        groups_le(derivation_groups(a), derivation_groups(b))
    }

    proof fn lemma_ordered_reflexive(a: DerivationModel) {
        lemma_groups_le_reflexive(derivation_groups(a));
    }

    proof fn lemma_ordered_transitive(a: DerivationModel, b: DerivationModel, c: DerivationModel) {
        lemma_groups_le_transitive(derivation_groups(a), derivation_groups(b), derivation_groups(c));
    }

    proof fn lemma_ordered_total(a: DerivationModel, b: DerivationModel) {
        lemma_groups_le_total(derivation_groups(a), derivation_groups(b));
    }

    fn precedes(&self, other: &Self) -> (r: bool) {
        let a = derivation_groups_exec(self);
        let b = derivation_groups_exec(other);
        groups_le_exec(&a, &b)
    }
}

impl TotalOrder for BfgDerivation {
    proof fn lemma_ordered_antisymmetric(a: DerivationModel, b: DerivationModel) {
        lemma_groups_le_antisymmetric(derivation_groups(a), derivation_groups(b));
        let ga = derivation_groups(a);
        let gb = derivation_groups(b);
        assert(ga[0][0] == a.id && gb[0][0] == b.id);
        assert(ga[1][0] == a.kind && gb[1][0] == b.kind);
        assert(ga[2][0] == a.fact && gb[2][0] == b.fact);
        assert(ga[3] == a.input_facts && gb[3] == b.input_facts);
        assert(ga[4] == a.explanation_path && gb[4] == b.explanation_path);
        lemma_provenance_list_fields_injective(a.provenance, b.provenance);
    }
}

impl DecisionBranch {
    pub(crate) fn build(decision: String, outcome: String, target: String, can_reach_terminal: bool, derivation: String) -> (r: Self)
        ensures
            r@ == (BranchModel { decision: decision@, outcome: outcome@, target: target@, can_reach_terminal, derivation: derivation@ }),
    {
        DecisionBranch { decision, outcome, target, can_reach_terminal, derivation }
    }

    /// Returns the decision checkpoint.
    pub fn decision(&self) -> (r: &str)
        ensures
            r@ == self@.decision,
    {
        self.decision.as_str()
    }

    /// Returns the branch outcome.
    pub fn outcome(&self) -> (r: &str)
        ensures
            r@ == self@.outcome,
    {
        self.outcome.as_str()
    }

    /// Returns the checkpoint the branch leads to.
    pub fn target(&self) -> (r: &str)
        ensures
            r@ == self@.target,
    {
        self.target.as_str()
    }

    /// Returns whether a terminal checkpoint is reachable through the branch.
    pub fn can_reach_terminal(&self) -> (r: bool)
        ensures
            r == self@.can_reach_terminal,
    {
        self.can_reach_terminal
    }
}

impl BfgNode {
    pub(crate) fn duplicate(&self) -> (r: Self)
        ensures
            r@ == self@,
    {
        let outcome = match &self.terminal_outcome {
            Some(o) => Some(crate::text::copy_text(o.as_str())),
            None => None,
        };
        BfgNode::build(
            crate::text::copy_text(self.checkpoint.as_str()),
            crate::text::copy_text(self.module.as_str()),
            self.kind,
            outcome,
            self.provenance.duplicate(),
        )
    }
}

impl BfgEdge {
    pub(crate) fn duplicate(&self) -> (r: Self)
        ensures
            r@ == self@,
    {
        let outcome = match &self.decision_outcome {
            Some(o) => Some(crate::text::copy_text(o.as_str())),
            None => None,
        };
        BfgEdge::build(
            crate::text::copy_text(self.source.as_str()),
            crate::text::copy_text(self.target.as_str()),
            outcome,
            self.crosses_module_boundary,
            self.provenance.duplicate(),
        )
    }
}

impl ImmediateDomination {
    pub(crate) fn derivation_text(&self) -> (r: &str)
        ensures
            r@ == self@.derivation,
    {
        self.derivation.as_str()
    }
}

impl StronglyConnectedComponent {
    pub(crate) fn derivation_text(&self) -> (r: &str)
        ensures
            r@ == self@.derivation,
    {
        self.derivation.as_str()
    }

    pub(crate) fn is_loop_flag(&self) -> (r: bool)
        ensures
            r == self@.is_loop,
    {
        self.is_loop
    }
}

// ---------------------------------------------------------------------------
// Canonical JSON.

fn optional_json(o: &Option<String>) -> (r: Json)
    ensures
        r@ == optional_text_value(optional_view(*o)),
{
    match o {
        Some(t) => text(t.as_str()),
        None => Json::Null,
    }
}

/// The serialized name of a modeling state.
pub open spec fn modeling_state_name(s: BehavioralModelingState) -> Seq<char> {
    match s {
        BehavioralModelingState::Unmodeled => "UNMODELED"@,
        BehavioralModelingState::ModeledCoherent => "MODELED_COHERENT"@,
        BehavioralModelingState::ModeledIncoherent => "MODELED_INCOHERENT"@,
    }
}

/// Returns the serialized name of a modeling state.
pub fn modeling_state_name_exec(s: BehavioralModelingState) -> (r: &'static str)
    ensures
        r@ == modeling_state_name(s),
{
    match s {
        BehavioralModelingState::Unmodeled => "UNMODELED",
        BehavioralModelingState::ModeledCoherent => "MODELED_COHERENT",
        BehavioralModelingState::ModeledIncoherent => "MODELED_INCOHERENT",
    }
}

/// The serialized name of a checkpoint kind, as authored.
pub open spec fn kind_name(k: CheckpointKind) -> Seq<char> {
    match k {
        CheckpointKind::Trigger => "trigger"@,
        CheckpointKind::Action => "action"@,
        CheckpointKind::Decision => "decision"@,
        CheckpointKind::Terminal => "terminal"@,
    }
}

fn kind_name_exec(k: CheckpointKind) -> (r: &'static str)
    ensures
        r@ == kind_name(k),
{
    match k {
        CheckpointKind::Trigger => "trigger",
        CheckpointKind::Action => "action",
        CheckpointKind::Decision => "decision",
        CheckpointKind::Terminal => "terminal",
    }
}

/// The JSON document of a provenance record.
pub open spec fn provenance_document(p: ProvenanceModel) -> JsonModel {
    JsonModel::Object(seq![("path"@, JsonModel::Text(p.path)), ("pointer"@, JsonModel::Text(p.pointer))])
}

/// The documents of provenance records.
pub open spec fn provenance_documents(ps: Seq<ProvenanceModel>) -> JsonModel {
    JsonModel::Array(ps.map_values(|p: ProvenanceModel| provenance_document(p)))
}

impl JsonDocument for BfgProvenance {
    open spec fn document(v: ProvenanceModel) -> JsonModel {
        provenance_document(v)
    }

    fn to_json(&self) -> (r: Json) {
        let members = vec![
            (String::from_str("path"), text(self.path.as_str())),
            (String::from_str("pointer"), text(self.pointer.as_str())),
        ];
        proof {
            lemma_member_models(members@);
            assert(member_models(members@) =~= seq![
                ("path"@, JsonModel::Text(self@.path)),
                ("pointer"@, JsonModel::Text(self@.pointer)),
            ]);
        }
        Json::Object(members)
    }
}

/// The JSON document of a violation: every field, in declaration order.
pub open spec fn violation_document(v: ViolationModel) -> JsonModel {
    JsonModel::Object(
        seq![
            ("code"@, JsonModel::Text(v.code)),
            ("feature"@, JsonModel::Text(v.feature)),
            ("checkpoint"@, optional_text_value(v.checkpoint)),
            ("message"@, JsonModel::Text(v.message)),
            ("input_facts"@, JsonModel::Array(text_values(v.input_facts))),
            ("provenance"@, provenance_documents(v.provenance)),
        ],
    )
}

impl JsonDocument for BehavioralViolation {
    open spec fn document(v: ViolationModel) -> JsonModel {
        violation_document(v)
    }

    fn to_json(&self) -> (r: Json) {
        let members = vec![
            (String::from_str("code"), text(self.code.as_str())),
            (String::from_str("feature"), text(self.feature.as_str())),
            (String::from_str("checkpoint"), optional_json(&self.checkpoint)),
            (String::from_str("message"), text(self.message.as_str())),
            (String::from_str("input_facts"), text_array(self.input_facts.as_slice())),
            (String::from_str("provenance"), documents(self.provenance.as_slice())),
        ];
        proof {
            lemma_member_models(members@);
            assert(self.input_facts@.map_values(|s: String| s@) =~= texts(self.input_facts@));
            assert(views(self.provenance@).map_values(|v: ProvenanceModel| BfgProvenance::document(v))
                =~= views(self.provenance@).map_values(|p: ProvenanceModel| provenance_document(p)));
            let v = self@;
            assert(member_models(members@) =~= seq![
                ("code"@, JsonModel::Text(v.code)),
                ("feature"@, JsonModel::Text(v.feature)),
                ("checkpoint"@, optional_text_value(v.checkpoint)),
                ("message"@, JsonModel::Text(v.message)),
                ("input_facts"@, JsonModel::Array(text_values(v.input_facts))),
                ("provenance"@, provenance_documents(v.provenance)),
            ]);
        }
        Json::Object(members)
    }
}

/// The JSON document of the summary: every count, in declaration order.
pub open spec fn bfg_summary_document(s: BfgSummaryModel) -> JsonModel {
    JsonModel::Object(
        seq![
            ("total_features"@, JsonModel::Number(s.total_features as nat)),
            ("modeled_features"@, JsonModel::Number(s.modeled_features as nat)),
            ("unmodeled_features"@, JsonModel::Number(s.unmodeled_features as nat)),
            ("coherent_features"@, JsonModel::Number(s.coherent_features as nat)),
            ("incoherent_features"@, JsonModel::Number(s.incoherent_features as nat)),
            ("checkpoints"@, JsonModel::Number(s.checkpoints as nat)),
            ("edges"@, JsonModel::Number(s.edges as nat)),
            ("decisions"@, JsonModel::Number(s.decisions as nat)),
            ("terminals"@, JsonModel::Number(s.terminals as nat)),
            ("participant_modules"@, JsonModel::Number(s.participant_modules as nat)),
            ("boundary_crossings"@, JsonModel::Number(s.boundary_crossings as nat)),
            ("loops"@, JsonModel::Number(s.loops as nat)),
        ],
    )
}

impl BfgSummary {
    /// The summary as a JSON document.
    pub fn to_json(&self) -> (r: Json)
        ensures
            r@ == bfg_summary_document(self@),
    {
        let members = vec![
            (String::from_str("total_features"), Json::Number(self.total_features as u64)),
            (String::from_str("modeled_features"), Json::Number(self.modeled_features as u64)),
            (String::from_str("unmodeled_features"), Json::Number(self.unmodeled_features as u64)),
            (String::from_str("coherent_features"), Json::Number(self.coherent_features as u64)),
            (String::from_str("incoherent_features"), Json::Number(self.incoherent_features as u64)),
            (String::from_str("checkpoints"), Json::Number(self.checkpoints as u64)),
            (String::from_str("edges"), Json::Number(self.edges as u64)),
            (String::from_str("decisions"), Json::Number(self.decisions as u64)),
            (String::from_str("terminals"), Json::Number(self.terminals as u64)),
            (String::from_str("participant_modules"), Json::Number(self.participant_modules as u64)),
            (String::from_str("boundary_crossings"), Json::Number(self.boundary_crossings as u64)),
            (String::from_str("loops"), Json::Number(self.loops as u64)),
        ];
        proof {
            lemma_member_models(members@);
            let s = self@;
            assert(member_models(members@) =~= seq![
                ("total_features"@, JsonModel::Number(s.total_features as nat)),
                ("modeled_features"@, JsonModel::Number(s.modeled_features as nat)),
                ("unmodeled_features"@, JsonModel::Number(s.unmodeled_features as nat)),
                ("coherent_features"@, JsonModel::Number(s.coherent_features as nat)),
                ("incoherent_features"@, JsonModel::Number(s.incoherent_features as nat)),
                ("checkpoints"@, JsonModel::Number(s.checkpoints as nat)),
                ("edges"@, JsonModel::Number(s.edges as nat)),
                ("decisions"@, JsonModel::Number(s.decisions as nat)),
                ("terminals"@, JsonModel::Number(s.terminals as nat)),
                ("participant_modules"@, JsonModel::Number(s.participant_modules as nat)),
                ("boundary_crossings"@, JsonModel::Number(s.boundary_crossings as nat)),
                ("loops"@, JsonModel::Number(s.loops as nat)),
            ]);
        }
        Json::Object(members)
    }
}

/// The JSON document of a Feature modeling state.
pub open spec fn feature_state_document(f: FeatureStateModel) -> JsonModel {
    JsonModel::Object(
        seq![
            ("feature"@, JsonModel::Text(f.feature)),
            ("owner"@, JsonModel::Text(f.owner)),
            ("state"@, JsonModel::Text(modeling_state_name(f.state))),
        ],
    )
}

impl JsonDocument for FeatureModelingState {
    open spec fn document(v: FeatureStateModel) -> JsonModel {
        feature_state_document(v)
    }

    fn to_json(&self) -> (r: Json) {
        let members = vec![
            (String::from_str("feature"), text(self.feature.as_str())),
            (String::from_str("owner"), text(self.owner.as_str())),
            (String::from_str("state"), text(modeling_state_name_exec(self.state))),
        ];
        proof {
            lemma_member_models(members@);
            assert(member_models(members@) =~= seq![
                ("feature"@, JsonModel::Text(self@.feature)),
                ("owner"@, JsonModel::Text(self@.owner)),
                ("state"@, JsonModel::Text(modeling_state_name(self@.state))),
            ]);
        }
        Json::Object(members)
    }
}

/// The JSON document of a node: every field, in declaration order.
pub open spec fn node_document(n: NodeModel) -> JsonModel {
    JsonModel::Object(
        seq![
            ("checkpoint"@, JsonModel::Text(n.checkpoint)),
            ("module"@, JsonModel::Text(n.module)),
            ("kind"@, JsonModel::Text(kind_name(n.kind))),
            ("terminal_outcome"@, optional_text_value(n.terminal_outcome)),
            ("provenance"@, provenance_document(n.provenance)),
        ],
    )
}

impl JsonDocument for BfgNode {
    open spec fn document(v: NodeModel) -> JsonModel {
        node_document(v)
    }

    fn to_json(&self) -> (r: Json) {
        let members = vec![
            (String::from_str("checkpoint"), text(self.checkpoint.as_str())),
            (String::from_str("module"), text(self.module.as_str())),
            (String::from_str("kind"), text(kind_name_exec(self.kind))),
            (String::from_str("terminal_outcome"), optional_json(&self.terminal_outcome)),
            (String::from_str("provenance"), self.provenance.to_json()),
        ];
        proof {
            lemma_member_models(members@);
            let n = self@;
            assert(member_models(members@) =~= seq![
                ("checkpoint"@, JsonModel::Text(n.checkpoint)),
                ("module"@, JsonModel::Text(n.module)),
                ("kind"@, JsonModel::Text(kind_name(n.kind))),
                ("terminal_outcome"@, optional_text_value(n.terminal_outcome)),
                ("provenance"@, provenance_document(n.provenance)),
            ]);
        }
        Json::Object(members)
    }
}

/// The JSON document of an edge: every field, in declaration order.
pub open spec fn edge_document(e: EdgeModel) -> JsonModel {
    JsonModel::Object(
        seq![
            ("source"@, JsonModel::Text(e.source)),
            ("target"@, JsonModel::Text(e.target)),
            ("decision_outcome"@, optional_text_value(e.decision_outcome)),
            ("crosses_module_boundary"@, JsonModel::Bool(e.crosses_module_boundary)),
            ("provenance"@, provenance_document(e.provenance)),
        ],
    )
}

impl JsonDocument for BfgEdge {
    open spec fn document(v: EdgeModel) -> JsonModel {
        edge_document(v)
    }

    fn to_json(&self) -> (r: Json) {
        let members = vec![
            (String::from_str("source"), text(self.source.as_str())),
            (String::from_str("target"), text(self.target.as_str())),
            (String::from_str("decision_outcome"), optional_json(&self.decision_outcome)),
            (String::from_str("crosses_module_boundary"), Json::Bool(self.crosses_module_boundary)),
            (String::from_str("provenance"), self.provenance.to_json()),
        ];
        proof {
            lemma_member_models(members@);
            let e = self@;
            assert(member_models(members@) =~= seq![
                ("source"@, JsonModel::Text(e.source)),
                ("target"@, JsonModel::Text(e.target)),
                ("decision_outcome"@, optional_text_value(e.decision_outcome)),
                ("crosses_module_boundary"@, JsonModel::Bool(e.crosses_module_boundary)),
                ("provenance"@, provenance_document(e.provenance)),
            ]);
        }
        Json::Object(members)
    }
}

/// The JSON document of a decision branch: every field, in declaration order.
pub open spec fn branch_document(b: BranchModel) -> JsonModel {
    JsonModel::Object(
        seq![
            ("decision"@, JsonModel::Text(b.decision)),
            ("outcome"@, JsonModel::Text(b.outcome)),
            ("target"@, JsonModel::Text(b.target)),
            ("can_reach_terminal"@, JsonModel::Bool(b.can_reach_terminal)),
            ("derivation"@, JsonModel::Text(b.derivation)),
        ],
    )
}

impl JsonDocument for DecisionBranch {
    open spec fn document(v: BranchModel) -> JsonModel {
        branch_document(v)
    }

    fn to_json(&self) -> (r: Json) {
        let members = vec![
            (String::from_str("decision"), text(self.decision.as_str())),
            (String::from_str("outcome"), text(self.outcome.as_str())),
            (String::from_str("target"), text(self.target.as_str())),
            (String::from_str("can_reach_terminal"), Json::Bool(self.can_reach_terminal)),
            (String::from_str("derivation"), text(self.derivation.as_str())),
        ];
        proof {
            lemma_member_models(members@);
            let b = self@;
            assert(member_models(members@) =~= seq![
                ("decision"@, JsonModel::Text(b.decision)),
                ("outcome"@, JsonModel::Text(b.outcome)),
                ("target"@, JsonModel::Text(b.target)),
                ("can_reach_terminal"@, JsonModel::Bool(b.can_reach_terminal)),
                ("derivation"@, JsonModel::Text(b.derivation)),
            ]);
        }
        Json::Object(members)
    }
}

/// The JSON document of a component: every field, in declaration order.
pub open spec fn component_document(c: ComponentModel) -> JsonModel {
    JsonModel::Object(
        seq![
            ("id"@, JsonModel::Text(c.id)),
            ("checkpoints"@, JsonModel::Array(text_values(c.checkpoints))),
            ("is_loop"@, JsonModel::Bool(c.is_loop)),
            ("can_reach_terminal"@, JsonModel::Bool(c.can_reach_terminal)),
            ("derivation"@, JsonModel::Text(c.derivation)),
        ],
    )
}

impl JsonDocument for StronglyConnectedComponent {
    open spec fn document(v: ComponentModel) -> JsonModel {
        component_document(v)
    }

    fn to_json(&self) -> (r: Json) {
        let members = vec![
            (String::from_str("id"), text(self.id.as_str())),
            (String::from_str("checkpoints"), text_array(self.checkpoints.as_slice())),
            (String::from_str("is_loop"), Json::Bool(self.is_loop)),
            (String::from_str("can_reach_terminal"), Json::Bool(self.can_reach_terminal)),
            (String::from_str("derivation"), text(self.derivation.as_str())),
        ];
        proof {
            lemma_member_models(members@);
            assert(self.checkpoints@.map_values(|s: String| s@) =~= texts(self.checkpoints@));
            let c = self@;
            assert(member_models(members@) =~= seq![
                ("id"@, JsonModel::Text(c.id)),
                ("checkpoints"@, JsonModel::Array(text_values(c.checkpoints))),
                ("is_loop"@, JsonModel::Bool(c.is_loop)),
                ("can_reach_terminal"@, JsonModel::Bool(c.can_reach_terminal)),
                ("derivation"@, JsonModel::Text(c.derivation)),
            ]);
        }
        Json::Object(members)
    }
}

/// The JSON document of an immediate domination.
pub open spec fn domination_document(d: DominationModel) -> JsonModel {
    JsonModel::Object(
        seq![
            ("checkpoint"@, JsonModel::Text(d.checkpoint)),
            ("immediate"@, optional_text_value(d.immediate)),
            ("derivation"@, JsonModel::Text(d.derivation)),
        ],
    )
}

impl JsonDocument for ImmediateDomination {
    open spec fn document(v: DominationModel) -> JsonModel {
        domination_document(v)
    }

    fn to_json(&self) -> (r: Json) {
        let members = vec![
            (String::from_str("checkpoint"), text(self.checkpoint.as_str())),
            (String::from_str("immediate"), optional_json(&self.immediate)),
            (String::from_str("derivation"), text(self.derivation.as_str())),
        ];
        proof {
            lemma_member_models(members@);
            let d = self@;
            assert(member_models(members@) =~= seq![
                ("checkpoint"@, JsonModel::Text(d.checkpoint)),
                ("immediate"@, optional_text_value(d.immediate)),
                ("derivation"@, JsonModel::Text(d.derivation)),
            ]);
        }
        Json::Object(members)
    }
}

/// The JSON document of a derivation: every field, in declaration order.
pub open spec fn derivation_document(d: DerivationModel) -> JsonModel {
    JsonModel::Object(
        seq![
            ("id"@, JsonModel::Text(d.id)),
            ("kind"@, JsonModel::Text(d.kind)),
            ("fact"@, JsonModel::Text(d.fact)),
            ("input_facts"@, JsonModel::Array(text_values(d.input_facts))),
            ("explanation_path"@, JsonModel::Array(text_values(d.explanation_path))),
            ("provenance"@, provenance_documents(d.provenance)),
        ],
    )
}

impl JsonDocument for BfgDerivation {
    open spec fn document(v: DerivationModel) -> JsonModel {
        derivation_document(v)
    }

    fn to_json(&self) -> (r: Json) {
        let members = vec![
            (String::from_str("id"), text(self.id.as_str())),
            (String::from_str("kind"), text(self.kind.as_str())),
            (String::from_str("fact"), text(self.fact.as_str())),
            (String::from_str("input_facts"), text_array(self.input_facts.as_slice())),
            (String::from_str("explanation_path"), text_array(self.explanation_path.as_slice())),
            (String::from_str("provenance"), documents(self.provenance.as_slice())),
        ];
        proof {
            lemma_member_models(members@);
            assert(self.input_facts@.map_values(|s: String| s@) =~= texts(self.input_facts@));
            assert(self.explanation_path@.map_values(|s: String| s@) =~= texts(self.explanation_path@));
            assert(views(self.provenance@).map_values(|v: ProvenanceModel| BfgProvenance::document(v))
                =~= views(self.provenance@).map_values(|p: ProvenanceModel| provenance_document(p)));
            let d = self@;
            assert(member_models(members@) =~= seq![
                ("id"@, JsonModel::Text(d.id)),
                ("kind"@, JsonModel::Text(d.kind)),
                ("fact"@, JsonModel::Text(d.fact)),
                ("input_facts"@, JsonModel::Array(text_values(d.input_facts))),
                ("explanation_path"@, JsonModel::Array(text_values(d.explanation_path))),
                ("provenance"@, provenance_documents(d.provenance)),
            ]);
        }
        Json::Object(members)
    }
}

} // verus!
