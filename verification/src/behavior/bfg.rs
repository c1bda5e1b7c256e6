//! The intended behavioral flow graph of a whole project.

use vstd::prelude::*;

use crate::json::{
    documents, json_model, json_models, lemma_json_models, lemma_member_models, member_models, pretty_document,
    render_pretty_document, text, text_values, Json, JsonDocument, JsonModel,
};
use crate::order::{canonical_set, canonical_set_exec, views};
use crate::text::{copy_text, strictly_sorted, text_eq, texts};
use super::analysis::flow_violations;
use super::compile::{compile_feature_flow, feature_flow, flow_document, FlowModel, IntendedFeatureFlow};
use super::flow::{checkpoint_ids, flow_input_wf, CheckpointDeclaration, DeclarationModel};
use super::model::{
    bfg_summary_document, feature_state_document, violation_document, BehavioralModelingState,
    BehavioralViolation, BfgSummary, BfgSummaryModel, CheckpointKind,
    ComponentModel, FeatureModelingState, FeatureStateModel, NodeModel, ViolationModel,
};

verus! {

/// Canonical Intended BFG schema identity.
pub const BFG_SCHEMA: &'static str = "urn:fortress:schema:v1:behavioral-flow-graph";
/// Canonical Intended BFG schema version.
pub const BFG_SCHEMA_VERSION: u16 = 1;
/// Semantic compiler version bound into the derived artifact.
pub const BFG_SEMANTIC_VERSION: &'static str = "1.0.0";
/// Stable rule identity for modeled Feature-flow coherency.
pub const BEHAVIOR_FLOW_RULE_ID: &'static str = "BEHAVIOR-FLOW-001";

/// Semantic proof classes deliberately outside Intended BFG v1 authority.
pub open spec fn unsupported_semantics_list() -> Seq<Seq<char>> {
    seq![
        "concurrency_liveness_proof"@,
        "effect_system_proof"@,
        "environment_api_nondeterminism"@,
        "failure_crash_semantics"@,
        "formal_state_variable_invariants"@,
        "function_call_realization"@,
        "implementation_behavior_realization"@,
        "natural_language_requirement_satisfiability"@,
        "pre_postcondition_proof"@,
        "runtime_frequency_probability"@,
        "security_information_flow_proof"@,
        "value_data_flow_realization"@,
    ]
}

/// Semantic proof classes deliberately outside Intended BFG v1 authority.
pub fn bfg_unsupported_semantics() -> (r: Vec<&'static str>)
    ensures
        crate::cli::command::static_texts(r@) == unsupported_semantics_list(),
{
    let mut v: Vec<&'static str> = Vec::new();
    v.push("concurrency_liveness_proof");
    v.push("effect_system_proof");
    v.push("environment_api_nondeterminism");
    v.push("failure_crash_semantics");
    v.push("formal_state_variable_invariants");
    v.push("function_call_realization");
    v.push("implementation_behavior_realization");
    v.push("natural_language_requirement_satisfiability");
    v.push("pre_postcondition_proof");
    v.push("runtime_frequency_probability");
    v.push("security_information_flow_proof");
    v.push("value_data_flow_realization");
    assert(crate::cli::command::static_texts(v@) =~= unsupported_semantics_list());
    v
}

/// Abstract value of one Feature and its owner.
pub struct OwnershipModel {
    pub feature: Seq<char>,
    pub owner: Seq<char>,
}

/// One Feature of the coherency graph with its owning Module.
#[derive(Clone, Debug, PartialEq, Eq)]
pub struct FeatureOwnership {
    feature: String,
    owner: String,
}

impl View for FeatureOwnership {
    type V = OwnershipModel;

    closed spec fn view(&self) -> OwnershipModel {
        OwnershipModel { feature: self.feature@, owner: self.owner@ }
    }
}

impl FeatureOwnership {
    /// Creates one Feature ownership record.
    pub fn new(feature: String, owner: String) -> (r: Self)
        ensures
            r@ == (OwnershipModel { feature: feature@, owner: owner@ }),
    {
        FeatureOwnership { feature, owner }
    }
}

/// Abstract value of the behavior source.
pub struct SourceModel {
    pub project_id: Option<Seq<char>>,
    pub standard_id: Option<Seq<char>>,
    pub standard_edition: Option<Seq<char>>,
    pub ccg_digest: Seq<char>,
    pub features: Seq<OwnershipModel>,
    pub declarations: Seq<DeclarationModel>,
}

/// What intended-behavior compilation reads from a coherency graph: the root
/// project identity and its standard (absent when the root or its ecosystem
/// is absent), the graph digest, the Features in identity order with their
/// owners, and every authored checkpoint in checkpoint order.
#[derive(Clone, Debug, PartialEq, Eq)]
pub struct BehaviorSource {
    project_id: Option<String>,
    standard_id: Option<String>,
    standard_edition: Option<String>,
    ccg_digest: String,
    features: Vec<FeatureOwnership>,
    declarations: Vec<CheckpointDeclaration>,
}

impl View for BehaviorSource {
    type V = SourceModel;

    closed spec fn view(&self) -> SourceModel {
        SourceModel {
            project_id: super::model::optional_view(self.project_id),
            standard_id: super::model::optional_view(self.standard_id),
            standard_edition: super::model::optional_view(self.standard_edition),
            ccg_digest: self.ccg_digest@,
            features: views(self.features@),
            declarations: views(self.declarations@),
        }
    }
}

/// The Feature identities of the ownership records.
pub open spec fn feature_ids(fs: Seq<OwnershipModel>) -> Seq<Seq<char>> {
    fs.map_values(|f: OwnershipModel| f.feature)
}

/// A well-formed source: Features and checkpoints strictly ordered, every
/// transition naming a checkpoint of the same Feature.
pub open spec fn source_wf(s: SourceModel) -> bool {
    &&& strictly_sorted(feature_ids(s.features))
    &&& strictly_sorted(checkpoint_ids(s.declarations))
    &&& forall|i: int, t: int|
        0 <= i < s.declarations.len() && 0 <= t < s.declarations[i].transitions.len() ==> exists|j: int|
            0 <= j < s.declarations.len() && s.declarations[j].checkpoint == #[trigger] s.declarations[i].transitions[t].target
                && s.declarations[j].feature == s.declarations[i].feature
    &&& s.declarations.len() < usize::MAX
}

impl BehaviorSource {
    /// Creates a behavior source.
    pub fn new(
        project_id: Option<String>,
        standard_id: Option<String>,
        standard_edition: Option<String>,
        ccg_digest: String,
        features: Vec<FeatureOwnership>,
        declarations: Vec<CheckpointDeclaration>,
    ) -> (r: Self)
        ensures
            r@ == (SourceModel {
                project_id: super::model::optional_view(project_id),
                standard_id: super::model::optional_view(standard_id),
                standard_edition: super::model::optional_view(standard_edition),
                ccg_digest: ccg_digest@,
                features: views(features@),
                declarations: views(declarations@),
            }),
    {
        BehaviorSource { project_id, standard_id, standard_edition, ccg_digest, features, declarations }
    }
}

/// The declarations of one Feature among the first `n`, in order.
pub open spec fn declarations_of(ds: Seq<DeclarationModel>, feature: Seq<char>, n: int) -> Seq<DeclarationModel>
    decreases n,
{
    if n <= 0 {
        Seq::empty()
    } else {
        declarations_of(ds, feature, n - 1) + (if ds[n - 1].feature == feature {
            seq![ds[n - 1]]
        } else {
            Seq::empty()
        })
    }
}

/// The declarations of one Feature.
pub open spec fn feature_declarations(s: SourceModel, feature: Seq<char>) -> Seq<DeclarationModel> {
    declarations_of(s.declarations, feature, s.declarations.len() as int)
}

/// Flows of the modeled Features among the first `k`, in Feature order.
pub open spec fn modeled_flows(s: SourceModel, k: int) -> Seq<FlowModel>
    decreases k,
{
    if k <= 0 {
        Seq::empty()
    } else {
        let f = s.features[k - 1];
        modeled_flows(s, k - 1) + (if feature_declarations(s, f.feature).len() > 0 {
            seq![feature_flow(feature_declarations(s, f.feature), f.feature, f.owner)]
        } else {
            Seq::empty()
        })
    }
}

/// Modeling states of the first `k` Features.
pub open spec fn modeling_states(s: SourceModel, k: int) -> Seq<FeatureStateModel>
    decreases k,
{
    if k <= 0 {
        Seq::empty()
    } else {
        let f = s.features[k - 1];
        let ds = feature_declarations(s, f.feature);
        modeling_states(s, k - 1) + seq![FeatureStateModel {
            feature: f.feature,
            owner: f.owner,
            state: if ds.len() > 0 {
                feature_flow(ds, f.feature, f.owner).state
            } else {
                BehavioralModelingState::Unmodeled
            },
        }]
    }
}

/// Violations of the modeled Features among the first `k`, before ordering.
pub open spec fn feature_violations(s: SourceModel, k: int) -> Seq<ViolationModel>
    decreases k,
{
    if k <= 0 {
        Seq::empty()
    } else {
        let f = s.features[k - 1];
        let ds = feature_declarations(s, f.feature);
        feature_violations(s, k - 1) + (if ds.len() > 0 {
            flow_violations(ds, f.feature)
        } else {
            Seq::empty()
        })
    }
}

/// A per-flow quantity summed by the summary.
pub enum FlowCount {
    Nodes,
    Edges,
    Decisions,
    Terminals,
    Crossings,
    Loops,
}

/// One per-flow quantity.
pub open spec fn flow_count(f: FlowModel, which: FlowCount) -> nat {
    match which {
        FlowCount::Nodes => f.nodes.len(),
        FlowCount::Edges => f.edges.len(),
        FlowCount::Decisions => kind_count(f.nodes, CheckpointKind::Decision),
        FlowCount::Terminals => f.terminal_checkpoints.len(),
        FlowCount::Crossings => f.module_boundary_crossings.len(),
        FlowCount::Loops => loop_count(f.strongly_connected_components),
    }
}

/// Sum of a quantity over flows.
pub open spec fn flows_sum(flows: Seq<FlowModel>, which: FlowCount) -> nat
    decreases flows.len(),
{
    if flows.len() == 0 {
        0
    } else {
        flows_sum(flows.drop_last(), which) + flow_count(flows.last(), which)
    }
}

/// Number of states equal to `state`.
pub open spec fn state_count(states: Seq<FeatureStateModel>, state: BehavioralModelingState) -> nat
    decreases states.len(),
{
    if states.len() == 0 {
        0
    } else {
        state_count(states.drop_last(), state) + (if states.last().state == state { 1nat } else { 0nat })
    }
}

/// Number of nodes of a kind.
pub open spec fn kind_count(nodes: Seq<NodeModel>, kind: CheckpointKind) -> nat
    decreases nodes.len(),
{
    if nodes.len() == 0 {
        0
    } else {
        kind_count(nodes.drop_last(), kind) + (if nodes.last().kind == kind { 1nat } else { 0nat })
    }
}

/// Number of loop components.
pub open spec fn loop_count(cs: Seq<ComponentModel>) -> nat
    decreases cs.len(),
{
    if cs.len() == 0 {
        0
    } else {
        loop_count(cs.drop_last()) + (if cs.last().is_loop { 1nat } else { 0nat })
    }
}

/// All participating Modules of the flows, in order, with repetitions.
pub open spec fn all_modules(flows: Seq<FlowModel>) -> Seq<Seq<char>>
    decreases flows.len(),
{
    if flows.len() == 0 {
        Seq::empty()
    } else {
        all_modules(flows.drop_last()) + flows.last().participating_modules
    }
}

/// The aggregate counts of a compiled project.
pub open spec fn summary_of(states: Seq<FeatureStateModel>, flows: Seq<FlowModel>) -> BfgSummaryModel {
    BfgSummaryModel {
        total_features: states.len() as usize,
        modeled_features: flows.len() as usize,
        unmodeled_features: state_count(states, BehavioralModelingState::Unmodeled) as usize,
        coherent_features: state_count(states, BehavioralModelingState::ModeledCoherent) as usize,
        incoherent_features: state_count(states, BehavioralModelingState::ModeledIncoherent) as usize,
        checkpoints: flows_sum(flows, FlowCount::Nodes) as usize,
        edges: flows_sum(flows, FlowCount::Edges) as usize,
        decisions: flows_sum(flows, FlowCount::Decisions) as usize,
        terminals: flows_sum(flows, FlowCount::Terminals) as usize,
        participant_modules: canonical_set::<String>(all_modules(flows)).len() as usize,
        boundary_crossings: flows_sum(flows, FlowCount::Crossings) as usize,
        loops: flows_sum(flows, FlowCount::Loops) as usize,
    }
}

/// Every count of the summary fits in a machine word.
pub open spec fn summary_fits(states: Seq<FeatureStateModel>, flows: Seq<FlowModel>) -> bool {
    &&& states.len() <= usize::MAX
    &&& flows_sum(flows, FlowCount::Nodes) <= usize::MAX
    &&& flows_sum(flows, FlowCount::Edges) <= usize::MAX
    &&& flows_sum(flows, FlowCount::Decisions) <= usize::MAX
    &&& flows_sum(flows, FlowCount::Terminals) <= usize::MAX
    &&& flows_sum(flows, FlowCount::Crossings) <= usize::MAX
    &&& flows_sum(flows, FlowCount::Loops) <= usize::MAX
}

proof fn lemma_declarations_of(ds: Seq<DeclarationModel>, f: Seq<char>, n: int)
    requires
        0 <= n <= ds.len(),
        strictly_sorted(checkpoint_ids(ds)),
    ensures
        forall|k: int| 0 <= k < declarations_of(ds, f, n).len() ==> exists|j: int|
            0 <= j < n && #[trigger] declarations_of(ds, f, n)[k] == ds[j] && ds[j].feature == f,
        forall|j: int| 0 <= j < n && ds[j].feature == f ==> declarations_of(ds, f, n).contains(#[trigger] ds[j]),
        strictly_sorted(checkpoint_ids(declarations_of(ds, f, n))),
        forall|k: int| 0 <= k < declarations_of(ds, f, n).len() ==> crate::text::seq_lt(
            #[trigger] declarations_of(ds, f, n)[k].checkpoint,
            ds[n].checkpoint,
        ) || n == ds.len(),
    decreases n,
{
    broadcast use vstd::seq_lib::group_seq_properties;

    if n > 0 {
        lemma_declarations_of(ds, f, n - 1);
        let a = declarations_of(ds, f, n - 1);
        let b = declarations_of(ds, f, n);
        let ids = checkpoint_ids(ds);
        assert forall|k: int| 0 <= k < b.len() implies exists|j: int| 0 <= j < n && #[trigger] b[k] == ds[j] && ds[j].feature == f by {
            if k < a.len() {
                assert(b[k] == a[k]);
            } else {
                assert(b[k] == ds[n - 1]);
            }
        }
        assert forall|j: int| 0 <= j < n && ds[j].feature == f implies b.contains(#[trigger] ds[j]) by {
            if j < n - 1 {
                assert(a.contains(ds[j]));
                let k = choose|k: int| 0 <= k < a.len() && a[k] == ds[j];
                assert(b[k] == ds[j]);
            } else {
                assert(b[b.len() - 1] == ds[j]);
            }
        }
        assert forall|k: int| 0 <= k < b.len() implies crate::text::seq_lt(#[trigger] b[k].checkpoint, ds[n].checkpoint) || n == ds.len() by {
            if n < ds.len() {
                let j = choose|j: int| 0 <= j < n && b[k] == ds[j] && ds[j].feature == f;
                assert(ids[j] == ds[j].checkpoint && ids[n] == ds[n].checkpoint);
                assert(crate::text::seq_lt(ids[j], ids[n]));
            }
        }
        let bi = checkpoint_ids(b);
        assert forall|p: int, q: int| 0 <= p < q < bi.len() implies crate::text::seq_lt(#[trigger] bi[p], #[trigger] bi[q]) by {
            if q < a.len() {
                assert(bi[p] == a[p].checkpoint && bi[q] == a[q].checkpoint);
                assert(checkpoint_ids(a)[p] == a[p].checkpoint && checkpoint_ids(a)[q] == a[q].checkpoint);
            } else {
                assert(b[q] == ds[n - 1]);
                assert(b[p] == a[p]);
                assert(crate::text::seq_lt(a[p].checkpoint, ds[n - 1].checkpoint));
            }
        }
    }
}

proof fn lemma_feature_input_wf(s: SourceModel, f: Seq<char>)
    requires
        source_wf(s),
    ensures
        flow_input_wf(feature_declarations(s, f)),
{
    let ds = s.declarations;
    let n = ds.len() as int;
    lemma_declarations_of(ds, f, n);
    let fd = feature_declarations(s, f);
    assert forall|i: int, t: int| 0 <= i < fd.len() && 0 <= t < fd[i].transitions.len() implies checkpoint_ids(fd).contains(
        #[trigger] fd[i].transitions[t].target,
    ) by {
        let j = choose|j: int| 0 <= j < n && fd[i] == ds[j] && ds[j].feature == f;
        assert(ds[j].transitions[t] == fd[i].transitions[t]);
        let m = choose|m: int| 0 <= m < ds.len() && ds[m].checkpoint == #[trigger] ds[j].transitions[t].target && ds[m].feature == ds[j].feature;
        assert(fd.contains(ds[m]));
        let k = choose|k: int| 0 <= k < fd.len() && fd[k] == ds[m];
        assert(checkpoint_ids(fd)[k] == ds[m].checkpoint);
    }
}

proof fn lemma_flows_sum_prefix(flows: Seq<FlowModel>, count: FlowCount, k: int)
    requires
        0 <= k <= flows.len(),
    ensures
        flows_sum(flows.take(k), count) <= flows_sum(flows, count),
        k < flows.len() ==> flows_sum(flows.take(k + 1), count) == flows_sum(flows.take(k), count) + flow_count(flows[k], count),
    decreases flows.len(),
{
    if k < flows.len() {
        assert(flows.take(k + 1).drop_last() =~= flows.take(k));
        assert(flows.take(k + 1).last() == flows[k]);
    }
    if flows.len() > 0 {
        if k == flows.len() {
            assert(flows.take(k) =~= flows);
        } else {
            lemma_flows_sum_prefix(flows.drop_last(), count, k);
            assert(flows.drop_last().take(k) =~= flows.take(k));
        }
    } else {
        assert(flows.take(k) =~= flows);
    }
}

/// Failure while compiling intended behavior.
#[derive(Debug)]
pub enum BehavioralSemanticsError {
    /// Root ecosystem selection required by the BFG was absent.
    MissingRootEcosystem,
}

impl BehavioralSemanticsError {
    /// Deterministic human explanation.
    pub fn message(&self) -> (r: String)
        ensures
            r@ == (match *self {
                BehavioralSemanticsError::MissingRootEcosystem => "CCG root ecosystem is absent"@,
            }),
    {
        match self {
            BehavioralSemanticsError::MissingRootEcosystem => copy_text("CCG root ecosystem is absent"),
        }
    }
}

/// Abstract value of one intended behavioral flow graph.
pub struct GraphModel {
    pub schema: Seq<char>,
    pub schema_version: u16,
    pub semantic_version: Seq<char>,
    pub view: Seq<char>,
    pub project_id: Seq<char>,
    pub standard_id: Seq<char>,
    pub standard_edition: Seq<char>,
    pub source_ccg_digest: Seq<char>,
    pub summary: BfgSummaryModel,
    pub feature_states: Seq<FeatureStateModel>,
    pub flows: Seq<FlowModel>,
    pub violations: Seq<ViolationModel>,
    pub unsupported_semantics: Seq<Seq<char>>,
}

/// Canonical deterministic Intended BFG v1 for one coherency graph.
#[derive(Clone, Debug, PartialEq, Eq)]
pub struct IntendedBehavioralFlowGraph {
    schema: &'static str,
    schema_version: u16,
    semantic_version: &'static str,
    project_id: String,
    standard_id: String,
    standard_edition: String,
    source_ccg_digest: String,
    view: &'static str,
    summary: BfgSummary,
    feature_states: Vec<FeatureModelingState>,
    flows: Vec<IntendedFeatureFlow>,
    violations: Vec<BehavioralViolation>,
    unsupported_semantics: Vec<&'static str>,
}

impl View for IntendedBehavioralFlowGraph {
    type V = GraphModel;

    closed spec fn view(&self) -> GraphModel {
        GraphModel {
            schema: self.schema@,
            schema_version: self.schema_version,
            semantic_version: self.semantic_version@,
            view: self.view@,
            project_id: self.project_id@,
            standard_id: self.standard_id@,
            standard_edition: self.standard_edition@,
            source_ccg_digest: self.source_ccg_digest@,
            summary: self.summary@,
            feature_states: views(self.feature_states@),
            flows: views(self.flows@),
            violations: views(self.violations@),
            unsupported_semantics: crate::cli::command::static_texts(self.unsupported_semantics@),
        }
    }
}

impl IntendedBehavioralFlowGraph {
    /// Returns aggregate Feature and graph counts.
    pub fn summary(&self) -> (r: BfgSummary)
        ensures
            r@ == self@.summary,
    {
        self.summary
    }

    /// Returns all Feature modeling states.
    pub fn feature_states(&self) -> (r: &[FeatureModelingState])
        ensures
            views(r@) == self@.feature_states,
    {
        self.feature_states.as_slice()
    }

    /// Returns modeled Feature flows only.
    pub fn flows(&self) -> (r: &[IntendedFeatureFlow])
        ensures
            views(r@) == self@.flows,
    {
        self.flows.as_slice()
    }

    /// Returns graph-level contradictions.
    pub fn violations(&self) -> (r: &[BehavioralViolation])
        ensures
            views(r@) == self@.violations,
    {
        self.violations.as_slice()
    }

    /// Returns explicit semantic limits.
    pub fn unsupported_semantics(&self) -> (r: &[&'static str])
        ensures
            crate::cli::command::static_texts(r@) == self@.unsupported_semantics,
    {
        self.unsupported_semantics.as_slice()
    }

    /// Returns the project identity.
    pub fn project_id(&self) -> (r: &str)
        ensures
            r@ == self@.project_id,
    {
        self.project_id.as_str()
    }

    /// Returns the digest of the source coherency graph.
    pub fn source_ccg_digest(&self) -> (r: &str)
        ensures
            r@ == self@.source_ccg_digest,
    {
        self.source_ccg_digest.as_str()
    }
}

/// The intended flow graph of a source, or the reason it cannot be compiled.
pub open spec fn bfg_of(s: SourceModel) -> Option<GraphModel> {
    match (s.project_id, s.standard_id, s.standard_edition) {
        (Some(p), Some(i), Some(e)) => {
            let states = modeling_states(s, s.features.len() as int);
            let flows = modeled_flows(s, s.features.len() as int);
            Some(GraphModel {
                schema: BFG_SCHEMA@,
                schema_version: BFG_SCHEMA_VERSION,
                semantic_version: BFG_SEMANTIC_VERSION@,
                view: "intended"@,
                project_id: p,
                standard_id: i,
                standard_edition: e,
                source_ccg_digest: s.ccg_digest,
                summary: summary_of(states, flows),
                feature_states: states,
                flows,
                violations: canonical_set::<BehavioralViolation>(feature_violations(s, s.features.len() as int)),
                unsupported_semantics: unsupported_semantics_list(),
            })
        },
        _ => None,
    }
}

fn filter_declarations(source: &BehaviorSource, feature: &str) -> (r: Vec<CheckpointDeclaration>)
    ensures
        views(r@) == feature_declarations(source@, feature@),
{
    let ds = &source.declarations;
    let mut out: Vec<CheckpointDeclaration> = Vec::new();
    let mut i: usize = 0;
    while i < ds.len()
        invariant
            i <= ds@.len(),
            views(out@) == declarations_of(views(ds@), feature@, i as int),
        decreases ds.len() - i,
    {
        assert(views(ds@)[i as int] == ds@[i as int]@);
        if text_eq(ds[i].feature(), feature) {
            let d = ds[i].duplicate();
            proof {
                crate::order::lemma_views_push_seq(out@, d);
            }
            out.push(d);
        }
        i = i + 1;
    }
    out
}

fn count_kind(flow: &IntendedFeatureFlow, kind: CheckpointKind) -> (r: usize)
    ensures
        r == kind_count(flow@.nodes, kind),
{
    let nodes = flow.nodes();
    let ghost nv = views(nodes@);
    let mut c: usize = 0;
    let mut i: usize = 0;
    while i < nodes.len()
        invariant
            nv == views(nodes@),
            nv == flow@.nodes,
            i <= nodes@.len(),
            c <= i,
            c == kind_count(nv.take(i as int), kind),
        decreases nodes.len() - i,
    {
        assert(nv.take(i + 1).drop_last() =~= nv.take(i as int));
        assert(nv.take(i + 1).last() == nodes@[i as int]@);
        if nodes[i].kind() == kind {
            c = c + 1;
        }
        i = i + 1;
    }
    assert(nv.take(nodes@.len() as int) =~= nv);
    c
}

fn count_loops(flow: &IntendedFeatureFlow) -> (r: usize)
    ensures
        r == loop_count(flow@.strongly_connected_components),
{
    let cs = flow.strongly_connected_components();
    let ghost cv = views(cs@);
    let mut c: usize = 0;
    let mut i: usize = 0;
    while i < cs.len()
        invariant
            cv == views(cs@),
            cv == flow@.strongly_connected_components,
            i <= cs@.len(),
            c <= i,
            c == loop_count(cv.take(i as int)),
        decreases cs.len() - i,
    {
        assert(cv.take(i + 1).drop_last() =~= cv.take(i as int));
        assert(cv.take(i + 1).last() == cs@[i as int]@);
        if cs[i].is_loop_flag() {
            c = c + 1;
        }
        i = i + 1;
    }
    assert(cv.take(cs@.len() as int) =~= cv);
    c
}

/// Compiles a whole project's authored behavior into one deterministic
/// intended flow graph.
#[verifier::rlimit(80)]
pub fn compile_intended_bfg(source: &BehaviorSource) -> (r: Result<IntendedBehavioralFlowGraph, BehavioralSemanticsError>)
    requires
        source_wf(source@),
        summary_fits(
            modeling_states(source@, source@.features.len() as int),
            modeled_flows(source@, source@.features.len() as int),
        ),
    ensures
        match (r, bfg_of(source@)) {
            (Ok(g), Some(m)) => g@ == m,
            (Err(BehavioralSemanticsError::MissingRootEcosystem), None) => true,
            _ => false,
        },
{
    let ghost s = source@;
    let project_id = match &source.project_id {
        Some(p) => copy_text(p.as_str()),
        None => {
            return Err(BehavioralSemanticsError::MissingRootEcosystem);
        },
    };
    let standard_id = match &source.standard_id {
        Some(p) => copy_text(p.as_str()),
        None => {
            return Err(BehavioralSemanticsError::MissingRootEcosystem);
        },
    };
    let standard_edition = match &source.standard_edition {
        Some(p) => copy_text(p.as_str()),
        None => {
            return Err(BehavioralSemanticsError::MissingRootEcosystem);
        },
    };
    let features = &source.features;
    let ghost fv = views(features@);
    let mut states: Vec<FeatureModelingState> = Vec::new();
    let mut flows: Vec<IntendedFeatureFlow> = Vec::new();
    let mut violations: Vec<BehavioralViolation> = Vec::new();
    let mut k: usize = 0;
    while k < features.len()
        invariant
            s == source@,
            source_wf(s),
            fv == views(features@),
            fv == s.features,
            k <= features@.len(),
            views(states@) == modeling_states(s, k as int),
            views(flows@) == modeled_flows(s, k as int),
            views(violations@) == feature_violations(s, k as int),
        decreases features.len() - k,
    {
        let f = &features[k];
        assert(fv[k as int] == f@);
        let ds = filter_declarations(source, f.feature.as_str());
        let state = if ds.len() > 0 {
            proof {
                lemma_feature_input_wf(s, f@.feature);
            }
            assert(views(ds@).len() == ds@.len());
            assert(ds@.len() <= s.declarations.len()) by {
                lemma_declarations_length(s.declarations, f@.feature, s.declarations.len() as int);
            }
            let (flow, mut flow_violations) = compile_feature_flow(f.feature.as_str(), f.owner.as_str(), ds.as_slice());
            let state = flow.state();
            proof {
                crate::order::lemma_views_push_seq(flows@, flow);
            }
            flows.push(flow);
            let ghost old = views(violations@);
            let ghost added = views(flow_violations@);
            violations.append(&mut flow_violations);
            assert(views(violations@) =~= old + added);
            state
        } else {
            assert(views(flows@) =~= modeled_flows(s, k + 1));
            assert(views(violations@) =~= feature_violations(s, k + 1));
            BehavioralModelingState::Unmodeled
        };
        let record = FeatureModelingState::build(copy_text(f.feature.as_str()), copy_text(f.owner.as_str()), state);
        proof {
            crate::order::lemma_views_push_seq(states@, record);
        }
        states.push(record);
        assert(views(states@) =~= modeling_states(s, k + 1));
        k = k + 1;
    }
    let violations = canonical_set_exec(violations);
    let summary = summarize(&states, &flows);
    let graph = IntendedBehavioralFlowGraph {
        schema: BFG_SCHEMA,
        schema_version: BFG_SCHEMA_VERSION,
        semantic_version: BFG_SEMANTIC_VERSION,
        project_id,
        standard_id,
        standard_edition,
        source_ccg_digest: copy_text(source.ccg_digest.as_str()),
        view: "intended",
        summary,
        feature_states: states,
        flows,
        violations,
        unsupported_semantics: bfg_unsupported_semantics(),
    };
    Ok(graph)
}

proof fn lemma_declarations_length(ds: Seq<DeclarationModel>, f: Seq<char>, n: int)
    requires
        0 <= n <= ds.len(),
    ensures
        declarations_of(ds, f, n).len() <= n,
    decreases n,
{
    if n > 0 {
        lemma_declarations_length(ds, f, n - 1);
    }
}

fn summarize(states: &Vec<FeatureModelingState>, flows: &Vec<IntendedFeatureFlow>) -> (r: BfgSummary)
    requires
        summary_fits(views(states@), views(flows@)),
    ensures
        r@ == summary_of(views(states@), views(flows@)),
{
    let ghost sv = views(states@);
    let ghost fv = views(flows@);
    let mut unmodeled: usize = 0;
    let mut coherent: usize = 0;
    let mut incoherent: usize = 0;
    let mut i: usize = 0;
    while i < states.len()
        invariant
            sv == views(states@),
            i <= states@.len(),
            unmodeled <= i && coherent <= i && incoherent <= i,
            unmodeled == state_count(sv.take(i as int), BehavioralModelingState::Unmodeled),
            coherent == state_count(sv.take(i as int), BehavioralModelingState::ModeledCoherent),
            incoherent == state_count(sv.take(i as int), BehavioralModelingState::ModeledIncoherent),
        decreases states.len() - i,
    {
        assert(sv.take(i + 1).drop_last() =~= sv.take(i as int));
        assert(sv.take(i + 1).last() == states@[i as int]@);
        let st = states[i].state();
        if st == BehavioralModelingState::Unmodeled {
            unmodeled = unmodeled + 1;
        } else if st == BehavioralModelingState::ModeledCoherent {
            coherent = coherent + 1;
        } else {
            incoherent = incoherent + 1;
        }
        i = i + 1;
    }
    assert(sv.take(states@.len() as int) =~= sv);
    let mut checkpoints: usize = 0;
    let mut edges: usize = 0;
    let mut decisions: usize = 0;
    let mut terminals: usize = 0;
    let mut crossings: usize = 0;
    let mut loops: usize = 0;
    let mut modules: Vec<String> = Vec::new();
    let mut j: usize = 0;
    while j < flows.len()
        invariant
            fv == views(flows@),
            summary_fits(sv, fv),
            j <= flows@.len(),
            checkpoints == flows_sum(fv.take(j as int), FlowCount::Nodes),
            edges == flows_sum(fv.take(j as int), FlowCount::Edges),
            decisions == flows_sum(fv.take(j as int), FlowCount::Decisions),
            terminals == flows_sum(fv.take(j as int), FlowCount::Terminals),
            crossings == flows_sum(fv.take(j as int), FlowCount::Crossings),
            loops == flows_sum(fv.take(j as int), FlowCount::Loops),
            views(modules@) == all_modules(fv.take(j as int)),
        decreases flows.len() - j,
    {
        let flow = &flows[j];
        assert(fv[j as int] == flow@);
        proof {
            lemma_flows_sum_prefix(fv, FlowCount::Nodes, j + 1);
            lemma_flows_sum_prefix(fv, FlowCount::Nodes, j as int);
            lemma_flows_sum_prefix(fv, FlowCount::Edges, j + 1);
            lemma_flows_sum_prefix(fv, FlowCount::Edges, j as int);
            lemma_flows_sum_prefix(fv, FlowCount::Decisions, j + 1);
            lemma_flows_sum_prefix(fv, FlowCount::Decisions, j as int);
            lemma_flows_sum_prefix(fv, FlowCount::Terminals, j + 1);
            lemma_flows_sum_prefix(fv, FlowCount::Terminals, j as int);
            lemma_flows_sum_prefix(fv, FlowCount::Crossings, j + 1);
            lemma_flows_sum_prefix(fv, FlowCount::Crossings, j as int);
            lemma_flows_sum_prefix(fv, FlowCount::Loops, j + 1);
            lemma_flows_sum_prefix(fv, FlowCount::Loops, j as int);
        }
        checkpoints = checkpoints + flow.nodes().len();
        edges = edges + flow.edges().len();
        decisions = decisions + count_kind(flow, CheckpointKind::Decision);
        terminals = terminals + flow.terminal_checkpoints().len();
        crossings = crossings + flow.module_boundary_crossings().len();
        loops = loops + count_loops(flow);
        let participating = flow.participating_modules();
        let mut m: usize = 0;
        let ghost before = views(modules@);
        while m < participating.len()
            invariant
                m <= participating@.len(),
                views(modules@) == before + texts(participating@).take(m as int),
            decreases participating.len() - m,
        {
            let ghost old = views(modules@);
            modules.push(copy_text(participating[m].as_str()));
            assert(views(modules@) =~= old.push(participating@[m as int]@));
            assert(texts(participating@).take(m + 1) =~= texts(participating@).take(m as int).push(participating@[m as int]@));
            m = m + 1;
        }
        assert(texts(participating@).take(participating@.len() as int) =~= texts(participating@));
        assert(fv.take(j + 1).drop_last() =~= fv.take(j as int));
        assert(fv.take(j + 1).last() == flow@);
        j = j + 1;
    }
    assert(fv.take(flows@.len() as int) =~= fv);
    let participants = canonical_set_exec(modules);
    assert(views(participants@).len() == participants@.len());
    BfgSummary::build(BfgSummaryModel {
        total_features: states.len(),
        modeled_features: flows.len(),
        unmodeled_features: unmodeled,
        coherent_features: coherent,
        incoherent_features: incoherent,
        checkpoints,
        edges,
        decisions,
        terminals,
        participant_modules: participants.len(),
        boundary_crossings: crossings,
        loops,
    })
}


/// Counts of the modeling states of the first `k` Features.
proof fn lemma_modeling_counts(s: SourceModel, k: int)
    requires
        0 <= k <= s.features.len(),
    ensures
        modeling_states(s, k).len() == k,
        state_count(modeling_states(s, k), BehavioralModelingState::Unmodeled) + modeled_flows(s, k).len() == k,
        state_count(modeling_states(s, k), BehavioralModelingState::ModeledCoherent) + state_count(
            modeling_states(s, k),
            BehavioralModelingState::ModeledIncoherent,
        ) == modeled_flows(s, k).len(),
    decreases k,
{
    if k > 0 {
        lemma_modeling_counts(s, k - 1);
        let st = modeling_states(s, k);
        assert(st.drop_last() =~= modeling_states(s, k - 1));
    }
}

/// The summary of an Intended BFG accounts for every Feature: each is
/// modeled or unmodeled, each modeled Feature has exactly one flow, and each
/// flow is coherent or incoherent; the violations are in strict canonical
/// order.
pub proof fn lemma_intended_summary_sums(s: SourceModel)
    requires
        bfg_of(s) is Some,
        summary_fits(modeling_states(s, s.features.len() as int), modeled_flows(s, s.features.len() as int)),
    ensures
        ({
            let g = bfg_of(s)->0;
            &&& g.summary.total_features == g.feature_states.len()
            &&& g.feature_states.len() == s.features.len()
            &&& g.summary.modeled_features == g.flows.len()
            &&& g.summary.total_features == g.summary.modeled_features + g.summary.unmodeled_features
            &&& g.summary.modeled_features == g.summary.coherent_features + g.summary.incoherent_features
            &&& crate::order::is_strictly_canonical::<BehavioralViolation>(g.violations)
        }),
{
    lemma_modeling_counts(s, s.features.len() as int);
    crate::order::lemma_canonical_set::<BehavioralViolation>(feature_violations(s, s.features.len() as int));
}

proof fn lemma_modeled_flows_shape(s: SourceModel, k: int)
    requires
        0 <= k <= s.features.len(),
    ensures
        forall|i: int|
            0 <= i < modeled_flows(s, k).len() ==> {
                let fl = #[trigger] modeled_flows(s, k)[i];
                &&& feature_declarations(s, fl.feature).len() > 0
                &&& fl == feature_flow(feature_declarations(s, fl.feature), fl.feature, fl.owner)
                &&& forall|v: ViolationModel|
                    #[trigger] flow_violations(feature_declarations(s, fl.feature), fl.feature).contains(v)
                        ==> feature_violations(s, k).contains(v)
            },
    decreases k,
{
    if k > 0 {
        lemma_modeled_flows_shape(s, k - 1);
        let prev = modeled_flows(s, k - 1);
        let cur = modeled_flows(s, k);
        let f = s.features[k - 1];
        let ds = feature_declarations(s, f.feature);
        let added = if ds.len() > 0 { flow_violations(ds, f.feature) } else { Seq::<ViolationModel>::empty() };
        assert(feature_violations(s, k) == feature_violations(s, k - 1) + added);
        assert forall|i: int| 0 <= i < cur.len() implies {
            let fl = #[trigger] cur[i];
            &&& feature_declarations(s, fl.feature).len() > 0
            &&& fl == feature_flow(feature_declarations(s, fl.feature), fl.feature, fl.owner)
            &&& forall|v: ViolationModel|
                #[trigger] flow_violations(feature_declarations(s, fl.feature), fl.feature).contains(v)
                    ==> feature_violations(s, k).contains(v)
        } by {
            let fl = cur[i];
            if i < prev.len() {
                assert(fl == prev[i]);
                assert forall|v: ViolationModel|
                    #[trigger] flow_violations(feature_declarations(s, fl.feature), fl.feature).contains(v)
                        implies feature_violations(s, k).contains(v) by {
                    let w = feature_violations(s, k - 1);
                    assert(w.contains(v));
                    let j = choose|j: int| 0 <= j < w.len() && w[j] == v;
                    assert(feature_violations(s, k)[j] == v);
                }
            } else {
                assert(ds.len() > 0);
                assert(fl == feature_flow(ds, f.feature, f.owner));
                assert forall|v: ViolationModel|
                    #[trigger] flow_violations(feature_declarations(s, fl.feature), fl.feature).contains(v)
                        implies feature_violations(s, k).contains(v) by {
                    let j = choose|j: int| 0 <= j < added.len() && added[j] == v;
                    assert(feature_violations(s, k)[feature_violations(s, k - 1).len() + j] == v);
                }
            }
        }
    }
}

proof fn lemma_feature_violations_origin(s: SourceModel, k: int)
    requires
        0 <= k <= s.features.len(),
    ensures
        forall|v: ViolationModel|
            #[trigger] feature_violations(s, k).contains(v) ==> flow_violations(
                feature_declarations(s, v.feature),
                v.feature,
            ).contains(v),
    decreases k,
{
    if k > 0 {
        lemma_feature_violations_origin(s, k - 1);
        let f = s.features[k - 1];
        let ds = feature_declarations(s, f.feature);
        let added = if ds.len() > 0 { flow_violations(ds, f.feature) } else { Seq::<ViolationModel>::empty() };
        assert(feature_violations(s, k) == feature_violations(s, k - 1) + added);
        super::analysis::lemma_flow_violations_feature(ds, f.feature);
        assert forall|v: ViolationModel| #[trigger] feature_violations(s, k).contains(v) implies flow_violations(
            feature_declarations(s, v.feature),
            v.feature,
        ).contains(v) by {
            let all = feature_violations(s, k);
            let j = choose|j: int| 0 <= j < all.len() && all[j] == v;
            let w = feature_violations(s, k - 1);
            if j < w.len() {
                assert(w[j] == v);
                assert(w.contains(v));
            } else {
                assert(added[j - w.len()] == v);
                assert(added.contains(v));
                assert(v.feature == f.feature);
            }
        }
    }
}

/// A modeled Feature's flow is coherent exactly when no violation of the
/// Intended BFG names its Feature.
pub proof fn lemma_coherent_iff_no_violation(s: SourceModel)
    requires
        bfg_of(s) is Some,
    ensures
        ({
            let g = bfg_of(s)->0;
            forall|i: int|
                0 <= i < g.flows.len() ==> ((#[trigger] g.flows[i]).state == BehavioralModelingState::ModeledCoherent
                    <==> !exists|j: int| 0 <= j < g.violations.len() && g.violations[j].feature == g.flows[i].feature)
        }),
{
    let g = bfg_of(s)->0;
    let n = s.features.len() as int;
    let all = feature_violations(s, n);
    lemma_modeled_flows_shape(s, n);
    lemma_feature_violations_origin(s, n);
    crate::order::lemma_canonical_set::<BehavioralViolation>(all);
    assert(g.flows == modeled_flows(s, n));
    assert(g.violations == canonical_set::<BehavioralViolation>(all));
    assert forall|i: int| 0 <= i < g.flows.len() implies ((#[trigger] g.flows[i]).state
        == BehavioralModelingState::ModeledCoherent <==> !exists|j: int|
        0 <= j < g.violations.len() && g.violations[j].feature == g.flows[i].feature) by {
        let fl = g.flows[i];
        let ds = feature_declarations(s, fl.feature);
        let own = flow_violations(ds, fl.feature);
        super::analysis::lemma_flow_violations_feature(ds, fl.feature);
        if own.len() == 0 {
            assert(fl.state == BehavioralModelingState::ModeledCoherent);
            if exists|j: int| 0 <= j < g.violations.len() && g.violations[j].feature == fl.feature {
                let j = choose|j: int| 0 <= j < g.violations.len() && g.violations[j].feature == fl.feature;
                let v = g.violations[j];
                assert(g.violations.contains(v));
                assert(all.contains(v));
                assert(own.contains(v));
            }
        } else {
            assert(fl.state == BehavioralModelingState::ModeledIncoherent);
            let v = own[0];
            assert(own.contains(v));
            assert(all.contains(v));
            assert(g.violations.contains(v));
            let j = choose|j: int| 0 <= j < g.violations.len() && g.violations[j] == v;
            assert(g.violations[j].feature == fl.feature);
        }
    }
}

// ---------------------------------------------------------------------------
// Canonical JSON.

/// The JSON document of an Intended BFG: every field, in declaration order.
pub open spec fn graph_document(g: GraphModel) -> JsonModel {
    JsonModel::Object(
        seq![
            ("$schema"@, JsonModel::Text(g.schema)),
            ("schema_version"@, JsonModel::Number(g.schema_version as nat)),
            ("semantic_version"@, JsonModel::Text(g.semantic_version)),
            ("project_id"@, JsonModel::Text(g.project_id)),
            (
                "standard"@,
                JsonModel::Object(
                    seq![("id"@, JsonModel::Text(g.standard_id)), ("edition"@, JsonModel::Text(g.standard_edition))],
                ),
            ),
            ("source_ccg_digest"@, JsonModel::Text(g.source_ccg_digest)),
            ("view"@, JsonModel::Text(g.view)),
            ("summary"@, bfg_summary_document(g.summary)),
            (
                "feature_states"@,
                JsonModel::Array(g.feature_states.map_values(|f: FeatureStateModel| feature_state_document(f))),
            ),
            ("flows"@, JsonModel::Array(g.flows.map_values(|f: FlowModel| flow_document(f)))),
            ("violations"@, JsonModel::Array(g.violations.map_values(|v: ViolationModel| violation_document(v)))),
            ("unsupported_semantics"@, JsonModel::Array(text_values(g.unsupported_semantics))),
        ],
    )
}

impl IntendedBehavioralFlowGraph {
    /// The graph as a JSON document.
    pub fn to_json(&self) -> (r: Json)
        ensures
            r@ == graph_document(self@),
    {
        let mut unsupported: Vec<Json> = Vec::new();
        let mut i: usize = 0;
        while i < self.unsupported_semantics.len()
            invariant
                i <= self.unsupported_semantics@.len(),
                unsupported@.len() == i,
                forall|k: int|
                    0 <= k < i ==> #[trigger] json_model(unsupported@[k]) == JsonModel::Text(
                        self.unsupported_semantics@[k]@,
                    ),
            decreases self.unsupported_semantics.len() - i,
        {
            unsupported.push(text(self.unsupported_semantics[i]));
            i = i + 1;
        }
        proof {
            lemma_json_models(unsupported@);
            assert(json_models(unsupported@) =~= text_values(
                crate::cli::command::static_texts(self.unsupported_semantics@),
            ));
        }
        let standard = vec![
            (String::from_str("id"), text(self.standard_id.as_str())),
            (String::from_str("edition"), text(self.standard_edition.as_str())),
        ];
        proof {
            lemma_member_models(standard@);
            assert(member_models(standard@) =~= seq![
                ("id"@, JsonModel::Text(self.standard_id@)),
                ("edition"@, JsonModel::Text(self.standard_edition@)),
            ]);
        }
        let members = vec![
            (String::from_str("$schema"), text(self.schema)),
            (String::from_str("schema_version"), Json::Number(self.schema_version as u64)),
            (String::from_str("semantic_version"), text(self.semantic_version)),
            (String::from_str("project_id"), text(self.project_id.as_str())),
            (String::from_str("standard"), Json::Object(standard)),
            (String::from_str("source_ccg_digest"), text(self.source_ccg_digest.as_str())),
            (String::from_str("view"), text(self.view)),
            (String::from_str("summary"), self.summary.to_json()),
            (String::from_str("feature_states"), documents(self.feature_states.as_slice())),
            (String::from_str("flows"), documents(self.flows.as_slice())),
            (String::from_str("violations"), documents(self.violations.as_slice())),
            (String::from_str("unsupported_semantics"), Json::Array(unsupported)),
        ];
        proof {
            lemma_member_models(members@);
            let g = self@;
            assert(g.feature_states.map_values(|v: FeatureStateModel| FeatureModelingState::document(v))
                =~= g.feature_states.map_values(|f: FeatureStateModel| feature_state_document(f)));
            assert(g.flows.map_values(|v: FlowModel| IntendedFeatureFlow::document(v)) =~= g.flows.map_values(
                |f: FlowModel| flow_document(f),
            ));
            assert(g.violations.map_values(|v: ViolationModel| BehavioralViolation::document(v))
                =~= g.violations.map_values(|v: ViolationModel| violation_document(v)));
            assert(member_models(members@) =~= seq![
                ("$schema"@, JsonModel::Text(g.schema)),
                ("schema_version"@, JsonModel::Number(g.schema_version as nat)),
                ("semantic_version"@, JsonModel::Text(g.semantic_version)),
                ("project_id"@, JsonModel::Text(g.project_id)),
                (
                    "standard"@,
                    JsonModel::Object(
                        seq![("id"@, JsonModel::Text(g.standard_id)), ("edition"@, JsonModel::Text(g.standard_edition))],
                    ),
                ),
                ("source_ccg_digest"@, JsonModel::Text(g.source_ccg_digest)),
                ("view"@, JsonModel::Text(g.view)),
                ("summary"@, bfg_summary_document(g.summary)),
                (
                    "feature_states"@,
                    JsonModel::Array(g.feature_states.map_values(|f: FeatureStateModel| feature_state_document(f))),
                ),
                ("flows"@, JsonModel::Array(g.flows.map_values(|f: FlowModel| flow_document(f)))),
                ("violations"@, JsonModel::Array(g.violations.map_values(|v: ViolationModel| violation_document(v)))),
                ("unsupported_semantics"@, JsonModel::Array(text_values(g.unsupported_semantics))),
            ]);
        }
        Json::Object(members)
    }

    /// Serializes deterministic two-space JSON with one trailing line feed.
    pub fn to_canonical_json(&self) -> (r: String)
        ensures
            r@ == pretty_document(graph_document(self@)),
    {
        let document = self.to_json();
        render_pretty_document(&document)
    }

    /// The SHA-256 identity of the canonical bytes.
    pub fn digest(&self) -> (r: String)
        ensures
            r@ == crate::codec::sha256_identity_of(vstd::utf8::encode_utf8(pretty_document(graph_document(self@)))),
            crate::codec::is_lower_sha256_identity(r@),
    {
        let canonical = self.to_canonical_json();
        crate::codec::sha256_text(canonical.as_str())
    }
}

// ---------------------------------------------------------------------------
// Rule evaluation.

/// Remediation of the modeled-flow rule.
pub const BEHAVIOR_FLOW_REMEDIATION: &'static str = "Correct the authored Contract v2 checkpoints so each modeled Feature has one trigger, terminal-reaching branches, no dead flow region, and coherent distributed ownership.";

/// Abstract value of one modeled-flow finding.
pub struct FlowFindingModel {
    pub rule_id: Seq<char>,
    pub feature: Seq<char>,
    pub path: Option<Seq<char>>,
    pub message: Seq<char>,
    pub remediation: Seq<char>,
    pub standard_edition: Seq<char>,
}

/// One modeled-flow contradiction reported as a finding of the rule.
#[derive(Debug)]
pub struct BehaviorFlowFinding {
    rule_id: String,
    feature: String,
    path: Option<String>,
    message: String,
    remediation: String,
    standard_edition: String,
}

impl View for BehaviorFlowFinding {
    type V = FlowFindingModel;

    closed spec fn view(&self) -> FlowFindingModel {
        FlowFindingModel {
            rule_id: self.rule_id@,
            feature: self.feature@,
            path: super::model::optional_view(self.path),
            message: self.message@,
            remediation: self.remediation@,
            standard_edition: self.standard_edition@,
        }
    }
}

impl BehaviorFlowFinding {
    /// Returns the rule identity.
    pub fn rule_id(&self) -> (r: &str)
        ensures
            r@ == self@.rule_id,
    {
        self.rule_id.as_str()
    }

    /// Returns the Feature the finding is about.
    pub fn feature(&self) -> (r: &str)
        ensures
            r@ == self@.feature,
    {
        self.feature.as_str()
    }

    /// Returns the contract file of the first provenance record, when known.
    pub fn path(&self) -> (r: Option<&str>)
        ensures
            match r {
                Some(t) => self@.path == Some(t@),
                None => self@.path is None,
            },
    {
        match &self.path {
            Some(t) => Some(t.as_str()),
            None => None,
        }
    }

    /// Returns the explanation: the violation code and message.
    pub fn message(&self) -> (r: &str)
        ensures
            r@ == self@.message,
    {
        self.message.as_str()
    }

    /// Returns the remediation of the rule.
    pub fn remediation(&self) -> (r: &str)
        ensures
            r@ == self@.remediation,
    {
        self.remediation.as_str()
    }

    /// Returns the standard edition the finding was evaluated under.
    pub fn standard_edition(&self) -> (r: &str)
        ensures
            r@ == self@.standard_edition,
    {
        self.standard_edition.as_str()
    }
}

/// The finding of one violation.
pub open spec fn flow_finding(v: ViolationModel, standard_edition: Seq<char>) -> FlowFindingModel {
    FlowFindingModel {
        rule_id: BEHAVIOR_FLOW_RULE_ID@,
        feature: v.feature,
        path: if v.provenance.len() > 0 {
            Some(v.provenance[0].path)
        } else {
            None
        },
        message: v.code + ": "@ + v.message,
        remediation: BEHAVIOR_FLOW_REMEDIATION@,
        standard_edition,
    }
}

/// Abstract value of an evaluation.
pub struct SemanticsEvaluationModel {
    pub graph: GraphModel,
    pub findings: Seq<FlowFindingModel>,
}

/// The Intended BFG together with one finding per modeled-flow violation.
#[derive(Debug)]
pub struct BehavioralSemanticsEvaluation {
    graph: IntendedBehavioralFlowGraph,
    findings: Vec<BehaviorFlowFinding>,
}

impl View for BehavioralSemanticsEvaluation {
    type V = SemanticsEvaluationModel;

    closed spec fn view(&self) -> SemanticsEvaluationModel {
        SemanticsEvaluationModel { graph: self.graph@, findings: views(self.findings@) }
    }
}

impl BehavioralSemanticsEvaluation {
    /// Returns the compiled Intended BFG.
    pub fn graph(&self) -> (r: &IntendedBehavioralFlowGraph)
        ensures
            r@ == self@.graph,
    {
        &self.graph
    }

    /// Returns one finding per modeled-flow contradiction.
    pub fn findings(&self) -> (r: &[BehaviorFlowFinding])
        ensures
            views(r@) == self@.findings,
    {
        self.findings.as_slice()
    }
}

fn flow_finding_exec(v: &BehavioralViolation, standard_edition: &str) -> (r: BehaviorFlowFinding)
    ensures
        r@ == flow_finding(v@, standard_edition@),
{
    let provenance = v.provenance();
    let path = if provenance.len() > 0 {
        Some(copy_text(provenance[0].path()))
    } else {
        None
    };
    let head = crate::text::concat(v.code(), ": ");
    let message = crate::text::concat(head.as_str(), v.message());
    BehaviorFlowFinding {
        rule_id: copy_text(BEHAVIOR_FLOW_RULE_ID),
        feature: copy_text(v.feature()),
        path,
        message,
        remediation: copy_text(BEHAVIOR_FLOW_REMEDIATION),
        standard_edition: copy_text(standard_edition),
    }
}

/// Compiles the Intended BFG and reports each of its violations as a finding
/// of the modeled-flow rule, in violation order.
pub fn evaluate_behavioral_semantics(source: &BehaviorSource, standard_edition: &str) -> (r: Result<
    BehavioralSemanticsEvaluation,
    BehavioralSemanticsError,
>)
    requires
        source_wf(source@),
        summary_fits(
            modeling_states(source@, source@.features.len() as int),
            modeled_flows(source@, source@.features.len() as int),
        ),
    ensures
        match (r, bfg_of(source@)) {
            (Ok(e), Some(m)) => e@.graph == m && e@.findings == m.violations.map_values(
                |v: ViolationModel| flow_finding(v, standard_edition@),
            ),
            (Err(BehavioralSemanticsError::MissingRootEcosystem), None) => true,
            _ => false,
        },
{
    let graph = match compile_intended_bfg(source) {
        Ok(g) => g,
        Err(e) => return Err(e),
    };
    let violations = graph.violations();
    let mut findings: Vec<BehaviorFlowFinding> = Vec::new();
    let mut i: usize = 0;
    while i < violations.len()
        invariant
            i <= violations@.len(),
            findings@.len() == i,
            forall|k: int| 0 <= k < i ==> #[trigger] findings@[k]@ == flow_finding(violations@[k]@, standard_edition@),
        decreases violations.len() - i,
    {
        findings.push(flow_finding_exec(&violations[i], standard_edition));
        i = i + 1;
    }
    assert(views(findings@) =~= views(violations@).map_values(|v: ViolationModel| flow_finding(v, standard_edition@)));
    Ok(BehavioralSemanticsEvaluation { graph, findings })
}

} // verus!
