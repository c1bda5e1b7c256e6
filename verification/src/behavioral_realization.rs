//! Coverage-aware reconciliation of Intended BFG checkpoints with
//! implementation semantics.
//!
//! Each opted-in checkpoint is projected onto the implementation events its
//! anchors denote; intended transitions are reconciled with supported paths
//! between those events, and every route that reaches a checkpoint while
//! avoiding one of its intended dominators is a bypass.

pub mod contract;
pub mod events;
pub mod derive;
pub mod loader;

use vstd::prelude::*;

use crate::behavior::model::optional_view;
use crate::order::{
    canonical_set, canonical_set_exec, group_views, groups_le, groups_le_exec, lemma_canonical_set,
    lemma_groups_le_antisymmetric, lemma_groups_le_reflexive, lemma_groups_le_total, lemma_groups_le_transitive,
    rank_field, rank_field_exec, single, single_exec, texts_exec, views, CanonicalOrder, TotalOrder,
};
use crate::text::{concat, copy_text, copy_texts, join, join_texts, text_eq, texts, texts_contain};
use self::contract::{anchor_event, anchor_kind, resolve_anchor_event, BooleanDomain, DomainModel, ResolvedCheckpointRealization, ResolvedModel};
use crate::json::{
    json_model, json_models, lemma_json_models, lemma_member_models, member_models, pretty_document,
    render_pretty_document, text, text_array, text_values, Json, JsonModel,
};
use self::events::{
    combined, connected, connects, coverage_name, coverage_name_exec, coverage_rank, edge_document, event_document,
    supported_path, worst, EventEdgeModel, EventModel,
    ImplementationEvent, ImplementationEventEdge, RealizationCoverage,
};

verus! {

/// Canonical Realized BFG schema identity.
pub const REALIZED_BFG_SCHEMA: &'static str = "urn:fortress:schema:v1:realized-behavioral-flow-graph";

/// Canonical Realized BFG schema version.
pub const REALIZED_BFG_SCHEMA_VERSION: u16 = 1;

/// Behavioral Realization semantic analyzer version.
pub const BEHAVIORAL_REALIZATION_VERSION: &'static str = "1.0.0";

/// Stable analyzer identity.
pub const BEHAVIORAL_REALIZATION_ANALYZER_ID: &'static str = "fortress-behavioral-realization";

/// Opted-in realization coherency rule identity.
pub const BEHAVIOR_REALIZATION_RULE_ID: &'static str = "BEHAVIOR-REALIZATION-001";

/// Intended-dominator bypass rule identity.
pub const BEHAVIOR_BYPASS_RULE_ID: &'static str = "BEHAVIOR-BYPASS-001";

/// Supported event reachability conclusion.
#[derive(Clone, Copy, Debug, PartialEq, Eq, Structural)]
pub enum EventReachability {
    /// At least one supported path exists.
    ProvenReachable,
    /// Supported graph semantics prove no path exists.
    ProvenUnreachable,
    /// Opaque semantics prevent a conclusion.
    Unknown,
    /// The requested semantic class is outside the supported semantics.
    Unsupported,
}

/// One checkpoint's implementation realization state.
#[derive(Clone, Copy, Debug, PartialEq, Eq, Structural)]
pub enum CheckpointRealizationState {
    /// At least one exact anchor is reachable under supported semantics.
    Realized,
    /// Some alternatives are exact while others remain uncertain.
    PartiallyRealized,
    /// Every anchor is proven unreachable.
    Unreachable,
    /// Coverage prevents a sound conclusion.
    Unknown,
    /// Supported semantics contradict intended placement.
    Contradicted,
}

/// Aggregate Feature behavioral realization state.
#[derive(Clone, Copy, Debug, PartialEq, Eq, Structural)]
pub enum FeatureRealizationState {
    /// The Feature has no Intended BFG.
    Unmodeled,
    /// Intended behavior exists but no realization contract opts in.
    ModeledUnrealized,
    /// Opted-in realization remains incomplete under current coverage.
    RealizationPartial,
    /// All supported reconciliation facts agree with intended behavior.
    RealizedCoherent,
    /// Supported semantics contradict intended behavior.
    RealizedContradicted,
}

/// Intended/realized transition reconciliation state.
#[derive(Clone, Copy, Debug, PartialEq, Eq, Structural)]
pub enum EdgeReconciliationState {
    /// Authored transition has a supported implementation-semantic path.
    IntendedAndRealized,
    /// Intent exists but current semantics cannot prove a path.
    IntendedUnproven,
    /// Supported next-checkpoint behavior is absent from intent.
    RealizedUndeclared,
    /// Supported semantics prove the authored transition impossible.
    IntendedProvenImpossible,
}

/// The rank of a checkpoint state in canonical order.
pub open spec fn checkpoint_state_rank(s: CheckpointRealizationState) -> nat {
    match s {
        CheckpointRealizationState::Realized => 0,
        CheckpointRealizationState::PartiallyRealized => 1,
        CheckpointRealizationState::Unreachable => 2,
        CheckpointRealizationState::Unknown => 3,
        CheckpointRealizationState::Contradicted => 4,
    }
}

/// The rank of a transition state in canonical order.
pub open spec fn edge_state_rank(s: EdgeReconciliationState) -> nat {
    match s {
        EdgeReconciliationState::IntendedAndRealized => 0,
        EdgeReconciliationState::IntendedUnproven => 1,
        EdgeReconciliationState::RealizedUndeclared => 2,
        EdgeReconciliationState::IntendedProvenImpossible => 3,
    }
}

fn coverage_rank_exec(c: RealizationCoverage) -> (r: u8)
    ensures
        r == coverage_rank(c),
{
    match c {
        RealizationCoverage::Proven => 0,
        RealizationCoverage::Partial => 1,
        RealizationCoverage::Unknown => 2,
        RealizationCoverage::Unsupported => 3,
    }
}

fn rank_group(r: u8) -> (g: Vec<Vec<char>>)
    ensures
        g@.map_values(|x: Vec<char>| x@) == single(rank_field(r as nat)),
{
    let mut g: Vec<Vec<char>> = Vec::new();
    g.push(rank_field_exec(r));
    assert(g@.map_values(|x: Vec<char>| x@) =~= single(rank_field(r as nat)));
    g
}

proof fn lemma_rank_field_len(n: nat)
    ensures
        rank_field(n).len() == n,
{
}

/// Abstract value of one realized checkpoint.
pub struct CheckpointModel {
    pub checkpoint: Seq<char>,
    pub state: CheckpointRealizationState,
    pub anchor_events: Seq<Seq<char>>,
    pub anchor_kinds: Seq<Seq<char>>,
    pub coverage: RealizationCoverage,
    pub provenance: Seq<Seq<char>>,
}

/// One checkpoint projected onto its alternative implementation events.
#[derive(Debug)]
pub struct RealizedCheckpoint {
    checkpoint: String,
    state: CheckpointRealizationState,
    anchor_events: Vec<String>,
    anchor_kinds: Vec<String>,
    coverage: RealizationCoverage,
    provenance: Vec<String>,
}

impl View for RealizedCheckpoint {
    type V = CheckpointModel;

    closed spec fn view(&self) -> CheckpointModel {
        CheckpointModel {
            checkpoint: self.checkpoint@,
            state: self.state,
            anchor_events: texts(self.anchor_events@),
            anchor_kinds: texts(self.anchor_kinds@),
            coverage: self.coverage,
            provenance: texts(self.provenance@),
        }
    }
}

impl RealizedCheckpoint {
    /// Returns the checkpoint identity.
    pub fn checkpoint(&self) -> (r: &str)
        ensures
            r@ == self@.checkpoint,
    {
        self.checkpoint.as_str()
    }

    /// Returns the realization state.
    pub fn state(&self) -> (r: CheckpointRealizationState)
        ensures
            r == self@.state,
    {
        self.state
    }

    /// Returns the exact implementation events of the anchors.
    pub fn anchor_events(&self) -> (r: &[String])
        ensures
            texts(r@) == self@.anchor_events,
    {
        self.anchor_events.as_slice()
    }

    /// Returns the anchor kinds.
    pub fn anchor_kinds(&self) -> (r: &[String])
        ensures
            texts(r@) == self@.anchor_kinds,
    {
        self.anchor_kinds.as_slice()
    }
}

/// The order fields of a realized checkpoint.
pub open spec fn checkpoint_groups(c: CheckpointModel) -> Seq<Seq<Seq<char>>> {
    seq![
        single(c.checkpoint),
        single(rank_field(checkpoint_state_rank(c.state))),
        c.anchor_events,
        c.anchor_kinds,
        single(rank_field(coverage_rank(c.coverage))),
        c.provenance,
    ]
}

fn checkpoint_groups_exec(c: &RealizedCheckpoint) -> (g: Vec<Vec<Vec<char>>>)
    ensures
        group_views(g@) == checkpoint_groups(c@),
{
    let mut g: Vec<Vec<Vec<char>>> = Vec::new();
    g.push(single_exec(c.checkpoint.as_str()));
    g.push(rank_group(match c.state {
        CheckpointRealizationState::Realized => 0,
        CheckpointRealizationState::PartiallyRealized => 1,
        CheckpointRealizationState::Unreachable => 2,
        CheckpointRealizationState::Unknown => 3,
        CheckpointRealizationState::Contradicted => 4,
    }));
    g.push(texts_exec(c.anchor_events.as_slice()));
    g.push(texts_exec(c.anchor_kinds.as_slice()));
    g.push(rank_group(coverage_rank_exec(c.coverage)));
    g.push(texts_exec(c.provenance.as_slice()));
    assert(group_views(g@) =~= checkpoint_groups(c@));
    g
}

impl CanonicalOrder for RealizedCheckpoint {
    open spec fn ordered(a: CheckpointModel, b: CheckpointModel) -> bool {
        groups_le(checkpoint_groups(a), checkpoint_groups(b))
    }

    proof fn lemma_ordered_reflexive(a: CheckpointModel) {
        lemma_groups_le_reflexive(checkpoint_groups(a));
    }

    proof fn lemma_ordered_transitive(a: CheckpointModel, b: CheckpointModel, c: CheckpointModel) {
        lemma_groups_le_transitive(checkpoint_groups(a), checkpoint_groups(b), checkpoint_groups(c));
    }

    proof fn lemma_ordered_total(a: CheckpointModel, b: CheckpointModel) {
        lemma_groups_le_total(checkpoint_groups(a), checkpoint_groups(b));
    }

    fn precedes(&self, other: &Self) -> (r: bool) {
        let a = checkpoint_groups_exec(self);
        let b = checkpoint_groups_exec(other);
        groups_le_exec(&a, &b)
    }
}

impl TotalOrder for RealizedCheckpoint {
    proof fn lemma_ordered_antisymmetric(a: CheckpointModel, b: CheckpointModel) {
        let ga = checkpoint_groups(a);
        let gb = checkpoint_groups(b);
        lemma_groups_le_antisymmetric(ga, gb);
        assert(ga[0][0] == a.checkpoint && gb[0][0] == b.checkpoint);
        lemma_rank_field_len(checkpoint_state_rank(a.state));
        lemma_rank_field_len(checkpoint_state_rank(b.state));
        assert(ga[1][0] == rank_field(checkpoint_state_rank(a.state)));
        assert(gb[1][0] == rank_field(checkpoint_state_rank(b.state)));
        assert(ga[2] == a.anchor_events && gb[2] == b.anchor_events);
        assert(ga[3] == a.anchor_kinds && gb[3] == b.anchor_kinds);
        lemma_rank_field_len(coverage_rank(a.coverage));
        lemma_rank_field_len(coverage_rank(b.coverage));
        assert(ga[4][0] == rank_field(coverage_rank(a.coverage)));
        assert(gb[4][0] == rank_field(coverage_rank(b.coverage)));
        assert(ga[5] == a.provenance && gb[5] == b.provenance);
    }
}

/// Abstract value of one realized transition.
pub struct TransitionModel {
    pub source: Seq<char>,
    pub target: Seq<char>,
    pub state: EdgeReconciliationState,
    pub implementation_path: Seq<Seq<char>>,
    pub coverage: RealizationCoverage,
}

/// One next-semantic-checkpoint transition and supporting path.
#[derive(Debug)]
pub struct RealizedTransition {
    source: String,
    target: String,
    state: EdgeReconciliationState,
    implementation_path: Vec<String>,
    coverage: RealizationCoverage,
}

impl View for RealizedTransition {
    type V = TransitionModel;

    closed spec fn view(&self) -> TransitionModel {
        TransitionModel {
            source: self.source@,
            target: self.target@,
            state: self.state,
            implementation_path: texts(self.implementation_path@),
            coverage: self.coverage,
        }
    }
}

impl RealizedTransition {
    /// Returns the source checkpoint.
    pub fn source(&self) -> (r: &str)
        ensures
            r@ == self@.source,
    {
        self.source.as_str()
    }

    /// Returns the target checkpoint.
    pub fn target(&self) -> (r: &str)
        ensures
            r@ == self@.target,
    {
        self.target.as_str()
    }

    /// Returns the reconciliation state.
    pub fn state(&self) -> (r: EdgeReconciliationState)
        ensures
            r == self@.state,
    {
        self.state
    }

    /// Returns the implementation events of the supporting path.
    pub fn implementation_path(&self) -> (r: &[String])
        ensures
            texts(r@) == self@.implementation_path,
    {
        self.implementation_path.as_slice()
    }

    /// Returns the coverage of the supporting path.
    pub fn coverage(&self) -> (r: RealizationCoverage)
        ensures
            r == self@.coverage,
    {
        self.coverage
    }
}

/// The order fields of a transition.
pub open spec fn transition_groups(t: TransitionModel) -> Seq<Seq<Seq<char>>> {
    seq![
        single(t.source),
        single(t.target),
        single(rank_field(edge_state_rank(t.state))),
        t.implementation_path,
        single(rank_field(coverage_rank(t.coverage))),
    ]
}

fn transition_groups_exec(t: &RealizedTransition) -> (g: Vec<Vec<Vec<char>>>)
    ensures
        group_views(g@) == transition_groups(t@),
{
    let mut g: Vec<Vec<Vec<char>>> = Vec::new();
    g.push(single_exec(t.source.as_str()));
    g.push(single_exec(t.target.as_str()));
    g.push(rank_group(match t.state {
        EdgeReconciliationState::IntendedAndRealized => 0,
        EdgeReconciliationState::IntendedUnproven => 1,
        EdgeReconciliationState::RealizedUndeclared => 2,
        EdgeReconciliationState::IntendedProvenImpossible => 3,
    }));
    g.push(texts_exec(t.implementation_path.as_slice()));
    g.push(rank_group(coverage_rank_exec(t.coverage)));
    assert(group_views(g@) =~= transition_groups(t@));
    g
}

impl CanonicalOrder for RealizedTransition {
    open spec fn ordered(a: TransitionModel, b: TransitionModel) -> bool {
        groups_le(transition_groups(a), transition_groups(b))
    }

    proof fn lemma_ordered_reflexive(a: TransitionModel) {
        lemma_groups_le_reflexive(transition_groups(a));
    }

    proof fn lemma_ordered_transitive(a: TransitionModel, b: TransitionModel, c: TransitionModel) {
        lemma_groups_le_transitive(transition_groups(a), transition_groups(b), transition_groups(c));
    }

    proof fn lemma_ordered_total(a: TransitionModel, b: TransitionModel) {
        lemma_groups_le_total(transition_groups(a), transition_groups(b));
    }

    fn precedes(&self, other: &Self) -> (r: bool) {
        let a = transition_groups_exec(self);
        let b = transition_groups_exec(other);
        groups_le_exec(&a, &b)
    }
}

impl TotalOrder for RealizedTransition {
    proof fn lemma_ordered_antisymmetric(a: TransitionModel, b: TransitionModel) {
        let ga = transition_groups(a);
        let gb = transition_groups(b);
        lemma_groups_le_antisymmetric(ga, gb);
        assert(ga[0][0] == a.source && gb[0][0] == b.source);
        assert(ga[1][0] == a.target && gb[1][0] == b.target);
        lemma_rank_field_len(edge_state_rank(a.state));
        lemma_rank_field_len(edge_state_rank(b.state));
        assert(ga[2][0] == rank_field(edge_state_rank(a.state)));
        assert(gb[2][0] == rank_field(edge_state_rank(b.state)));
        assert(ga[3] == a.implementation_path && gb[3] == b.implementation_path);
        lemma_rank_field_len(coverage_rank(a.coverage));
        lemma_rank_field_len(coverage_rank(b.coverage));
        assert(ga[4][0] == rank_field(coverage_rank(a.coverage)));
        assert(gb[4][0] == rank_field(coverage_rank(b.coverage)));
    }
}

/// Abstract value of one bypass.
pub struct BypassModel {
    pub feature: Seq<char>,
    pub required_dominator: Seq<char>,
    pub reached_checkpoint: Seq<char>,
    pub implementation_path: Seq<Seq<char>>,
    pub anchor_provenance: Seq<Seq<char>>,
    pub coverage: RealizationCoverage,
}

/// One proven route bypassing an Intended BFG dominator.
#[derive(Debug)]
pub struct BehavioralBypass {
    feature: String,
    required_dominator: String,
    reached_checkpoint: String,
    implementation_path: Vec<String>,
    anchor_provenance: Vec<String>,
    coverage: RealizationCoverage,
}

impl View for BehavioralBypass {
    type V = BypassModel;

    closed spec fn view(&self) -> BypassModel {
        BypassModel {
            feature: self.feature@,
            required_dominator: self.required_dominator@,
            reached_checkpoint: self.reached_checkpoint@,
            implementation_path: texts(self.implementation_path@),
            anchor_provenance: texts(self.anchor_provenance@),
            coverage: self.coverage,
        }
    }
}

impl BehavioralBypass {
    /// Returns the dominator the route avoids.
    pub fn required_dominator(&self) -> (r: &str)
        ensures
            r@ == self@.required_dominator,
    {
        self.required_dominator.as_str()
    }

    /// Returns the checkpoint the route reaches.
    pub fn reached_checkpoint(&self) -> (r: &str)
        ensures
            r@ == self@.reached_checkpoint,
    {
        self.reached_checkpoint.as_str()
    }

    /// Returns the implementation events of the route.
    pub fn implementation_path(&self) -> (r: &[String])
        ensures
            texts(r@) == self@.implementation_path,
    {
        self.implementation_path.as_slice()
    }
}

/// The order fields of a bypass.
pub open spec fn bypass_groups(b: BypassModel) -> Seq<Seq<Seq<char>>> {
    seq![
        single(b.feature),
        single(b.required_dominator),
        single(b.reached_checkpoint),
        b.implementation_path,
        b.anchor_provenance,
        single(rank_field(coverage_rank(b.coverage))),
    ]
}

fn bypass_groups_exec(b: &BehavioralBypass) -> (g: Vec<Vec<Vec<char>>>)
    ensures
        group_views(g@) == bypass_groups(b@),
{
    let mut g: Vec<Vec<Vec<char>>> = Vec::new();
    g.push(single_exec(b.feature.as_str()));
    g.push(single_exec(b.required_dominator.as_str()));
    g.push(single_exec(b.reached_checkpoint.as_str()));
    g.push(texts_exec(b.implementation_path.as_slice()));
    g.push(texts_exec(b.anchor_provenance.as_slice()));
    g.push(rank_group(coverage_rank_exec(b.coverage)));
    assert(group_views(g@) =~= bypass_groups(b@));
    g
}

impl CanonicalOrder for BehavioralBypass {
    open spec fn ordered(a: BypassModel, b: BypassModel) -> bool {
        groups_le(bypass_groups(a), bypass_groups(b))
    }

    proof fn lemma_ordered_reflexive(a: BypassModel) {
        lemma_groups_le_reflexive(bypass_groups(a));
    }

    proof fn lemma_ordered_transitive(a: BypassModel, b: BypassModel, c: BypassModel) {
        lemma_groups_le_transitive(bypass_groups(a), bypass_groups(b), bypass_groups(c));
    }

    proof fn lemma_ordered_total(a: BypassModel, b: BypassModel) {
        lemma_groups_le_total(bypass_groups(a), bypass_groups(b));
    }

    fn precedes(&self, other: &Self) -> (r: bool) {
        let a = bypass_groups_exec(self);
        let b = bypass_groups_exec(other);
        groups_le_exec(&a, &b)
    }
}

impl TotalOrder for BehavioralBypass {
    proof fn lemma_ordered_antisymmetric(a: BypassModel, b: BypassModel) {
        let ga = bypass_groups(a);
        let gb = bypass_groups(b);
        lemma_groups_le_antisymmetric(ga, gb);
        assert(ga[0][0] == a.feature && gb[0][0] == b.feature);
        assert(ga[1][0] == a.required_dominator && gb[1][0] == b.required_dominator);
        assert(ga[2][0] == a.reached_checkpoint && gb[2][0] == b.reached_checkpoint);
        assert(ga[3] == a.implementation_path && gb[3] == b.implementation_path);
        assert(ga[4] == a.anchor_provenance && gb[4] == b.anchor_provenance);
        lemma_rank_field_len(coverage_rank(a.coverage));
        lemma_rank_field_len(coverage_rank(b.coverage));
        assert(ga[5][0] == rank_field(coverage_rank(a.coverage)));
        assert(gb[5][0] == rank_field(coverage_rank(b.coverage)));
    }
}

/// Abstract value of one verification obligation.
pub struct ObligationModel {
    pub id: Seq<char>,
    pub feature: Seq<char>,
    pub proposition: Seq<char>,
    pub checkpoints: Seq<Seq<char>>,
    pub evidence_status: Seq<char>,
}

/// One deterministic later verification obligation; it is not evidence.
#[derive(Debug)]
pub struct BehavioralVerificationObligation {
    id: String,
    feature: String,
    proposition: String,
    checkpoints: Vec<String>,
    evidence_status: String,
}

impl View for BehavioralVerificationObligation {
    type V = ObligationModel;

    closed spec fn view(&self) -> ObligationModel {
        ObligationModel {
            id: self.id@,
            feature: self.feature@,
            proposition: self.proposition@,
            checkpoints: texts(self.checkpoints@),
            evidence_status: self.evidence_status@,
        }
    }
}

impl BehavioralVerificationObligation {
    /// Returns the content-addressed obligation identity.
    pub fn id(&self) -> (r: &str)
        ensures
            r@ == self@.id,
    {
        self.id.as_str()
    }

    /// Returns the proposition to verify.
    pub fn proposition(&self) -> (r: &str)
        ensures
            r@ == self@.proposition,
    {
        self.proposition.as_str()
    }

    /// Returns the checkpoints the proposition concerns.
    pub fn checkpoints(&self) -> (r: &[String])
        ensures
            texts(r@) == self@.checkpoints,
    {
        self.checkpoints.as_slice()
    }

    /// Returns the evidence status, which is never established here.
    pub fn evidence_status(&self) -> (r: &str)
        ensures
            r@ == self@.evidence_status,
    {
        self.evidence_status.as_str()
    }
}

/// The order fields of an obligation.
pub open spec fn obligation_groups(o: ObligationModel) -> Seq<Seq<Seq<char>>> {
    seq![single(o.id), single(o.feature), single(o.proposition), o.checkpoints, single(o.evidence_status)]
}

fn obligation_groups_exec(o: &BehavioralVerificationObligation) -> (g: Vec<Vec<Vec<char>>>)
    ensures
        group_views(g@) == obligation_groups(o@),
{
    let mut g: Vec<Vec<Vec<char>>> = Vec::new();
    g.push(single_exec(o.id.as_str()));
    g.push(single_exec(o.feature.as_str()));
    g.push(single_exec(o.proposition.as_str()));
    g.push(texts_exec(o.checkpoints.as_slice()));
    g.push(single_exec(o.evidence_status.as_str()));
    assert(group_views(g@) =~= obligation_groups(o@));
    g
}

impl CanonicalOrder for BehavioralVerificationObligation {
    open spec fn ordered(a: ObligationModel, b: ObligationModel) -> bool {
        groups_le(obligation_groups(a), obligation_groups(b))
    }

    proof fn lemma_ordered_reflexive(a: ObligationModel) {
        lemma_groups_le_reflexive(obligation_groups(a));
    }

    proof fn lemma_ordered_transitive(a: ObligationModel, b: ObligationModel, c: ObligationModel) {
        lemma_groups_le_transitive(obligation_groups(a), obligation_groups(b), obligation_groups(c));
    }

    proof fn lemma_ordered_total(a: ObligationModel, b: ObligationModel) {
        lemma_groups_le_total(obligation_groups(a), obligation_groups(b));
    }

    fn precedes(&self, other: &Self) -> (r: bool) {
        let a = obligation_groups_exec(self);
        let b = obligation_groups_exec(other);
        groups_le_exec(&a, &b)
    }
}

impl TotalOrder for BehavioralVerificationObligation {
    proof fn lemma_ordered_antisymmetric(a: ObligationModel, b: ObligationModel) {
        let ga = obligation_groups(a);
        let gb = obligation_groups(b);
        lemma_groups_le_antisymmetric(ga, gb);
        assert(ga[0][0] == a.id && gb[0][0] == b.id);
        assert(ga[1][0] == a.feature && gb[1][0] == b.feature);
        assert(ga[2][0] == a.proposition && gb[2][0] == b.proposition);
        assert(ga[3] == a.checkpoints && gb[3] == b.checkpoints);
        assert(ga[4][0] == a.evidence_status && gb[4][0] == b.evidence_status);
    }
}

/// The obligation that a proposition over checkpoints of a Feature be
/// verified later; its identity is derived from the three.
pub open spec fn obligation_of(feature: Seq<char>, proposition: Seq<char>, checkpoints: Seq<Seq<char>>) -> ObligationModel {
    ObligationModel {
        id: "OBL-BEHAVIOR-"@ + crate::codec::hex_upper(
            crate::codec::sha256_of(
                vstd::utf8::encode_utf8(feature + ":"@ + proposition + ":"@ + join_texts(checkpoints, ":"@)),
            ).take(8),
        ),
        feature,
        proposition,
        checkpoints,
        evidence_status: "NOT_ESTABLISHED"@,
    }
}

/// Builds one verification obligation.
pub fn verification_obligation(feature: &str, proposition: &str, checkpoints: Vec<String>) -> (r: BehavioralVerificationObligation)
    ensures
        r@ == obligation_of(feature@, proposition@, texts(checkpoints@)),
{
    let material = concat(feature, ":");
    let material = concat(material.as_str(), proposition);
    let material = concat(material.as_str(), ":");
    let joined = join(checkpoints.as_slice(), ":");
    let material = concat(material.as_str(), joined.as_str());
    let digest = crate::codec::sha256_upper_prefix(material.as_str());
    BehavioralVerificationObligation {
        id: concat("OBL-BEHAVIOR-", digest.as_str()),
        feature: copy_text(feature),
        proposition: copy_text(proposition),
        checkpoints,
        evidence_status: copy_text("NOT_ESTABLISHED"),
    }
}

// ---------------------------------------------------------------------------
// Checkpoint realization.

/// The binding of a checkpoint: the last one naming it.
pub open spec fn binding_for(bindings: Seq<ResolvedModel>, checkpoint: Seq<char>) -> Option<ResolvedModel>
    decreases bindings.len(),
{
    if bindings.len() == 0 {
        None
    } else if bindings.last().checkpoint == checkpoint {
        Some(bindings.last())
    } else {
        binding_for(bindings.drop_last(), checkpoint)
    }
}

/// The events of the anchors that resolve to an existing event, in anchor order.
pub open spec fn exact_events(anchors: Seq<contract::AnchorModel>, domains: Seq<DomainModel>, ids: Seq<Seq<char>>) -> Seq<Seq<char>>
    decreases anchors.len(),
{
    if anchors.len() == 0 {
        Seq::empty()
    } else {
        exact_events(anchors.drop_last(), domains, ids) + match anchor_event(anchors.last(), domains) {
            Some(id) => if ids.contains(id) {
                seq![id]
            } else {
                Seq::empty()
            },
            None => Seq::empty(),
        }
    }
}

/// The realization of one node under its binding: Realized when every
/// anchor resolves to an existing event, partially realized when some do,
/// and unknown when none does.
pub open spec fn realized_checkpoint(
    n: crate::behavior::model::NodeModel,
    b: ResolvedModel,
    domains: Seq<DomainModel>,
    ids: Seq<Seq<char>>,
) -> CheckpointModel {
    let exact = exact_events(b.anchors, domains, ids);
    let uncertain = b.anchors.len() - exact.len();
    let (state, coverage) = if exact.len() > 0 && uncertain == 0 {
        (CheckpointRealizationState::Realized, RealizationCoverage::Proven)
    } else if exact.len() > 0 {
        (CheckpointRealizationState::PartiallyRealized, RealizationCoverage::Partial)
    } else {
        (CheckpointRealizationState::Unknown, RealizationCoverage::Unknown)
    };
    CheckpointModel {
        checkpoint: n.checkpoint,
        state,
        anchor_events: canonical_set::<String>(exact),
        anchor_kinds: canonical_set::<String>(b.anchors.map_values(|a: contract::AnchorModel| anchor_kind(a))),
        coverage,
        provenance: seq![b.source_path, b.pointer, n.provenance.path, n.provenance.pointer],
    }
}

/// The identities of the events.
pub open spec fn event_ids(events: Seq<EventModel>) -> Seq<Seq<char>> {
    events.map_values(|e: EventModel| e.id)
}

/// Every node of the flow has a binding.
pub open spec fn bindings_cover(nodes: Seq<crate::behavior::model::NodeModel>, bindings: Seq<ResolvedModel>) -> bool {
    forall|k: int| 0 <= k < nodes.len() ==> (#[trigger] binding_for(bindings, nodes[k].checkpoint)) is Some
}

/// The realization of each node, in node order.
pub open spec fn node_realizations(
    nodes: Seq<crate::behavior::model::NodeModel>,
    bindings: Seq<ResolvedModel>,
    domains: Seq<DomainModel>,
    ids: Seq<Seq<char>>,
) -> Seq<CheckpointModel> {
    nodes.map_values(
        |n: crate::behavior::model::NodeModel| realized_checkpoint(n, binding_for(bindings, n.checkpoint)->0, domains, ids),
    )
}

// ---------------------------------------------------------------------------
// Transition reconciliation.

/// The events of every node whose checkpoint is not `cp`, in node order.
pub open spec fn other_events(cms: Seq<CheckpointModel>, cp: Seq<char>) -> Seq<Seq<char>>
    decreases cms.len(),
{
    if cms.len() == 0 {
        Seq::empty()
    } else {
        other_events(cms.drop_last(), cp) + if cms.last().checkpoint != cp {
            cms.last().anchor_events
        } else {
            Seq::empty()
        }
    }
}

/// The values of `xs` that `ys` does not hold.
pub open spec fn without(xs: Seq<Seq<char>>, ys: Seq<Seq<char>>) -> Seq<Seq<char>>
    decreases xs.len(),
{
    if xs.len() == 0 {
        Seq::empty()
    } else {
        without(xs.drop_last(), ys) + if ys.contains(xs.last()) {
            Seq::empty()
        } else {
            seq![xs.last()]
        }
    }
}

/// The events a path from node `a` to node `b` may not touch: those of every
/// other checkpoint except `b`'s own.
pub open spec fn pair_forbidden(cms: Seq<CheckpointModel>, a: int, b: int) -> Seq<Seq<char>> {
    without(other_events(cms, cms[a].checkpoint), cms[b].anchor_events)
}

/// Some supported path leads from node `a`'s events to node `b`'s.
pub open spec fn pair_connected(edges: Seq<EventEdgeModel>, cms: Seq<CheckpointModel>, a: int, b: int) -> bool {
    connected(edges, cms[a].anchor_events, cms[b].anchor_events, pair_forbidden(cms, a, b))
}

/// `path` is a supported path from node `a`'s events to node `b`'s, and
/// `coverage` the coverage of its weakest step.
pub open spec fn pair_path(
    edges: Seq<EventEdgeModel>,
    cms: Seq<CheckpointModel>,
    a: int,
    b: int,
    path: Seq<Seq<char>>,
    coverage: RealizationCoverage,
) -> bool {
    exists|cs: Seq<RealizationCoverage>|
        connects(edges, path, cs, cms[a].anchor_events, cms[b].anchor_events, pair_forbidden(cms, a, b)) && coverage
            == worst(cs)
}

/// The index of the node with a checkpoint, if any.
pub open spec fn node_index(cms: Seq<CheckpointModel>, cp: Seq<char>) -> Option<int> {
    if exists|k: int| 0 <= k < cms.len() && #[trigger] cms[k].checkpoint == cp {
        Some(choose|k: int| 0 <= k < cms.len() && #[trigger] cms[k].checkpoint == cp)
    } else {
        None
    }
}

/// The reconciliation of an intended edge: realized with a supported path
/// when its endpoints are distinct nodes that a supported path connects,
/// unproven with no path otherwise.
pub open spec fn intended_reconciled(
    edges: Seq<EventEdgeModel>,
    cms: Seq<CheckpointModel>,
    e: crate::behavior::model::EdgeModel,
    t: TransitionModel,
) -> bool {
    &&& t.source == e.source
    &&& t.target == e.target
    &&& if e.source != e.target && node_index(cms, e.source) is Some && node_index(cms, e.target) is Some
        && pair_connected(edges, cms, node_index(cms, e.source)->0, node_index(cms, e.target)->0) {
        t.state == EdgeReconciliationState::IntendedAndRealized && pair_path(
            edges,
            cms,
            node_index(cms, e.source)->0,
            node_index(cms, e.target)->0,
            t.implementation_path,
            t.coverage,
        )
    } else {
        t.state == EdgeReconciliationState::IntendedUnproven && t.implementation_path.len() == 0 && t.coverage
            == RealizationCoverage::Unknown
    }
}

/// Some intended edge leads from `s` to `t`.
pub open spec fn is_intended(intended_edges: Seq<crate::behavior::model::EdgeModel>, s: Seq<char>, t: Seq<char>) -> bool {
    exists|i: int| 0 <= i < intended_edges.len() && #[trigger] intended_edges[i].source == s && intended_edges[i].target == t
}

/// A realized transition absent from intent: a Proven supported path between
/// two distinct nodes that no intended edge joins.
pub open spec fn undeclared_realized(
    edges: Seq<EventEdgeModel>,
    cms: Seq<CheckpointModel>,
    intended_edges: Seq<crate::behavior::model::EdgeModel>,
    t: TransitionModel,
) -> bool {
    &&& t.state == EdgeReconciliationState::RealizedUndeclared
    &&& t.coverage == RealizationCoverage::Proven
    &&& !is_intended(intended_edges, t.source, t.target)
    &&& t.source != t.target
    &&& exists|a: int, b: int|
        0 <= a < cms.len() && 0 <= b < cms.len() && #[trigger] cms[a].checkpoint == t.source && #[trigger] cms[b].checkpoint
            == t.target && pair_path(edges, cms, a, b, t.implementation_path, t.coverage)
}

/// Some transition reconciles the intended edge `e`.
pub open spec fn edge_reconciled(
    edges: Seq<EventEdgeModel>,
    cms: Seq<CheckpointModel>,
    e: crate::behavior::model::EdgeModel,
    ts: Seq<TransitionModel>,
) -> bool {
    exists|j: int| 0 <= j < ts.len() && intended_reconciled(edges, cms, e, #[trigger] ts[j])
}

/// A transition reconciles some intended edge or is undeclared realized behavior.
pub open spec fn transition_accounted(
    edges: Seq<EventEdgeModel>,
    cms: Seq<CheckpointModel>,
    intended_edges: Seq<crate::behavior::model::EdgeModel>,
    t: TransitionModel,
) -> bool {
    (exists|i: int| 0 <= i < intended_edges.len() && intended_reconciled(edges, cms, #[trigger] intended_edges[i], t))
        || undeclared_realized(edges, cms, intended_edges, t)
}

/// The transitions reconcile every intended edge, and each is either the
/// reconciliation of an intended edge or an undeclared realized transition.
pub open spec fn transitions_reconciled(
    edges: Seq<EventEdgeModel>,
    cms: Seq<CheckpointModel>,
    intended_edges: Seq<crate::behavior::model::EdgeModel>,
    ts: Seq<TransitionModel>,
) -> bool {
    &&& forall|i: int| 0 <= i < intended_edges.len() ==> edge_reconciled(edges, cms, #[trigger] intended_edges[i], ts)
    &&& forall|j: int| 0 <= j < ts.len() ==> transition_accounted(edges, cms, intended_edges, #[trigger] ts[j])
}

// ---------------------------------------------------------------------------
// Executable realization.

fn event_exists(events: &[ImplementationEvent], id: &str) -> (r: bool)
    ensures
        r == event_ids(views(events@)).contains(id@),
{
    let ghost ids = event_ids(views(events@));
    let mut i: usize = 0;
    while i < events.len()
        invariant
            ids == event_ids(views(events@)),
            i <= events@.len(),
            forall|k: int| 0 <= k < i ==> ids[k] != id@,
        decreases events.len() - i,
    {
        assert(ids[i as int] == events@[i as int]@.id);
        if text_eq(events[i].id(), id) {
            assert(ids[i as int] == id@);
            return true;
        }
        i = i + 1;
    }
    false
}

fn exact_events_exec(anchors: &[contract::BehaviorAnchor], domains: &[BooleanDomain], events: &[ImplementationEvent]) -> (r: Vec<String>)
    ensures
        texts(r@) == exact_events(views(anchors@), views(domains@), event_ids(views(events@))),
{
    let ghost av = views(anchors@);
    let mut out: Vec<String> = Vec::new();
    let mut i: usize = 0;
    while i < anchors.len()
        invariant
            av == views(anchors@),
            i <= anchors@.len(),
            texts(out@) == exact_events(av.take(i as int), views(domains@), event_ids(views(events@))),
        decreases anchors.len() - i,
    {
        assert(av.take(i + 1).drop_last() =~= av.take(i as int));
        assert(av.take(i + 1).last() == anchors@[i as int]@);
        let ghost before = texts(out@);
        match resolve_anchor_event(&anchors[i], domains) {
            Some(id) => {
                if event_exists(events, id.as_str()) {
                    out.push(id);
                    assert(texts(out@) =~= before + seq![out@.last()@]);
                } else {
                    assert(texts(out@) =~= before + Seq::<Seq<char>>::empty());
                }
            },
            None => {
                assert(texts(out@) =~= before + Seq::<Seq<char>>::empty());
            },
        }
        i = i + 1;
    }
    assert(av.take(anchors@.len() as int) =~= av);
    out
}

fn anchor_kinds_exec(anchors: &[contract::BehaviorAnchor]) -> (r: Vec<String>)
    ensures
        texts(r@) == views(anchors@).map_values(|a: contract::AnchorModel| anchor_kind(a)),
{
    let ghost av = views(anchors@);
    let mut out: Vec<String> = Vec::new();
    let mut i: usize = 0;
    while i < anchors.len()
        invariant
            av == views(anchors@),
            i <= anchors@.len(),
            texts(out@) == av.take(i as int).map_values(|a: contract::AnchorModel| anchor_kind(a)),
        decreases anchors.len() - i,
    {
        let ghost before = texts(out@);
        out.push(copy_text(anchors[i].kind()));
        assert(texts(out@) =~= before.push(anchor_kind(av[i as int])));
        assert(av.take(i + 1).map_values(|a: contract::AnchorModel| anchor_kind(a)) =~= av.take(i as int).map_values(
            |a: contract::AnchorModel| anchor_kind(a),
        ).push(anchor_kind(av[i as int])));
        i = i + 1;
    }
    assert(av.take(anchors@.len() as int) =~= av);
    out
}

fn canonical_texts(v: Vec<String>) -> (r: Vec<String>)
    ensures
        texts(r@) == canonical_set::<String>(texts(v@)),
{
    assert(views(v@) =~= texts(v@));
    let out = canonical_set_exec(v);
    assert(views(out@) =~= texts(out@));
    out
}

fn realize_checkpoint(
    node: &crate::behavior::model::BfgNode,
    binding: &ResolvedCheckpointRealization,
    domains: &[BooleanDomain],
    events: &[ImplementationEvent],
) -> (r: RealizedCheckpoint)
    ensures
        r@ == realized_checkpoint(node@, binding@, views(domains@), event_ids(views(events@))),
{
    let exact = exact_events_exec(binding.anchors(), domains, events);
    let kinds = anchor_kinds_exec(binding.anchors());
    let exact_count = exact.len();
    let anchor_count = binding.anchors().len();
    proof {
        lemma_exact_events_len(binding@.anchors, views(domains@), event_ids(views(events@)));
    }
    let uncertain = anchor_count - exact_count;
    let (state, coverage) = if exact_count > 0 && uncertain == 0 {
        (CheckpointRealizationState::Realized, RealizationCoverage::Proven)
    } else if exact_count > 0 {
        (CheckpointRealizationState::PartiallyRealized, RealizationCoverage::Partial)
    } else {
        (CheckpointRealizationState::Unknown, RealizationCoverage::Unknown)
    };
    let mut provenance: Vec<String> = Vec::new();
    provenance.push(copy_text(binding.source_path()));
    provenance.push(copy_text(binding.pointer()));
    provenance.push(copy_text(node.provenance().path()));
    provenance.push(copy_text(node.provenance().pointer()));
    let r = RealizedCheckpoint {
        checkpoint: copy_text(node.checkpoint()),
        state,
        anchor_events: canonical_texts(exact),
        anchor_kinds: canonical_texts(kinds),
        coverage,
        provenance,
    };
    assert(r@.provenance =~= realized_checkpoint(node@, binding@, views(domains@), event_ids(views(events@))).provenance);
    r
}

proof fn lemma_exact_events_len(anchors: Seq<contract::AnchorModel>, domains: Seq<DomainModel>, ids: Seq<Seq<char>>)
    ensures
        exact_events(anchors, domains, ids).len() <= anchors.len(),
    decreases anchors.len(),
{
    if anchors.len() > 0 {
        lemma_exact_events_len(anchors.drop_last(), domains, ids);
    }
}

fn binding_for_exec<'a>(bindings: &'a [ResolvedCheckpointRealization], checkpoint: &str) -> (r: Option<&'a ResolvedCheckpointRealization>)
    ensures
        match r {
            Some(b) => binding_for(views(bindings@), checkpoint@) == Some(b@),
            None => binding_for(views(bindings@), checkpoint@) is None,
        },
{
    let ghost bv = views(bindings@);
    let mut i: usize = bindings.len();
    assert(bv.take(i as int) =~= bv);
    while i > 0
        invariant
            bv == views(bindings@),
            i <= bindings@.len(),
            binding_for(bv, checkpoint@) == binding_for(bv.take(i as int), checkpoint@),
        decreases i,
    {
        i = i - 1;
        assert(bv.take(i + 1).drop_last() =~= bv.take(i as int));
        assert(bv.take(i + 1).last() == bindings@[i as int]@);
        if text_eq(bindings[i].checkpoint(), checkpoint) {
            return Some(&bindings[i]);
        }
    }
    None
}

fn node_realizations_exec(
    nodes: &[crate::behavior::model::BfgNode],
    bindings: &[ResolvedCheckpointRealization],
    domains: &[BooleanDomain],
    events: &[ImplementationEvent],
) -> (r: Vec<RealizedCheckpoint>)
    requires
        bindings_cover(views(nodes@), views(bindings@)),
    ensures
        views(r@) == node_realizations(views(nodes@), views(bindings@), views(domains@), event_ids(views(events@))),
{
    let ghost nv = views(nodes@);
    let ghost target = node_realizations(nv, views(bindings@), views(domains@), event_ids(views(events@)));
    let mut out: Vec<RealizedCheckpoint> = Vec::new();
    let mut i: usize = 0;
    while i < nodes.len()
        invariant
            nv == views(nodes@),
            target == node_realizations(nv, views(bindings@), views(domains@), event_ids(views(events@))),
            bindings_cover(nv, views(bindings@)),
            i <= nodes@.len(),
            views(out@) == target.take(i as int),
        decreases nodes.len() - i,
    {
        let ghost before = out@;
        assert(nv[i as int] == nodes@[i as int]@);
        assert(binding_for(views(bindings@), nv[i as int].checkpoint) is Some);
        let node = &nodes[i];
        match binding_for_exec(bindings, node.checkpoint()) {
            Some(b) => {
                let c = realize_checkpoint(node, b, domains, events);
                out.push(c);
                proof {
                    crate::order::lemma_views_push_seq(before, c);
                    assert(target.take(i + 1) =~= target.take(i as int).push(target[i as int]));
                }
            },
            None => {
                assert(false);
            },
        }
        i = i + 1;
    }
    assert(target.take(nodes@.len() as int) =~= target);
    out
}

fn other_events_exec(cms: &Vec<RealizedCheckpoint>, cp: &str) -> (r: Vec<String>)
    ensures
        texts(r@) == other_events(views(cms@), cp@),
{
    let ghost cv = views(cms@);
    let mut out: Vec<String> = Vec::new();
    let mut i: usize = 0;
    while i < cms.len()
        invariant
            cv == views(cms@),
            i <= cms@.len(),
            texts(out@) == other_events(cv.take(i as int), cp@),
        decreases cms.len() - i,
    {
        assert(cv.take(i + 1).drop_last() =~= cv.take(i as int));
        assert(cv.take(i + 1).last() == cms@[i as int]@);
        let ghost before = texts(out@);
        if !text_eq(cms[i].checkpoint.as_str(), cp) {
            let mut more = copy_texts(cms[i].anchor_events.as_slice());
            let ghost added = texts(more@);
            out.append(&mut more);
            assert(texts(out@) =~= before + added);
        } else {
            assert(texts(out@) =~= before + Seq::<Seq<char>>::empty());
        }
        i = i + 1;
    }
    assert(cv.take(cms@.len() as int) =~= cv);
    out
}

fn without_exec(xs: &Vec<String>, ys: &Vec<String>) -> (r: Vec<String>)
    ensures
        texts(r@) == without(texts(xs@), texts(ys@)),
{
    let ghost xv = texts(xs@);
    let mut out: Vec<String> = Vec::new();
    let mut i: usize = 0;
    while i < xs.len()
        invariant
            xv == texts(xs@),
            i <= xs@.len(),
            texts(out@) == without(xv.take(i as int), texts(ys@)),
        decreases xs.len() - i,
    {
        assert(xv.take(i + 1).drop_last() =~= xv.take(i as int));
        assert(xv.take(i + 1).last() == xs@[i as int]@);
        let ghost before = texts(out@);
        if texts_contain(ys, xs[i].as_str()) {
            assert(texts(out@) =~= before + Seq::<Seq<char>>::empty());
        } else {
            out.push(copy_text(xs[i].as_str()));
            assert(texts(out@) =~= before + seq![xs@[i as int]@]);
        }
        i = i + 1;
    }
    assert(xv.take(xs@.len() as int) =~= xv);
    out
}

/// What one pair search established.
spec fn pair_result_ok(
    edges: Seq<EventEdgeModel>,
    cms: Seq<CheckpointModel>,
    a: int,
    b: int,
    r: Option<(Vec<String>, RealizationCoverage)>,
) -> bool {
    match r {
        Some((p, c)) => cms[a].checkpoint != cms[b].checkpoint && pair_path(edges, cms, a, b, texts(p@), c),
        None => cms[a].checkpoint == cms[b].checkpoint || !pair_connected(edges, cms, a, b),
    }
}

fn pair_search(
    edges: &[ImplementationEventEdge],
    cms: &Vec<RealizedCheckpoint>,
    a: usize,
    b: usize,
) -> (r: Option<(Vec<String>, RealizationCoverage)>)
    requires
        a < cms@.len(),
        b < cms@.len(),
    ensures
        pair_result_ok(views(edges@), views(cms@), a as int, b as int, r),
{
    let ghost cv = views(cms@);
    assert(cv[a as int] == cms@[a as int]@ && cv[b as int] == cms@[b as int]@);
    if text_eq(cms[a].checkpoint.as_str(), cms[b].checkpoint.as_str()) {
        return None;
    }
    let others = other_events_exec(cms, cms[a].checkpoint.as_str());
    let forbidden = without_exec(&others, &cms[b].anchor_events);
    supported_path(edges, &cms[a].anchor_events, &cms[b].anchor_events, &forbidden)
}

/// The checkpoints of distinct nodes differ.
pub open spec fn checkpoints_distinct(cms: Seq<CheckpointModel>) -> bool {
    forall|i: int, j: int| 0 <= i < cms.len() && 0 <= j < cms.len() && i != j ==> #[trigger] cms[i].checkpoint != #[trigger] cms[j].checkpoint
}

type PairTable = Vec<Vec<Option<(Vec<String>, RealizationCoverage)>>>;

fn pair_table(edges: &[ImplementationEventEdge], cms: &Vec<RealizedCheckpoint>) -> (t: PairTable)
    ensures
        t@.len() == cms@.len(),
        forall|a: int| 0 <= a < cms@.len() ==> (#[trigger] t@[a])@.len() == cms@.len(),
        forall|a: int, b: int|
            0 <= a < cms@.len() && 0 <= b < cms@.len() ==> pair_result_ok(views(edges@), views(cms@), a, b, #[trigger] t@[a]@[b]),
{
    let mut table: PairTable = Vec::new();
    let mut a: usize = 0;
    while a < cms.len()
        invariant
            a <= cms@.len(),
            table@.len() == a,
            forall|x: int| 0 <= x < a ==> (#[trigger] table@[x])@.len() == cms@.len(),
            forall|x: int, y: int|
                0 <= x < a && 0 <= y < cms@.len() ==> pair_result_ok(views(edges@), views(cms@), x, y, #[trigger] table@[x]@[y]),
        decreases cms.len() - a,
    {
        let mut row: Vec<Option<(Vec<String>, RealizationCoverage)>> = Vec::new();
        let mut b: usize = 0;
        while b < cms.len()
            invariant
                a < cms@.len(),
                b <= cms@.len(),
                row@.len() == b,
                forall|y: int| 0 <= y < b ==> pair_result_ok(views(edges@), views(cms@), a as int, y, #[trigger] row@[y]),
            decreases cms.len() - b,
        {
            row.push(pair_search(edges, cms, a, b));
            b = b + 1;
        }
        table.push(row);
        a = a + 1;
    }
    table
}

fn node_index_exec(cms: &Vec<RealizedCheckpoint>, cp: &str) -> (r: Option<usize>)
    requires
        checkpoints_distinct(views(cms@)),
    ensures
        match r {
            Some(k) => k < cms@.len() && node_index(views(cms@), cp@) == Some(k as int),
            None => node_index(views(cms@), cp@) is None,
        },
{
    let ghost cv = views(cms@);
    let mut i: usize = 0;
    while i < cms.len()
        invariant
            cv == views(cms@),
            checkpoints_distinct(cv),
            i <= cms@.len(),
            forall|k: int| 0 <= k < i ==> cv[k].checkpoint != cp@,
        decreases cms.len() - i,
    {
        assert(cv[i as int] == cms@[i as int]@);
        if text_eq(cms[i].checkpoint.as_str(), cp) {
            proof {
                assert(cv[i as int].checkpoint == cp@);
                let k = choose|k: int| 0 <= k < cv.len() && #[trigger] cv[k].checkpoint == cp@;
                if k != i as int {
                    assert(cv[k].checkpoint != cv[i as int].checkpoint);
                }
            }
            return Some(i);
        }
        i = i + 1;
    }
    None
}

fn is_intended_exec(intended_edges: &[crate::behavior::model::BfgEdge], s: &str, t: &str) -> (r: bool)
    ensures
        r == is_intended(views(intended_edges@), s@, t@),
{
    let ghost ev = views(intended_edges@);
    let mut i: usize = 0;
    while i < intended_edges.len()
        invariant
            ev == views(intended_edges@),
            i <= intended_edges@.len(),
            forall|k: int| 0 <= k < i ==> !(ev[k].source == s@ && ev[k].target == t@),
        decreases intended_edges.len() - i,
    {
        assert(ev[i as int] == intended_edges@[i as int]@);
        if text_eq(intended_edges[i].source(), s) && text_eq(intended_edges[i].target(), t) {
            assert(ev[i as int].source == s@ && ev[i as int].target == t@);
            return true;
        }
        i = i + 1;
    }
    false
}

fn copy_path(p: &Vec<String>) -> (r: Vec<String>)
    ensures
        texts(r@) == texts(p@),
{
    copy_texts(p.as_slice())
}

fn reconcile_intended(
    edges: &[ImplementationEventEdge],
    cms: &Vec<RealizedCheckpoint>,
    table: &PairTable,
    e: &crate::behavior::model::BfgEdge,
) -> (t: RealizedTransition)
    requires
        checkpoints_distinct(views(cms@)),
        table@.len() == cms@.len(),
        forall|a: int| 0 <= a < cms@.len() ==> (#[trigger] table@[a])@.len() == cms@.len(),
        forall|a: int, b: int|
            0 <= a < cms@.len() && 0 <= b < cms@.len() ==> pair_result_ok(views(edges@), views(cms@), a, b, #[trigger] table@[a]@[b]),
    ensures
        intended_reconciled(views(edges@), views(cms@), e@, t@),
{
    let ghost cv = views(cms@);
    let s = e.source();
    let t = e.target();
    let unproven = RealizedTransition {
        source: copy_text(s),
        target: copy_text(t),
        state: EdgeReconciliationState::IntendedUnproven,
        implementation_path: Vec::new(),
        coverage: RealizationCoverage::Unknown,
    };
    assert(unproven@.implementation_path =~= Seq::<Seq<char>>::empty());
    if text_eq(s, t) {
        return unproven;
    }
    match (node_index_exec(cms, s), node_index_exec(cms, t)) {
        (Some(a), Some(b)) => {
            assert(cv[a as int].checkpoint == s@) by {
                let k = choose|k: int| 0 <= k < cv.len() && #[trigger] cv[k].checkpoint == s@;
            }
            assert(cv[b as int].checkpoint == t@) by {
                let k = choose|k: int| 0 <= k < cv.len() && #[trigger] cv[k].checkpoint == t@;
            }
            assert(pair_result_ok(views(edges@), cv, a as int, b as int, table@[a as int]@[b as int]));
            match &table[a][b] {
                Some((p, c)) => {
                    let r = RealizedTransition {
                        source: copy_text(s),
                        target: copy_text(t),
                        state: EdgeReconciliationState::IntendedAndRealized,
                        implementation_path: copy_path(p),
                        coverage: *c,
                    };
                    proof {
                        let cs = choose|cs: Seq<RealizationCoverage>|
                            connects(views(edges@), texts(p@), cs, cv[a as int].anchor_events, cv[b as int].anchor_events, pair_forbidden(cv, a as int, b as int))
                                && *c == worst(cs);
                        assert(pair_connected(views(edges@), cv, a as int, b as int));
                    }
                    r
                },
                None => unproven,
            }
        },
        _ => unproven,
    }
}

fn reconcile_transitions(
    edges: &[ImplementationEventEdge],
    cms: &Vec<RealizedCheckpoint>,
    intended_edges: &[crate::behavior::model::BfgEdge],
) -> (ts: Vec<RealizedTransition>)
    requires
        checkpoints_distinct(views(cms@)),
    ensures
        transitions_reconciled(views(edges@), views(cms@), views(intended_edges@), views(ts@)),
        crate::order::is_strictly_canonical::<RealizedTransition>(views(ts@)),
{
    let ghost ev = views(edges@);
    let ghost cv = views(cms@);
    let ghost iv = views(intended_edges@);
    let table = pair_table(edges, cms);
    let mut raw: Vec<RealizedTransition> = Vec::new();
    let mut i: usize = 0;
    while i < intended_edges.len()
        invariant
            ev == views(edges@),
            cv == views(cms@),
            iv == views(intended_edges@),
            checkpoints_distinct(cv),
            table@.len() == cms@.len(),
            forall|a: int| 0 <= a < cms@.len() ==> (#[trigger] table@[a])@.len() == cms@.len(),
            forall|a: int, b: int|
                0 <= a < cms@.len() && 0 <= b < cms@.len() ==> pair_result_ok(ev, cv, a, b, #[trigger] table@[a]@[b]),
            i <= intended_edges@.len(),
            raw@.len() == i,
            forall|k: int| 0 <= k < i ==> intended_reconciled(ev, cv, #[trigger] iv[k], views(raw@)[k]),
        decreases intended_edges.len() - i,
    {
        assert(iv[i as int] == intended_edges@[i as int]@);
        let t = reconcile_intended(edges, cms, &table, &intended_edges[i]);
        let ghost before = raw@;
        raw.push(t);
        proof {
            crate::order::lemma_views_push_seq(before, t);
            assert forall|k: int| 0 <= k < i + 1 implies intended_reconciled(ev, cv, #[trigger] iv[k], views(raw@)[k]) by {
                if k < i {
                    assert(views(raw@)[k] == views(before)[k]);
                }
            }
        }
        i = i + 1;
    }
    let ghost n_intended = raw@.len();
    let mut a: usize = 0;
    while a < cms.len()
        invariant
            ev == views(edges@),
            cv == views(cms@),
            iv == views(intended_edges@),
            table@.len() == cms@.len(),
            forall|x: int| 0 <= x < cms@.len() ==> (#[trigger] table@[x])@.len() == cms@.len(),
            forall|x: int, y: int|
                0 <= x < cms@.len() && 0 <= y < cms@.len() ==> pair_result_ok(ev, cv, x, y, #[trigger] table@[x]@[y]),
            a <= cms@.len(),
            n_intended == iv.len(),
            raw@.len() >= n_intended,
            forall|k: int| 0 <= k < n_intended ==> intended_reconciled(ev, cv, #[trigger] iv[k], views(raw@)[k]),
            forall|k: int| n_intended <= k < raw@.len() ==> undeclared_realized(ev, cv, iv, #[trigger] views(raw@)[k]),
        decreases cms.len() - a,
    {
        let mut b: usize = 0;
        while b < cms.len()
            invariant
                ev == views(edges@),
                cv == views(cms@),
                iv == views(intended_edges@),
                table@.len() == cms@.len(),
                forall|x: int| 0 <= x < cms@.len() ==> (#[trigger] table@[x])@.len() == cms@.len(),
                forall|x: int, y: int|
                    0 <= x < cms@.len() && 0 <= y < cms@.len() ==> pair_result_ok(ev, cv, x, y, #[trigger] table@[x]@[y]),
                a < cms@.len(),
                b <= cms@.len(),
                n_intended == iv.len(),
                raw@.len() >= n_intended,
                forall|k: int| 0 <= k < n_intended ==> intended_reconciled(ev, cv, #[trigger] iv[k], views(raw@)[k]),
                forall|k: int| n_intended <= k < raw@.len() ==> undeclared_realized(ev, cv, iv, #[trigger] views(raw@)[k]),
            decreases cms.len() - b,
        {
            assert(pair_result_ok(ev, cv, a as int, b as int, table@[a as int]@[b as int]));
            assert(cv[a as int] == cms@[a as int]@ && cv[b as int] == cms@[b as int]@);
            match &table[a][b] {
                Some((p, c)) => {
                    if *c == RealizationCoverage::Proven && !is_intended_exec(
                        intended_edges,
                        cms[a].checkpoint.as_str(),
                        cms[b].checkpoint.as_str(),
                    ) {
                        let t = RealizedTransition {
                            source: copy_text(cms[a].checkpoint.as_str()),
                            target: copy_text(cms[b].checkpoint.as_str()),
                            state: EdgeReconciliationState::RealizedUndeclared,
                            implementation_path: copy_path(p),
                            coverage: RealizationCoverage::Proven,
                        };
                        let ghost before = raw@;
                        raw.push(t);
                        proof {
                            crate::order::lemma_views_push_seq(before, t);
                            assert(undeclared_realized(ev, cv, iv, t@)) by {
                                assert(cv[a as int].checkpoint == t@.source && cv[b as int].checkpoint == t@.target);
                            }
                            assert forall|k: int| 0 <= k < n_intended implies intended_reconciled(
                                ev,
                                cv,
                                #[trigger] iv[k],
                                views(raw@)[k],
                            ) by {
                                assert(views(raw@)[k] == views(before)[k]);
                            }
                            assert forall|k: int| n_intended <= k < raw@.len() implies undeclared_realized(
                                ev,
                                cv,
                                iv,
                                #[trigger] views(raw@)[k],
                            ) by {
                                if k < before.len() {
                                    assert(views(raw@)[k] == views(before)[k]);
                                }
                            }
                        }
                    }
                },
                None => {},
            }
            b = b + 1;
        }
        a = a + 1;
    }
    let ghost rv = views(raw@);
    let ts = canonical_set_exec(raw);
    proof {
        let tv = views(ts@);
        assert forall|i: int| 0 <= i < iv.len() implies edge_reconciled(ev, cv, #[trigger] iv[i], tv) by {
            assert(rv.contains(rv[i]));
            assert(tv.contains(rv[i]));
            let j = choose|j: int| 0 <= j < tv.len() && tv[j] == rv[i];
            assert(intended_reconciled(ev, cv, iv[i], tv[j]));
        }
        assert forall|j: int| 0 <= j < tv.len() implies transition_accounted(ev, cv, iv, #[trigger] tv[j]) by {
            assert(tv.contains(tv[j]));
            assert(rv.contains(tv[j]));
            let k = choose|k: int| 0 <= k < rv.len() && rv[k] == tv[j];
            if k < n_intended {
                assert(intended_reconciled(ev, cv, iv[k], rv[k]));
            } else {
                assert(undeclared_realized(ev, cv, iv, rv[k]));
            }
        }
    }
    ts
}

// ---------------------------------------------------------------------------
// Dominator bypasses.

/// The immediate dominator recorded for a checkpoint: that of its last entry.
pub open spec fn immediate_of(doms: Seq<crate::behavior::model::DominationModel>, cp: Seq<char>) -> Option<Seq<char>>
    decreases doms.len(),
{
    if doms.len() == 0 {
        None
    } else if doms.last().checkpoint == cp {
        doms.last().immediate
    } else {
        immediate_of(doms.drop_last(), cp)
    }
}

/// The chain of dominators from `cursor` upwards, at most `fuel` long.
pub open spec fn dominator_chain(
    doms: Seq<crate::behavior::model::DominationModel>,
    cursor: Option<Seq<char>>,
    fuel: nat,
) -> Seq<Seq<char>>
    decreases fuel,
{
    if fuel == 0 {
        Seq::empty()
    } else {
        match cursor {
            None => Seq::empty(),
            Some(d) => seq![d] + dominator_chain(doms, immediate_of(doms, d), (fuel - 1) as nat),
        }
    }
}

/// The dominators of a checkpoint, nearest first (as many as there are
/// dominator entries at most).
pub open spec fn dominators_of(doms: Seq<crate::behavior::model::DominationModel>, cp: Seq<char>) -> Seq<Seq<char>> {
    dominator_chain(doms, immediate_of(doms, cp), doms.len())
}

/// The events of the node with checkpoint `cp`, none if it is no node.
pub open spec fn events_of(cms: Seq<CheckpointModel>, cp: Seq<char>) -> Seq<Seq<char>> {
    match node_index(cms, cp) {
        Some(k) => cms[k].anchor_events,
        None => Seq::empty(),
    }
}

/// A bypass: from the trigger's events, a Proven supported path reaches the
/// events of node `r` while avoiding those of one of `r`'s intended
/// dominators other than the trigger.
pub open spec fn bypass_found(
    edges: Seq<EventEdgeModel>,
    cms: Seq<CheckpointModel>,
    doms: Seq<crate::behavior::model::DominationModel>,
    bindings: Seq<ResolvedModel>,
    feature: Seq<char>,
    trigger: Seq<char>,
    b: BypassModel,
) -> bool {
    &&& b.feature == feature
    &&& b.coverage == RealizationCoverage::Proven
    &&& b.required_dominator != trigger
    &&& exists|r: int|
        0 <= r < cms.len() && #[trigger] cms[r].checkpoint == b.reached_checkpoint && dominators_of(
            doms,
            cms[r].checkpoint,
        ).contains(b.required_dominator) && b.anchor_provenance == seq![
            binding_for(bindings, cms[r].checkpoint)->0.source_path,
            binding_for(bindings, cms[r].checkpoint)->0.pointer,
        ] && exists|cs: Seq<RealizationCoverage>|
            connects(
                edges,
                b.implementation_path,
                cs,
                events_of(cms, trigger),
                cms[r].anchor_events,
                events_of(cms, b.required_dominator),
            ) && worst(cs) == RealizationCoverage::Proven
}

fn immediate_of_exec(doms: &[crate::behavior::model::ImmediateDomination], cp: &str) -> (r: Option<String>)
    ensures
        optional_view(r) == immediate_of(views(doms@), cp@),
{
    let ghost dv = views(doms@);
    let mut i: usize = doms.len();
    assert(dv.take(i as int) =~= dv);
    while i > 0
        invariant
            dv == views(doms@),
            i <= doms@.len(),
            immediate_of(dv, cp@) == immediate_of(dv.take(i as int), cp@),
        decreases i,
    {
        i = i - 1;
        assert(dv.take(i + 1).drop_last() =~= dv.take(i as int));
        assert(dv.take(i + 1).last() == doms@[i as int]@);
        if text_eq(doms[i].checkpoint(), cp) {
            return match doms[i].immediate() {
                Some(t) => Some(copy_text(t)),
                None => None,
            };
        }
    }
    None
}

fn events_of_exec(cms: &Vec<RealizedCheckpoint>, cp: &str) -> (r: Vec<String>)
    requires
        checkpoints_distinct(views(cms@)),
    ensures
        texts(r@) == events_of(views(cms@), cp@),
{
    match node_index_exec(cms, cp) {
        Some(k) => {
            assert(views(cms@)[k as int] == cms@[k as int]@);
            copy_texts(cms[k].anchor_events.as_slice())
        },
        None => {
            let r: Vec<String> = Vec::new();
            assert(texts(r@) =~= Seq::<Seq<char>>::empty());
            r
        },
    }
}

/// The bypasses of a flow and the coverage of its bypass freedom: no trigger
/// is Unsupported, a trigger that is no node is Unknown; otherwise Proven
/// when a bypass was found and Partial when none was.
pub open spec fn bypasses_established(
    edges: Seq<EventEdgeModel>,
    cms: Seq<CheckpointModel>,
    doms: Seq<crate::behavior::model::DominationModel>,
    bindings: Seq<ResolvedModel>,
    feature: Seq<char>,
    trigger: Option<Seq<char>>,
    bypasses: Seq<BypassModel>,
    freedom: RealizationCoverage,
) -> bool {
    match trigger {
        None => bypasses.len() == 0 && freedom == RealizationCoverage::Unsupported,
        Some(t) => if node_index(cms, t) is None {
            bypasses.len() == 0 && freedom == RealizationCoverage::Unknown
        } else {
            &&& crate::order::is_strictly_canonical::<BehavioralBypass>(bypasses)
            &&& forall|k: int| 0 <= k < bypasses.len() ==> bypass_found(edges, cms, doms, bindings, feature, t, #[trigger] bypasses[k])
            &&& freedom == if bypasses.len() == 0 {
                RealizationCoverage::Partial
            } else {
                RealizationCoverage::Proven
            }
        },
    }
}

fn derive_bypasses(
    intended: &crate::behavior::compile::IntendedFeatureFlow,
    cms: &Vec<RealizedCheckpoint>,
    edges: &[ImplementationEventEdge],
    bindings: &[ResolvedCheckpointRealization],
) -> (r: (Vec<BehavioralBypass>, RealizationCoverage))
    requires
        checkpoints_distinct(views(cms@)),
        forall|k: int| 0 <= k < cms@.len() ==> (#[trigger] binding_for(views(bindings@), views(cms@)[k].checkpoint)) is Some,
    ensures
        bypasses_established(
            views(edges@),
            views(cms@),
            intended@.immediate_dominators,
            views(bindings@),
            intended@.feature,
            intended@.trigger_checkpoint,
            views(r.0@),
            r.1,
        ),
{
    let ghost ev = views(edges@);
    let ghost cv = views(cms@);
    let ghost bv = views(bindings@);
    let doms = intended.immediate_dominators();
    let ghost dv = views(doms@);
    let feature = intended.feature();
    let trigger = match intended.trigger_checkpoint() {
        Some(t) => t,
        None => {
            let empty: Vec<BehavioralBypass> = Vec::new();
            assert(views(empty@) =~= Seq::<BypassModel>::empty());
            return (empty, RealizationCoverage::Unsupported);
        },
    };
    let trigger_index = match node_index_exec(cms, trigger) {
        Some(k) => k,
        None => {
            let empty: Vec<BehavioralBypass> = Vec::new();
            assert(views(empty@) =~= Seq::<BypassModel>::empty());
            return (empty, RealizationCoverage::Unknown);
        },
    };
    assert(cv[trigger_index as int] == cms@[trigger_index as int]@);
    let trigger_events = events_of_exec(cms, trigger);
    let mut raw: Vec<BehavioralBypass> = Vec::new();
    let mut r: usize = 0;
    while r < cms.len()
        invariant
            ev == views(edges@),
            cv == views(cms@),
            bv == views(bindings@),
            dv == views(doms@),
            dv == intended@.immediate_dominators,
            feature@ == intended@.feature,
            checkpoints_distinct(cv),
            forall|k: int| 0 <= k < cms@.len() ==> (#[trigger] binding_for(bv, cv[k].checkpoint)) is Some,
            texts(trigger_events@) == events_of(cv, trigger@),
            r <= cms@.len(),
            forall|k: int| 0 <= k < raw@.len() ==> bypass_found(ev, cv, dv, bv, feature@, trigger@, #[trigger] views(raw@)[k]),
        decreases cms.len() - r,
    {
        assert(cv[r as int] == cms@[r as int]@);
        let reached = cms[r].checkpoint.as_str();
        let ghost full = dominators_of(dv, reached@);
        let mut cursor = immediate_of_exec(doms, reached);
        let mut fuel: usize = doms.len();
        let ghost mut seen: Seq<Seq<char>> = Seq::empty();
        while fuel > 0 && cursor.is_some()
            invariant
                ev == views(edges@),
                cv == views(cms@),
                bv == views(bindings@),
                dv == views(doms@),
                feature@ == intended@.feature,
                checkpoints_distinct(cv),
                forall|k: int| 0 <= k < cms@.len() ==> (#[trigger] binding_for(bv, cv[k].checkpoint)) is Some,
                texts(trigger_events@) == events_of(cv, trigger@),
                r < cms@.len(),
                reached@ == cv[r as int].checkpoint,
                full == dominators_of(dv, reached@),
                full == seen + dominator_chain(dv, optional_view(cursor), fuel as nat),
                forall|k: int| 0 <= k < raw@.len() ==> bypass_found(ev, cv, dv, bv, feature@, trigger@, #[trigger] views(raw@)[k]),
            decreases fuel,
        {
            let d = match &cursor {
                Some(d) => copy_text(d.as_str()),
                None => copy_text(""),
            };
            assert(dominator_chain(dv, optional_view(cursor), fuel as nat) =~= seq![d@] + dominator_chain(
                dv,
                immediate_of(dv, d@),
                (fuel - 1) as nat,
            ));
            assert(full.contains(d@)) by {
                assert(full[seen.len() as int] == d@);
            }
            if !text_eq(d.as_str(), trigger) {
                let forbidden = events_of_exec(cms, d.as_str());
                match supported_path(edges, &trigger_events, &cms[r].anchor_events, &forbidden) {
                    Some((path, coverage)) => {
                        if coverage == RealizationCoverage::Proven {
                            let binding = binding_for_exec(bindings, reached);
                            match binding {
                                Some(b) => {
                                    let mut provenance: Vec<String> = Vec::new();
                                    provenance.push(copy_text(b.source_path()));
                                    provenance.push(copy_text(b.pointer()));
                                    let bypass = BehavioralBypass {
                                        feature: copy_text(feature),
                                        required_dominator: copy_text(d.as_str()),
                                        reached_checkpoint: copy_text(reached),
                                        implementation_path: path,
                                        anchor_provenance: provenance,
                                        coverage: RealizationCoverage::Proven,
                                    };
                                    let ghost before = raw@;
                                    raw.push(bypass);
                                    proof {
                                        crate::order::lemma_views_push_seq(before, bypass);
                                        assert(bypass@.anchor_provenance =~= seq![
                                            binding_for(bv, cv[r as int].checkpoint)->0.source_path,
                                            binding_for(bv, cv[r as int].checkpoint)->0.pointer,
                                        ]);
                                        assert(bypass_found(ev, cv, dv, bv, feature@, trigger@, bypass@));
                                        assert forall|k: int| 0 <= k < raw@.len() implies bypass_found(
                                            ev,
                                            cv,
                                            dv,
                                            bv,
                                            feature@,
                                            trigger@,
                                            #[trigger] views(raw@)[k],
                                        ) by {
                                            if k < before.len() {
                                                assert(views(raw@)[k] == views(before)[k]);
                                            }
                                        }
                                    }
                                },
                                None => {},
                            }
                        }
                    },
                    None => {},
                }
            }
            proof {
                seen = seen.push(d@);
                assert(full =~= seen + dominator_chain(dv, immediate_of(dv, d@), (fuel - 1) as nat));
            }
            cursor = immediate_of_exec(doms, d.as_str());
            fuel = fuel - 1;
        }
        r = r + 1;
    }
    let ghost rv = views(raw@);
    let bypasses = canonical_set_exec(raw);
    let freedom = if bypasses.len() == 0 {
        RealizationCoverage::Partial
    } else {
        RealizationCoverage::Proven
    };
    proof {
        let bpv = views(bypasses@);
        assert forall|k: int| 0 <= k < bpv.len() implies bypass_found(ev, cv, dv, bv, feature@, trigger@, #[trigger] bpv[k]) by {
            assert(bpv.contains(bpv[k]));
            assert(rv.contains(bpv[k]));
        }
    }
    (bypasses, freedom)
}

// ---------------------------------------------------------------------------
// Feature realization.

/// Abstract value of one realized Feature flow.
pub struct RealizedFlowModel {
    pub feature: Seq<char>,
    pub state: FeatureRealizationState,
    pub checkpoints: Seq<CheckpointModel>,
    pub transitions: Seq<TransitionModel>,
    pub bypasses: Seq<BypassModel>,
    pub bypass_freedom: RealizationCoverage,
    pub terminal_reconciliations: nat,
    pub decision_reconciliations: nat,
}

/// Per-Feature realized behavior projection.
#[derive(Debug)]
pub struct RealizedFeatureFlow {
    feature: String,
    state: FeatureRealizationState,
    checkpoints: Vec<RealizedCheckpoint>,
    transitions: Vec<RealizedTransition>,
    bypasses: Vec<BehavioralBypass>,
    bypass_freedom: RealizationCoverage,
    terminal_reconciliations: usize,
    decision_reconciliations: usize,
}

impl View for RealizedFeatureFlow {
    type V = RealizedFlowModel;

    closed spec fn view(&self) -> RealizedFlowModel {
        RealizedFlowModel {
            feature: self.feature@,
            state: self.state,
            checkpoints: views(self.checkpoints@),
            transitions: views(self.transitions@),
            bypasses: views(self.bypasses@),
            bypass_freedom: self.bypass_freedom,
            terminal_reconciliations: self.terminal_reconciliations as nat,
            decision_reconciliations: self.decision_reconciliations as nat,
        }
    }
}

impl RealizedFeatureFlow {
    /// Returns the Feature identity.
    pub fn feature(&self) -> (r: &str)
        ensures
            r@ == self@.feature,
    {
        self.feature.as_str()
    }

    /// Returns the aggregate realization state.
    pub fn state(&self) -> (r: FeatureRealizationState)
        ensures
            r == self@.state,
    {
        self.state
    }

    /// Returns realized checkpoints.
    pub fn checkpoints(&self) -> (r: &[RealizedCheckpoint])
        ensures
            views(r@) == self@.checkpoints,
    {
        self.checkpoints.as_slice()
    }

    /// Returns reconciled transitions.
    pub fn transitions(&self) -> (r: &[RealizedTransition])
        ensures
            views(r@) == self@.transitions,
    {
        self.transitions.as_slice()
    }

    /// Returns proven bypasses.
    pub fn bypasses(&self) -> (r: &[BehavioralBypass])
        ensures
            views(r@) == self@.bypasses,
    {
        self.bypasses.as_slice()
    }

    /// Returns the coverage of the Feature's bypass freedom.
    pub fn bypass_freedom(&self) -> (r: RealizationCoverage)
        ensures
            r == self@.bypass_freedom,
    {
        self.bypass_freedom
    }

    /// Returns the number of realized terminal checkpoints.
    pub fn terminal_reconciliations(&self) -> (r: usize)
        ensures
            r == self@.terminal_reconciliations,
    {
        self.terminal_reconciliations
    }

    /// Returns the number of realized decision branches.
    pub fn decision_reconciliations(&self) -> (r: usize)
        ensures
            r == self@.decision_reconciliations,
    {
        self.decision_reconciliations
    }
}

/// The aggregate state: contradicted by an undeclared or impossible
/// transition or a bypass; partial while a checkpoint is not fully realized
/// or an intended transition is unproven; coherent otherwise.
pub open spec fn feature_state(
    cps: Seq<CheckpointModel>,
    ts: Seq<TransitionModel>,
    bps: Seq<BypassModel>,
) -> FeatureRealizationState {
    if (exists|j: int|
        0 <= j < ts.len() && (#[trigger] ts[j].state == EdgeReconciliationState::RealizedUndeclared || ts[j].state
            == EdgeReconciliationState::IntendedProvenImpossible)) || bps.len() > 0 {
        FeatureRealizationState::RealizedContradicted
    } else if (exists|k: int| 0 <= k < cps.len() && #[trigger] cps[k].state != CheckpointRealizationState::Realized)
        || (exists|j: int| 0 <= j < ts.len() && #[trigger] ts[j].state == EdgeReconciliationState::IntendedUnproven) {
        FeatureRealizationState::RealizationPartial
    } else {
        FeatureRealizationState::RealizedCoherent
    }
}

/// Some checkpoint with identity `t` is realized.
pub open spec fn realized_terminal(cps: Seq<CheckpointModel>, t: Seq<char>) -> bool {
    exists|k: int| 0 <= k < cps.len() && #[trigger] cps[k].checkpoint == t && cps[k].state == CheckpointRealizationState::Realized
}

/// The number of terminal checkpoints that are realized.
pub open spec fn terminal_count(terminals: Seq<Seq<char>>, cps: Seq<CheckpointModel>) -> nat
    decreases terminals.len(),
{
    if terminals.len() == 0 {
        0
    } else {
        terminal_count(terminals.drop_last(), cps) + if realized_terminal(cps, terminals.last()) {
            1nat
        } else {
            0nat
        }
    }
}

/// Some intended-and-realized transition follows the decision branch.
pub open spec fn realized_branch(ts: Seq<TransitionModel>, b: crate::behavior::model::BranchModel) -> bool {
    exists|j: int|
        0 <= j < ts.len() && #[trigger] ts[j].source == b.decision && ts[j].target == b.target && ts[j].state
            == EdgeReconciliationState::IntendedAndRealized
}

/// The number of decision branches that are realized.
pub open spec fn decision_count(branches: Seq<crate::behavior::model::BranchModel>, ts: Seq<TransitionModel>) -> nat
    decreases branches.len(),
{
    if branches.len() == 0 {
        0
    } else {
        decision_count(branches.drop_last(), ts) + if realized_branch(ts, branches.last()) {
            1nat
        } else {
            0nat
        }
    }
}

/// The transition obligations of the intended edges.
pub open spec fn transition_obligations(feature: Seq<char>, edges: Seq<crate::behavior::model::EdgeModel>) -> Seq<ObligationModel> {
    edges.map_values(
        |e: crate::behavior::model::EdgeModel| obligation_of(feature, "checkpoint_transition"@, seq![e.source, e.target]),
    )
}

/// The precedence obligations of the immediate dominators.
pub open spec fn dominator_obligations(feature: Seq<char>, doms: Seq<crate::behavior::model::DominationModel>) -> Seq<ObligationModel>
    decreases doms.len(),
{
    if doms.len() == 0 {
        Seq::empty()
    } else {
        dominator_obligations(feature, doms.drop_last()) + match doms.last().immediate {
            Some(d) => seq![obligation_of(feature, "dominator_precedes_checkpoint"@, seq![d, doms.last().checkpoint])],
            None => Seq::empty(),
        }
    }
}

/// Every obligation of an intended flow: one per intended transition, then
/// one per immediate dominator.
pub open spec fn feature_obligations(flow: crate::behavior::compile::FlowModel) -> Seq<ObligationModel> {
    transition_obligations(flow.feature, flow.edges) + dominator_obligations(flow.feature, flow.immediate_dominators)
}

/// The node checkpoints of a flow are distinct and every node has a binding.
pub open spec fn realizable(flow: crate::behavior::compile::FlowModel, bindings: Seq<ResolvedModel>) -> bool {
    &&& bindings_cover(flow.nodes, bindings)
    &&& forall|i: int, j: int|
        0 <= i < flow.nodes.len() && 0 <= j < flow.nodes.len() && i != j ==> #[trigger] flow.nodes[i].checkpoint
            != #[trigger] flow.nodes[j].checkpoint
}

fn terminal_count_exec(terminals: &[String], cps: &Vec<RealizedCheckpoint>) -> (n: usize)
    ensures
        n == terminal_count(texts(terminals@), views(cps@)),
{
    let ghost tv = texts(terminals@);
    let ghost cv = views(cps@);
    let mut n: usize = 0;
    let mut i: usize = 0;
    while i < terminals.len()
        invariant
            tv == texts(terminals@),
            cv == views(cps@),
            i <= terminals@.len(),
            n <= i,
            n == terminal_count(tv.take(i as int), cv),
        decreases terminals.len() - i,
    {
        assert(tv.take(i + 1).drop_last() =~= tv.take(i as int));
        assert(tv.take(i + 1).last() == terminals@[i as int]@);
        let mut found = false;
        let mut k: usize = 0;
        while k < cps.len()
            invariant
                cv == views(cps@),
                k <= cps@.len(),
                i < terminals@.len(),
                found == exists|x: int|
                    0 <= x < k && #[trigger] cv[x].checkpoint == terminals@[i as int]@ && cv[x].state
                        == CheckpointRealizationState::Realized,
            decreases cps.len() - k,
        {
            assert(cv[k as int] == cps@[k as int]@);
            assert(cv[k as int].checkpoint == cps@[k as int].checkpoint@ && cv[k as int].state == cps@[k as int].state);
            if text_eq(cps[k].checkpoint.as_str(), terminals[i].as_str()) && cps[k].state == CheckpointRealizationState::Realized {
                found = true;
            }
            k = k + 1;
        }
        if found {
            n = n + 1;
        }
        i = i + 1;
    }
    assert(tv.take(terminals@.len() as int) =~= tv);
    n
}

fn decision_count_exec(branches: &[crate::behavior::model::DecisionBranch], ts: &Vec<RealizedTransition>) -> (n: usize)
    ensures
        n == decision_count(views(branches@), views(ts@)),
{
    let ghost bv = views(branches@);
    let ghost tv = views(ts@);
    let mut n: usize = 0;
    let mut i: usize = 0;
    while i < branches.len()
        invariant
            bv == views(branches@),
            tv == views(ts@),
            i <= branches@.len(),
            n <= i,
            n == decision_count(bv.take(i as int), tv),
        decreases branches.len() - i,
    {
        assert(bv.take(i + 1).drop_last() =~= bv.take(i as int));
        assert(bv.take(i + 1).last() == branches@[i as int]@);
        let b = &branches[i];
        let mut found = false;
        let mut k: usize = 0;
        while k < ts.len()
            invariant
                tv == views(ts@),
                k <= ts@.len(),
                i < branches@.len(),
                b@ == bv[i as int],
                bv == views(branches@),
                found == exists|x: int|
                    0 <= x < k && #[trigger] tv[x].source == b@.decision && tv[x].target == b@.target && tv[x].state
                        == EdgeReconciliationState::IntendedAndRealized,
            decreases ts.len() - k,
        {
            assert(tv[k as int] == ts@[k as int]@);
            assert(tv[k as int].source == ts@[k as int].source@ && tv[k as int].target == ts@[k as int].target@);
            if text_eq(ts[k].source.as_str(), b.decision()) && text_eq(ts[k].target.as_str(), b.target())
                && ts[k].state == EdgeReconciliationState::IntendedAndRealized {
                found = true;
            }
            k = k + 1;
        }
        if found {
            n = n + 1;
        }
        i = i + 1;
    }
    assert(bv.take(branches@.len() as int) =~= bv);
    n
}

fn feature_obligations_exec(intended: &crate::behavior::compile::IntendedFeatureFlow) -> (r: Vec<BehavioralVerificationObligation>)
    ensures
        views(r@) == feature_obligations(intended@),
{
    let feature = intended.feature();
    let edges = intended.edges();
    let ghost ev = views(edges@);
    let mut out: Vec<BehavioralVerificationObligation> = Vec::new();
    let mut i: usize = 0;
    while i < edges.len()
        invariant
            ev == views(edges@),
            ev == intended@.edges,
            feature@ == intended@.feature,
            i <= edges@.len(),
            views(out@) == transition_obligations(feature@, ev.take(i as int)),
        decreases edges.len() - i,
    {
        let ghost before = out@;
        assert(ev[i as int] == edges@[i as int]@);
        let mut cps: Vec<String> = Vec::new();
        cps.push(copy_text(edges[i].source()));
        cps.push(copy_text(edges[i].target()));
        assert(texts(cps@) =~= seq![ev[i as int].source, ev[i as int].target]);
        let o = verification_obligation(feature, "checkpoint_transition", cps);
        out.push(o);
        proof {
            crate::order::lemma_views_push_seq(before, o);
            assert(transition_obligations(feature@, ev.take(i + 1)) =~= transition_obligations(feature@, ev.take(i as int)).push(
                o@,
            ));
        }
        i = i + 1;
    }
    assert(ev.take(edges@.len() as int) =~= ev);
    let doms = intended.immediate_dominators();
    let ghost dv = views(doms@);
    let ghost base = views(out@);
    let mut j: usize = 0;
    while j < doms.len()
        invariant
            dv == views(doms@),
            dv == intended@.immediate_dominators,
            feature@ == intended@.feature,
            j <= doms@.len(),
            views(out@) == base + dominator_obligations(feature@, dv.take(j as int)),
        decreases doms.len() - j,
    {
        let ghost before = out@;
        assert(dv.take(j + 1).drop_last() =~= dv.take(j as int));
        assert(dv.take(j + 1).last() == doms@[j as int]@);
        match doms[j].immediate() {
            Some(d) => {
                let mut cps: Vec<String> = Vec::new();
                cps.push(copy_text(d));
                cps.push(copy_text(doms[j].checkpoint()));
                assert(texts(cps@) =~= seq![d@, dv[j as int].checkpoint]);
                let o = verification_obligation(feature, "dominator_precedes_checkpoint", cps);
                out.push(o);
                proof {
                    crate::order::lemma_views_push_seq(before, o);
                }
                assert(views(out@) =~= views(before) + seq![o@]);
            },
            None => {
                assert(views(out@) =~= views(before) + Seq::<ObligationModel>::empty());
            },
        }
        j = j + 1;
    }
    assert(dv.take(doms@.len() as int) =~= dv);
    out
}

fn feature_state_exec(
    cps: &Vec<RealizedCheckpoint>,
    ts: &Vec<RealizedTransition>,
    bps: &Vec<BehavioralBypass>,
) -> (r: FeatureRealizationState)
    ensures
        r == feature_state(views(cps@), views(ts@), views(bps@)),
{
    let ghost cv = views(cps@);
    let ghost tv = views(ts@);
    let mut contradicted = bps.len() > 0;
    let mut unproven = false;
    let mut j: usize = 0;
    while j < ts.len()
        invariant
            tv == views(ts@),
            j <= ts@.len(),
            contradicted == ((exists|x: int|
                0 <= x < j && (#[trigger] tv[x].state == EdgeReconciliationState::RealizedUndeclared || tv[x].state
                    == EdgeReconciliationState::IntendedProvenImpossible)) || views(bps@).len() > 0),
            unproven == exists|x: int| 0 <= x < j && #[trigger] tv[x].state == EdgeReconciliationState::IntendedUnproven,
        decreases ts.len() - j,
    {
        assert(tv[j as int] == ts@[j as int]@);
        assert(tv[j as int].state == ts[j as int].state);
        match ts[j].state {
            EdgeReconciliationState::RealizedUndeclared | EdgeReconciliationState::IntendedProvenImpossible => {
                contradicted = true;
            },
            EdgeReconciliationState::IntendedUnproven => {
                unproven = true;
            },
            _ => {},
        }
        j = j + 1;
    }
    let mut partial = unproven;
    let mut k: usize = 0;
    while k < cps.len()
        invariant
            cv == views(cps@),
            k <= cps@.len(),
            partial == ((exists|x: int| 0 <= x < k && #[trigger] cv[x].state != CheckpointRealizationState::Realized)
                || unproven),
        decreases cps.len() - k,
    {
        assert(cv[k as int] == cps@[k as int]@);
        assert(cv[k as int].state == cps[k as int].state);
        if cps[k].state != CheckpointRealizationState::Realized {
            partial = true;
        }
        k = k + 1;
    }
    if contradicted {
        FeatureRealizationState::RealizedContradicted
    } else if partial {
        FeatureRealizationState::RealizationPartial
    } else {
        FeatureRealizationState::RealizedCoherent
    }
}

/// `f` is the realization of the intended flow: its checkpoints are the
/// node realizations in canonical order; its transitions reconcile every
/// intended edge, each being such a reconciliation or undeclared realized
/// behavior; its bypasses are established; and its state and
/// reconciliation counts follow from these.
pub open spec fn realized_as(
    flow: crate::behavior::compile::FlowModel,
    bindings: Seq<ResolvedModel>,
    events: Seq<EventModel>,
    edges: Seq<EventEdgeModel>,
    domains: Seq<DomainModel>,
    f: RealizedFlowModel,
) -> bool {
    let cms = node_realizations(flow.nodes, bindings, domains, event_ids(events));
    &&& f.feature == flow.feature
    &&& f.checkpoints == canonical_set::<RealizedCheckpoint>(cms)
    &&& crate::order::is_strictly_canonical::<RealizedTransition>(f.transitions)
    &&& transitions_reconciled(edges, cms, flow.edges, f.transitions)
    &&& bypasses_established(
        edges,
        cms,
        flow.immediate_dominators,
        bindings,
        flow.feature,
        flow.trigger_checkpoint,
        f.bypasses,
        f.bypass_freedom,
    )
    &&& f.state == feature_state(f.checkpoints, f.transitions, f.bypasses)
    &&& f.terminal_reconciliations == terminal_count(flow.terminal_checkpoints, f.checkpoints)
    &&& f.decision_reconciliations == decision_count(flow.decision_branches, f.transitions)
}

/// Reconciles one opted-in intended Feature flow with implementation
/// semantics: its checkpoints projected onto their anchor events, its
/// transitions reconciled with supported paths, its dominator bypasses, its
/// aggregate state and reconciliation counts, and its verification
/// obligations.
pub fn realize_feature(
    intended: &crate::behavior::compile::IntendedFeatureFlow,
    bindings: &[ResolvedCheckpointRealization],
    events: &[ImplementationEvent],
    edges: &[ImplementationEventEdge],
    domains: &[BooleanDomain],
) -> (r: (RealizedFeatureFlow, Vec<BehavioralVerificationObligation>))
    requires
        realizable(intended@, views(bindings@)),
    ensures
        realized_as(intended@, views(bindings@), views(events@), views(edges@), views(domains@), r.0@),
        views(r.1@) == feature_obligations(intended@),
{
    let nodes = intended.nodes();
    let cms = node_realizations_exec(nodes, bindings, domains, events);
    let ghost cv = views(cms@);
    proof {
        let nm = intended@.nodes;
        let bv = views(bindings@);
        let dv = views(domains@);
        let ids = event_ids(views(events@));
        assert(cv == node_realizations(nm, bv, dv, ids));
        assert forall|k: int| 0 <= k < cv.len() implies #[trigger] cv[k].checkpoint == nm[k].checkpoint by {
            assert(cv[k] == realized_checkpoint(nm[k], binding_for(bv, nm[k].checkpoint)->0, dv, ids));
        }
        assert forall|i: int, j: int| 0 <= i < cv.len() && 0 <= j < cv.len() && i != j implies #[trigger] cv[i].checkpoint
            != #[trigger] cv[j].checkpoint by {
            assert(cv[i].checkpoint == nm[i].checkpoint);
            assert(cv[j].checkpoint == nm[j].checkpoint);
        }
        assert forall|k: int| 0 <= k < cms@.len() implies (#[trigger] binding_for(bv, cv[k].checkpoint)) is Some by {
            assert(cv[k].checkpoint == nm[k].checkpoint);
            assert(bindings_cover(nm, bv));
            assert(cv.len() == nm.len());
            assert(0 <= k < nm.len());
            assert(binding_for(bv, nm[k].checkpoint) is Some);
        }
    }
    let transitions = reconcile_transitions(edges, &cms, intended.edges());
    let (bypasses, freedom) = derive_bypasses(intended, &cms, edges, bindings);
    let obligations = feature_obligations_exec(intended);
    let checkpoints = canonical_set_exec(cms);
    let state = feature_state_exec(&checkpoints, &transitions, &bypasses);
    let terminals = terminal_count_exec(intended.terminal_checkpoints(), &checkpoints);
    let decisions = decision_count_exec(intended.decision_branches(), &transitions);
    let flow = RealizedFeatureFlow {
        feature: copy_text(intended.feature()),
        state,
        checkpoints,
        transitions,
        bypasses,
        bypass_freedom: freedom,
        terminal_reconciliations: terminals,
        decision_reconciliations: decisions,
    };
    (flow, obligations)
}

// ---------------------------------------------------------------------------
// The Realized BFG.

/// Semantic limits that behavioral realization never upgrades to favorable proof.
pub open spec fn realization_unsupported() -> Seq<Seq<char>> {
    seq![
        "arbitrary_symbolic_execution"@,
        "automatic_checkpoint_inference"@,
        "capability_to_symbol_realization"@,
        "complete_compiler_hir_semantics"@,
        "dynamic_runtime_trace_realization"@,
        "natural_language_anchor_matching"@,
        "path_probability_analysis"@,
        "verified_behavioral_evidence"@,
    ]
}

fn realization_unsupported_exec() -> (r: Vec<String>)
    ensures
        texts(r@) == realization_unsupported(),
{
    let mut v: Vec<String> = Vec::new();
    v.push(copy_text("arbitrary_symbolic_execution"));
    v.push(copy_text("automatic_checkpoint_inference"));
    v.push(copy_text("capability_to_symbol_realization"));
    v.push(copy_text("complete_compiler_hir_semantics"));
    v.push(copy_text("dynamic_runtime_trace_realization"));
    v.push(copy_text("natural_language_anchor_matching"));
    v.push(copy_text("path_probability_analysis"));
    v.push(copy_text("verified_behavioral_evidence"));
    assert(texts(v@) =~= realization_unsupported());
    v
}

/// Abstract value of the implementation event graph.
pub struct EventGraphModel {
    pub events: Seq<EventModel>,
    pub edges: Seq<EventEdgeModel>,
}

/// Canonical implementation event graph, derived from the semantic models
/// without reparsing source.
#[derive(Debug)]
pub struct ImplementationEventModel {
    events: Vec<ImplementationEvent>,
    edges: Vec<ImplementationEventEdge>,
}

impl View for ImplementationEventModel {
    type V = EventGraphModel;

    closed spec fn view(&self) -> EventGraphModel {
        EventGraphModel { events: views(self.events@), edges: views(self.edges@) }
    }
}

impl ImplementationEventModel {
    /// Records the events and their supported transitions.
    pub fn new(events: Vec<ImplementationEvent>, edges: Vec<ImplementationEventEdge>) -> (r: Self)
        ensures
            r@ == (EventGraphModel { events: views(events@), edges: views(edges@) }),
    {
        ImplementationEventModel { events, edges }
    }

    /// Returns canonical semantic events.
    pub fn events(&self) -> (r: &[ImplementationEvent])
        ensures
            views(r@) == self@.events,
    {
        self.events.as_slice()
    }

    /// Returns canonical event edges.
    pub fn edges(&self) -> (r: &[ImplementationEventEdge])
        ensures
            views(r@) == self@.edges,
    {
        self.edges.as_slice()
    }

    /// Returns the semantic version of the event derivation.
    pub fn semantic_version(&self) -> (r: &'static str)
        ensures
            r@ == BEHAVIORAL_REALIZATION_VERSION@,
    {
        BEHAVIORAL_REALIZATION_VERSION
    }

    /// Returns the semantic limits of the event derivation.
    pub fn unsupported_semantics(&self) -> (r: Vec<String>)
        ensures
            texts(r@) == realization_unsupported(),
    {
        realization_unsupported_exec()
    }
}

/// Abstract value of one Feature realization state entry.
pub struct EntryModel {
    pub feature: Seq<char>,
    pub state: FeatureRealizationState,
}

/// One Feature and its realization state.
#[derive(Debug)]
pub struct FeatureRealizationEntry {
    feature: String,
    state: FeatureRealizationState,
}

impl View for FeatureRealizationEntry {
    type V = EntryModel;

    closed spec fn view(&self) -> EntryModel {
        EntryModel { feature: self.feature@, state: self.state }
    }
}

impl FeatureRealizationEntry {
    /// Returns the Feature identity.
    pub fn feature(&self) -> (r: &str)
        ensures
            r@ == self@.feature,
    {
        self.feature.as_str()
    }

    /// Returns the Feature's realization state.
    pub fn state(&self) -> (r: FeatureRealizationState)
        ensures
            r == self@.state,
    {
        self.state
    }
}

/// The rank of a Feature state in canonical order.
pub open spec fn feature_state_rank(s: FeatureRealizationState) -> nat {
    match s {
        FeatureRealizationState::Unmodeled => 0,
        FeatureRealizationState::ModeledUnrealized => 1,
        FeatureRealizationState::RealizationPartial => 2,
        FeatureRealizationState::RealizedCoherent => 3,
        FeatureRealizationState::RealizedContradicted => 4,
    }
}

/// The order fields of an entry: Feature, then state.
pub open spec fn entry_groups(e: EntryModel) -> Seq<Seq<Seq<char>>> {
    seq![single(e.feature), single(rank_field(feature_state_rank(e.state)))]
}

fn entry_groups_exec(e: &FeatureRealizationEntry) -> (g: Vec<Vec<Vec<char>>>)
    ensures
        group_views(g@) == entry_groups(e@),
{
    let mut g: Vec<Vec<Vec<char>>> = Vec::new();
    g.push(single_exec(e.feature.as_str()));
    g.push(rank_group(match e.state {
        FeatureRealizationState::Unmodeled => 0,
        FeatureRealizationState::ModeledUnrealized => 1,
        FeatureRealizationState::RealizationPartial => 2,
        FeatureRealizationState::RealizedCoherent => 3,
        FeatureRealizationState::RealizedContradicted => 4,
    }));
    assert(group_views(g@) =~= entry_groups(e@));
    g
}

impl CanonicalOrder for FeatureRealizationEntry {
    open spec fn ordered(a: EntryModel, b: EntryModel) -> bool {
        groups_le(entry_groups(a), entry_groups(b))
    }

    proof fn lemma_ordered_reflexive(a: EntryModel) {
        lemma_groups_le_reflexive(entry_groups(a));
    }

    proof fn lemma_ordered_transitive(a: EntryModel, b: EntryModel, c: EntryModel) {
        lemma_groups_le_transitive(entry_groups(a), entry_groups(b), entry_groups(c));
    }

    proof fn lemma_ordered_total(a: EntryModel, b: EntryModel) {
        lemma_groups_le_total(entry_groups(a), entry_groups(b));
    }

    fn precedes(&self, other: &Self) -> (r: bool) {
        let a = entry_groups_exec(self);
        let b = entry_groups_exec(other);
        groups_le_exec(&a, &b)
    }
}

impl TotalOrder for FeatureRealizationEntry {
    proof fn lemma_ordered_antisymmetric(a: EntryModel, b: EntryModel) {
        let ga = entry_groups(a);
        let gb = entry_groups(b);
        lemma_groups_le_antisymmetric(ga, gb);
        assert(ga[0][0] == a.feature && gb[0][0] == b.feature);
        lemma_rank_field_len(feature_state_rank(a.state));
        lemma_rank_field_len(feature_state_rank(b.state));
        assert(ga[1][0] == rank_field(feature_state_rank(a.state)));
        assert(gb[1][0] == rank_field(feature_state_rank(b.state)));
    }
}

/// Abstract value of the aggregate counts.
pub struct RealizedSummaryModel {
    pub opted_in_features: nat,
    pub modeled_unrealized_features: nat,
    pub checkpoints: nat,
    pub anchors: nat,
    pub realized_checkpoints: nat,
    pub partial_checkpoints: nat,
    pub unreachable_checkpoints: nat,
    pub unknown_checkpoints: nat,
    pub contradicted_checkpoints: nat,
    pub intended_and_realized_edges: nat,
    pub intended_unproven_edges: nat,
    pub realized_undeclared_edges: nat,
    pub intended_proven_impossible_edges: nat,
    pub dominator_checks: nat,
    pub proven_bypasses: nat,
    pub terminal_reconciliations: nat,
    pub decision_reconciliations: nat,
    pub verification_obligations: nat,
}

/// Aggregate Realized BFG counts (each saturating at the largest count).
#[derive(Clone, Copy, Debug)]
pub struct RealizedBfgSummary {
    opted_in_features: usize,
    modeled_unrealized_features: usize,
    checkpoints: usize,
    anchors: usize,
    realized_checkpoints: usize,
    partial_checkpoints: usize,
    unreachable_checkpoints: usize,
    unknown_checkpoints: usize,
    contradicted_checkpoints: usize,
    intended_and_realized_edges: usize,
    intended_unproven_edges: usize,
    realized_undeclared_edges: usize,
    intended_proven_impossible_edges: usize,
    dominator_checks: usize,
    proven_bypasses: usize,
    terminal_reconciliations: usize,
    decision_reconciliations: usize,
    verification_obligations: usize,
}

impl View for RealizedBfgSummary {
    type V = RealizedSummaryModel;

    closed spec fn view(&self) -> RealizedSummaryModel {
        RealizedSummaryModel {
            opted_in_features: self.opted_in_features as nat,
            modeled_unrealized_features: self.modeled_unrealized_features as nat,
            checkpoints: self.checkpoints as nat,
            anchors: self.anchors as nat,
            realized_checkpoints: self.realized_checkpoints as nat,
            partial_checkpoints: self.partial_checkpoints as nat,
            unreachable_checkpoints: self.unreachable_checkpoints as nat,
            unknown_checkpoints: self.unknown_checkpoints as nat,
            contradicted_checkpoints: self.contradicted_checkpoints as nat,
            intended_and_realized_edges: self.intended_and_realized_edges as nat,
            intended_unproven_edges: self.intended_unproven_edges as nat,
            realized_undeclared_edges: self.realized_undeclared_edges as nat,
            intended_proven_impossible_edges: self.intended_proven_impossible_edges as nat,
            dominator_checks: self.dominator_checks as nat,
            proven_bypasses: self.proven_bypasses as nat,
            terminal_reconciliations: self.terminal_reconciliations as nat,
            decision_reconciliations: self.decision_reconciliations as nat,
            verification_obligations: self.verification_obligations as nat,
        }
    }
}

impl RealizedBfgSummary {
    /// Returns the number of opted-in Feature count.
    pub fn opted_in_features(self) -> (r: usize)
        ensures
            r == self@.opted_in_features,
    {
        self.opted_in_features
    }

    /// Returns the number of modeled Features without an opted-in realization.
    pub fn modeled_unrealized_features(self) -> (r: usize)
        ensures
            r == self@.modeled_unrealized_features,
    {
        self.modeled_unrealized_features
    }

    /// Returns the number of realized checkpoint count.
    pub fn checkpoints(self) -> (r: usize)
        ensures
            r == self@.checkpoints,
    {
        self.checkpoints
    }

    /// Returns the number of authored anchor count.
    pub fn anchors(self) -> (r: usize)
        ensures
            r == self@.anchors,
    {
        self.anchors
    }

    /// Returns the number of realized checkpoints.
    pub fn realized_checkpoints(self) -> (r: usize)
        ensures
            r == self@.realized_checkpoints,
    {
        self.realized_checkpoints
    }

    /// Returns the number of partially realized checkpoints.
    pub fn partial_checkpoints(self) -> (r: usize)
        ensures
            r == self@.partial_checkpoints,
    {
        self.partial_checkpoints
    }

    /// Returns the number of unreachable checkpoints.
    pub fn unreachable_checkpoints(self) -> (r: usize)
        ensures
            r == self@.unreachable_checkpoints,
    {
        self.unreachable_checkpoints
    }

    /// Returns the number of checkpoints of unknown realization.
    pub fn unknown_checkpoints(self) -> (r: usize)
        ensures
            r == self@.unknown_checkpoints,
    {
        self.unknown_checkpoints
    }

    /// Returns the number of contradicted checkpoints.
    pub fn contradicted_checkpoints(self) -> (r: usize)
        ensures
            r == self@.contradicted_checkpoints,
    {
        self.contradicted_checkpoints
    }

    /// Returns the number of intended and realized transitions.
    pub fn intended_and_realized_edges(self) -> (r: usize)
        ensures
            r == self@.intended_and_realized_edges,
    {
        self.intended_and_realized_edges
    }

    /// Returns the number of intended transitions without a supported path.
    pub fn intended_unproven_edges(self) -> (r: usize)
        ensures
            r == self@.intended_unproven_edges,
    {
        self.intended_unproven_edges
    }

    /// Returns the number of realized transitions absent from intent.
    pub fn realized_undeclared_edges(self) -> (r: usize)
        ensures
            r == self@.realized_undeclared_edges,
    {
        self.realized_undeclared_edges
    }

    /// Returns the number of intended transitions proven impossible.
    pub fn intended_proven_impossible_edges(self) -> (r: usize)
        ensures
            r == self@.intended_proven_impossible_edges,
    {
        self.intended_proven_impossible_edges
    }

    /// Returns the number of immediate-dominator relations of opted-in Features.
    pub fn dominator_checks(self) -> (r: usize)
        ensures
            r == self@.dominator_checks,
    {
        self.dominator_checks
    }

    /// Returns the number of proven bypass count.
    pub fn proven_bypasses(self) -> (r: usize)
        ensures
            r == self@.proven_bypasses,
    {
        self.proven_bypasses
    }

    /// Returns the number of realized terminal checkpoints.
    pub fn terminal_reconciliations(self) -> (r: usize)
        ensures
            r == self@.terminal_reconciliations,
    {
        self.terminal_reconciliations
    }

    /// Returns the number of realized decision branches.
    pub fn decision_reconciliations(self) -> (r: usize)
        ensures
            r == self@.decision_reconciliations,
    {
        self.decision_reconciliations
    }

    /// Returns the number of verification obligations.
    pub fn verification_obligations(self) -> (r: usize)
        ensures
            r == self@.verification_obligations,
    {
        self.verification_obligations
    }

    /// Returns proven realization-rule contradictions (saturating).
    pub fn realization_violations(self) -> (r: usize)
        ensures
            r == sat_add(self@.realized_undeclared_edges, self@.intended_proven_impossible_edges),
    {
        self.realized_undeclared_edges.saturating_add(self.intended_proven_impossible_edges)
    }
}

/// A count, saturated at the largest machine count.
pub open spec fn sat_add(a: nat, b: nat) -> nat {
    if a + b > usize::MAX {
        usize::MAX as nat
    } else {
        a + b
    }
}

/// All counts zero.
pub open spec fn zero_summary() -> RealizedSummaryModel {
    RealizedSummaryModel {
        opted_in_features: 0,
        modeled_unrealized_features: 0,
        checkpoints: 0,
        anchors: 0,
        realized_checkpoints: 0,
        partial_checkpoints: 0,
        unreachable_checkpoints: 0,
        unknown_checkpoints: 0,
        contradicted_checkpoints: 0,
        intended_and_realized_edges: 0,
        intended_unproven_edges: 0,
        realized_undeclared_edges: 0,
        intended_proven_impossible_edges: 0,
        dominator_checks: 0,
        proven_bypasses: 0,
        terminal_reconciliations: 0,
        decision_reconciliations: 0,
        verification_obligations: 0,
    }
}

/// Field-wise saturating sum of two count records.
pub open spec fn add_summaries(a: RealizedSummaryModel, b: RealizedSummaryModel) -> RealizedSummaryModel {
    RealizedSummaryModel {
        opted_in_features: sat_add(a.opted_in_features, b.opted_in_features),
        modeled_unrealized_features: sat_add(a.modeled_unrealized_features, b.modeled_unrealized_features),
        checkpoints: sat_add(a.checkpoints, b.checkpoints),
        anchors: sat_add(a.anchors, b.anchors),
        realized_checkpoints: sat_add(a.realized_checkpoints, b.realized_checkpoints),
        partial_checkpoints: sat_add(a.partial_checkpoints, b.partial_checkpoints),
        unreachable_checkpoints: sat_add(a.unreachable_checkpoints, b.unreachable_checkpoints),
        unknown_checkpoints: sat_add(a.unknown_checkpoints, b.unknown_checkpoints),
        contradicted_checkpoints: sat_add(a.contradicted_checkpoints, b.contradicted_checkpoints),
        intended_and_realized_edges: sat_add(a.intended_and_realized_edges, b.intended_and_realized_edges),
        intended_unproven_edges: sat_add(a.intended_unproven_edges, b.intended_unproven_edges),
        realized_undeclared_edges: sat_add(a.realized_undeclared_edges, b.realized_undeclared_edges),
        intended_proven_impossible_edges: sat_add(a.intended_proven_impossible_edges, b.intended_proven_impossible_edges),
        dominator_checks: sat_add(a.dominator_checks, b.dominator_checks),
        proven_bypasses: sat_add(a.proven_bypasses, b.proven_bypasses),
        terminal_reconciliations: sat_add(a.terminal_reconciliations, b.terminal_reconciliations),
        decision_reconciliations: sat_add(a.decision_reconciliations, b.decision_reconciliations),
        verification_obligations: sat_add(a.verification_obligations, b.verification_obligations),
    }
}

fn zero_summary_exec() -> (r: RealizedBfgSummary)
    ensures
        r@ == zero_summary(),
{
    RealizedBfgSummary {
        opted_in_features: 0,
        modeled_unrealized_features: 0,
        checkpoints: 0,
        anchors: 0,
        realized_checkpoints: 0,
        partial_checkpoints: 0,
        unreachable_checkpoints: 0,
        unknown_checkpoints: 0,
        contradicted_checkpoints: 0,
        intended_and_realized_edges: 0,
        intended_unproven_edges: 0,
        realized_undeclared_edges: 0,
        intended_proven_impossible_edges: 0,
        dominator_checks: 0,
        proven_bypasses: 0,
        terminal_reconciliations: 0,
        decision_reconciliations: 0,
        verification_obligations: 0,
    }
}

fn add_summaries_exec(a: RealizedBfgSummary, b: RealizedBfgSummary) -> (r: RealizedBfgSummary)
    ensures
        r@ == add_summaries(a@, b@),
{
    RealizedBfgSummary {
        opted_in_features: a.opted_in_features.saturating_add(b.opted_in_features),
        modeled_unrealized_features: a.modeled_unrealized_features.saturating_add(b.modeled_unrealized_features),
        checkpoints: a.checkpoints.saturating_add(b.checkpoints),
        anchors: a.anchors.saturating_add(b.anchors),
        realized_checkpoints: a.realized_checkpoints.saturating_add(b.realized_checkpoints),
        partial_checkpoints: a.partial_checkpoints.saturating_add(b.partial_checkpoints),
        unreachable_checkpoints: a.unreachable_checkpoints.saturating_add(b.unreachable_checkpoints),
        unknown_checkpoints: a.unknown_checkpoints.saturating_add(b.unknown_checkpoints),
        contradicted_checkpoints: a.contradicted_checkpoints.saturating_add(b.contradicted_checkpoints),
        intended_and_realized_edges: a.intended_and_realized_edges.saturating_add(b.intended_and_realized_edges),
        intended_unproven_edges: a.intended_unproven_edges.saturating_add(b.intended_unproven_edges),
        realized_undeclared_edges: a.realized_undeclared_edges.saturating_add(b.realized_undeclared_edges),
        intended_proven_impossible_edges: a.intended_proven_impossible_edges.saturating_add(b.intended_proven_impossible_edges),
        dominator_checks: a.dominator_checks.saturating_add(b.dominator_checks),
        proven_bypasses: a.proven_bypasses.saturating_add(b.proven_bypasses),
        terminal_reconciliations: a.terminal_reconciliations.saturating_add(b.terminal_reconciliations),
        decision_reconciliations: a.decision_reconciliations.saturating_add(b.decision_reconciliations),
        verification_obligations: a.verification_obligations.saturating_add(b.verification_obligations),
    }
}

/// The number of checkpoints in a state.
pub open spec fn count_checkpoints(cps: Seq<CheckpointModel>, st: CheckpointRealizationState) -> nat
    decreases cps.len(),
{
    if cps.len() == 0 {
        0
    } else {
        count_checkpoints(cps.drop_last(), st) + if cps.last().state == st {
            1nat
        } else {
            0nat
        }
    }
}

/// The number of transitions in a state.
pub open spec fn count_transitions(ts: Seq<TransitionModel>, st: EdgeReconciliationState) -> nat
    decreases ts.len(),
{
    if ts.len() == 0 {
        0
    } else {
        count_transitions(ts.drop_last(), st) + if ts.last().state == st {
            1nat
        } else {
            0nat
        }
    }
}

/// The counts contributed by one realized flow.
pub open spec fn flow_counts(f: RealizedFlowModel) -> RealizedSummaryModel {
    RealizedSummaryModel {
        checkpoints: f.checkpoints.len(),
        realized_checkpoints: count_checkpoints(f.checkpoints, CheckpointRealizationState::Realized),
        partial_checkpoints: count_checkpoints(f.checkpoints, CheckpointRealizationState::PartiallyRealized),
        unreachable_checkpoints: count_checkpoints(f.checkpoints, CheckpointRealizationState::Unreachable),
        unknown_checkpoints: count_checkpoints(f.checkpoints, CheckpointRealizationState::Unknown),
        contradicted_checkpoints: count_checkpoints(f.checkpoints, CheckpointRealizationState::Contradicted),
        intended_and_realized_edges: count_transitions(f.transitions, EdgeReconciliationState::IntendedAndRealized),
        intended_unproven_edges: count_transitions(f.transitions, EdgeReconciliationState::IntendedUnproven),
        realized_undeclared_edges: count_transitions(f.transitions, EdgeReconciliationState::RealizedUndeclared),
        intended_proven_impossible_edges: count_transitions(
            f.transitions,
            EdgeReconciliationState::IntendedProvenImpossible,
        ),
        proven_bypasses: f.bypasses.len(),
        terminal_reconciliations: f.terminal_reconciliations,
        decision_reconciliations: f.decision_reconciliations,
        ..zero_summary()
    }
}

/// The counts contributed by a list of realized flows.
pub open spec fn flows_counts(fs: Seq<RealizedFlowModel>) -> RealizedSummaryModel
    decreases fs.len(),
{
    if fs.len() == 0 {
        zero_summary()
    } else {
        add_summaries(flows_counts(fs.drop_last()), flow_counts(fs.last()))
    }
}

/// The number of immediate-dominator relations of a flow.
pub open spec fn dominator_relations(doms: Seq<crate::behavior::model::DominationModel>) -> nat
    decreases doms.len(),
{
    if doms.len() == 0 {
        0
    } else {
        dominator_relations(doms.drop_last()) + if doms.last().immediate is Some {
            1nat
        } else {
            0nat
        }
    }
}

/// The immediate-dominator relations of the given flows (saturating).
pub open spec fn dominator_checks_of(flows: Seq<crate::behavior::compile::FlowModel>) -> nat
    decreases flows.len(),
{
    if flows.len() == 0 {
        0
    } else {
        sat_add(dominator_checks_of(flows.drop_last()), dominator_relations(flows.last().immediate_dominators))
    }
}

/// The number of authored anchors of the bindings (saturating).
pub open spec fn anchor_count(bindings: Seq<ResolvedModel>) -> nat
    decreases bindings.len(),
{
    if bindings.len() == 0 {
        0
    } else {
        sat_add(anchor_count(bindings.drop_last()), bindings.last().anchors.len())
    }
}

/// The number of entries in a state.
pub open spec fn count_entries(es: Seq<EntryModel>, st: FeatureRealizationState) -> nat
    decreases es.len(),
{
    if es.len() == 0 {
        0
    } else {
        count_entries(es.drop_last(), st) + if es.last().state == st {
            1nat
        } else {
            0nat
        }
    }
}

/// The aggregate counts of a Realized BFG.
pub open spec fn realized_summary(
    contracts: contract::ContractsModel,
    entries: Seq<EntryModel>,
    flows: Seq<RealizedFlowModel>,
    opted: Seq<crate::behavior::compile::FlowModel>,
    obligations: nat,
) -> RealizedSummaryModel {
    RealizedSummaryModel {
        opted_in_features: contracts.features.len(),
        modeled_unrealized_features: count_entries(entries, FeatureRealizationState::ModeledUnrealized),
        anchors: anchor_count(contracts.checkpoints),
        dominator_checks: dominator_checks_of(opted),
        verification_obligations: obligations,
        ..flows_counts(flows)
    }
}

/// The intended flows of opted-in Features, in intended order.
pub open spec fn opted_flows(flows: Seq<crate::behavior::compile::FlowModel>, features: Seq<Seq<char>>) -> Seq<crate::behavior::compile::FlowModel>
    decreases flows.len(),
{
    if flows.len() == 0 {
        Seq::empty()
    } else {
        opted_flows(flows.drop_last(), features) + if features.contains(flows.last().feature) {
            seq![flows.last()]
        } else {
            Seq::empty()
        }
    }
}

/// The realization states of Features that are unmodeled or not opted in.
pub open spec fn modeling_entries(states: Seq<crate::behavior::model::FeatureStateModel>, features: Seq<Seq<char>>) -> Seq<EntryModel>
    decreases states.len(),
{
    if states.len() == 0 {
        Seq::empty()
    } else {
        let s = states.last();
        modeling_entries(states.drop_last(), features) + if s.state == crate::behavior::model::BehavioralModelingState::Unmodeled {
            seq![EntryModel { feature: s.feature, state: FeatureRealizationState::Unmodeled }]
        } else if !features.contains(s.feature) {
            seq![EntryModel { feature: s.feature, state: FeatureRealizationState::ModeledUnrealized }]
        } else {
            Seq::empty()
        }
    }
}

/// The realization state entries of realized flows.
pub open spec fn flow_entries(fs: Seq<RealizedFlowModel>) -> Seq<EntryModel> {
    fs.map_values(|f: RealizedFlowModel| EntryModel { feature: f.feature, state: f.state })
}

/// The obligations of a list of flows, concatenated.
pub open spec fn all_obligations(flows: Seq<crate::behavior::compile::FlowModel>) -> Seq<ObligationModel>
    decreases flows.len(),
{
    if flows.len() == 0 {
        Seq::empty()
    } else {
        all_obligations(flows.drop_last()) + feature_obligations(flows.last())
    }
}

/// Abstract value of the upstream digests.
pub struct DigestsModel {
    pub intended_bfg: Seq<char>,
    pub psm: Seq<char>,
    pub semantic_analysis: Seq<char>,
    pub state_effect: Seq<char>,
    pub information_flow: Seq<char>,
    pub environmental_analysis: Seq<char>,
}

/// Canonical digests of the upstream models a Realized BFG is bound to.
#[derive(Debug)]
pub struct RealizationDigests {
    intended_bfg: String,
    psm: String,
    semantic_analysis: String,
    state_effect: String,
    information_flow: String,
    environmental_analysis: String,
}

impl View for RealizationDigests {
    type V = DigestsModel;

    closed spec fn view(&self) -> DigestsModel {
        DigestsModel {
            intended_bfg: self.intended_bfg@,
            psm: self.psm@,
            semantic_analysis: self.semantic_analysis@,
            state_effect: self.state_effect@,
            information_flow: self.information_flow@,
            environmental_analysis: self.environmental_analysis@,
        }
    }
}

impl RealizationDigests {
    /// Records the digests of the Intended BFG, the program semantic model
    /// and the semantic, state/effect, information-flow and environmental
    /// analyses, in that order.
    pub fn new(
        intended_bfg: String,
        psm: String,
        semantic_analysis: String,
        state_effect: String,
        information_flow: String,
        environmental_analysis: String,
    ) -> (r: Self)
        ensures
            r@ == (DigestsModel {
                intended_bfg: intended_bfg@,
                psm: psm@,
                semantic_analysis: semantic_analysis@,
                state_effect: state_effect@,
                information_flow: information_flow@,
                environmental_analysis: environmental_analysis@,
            }),
    {
        RealizationDigests { intended_bfg, psm, semantic_analysis, state_effect, information_flow, environmental_analysis }
    }
}

/// Abstract value of a Realized BFG.
pub struct RealizedGraphModel {
    pub project_id: Seq<char>,
    pub digests: DigestsModel,
    pub realization_contract_digest: Seq<char>,
    pub summary: RealizedSummaryModel,
    pub feature_states: Seq<EntryModel>,
    pub implementation_events: EventGraphModel,
    pub flows: Seq<RealizedFlowModel>,
    pub verification_obligations: Seq<ObligationModel>,
    pub unsupported_semantics: Seq<Seq<char>>,
}

/// Canonical Realized BFG derived information.
#[derive(Debug)]
pub struct RealizedBehavioralFlowGraph {
    project_id: String,
    digests: RealizationDigests,
    realization_contract_digest: String,
    summary: RealizedBfgSummary,
    feature_states: Vec<FeatureRealizationEntry>,
    implementation_events: ImplementationEventModel,
    flows: Vec<RealizedFeatureFlow>,
    verification_obligations: Vec<BehavioralVerificationObligation>,
    unsupported_semantics: Vec<String>,
}

impl View for RealizedBehavioralFlowGraph {
    type V = RealizedGraphModel;

    closed spec fn view(&self) -> RealizedGraphModel {
        RealizedGraphModel {
            project_id: self.project_id@,
            digests: self.digests@,
            realization_contract_digest: self.realization_contract_digest@,
            summary: self.summary@,
            feature_states: views(self.feature_states@),
            implementation_events: self.implementation_events@,
            flows: views(self.flows@),
            verification_obligations: views(self.verification_obligations@),
            unsupported_semantics: texts(self.unsupported_semantics@),
        }
    }
}

impl RealizedBehavioralFlowGraph {
    /// Returns the schema identity.
    pub fn schema(&self) -> (r: &'static str)
        ensures
            r@ == REALIZED_BFG_SCHEMA@,
    {
        REALIZED_BFG_SCHEMA
    }

    /// Returns the view name.
    pub fn view_name(&self) -> (r: &'static str)
        ensures
            r@ == "realized"@,
    {
        "realized"
    }

    /// Returns the project identity.
    pub fn project_id(&self) -> (r: &str)
        ensures
            r@ == self@.project_id,
    {
        self.project_id.as_str()
    }

    /// Returns the digest of the Realization Contract authority.
    pub fn realization_contract_digest(&self) -> (r: &str)
        ensures
            r@ == self@.realization_contract_digest,
    {
        self.realization_contract_digest.as_str()
    }

    /// Returns aggregate realization counts.
    pub fn summary(&self) -> (r: RealizedBfgSummary)
        ensures
            r@ == self@.summary,
    {
        self.summary
    }

    /// Returns the realization state of each Feature.
    pub fn feature_states(&self) -> (r: &[FeatureRealizationEntry])
        ensures
            views(r@) == self@.feature_states,
    {
        self.feature_states.as_slice()
    }

    /// Returns the implementation event graph.
    pub fn implementation_events(&self) -> (r: &ImplementationEventModel)
        ensures
            r@ == self@.implementation_events,
    {
        &self.implementation_events
    }

    /// Returns per-Feature realization projections.
    pub fn flows(&self) -> (r: &[RealizedFeatureFlow])
        ensures
            views(r@) == self@.flows,
    {
        self.flows.as_slice()
    }

    /// Returns deterministic verification obligations without claiming evidence.
    pub fn verification_obligations(&self) -> (r: &[BehavioralVerificationObligation])
        ensures
            views(r@) == self@.verification_obligations,
    {
        self.verification_obligations.as_slice()
    }

    /// Returns explicit semantic limits.
    pub fn unsupported_semantics(&self) -> (r: &[String])
        ensures
            texts(r@) == self@.unsupported_semantics,
    {
        self.unsupported_semantics.as_slice()
    }
}

fn count_checkpoints_exec(cps: &[RealizedCheckpoint], st: CheckpointRealizationState) -> (n: usize)
    ensures
        n == count_checkpoints(views(cps@), st),
{
    let ghost cv = views(cps@);
    let mut n: usize = 0;
    let mut i: usize = 0;
    while i < cps.len()
        invariant
            cv == views(cps@),
            i <= cps@.len(),
            n <= i,
            n == count_checkpoints(cv.take(i as int), st),
        decreases cps.len() - i,
    {
        assert(cv.take(i + 1).drop_last() =~= cv.take(i as int));
        assert(cv.take(i + 1).last() == cps@[i as int]@);
        if cps[i].state == st {
            n = n + 1;
        }
        i = i + 1;
    }
    assert(cv.take(cps@.len() as int) =~= cv);
    n
}

fn count_transitions_exec(ts: &[RealizedTransition], st: EdgeReconciliationState) -> (n: usize)
    ensures
        n == count_transitions(views(ts@), st),
{
    let ghost tv = views(ts@);
    let mut n: usize = 0;
    let mut i: usize = 0;
    while i < ts.len()
        invariant
            tv == views(ts@),
            i <= ts@.len(),
            n <= i,
            n == count_transitions(tv.take(i as int), st),
        decreases ts.len() - i,
    {
        assert(tv.take(i + 1).drop_last() =~= tv.take(i as int));
        assert(tv.take(i + 1).last() == ts@[i as int]@);
        if ts[i].state == st {
            n = n + 1;
        }
        i = i + 1;
    }
    assert(tv.take(ts@.len() as int) =~= tv);
    n
}

fn flow_counts_exec(f: &RealizedFeatureFlow) -> (r: RealizedBfgSummary)
    ensures
        r@ == flow_counts(f@),
{
    let cps = f.checkpoints.as_slice();
    let ts = f.transitions.as_slice();
    let mut r = zero_summary_exec();
    r.checkpoints = cps.len();
    r.realized_checkpoints = count_checkpoints_exec(cps, CheckpointRealizationState::Realized);
    r.partial_checkpoints = count_checkpoints_exec(cps, CheckpointRealizationState::PartiallyRealized);
    r.unreachable_checkpoints = count_checkpoints_exec(cps, CheckpointRealizationState::Unreachable);
    r.unknown_checkpoints = count_checkpoints_exec(cps, CheckpointRealizationState::Unknown);
    r.contradicted_checkpoints = count_checkpoints_exec(cps, CheckpointRealizationState::Contradicted);
    r.intended_and_realized_edges = count_transitions_exec(ts, EdgeReconciliationState::IntendedAndRealized);
    r.intended_unproven_edges = count_transitions_exec(ts, EdgeReconciliationState::IntendedUnproven);
    r.realized_undeclared_edges = count_transitions_exec(ts, EdgeReconciliationState::RealizedUndeclared);
    r.intended_proven_impossible_edges = count_transitions_exec(ts, EdgeReconciliationState::IntendedProvenImpossible);
    r.proven_bypasses = f.bypasses.len();
    r.terminal_reconciliations = f.terminal_reconciliations;
    r.decision_reconciliations = f.decision_reconciliations;
    r
}

fn dominator_relations_exec(doms: &[crate::behavior::model::ImmediateDomination]) -> (n: usize)
    ensures
        n == dominator_relations(views(doms@)),
{
    let ghost dv = views(doms@);
    let mut n: usize = 0;
    let mut i: usize = 0;
    while i < doms.len()
        invariant
            dv == views(doms@),
            i <= doms@.len(),
            n <= i,
            n == dominator_relations(dv.take(i as int)),
        decreases doms.len() - i,
    {
        assert(dv.take(i + 1).drop_last() =~= dv.take(i as int));
        assert(dv.take(i + 1).last() == doms@[i as int]@);
        if doms[i].immediate().is_some() {
            n = n + 1;
        }
        i = i + 1;
    }
    assert(dv.take(doms@.len() as int) =~= dv);
    n
}

fn anchor_count_exec(bindings: &[ResolvedCheckpointRealization]) -> (n: usize)
    ensures
        n == anchor_count(views(bindings@)),
{
    let ghost bv = views(bindings@);
    let mut n: usize = 0;
    let mut i: usize = 0;
    while i < bindings.len()
        invariant
            bv == views(bindings@),
            i <= bindings@.len(),
            n == anchor_count(bv.take(i as int)),
        decreases bindings.len() - i,
    {
        assert(bv.take(i + 1).drop_last() =~= bv.take(i as int));
        assert(bv.take(i + 1).last() == bindings@[i as int]@);
        let k = bindings[i].anchors().len();
        n = n.saturating_add(k);
        i = i + 1;
    }
    assert(bv.take(bindings@.len() as int) =~= bv);
    n
}

fn count_entries_exec(es: &Vec<FeatureRealizationEntry>, st: FeatureRealizationState) -> (n: usize)
    ensures
        n == count_entries(views(es@), st),
{
    let ghost ev = views(es@);
    let mut n: usize = 0;
    let mut i: usize = 0;
    while i < es.len()
        invariant
            ev == views(es@),
            i <= es@.len(),
            n <= i,
            n == count_entries(ev.take(i as int), st),
        decreases es.len() - i,
    {
        assert(ev.take(i + 1).drop_last() =~= ev.take(i as int));
        assert(ev.take(i + 1).last() == es@[i as int]@);
        if es[i].state == st {
            n = n + 1;
        }
        i = i + 1;
    }
    assert(ev.take(es@.len() as int) =~= ev);
    n
}

fn texts_contain_slice(values: &[String], needle: &str) -> (r: bool)
    ensures
        r == texts(values@).contains(needle@),
{
    let ghost tv = texts(values@);
    let mut i: usize = 0;
    while i < values.len()
        invariant
            tv == texts(values@),
            i <= values@.len(),
            forall|k: int| 0 <= k < i ==> tv[k] != needle@,
        decreases values.len() - i,
    {
        if text_eq(values[i].as_str(), needle) {
            assert(tv[i as int] == needle@);
            return true;
        }
        i = i + 1;
    }
    false
}

fn modeling_entries_exec(
    states: &[crate::behavior::model::FeatureModelingState],
    features: &[String],
) -> (r: Vec<FeatureRealizationEntry>)
    ensures
        views(r@) == modeling_entries(views(states@), texts(features@)),
{
    let ghost sv = views(states@);
    let mut out: Vec<FeatureRealizationEntry> = Vec::new();
    let mut i: usize = 0;
    while i < states.len()
        invariant
            sv == views(states@),
            i <= states@.len(),
            views(out@) == modeling_entries(sv.take(i as int), texts(features@)),
        decreases states.len() - i,
    {
        assert(sv.take(i + 1).drop_last() =~= sv.take(i as int));
        assert(sv.take(i + 1).last() == states@[i as int]@);
        let ghost before = out@;
        let st = &states[i];
        if st.state() == crate::behavior::model::BehavioralModelingState::Unmodeled {
            let e = FeatureRealizationEntry { feature: copy_text(st.feature()), state: FeatureRealizationState::Unmodeled };
            out.push(e);
            proof {
                crate::order::lemma_views_push_seq(before, e);
            }
            assert(views(out@) =~= views(before) + seq![e@]);
        } else if !texts_contain_slice(features, st.feature()) {
            let e = FeatureRealizationEntry {
                feature: copy_text(st.feature()),
                state: FeatureRealizationState::ModeledUnrealized,
            };
            out.push(e);
            proof {
                crate::order::lemma_views_push_seq(before, e);
            }
            assert(views(out@) =~= views(before) + seq![e@]);
        } else {
            assert(views(out@) =~= views(before) + Seq::<EntryModel>::empty());
        }
        i = i + 1;
    }
    assert(sv.take(states@.len() as int) =~= sv);
    out
}

/// Every opted-in flow can be realized from the bindings.
pub open spec fn contracts_cover(
    flows: Seq<crate::behavior::compile::FlowModel>,
    contracts: contract::ContractsModel,
) -> bool {
    forall|k: int| 0 <= k < opted_flows(flows, contracts.features).len() ==> realizable(
        #[trigger] opted_flows(flows, contracts.features)[k],
        contracts.checkpoints,
    )
}

/// The Realized BFG of an Intended BFG under a resolved contract set: the
/// realization of each opted-in flow in intended order; the realization
/// state of every Feature in canonical order; the verification obligations
/// of the opted-in flows in canonical order without repetition; and the
/// aggregate counts of these.
pub open spec fn realized_graph(
    intended: crate::behavior::bfg::GraphModel,
    contracts: contract::ContractsModel,
    events: EventGraphModel,
    domains: Seq<DomainModel>,
    project_id: Seq<char>,
    digests: DigestsModel,
    g: RealizedGraphModel,
) -> bool {
    let opted = opted_flows(intended.flows, contracts.features);
    &&& g.project_id == project_id
    &&& g.digests == digests
    &&& g.realization_contract_digest == contracts.digest
    &&& g.implementation_events == events
    &&& g.unsupported_semantics == realization_unsupported()
    &&& g.flows.len() == opted.len()
    &&& forall|k: int|
        0 <= k < opted.len() ==> realized_as(
            #[trigger] opted[k],
            contracts.checkpoints,
            events.events,
            events.edges,
            domains,
            g.flows[k],
        )
    &&& g.feature_states == canonical_set::<FeatureRealizationEntry>(
        modeling_entries(intended.feature_states, contracts.features) + flow_entries(g.flows),
    )
    &&& g.verification_obligations == canonical_set::<BehavioralVerificationObligation>(all_obligations(opted))
    &&& g.summary == realized_summary(contracts, g.feature_states, g.flows, opted, g.verification_obligations.len())
}

/// Compiles the Realized BFG of every opted-in Feature of an Intended BFG
/// over a given implementation-event graph.
#[verifier::rlimit(50)]
pub fn compile_realized_bfg_from_events(
    intended: &crate::behavior::bfg::IntendedBehavioralFlowGraph,
    event_model: ImplementationEventModel,
    domains: &[BooleanDomain],
    contracts: &contract::ResolvedBehaviorRealizationContracts,
    project_id: &str,
    digests: RealizationDigests,
) -> (r: RealizedBehavioralFlowGraph)
    requires
        contracts_cover(intended@.flows, contracts@),
    ensures
        realized_graph(intended@, contracts@, event_model@, views(domains@), project_id@, digests@, r@),
{
    let ghost em = event_model@;
    let features = contracts.features();
    let bindings = contracts.checkpoints();
    let flows_in = intended.flows();
    let ghost fv = views(flows_in@);
    let ghost opted = opted_flows(fv, texts(features@));
    let mut flows: Vec<RealizedFeatureFlow> = Vec::new();
    let mut obligations: Vec<BehavioralVerificationObligation> = Vec::new();
    let mut dominator_checks: usize = 0;
    let mut i: usize = 0;
    while i < flows_in.len()
        invariant
            fv == views(flows_in@),
            fv == intended@.flows,
            texts(features@) == contracts@.features,
            views(bindings@) == contracts@.checkpoints,
            opted == opted_flows(fv, texts(features@)),
            contracts_cover(fv, contracts@),
            em == event_model@,
            i <= flows_in@.len(),
            flows@.len() == opted_flows(fv.take(i as int), texts(features@)).len(),
            forall|k: int|
                0 <= k < flows@.len() ==> realized_as(
                    #[trigger] opted_flows(fv.take(i as int), texts(features@))[k],
                    contracts@.checkpoints,
                    em.events,
                    em.edges,
                    views(domains@),
                    views(flows@)[k],
                ),
            views(obligations@) == all_obligations(opted_flows(fv.take(i as int), texts(features@))),
            dominator_checks == dominator_checks_of(opted_flows(fv.take(i as int), texts(features@))),
        decreases flows_in.len() - i,
    {
        let ghost prefix = opted_flows(fv.take(i as int), texts(features@));
        assert(fv.take(i + 1).drop_last() =~= fv.take(i as int));
        assert(fv.take(i + 1).last() == flows_in@[i as int]@);
        let flow = &flows_in[i];
        if texts_contain_slice(features, flow.feature()) {
            proof {
                assert(opted_flows(fv.take(i + 1), texts(features@)) =~= prefix.push(fv[i as int]));
                lemma_opted_prefix(fv, texts(features@), i as int + 1);
                let np = opted_flows(fv.take(i + 1), texts(features@));
                assert(np[prefix.len() as int] == fv[i as int]);
                assert(opted[prefix.len() as int] == fv[i as int]);
                assert(np.drop_last() =~= prefix);
                assert(np.last() == fv[i as int]);
                assert(fv[i as int] == flow@);
                assert(realizable(opted[prefix.len() as int], contracts@.checkpoints));
            }
            let (realized, mut more) = realize_feature(
                flow,
                bindings,
                event_model.events(),
                event_model.edges(),
                domains,
            );
            let ghost ob = views(obligations@);
            let ghost added = views(more@);
            obligations.append(&mut more);
            assert(views(obligations@) =~= ob + added);
            let relations = dominator_relations_exec(flow.immediate_dominators());
            dominator_checks = dominator_checks.saturating_add(relations);
            let ghost fb = flows@;
            flows.push(realized);
            proof {
                crate::order::lemma_views_push_seq(fb, realized);
                let np = opted_flows(fv.take(i + 1), texts(features@));
                assert forall|k: int| 0 <= k < flows@.len() implies realized_as(
                    #[trigger] np[k],
                    contracts@.checkpoints,
                    em.events,
                    em.edges,
                    views(domains@),
                    views(flows@)[k],
                ) by {
                    if k < fb.len() {
                        assert(np[k] == prefix[k]);
                        assert(views(flows@)[k] == views(fb)[k]);
                    }
                }
            }
        } else {
            assert(opted_flows(fv.take(i + 1), texts(features@)) =~= prefix);
        }
        i = i + 1;
    }
    assert(fv.take(flows_in@.len() as int) =~= fv);
    let mut entries = modeling_entries_exec(intended.feature_states(), features);
    let ghost modeling = views(entries@);
    let mut j: usize = 0;
    while j < flows.len()
        invariant
            views(entries@) == modeling + flow_entries(views(flows@).take(j as int)),
            j <= flows@.len(),
        decreases flows.len() - j,
    {
        let ghost before = entries@;
        let e = FeatureRealizationEntry { feature: copy_text(flows[j].feature.as_str()), state: flows[j].state };
        entries.push(e);
        proof {
            crate::order::lemma_views_push_seq(before, e);
            assert(views(flows@)[j as int] == flows@[j as int]@);
            assert(flow_entries(views(flows@).take(j + 1)) =~= flow_entries(views(flows@).take(j as int)).push(e@));
        }
        j = j + 1;
    }
    assert(views(flows@).take(flows@.len() as int) =~= views(flows@));
    let feature_states = canonical_set_exec(entries);
    let obligations = canonical_set_exec(obligations);
    let mut summary = zero_summary_exec();
    let mut k: usize = 0;
    while k < flows.len()
        invariant
            summary@ == flows_counts(views(flows@).take(k as int)),
            k <= flows@.len(),
        decreases flows.len() - k,
    {
        assert(views(flows@).take(k + 1).drop_last() =~= views(flows@).take(k as int));
        assert(views(flows@).take(k + 1).last() == flows@[k as int]@);
        summary = add_summaries_exec(summary, flow_counts_exec(&flows[k]));
        k = k + 1;
    }
    assert(views(flows@).take(flows@.len() as int) =~= views(flows@));
    summary.opted_in_features = features.len();
    summary.modeled_unrealized_features = count_entries_exec(&feature_states, FeatureRealizationState::ModeledUnrealized);
    summary.anchors = anchor_count_exec(bindings);
    summary.dominator_checks = dominator_checks;
    summary.verification_obligations = obligations.len();
    RealizedBehavioralFlowGraph {
        project_id: copy_text(project_id),
        digests,
        realization_contract_digest: copy_text(contracts.digest()),
        summary,
        feature_states,
        implementation_events: event_model,
        flows,
        verification_obligations: obligations,
        unsupported_semantics: realization_unsupported_exec(),
    }
}

proof fn lemma_opted_prefix(flows: Seq<crate::behavior::compile::FlowModel>, features: Seq<Seq<char>>, n: int)
    requires
        0 <= n <= flows.len(),
    ensures
        opted_flows(flows.take(n), features).len() <= opted_flows(flows, features).len(),
        forall|k: int|
            0 <= k < opted_flows(flows.take(n), features).len() ==> #[trigger] opted_flows(flows.take(n), features)[k]
                == opted_flows(flows, features)[k],
    decreases flows.len() - n,
{
    if n < flows.len() {
        lemma_opted_prefix(flows, features, n + 1);
        assert(flows.take(n + 1).drop_last() =~= flows.take(n));
        let a = opted_flows(flows.take(n), features);
        let b = opted_flows(flows.take(n + 1), features);
        assert forall|k: int| 0 <= k < a.len() implies #[trigger] a[k] == opted_flows(flows, features)[k] by {
            assert(a[k] == b[k]);
        }
    } else {
        assert(flows.take(n) =~= flows);
    }
}

// ---------------------------------------------------------------------------
// Rule findings.

/// Remediation of a realization contradiction.
pub const REALIZATION_REMEDIATION: &'static str = "Correct the realization contract or implementation so every opted-in checkpoint and intended transition has exact supported realization and no undeclared semantic transition or terminal remains.";

/// Remediation of a dominator bypass.
pub const BYPASS_REMEDIATION: &'static str = "Correct the implementation so every supported route to the reached checkpoint passes its Intended BFG dominator, or correct the authored behavior if the intended mandatory passage is wrong.";

/// Abstract value of one behavioral finding.
pub struct BehaviorFindingModel {
    pub rule_id: Seq<char>,
    pub feature: Seq<char>,
    pub message: Seq<char>,
    pub remediation: Seq<char>,
    pub standard_edition: Seq<char>,
}

/// One finding of a behavioral realization rule about one Feature.
#[derive(Debug)]
pub struct BehaviorFinding {
    rule_id: String,
    feature: String,
    message: String,
    remediation: String,
    standard_edition: String,
}

impl View for BehaviorFinding {
    type V = BehaviorFindingModel;

    closed spec fn view(&self) -> BehaviorFindingModel {
        BehaviorFindingModel {
            rule_id: self.rule_id@,
            feature: self.feature@,
            message: self.message@,
            remediation: self.remediation@,
            standard_edition: self.standard_edition@,
        }
    }
}

impl BehaviorFinding {
    /// Returns the rule identity.
    pub fn rule_id(&self) -> (r: &str)
        ensures
            r@ == self@.rule_id,
    {
        self.rule_id.as_str()
    }

    /// Returns the Feature the finding concerns.
    pub fn feature(&self) -> (r: &str)
        ensures
            r@ == self@.feature,
    {
        self.feature.as_str()
    }

    /// Returns the explanation.
    pub fn message(&self) -> (r: &str)
        ensures
            r@ == self@.message,
    {
        self.message.as_str()
    }

    /// Returns the remediation guidance.
    pub fn remediation(&self) -> (r: &str)
        ensures
            r@ == self@.remediation,
    {
        self.remediation.as_str()
    }
}

/// The order fields of a finding.
pub open spec fn finding_groups(f: BehaviorFindingModel) -> Seq<Seq<Seq<char>>> {
    seq![single(f.rule_id), single(f.feature), single(f.message), single(f.remediation), single(f.standard_edition)]
}

fn finding_groups_exec(f: &BehaviorFinding) -> (g: Vec<Vec<Vec<char>>>)
    ensures
        group_views(g@) == finding_groups(f@),
{
    let mut g: Vec<Vec<Vec<char>>> = Vec::new();
    g.push(single_exec(f.rule_id.as_str()));
    g.push(single_exec(f.feature.as_str()));
    g.push(single_exec(f.message.as_str()));
    g.push(single_exec(f.remediation.as_str()));
    g.push(single_exec(f.standard_edition.as_str()));
    assert(group_views(g@) =~= finding_groups(f@));
    g
}

impl CanonicalOrder for BehaviorFinding {
    open spec fn ordered(a: BehaviorFindingModel, b: BehaviorFindingModel) -> bool {
        groups_le(finding_groups(a), finding_groups(b))
    }

    proof fn lemma_ordered_reflexive(a: BehaviorFindingModel) {
        lemma_groups_le_reflexive(finding_groups(a));
    }

    proof fn lemma_ordered_transitive(a: BehaviorFindingModel, b: BehaviorFindingModel, c: BehaviorFindingModel) {
        lemma_groups_le_transitive(finding_groups(a), finding_groups(b), finding_groups(c));
    }

    proof fn lemma_ordered_total(a: BehaviorFindingModel, b: BehaviorFindingModel) {
        lemma_groups_le_total(finding_groups(a), finding_groups(b));
    }

    fn precedes(&self, other: &Self) -> (r: bool) {
        let a = finding_groups_exec(self);
        let b = finding_groups_exec(other);
        groups_le_exec(&a, &b)
    }
}

impl TotalOrder for BehaviorFinding {
    proof fn lemma_ordered_antisymmetric(a: BehaviorFindingModel, b: BehaviorFindingModel) {
        let ga = finding_groups(a);
        let gb = finding_groups(b);
        lemma_groups_le_antisymmetric(ga, gb);
        assert(ga[0][0] == a.rule_id && gb[0][0] == b.rule_id);
        assert(ga[1][0] == a.feature && gb[1][0] == b.feature);
        assert(ga[2][0] == a.message && gb[2][0] == b.message);
        assert(ga[3][0] == a.remediation && gb[3][0] == b.remediation);
        assert(ga[4][0] == a.standard_edition && gb[4][0] == b.standard_edition);
    }
}

/// The name of a transition state.
pub open spec fn edge_state_name(s: EdgeReconciliationState) -> Seq<char> {
    match s {
        EdgeReconciliationState::IntendedAndRealized => "IntendedAndRealized"@,
        EdgeReconciliationState::IntendedUnproven => "IntendedUnproven"@,
        EdgeReconciliationState::RealizedUndeclared => "RealizedUndeclared"@,
        EdgeReconciliationState::IntendedProvenImpossible => "IntendedProvenImpossible"@,
    }
}

/// A transition that contradicts intent.
pub open spec fn is_contradiction(t: TransitionModel) -> bool {
    t.state == EdgeReconciliationState::RealizedUndeclared || t.state == EdgeReconciliationState::IntendedProvenImpossible
}

/// The finding of one contradicting transition.
pub open spec fn transition_finding(feature: Seq<char>, t: TransitionModel, edition: Seq<char>) -> BehaviorFindingModel {
    BehaviorFindingModel {
        rule_id: BEHAVIOR_REALIZATION_RULE_ID@,
        feature,
        message: edge_state_name(t.state) + ": Feature "@ + feature + " transition "@ + t.source + " -> "@ + t.target
            + "; implementation path: "@ + join_texts(t.implementation_path, " -> "@),
        remediation: REALIZATION_REMEDIATION@,
        standard_edition: edition,
    }
}

/// The finding of one bypass.
pub open spec fn bypass_finding(feature: Seq<char>, b: BypassModel, edition: Seq<char>) -> BehaviorFindingModel {
    BehaviorFindingModel {
        rule_id: BEHAVIOR_BYPASS_RULE_ID@,
        feature,
        message: "Feature "@ + feature + " reaches "@ + b.reached_checkpoint + " while bypassing required dominator "@
            + b.required_dominator + "; implementation path: "@ + join_texts(b.implementation_path, " -> "@),
        remediation: BYPASS_REMEDIATION@,
        standard_edition: edition,
    }
}

/// The findings of a flow's contradicting transitions, in order.
pub open spec fn flow_transition_findings(feature: Seq<char>, ts: Seq<TransitionModel>, edition: Seq<char>) -> Seq<BehaviorFindingModel>
    decreases ts.len(),
{
    if ts.len() == 0 {
        Seq::empty()
    } else {
        flow_transition_findings(feature, ts.drop_last(), edition) + if is_contradiction(ts.last()) {
            seq![transition_finding(feature, ts.last(), edition)]
        } else {
            Seq::empty()
        }
    }
}

/// The realization findings of every flow.
pub open spec fn realization_findings_of(fs: Seq<RealizedFlowModel>, edition: Seq<char>) -> Seq<BehaviorFindingModel>
    decreases fs.len(),
{
    if fs.len() == 0 {
        Seq::empty()
    } else {
        realization_findings_of(fs.drop_last(), edition) + flow_transition_findings(fs.last().feature, fs.last().transitions, edition)
    }
}

/// The bypass findings of every flow.
pub open spec fn bypass_findings_of(fs: Seq<RealizedFlowModel>, edition: Seq<char>) -> Seq<BehaviorFindingModel>
    decreases fs.len(),
{
    if fs.len() == 0 {
        Seq::empty()
    } else {
        bypass_findings_of(fs.drop_last(), edition) + fs.last().bypasses.map_values(
            |b: BypassModel| bypass_finding(fs.last().feature, b, edition),
        )
    }
}

/// Abstract value of an evaluation.
pub struct RealizationEvaluationModel {
    pub graph: RealizedGraphModel,
    pub realization_findings: Seq<BehaviorFindingModel>,
    pub bypass_findings: Seq<BehaviorFindingModel>,
}

/// Rule-facing realized-behavior evaluation.
#[derive(Debug)]
pub struct BehavioralRealizationEvaluation {
    graph: RealizedBehavioralFlowGraph,
    realization_findings: Vec<BehaviorFinding>,
    bypass_findings: Vec<BehaviorFinding>,
}

impl View for BehavioralRealizationEvaluation {
    type V = RealizationEvaluationModel;

    closed spec fn view(&self) -> RealizationEvaluationModel {
        RealizationEvaluationModel {
            graph: self.graph@,
            realization_findings: views(self.realization_findings@),
            bypass_findings: views(self.bypass_findings@),
        }
    }
}

impl BehavioralRealizationEvaluation {
    /// Returns the canonical Realized BFG.
    pub fn graph(&self) -> (r: &RealizedBehavioralFlowGraph)
        ensures
            r@ == self@.graph,
    {
        &self.graph
    }

    /// Returns realization-rule findings.
    pub fn realization_findings(&self) -> (r: &[BehaviorFinding])
        ensures
            views(r@) == self@.realization_findings,
    {
        self.realization_findings.as_slice()
    }

    /// Returns bypass-rule findings.
    pub fn bypass_findings(&self) -> (r: &[BehaviorFinding])
        ensures
            views(r@) == self@.bypass_findings,
    {
        self.bypass_findings.as_slice()
    }
}

fn edge_state_name_exec(s: EdgeReconciliationState) -> (r: &'static str)
    ensures
        r@ == edge_state_name(s),
{
    match s {
        EdgeReconciliationState::IntendedAndRealized => "IntendedAndRealized",
        EdgeReconciliationState::IntendedUnproven => "IntendedUnproven",
        EdgeReconciliationState::RealizedUndeclared => "RealizedUndeclared",
        EdgeReconciliationState::IntendedProvenImpossible => "IntendedProvenImpossible",
    }
}

fn transition_finding_exec(feature: &str, t: &RealizedTransition, edition: &str) -> (r: BehaviorFinding)
    ensures
        r@ == transition_finding(feature@, t@, edition@),
{
    let m = concat(edge_state_name_exec(t.state), ": Feature ");
    let m = concat(m.as_str(), feature);
    let m = concat(m.as_str(), " transition ");
    let m = concat(m.as_str(), t.source.as_str());
    let m = concat(m.as_str(), " -> ");
    let m = concat(m.as_str(), t.target.as_str());
    let m = concat(m.as_str(), "; implementation path: ");
    let path = join(t.implementation_path.as_slice(), " -> ");
    let m = concat(m.as_str(), path.as_str());
    BehaviorFinding {
        rule_id: copy_text(BEHAVIOR_REALIZATION_RULE_ID),
        feature: copy_text(feature),
        message: m,
        remediation: copy_text(REALIZATION_REMEDIATION),
        standard_edition: copy_text(edition),
    }
}

fn bypass_finding_exec(feature: &str, b: &BehavioralBypass, edition: &str) -> (r: BehaviorFinding)
    ensures
        r@ == bypass_finding(feature@, b@, edition@),
{
    let m = concat("Feature ", feature);
    let m = concat(m.as_str(), " reaches ");
    let m = concat(m.as_str(), b.reached_checkpoint.as_str());
    let m = concat(m.as_str(), " while bypassing required dominator ");
    let m = concat(m.as_str(), b.required_dominator.as_str());
    let m = concat(m.as_str(), "; implementation path: ");
    let path = join(b.implementation_path.as_slice(), " -> ");
    let m = concat(m.as_str(), path.as_str());
    BehaviorFinding {
        rule_id: copy_text(BEHAVIOR_BYPASS_RULE_ID),
        feature: copy_text(feature),
        message: m,
        remediation: copy_text(BYPASS_REMEDIATION),
        standard_edition: copy_text(edition),
    }
}

fn flow_findings_exec(f: &RealizedFeatureFlow, edition: &str, realization: &mut Vec<BehaviorFinding>, bypass: &mut Vec<BehaviorFinding>)
    ensures
        views(final(realization)@) == views(old(realization)@) + flow_transition_findings(f@.feature, f@.transitions, edition@),
        views(final(bypass)@) == views(old(bypass)@) + f@.bypasses.map_values(|b: BypassModel| bypass_finding(f@.feature, b, edition@)),
{
    let ghost rbase = views(realization@);
    let ghost tv = views(f.transitions@);
    let mut i: usize = 0;
    while i < f.transitions.len()
        invariant
            tv == views(f.transitions@),
            i <= f.transitions@.len(),
            views(realization@) == rbase + flow_transition_findings(f@.feature, tv.take(i as int), edition@),
        decreases f.transitions.len() - i,
    {
        assert(tv.take(i + 1).drop_last() =~= tv.take(i as int));
        assert(tv.take(i + 1).last() == f.transitions@[i as int]@);
        let ghost before = realization@;
        let t = &f.transitions[i];
        match t.state {
            EdgeReconciliationState::RealizedUndeclared | EdgeReconciliationState::IntendedProvenImpossible => {
                let finding = transition_finding_exec(f.feature.as_str(), t, edition);
                realization.push(finding);
                proof {
                    crate::order::lemma_views_push_seq(before, finding);
                }
                assert(views(realization@) =~= views(before) + seq![finding@]);
            },
            _ => {
                assert(views(realization@) =~= views(before) + Seq::<BehaviorFindingModel>::empty());
            },
        }
        i = i + 1;
    }
    assert(tv.take(f.transitions@.len() as int) =~= tv);
    let ghost bbase = views(bypass@);
    let ghost bv = views(f.bypasses@);
    let mut k: usize = 0;
    while k < f.bypasses.len()
        invariant
            bv == views(f.bypasses@),
            k <= f.bypasses@.len(),
            views(bypass@) == bbase + bv.take(k as int).map_values(|b: BypassModel| bypass_finding(f@.feature, b, edition@)),
        decreases f.bypasses.len() - k,
    {
        let ghost before = bypass@;
        let finding = bypass_finding_exec(f.feature.as_str(), &f.bypasses[k], edition);
        bypass.push(finding);
        proof {
            crate::order::lemma_views_push_seq(before, finding);
            assert(bv[k as int] == f.bypasses@[k as int]@);
            assert(bv.take(k + 1).map_values(|b: BypassModel| bypass_finding(f@.feature, b, edition@)) =~= bv.take(
                k as int,
            ).map_values(|b: BypassModel| bypass_finding(f@.feature, b, edition@)).push(finding@));
        }
        k = k + 1;
    }
    assert(bv.take(f.bypasses@.len() as int) =~= bv);
}

/// Compiles the Realized BFG over a given implementation-event graph, and
/// the findings of both behavioral realization rules: one per contradicting
/// transition, and one per bypass, each in canonical order.
#[verifier::spinoff_prover]
#[verifier::rlimit(60)]
pub fn evaluate_behavioral_realization_from_events(
    intended: &crate::behavior::bfg::IntendedBehavioralFlowGraph,
    event_model: ImplementationEventModel,
    domains: &[BooleanDomain],
    contracts: &contract::ResolvedBehaviorRealizationContracts,
    project_id: &str,
    digests: RealizationDigests,
    standard_edition: &str,
) -> (r: BehavioralRealizationEvaluation)
    requires
        contracts_cover(intended@.flows, contracts@),
    ensures
        realized_graph(intended@, contracts@, event_model@, views(domains@), project_id@, digests@, r@.graph),
        r@.realization_findings == canonical_set::<BehaviorFinding>(
            realization_findings_of(r@.graph.flows, standard_edition@),
        ),
        r@.bypass_findings == canonical_set::<BehaviorFinding>(bypass_findings_of(r@.graph.flows, standard_edition@)),
{
    let graph = compile_realized_bfg_from_events(intended, event_model, domains, contracts, project_id, digests);
    let ghost fv = views(graph.flows@);
    let mut realization: Vec<BehaviorFinding> = Vec::new();
    let mut bypass: Vec<BehaviorFinding> = Vec::new();
    let mut i: usize = 0;
    while i < graph.flows.len()
        invariant
            fv == views(graph.flows@),
            i <= graph.flows@.len(),
            views(realization@) == realization_findings_of(fv.take(i as int), standard_edition@),
            views(bypass@) == bypass_findings_of(fv.take(i as int), standard_edition@),
        decreases graph.flows.len() - i,
    {
        assert(fv.take(i + 1).drop_last() =~= fv.take(i as int));
        assert(fv.take(i + 1).last() == graph.flows@[i as int]@);
        flow_findings_exec(&graph.flows[i], standard_edition, &mut realization, &mut bypass);
        i = i + 1;
    }
    assert(fv.take(graph.flows@.len() as int) =~= fv);
    let realization_findings = canonical_set_exec(realization);
    let bypass_findings = canonical_set_exec(bypass);
    BehavioralRealizationEvaluation { graph, realization_findings, bypass_findings }
}


/// The Boolean output domains of the semantic summaries, in order.
pub open spec fn semantic_domains(sums: Seq<derive::SemanticSummary>) -> Seq<DomainModel>
    decreases sums.len(),
{
    if sums.len() == 0 {
        Seq::empty()
    } else {
        semantic_domains(sums.drop_last()) + match sums.last().boolean_output {
            Some(values) => seq![DomainModel { symbol: sums.last().symbol@, values: values@ }],
            None => Seq::empty(),
        }
    }
}

fn semantic_domains_exec(sums: &Vec<derive::SemanticSummary>) -> (r: Vec<BooleanDomain>)
    ensures
        views(r@) == semantic_domains(sums@),
{
    let mut out: Vec<BooleanDomain> = Vec::new();
    let mut k: usize = 0;
    assert(sums@.take(0) =~= Seq::<derive::SemanticSummary>::empty());
    while k < sums.len()
        invariant
            k <= sums@.len(),
            views(out@) == semantic_domains(sums@.take(k as int)),
        decreases sums.len() - k,
    {
        proof {
            assert(sums@.take(k + 1).drop_last() =~= sums@.take(k as int));
            assert(sums@.take(k + 1).last() == sums@[k as int]);
        }
        let ghost before = views(out@);
        match &sums[k].boolean_output {
            Some(values) => {
                let mut copy: Vec<bool> = Vec::new();
                let mut i: usize = 0;
                while i < values.len()
                    invariant
                        i <= values@.len(),
                        copy@ == values@.take(i as int),
                    decreases values.len() - i,
                {
                    copy.push(values[i]);
                    assert(values@.take(i + 1) =~= values@.take(i as int).push(values@[i as int]));
                    i = i + 1;
                }
                assert(values@.take(values@.len() as int) =~= values@);
                let d = BooleanDomain::new(copy_text(sums[k].symbol.as_str()), copy);
                let ghost dm = d@;
                let ghost raw = out@;
                out.push(d);
                proof {
                    crate::order::lemma_views_push_seq(raw, d);
                }
                assert(views(out@) =~= before + seq![dm]);
            },
            None => {
                assert(views(out@) =~= before + Seq::<DomainModel>::empty());
            },
        }
        k = k + 1;
    }
    assert(sums@.take(sums@.len() as int) =~= sums@);
    out
}

/// Compiles one Realized BFG from the semantic models: their
/// implementation-event graph is derived, and every opted-in Feature of the
/// Intended BFG is realized over it.
pub fn compile_realized_bfg(
    intended: &crate::behavior::bfg::IntendedBehavioralFlowGraph,
    psm: &derive::ProgramSemanticModel,
    semantic: &Vec<derive::SemanticSummary>,
    state_effect: &Vec<derive::StateEffectSummary>,
    information_flow: &Vec<derive::TrustedTransitionDiagnostic>,
    environmental: &Vec<derive::EnvironmentOperation>,
    contracts: &contract::ResolvedBehaviorRealizationContracts,
    project_id: &str,
    digests: RealizationDigests,
) -> (r: RealizedBehavioralFlowGraph)
    requires
        contracts_cover(intended@.flows, contracts@),
    ensures
        realized_graph(
            intended@,
            contracts@,
            derive::implementation_events_of(*psm, semantic@, state_effect@, information_flow@, environmental@),
            semantic_domains(semantic@),
            project_id@,
            digests@,
            r@,
        ),
{
    let events = derive::derive_implementation_events(psm, semantic, state_effect, information_flow, environmental);
    let domains = semantic_domains_exec(semantic);
    compile_realized_bfg_from_events(intended, events, domains.as_slice(), contracts, project_id, digests)
}

/// Compiles the Realized BFG from the semantic models, and the findings of
/// both behavioral realization rules.
pub fn evaluate_behavioral_realization(
    intended: &crate::behavior::bfg::IntendedBehavioralFlowGraph,
    psm: &derive::ProgramSemanticModel,
    semantic: &Vec<derive::SemanticSummary>,
    state_effect: &Vec<derive::StateEffectSummary>,
    information_flow: &Vec<derive::TrustedTransitionDiagnostic>,
    environmental: &Vec<derive::EnvironmentOperation>,
    contracts: &contract::ResolvedBehaviorRealizationContracts,
    project_id: &str,
    digests: RealizationDigests,
    standard_edition: &str,
) -> (r: BehavioralRealizationEvaluation)
    requires
        contracts_cover(intended@.flows, contracts@),
    ensures
        realized_graph(
            intended@,
            contracts@,
            derive::implementation_events_of(*psm, semantic@, state_effect@, information_flow@, environmental@),
            semantic_domains(semantic@),
            project_id@,
            digests@,
            r@.graph,
        ),
        r@.realization_findings == canonical_set::<BehaviorFinding>(
            realization_findings_of(r@.graph.flows, standard_edition@),
        ),
        r@.bypass_findings == canonical_set::<BehaviorFinding>(bypass_findings_of(r@.graph.flows, standard_edition@)),
{
    let events = derive::derive_implementation_events(psm, semantic, state_effect, information_flow, environmental);
    let domains = semantic_domains_exec(semantic);
    evaluate_behavioral_realization_from_events(
        intended,
        events,
        domains.as_slice(),
        contracts,
        project_id,
        digests,
        standard_edition,
    )
}

// ---------------------------------------------------------------------------
// Canonical JSON.

/// The serialized name of a checkpoint state.
pub open spec fn checkpoint_state_name(s: CheckpointRealizationState) -> Seq<char> {
    match s {
        CheckpointRealizationState::Realized => "REALIZED"@,
        CheckpointRealizationState::PartiallyRealized => "PARTIALLY_REALIZED"@,
        CheckpointRealizationState::Unreachable => "UNREACHABLE"@,
        CheckpointRealizationState::Unknown => "UNKNOWN"@,
        CheckpointRealizationState::Contradicted => "CONTRADICTED"@,
    }
}

fn checkpoint_state_name_exec(s: CheckpointRealizationState) -> (r: &'static str)
    ensures
        r@ == checkpoint_state_name(s),
{
    match s {
        CheckpointRealizationState::Realized => "REALIZED",
        CheckpointRealizationState::PartiallyRealized => "PARTIALLY_REALIZED",
        CheckpointRealizationState::Unreachable => "UNREACHABLE",
        CheckpointRealizationState::Unknown => "UNKNOWN",
        CheckpointRealizationState::Contradicted => "CONTRADICTED",
    }
}

/// The serialized name of a Feature realization state.
pub open spec fn feature_state_name(s: FeatureRealizationState) -> Seq<char> {
    match s {
        FeatureRealizationState::Unmodeled => "UNMODELED"@,
        FeatureRealizationState::ModeledUnrealized => "MODELED_UNREALIZED"@,
        FeatureRealizationState::RealizationPartial => "REALIZATION_PARTIAL"@,
        FeatureRealizationState::RealizedCoherent => "REALIZED_COHERENT"@,
        FeatureRealizationState::RealizedContradicted => "REALIZED_CONTRADICTED"@,
    }
}

fn feature_state_name_exec(s: FeatureRealizationState) -> (r: &'static str)
    ensures
        r@ == feature_state_name(s),
{
    match s {
        FeatureRealizationState::Unmodeled => "UNMODELED",
        FeatureRealizationState::ModeledUnrealized => "MODELED_UNREALIZED",
        FeatureRealizationState::RealizationPartial => "REALIZATION_PARTIAL",
        FeatureRealizationState::RealizedCoherent => "REALIZED_COHERENT",
        FeatureRealizationState::RealizedContradicted => "REALIZED_CONTRADICTED",
    }
}

/// The serialized name of a transition state.
pub open spec fn transition_state_name(s: EdgeReconciliationState) -> Seq<char> {
    match s {
        EdgeReconciliationState::IntendedAndRealized => "INTENDED_AND_REALIZED"@,
        EdgeReconciliationState::IntendedUnproven => "INTENDED_UNPROVEN"@,
        EdgeReconciliationState::RealizedUndeclared => "REALIZED_UNDECLARED"@,
        EdgeReconciliationState::IntendedProvenImpossible => "INTENDED_PROVEN_IMPOSSIBLE"@,
    }
}

fn transition_state_name_exec(s: EdgeReconciliationState) -> (r: &'static str)
    ensures
        r@ == transition_state_name(s),
{
    match s {
        EdgeReconciliationState::IntendedAndRealized => "INTENDED_AND_REALIZED",
        EdgeReconciliationState::IntendedUnproven => "INTENDED_UNPROVEN",
        EdgeReconciliationState::RealizedUndeclared => "REALIZED_UNDECLARED",
        EdgeReconciliationState::IntendedProvenImpossible => "INTENDED_PROVEN_IMPOSSIBLE",
    }
}

/// The JSON document of a checkpoint: every field, in declaration order.
pub open spec fn checkpoint_document(c: CheckpointModel) -> JsonModel {
    JsonModel::Object(
        seq![
            ("checkpoint"@, JsonModel::Text(c.checkpoint)),
            ("state"@, JsonModel::Text(checkpoint_state_name(c.state))),
            ("anchor_events"@, JsonModel::Array(text_values(c.anchor_events))),
            ("anchor_kinds"@, JsonModel::Array(text_values(c.anchor_kinds))),
            ("coverage"@, JsonModel::Text(coverage_name(c.coverage))),
            ("provenance"@, JsonModel::Array(text_values(c.provenance))),
        ],
    )
}

/// The JSON document of a transition: every field, in declaration order.
pub open spec fn transition_document(t: TransitionModel) -> JsonModel {
    JsonModel::Object(
        seq![
            ("source"@, JsonModel::Text(t.source)),
            ("target"@, JsonModel::Text(t.target)),
            ("state"@, JsonModel::Text(transition_state_name(t.state))),
            ("implementation_path"@, JsonModel::Array(text_values(t.implementation_path))),
            ("coverage"@, JsonModel::Text(coverage_name(t.coverage))),
        ],
    )
}

/// The JSON document of a bypass: every field, in declaration order.
pub open spec fn bypass_document(b: BypassModel) -> JsonModel {
    JsonModel::Object(
        seq![
            ("feature"@, JsonModel::Text(b.feature)),
            ("required_dominator"@, JsonModel::Text(b.required_dominator)),
            ("reached_checkpoint"@, JsonModel::Text(b.reached_checkpoint)),
            ("implementation_path"@, JsonModel::Array(text_values(b.implementation_path))),
            ("anchor_provenance"@, JsonModel::Array(text_values(b.anchor_provenance))),
            ("coverage"@, JsonModel::Text(coverage_name(b.coverage))),
        ],
    )
}

/// The JSON document of an obligation: every field, in declaration order.
pub open spec fn obligation_document(o: ObligationModel) -> JsonModel {
    JsonModel::Object(
        seq![
            ("id"@, JsonModel::Text(o.id)),
            ("feature"@, JsonModel::Text(o.feature)),
            ("proposition"@, JsonModel::Text(o.proposition)),
            ("checkpoints"@, JsonModel::Array(text_values(o.checkpoints))),
            ("evidence_status"@, JsonModel::Text(o.evidence_status)),
        ],
    )
}

/// The JSON document of a Feature flow: every field, in declaration order.
pub open spec fn flow_document(f: RealizedFlowModel) -> JsonModel {
    JsonModel::Object(
        seq![
            ("feature"@, JsonModel::Text(f.feature)),
            ("state"@, JsonModel::Text(feature_state_name(f.state))),
            ("checkpoints"@, JsonModel::Array(f.checkpoints.map_values(|c: CheckpointModel| checkpoint_document(c)))),
            ("transitions"@, JsonModel::Array(f.transitions.map_values(|t: TransitionModel| transition_document(t)))),
            ("bypasses"@, JsonModel::Array(f.bypasses.map_values(|b: BypassModel| bypass_document(b)))),
            ("bypass_freedom"@, JsonModel::Text(coverage_name(f.bypass_freedom))),
            ("terminal_reconciliations"@, JsonModel::Number(f.terminal_reconciliations)),
            ("decision_reconciliations"@, JsonModel::Number(f.decision_reconciliations)),
        ],
    )
}

/// The JSON document of the summary: every count, in declaration order.
pub open spec fn summary_document(s: RealizedSummaryModel) -> JsonModel {
    JsonModel::Object(
        seq![
            ("opted_in_features"@, JsonModel::Number(s.opted_in_features)),
            ("modeled_unrealized_features"@, JsonModel::Number(s.modeled_unrealized_features)),
            ("checkpoints"@, JsonModel::Number(s.checkpoints)),
            ("anchors"@, JsonModel::Number(s.anchors)),
            ("realized_checkpoints"@, JsonModel::Number(s.realized_checkpoints)),
            ("partial_checkpoints"@, JsonModel::Number(s.partial_checkpoints)),
            ("unreachable_checkpoints"@, JsonModel::Number(s.unreachable_checkpoints)),
            ("unknown_checkpoints"@, JsonModel::Number(s.unknown_checkpoints)),
            ("contradicted_checkpoints"@, JsonModel::Number(s.contradicted_checkpoints)),
            ("intended_and_realized_edges"@, JsonModel::Number(s.intended_and_realized_edges)),
            ("intended_unproven_edges"@, JsonModel::Number(s.intended_unproven_edges)),
            ("realized_undeclared_edges"@, JsonModel::Number(s.realized_undeclared_edges)),
            ("intended_proven_impossible_edges"@, JsonModel::Number(s.intended_proven_impossible_edges)),
            ("dominator_checks"@, JsonModel::Number(s.dominator_checks)),
            ("proven_bypasses"@, JsonModel::Number(s.proven_bypasses)),
            ("terminal_reconciliations"@, JsonModel::Number(s.terminal_reconciliations)),
            ("decision_reconciliations"@, JsonModel::Number(s.decision_reconciliations)),
            ("verification_obligations"@, JsonModel::Number(s.verification_obligations)),
        ],
    )
}

/// The JSON document of a Feature state entry: a pair of the Feature and
/// its state.
pub open spec fn entry_document(e: EntryModel) -> JsonModel {
    JsonModel::Array(seq![JsonModel::Text(e.feature), JsonModel::Text(feature_state_name(e.state))])
}

/// The JSON document of the implementation event graph.
pub open spec fn event_graph_document(g: EventGraphModel) -> JsonModel {
    JsonModel::Object(
        seq![
            ("semantic_version"@, JsonModel::Text(BEHAVIORAL_REALIZATION_VERSION@)),
            ("events"@, JsonModel::Array(g.events.map_values(|e: EventModel| event_document(e)))),
            ("edges"@, JsonModel::Array(g.edges.map_values(|e: EventEdgeModel| edge_document(e)))),
            ("unsupported_semantics"@, JsonModel::Array(text_values(realization_unsupported()))),
        ],
    )
}

/// The JSON document of a Realized BFG: every field, in declaration order.
pub open spec fn realized_graph_document(g: RealizedGraphModel) -> JsonModel {
    JsonModel::Object(
        seq![
            ("$schema"@, JsonModel::Text(REALIZED_BFG_SCHEMA@)),
            ("schema_version"@, JsonModel::Number(REALIZED_BFG_SCHEMA_VERSION as nat)),
            ("semantic_version"@, JsonModel::Text(BEHAVIORAL_REALIZATION_VERSION@)),
            ("project_id"@, JsonModel::Text(g.project_id)),
            ("view"@, JsonModel::Text("realized"@)),
            ("intended_bfg_digest"@, JsonModel::Text(g.digests.intended_bfg)),
            ("psm_digest"@, JsonModel::Text(g.digests.psm)),
            ("semantic_analysis_digest"@, JsonModel::Text(g.digests.semantic_analysis)),
            ("state_effect_digest"@, JsonModel::Text(g.digests.state_effect)),
            ("information_flow_digest"@, JsonModel::Text(g.digests.information_flow)),
            ("environmental_analysis_digest"@, JsonModel::Text(g.digests.environmental_analysis)),
            ("realization_contract_digest"@, JsonModel::Text(g.realization_contract_digest)),
            ("summary"@, summary_document(g.summary)),
            ("feature_states"@, JsonModel::Array(g.feature_states.map_values(|e: EntryModel| entry_document(e)))),
            ("implementation_events"@, event_graph_document(g.implementation_events)),
            ("flows"@, JsonModel::Array(g.flows.map_values(|f: RealizedFlowModel| flow_document(f)))),
            (
                "verification_obligations"@,
                JsonModel::Array(g.verification_obligations.map_values(|o: ObligationModel| obligation_document(o))),
            ),
            ("unsupported_semantics"@, JsonModel::Array(text_values(g.unsupported_semantics))),
        ],
    )
}

impl RealizedCheckpoint {
    /// The checkpoint as a JSON document.
    pub fn to_json(&self) -> (r: Json)
        ensures
            r@ == checkpoint_document(self@),
    {
        let members = vec![
            (String::from_str("checkpoint"), text(self.checkpoint.as_str())),
            (String::from_str("state"), text(checkpoint_state_name_exec(self.state))),
            (String::from_str("anchor_events"), text_array(self.anchor_events.as_slice())),
            (String::from_str("anchor_kinds"), text_array(self.anchor_kinds.as_slice())),
            (String::from_str("coverage"), text(coverage_name_exec(self.coverage))),
            (String::from_str("provenance"), text_array(self.provenance.as_slice())),
        ];
        proof {
            lemma_member_models(members@);
            assert(self.anchor_events@.map_values(|s: String| s@) =~= texts(self.anchor_events@));
            assert(self.anchor_kinds@.map_values(|s: String| s@) =~= texts(self.anchor_kinds@));
            assert(self.provenance@.map_values(|s: String| s@) =~= texts(self.provenance@));
            let c = self@;
            assert(member_models(members@) =~= seq![
                ("checkpoint"@, JsonModel::Text(c.checkpoint)),
                ("state"@, JsonModel::Text(checkpoint_state_name(c.state))),
                ("anchor_events"@, JsonModel::Array(text_values(c.anchor_events))),
                ("anchor_kinds"@, JsonModel::Array(text_values(c.anchor_kinds))),
                ("coverage"@, JsonModel::Text(coverage_name(c.coverage))),
                ("provenance"@, JsonModel::Array(text_values(c.provenance))),
            ]);
        }
        Json::Object(members)
    }
}

impl RealizedTransition {
    /// The transition as a JSON document.
    pub fn to_json(&self) -> (r: Json)
        ensures
            r@ == transition_document(self@),
    {
        let members = vec![
            (String::from_str("source"), text(self.source.as_str())),
            (String::from_str("target"), text(self.target.as_str())),
            (String::from_str("state"), text(transition_state_name_exec(self.state))),
            (String::from_str("implementation_path"), text_array(self.implementation_path.as_slice())),
            (String::from_str("coverage"), text(coverage_name_exec(self.coverage))),
        ];
        proof {
            lemma_member_models(members@);
            assert(self.implementation_path@.map_values(|s: String| s@) =~= texts(self.implementation_path@));
            let t = self@;
            assert(member_models(members@) =~= seq![
                ("source"@, JsonModel::Text(t.source)),
                ("target"@, JsonModel::Text(t.target)),
                ("state"@, JsonModel::Text(transition_state_name(t.state))),
                ("implementation_path"@, JsonModel::Array(text_values(t.implementation_path))),
                ("coverage"@, JsonModel::Text(coverage_name(t.coverage))),
            ]);
        }
        Json::Object(members)
    }
}

impl BehavioralBypass {
    /// The bypass as a JSON document.
    pub fn to_json(&self) -> (r: Json)
        ensures
            r@ == bypass_document(self@),
    {
        let members = vec![
            (String::from_str("feature"), text(self.feature.as_str())),
            (String::from_str("required_dominator"), text(self.required_dominator.as_str())),
            (String::from_str("reached_checkpoint"), text(self.reached_checkpoint.as_str())),
            (String::from_str("implementation_path"), text_array(self.implementation_path.as_slice())),
            (String::from_str("anchor_provenance"), text_array(self.anchor_provenance.as_slice())),
            (String::from_str("coverage"), text(coverage_name_exec(self.coverage))),
        ];
        proof {
            lemma_member_models(members@);
            assert(self.implementation_path@.map_values(|s: String| s@) =~= texts(self.implementation_path@));
            assert(self.anchor_provenance@.map_values(|s: String| s@) =~= texts(self.anchor_provenance@));
            let b = self@;
            assert(member_models(members@) =~= seq![
                ("feature"@, JsonModel::Text(b.feature)),
                ("required_dominator"@, JsonModel::Text(b.required_dominator)),
                ("reached_checkpoint"@, JsonModel::Text(b.reached_checkpoint)),
                ("implementation_path"@, JsonModel::Array(text_values(b.implementation_path))),
                ("anchor_provenance"@, JsonModel::Array(text_values(b.anchor_provenance))),
                ("coverage"@, JsonModel::Text(coverage_name(b.coverage))),
            ]);
        }
        Json::Object(members)
    }
}

impl BehavioralVerificationObligation {
    /// The obligation as a JSON document.
    pub fn to_json(&self) -> (r: Json)
        ensures
            r@ == obligation_document(self@),
    {
        let members = vec![
            (String::from_str("id"), text(self.id.as_str())),
            (String::from_str("feature"), text(self.feature.as_str())),
            (String::from_str("proposition"), text(self.proposition.as_str())),
            (String::from_str("checkpoints"), text_array(self.checkpoints.as_slice())),
            (String::from_str("evidence_status"), text(self.evidence_status.as_str())),
        ];
        proof {
            lemma_member_models(members@);
            assert(self.checkpoints@.map_values(|s: String| s@) =~= texts(self.checkpoints@));
            let o = self@;
            assert(member_models(members@) =~= seq![
                ("id"@, JsonModel::Text(o.id)),
                ("feature"@, JsonModel::Text(o.feature)),
                ("proposition"@, JsonModel::Text(o.proposition)),
                ("checkpoints"@, JsonModel::Array(text_values(o.checkpoints))),
                ("evidence_status"@, JsonModel::Text(o.evidence_status)),
            ]);
        }
        Json::Object(members)
    }
}

fn checkpoints_json(items: &[RealizedCheckpoint]) -> (r: Json)
    ensures
        r@ == JsonModel::Array(views(items@).map_values(|c: CheckpointModel| checkpoint_document(c))),
{
    let mut out: Vec<Json> = Vec::new();
    let mut i: usize = 0;
    while i < items.len()
        invariant
            i <= items@.len(),
            out@.len() == i,
            forall|k: int| 0 <= k < i ==> #[trigger] json_model(out@[k]) == checkpoint_document(items@[k]@),
        decreases items.len() - i,
    {
        out.push(items[i].to_json());
        i = i + 1;
    }
    proof {
        lemma_json_models(out@);
        assert(json_models(out@) =~= views(items@).map_values(|c: CheckpointModel| checkpoint_document(c)));
    }
    Json::Array(out)
}

fn transitions_json(items: &[RealizedTransition]) -> (r: Json)
    ensures
        r@ == JsonModel::Array(views(items@).map_values(|t: TransitionModel| transition_document(t))),
{
    let mut out: Vec<Json> = Vec::new();
    let mut i: usize = 0;
    while i < items.len()
        invariant
            i <= items@.len(),
            out@.len() == i,
            forall|k: int| 0 <= k < i ==> #[trigger] json_model(out@[k]) == transition_document(items@[k]@),
        decreases items.len() - i,
    {
        out.push(items[i].to_json());
        i = i + 1;
    }
    proof {
        lemma_json_models(out@);
        assert(json_models(out@) =~= views(items@).map_values(|t: TransitionModel| transition_document(t)));
    }
    Json::Array(out)
}

fn bypasses_json(items: &[BehavioralBypass]) -> (r: Json)
    ensures
        r@ == JsonModel::Array(views(items@).map_values(|b: BypassModel| bypass_document(b))),
{
    let mut out: Vec<Json> = Vec::new();
    let mut i: usize = 0;
    while i < items.len()
        invariant
            i <= items@.len(),
            out@.len() == i,
            forall|k: int| 0 <= k < i ==> #[trigger] json_model(out@[k]) == bypass_document(items@[k]@),
        decreases items.len() - i,
    {
        out.push(items[i].to_json());
        i = i + 1;
    }
    proof {
        lemma_json_models(out@);
        assert(json_models(out@) =~= views(items@).map_values(|b: BypassModel| bypass_document(b)));
    }
    Json::Array(out)
}

fn obligations_json(items: &[BehavioralVerificationObligation]) -> (r: Json)
    ensures
        r@ == JsonModel::Array(views(items@).map_values(|o: ObligationModel| obligation_document(o))),
{
    let mut out: Vec<Json> = Vec::new();
    let mut i: usize = 0;
    while i < items.len()
        invariant
            i <= items@.len(),
            out@.len() == i,
            forall|k: int| 0 <= k < i ==> #[trigger] json_model(out@[k]) == obligation_document(items@[k]@),
        decreases items.len() - i,
    {
        out.push(items[i].to_json());
        i = i + 1;
    }
    proof {
        lemma_json_models(out@);
        assert(json_models(out@) =~= views(items@).map_values(|o: ObligationModel| obligation_document(o)));
    }
    Json::Array(out)
}

fn events_json(items: &[ImplementationEvent]) -> (r: Json)
    ensures
        r@ == JsonModel::Array(views(items@).map_values(|e: EventModel| event_document(e))),
{
    let mut out: Vec<Json> = Vec::new();
    let mut i: usize = 0;
    while i < items.len()
        invariant
            i <= items@.len(),
            out@.len() == i,
            forall|k: int| 0 <= k < i ==> #[trigger] json_model(out@[k]) == event_document(items@[k]@),
        decreases items.len() - i,
    {
        out.push(items[i].to_json());
        i = i + 1;
    }
    proof {
        lemma_json_models(out@);
        assert(json_models(out@) =~= views(items@).map_values(|e: EventModel| event_document(e)));
    }
    Json::Array(out)
}

fn edges_json(items: &[ImplementationEventEdge]) -> (r: Json)
    ensures
        r@ == JsonModel::Array(views(items@).map_values(|e: EventEdgeModel| edge_document(e))),
{
    let mut out: Vec<Json> = Vec::new();
    let mut i: usize = 0;
    while i < items.len()
        invariant
            i <= items@.len(),
            out@.len() == i,
            forall|k: int| 0 <= k < i ==> #[trigger] json_model(out@[k]) == edge_document(items@[k]@),
        decreases items.len() - i,
    {
        out.push(items[i].to_json());
        i = i + 1;
    }
    proof {
        lemma_json_models(out@);
        assert(json_models(out@) =~= views(items@).map_values(|e: EventEdgeModel| edge_document(e)));
    }
    Json::Array(out)
}

fn entries_json(items: &[FeatureRealizationEntry]) -> (r: Json)
    ensures
        r@ == JsonModel::Array(views(items@).map_values(|e: EntryModel| entry_document(e))),
{
    let mut out: Vec<Json> = Vec::new();
    let mut i: usize = 0;
    while i < items.len()
        invariant
            i <= items@.len(),
            out@.len() == i,
            forall|k: int| 0 <= k < i ==> #[trigger] json_model(out@[k]) == entry_document(items@[k]@),
        decreases items.len() - i,
    {
        let pair = vec![text(items[i].feature.as_str()), text(feature_state_name_exec(items[i].state))];
        proof {
            lemma_json_models(pair@);
            assert(json_models(pair@) =~= seq![
                JsonModel::Text(items@[i as int]@.feature),
                JsonModel::Text(feature_state_name(items@[i as int]@.state)),
            ]);
        }
        out.push(Json::Array(pair));
        i = i + 1;
    }
    proof {
        lemma_json_models(out@);
        assert(json_models(out@) =~= views(items@).map_values(|e: EntryModel| entry_document(e)));
    }
    Json::Array(out)
}

impl RealizedFeatureFlow {
    /// The Feature flow as a JSON document.
    pub fn to_json(&self) -> (r: Json)
        ensures
            r@ == flow_document(self@),
    {
        let members = vec![
            (String::from_str("feature"), text(self.feature.as_str())),
            (String::from_str("state"), text(feature_state_name_exec(self.state))),
            (String::from_str("checkpoints"), checkpoints_json(self.checkpoints.as_slice())),
            (String::from_str("transitions"), transitions_json(self.transitions.as_slice())),
            (String::from_str("bypasses"), bypasses_json(self.bypasses.as_slice())),
            (String::from_str("bypass_freedom"), text(coverage_name_exec(self.bypass_freedom))),
            (String::from_str("terminal_reconciliations"), Json::Number(self.terminal_reconciliations as u64)),
            (String::from_str("decision_reconciliations"), Json::Number(self.decision_reconciliations as u64)),
        ];
        proof {
            lemma_member_models(members@);
            let f = self@;
            assert(member_models(members@) =~= seq![
                ("feature"@, JsonModel::Text(f.feature)),
                ("state"@, JsonModel::Text(feature_state_name(f.state))),
                ("checkpoints"@, JsonModel::Array(f.checkpoints.map_values(|c: CheckpointModel| checkpoint_document(c)))),
                ("transitions"@, JsonModel::Array(f.transitions.map_values(|t: TransitionModel| transition_document(t)))),
                ("bypasses"@, JsonModel::Array(f.bypasses.map_values(|b: BypassModel| bypass_document(b)))),
                ("bypass_freedom"@, JsonModel::Text(coverage_name(f.bypass_freedom))),
                ("terminal_reconciliations"@, JsonModel::Number(f.terminal_reconciliations)),
                ("decision_reconciliations"@, JsonModel::Number(f.decision_reconciliations)),
            ]);
        }
        Json::Object(members)
    }
}

fn flows_json(items: &[RealizedFeatureFlow]) -> (r: Json)
    ensures
        r@ == JsonModel::Array(views(items@).map_values(|f: RealizedFlowModel| flow_document(f))),
{
    let mut out: Vec<Json> = Vec::new();
    let mut i: usize = 0;
    while i < items.len()
        invariant
            i <= items@.len(),
            out@.len() == i,
            forall|k: int| 0 <= k < i ==> #[trigger] json_model(out@[k]) == flow_document(items@[k]@),
        decreases items.len() - i,
    {
        out.push(items[i].to_json());
        i = i + 1;
    }
    proof {
        lemma_json_models(out@);
        assert(json_models(out@) =~= views(items@).map_values(|f: RealizedFlowModel| flow_document(f)));
    }
    Json::Array(out)
}

impl RealizedBfgSummary {
    /// The summary as a JSON document.
    pub fn to_json(&self) -> (r: Json)
        ensures
            r@ == summary_document(self@),
    {
        let members = vec![
            (String::from_str("opted_in_features"), Json::Number(self.opted_in_features as u64)),
            (String::from_str("modeled_unrealized_features"), Json::Number(self.modeled_unrealized_features as u64)),
            (String::from_str("checkpoints"), Json::Number(self.checkpoints as u64)),
            (String::from_str("anchors"), Json::Number(self.anchors as u64)),
            (String::from_str("realized_checkpoints"), Json::Number(self.realized_checkpoints as u64)),
            (String::from_str("partial_checkpoints"), Json::Number(self.partial_checkpoints as u64)),
            (String::from_str("unreachable_checkpoints"), Json::Number(self.unreachable_checkpoints as u64)),
            (String::from_str("unknown_checkpoints"), Json::Number(self.unknown_checkpoints as u64)),
            (String::from_str("contradicted_checkpoints"), Json::Number(self.contradicted_checkpoints as u64)),
            (String::from_str("intended_and_realized_edges"), Json::Number(self.intended_and_realized_edges as u64)),
            (String::from_str("intended_unproven_edges"), Json::Number(self.intended_unproven_edges as u64)),
            (String::from_str("realized_undeclared_edges"), Json::Number(self.realized_undeclared_edges as u64)),
            (
                String::from_str("intended_proven_impossible_edges"),
                Json::Number(self.intended_proven_impossible_edges as u64),
            ),
            (String::from_str("dominator_checks"), Json::Number(self.dominator_checks as u64)),
            (String::from_str("proven_bypasses"), Json::Number(self.proven_bypasses as u64)),
            (String::from_str("terminal_reconciliations"), Json::Number(self.terminal_reconciliations as u64)),
            (String::from_str("decision_reconciliations"), Json::Number(self.decision_reconciliations as u64)),
            (String::from_str("verification_obligations"), Json::Number(self.verification_obligations as u64)),
        ];
        proof {
            lemma_member_models(members@);
            let s = self@;
            assert(member_models(members@) =~= seq![
                ("opted_in_features"@, JsonModel::Number(s.opted_in_features)),
                ("modeled_unrealized_features"@, JsonModel::Number(s.modeled_unrealized_features)),
                ("checkpoints"@, JsonModel::Number(s.checkpoints)),
                ("anchors"@, JsonModel::Number(s.anchors)),
                ("realized_checkpoints"@, JsonModel::Number(s.realized_checkpoints)),
                ("partial_checkpoints"@, JsonModel::Number(s.partial_checkpoints)),
                ("unreachable_checkpoints"@, JsonModel::Number(s.unreachable_checkpoints)),
                ("unknown_checkpoints"@, JsonModel::Number(s.unknown_checkpoints)),
                ("contradicted_checkpoints"@, JsonModel::Number(s.contradicted_checkpoints)),
                ("intended_and_realized_edges"@, JsonModel::Number(s.intended_and_realized_edges)),
                ("intended_unproven_edges"@, JsonModel::Number(s.intended_unproven_edges)),
                ("realized_undeclared_edges"@, JsonModel::Number(s.realized_undeclared_edges)),
                ("intended_proven_impossible_edges"@, JsonModel::Number(s.intended_proven_impossible_edges)),
                ("dominator_checks"@, JsonModel::Number(s.dominator_checks)),
                ("proven_bypasses"@, JsonModel::Number(s.proven_bypasses)),
                ("terminal_reconciliations"@, JsonModel::Number(s.terminal_reconciliations)),
                ("decision_reconciliations"@, JsonModel::Number(s.decision_reconciliations)),
                ("verification_obligations"@, JsonModel::Number(s.verification_obligations)),
            ]);
        }
        Json::Object(members)
    }
}

impl ImplementationEventModel {
    /// The event graph as a JSON document.
    pub fn to_json(&self) -> (r: Json)
        ensures
            r@ == event_graph_document(self@),
    {
        let unsupported = realization_unsupported_exec();
        let members = vec![
            (String::from_str("semantic_version"), text(BEHAVIORAL_REALIZATION_VERSION)),
            (String::from_str("events"), events_json(self.events.as_slice())),
            (String::from_str("edges"), edges_json(self.edges.as_slice())),
            (String::from_str("unsupported_semantics"), text_array(unsupported.as_slice())),
        ];
        proof {
            lemma_member_models(members@);
            assert(unsupported@.map_values(|s: String| s@) =~= texts(unsupported@));
            let g = self@;
            assert(member_models(members@) =~= seq![
                ("semantic_version"@, JsonModel::Text(BEHAVIORAL_REALIZATION_VERSION@)),
                ("events"@, JsonModel::Array(g.events.map_values(|e: EventModel| event_document(e)))),
                ("edges"@, JsonModel::Array(g.edges.map_values(|e: EventEdgeModel| edge_document(e)))),
                ("unsupported_semantics"@, JsonModel::Array(text_values(realization_unsupported()))),
            ]);
        }
        Json::Object(members)
    }
}

impl RealizedBehavioralFlowGraph {
    /// The graph as a JSON document.
    pub fn to_json(&self) -> (r: Json)
        ensures
            r@ == realized_graph_document(self@),
    {
        let members = vec![
            (String::from_str("$schema"), text(REALIZED_BFG_SCHEMA)),
            (String::from_str("schema_version"), Json::Number(REALIZED_BFG_SCHEMA_VERSION as u64)),
            (String::from_str("semantic_version"), text(BEHAVIORAL_REALIZATION_VERSION)),
            (String::from_str("project_id"), text(self.project_id.as_str())),
            (String::from_str("view"), text("realized")),
            (String::from_str("intended_bfg_digest"), text(self.digests.intended_bfg.as_str())),
            (String::from_str("psm_digest"), text(self.digests.psm.as_str())),
            (String::from_str("semantic_analysis_digest"), text(self.digests.semantic_analysis.as_str())),
            (String::from_str("state_effect_digest"), text(self.digests.state_effect.as_str())),
            (String::from_str("information_flow_digest"), text(self.digests.information_flow.as_str())),
            (String::from_str("environmental_analysis_digest"), text(self.digests.environmental_analysis.as_str())),
            (String::from_str("realization_contract_digest"), text(self.realization_contract_digest.as_str())),
            (String::from_str("summary"), self.summary.to_json()),
            (String::from_str("feature_states"), entries_json(self.feature_states.as_slice())),
            (String::from_str("implementation_events"), self.implementation_events.to_json()),
            (String::from_str("flows"), flows_json(self.flows.as_slice())),
            (String::from_str("verification_obligations"), obligations_json(self.verification_obligations.as_slice())),
            (String::from_str("unsupported_semantics"), text_array(self.unsupported_semantics.as_slice())),
        ];
        proof {
            lemma_member_models(members@);
            assert(self.unsupported_semantics@.map_values(|s: String| s@) =~= texts(self.unsupported_semantics@));
            let g = self@;
            assert(member_models(members@) =~= seq![
                ("$schema"@, JsonModel::Text(REALIZED_BFG_SCHEMA@)),
                ("schema_version"@, JsonModel::Number(REALIZED_BFG_SCHEMA_VERSION as nat)),
                ("semantic_version"@, JsonModel::Text(BEHAVIORAL_REALIZATION_VERSION@)),
                ("project_id"@, JsonModel::Text(g.project_id)),
                ("view"@, JsonModel::Text("realized"@)),
                ("intended_bfg_digest"@, JsonModel::Text(g.digests.intended_bfg)),
                ("psm_digest"@, JsonModel::Text(g.digests.psm)),
                ("semantic_analysis_digest"@, JsonModel::Text(g.digests.semantic_analysis)),
                ("state_effect_digest"@, JsonModel::Text(g.digests.state_effect)),
                ("information_flow_digest"@, JsonModel::Text(g.digests.information_flow)),
                ("environmental_analysis_digest"@, JsonModel::Text(g.digests.environmental_analysis)),
                ("realization_contract_digest"@, JsonModel::Text(g.realization_contract_digest)),
                ("summary"@, summary_document(g.summary)),
                ("feature_states"@, JsonModel::Array(g.feature_states.map_values(|e: EntryModel| entry_document(e)))),
                ("implementation_events"@, event_graph_document(g.implementation_events)),
                ("flows"@, JsonModel::Array(g.flows.map_values(|f: RealizedFlowModel| flow_document(f)))),
                (
                    "verification_obligations"@,
                    JsonModel::Array(g.verification_obligations.map_values(|o: ObligationModel| obligation_document(o))),
                ),
                ("unsupported_semantics"@, JsonModel::Array(text_values(g.unsupported_semantics))),
            ]);
        }
        Json::Object(members)
    }

    /// Serializes deterministic two-space JSON with one trailing line feed.
    pub fn to_canonical_json(&self) -> (r: String)
        ensures
            r@ == pretty_document(realized_graph_document(self@)),
    {
        let document = self.to_json();
        render_pretty_document(&document)
    }

    /// The SHA-256 identity of the canonical bytes.
    pub fn digest(&self) -> (r: String)
        ensures
            r@ == crate::codec::sha256_identity_of(vstd::utf8::encode_utf8(pretty_document(realized_graph_document(self@)))),
            crate::codec::is_lower_sha256_identity(r@),
    {
        let canonical = self.to_canonical_json();
        crate::codec::sha256_text(canonical.as_str())
    }
}

} // verus!
