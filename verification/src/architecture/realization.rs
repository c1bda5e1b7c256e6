//! Reconciliation of observed implementation dependencies with declared intent.

use vstd::prelude::*;

use crate::order::{
    canonical_set, canonical_set_exec, group_views, groups_le, groups_le_exec, lemma_groups_le_antisymmetric,
    lemma_groups_le_reflexive, lemma_groups_le_total, lemma_groups_le_transitive, optional_field,
    optional_field_exec, rank_field, rank_field_exec, single, single_exec, texts_exec, views,
    CanonicalOrder, TotalOrder,
};
use crate::text::{copy_text, copy_texts, text_eq, texts};

verus! {

/// Stable identity of the observed architecture-realization rule.
pub const ARCH_REALIZATION_RULE_ID: &'static str = "ARCH-REALIZATION-001";

/// Deterministic observed-versus-declared relationship state.
#[derive(Clone, Copy, Debug, PartialEq, Eq, Structural)]
pub enum ReconciliationState {
    /// Direct intent and direct implementation evidence agree.
    DeclaredAndObserved,
    /// Direct implementation evidence has no declared authorization path.
    ObservedUndeclared,
    /// Direct implementation access bypasses one or more declared intermediaries.
    ObservedTransitiveBypass,
    /// Direct intent has no corresponding supported observation.
    DeclaredUnobserved,
    /// The observed dependency leaves the governed Module ecosystem.
    External,
    /// A supported reference could not be resolved confidently.
    Unresolved,
}

/// The canonical rank of a state.
pub open spec fn state_rank(s: ReconciliationState) -> nat {
    match s {
        ReconciliationState::DeclaredAndObserved => 0,
        ReconciliationState::ObservedUndeclared => 1,
        ReconciliationState::ObservedTransitiveBypass => 2,
        ReconciliationState::DeclaredUnobserved => 3,
        ReconciliationState::External => 4,
        ReconciliationState::Unresolved => 5,
    }
}

fn state_rank_exec(s: ReconciliationState) -> (r: u8)
    ensures
        r == state_rank(s),
{
    match s {
        ReconciliationState::DeclaredAndObserved => 0,
        ReconciliationState::ObservedUndeclared => 1,
        ReconciliationState::ObservedTransitiveBypass => 2,
        ReconciliationState::DeclaredUnobserved => 3,
        ReconciliationState::External => 4,
        ReconciliationState::Unresolved => 5,
    }
}

/// Abstract value of one reconciliation record.
pub struct RecordModel {
    pub state: ReconciliationState,
    pub source_module: Seq<char>,
    pub target_module: Option<Seq<char>>,
    pub external_target: Option<Seq<char>>,
    pub declared_capabilities: Seq<Seq<char>>,
    pub declared_path: Seq<Seq<char>>,
    pub evidence: Seq<Seq<char>>,
}

/// One normalized reconciliation conclusion with exact context and evidence
/// (each evidence item identified by its canonical text).
#[derive(Clone, Debug, PartialEq, Eq)]
pub struct ReconciliationRecord {
    state: ReconciliationState,
    source_module: String,
    target_module: Option<String>,
    external_target: Option<String>,
    declared_capabilities: Vec<String>,
    declared_path: Vec<String>,
    evidence: Vec<String>,
}

impl View for ReconciliationRecord {
    type V = RecordModel;

    closed spec fn view(&self) -> RecordModel {
        RecordModel {
            state: self.state,
            source_module: self.source_module@,
            target_module: crate::behavior::model::optional_view(self.target_module),
            external_target: crate::behavior::model::optional_view(self.external_target),
            declared_capabilities: texts(self.declared_capabilities@),
            declared_path: texts(self.declared_path@),
            evidence: texts(self.evidence@),
        }
    }
}

impl ReconciliationRecord {
    /// Returns the deterministic relationship state.
    pub fn state(&self) -> (r: ReconciliationState)
        ensures
            r == self@.state,
    {
        self.state
    }

    /// Returns the source Module identity.
    pub fn source_module(&self) -> (r: &str)
        ensures
            r@ == self@.source_module,
    {
        self.source_module.as_str()
    }

    /// Returns the governed target Module when applicable.
    pub fn target_module(&self) -> (r: Option<&str>)
        ensures
            match r {
                Some(t) => self@.target_module == Some(t@),
                None => self@.target_module is None,
            },
    {
        match &self.target_module {
            Some(t) => Some(t.as_str()),
            None => None,
        }
    }

    /// Returns the external crate identity when applicable.
    pub fn external_target(&self) -> (r: Option<&str>)
        ensures
            match r {
                Some(t) => self@.external_target == Some(t@),
                None => self@.external_target is None,
            },
    {
        match &self.external_target {
            Some(t) => Some(t.as_str()),
            None => None,
        }
    }

    /// Returns capabilities authorizing an exact direct dependency.
    pub fn declared_capabilities(&self) -> (r: &[String])
        ensures
            texts(r@) == self@.declared_capabilities,
    {
        self.declared_capabilities.as_slice()
    }

    /// Returns the canonical declared path when one exists.
    pub fn declared_path(&self) -> (r: &[String])
        ensures
            texts(r@) == self@.declared_path,
    {
        self.declared_path.as_slice()
    }

    /// Returns sorted source evidence supporting the observation.
    pub fn evidence(&self) -> (r: &[String])
        ensures
            texts(r@) == self@.evidence,
    {
        self.evidence.as_slice()
    }
}

/// The order fields of a record.
pub open spec fn record_groups(r: RecordModel) -> Seq<Seq<Seq<char>>> {
    seq![
        single(rank_field(state_rank(r.state))),
        single(r.source_module),
        single(optional_field(r.target_module)),
        single(optional_field(r.external_target)),
        r.declared_capabilities,
        r.declared_path,
        r.evidence,
    ]
}

fn record_groups_exec(r: &ReconciliationRecord) -> (g: Vec<Vec<Vec<char>>>)
    ensures
        group_views(g@) == record_groups(r@),
{
    let mut g: Vec<Vec<Vec<char>>> = Vec::new();
    let mut s: Vec<Vec<char>> = Vec::new();
    s.push(rank_field_exec(state_rank_exec(r.state)));
    assert(s@.map_values(|x: Vec<char>| x@) =~= single(rank_field(state_rank(r@.state))));
    g.push(s);
    g.push(single_exec(r.source_module.as_str()));
    let mut t: Vec<Vec<char>> = Vec::new();
    t.push(optional_field_exec(&r.target_module));
    assert(t@.map_values(|x: Vec<char>| x@) =~= single(optional_field(r@.target_module)));
    g.push(t);
    let mut e: Vec<Vec<char>> = Vec::new();
    e.push(optional_field_exec(&r.external_target));
    assert(e@.map_values(|x: Vec<char>| x@) =~= single(optional_field(r@.external_target)));
    g.push(e);
    g.push(texts_exec(r.declared_capabilities.as_slice()));
    g.push(texts_exec(r.declared_path.as_slice()));
    g.push(texts_exec(r.evidence.as_slice()));
    assert(group_views(g@) =~= record_groups(r@));
    g
}

impl CanonicalOrder for ReconciliationRecord {
    open spec fn ordered(a: RecordModel, b: RecordModel) -> bool {
        groups_le(record_groups(a), record_groups(b))
    }

    proof fn lemma_ordered_reflexive(a: RecordModel) {
        lemma_groups_le_reflexive(record_groups(a));
    }

    proof fn lemma_ordered_transitive(a: RecordModel, b: RecordModel, c: RecordModel) {
        lemma_groups_le_transitive(record_groups(a), record_groups(b), record_groups(c));
    }

    proof fn lemma_ordered_total(a: RecordModel, b: RecordModel) {
        lemma_groups_le_total(record_groups(a), record_groups(b));
    }

    fn precedes(&self, other: &Self) -> (r: bool) {
        let a = record_groups_exec(self);
        let b = record_groups_exec(other);
        groups_le_exec(&a, &b)
    }
}

impl TotalOrder for ReconciliationRecord {
    proof fn lemma_ordered_antisymmetric(a: RecordModel, b: RecordModel) {
        lemma_groups_le_antisymmetric(record_groups(a), record_groups(b));
        let ga = record_groups(a);
        let gb = record_groups(b);
        assert(ga[0][0] == rank_field(state_rank(a.state)) && gb[0][0] == rank_field(state_rank(b.state)));
        assert(rank_field(state_rank(a.state)).len() == state_rank(a.state));
        assert(rank_field(state_rank(b.state)).len() == state_rank(b.state));
        assert(ga[1][0] == a.source_module && gb[1][0] == b.source_module);
        assert(ga[2][0] == optional_field(a.target_module) && gb[2][0] == optional_field(b.target_module));
        crate::affected::lemma_optional_field_injective(a.target_module, b.target_module);
        assert(ga[3][0] == optional_field(a.external_target) && gb[3][0] == optional_field(b.external_target));
        crate::affected::lemma_optional_field_injective(a.external_target, b.external_target);
        assert(ga[4] == a.declared_capabilities && ga[5] == a.declared_path && ga[6] == a.evidence);
    }
}

/// Abstract value of the reconciliation counts.
pub struct SummaryModel {
    pub declared_direct: usize,
    pub observed_governed: usize,
    pub declared_and_observed: usize,
    pub observed_undeclared: usize,
    pub observed_transitive_bypass: usize,
    pub declared_unobserved: usize,
    pub external: usize,
    pub unresolved: usize,
    pub unsupported: usize,
    pub invalid: usize,
}

/// Deterministic summary of every implemented reconciliation class.
#[derive(Clone, Copy, Debug, PartialEq, Eq, Structural)]
pub struct ReconciliationSummary {
    declared_direct: usize,
    observed_governed: usize,
    declared_and_observed: usize,
    observed_undeclared: usize,
    observed_transitive_bypass: usize,
    declared_unobserved: usize,
    external: usize,
    unresolved: usize,
    unsupported: usize,
    invalid: usize,
}

impl View for ReconciliationSummary {
    type V = SummaryModel;

    closed spec fn view(&self) -> SummaryModel {
        SummaryModel {
            declared_direct: self.declared_direct,
            observed_governed: self.observed_governed,
            declared_and_observed: self.declared_and_observed,
            observed_undeclared: self.observed_undeclared,
            observed_transitive_bypass: self.observed_transitive_bypass,
            declared_unobserved: self.declared_unobserved,
            external: self.external,
            unresolved: self.unresolved,
            unsupported: self.unsupported,
            invalid: self.invalid,
        }
    }
}

impl ReconciliationSummary {
    /// Returns declared direct Module dependency count.
    pub fn declared_direct(self) -> (r: usize)
        ensures
            r == self@.declared_direct,
    {
        self.declared_direct
    }

    /// Returns governed observed Module dependency count.
    pub fn observed_governed(self) -> (r: usize)
        ensures
            r == self@.observed_governed,
    {
        self.observed_governed
    }

    /// Returns direct relationships present in intent and implementation.
    pub fn declared_and_observed(self) -> (r: usize)
        ensures
            r == self@.declared_and_observed,
    {
        self.declared_and_observed
    }

    /// Returns unauthorized direct observations with no declared path.
    pub fn observed_undeclared(self) -> (r: usize)
        ensures
            r == self@.observed_undeclared,
    {
        self.observed_undeclared
    }

    /// Returns direct observations authorized only transitively.
    pub fn observed_transitive_bypass(self) -> (r: usize)
        ensures
            r == self@.observed_transitive_bypass,
    {
        self.observed_transitive_bypass
    }

    /// Returns direct declared dependencies lacking supported observation.
    pub fn declared_unobserved(self) -> (r: usize)
        ensures
            r == self@.declared_unobserved,
    {
        self.declared_unobserved
    }

    /// Returns external observation record count.
    pub fn external(self) -> (r: usize)
        ensures
            r == self@.external,
    {
        self.external
    }

    /// Returns supported but unresolved observation record count.
    pub fn unresolved(self) -> (r: usize)
        ensures
            r == self@.unresolved,
    {
        self.unresolved
    }

    /// Returns unsupported analyzer coverage issue count.
    pub fn unsupported(self) -> (r: usize)
        ensures
            r == self@.unsupported,
    {
        self.unsupported
    }

    /// Returns invalid observed implementation issue count.
    pub fn invalid(self) -> (r: usize)
        ensures
            r == self@.invalid,
    {
        self.invalid
    }
}

/// Abstract value of one declared direct requirement.
pub struct RequirementModel {
    pub consumer: Seq<char>,
    pub provider: Seq<char>,
    pub capability: Seq<char>,
}

/// One declared direct capability requirement between Modules.
#[derive(Clone, Debug, PartialEq, Eq)]
pub struct DirectRequirement {
    consumer: String,
    provider: String,
    capability: String,
}

impl View for DirectRequirement {
    type V = RequirementModel;

    closed spec fn view(&self) -> RequirementModel {
        RequirementModel { consumer: self.consumer@, provider: self.provider@, capability: self.capability@ }
    }
}

impl DirectRequirement {
    /// Creates one requirement.
    pub fn new(consumer: String, provider: String, capability: String) -> (r: Self)
        ensures
            r@ == (RequirementModel { consumer: consumer@, provider: provider@, capability: capability@ }),
    {
        DirectRequirement { consumer, provider, capability }
    }
}

/// Abstract value of one observed Module dependency.
pub struct DependencyModel {
    pub source_module: Seq<char>,
    pub target_module: Seq<char>,
    pub evidence: Seq<Seq<char>>,
    pub declared_path: Option<Seq<Seq<char>>>,
}

/// One observed direct dependency between governed Modules, with its
/// evidence and the declared dependency path between them, if any.
#[derive(Clone, Debug, PartialEq, Eq)]
pub struct ObservedDependency {
    source_module: String,
    target_module: String,
    evidence: Vec<String>,
    declared_path: Option<Vec<String>>,
}

/// The view of an optional text list.
pub open spec fn optional_texts(o: Option<Vec<String>>) -> Option<Seq<Seq<char>>> {
    match o {
        Some(v) => Some(texts(v@)),
        None => None,
    }
}

impl View for ObservedDependency {
    type V = DependencyModel;

    closed spec fn view(&self) -> DependencyModel {
        DependencyModel {
            source_module: self.source_module@,
            target_module: self.target_module@,
            evidence: texts(self.evidence@),
            declared_path: optional_texts(self.declared_path),
        }
    }
}

impl ObservedDependency {
    /// Creates one observed dependency.
    pub fn new(source_module: String, target_module: String, evidence: Vec<String>, declared_path: Option<Vec<String>>) -> (r: Self)
        ensures
            r@ == (DependencyModel {
                source_module: source_module@,
                target_module: target_module@,
                evidence: texts(evidence@),
                declared_path: optional_texts(declared_path),
            }),
    {
        ObservedDependency { source_module, target_module, evidence, declared_path }
    }
}

/// How an observed reference's target was classified.
#[derive(Clone, Copy, Debug, PartialEq, Eq, Structural)]
pub enum TargetClassification {
    /// A governed Module.
    GovernedModule,
    /// Territory under analysis.
    AnalysisTerritory,
    /// A dependency outside the governed ecosystem.
    ExternalDependency,
    /// Not resolved confidently.
    Unresolved,
}

/// Abstract value of one observation.
pub struct ObservationModel {
    pub source_module: Seq<char>,
    pub classification: TargetClassification,
    pub external_target: Option<Seq<char>>,
    pub source_artifact: Seq<char>,
    pub provenance: Seq<char>,
}

/// One observed reference with its classification and provenance.
#[derive(Clone, Debug, PartialEq, Eq)]
pub struct Observation {
    source_module: String,
    classification: TargetClassification,
    external_target: Option<String>,
    source_artifact: String,
    provenance: String,
}

impl View for Observation {
    type V = ObservationModel;

    closed spec fn view(&self) -> ObservationModel {
        ObservationModel {
            source_module: self.source_module@,
            classification: self.classification,
            external_target: crate::behavior::model::optional_view(self.external_target),
            source_artifact: self.source_artifact@,
            provenance: self.provenance@,
        }
    }
}

impl Observation {
    /// Creates one observation.
    pub fn new(
        source_module: String,
        classification: TargetClassification,
        external_target: Option<String>,
        source_artifact: String,
        provenance: String,
    ) -> (r: Self)
        ensures
            r@ == (ObservationModel {
                source_module: source_module@,
                classification,
                external_target: crate::behavior::model::optional_view(external_target),
                source_artifact: source_artifact@,
                provenance: provenance@,
            }),
    {
        Observation { source_module, classification, external_target, source_artifact, provenance }
    }
}

/// Kind of an analyzer coverage issue.
#[derive(Clone, Copy, Debug, PartialEq, Eq, Structural)]
pub enum ObservationIssueKind {
    /// Outside the analyzer's supported subset.
    Unsupported,
    /// Invalid observed implementation.
    Invalid,
}

/// Abstract value of an analyzer coverage issue.
pub struct IssueModel {
    pub kind: ObservationIssueKind,
    pub source_path: Seq<char>,
    pub detail: Seq<char>,
}

/// One analyzer coverage issue.
#[derive(Clone, Debug, PartialEq, Eq)]
pub struct ObservationIssue {
    kind: ObservationIssueKind,
    source_path: String,
    detail: String,
}

impl View for ObservationIssue {
    type V = IssueModel;

    closed spec fn view(&self) -> IssueModel {
        IssueModel { kind: self.kind, source_path: self.source_path@, detail: self.detail@ }
    }
}

impl ObservationIssue {
    /// Records one issue of `kind` in a source file.
    pub fn new(kind: ObservationIssueKind, source_path: String, detail: String) -> (r: Self)
        ensures
            r@ == (IssueModel { kind, source_path: source_path@, detail: detail@ }),
    {
        ObservationIssue { kind, source_path, detail }
    }

    /// Returns the issue kind.
    pub fn kind(&self) -> (r: ObservationIssueKind)
        ensures
            r == self@.kind,
    {
        self.kind
    }

    fn duplicate(&self) -> (r: Self)
        ensures
            r@ == self@,
    {
        ObservationIssue { kind: self.kind, source_path: copy_text(self.source_path.as_str()), detail: copy_text(self.detail.as_str()) }
    }
}

/// Abstract value of an observed implementation.
pub struct ImplementationModel {
    pub module_dependencies: Seq<DependencyModel>,
    pub observations: Seq<ObservationModel>,
    pub issues: Seq<IssueModel>,
}

/// Independently observed implementation facts.
#[derive(Clone, Debug, PartialEq, Eq)]
pub struct ObservedImplementation {
    module_dependencies: Vec<ObservedDependency>,
    observations: Vec<Observation>,
    issues: Vec<ObservationIssue>,
}

impl View for ObservedImplementation {
    type V = ImplementationModel;

    closed spec fn view(&self) -> ImplementationModel {
        ImplementationModel {
            module_dependencies: views(self.module_dependencies@),
            observations: views(self.observations@),
            issues: views(self.issues@),
        }
    }
}

impl ObservedImplementation {
    /// Creates the observed implementation facts.
    pub fn new(module_dependencies: Vec<ObservedDependency>, observations: Vec<Observation>, issues: Vec<ObservationIssue>) -> (r: Self)
        ensures
            r@ == (ImplementationModel {
                module_dependencies: views(module_dependencies@),
                observations: views(observations@),
                issues: views(issues@),
            }),
    {
        ObservedImplementation { module_dependencies, observations, issues }
    }
}

/// Some requirement goes from `s` to `t`.
pub open spec fn has_direct(reqs: Seq<RequirementModel>, s: Seq<char>, t: Seq<char>) -> bool {
    exists|i: int| 0 <= i < reqs.len() && #[trigger] reqs[i].consumer == s && reqs[i].provider == t
}

/// Capabilities of the first `n` requirements from `s` to `t`.
pub open spec fn capability_list(reqs: Seq<RequirementModel>, s: Seq<char>, t: Seq<char>, n: int) -> Seq<Seq<char>>
    decreases n,
{
    if n <= 0 {
        Seq::empty()
    } else {
        capability_list(reqs, s, t, n - 1) + (if reqs[n - 1].consumer == s && reqs[n - 1].provider == t {
            seq![reqs[n - 1].capability]
        } else {
            Seq::empty()
        })
    }
}

/// The declared capabilities from `s` to `t` in canonical order.
pub open spec fn capabilities_of(reqs: Seq<RequirementModel>, s: Seq<char>, t: Seq<char>) -> Seq<Seq<char>> {
    canonical_set::<String>(capability_list(reqs, s, t, reqs.len() as int))
}

/// Some observed dependency goes from `s` to `t`.
pub open spec fn observed_pair(deps: Seq<DependencyModel>, s: Seq<char>, t: Seq<char>) -> bool {
    exists|j: int| 0 <= j < deps.len() && #[trigger] deps[j].source_module == s && deps[j].target_module == t
}

/// The record of one observed governed dependency.
pub open spec fn governed_record(reqs: Seq<RequirementModel>, d: DependencyModel) -> RecordModel {
    if has_direct(reqs, d.source_module, d.target_module) {
        RecordModel {
            state: ReconciliationState::DeclaredAndObserved,
            source_module: d.source_module,
            target_module: Some(d.target_module),
            external_target: None,
            declared_capabilities: capabilities_of(reqs, d.source_module, d.target_module),
            declared_path: seq![d.source_module, d.target_module],
            evidence: d.evidence,
        }
    } else {
        match d.declared_path {
            Some(p) => RecordModel {
                state: ReconciliationState::ObservedTransitiveBypass,
                source_module: d.source_module,
                target_module: Some(d.target_module),
                external_target: None,
                declared_capabilities: Seq::empty(),
                declared_path: p,
                evidence: d.evidence,
            },
            None => RecordModel {
                state: ReconciliationState::ObservedUndeclared,
                source_module: d.source_module,
                target_module: Some(d.target_module),
                external_target: None,
                declared_capabilities: Seq::empty(),
                declared_path: Seq::empty(),
                evidence: d.evidence,
            },
        }
    }
}

/// The record of a declared but unobserved requirement pair.
pub open spec fn unobserved_record(reqs: Seq<RequirementModel>, r: RequirementModel) -> RecordModel {
    RecordModel {
        state: ReconciliationState::DeclaredUnobserved,
        source_module: r.consumer,
        target_module: Some(r.provider),
        external_target: None,
        declared_capabilities: capabilities_of(reqs, r.consumer, r.provider),
        declared_path: seq![r.consumer, r.provider],
        evidence: Seq::empty(),
    }
}

/// Provenance of the first `n` observations matching one coverage group.
pub open spec fn group_evidence(obs: Seq<ObservationModel>, o: ObservationModel, n: int) -> Seq<Seq<char>>
    decreases n,
{
    if n <= 0 {
        Seq::empty()
    } else {
        let x = obs[n - 1];
        group_evidence(obs, o, n - 1) + (if x.classification == o.classification && x.source_module == o.source_module && (
        if o.classification == TargetClassification::ExternalDependency {
            x.external_target == o.external_target
        } else {
            x.source_artifact == o.source_artifact
        }) {
            seq![x.provenance]
        } else {
            Seq::empty()
        })
    }
}

/// The coverage record of an external or unresolved observation.
pub open spec fn coverage_record(obs: Seq<ObservationModel>, o: ObservationModel) -> RecordModel {
    RecordModel {
        state: if o.classification == TargetClassification::ExternalDependency {
            ReconciliationState::External
        } else {
            ReconciliationState::Unresolved
        },
        source_module: o.source_module,
        target_module: None,
        external_target: if o.classification == TargetClassification::ExternalDependency {
            o.external_target
        } else {
            None
        },
        declared_capabilities: Seq::empty(),
        declared_path: Seq::empty(),
        evidence: canonical_set::<String>(group_evidence(obs, o, obs.len() as int)),
    }
}

/// The observation yields a coverage record.
pub open spec fn is_coverage(o: ObservationModel) -> bool {
    (o.classification == TargetClassification::ExternalDependency && o.external_target is Some)
        || o.classification == TargetClassification::Unresolved
}

/// Every record before canonical ordering.
pub open spec fn all_records(reqs: Seq<RequirementModel>, imp: ImplementationModel) -> Seq<RecordModel> {
    imp.module_dependencies.map_values(|d: DependencyModel| governed_record(reqs, d))
        + reqs.filter(|r: RequirementModel| !observed_pair(imp.module_dependencies, r.consumer, r.provider)).map_values(
        |r: RequirementModel| unobserved_record(reqs, r),
    ) + imp.observations.filter(|o: ObservationModel| is_coverage(o)).map_values(
        |o: ObservationModel| coverage_record(imp.observations, o),
    )
}

/// Requirement `i` is the first with its Module pair.
pub open spec fn first_of_pair(reqs: Seq<RequirementModel>, i: int) -> bool {
    forall|j: int| 0 <= j < i ==> !(#[trigger] reqs[j].consumer == reqs[i].consumer && reqs[j].provider == reqs[i].provider)
}

/// Number of distinct Module pairs among the first `n` requirements.
pub open spec fn distinct_pairs(reqs: Seq<RequirementModel>, n: int) -> nat
    decreases n,
{
    if n <= 0 {
        0
    } else {
        distinct_pairs(reqs, n - 1) + (if first_of_pair(reqs, n - 1) { 1nat } else { 0nat })
    }
}

/// Number of records in a state.
pub open spec fn state_count(records: Seq<RecordModel>, state: ReconciliationState) -> nat
    decreases records.len(),
{
    if records.len() == 0 {
        0
    } else {
        state_count(records.drop_last(), state) + (if records.last().state == state { 1nat } else { 0nat })
    }
}

/// Number of issues of a kind.
pub open spec fn issue_count(issues: Seq<IssueModel>, kind: ObservationIssueKind) -> nat
    decreases issues.len(),
{
    if issues.len() == 0 {
        0
    } else {
        issue_count(issues.drop_last(), kind) + (if issues.last().kind == kind { 1nat } else { 0nat })
    }
}

/// Semantic claims intentionally unsupported by reconciliation.
pub open spec fn realization_unsupported() -> Seq<Seq<char>> {
    seq![
        "capability_to_source_realization"@,
        "macro_generated_dependency_semantics"@,
        "external_dependency_governance"@,
        "non_rust_implementation_dependencies"@,
    ]
}

/// Abstract value of a reconciliation result.
pub struct RealizationModel {
    pub records: Seq<RecordModel>,
    pub summary: SummaryModel,
    pub unsupported_semantics: Seq<Seq<char>>,
    pub issues: Seq<IssueModel>,
}

/// Complete architecture realization facts.
#[derive(Clone, Debug, PartialEq, Eq)]
pub struct ArchitectureRealization {
    records: Vec<ReconciliationRecord>,
    summary: ReconciliationSummary,
    unsupported_semantics: Vec<String>,
    issues: Vec<ObservationIssue>,
}

impl View for ArchitectureRealization {
    type V = RealizationModel;

    closed spec fn view(&self) -> RealizationModel {
        RealizationModel {
            records: views(self.records@),
            summary: self.summary@,
            unsupported_semantics: texts(self.unsupported_semantics@),
            issues: views(self.issues@),
        }
    }
}

impl ArchitectureRealization {
    /// Returns every reconciliation conclusion in canonical order.
    pub fn records(&self) -> (r: &[ReconciliationRecord])
        ensures
            views(r@) == self@.records,
    {
        self.records.as_slice()
    }

    /// Returns reconciliation counts.
    pub fn summary(&self) -> (r: ReconciliationSummary)
        ensures
            r@ == self@.summary,
    {
        self.summary
    }

    /// Returns semantic claims intentionally unsupported.
    pub fn unsupported_semantics(&self) -> (r: &[String])
        ensures
            texts(r@) == self@.unsupported_semantics,
    {
        self.unsupported_semantics.as_slice()
    }
}

fn has_direct_exec(reqs: &[DirectRequirement], s: &str, t: &str) -> (r: bool)
    ensures
        r == has_direct(views(reqs@), s@, t@),
{
    let ghost rv = views(reqs@);
    let mut i: usize = 0;
    while i < reqs.len()
        invariant
            rv == views(reqs@),
            i <= reqs@.len(),
            forall|k: int| 0 <= k < i ==> !(#[trigger] rv[k].consumer == s@ && rv[k].provider == t@),
        decreases reqs.len() - i,
    {
        assert(rv[i as int] == reqs@[i as int]@);
        if text_eq(reqs[i].consumer.as_str(), s) && text_eq(reqs[i].provider.as_str(), t) {
            assert(rv[i as int].consumer == s@ && rv[i as int].provider == t@);
            return true;
        }
        i = i + 1;
    }
    false
}

fn capabilities_exec(reqs: &[DirectRequirement], s: &str, t: &str) -> (r: Vec<String>)
    ensures
        texts(r@) == capabilities_of(views(reqs@), s@, t@),
{
    let ghost rv = views(reqs@);
    let mut caps: Vec<String> = Vec::new();
    let mut i: usize = 0;
    while i < reqs.len()
        invariant
            rv == views(reqs@),
            i <= reqs@.len(),
            views(caps@) == capability_list(rv, s@, t@, i as int),
        decreases reqs.len() - i,
    {
        assert(rv[i as int] == reqs@[i as int]@);
        if text_eq(reqs[i].consumer.as_str(), s) && text_eq(reqs[i].provider.as_str(), t) {
            let ghost old = views(caps@);
            caps.push(copy_text(reqs[i].capability.as_str()));
            assert(views(caps@) =~= old.push(rv[i as int].capability));
        }
        i = i + 1;
    }
    let out = canonical_set_exec(caps);
    assert(texts(out@) =~= views(out@));
    out
}

fn observed_pair_exec(deps: &[ObservedDependency], s: &str, t: &str) -> (r: bool)
    ensures
        r == observed_pair(views(deps@), s@, t@),
{
    let ghost dv = views(deps@);
    let mut j: usize = 0;
    while j < deps.len()
        invariant
            dv == views(deps@),
            j <= deps@.len(),
            forall|k: int| 0 <= k < j ==> !(#[trigger] dv[k].source_module == s@ && dv[k].target_module == t@),
        decreases deps.len() - j,
    {
        assert(dv[j as int] == deps@[j as int]@);
        if text_eq(deps[j].source_module.as_str(), s) && text_eq(deps[j].target_module.as_str(), t) {
            assert(dv[j as int].source_module == s@ && dv[j as int].target_module == t@);
            return true;
        }
        j = j + 1;
    }
    false
}

fn governed_record_exec(reqs: &[DirectRequirement], d: &ObservedDependency) -> (r: ReconciliationRecord)
    ensures
        r@ == governed_record(views(reqs@), d@),
{
    let s = d.source_module.as_str();
    let t = d.target_module.as_str();
    if has_direct_exec(reqs, s, t) {
        let mut path: Vec<String> = Vec::new();
        path.push(copy_text(s));
        path.push(copy_text(t));
        assert(texts(path@) =~= seq![s@, t@]);
        ReconciliationRecord {
            state: ReconciliationState::DeclaredAndObserved,
            source_module: copy_text(s),
            target_module: Some(copy_text(t)),
            external_target: None,
            declared_capabilities: capabilities_exec(reqs, s, t),
            declared_path: path,
            evidence: copy_texts(d.evidence.as_slice()),
        }
    } else {
        let empty: Vec<String> = Vec::new();
        assert(texts(empty@) =~= Seq::<Seq<char>>::empty());
        match &d.declared_path {
            Some(p) => ReconciliationRecord {
                state: ReconciliationState::ObservedTransitiveBypass,
                source_module: copy_text(s),
                target_module: Some(copy_text(t)),
                external_target: None,
                declared_capabilities: empty,
                declared_path: copy_texts(p.as_slice()),
                evidence: copy_texts(d.evidence.as_slice()),
            },
            None => {
                let empty2: Vec<String> = Vec::new();
                assert(texts(empty2@) =~= Seq::<Seq<char>>::empty());
                ReconciliationRecord {
                    state: ReconciliationState::ObservedUndeclared,
                    source_module: copy_text(s),
                    target_module: Some(copy_text(t)),
                    external_target: None,
                    declared_capabilities: empty,
                    declared_path: empty2,
                    evidence: copy_texts(d.evidence.as_slice()),
                }
            },
        }
    }
}

fn coverage_record_exec(obs: &[Observation], k: usize) -> (r: ReconciliationRecord)
    requires
        k < obs@.len(),
    ensures
        r@ == coverage_record(views(obs@), obs@[k as int]@),
{
    let ghost ov = views(obs@);
    let o = &obs[k];
    let mut evidence: Vec<String> = Vec::new();
    let mut i: usize = 0;
    while i < obs.len()
        invariant
            ov == views(obs@),
            k < obs@.len(),
            o@ == obs@[k as int]@,
            i <= obs@.len(),
            views(evidence@) == group_evidence(ov, o@, i as int),
        decreases obs.len() - i,
    {
        let x = &obs[i];
        assert(ov[i as int] == x@);
        let same_group = if o.classification == TargetClassification::ExternalDependency {
            match (&x.external_target, &o.external_target) {
                (Some(a), Some(b)) => text_eq(a.as_str(), b.as_str()),
                (None, None) => true,
                _ => false,
            }
        } else {
            text_eq(x.source_artifact.as_str(), o.source_artifact.as_str())
        };
        if x.classification == o.classification && text_eq(x.source_module.as_str(), o.source_module.as_str()) && same_group {
            let ghost old = views(evidence@);
            evidence.push(copy_text(x.provenance.as_str()));
            assert(views(evidence@) =~= old.push(x@.provenance));
        }
        i = i + 1;
    }
    let evidence = canonical_set_exec(evidence);
    assert(texts(evidence@) =~= views(evidence@));
    let external = o.classification == TargetClassification::ExternalDependency;
    let empty: Vec<String> = Vec::new();
    assert(texts(empty@) =~= Seq::<Seq<char>>::empty());
    let empty2: Vec<String> = Vec::new();
    assert(texts(empty2@) =~= Seq::<Seq<char>>::empty());
    ReconciliationRecord {
        state: if external {
            ReconciliationState::External
        } else {
            ReconciliationState::Unresolved
        },
        source_module: copy_text(o.source_module.as_str()),
        target_module: None,
        external_target: if external {
            match &o.external_target {
                Some(t) => Some(copy_text(t.as_str())),
                None => None,
            }
        } else {
            None
        },
        declared_capabilities: empty,
        declared_path: empty2,
        evidence,
    }
}

/// The reconciliation counts of a result.
pub open spec fn summary_of(reqs: Seq<RequirementModel>, imp: ImplementationModel, records: Seq<RecordModel>) -> SummaryModel {
    SummaryModel {
        declared_direct: distinct_pairs(reqs, reqs.len() as int) as usize,
        observed_governed: imp.module_dependencies.len() as usize,
        declared_and_observed: state_count(records, ReconciliationState::DeclaredAndObserved) as usize,
        observed_undeclared: state_count(records, ReconciliationState::ObservedUndeclared) as usize,
        observed_transitive_bypass: state_count(records, ReconciliationState::ObservedTransitiveBypass) as usize,
        declared_unobserved: state_count(records, ReconciliationState::DeclaredUnobserved) as usize,
        external: state_count(records, ReconciliationState::External) as usize,
        unresolved: state_count(records, ReconciliationState::Unresolved) as usize,
        unsupported: issue_count(imp.issues, ObservationIssueKind::Unsupported) as usize,
        invalid: issue_count(imp.issues, ObservationIssueKind::Invalid) as usize,
    }
}

fn count_records(records: &Vec<ReconciliationRecord>, state: ReconciliationState) -> (r: usize)
    ensures
        r == state_count(views(records@), state),
{
    let ghost rv = views(records@);
    let mut c: usize = 0;
    let mut i: usize = 0;
    while i < records.len()
        invariant
            rv == views(records@),
            i <= records@.len(),
            c <= i,
            c == state_count(rv.take(i as int), state),
        decreases records.len() - i,
    {
        assert(rv.take(i + 1).drop_last() =~= rv.take(i as int));
        assert(rv.take(i + 1).last() == records@[i as int]@);
        if records[i].state == state {
            c = c + 1;
        }
        i = i + 1;
    }
    assert(rv.take(records@.len() as int) =~= rv);
    c
}

fn count_issues(issues: &Vec<ObservationIssue>, kind: ObservationIssueKind) -> (r: usize)
    ensures
        r == issue_count(views(issues@), kind),
{
    let ghost iv = views(issues@);
    let mut c: usize = 0;
    let mut i: usize = 0;
    while i < issues.len()
        invariant
            i <= issues@.len(),
            c <= i,
            iv == views(issues@),
            c == issue_count(iv.take(i as int), kind),
        decreases issues.len() - i,
    {
        assert(iv.take(i + 1).drop_last() =~= iv.take(i as int));
        assert(iv.take(i + 1).last() == issues@[i as int]@);
        if issues[i].kind == kind {
            c = c + 1;
        }
        i = i + 1;
    }
    assert(iv.take(issues@.len() as int) =~= iv);
    c
}

fn count_distinct_pairs(reqs: &[DirectRequirement]) -> (r: usize)
    ensures
        r == distinct_pairs(views(reqs@), reqs@.len() as int),
{
    let ghost rv = views(reqs@);
    let mut c: usize = 0;
    let mut i: usize = 0;
    while i < reqs.len()
        invariant
            rv == views(reqs@),
            i <= reqs@.len(),
            c <= i,
            c == distinct_pairs(rv, i as int),
        decreases reqs.len() - i,
    {
        let seen = has_direct_exec(vstd::slice::slice_subrange(reqs, 0, i), reqs[i].consumer.as_str(), reqs[i].provider.as_str());
        proof {
            let prefix = views(reqs@.subrange(0, i as int));
            assert(rv[i as int] == reqs@[i as int]@);
            assert forall|j: int| 0 <= j < i implies prefix[j] == #[trigger] rv[j] by {}
            if first_of_pair(rv, i as int) {
                assert(!has_direct(prefix, rv[i as int].consumer, rv[i as int].provider)) by {
                    if has_direct(prefix, rv[i as int].consumer, rv[i as int].provider) {
                        let j = choose|j: int| 0 <= j < prefix.len() && #[trigger] prefix[j].consumer == rv[i as int].consumer && prefix[j].provider == rv[i as int].provider;
                        assert(prefix[j] == rv[j]);
                    }
                }
            } else {
                let j = choose|j: int| 0 <= j < i && #[trigger] rv[j].consumer == rv[i as int].consumer && rv[j].provider == rv[i as int].provider;
                assert(prefix[j] == rv[j]);
                assert(has_direct(prefix, rv[i as int].consumer, rv[i as int].provider));
            }
        }
        if !seen {
            c = c + 1;
        }
        i = i + 1;
    }
    c
}

/// Reconciles independently observed direct Module edges with declared
/// direct requirements.
#[verifier::rlimit(60)]
pub fn reconcile_implementation(requirements: &[DirectRequirement], observed: &ObservedImplementation) -> (r: ArchitectureRealization)
    ensures
        r@.records == canonical_set::<ReconciliationRecord>(all_records(views(requirements@), observed@)),
        r@.summary == summary_of(views(requirements@), observed@, r@.records),
        r@.unsupported_semantics == realization_unsupported(),
        r@.issues == observed@.issues,
{
    let ghost rv = views(requirements@);
    let ghost imp = observed@;
    let deps = &observed.module_dependencies;
    let ghost dv = views(deps@);
    let mut records: Vec<ReconciliationRecord> = Vec::new();
    let mut j: usize = 0;
    while j < deps.len()
        invariant
            rv == views(requirements@),
            dv == views(deps@),
            j <= deps@.len(),
            views(records@) == dv.take(j as int).map_values(|d: DependencyModel| governed_record(rv, d)),
        decreases deps.len() - j,
    {
        let rec = governed_record_exec(requirements, &deps[j]);
        let ghost old = views(records@);
        records.push(rec);
        assert(views(records@) =~= old.push(rec@));
        assert(dv.take(j + 1).map_values(|d: DependencyModel| governed_record(rv, d)) =~= dv.take(j as int).map_values(|d: DependencyModel| governed_record(rv, d)).push(governed_record(rv, deps@[j as int]@)));
        j = j + 1;
    }
    assert(dv.take(deps@.len() as int) =~= dv);
    let ghost part1 = views(records@);
    let mut i: usize = 0;
    while i < requirements.len()
        invariant
            rv == views(requirements@),
            dv == views(deps@),
            i <= requirements@.len(),
            views(records@) == part1 + rv.take(i as int).filter(|r: RequirementModel| !observed_pair(dv, r.consumer, r.provider)).map_values(
                |r: RequirementModel| unobserved_record(rv, r),
            ),
        decreases requirements.len() - i,
    {
        let q = &requirements[i];
        assert(rv[i as int] == q@);
        let ghost pred = |r: RequirementModel| !observed_pair(dv, r.consumer, r.provider);
        assert(rv.take(i + 1).drop_last() =~= rv.take(i as int));
        assert(rv.take(i + 1).last() == q@);
        proof {
            reveal(Seq::filter);
        }
        if !observed_pair_exec(deps.as_slice(), q.consumer.as_str(), q.provider.as_str()) {
            let mut path: Vec<String> = Vec::new();
            path.push(copy_text(q.consumer.as_str()));
            path.push(copy_text(q.provider.as_str()));
            assert(texts(path@) =~= seq![q@.consumer, q@.provider]);
            let empty: Vec<String> = Vec::new();
            assert(texts(empty@) =~= Seq::<Seq<char>>::empty());
            let rec = ReconciliationRecord {
                state: ReconciliationState::DeclaredUnobserved,
                source_module: copy_text(q.consumer.as_str()),
                target_module: Some(copy_text(q.provider.as_str())),
                external_target: None,
                declared_capabilities: capabilities_exec(requirements, q.consumer.as_str(), q.provider.as_str()),
                declared_path: path,
                evidence: empty,
            };
            assert(rec@ == unobserved_record(rv, q@));
            let ghost old = views(records@);
            records.push(rec);
            assert(views(records@) =~= old.push(rec@));
            assert(rv.take(i + 1).filter(pred) =~= rv.take(i as int).filter(pred).push(q@));
            assert(rv.take(i + 1).filter(pred).map_values(|r: RequirementModel| unobserved_record(rv, r)) =~= rv.take(i as int).filter(pred).map_values(|r: RequirementModel| unobserved_record(rv, r)).push(rec@));
        } else {
            assert(rv.take(i + 1).filter(pred) =~= rv.take(i as int).filter(pred));
        }
        i = i + 1;
    }
    assert(rv.take(requirements@.len() as int) =~= rv);
    let ghost part2 = views(records@);
    let obs = &observed.observations;
    let ghost ov = views(obs@);
    let mut k: usize = 0;
    while k < obs.len()
        invariant
            ov == views(obs@),
            k <= obs@.len(),
            views(records@) == part2 + ov.take(k as int).filter(|o: ObservationModel| is_coverage(o)).map_values(
                |o: ObservationModel| coverage_record(ov, o),
            ),
        decreases obs.len() - k,
    {
        let o = &obs[k];
        assert(ov[k as int] == o@);
        let ghost pred = |o: ObservationModel| is_coverage(o);
        assert(ov.take(k + 1).drop_last() =~= ov.take(k as int));
        assert(ov.take(k + 1).last() == o@);
        proof {
            reveal(Seq::filter);
        }
        let coverage = (o.classification == TargetClassification::ExternalDependency && o.external_target.is_some())
            || o.classification == TargetClassification::Unresolved;
        if coverage {
            let rec = coverage_record_exec(obs.as_slice(), k);
            let ghost old = views(records@);
            records.push(rec);
            assert(views(records@) =~= old.push(rec@));
            assert(ov.take(k + 1).filter(pred) =~= ov.take(k as int).filter(pred).push(o@));
            assert(ov.take(k + 1).filter(pred).map_values(|x: ObservationModel| coverage_record(ov, x)) =~= ov.take(k as int).filter(pred).map_values(|x: ObservationModel| coverage_record(ov, x)).push(rec@));
        } else {
            assert(ov.take(k + 1).filter(pred) =~= ov.take(k as int).filter(pred));
        }
        k = k + 1;
    }
    assert(ov.take(obs@.len() as int) =~= ov);
    assert(views(records@) =~= all_records(rv, imp));
    let records = canonical_set_exec(records);
    let summary = ReconciliationSummary {
        declared_direct: count_distinct_pairs(requirements),
        observed_governed: deps.len(),
        declared_and_observed: count_records(&records, ReconciliationState::DeclaredAndObserved),
        observed_undeclared: count_records(&records, ReconciliationState::ObservedUndeclared),
        observed_transitive_bypass: count_records(&records, ReconciliationState::ObservedTransitiveBypass),
        declared_unobserved: count_records(&records, ReconciliationState::DeclaredUnobserved),
        external: count_records(&records, ReconciliationState::External),
        unresolved: count_records(&records, ReconciliationState::Unresolved),
        unsupported: count_issues(&observed.issues, ObservationIssueKind::Unsupported),
        invalid: count_issues(&observed.issues, ObservationIssueKind::Invalid),
    };
    let mut unsupported: Vec<String> = Vec::new();
    unsupported.push(copy_text("capability_to_source_realization"));
    unsupported.push(copy_text("macro_generated_dependency_semantics"));
    unsupported.push(copy_text("external_dependency_governance"));
    unsupported.push(copy_text("non_rust_implementation_dependencies"));
    assert(texts(unsupported@) =~= realization_unsupported());
    let mut issues: Vec<ObservationIssue> = Vec::new();
    let mut k: usize = 0;
    while k < observed.issues.len()
        invariant
            k <= observed.issues@.len(),
            views(issues@) == views(observed.issues@).take(k as int),
        decreases observed.issues.len() - k,
    {
        let ghost before = issues@;
        let copy = observed.issues[k].duplicate();
        issues.push(copy);
        proof {
            crate::order::lemma_views_push_seq(before, copy);
        }
        assert(views(observed.issues@).take(k + 1) =~= views(observed.issues@).take(k as int).push(observed.issues@[k as int]@));
        k = k + 1;
    }
    assert(views(observed.issues@).take(observed.issues@.len() as int) =~= views(observed.issues@));
    ArchitectureRealization { records, summary, unsupported_semantics: unsupported, issues }
}


// ---------------------------------------------------------------------------
// Findings.

/// Abstract value of one architecture finding.
pub struct ArchitectureFindingModel {
    pub rule_id: Seq<char>,
    pub entities: Seq<Seq<char>>,
    pub path: Option<Seq<char>>,
    pub message: Seq<char>,
    pub standard_edition: Seq<char>,
}

/// One failure of an architecture rule: the rule, the entities concerned,
/// the source file when known, and the explanation.
#[derive(Clone, Debug, PartialEq, Eq)]
pub struct ArchitectureFinding {
    rule_id: String,
    entities: Vec<String>,
    path: Option<String>,
    message: String,
    standard_edition: String,
}

impl View for ArchitectureFinding {
    type V = ArchitectureFindingModel;

    closed spec fn view(&self) -> ArchitectureFindingModel {
        ArchitectureFindingModel {
            rule_id: self.rule_id@,
            entities: texts(self.entities@),
            path: crate::behavior::model::optional_view(self.path),
            message: self.message@,
            standard_edition: self.standard_edition@,
        }
    }
}

impl ArchitectureFinding {
    /// Records one finding.
    pub fn new(
        rule_id: String,
        entities: Vec<String>,
        path: Option<String>,
        message: String,
        standard_edition: String,
    ) -> (r: Self)
        ensures
            r@ == (ArchitectureFindingModel {
                rule_id: rule_id@,
                entities: texts(entities@),
                path: crate::behavior::model::optional_view(path),
                message: message@,
                standard_edition: standard_edition@,
            }),
    {
        ArchitectureFinding { rule_id, entities, path, message, standard_edition }
    }

    /// Returns the rule identity.
    pub fn rule_id(&self) -> (r: &str)
        ensures
            r@ == self@.rule_id,
    {
        self.rule_id.as_str()
    }

    /// Returns the entities concerned.
    pub fn entities(&self) -> (r: &[String])
        ensures
            texts(r@) == self@.entities,
    {
        self.entities.as_slice()
    }

    /// Returns the explanation.
    pub fn message(&self) -> (r: &str)
        ensures
            r@ == self@.message,
    {
        self.message.as_str()
    }

    /// Returns the source file, when known.
    pub fn path(&self) -> (r: Option<&str>)
        ensures
            match r {
                Some(t) => self@.path == Some(t@),
                None => self@.path is None,
            },
    {
        match &self.path {
            Some(p) => Some(p.as_str()),
            None => None,
        }
    }
}

/// The target of a record as named in findings.
pub open spec fn finding_target(r: RecordModel) -> Seq<char> {
    match r.target_module {
        Some(t) => t,
        None => "unresolved"@,
    }
}

/// The finding of a record, for the two hard reconciliation states.
pub open spec fn record_finding(r: RecordModel, edition: Seq<char>) -> Option<ArchitectureFindingModel> {
    let target = finding_target(r);
    let message = if r.state == ReconciliationState::ObservedUndeclared {
        Some(
            "Observed direct Rust dependency "@ + r.source_module + " -> "@ + target
                + " has no direct CCG dependency authorization."@,
        )
    } else if r.state == ReconciliationState::ObservedTransitiveBypass {
        Some(
            "Observed direct Rust dependency "@ + r.source_module + " -> "@ + target + " bypasses declared path "@
                + crate::text::join_texts(r.declared_path, " -> "@)
                + "; transitive reachability is not direct authorization."@,
        )
    } else {
        None
    };
    match message {
        Some(m) => Some(
            ArchitectureFindingModel {
                rule_id: ARCH_REALIZATION_RULE_ID@,
                entities: seq![r.source_module, target],
                path: None,
                message: m,
                standard_edition: edition,
            },
        ),
        None => None,
    }
}

/// The findings of the records, in record order.
pub open spec fn record_findings(records: Seq<RecordModel>, edition: Seq<char>) -> Seq<ArchitectureFindingModel>
    decreases records.len(),
{
    if records.len() == 0 {
        Seq::empty()
    } else {
        record_findings(records.drop_last(), edition) + match record_finding(records.last(), edition) {
            Some(f) => seq![f],
            None => Seq::empty(),
        }
    }
}

/// The findings of the invalid-implementation issues, in issue order.
pub open spec fn issue_findings(issues: Seq<IssueModel>, edition: Seq<char>) -> Seq<ArchitectureFindingModel>
    decreases issues.len(),
{
    if issues.len() == 0 {
        Seq::empty()
    } else {
        issue_findings(issues.drop_last(), edition) + if issues.last().kind == ObservationIssueKind::Invalid {
            seq![
                ArchitectureFindingModel {
                    rule_id: ARCH_REALIZATION_RULE_ID@,
                    entities: Seq::empty(),
                    path: Some(issues.last().source_path),
                    message: "Observed implementation is invalid: "@ + issues.last().detail + "."@,
                    standard_edition: edition,
                },
            ]
        } else {
            Seq::empty()
        }
    }
}

fn record_finding_exec(r: &ReconciliationRecord, edition: &str) -> (f: Option<ArchitectureFinding>)
    ensures
        match record_finding(r@, edition@) {
            Some(m) => f matches Some(x) && x@ == m,
            None => f is None,
        },
{
    let target = match &r.target_module {
        Some(t) => copy_text(t.as_str()),
        None => copy_text("unresolved"),
    };
    let message = if r.state == ReconciliationState::ObservedUndeclared {
        let m = crate::text::concat("Observed direct Rust dependency ", r.source_module.as_str());
        let m = crate::text::concat(m.as_str(), " -> ");
        let m = crate::text::concat(m.as_str(), target.as_str());
        crate::text::concat(m.as_str(), " has no direct CCG dependency authorization.")
    } else if r.state == ReconciliationState::ObservedTransitiveBypass {
        let m = crate::text::concat("Observed direct Rust dependency ", r.source_module.as_str());
        let m = crate::text::concat(m.as_str(), " -> ");
        let m = crate::text::concat(m.as_str(), target.as_str());
        let m = crate::text::concat(m.as_str(), " bypasses declared path ");
        let path = crate::text::join(r.declared_path.as_slice(), " -> ");
        let m = crate::text::concat(m.as_str(), path.as_str());
        crate::text::concat(m.as_str(), "; transitive reachability is not direct authorization.")
    } else {
        return None;
    };
    let mut entities: Vec<String> = Vec::new();
    entities.push(copy_text(r.source_module.as_str()));
    entities.push(copy_text(target.as_str()));
    assert(texts(entities@) =~= seq![r@.source_module, finding_target(r@)]);
    Some(ArchitectureFinding::new(copy_text(ARCH_REALIZATION_RULE_ID), entities, None, message, copy_text(edition)))
}

impl ArchitectureRealization {
    /// Returns the findings of the rule: one per observed undeclared
    /// dependency and per transitive bypass, in record order, then one per
    /// invalid observed implementation, in issue order.
    pub fn findings(&self, standard_edition: &str) -> (r: Vec<ArchitectureFinding>)
        ensures
            views(r@) == record_findings(self@.records, standard_edition@) + issue_findings(
                self@.issues,
                standard_edition@,
            ),
    {
        let ghost rv = self@.records;
        let ghost iv = self@.issues;
        let mut out: Vec<ArchitectureFinding> = Vec::new();
        let mut k: usize = 0;
        assert(rv.take(0) =~= Seq::<RecordModel>::empty());
        while k < self.records.len()
            invariant
                k <= self.records@.len(),
                rv == views(self.records@),
                views(out@) == record_findings(rv.take(k as int), standard_edition@),
            decreases self.records.len() - k,
        {
            proof {
                assert(rv.take(k + 1).drop_last() =~= rv.take(k as int));
                assert(rv.take(k + 1).last() == self.records@[k as int]@);
            }
            let ghost before = out@;
            match record_finding_exec(&self.records[k], standard_edition) {
                Some(f) => {
                    out.push(f);
                    proof {
                        crate::order::lemma_views_push_seq(before, f);
                    }
                    assert(views(out@) =~= views(before) + seq![f@]);
                },
                None => {
                    assert(views(out@) =~= views(before) + Seq::<ArchitectureFindingModel>::empty());
                },
            }
            k = k + 1;
        }
        assert(rv.take(self.records@.len() as int) =~= rv);
        let ghost part = views(out@);
        let mut j: usize = 0;
        assert(iv.take(0) =~= Seq::<IssueModel>::empty());
        assert(part + issue_findings(iv.take(0), standard_edition@) =~= part);
        while j < self.issues.len()
            invariant
                j <= self.issues@.len(),
                iv == views(self.issues@),
                views(out@) == part + issue_findings(iv.take(j as int), standard_edition@),
            decreases self.issues.len() - j,
        {
            proof {
                assert(iv.take(j + 1).drop_last() =~= iv.take(j as int));
                assert(iv.take(j + 1).last() == self.issues@[j as int]@);
            }
            let issue = &self.issues[j];
            let ghost before = out@;
            if issue.kind == ObservationIssueKind::Invalid {
                let m = crate::text::concat("Observed implementation is invalid: ", issue.detail.as_str());
                let m = crate::text::concat(m.as_str(), ".");
                let none: Vec<String> = Vec::new();
                assert(texts(none@) =~= Seq::<Seq<char>>::empty());
                let f = ArchitectureFinding::new(
                    copy_text(ARCH_REALIZATION_RULE_ID),
                    none,
                    Some(copy_text(issue.source_path.as_str())),
                    m,
                    copy_text(standard_edition),
                );
                out.push(f);
                proof {
                    crate::order::lemma_views_push_seq(before, f);
                }
                assert(views(out@) =~= part + issue_findings(iv.take(j + 1), standard_edition@));
            } else {
                assert(views(out@) =~= part + issue_findings(iv.take(j + 1), standard_edition@));
            }
            j = j + 1;
        }
        assert(iv.take(self.issues@.len() as int) =~= iv);
        out
    }
}

} // verus!
