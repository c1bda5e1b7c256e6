//! Module semantic-policy evaluation over canonical State/Effect evidence.
//!
//! Every authored policy entry yields one conclusion. ALLOW entries are
//! authorizations, never conformance claims; DENY entries are evaluated
//! against the supported effect evidence attributed to the owning Module.

use vstd::prelude::*;

use crate::behavior::model::optional_view;
use crate::codec::{decimal, decimal_of};
use crate::order::{
    canonical_set, canonical_set_exec, lemma_canonical_set, group_views, groups_le, groups_le_exec, is_strictly_canonical, views, lemma_groups_le_antisymmetric, lemma_groups_le_reflexive,
    lemma_groups_le_total, lemma_groups_le_transitive, lemma_number_field_order, number_field,
    number_field_exec, optional_field, optional_field_exec, rank_field, rank_field_exec, single,
    single_exec, texts_exec, CanonicalOrder, TotalOrder,
};
use crate::architecture::realization::ReconciliationState;
use crate::text::{concat, copy_text, copy_texts, texts};

verus! {

/// Normative Module semantic-conformance rule identity.
pub const ARCH_SEMANTIC_RULE_ID: &'static str = "ARCH-SEMANTIC-001";

/// Canonical semantic-conformance projection schema identity.
pub const SEMANTIC_CONFORMANCE_SCHEMA: &'static str = "urn:fortress:schema:v3:semantic-conformance";

/// Canonical semantic-conformance projection schema version.
pub const SEMANTIC_CONFORMANCE_SCHEMA_VERSION: u16 = 3;

/// Semantic version of the evaluator.
pub const SEMANTIC_CONFORMANCE_VERSION: &'static str = "1.2.0";

/// Stable evaluator identity used in findings.
pub const SEMANTIC_CONFORMANCE_EVALUATOR_ID: &'static str = "fortress-semantic-conformance";

/// Stable reason for governed source that produced no semantic symbols.
pub const NO_SEMANTIC_COVERAGE: &'static str = "NO_SEMANTIC_COVERAGE";

/// Remediation of a supported semantic contradiction.
pub const REMEDIATION: &'static str = "Change the implementation so the forbidden semantic consequence is unreachable, or explicitly revise the owning Module Contract policy after architectural review. Do not infer permission from current behavior.";

/// Remediation of a claim that current semantic authority cannot evaluate.
pub const COVERAGE_REMEDIATION: &'static str = "Resolve the identified opaque operation or narrow the authored policy claim to semantics Fortress can currently evaluate. Do not treat missing semantic authority as conformance.";

/// Authored disposition for one stable policy target.
#[derive(Clone, Copy, Debug, PartialEq, Eq, Structural)]
pub enum PolicyDisposition {
    /// The Module explicitly permits the target semantic consequence.
    Allow,
    /// The Module explicitly prohibits the target semantic consequence.
    Deny,
}

/// Namespace of one authored semantic-policy target.
#[derive(Clone, Copy, Debug, PartialEq, Eq, Structural)]
pub enum PolicyTargetKind {
    /// Architectural capability consequence.
    Capability,
    /// Refined operational effect.
    Effect,
}

/// Truthful conformance state for one Module or policy claim.
#[derive(Clone, Copy, Debug, PartialEq, Eq, Structural)]
pub enum SemanticConformanceState {
    /// All applicable supported evidence satisfies the authored claim.
    Pass,
    /// Supported evidence proves a contradiction.
    Fail,
    /// Claim-relative semantic authority is insufficient.
    Unknown,
    /// No authored semantic-policy claim applies.
    NotApplicable,
}

/// Authored authorization state, independent of implementation conformance.
#[derive(Clone, Copy, Debug, PartialEq, Eq, Structural)]
pub enum AuthorizationState {
    /// The Module Contract explicitly permits the named semantic consequence.
    Authorised,
}

impl AuthorizationState {
    /// Returns the stable serialized authorization identity.
    pub fn as_str(self) -> (r: &'static str)
        ensures
            r@ == "AUTHORISED"@,
    {
        match self {
            AuthorizationState::Authorised => "AUTHORISED",
        }
    }
}

/// Central eligibility classification for enforcement decisions.
#[derive(Clone, Copy, Debug, PartialEq, Eq, Structural)]
pub enum BlockingEligibility {
    /// Complete supported causal evidence permits a blocking violation.
    BlockSupported,
    /// The result is informative and cannot itself create a blocking violation.
    AdvisoryOnly,
    /// Missing semantic authority prevents evaluation of the authored claim.
    NotEvaluable,
}

/// Reflexion state for declared-versus-observed dependency evidence.
#[derive(Clone, Copy, Debug, PartialEq, Eq, Structural)]
pub enum DependencyConvergenceState {
    /// Declared and observed dependency authority agree.
    Convergence,
    /// An observed dependency lacks direct declared authority.
    Divergence,
    /// A declared relationship has no supported observed realization.
    Absence,
    /// Observed behavior is outside declared Module architecture.
    Unmatched,
    /// Current observation cannot establish a safe comparison.
    Unknown,
}

/// Whether effect evidence originates directly or through a call.
#[derive(Clone, Copy, Debug, PartialEq, Eq, Structural)]
pub enum EffectEvidenceKind {
    /// The entry symbol itself performs the operation.
    Direct,
    /// The operation is reached through the proven call chain.
    Transitive,
}

/// Abstract value of a Module's source-level semantic coverage.
pub struct CoverageModel {
    pub governed: nat,
    pub analysed: nat,
    pub ratio: Option<Seq<char>>,
}

/// The coverage of `governed` owned source files of which `analysed` produced
/// semantic symbols; the ratio is the unreduced `analysed/governed`.
pub open spec fn coverage_of(governed: nat, analysed: nat) -> CoverageModel {
    CoverageModel {
        governed,
        analysed,
        ratio: if governed > 0 {
            Some(decimal_of(analysed) + "/"@ + decimal_of(governed))
        } else {
            None
        },
    }
}

/// Exact source-level semantic coverage for one declared Module.
#[derive(Debug)]
pub struct SemanticSourceCoverage {
    governed_source_files: usize,
    analysed_source_files: usize,
    ratio: Option<String>,
}

impl View for SemanticSourceCoverage {
    type V = CoverageModel;

    closed spec fn view(&self) -> CoverageModel {
        CoverageModel {
            governed: self.governed_source_files as nat,
            analysed: self.analysed_source_files as nat,
            ratio: optional_view(self.ratio),
        }
    }
}

impl SemanticSourceCoverage {
    /// Builds the coverage of the given counts.
    pub fn from_counts(governed_source_files: usize, analysed_source_files: usize) -> (r: Self)
        ensures
            r@ == coverage_of(governed_source_files as nat, analysed_source_files as nat),
    {
        let ratio = if governed_source_files > 0 {
            let text = concat(decimal(analysed_source_files as u64).as_str(), "/");
            Some(concat(text.as_str(), decimal(governed_source_files as u64).as_str()))
        } else {
            None
        };
        SemanticSourceCoverage { governed_source_files, analysed_source_files, ratio }
    }

    /// Returns observed source artifacts owned by the declared Module.
    pub fn governed_source_files(&self) -> (r: usize)
        ensures
            r == self@.governed,
    {
        self.governed_source_files
    }

    /// Returns distinct owned source paths represented by at least one semantic symbol.
    pub fn analysed_source_files(&self) -> (r: usize)
        ensures
            r == self@.analysed,
    {
        self.analysed_source_files
    }

    /// Returns the exact `analysed/governed` rational, or `None` without a subject.
    pub fn ratio(&self) -> (r: Option<&str>)
        ensures
            match r {
                Some(t) => self@.ratio == Some(t@),
                None => self@.ratio is None,
            },
    {
        match &self.ratio {
            Some(t) => Some(t.as_str()),
            None => None,
        }
    }

    /// Whether the Module owns at least one governed source file.
    pub fn has_governed_subject(&self) -> (r: bool)
        ensures
            r == (self@.governed > 0),
    {
        self.governed_source_files > 0
    }

    /// Whether the Module owns source files none of which was analysed.
    pub fn has_no_semantic_coverage(&self) -> (r: bool)
        ensures
            r == (self@.governed > 0 && self@.analysed == 0),
    {
        self.has_governed_subject() && self.analysed_source_files == 0
    }

    /// Copies this coverage.
    pub fn duplicate(&self) -> (r: Self)
        ensures
            r@ == self@,
    {
        SemanticSourceCoverage {
            governed_source_files: self.governed_source_files,
            analysed_source_files: self.analysed_source_files,
            ratio: match &self.ratio {
                Some(t) => Some(copy_text(t.as_str())),
                None => None,
            },
        }
    }
}

/// Abstract value of one effect observation.
pub struct ObservationModel {
    pub module: Seq<char>,
    pub effect: Seq<char>,
    pub capability: Option<Seq<char>>,
    pub evidence_kind: EffectEvidenceKind,
    pub entry_symbol: Seq<char>,
    pub source_symbol: Seq<char>,
    pub operation: Seq<char>,
    pub authority: Seq<char>,
    pub path: Seq<char>,
    pub line: u32,
    pub column: u32,
    pub call_chain: Seq<Seq<char>>,
    pub policy_target_kind: Option<PolicyTargetKind>,
    pub policy_target: Option<Seq<char>>,
    pub policy_disposition: Option<PolicyDisposition>,
}

/// One exact direct or transitive effect attributed to a declared Module
/// symbol; effects and capabilities are named by their stable identities.
#[derive(Debug)]
pub struct ModuleEffectObservation {
    module: String,
    effect: String,
    capability: Option<String>,
    evidence_kind: EffectEvidenceKind,
    entry_symbol: String,
    source_symbol: String,
    operation: String,
    authority: String,
    path: String,
    line: u32,
    column: u32,
    call_chain: Vec<String>,
    policy_target_kind: Option<PolicyTargetKind>,
    policy_target: Option<String>,
    policy_disposition: Option<PolicyDisposition>,
}

impl View for ModuleEffectObservation {
    type V = ObservationModel;

    closed spec fn view(&self) -> ObservationModel {
        ObservationModel {
            module: self.module@,
            effect: self.effect@,
            capability: optional_view(self.capability),
            evidence_kind: self.evidence_kind,
            entry_symbol: self.entry_symbol@,
            source_symbol: self.source_symbol@,
            operation: self.operation@,
            authority: self.authority@,
            path: self.path@,
            line: self.line,
            column: self.column,
            call_chain: texts(self.call_chain@),
            policy_target_kind: self.policy_target_kind,
            policy_target: optional_view(self.policy_target),
            policy_disposition: self.policy_disposition,
        }
    }
}

fn copy_optional(o: &Option<String>) -> (r: Option<String>)
    ensures
        optional_view(r) == optional_view(*o),
{
    match o {
        Some(t) => Some(copy_text(t.as_str())),
        None => None,
    }
}

impl ModuleEffectObservation {
    /// Returns the stable effect identity.
    pub fn effect(&self) -> (r: &str)
        ensures
            r@ == self@.effect,
    {
        self.effect.as_str()
    }

    /// Returns the stable identity of the derived capability consequence, when one exists.
    pub fn capability(&self) -> (r: Option<&str>)
        ensures
            match r {
                Some(t) => self@.capability == Some(t@),
                None => self@.capability is None,
            },
    {
        match &self.capability {
            Some(t) => Some(t.as_str()),
            None => None,
        }
    }

    /// Returns the semantic operation that caused the effect.
    pub fn operation(&self) -> (r: &str)
        ensures
            r@ == self@.operation,
    {
        self.operation.as_str()
    }

    /// Returns the proven call path from Module entry symbol to direct origin.
    pub fn call_chain(&self) -> (r: &[String])
        ensures
            texts(r@) == self@.call_chain,
    {
        self.call_chain.as_slice()
    }

    /// Returns whether the evidence is direct or transitively propagated.
    pub fn evidence_kind(&self) -> (r: EffectEvidenceKind)
        ensures
            r == self@.evidence_kind,
    {
        self.evidence_kind
    }

    /// Returns the canonical repository-relative evidence path.
    pub fn path(&self) -> (r: &str)
        ensures
            r@ == self@.path,
    {
        self.path.as_str()
    }

    /// Returns the one-based source line carried as diagnostic evidence.
    pub fn line(&self) -> (r: u32)
        ensures
            r == self@.line,
    {
        self.line
    }

    /// Returns the one-based source column carried as diagnostic evidence.
    pub fn column(&self) -> (r: u32)
        ensures
            r == self@.column,
    {
        self.column
    }

    /// Returns the analyzer/classifier authority supporting the effect.
    pub fn authority(&self) -> (r: &str)
        ensures
            r@ == self@.authority,
    {
        self.authority.as_str()
    }

    /// Returns the effective authored disposition, when this observation is governed.
    pub fn policy_disposition(&self) -> (r: Option<PolicyDisposition>)
        ensures
            r == self@.policy_disposition,
    {
        self.policy_disposition
    }

    /// Returns the stable identity of the Module that owns the entry symbol.
    pub fn module(&self) -> (r: &str)
        ensures
            r@ == self@.module,
    {
        self.module.as_str()
    }

    /// Returns the entry symbol whose behavior exhibits the effect.
    pub fn entry_symbol(&self) -> (r: &str)
        ensures
            r@ == self@.entry_symbol,
    {
        self.entry_symbol.as_str()
    }

    /// Returns the symbol at the direct origin of the effect.
    pub fn source_symbol(&self) -> (r: &str)
        ensures
            r@ == self@.source_symbol,
    {
        self.source_symbol.as_str()
    }

    /// Returns the governing policy namespace, when this observation is governed.
    pub fn policy_target_kind(&self) -> (r: Option<PolicyTargetKind>)
        ensures
            r == self@.policy_target_kind,
    {
        self.policy_target_kind
    }

    /// Returns the governing policy target, when this observation is governed.
    pub fn policy_target(&self) -> (r: Option<&str>)
        ensures
            match r {
                Some(t) => self@.policy_target == Some(t@),
                None => self@.policy_target is None,
            },
    {
        match &self.policy_target {
            Some(t) => Some(t.as_str()),
            None => None,
        }
    }

    /// Copies this observation.
    pub fn duplicate(&self) -> (r: Self)
        ensures
            r@ == self@,
    {
        ModuleEffectObservation {
            module: copy_text(self.module.as_str()),
            effect: copy_text(self.effect.as_str()),
            capability: copy_optional(&self.capability),
            evidence_kind: self.evidence_kind,
            entry_symbol: copy_text(self.entry_symbol.as_str()),
            source_symbol: copy_text(self.source_symbol.as_str()),
            operation: copy_text(self.operation.as_str()),
            authority: copy_text(self.authority.as_str()),
            path: copy_text(self.path.as_str()),
            line: self.line,
            column: self.column,
            call_chain: copy_texts(self.call_chain.as_slice()),
            policy_target_kind: self.policy_target_kind,
            policy_target: copy_optional(&self.policy_target),
            policy_disposition: self.policy_disposition,
        }
    }
}

/// The rank of an evidence kind in canonical order.
pub open spec fn evidence_rank(k: EffectEvidenceKind) -> nat {
    match k {
        EffectEvidenceKind::Direct => 0,
        EffectEvidenceKind::Transitive => 1,
    }
}

/// The rank of an optional target kind in canonical order (absent first).
pub open spec fn target_kind_rank(k: Option<PolicyTargetKind>) -> nat {
    match k {
        None => 0,
        Some(PolicyTargetKind::Capability) => 1,
        Some(PolicyTargetKind::Effect) => 2,
    }
}

/// The rank of an optional disposition in canonical order (absent first).
pub open spec fn disposition_rank(d: Option<PolicyDisposition>) -> nat {
    match d {
        None => 0,
        Some(PolicyDisposition::Allow) => 1,
        Some(PolicyDisposition::Deny) => 2,
    }
}

/// The order fields of an observation, in declaration order.
pub open spec fn observation_groups(o: ObservationModel) -> Seq<Seq<Seq<char>>> {
    seq![
        single(o.module),
        single(o.effect),
        single(optional_field(o.capability)),
        single(rank_field(evidence_rank(o.evidence_kind))),
        single(o.entry_symbol),
        single(o.source_symbol),
        single(o.operation),
        single(o.authority),
        single(o.path),
        single(number_field(o.line)),
        single(number_field(o.column)),
        o.call_chain,
        single(rank_field(target_kind_rank(o.policy_target_kind))),
        single(optional_field(o.policy_target)),
        single(rank_field(disposition_rank(o.policy_disposition))),
    ]
}

fn rank_group(r: u8) -> (g: Vec<Vec<char>>)
    ensures
        g@.map_values(|x: Vec<char>| x@) == single(rank_field(r as nat)),
{
    let mut g: Vec<Vec<char>> = Vec::new();
    g.push(rank_field_exec(r));
    assert(g@.map_values(|x: Vec<char>| x@) =~= single(rank_field(r as nat)));
    g
}

fn optional_group(o: &Option<String>) -> (g: Vec<Vec<char>>)
    ensures
        g@.map_values(|x: Vec<char>| x@) == single(optional_field(optional_view(*o))),
{
    let mut g: Vec<Vec<char>> = Vec::new();
    g.push(optional_field_exec(o));
    assert(g@.map_values(|x: Vec<char>| x@) =~= single(optional_field(optional_view(*o))));
    g
}

fn number_group(n: u32) -> (g: Vec<Vec<char>>)
    ensures
        g@.map_values(|x: Vec<char>| x@) == single(number_field(n)),
{
    let mut g: Vec<Vec<char>> = Vec::new();
    g.push(number_field_exec(n));
    assert(g@.map_values(|x: Vec<char>| x@) =~= single(number_field(n)));
    g
}

fn observation_groups_exec(o: &ModuleEffectObservation) -> (g: Vec<Vec<Vec<char>>>)
    ensures
        group_views(g@) == observation_groups(o@),
{
    let mut g: Vec<Vec<Vec<char>>> = Vec::new();
    g.push(single_exec(o.module.as_str()));
    g.push(single_exec(o.effect.as_str()));
    g.push(optional_group(&o.capability));
    g.push(rank_group(match o.evidence_kind {
        EffectEvidenceKind::Direct => 0,
        EffectEvidenceKind::Transitive => 1,
    }));
    g.push(single_exec(o.entry_symbol.as_str()));
    g.push(single_exec(o.source_symbol.as_str()));
    g.push(single_exec(o.operation.as_str()));
    g.push(single_exec(o.authority.as_str()));
    g.push(single_exec(o.path.as_str()));
    g.push(number_group(o.line));
    g.push(number_group(o.column));
    g.push(texts_exec(o.call_chain.as_slice()));
    g.push(rank_group(match o.policy_target_kind {
        None => 0,
        Some(PolicyTargetKind::Capability) => 1,
        Some(PolicyTargetKind::Effect) => 2,
    }));
    g.push(optional_group(&o.policy_target));
    g.push(rank_group(match o.policy_disposition {
        None => 0,
        Some(PolicyDisposition::Allow) => 1,
        Some(PolicyDisposition::Deny) => 2,
    }));
    assert(group_views(g@) =~= observation_groups(o@));
    g
}

impl CanonicalOrder for ModuleEffectObservation {
    open spec fn ordered(a: ObservationModel, b: ObservationModel) -> bool {
        groups_le(observation_groups(a), observation_groups(b))
    }

    proof fn lemma_ordered_reflexive(a: ObservationModel) {
        lemma_groups_le_reflexive(observation_groups(a));
    }

    proof fn lemma_ordered_transitive(a: ObservationModel, b: ObservationModel, c: ObservationModel) {
        lemma_groups_le_transitive(observation_groups(a), observation_groups(b), observation_groups(c));
    }

    proof fn lemma_ordered_total(a: ObservationModel, b: ObservationModel) {
        lemma_groups_le_total(observation_groups(a), observation_groups(b));
    }

    fn precedes(&self, other: &Self) -> (r: bool) {
        let a = observation_groups_exec(self);
        let b = observation_groups_exec(other);
        groups_le_exec(&a, &b)
    }
}

proof fn lemma_number_field_injective(a: u32, b: u32)
    requires
        number_field(a) == number_field(b),
    ensures
        a == b,
{
    crate::text::lemma_seq_le_reflexive(number_field(a));
    lemma_number_field_order(a, b);
    lemma_number_field_order(b, a);
}

impl TotalOrder for ModuleEffectObservation {
    proof fn lemma_ordered_antisymmetric(a: ObservationModel, b: ObservationModel) {
        let ga = observation_groups(a);
        let gb = observation_groups(b);
        lemma_groups_le_antisymmetric(ga, gb);
        assert(ga[0][0] == a.module && gb[0][0] == b.module);
        assert(ga[1][0] == a.effect && gb[1][0] == b.effect);
        assert(ga[2][0] == optional_field(a.capability) && gb[2][0] == optional_field(b.capability));
        crate::affected::lemma_optional_field_injective(a.capability, b.capability);
        assert(rank_field(evidence_rank(a.evidence_kind)).len() == evidence_rank(a.evidence_kind));
        assert(ga[3][0] == rank_field(evidence_rank(a.evidence_kind)));
        assert(gb[3][0] == rank_field(evidence_rank(b.evidence_kind)));
        assert(rank_field(evidence_rank(b.evidence_kind)).len() == evidence_rank(b.evidence_kind));
        assert(ga[4][0] == a.entry_symbol && gb[4][0] == b.entry_symbol);
        assert(ga[5][0] == a.source_symbol && gb[5][0] == b.source_symbol);
        assert(ga[6][0] == a.operation && gb[6][0] == b.operation);
        assert(ga[7][0] == a.authority && gb[7][0] == b.authority);
        assert(ga[8][0] == a.path && gb[8][0] == b.path);
        assert(ga[9][0] == number_field(a.line) && gb[9][0] == number_field(b.line));
        lemma_number_field_injective(a.line, b.line);
        assert(ga[10][0] == number_field(a.column) && gb[10][0] == number_field(b.column));
        lemma_number_field_injective(a.column, b.column);
        assert(ga[11] == a.call_chain && gb[11] == b.call_chain);
        assert(ga[12][0] == rank_field(target_kind_rank(a.policy_target_kind)));
        assert(gb[12][0] == rank_field(target_kind_rank(b.policy_target_kind)));
        assert(rank_field(target_kind_rank(a.policy_target_kind)).len() == target_kind_rank(a.policy_target_kind));
        assert(rank_field(target_kind_rank(b.policy_target_kind)).len() == target_kind_rank(b.policy_target_kind));
        assert(ga[13][0] == optional_field(a.policy_target) && gb[13][0] == optional_field(b.policy_target));
        crate::affected::lemma_optional_field_injective(a.policy_target, b.policy_target);
        assert(ga[14][0] == rank_field(disposition_rank(a.policy_disposition)));
        assert(gb[14][0] == rank_field(disposition_rank(b.policy_disposition)));
        assert(rank_field(disposition_rank(a.policy_disposition)).len() == disposition_rank(a.policy_disposition));
        assert(rank_field(disposition_rank(b.policy_disposition)).len() == disposition_rank(b.policy_disposition));
    }
}

/// Abstract value of one policy conclusion.
pub struct ConclusionModel {
    pub target_kind: PolicyTargetKind,
    pub target: Seq<char>,
    pub disposition: PolicyDisposition,
    pub authorization: Option<AuthorizationState>,
    pub conformance: Option<SemanticConformanceState>,
    pub blocking_eligibility: Option<BlockingEligibility>,
    pub matching_observations: nat,
    pub coverage: CoverageModel,
    pub coverage_reasons: Seq<Seq<char>>,
}

/// One authored policy entry and its authorization or conformance result.
#[derive(Debug)]
pub struct SemanticPolicyConclusion {
    target_kind: PolicyTargetKind,
    target: String,
    disposition: PolicyDisposition,
    authorization: Option<AuthorizationState>,
    conformance: Option<SemanticConformanceState>,
    blocking_eligibility: Option<BlockingEligibility>,
    matching_observations: usize,
    coverage: SemanticSourceCoverage,
    coverage_reasons: Vec<String>,
}

impl View for SemanticPolicyConclusion {
    type V = ConclusionModel;

    closed spec fn view(&self) -> ConclusionModel {
        ConclusionModel {
            target_kind: self.target_kind,
            target: self.target@,
            disposition: self.disposition,
            authorization: self.authorization,
            conformance: self.conformance,
            blocking_eligibility: self.blocking_eligibility,
            matching_observations: self.matching_observations as nat,
            coverage: self.coverage@,
            coverage_reasons: texts(self.coverage_reasons@),
        }
    }
}

impl SemanticPolicyConclusion {
    /// Returns the policy target namespace.
    pub fn target_kind(&self) -> (r: PolicyTargetKind)
        ensures
            r == self@.target_kind,
    {
        self.target_kind
    }

    /// Returns the stable effect or capability identity.
    pub fn target(&self) -> (r: &str)
        ensures
            r@ == self@.target,
    {
        self.target.as_str()
    }

    /// Returns the authored allow/deny disposition.
    pub fn disposition(&self) -> (r: PolicyDisposition)
        ensures
            r == self@.disposition,
    {
        self.disposition
    }

    /// Returns authored authorization for an ALLOW entry.
    pub fn authorization(&self) -> (r: Option<AuthorizationState>)
        ensures
            r == self@.authorization,
    {
        self.authorization
    }

    /// Returns raw conformance only for an evaluative DENY claim.
    pub fn conformance(&self) -> (r: Option<SemanticConformanceState>)
        ensures
            r == self@.conformance,
    {
        self.conformance
    }

    /// Returns enforcement eligibility only for an evaluative DENY claim.
    pub fn blocking_eligibility(&self) -> (r: Option<BlockingEligibility>)
        ensures
            r == self@.blocking_eligibility,
    {
        self.blocking_eligibility
    }

    /// Returns supported observations that exercise this policy entry.
    pub fn matching_observation_count(&self) -> (r: usize)
        ensures
            r == self@.matching_observations,
    {
        self.matching_observations
    }

    /// Returns exact source-level semantic coverage for the owning Module.
    pub fn coverage(&self) -> (r: &SemanticSourceCoverage)
        ensures
            r@ == self@.coverage,
    {
        &self.coverage
    }

    /// Returns claim-relative reasons that prevented evaluation.
    pub fn coverage_reasons(&self) -> (r: &[String])
        ensures
            texts(r@) == self@.coverage_reasons,
    {
        self.coverage_reasons.as_slice()
    }
}

/// Abstract value of one Module-level conclusion.
pub struct ModuleConformanceModel {
    pub module: Seq<char>,
    pub contract_path: Seq<char>,
    pub policy_state: Seq<char>,
    pub state: SemanticConformanceState,
    pub conclusions: Seq<ConclusionModel>,
    pub observations: Seq<ObservationModel>,
    pub ungoverned_observations: nat,
    pub coverage: CoverageModel,
    pub coverage_reasons: Seq<Seq<char>>,
}

/// One Module-level semantic-policy conclusion.
#[derive(Debug)]
pub struct ModuleSemanticConformance {
    module: String,
    contract_path: String,
    policy_state: String,
    state: SemanticConformanceState,
    conclusions: Vec<SemanticPolicyConclusion>,
    observations: Vec<ModuleEffectObservation>,
    ungoverned_observations: usize,
    coverage: SemanticSourceCoverage,
    coverage_reasons: Vec<String>,
}

impl View for ModuleSemanticConformance {
    type V = ModuleConformanceModel;

    closed spec fn view(&self) -> ModuleConformanceModel {
        ModuleConformanceModel {
            module: self.module@,
            contract_path: self.contract_path@,
            policy_state: self.policy_state@,
            state: self.state,
            conclusions: crate::order::views(self.conclusions@),
            observations: crate::order::views(self.observations@),
            ungoverned_observations: self.ungoverned_observations as nat,
            coverage: self.coverage@,
            coverage_reasons: texts(self.coverage_reasons@),
        }
    }
}

impl ModuleSemanticConformance {
    /// Returns the stable authored Module identity.
    pub fn module(&self) -> (r: &str)
        ensures
            r@ == self@.module,
    {
        self.module.as_str()
    }

    /// Returns the aggregate raw conformance truth.
    pub fn state(&self) -> (r: SemanticConformanceState)
        ensures
            r == self@.state,
    {
        self.state
    }

    /// Returns evaluated authored claims.
    pub fn conclusions(&self) -> (r: &[SemanticPolicyConclusion])
        ensures
            crate::order::views(r@) == self@.conclusions,
    {
        self.conclusions.as_slice()
    }

    /// Returns supported effect evidence attributed to the Module.
    pub fn observations(&self) -> (r: &[ModuleEffectObservation])
        ensures
            crate::order::views(r@) == self@.observations,
    {
        self.observations.as_slice()
    }

    /// Returns `DECLARED` or `UNDECLARED` authored policy state.
    pub fn policy_state(&self) -> (r: &str)
        ensures
            r@ == self@.policy_state,
    {
        self.policy_state.as_str()
    }

    /// Returns the canonical Module Contract location.
    pub fn contract_path(&self) -> (r: &str)
        ensures
            r@ == self@.contract_path,
    {
        self.contract_path.as_str()
    }

    /// Returns exact source-level semantic coverage for this Module.
    pub fn coverage(&self) -> (r: &SemanticSourceCoverage)
        ensures
            r@ == self@.coverage,
    {
        &self.coverage
    }

    /// Returns Module-level semantic coverage limitations.
    pub fn coverage_reasons(&self) -> (r: &[String])
        ensures
            texts(r@) == self@.coverage_reasons,
    {
        self.coverage_reasons.as_slice()
    }

    /// Returns supported observations that no policy entry governs.
    pub fn ungoverned_observations(&self) -> (r: usize)
        ensures
            r == self@.ungoverned_observations,
    {
        self.ungoverned_observations
    }
}

/// Abstract value of one dependency comparison.
pub struct ConvergenceModel {
    pub source_module: Seq<char>,
    pub target_module: Option<Seq<char>>,
    pub external_target: Option<Seq<char>>,
    pub state: DependencyConvergenceState,
    pub declared_capabilities: Seq<Seq<char>>,
    pub declared_path: Seq<Seq<char>>,
}

/// One dependency comparison projected from Architecture Realization authority.
#[derive(Debug)]
pub struct DependencyConvergence {
    source_module: String,
    target_module: Option<String>,
    external_target: Option<String>,
    state: DependencyConvergenceState,
    declared_capabilities: Vec<String>,
    declared_path: Vec<String>,
}

impl View for DependencyConvergence {
    type V = ConvergenceModel;

    closed spec fn view(&self) -> ConvergenceModel {
        ConvergenceModel {
            source_module: self.source_module@,
            target_module: optional_view(self.target_module),
            external_target: optional_view(self.external_target),
            state: self.state,
            declared_capabilities: texts(self.declared_capabilities@),
            declared_path: texts(self.declared_path@),
        }
    }
}

impl DependencyConvergence {
    /// Returns the dependent Module.
    pub fn source_module(&self) -> (r: &str)
        ensures
            r@ == self@.source_module,
    {
        self.source_module.as_str()
    }

    /// Returns the reflexion state of the comparison.
    pub fn state(&self) -> (r: DependencyConvergenceState)
        ensures
            r == self@.state,
    {
        self.state
    }
}

/// Abstract value of the aggregate counts.
pub struct SummaryModel {
    pub declared_modules: nat,
    pub modules_with_policy: nat,
    pub modules_passed: nat,
    pub modules_failed: nat,
    pub modules_unknown: nat,
    pub modules_not_applicable: nat,
    pub authored_authorizations: nat,
    pub authorizations_with_observed_usage: nat,
    pub authorization_observations: nat,
    pub evaluative_deny_claims: nat,
    pub deny_claims_passed: nat,
    pub deny_claims_failed: nat,
    pub deny_claims_unknown: nat,
    pub deny_claims_not_applicable: nat,
    pub supported_observations: nat,
    pub governed_observations: nat,
    pub ungoverned_observations: nat,
    pub analysis_only_observations: nat,
    pub forbidden_capability_findings: nat,
    pub forbidden_effect_findings: nat,
    pub not_evaluable_findings: nat,
    pub no_semantic_coverage_claims: nat,
}

/// Aggregate semantic-conformance counts.
#[derive(Clone, Copy, Debug)]
pub struct SemanticConformanceSummary {
    declared_modules: usize,
    modules_with_policy: usize,
    modules_passed: usize,
    modules_failed: usize,
    modules_unknown: usize,
    modules_not_applicable: usize,
    authored_authorizations: usize,
    authorizations_with_observed_usage: usize,
    authorization_observations: usize,
    evaluative_deny_claims: usize,
    deny_claims_passed: usize,
    deny_claims_failed: usize,
    deny_claims_unknown: usize,
    deny_claims_not_applicable: usize,
    supported_observations: usize,
    governed_observations: usize,
    ungoverned_observations: usize,
    analysis_only_observations: usize,
    forbidden_capability_findings: usize,
    forbidden_effect_findings: usize,
    not_evaluable_findings: usize,
    no_semantic_coverage_claims: usize,
}

impl View for SemanticConformanceSummary {
    type V = SummaryModel;

    closed spec fn view(&self) -> SummaryModel {
        SummaryModel {
            declared_modules: self.declared_modules as nat,
            modules_with_policy: self.modules_with_policy as nat,
            modules_passed: self.modules_passed as nat,
            modules_failed: self.modules_failed as nat,
            modules_unknown: self.modules_unknown as nat,
            modules_not_applicable: self.modules_not_applicable as nat,
            authored_authorizations: self.authored_authorizations as nat,
            authorizations_with_observed_usage: self.authorizations_with_observed_usage as nat,
            authorization_observations: self.authorization_observations as nat,
            evaluative_deny_claims: self.evaluative_deny_claims as nat,
            deny_claims_passed: self.deny_claims_passed as nat,
            deny_claims_failed: self.deny_claims_failed as nat,
            deny_claims_unknown: self.deny_claims_unknown as nat,
            deny_claims_not_applicable: self.deny_claims_not_applicable as nat,
            supported_observations: self.supported_observations as nat,
            governed_observations: self.governed_observations as nat,
            ungoverned_observations: self.ungoverned_observations as nat,
            analysis_only_observations: self.analysis_only_observations as nat,
            forbidden_capability_findings: self.forbidden_capability_findings as nat,
            forbidden_effect_findings: self.forbidden_effect_findings as nat,
            not_evaluable_findings: self.not_evaluable_findings as nat,
            no_semantic_coverage_claims: self.no_semantic_coverage_claims as nat,
        }
    }
}

impl SemanticConformanceSummary {
    /// Returns the number of Modules with authored semantic policy.
    pub fn modules_with_policy(self) -> (r: usize)
        ensures
            r == self@.modules_with_policy,
    {
        self.modules_with_policy
    }

    /// Returns explicit ALLOW authorizations, none of which are conformance claims.
    pub fn authored_authorizations(self) -> (r: usize)
        ensures
            r == self@.authored_authorizations,
    {
        self.authored_authorizations
    }

    /// Returns authorizations exercised by at least one supported observation.
    pub fn authorizations_with_observed_usage(self) -> (r: usize)
        ensures
            r == self@.authorizations_with_observed_usage,
    {
        self.authorizations_with_observed_usage
    }

    /// Returns supported observations matched to authored authorizations.
    pub fn authorization_observations(self) -> (r: usize)
        ensures
            r == self@.authorization_observations,
    {
        self.authorization_observations
    }

    /// Returns evaluative DENY claims independently of authorizations.
    pub fn evaluative_deny_claims(self) -> (r: usize)
        ensures
            r == self@.evaluative_deny_claims,
    {
        self.evaluative_deny_claims
    }

    /// Returns favorable evaluative DENY conclusions.
    pub fn deny_claims_passed(self) -> (r: usize)
        ensures
            r == self@.deny_claims_passed,
    {
        self.deny_claims_passed
    }

    /// Returns proved evaluative DENY contradictions.
    pub fn deny_claims_failed(self) -> (r: usize)
        ensures
            r == self@.deny_claims_failed,
    {
        self.deny_claims_failed
    }

    /// Returns evaluative DENY claims that current authority cannot decide.
    pub fn deny_claims_unknown(self) -> (r: usize)
        ensures
            r == self@.deny_claims_unknown,
    {
        self.deny_claims_unknown
    }

    /// Returns evaluative DENY claims without a governed implementation subject.
    pub fn deny_claims_not_applicable(self) -> (r: usize)
        ensures
            r == self@.deny_claims_not_applicable,
    {
        self.deny_claims_not_applicable
    }

    /// Returns supported semantic-policy contradictions (saturating at the
    /// largest count).
    pub fn blocking_findings(self) -> (r: usize)
        ensures
            r == sat((self@.forbidden_capability_findings + self@.forbidden_effect_findings) as int),
    {
        self.forbidden_capability_findings.saturating_add(self.forbidden_effect_findings)
    }

    /// Returns claim-relative coverage failures.
    pub fn not_evaluable_findings(self) -> (r: usize)
        ensures
            r == self@.not_evaluable_findings,
    {
        self.not_evaluable_findings
    }

    /// Returns authored claims made unevaluable by zero symbol-bearing source.
    pub fn no_semantic_coverage_claims(self) -> (r: usize)
        ensures
            r == self@.no_semantic_coverage_claims,
    {
        self.no_semantic_coverage_claims
    }

    /// Returns effect evidence owned only by mechanical analysis territories.
    pub fn analysis_only_observations(self) -> (r: usize)
        ensures
            r == self@.analysis_only_observations,
    {
        self.analysis_only_observations
    }

    /// Returns supported observations controlled by explicit policy entries.
    pub fn governed_observations(self) -> (r: usize)
        ensures
            r == self@.governed_observations,
    {
        self.governed_observations
    }
}

/// The sum of two counts, saturated at the largest machine count.
pub open spec fn sat_add(a: nat, b: nat) -> nat {
    sat((a + b) as int)
}

/// A count, saturated at the largest machine count.
pub open spec fn sat(n: int) -> nat {
    if n > usize::MAX {
        usize::MAX as nat
    } else if n < 0 {
        0
    } else {
        n as nat
    }
}

/// Which authority owns an observed source artifact.
#[derive(Clone, Copy, Debug, PartialEq, Eq, Structural)]
pub enum SourceOwnershipAuthority {
    /// An authored Module declares the artifact.
    DeclaredModule,
    /// A mechanical analysis territory, not an authored Module, holds the artifact.
    AnalysisTerritory,
}

/// Abstract value of one source ownership.
pub struct OwnershipModel {
    pub owner: Seq<char>,
    pub source_path: Seq<char>,
    pub authority: SourceOwnershipAuthority,
}

/// The resolved owner of one observed source artifact.
#[derive(Debug)]
pub struct SourceOwnership {
    owner: String,
    source_path: String,
    authority: SourceOwnershipAuthority,
}

impl View for SourceOwnership {
    type V = OwnershipModel;

    closed spec fn view(&self) -> OwnershipModel {
        OwnershipModel { owner: self.owner@, source_path: self.source_path@, authority: self.authority }
    }
}

impl SourceOwnership {
    /// Records the owner of one source artifact.
    pub fn new(owner: String, source_path: String, authority: SourceOwnershipAuthority) -> (r: Self)
        ensures
            r@ == (OwnershipModel { owner: owner@, source_path: source_path@, authority }),
    {
        SourceOwnership { owner, source_path, authority }
    }
}

/// Abstract value of one semantic symbol.
pub struct SymbolModel {
    pub id: Seq<char>,
    pub fortress_module: Seq<char>,
    pub source_path: Seq<char>,
}

/// One symbol of the program semantic model, with its owning Module and source.
#[derive(Debug)]
pub struct SemanticSymbol {
    id: String,
    fortress_module: String,
    source_path: String,
}

impl View for SemanticSymbol {
    type V = SymbolModel;

    closed spec fn view(&self) -> SymbolModel {
        SymbolModel { id: self.id@, fortress_module: self.fortress_module@, source_path: self.source_path@ }
    }
}

impl SemanticSymbol {
    /// Records one semantic symbol.
    pub fn new(id: String, fortress_module: String, source_path: String) -> (r: Self)
        ensures
            r@ == (SymbolModel { id: id@, fortress_module: fortress_module@, source_path: source_path@ }),
    {
        SemanticSymbol { id, fortress_module, source_path }
    }
}

/// Abstract value of one piece of effect evidence.
pub struct EvidenceModel {
    pub effect: Seq<char>,
    pub capability: Option<Seq<char>>,
    pub kind: EffectEvidenceKind,
    pub entry_symbol: Seq<char>,
    pub source_symbol: Seq<char>,
    pub operation: Seq<char>,
    pub classification_authority: Seq<char>,
    pub path: Seq<char>,
    pub line: u32,
    pub column: u32,
    pub call_chain: Seq<Seq<char>>,
}

/// One piece of supported effect evidence of a symbol.
#[derive(Debug)]
pub struct EffectEvidence {
    effect: String,
    capability: Option<String>,
    kind: EffectEvidenceKind,
    entry_symbol: String,
    source_symbol: String,
    operation: String,
    classification_authority: String,
    path: String,
    line: u32,
    column: u32,
    call_chain: Vec<String>,
}

impl View for EffectEvidence {
    type V = EvidenceModel;

    closed spec fn view(&self) -> EvidenceModel {
        EvidenceModel {
            effect: self.effect@,
            capability: optional_view(self.capability),
            kind: self.kind,
            entry_symbol: self.entry_symbol@,
            source_symbol: self.source_symbol@,
            operation: self.operation@,
            classification_authority: self.classification_authority@,
            path: self.path@,
            line: self.line,
            column: self.column,
            call_chain: texts(self.call_chain@),
        }
    }
}

/// The site of one piece of evidence: source path, line and column.
pub struct EvidenceSite {
    /// Repository-relative source path.
    pub path: String,
    /// One-based line.
    pub line: u32,
    /// One-based column.
    pub column: u32,
}

impl EffectEvidence {
    /// Records one piece of effect evidence; `effect` and `capability` are
    /// stable identities.
    pub fn new(
        effect: String,
        capability: Option<String>,
        kind: EffectEvidenceKind,
        entry_symbol: String,
        source_symbol: String,
        operation: String,
        classification_authority: String,
        site: EvidenceSite,
        call_chain: Vec<String>,
    ) -> (r: Self)
        ensures
            r@ == (EvidenceModel {
                effect: effect@,
                capability: optional_view(capability),
                kind,
                entry_symbol: entry_symbol@,
                source_symbol: source_symbol@,
                operation: operation@,
                classification_authority: classification_authority@,
                path: site.path@,
                line: site.line,
                column: site.column,
                call_chain: texts(call_chain@),
            }),
    {
        EffectEvidence {
            effect,
            capability,
            kind,
            entry_symbol,
            source_symbol,
            operation,
            classification_authority,
            path: site.path,
            line: site.line,
            column: site.column,
            call_chain,
        }
    }
}

/// Abstract value of one symbol's effect summary.
pub struct EffectSummaryModel {
    pub symbol: Seq<char>,
    pub uncertainty: Seq<Seq<char>>,
    pub effect_evidence: Seq<EvidenceModel>,
}

/// The state/effect summary of one symbol: its uncertainty reasons and its
/// supported effect evidence.
#[derive(Debug)]
pub struct EffectSummary {
    symbol: String,
    uncertainty: Vec<String>,
    effect_evidence: Vec<EffectEvidence>,
}

impl View for EffectSummary {
    type V = EffectSummaryModel;

    closed spec fn view(&self) -> EffectSummaryModel {
        EffectSummaryModel {
            symbol: self.symbol@,
            uncertainty: texts(self.uncertainty@),
            effect_evidence: crate::order::views(self.effect_evidence@),
        }
    }
}

impl EffectSummary {
    /// Records one symbol's summary.
    pub fn new(symbol: String, uncertainty: Vec<String>, effect_evidence: Vec<EffectEvidence>) -> (r: Self)
        ensures
            r@ == (EffectSummaryModel {
                symbol: symbol@,
                uncertainty: texts(uncertainty@),
                effect_evidence: crate::order::views(effect_evidence@),
            }),
    {
        EffectSummary { symbol, uncertainty, effect_evidence }
    }
}

/// Abstract value of one allow/deny target list pair.
pub struct PolicySetModel {
    pub allow: Seq<Seq<char>>,
    pub deny: Seq<Seq<char>>,
}

/// Authored ALLOW and DENY targets of one policy namespace.
#[derive(Debug)]
pub struct SemanticPolicySet {
    allow: Vec<String>,
    deny: Vec<String>,
}

impl View for SemanticPolicySet {
    type V = PolicySetModel;

    closed spec fn view(&self) -> PolicySetModel {
        PolicySetModel { allow: texts(self.allow@), deny: texts(self.deny@) }
    }
}

impl SemanticPolicySet {
    /// Records authored targets.
    pub fn new(allow: Vec<String>, deny: Vec<String>) -> (r: Self)
        ensures
            r@ == (PolicySetModel { allow: texts(allow@), deny: texts(deny@) }),
    {
        SemanticPolicySet { allow, deny }
    }
}

/// Abstract value of one Module's semantic policy.
pub struct PolicyModel {
    pub capabilities: PolicySetModel,
    pub effects: PolicySetModel,
}

/// One Module's authored semantic policy over capabilities and effects.
#[derive(Debug)]
pub struct ModuleSemanticPolicy {
    capabilities: SemanticPolicySet,
    effects: SemanticPolicySet,
}

impl View for ModuleSemanticPolicy {
    type V = PolicyModel;

    closed spec fn view(&self) -> PolicyModel {
        PolicyModel { capabilities: self.capabilities@, effects: self.effects@ }
    }
}

impl ModuleSemanticPolicy {
    /// Records one policy.
    pub fn new(capabilities: SemanticPolicySet, effects: SemanticPolicySet) -> (r: Self)
        ensures
            r@ == (PolicyModel { capabilities: capabilities@, effects: effects@ }),
    {
        ModuleSemanticPolicy { capabilities, effects }
    }
}

/// Abstract value of one declared Module.
pub struct GovernedModel {
    pub id: Seq<char>,
    pub contract_path: Seq<char>,
    pub policy: Option<PolicyModel>,
}

/// One declared Module with its contract location and optional semantic policy.
#[derive(Debug)]
pub struct GovernedModule {
    id: String,
    contract_path: String,
    semantic_policy: Option<ModuleSemanticPolicy>,
}

/// The view of an optional policy.
pub open spec fn optional_policy(p: Option<ModuleSemanticPolicy>) -> Option<PolicyModel> {
    match p {
        Some(q) => Some(q@),
        None => None,
    }
}

impl View for GovernedModule {
    type V = GovernedModel;

    closed spec fn view(&self) -> GovernedModel {
        GovernedModel {
            id: self.id@,
            contract_path: self.contract_path@,
            policy: optional_policy(self.semantic_policy),
        }
    }
}

impl GovernedModule {
    /// Records one declared Module.
    pub fn new(id: String, contract_path: String, semantic_policy: Option<ModuleSemanticPolicy>) -> (r: Self)
        ensures
            r@ == (GovernedModel { id: id@, contract_path: contract_path@, policy: optional_policy(semantic_policy) }),
    {
        GovernedModule { id, contract_path, semantic_policy }
    }
}

/// Abstract value of one finding.
pub struct FindingModel {
    pub module: Seq<char>,
    pub discriminator: Seq<char>,
    pub message: Seq<char>,
    pub remediation: Seq<char>,
    pub path: Seq<char>,
    pub position: Option<(u32, u32)>,
    pub symbol: Option<Seq<char>>,
}

/// One finding of the semantic-conformance rule: the Module it concerns, a
/// stable discriminator, the explanation, and the location (a source site
/// with its entry symbol, or the Module Contract).
#[derive(Debug)]
pub struct SemanticFinding {
    module: String,
    discriminator: String,
    message: String,
    remediation: String,
    path: String,
    position: Option<(u32, u32)>,
    symbol: Option<String>,
}

impl View for SemanticFinding {
    type V = FindingModel;

    closed spec fn view(&self) -> FindingModel {
        FindingModel {
            module: self.module@,
            discriminator: self.discriminator@,
            message: self.message@,
            remediation: self.remediation@,
            path: self.path@,
            position: self.position,
            symbol: optional_view(self.symbol),
        }
    }
}

impl SemanticFinding {
    /// Returns the rule the finding belongs to.
    pub fn rule_id(&self) -> (r: &'static str)
        ensures
            r@ == ARCH_SEMANTIC_RULE_ID@,
    {
        ARCH_SEMANTIC_RULE_ID
    }

    /// Returns the Module the finding concerns.
    pub fn module(&self) -> (r: &str)
        ensures
            r@ == self@.module,
    {
        self.module.as_str()
    }

    /// Returns the stable discriminator of the finding.
    pub fn discriminator(&self) -> (r: &str)
        ensures
            r@ == self@.discriminator,
    {
        self.discriminator.as_str()
    }

    /// Returns the explanation.
    pub fn message(&self) -> (r: &str)
        ensures
            r@ == self@.message,
    {
        self.message.as_str()
    }

    /// Returns the remediation guidance.
    pub fn remediation(&self) -> (r: &str)
        ensures
            r@ == self@.remediation,
    {
        self.remediation.as_str()
    }

    /// Returns the located path.
    pub fn path(&self) -> (r: &str)
        ensures
            r@ == self@.path,
    {
        self.path.as_str()
    }

    /// Returns the one-based line and column, when the finding has a source site.
    pub fn position(&self) -> (r: Option<(u32, u32)>)
        ensures
            r == self@.position,
    {
        self.position
    }

    /// Returns the entry symbol, when the finding has a source site.
    pub fn symbol(&self) -> (r: Option<&str>)
        ensures
            match r {
                Some(t) => self@.symbol == Some(t@),
                None => self@.symbol is None,
            },
    {
        match &self.symbol {
            Some(t) => Some(t.as_str()),
            None => None,
        }
    }
}

/// The order field of an optional position (absent first, then by line and column).
pub open spec fn position_field(p: Option<(u32, u32)>) -> Seq<char> {
    match p {
        None => Seq::empty(),
        Some((l, c)) => seq!['\0'] + number_field(l) + number_field(c),
    }
}

/// The order fields of a finding.
pub open spec fn finding_groups(f: FindingModel) -> Seq<Seq<Seq<char>>> {
    seq![
        single(f.module),
        single(f.discriminator),
        single(f.path),
        single(position_field(f.position)),
        single(optional_field(f.symbol)),
        single(f.message),
        single(f.remediation),
    ]
}

fn position_group(p: Option<(u32, u32)>) -> (g: Vec<Vec<char>>)
    ensures
        g@.map_values(|x: Vec<char>| x@) == single(position_field(p)),
{
    let mut field: Vec<char> = Vec::new();
    match p {
        None => {},
        Some((l, c)) => {
            field.push('\0');
            let mut a = number_field_exec(l);
            let mut b = number_field_exec(c);
            proof {
                crate::order::lemma_number_field_len(l);
            }
            field.append(&mut a);
            field.append(&mut b);
        },
    }
    assert(field@ =~= position_field(p));
    let mut g: Vec<Vec<char>> = Vec::new();
    g.push(field);
    assert(g@.map_values(|x: Vec<char>| x@) =~= single(position_field(p)));
    g
}

fn finding_groups_exec(f: &SemanticFinding) -> (g: Vec<Vec<Vec<char>>>)
    ensures
        group_views(g@) == finding_groups(f@),
{
    let mut g: Vec<Vec<Vec<char>>> = Vec::new();
    g.push(single_exec(f.module.as_str()));
    g.push(single_exec(f.discriminator.as_str()));
    g.push(single_exec(f.path.as_str()));
    g.push(position_group(f.position));
    g.push(optional_group(&f.symbol));
    g.push(single_exec(f.message.as_str()));
    g.push(single_exec(f.remediation.as_str()));
    assert(group_views(g@) =~= finding_groups(f@));
    g
}

impl CanonicalOrder for SemanticFinding {
    open spec fn ordered(a: FindingModel, b: FindingModel) -> bool {
        groups_le(finding_groups(a), finding_groups(b))
    }

    proof fn lemma_ordered_reflexive(a: FindingModel) {
        lemma_groups_le_reflexive(finding_groups(a));
    }

    proof fn lemma_ordered_transitive(a: FindingModel, b: FindingModel, c: FindingModel) {
        lemma_groups_le_transitive(finding_groups(a), finding_groups(b), finding_groups(c));
    }

    proof fn lemma_ordered_total(a: FindingModel, b: FindingModel) {
        lemma_groups_le_total(finding_groups(a), finding_groups(b));
    }

    fn precedes(&self, other: &Self) -> (r: bool) {
        let a = finding_groups_exec(self);
        let b = finding_groups_exec(other);
        groups_le_exec(&a, &b)
    }
}

proof fn lemma_position_field_injective(a: Option<(u32, u32)>, b: Option<(u32, u32)>)
    requires
        position_field(a) == position_field(b),
    ensures
        a == b,
{
    match (a, b) {
        (Some((l1, c1)), Some((l2, c2))) => {
            let x = position_field(a);
            let y = position_field(b);
            crate::order::lemma_number_field_len(l1);
            crate::order::lemma_number_field_len(l2);
            crate::order::lemma_number_field_len(c1);
            crate::order::lemma_number_field_len(c2);
            assert(x.subrange(1, 5) =~= number_field(l1));
            assert(y.subrange(1, 5) =~= number_field(l2));
            assert(x.subrange(5, 9) =~= number_field(c1));
            assert(y.subrange(5, 9) =~= number_field(c2));
            lemma_number_field_injective(l1, l2);
            lemma_number_field_injective(c1, c2);
        },
        (None, Some(_)) => {
            assert(position_field(b).len() > 0);
        },
        (Some(_), None) => {
            assert(position_field(a).len() > 0);
        },
        (None, None) => {},
    }
}

impl TotalOrder for SemanticFinding {
    proof fn lemma_ordered_antisymmetric(a: FindingModel, b: FindingModel) {
        let ga = finding_groups(a);
        let gb = finding_groups(b);
        lemma_groups_le_antisymmetric(ga, gb);
        assert(ga[0][0] == a.module && gb[0][0] == b.module);
        assert(ga[1][0] == a.discriminator && gb[1][0] == b.discriminator);
        assert(ga[2][0] == a.path && gb[2][0] == b.path);
        assert(ga[3][0] == position_field(a.position) && gb[3][0] == position_field(b.position));
        lemma_position_field_injective(a.position, b.position);
        assert(ga[4][0] == optional_field(a.symbol) && gb[4][0] == optional_field(b.symbol));
        crate::affected::lemma_optional_field_injective(a.symbol, b.symbol);
        assert(ga[5][0] == a.message && gb[5][0] == b.message);
        assert(ga[6][0] == a.remediation && gb[6][0] == b.remediation);
    }
}

/// Abstract value of the derived model.
pub struct ConformanceModelView {
    pub schema: Seq<char>,
    pub schema_version: u16,
    pub semantic_version: Seq<char>,
    pub project_id: Option<Seq<char>>,
    pub standard_edition: Seq<char>,
    pub ccg_digest: Seq<char>,
    pub psm_digest: Seq<char>,
    pub state_effect_digest: Seq<char>,
    pub modules: Seq<ModuleConformanceModel>,
    pub dependency_convergence: Seq<ConvergenceModel>,
    pub summary: SummaryModel,
    pub unsupported_semantics: Seq<Seq<char>>,
}

/// Canonical snapshot-bound Module semantic-conformance projection.
#[derive(Debug)]
pub struct SemanticConformanceModel {
    schema: String,
    schema_version: u16,
    semantic_version: String,
    project_id: Option<String>,
    standard_edition: String,
    ccg_digest: String,
    psm_digest: String,
    state_effect_digest: String,
    modules: Vec<ModuleSemanticConformance>,
    dependency_convergence: Vec<DependencyConvergence>,
    summary: SemanticConformanceSummary,
    unsupported_semantics: Vec<String>,
}

impl View for SemanticConformanceModel {
    type V = ConformanceModelView;

    closed spec fn view(&self) -> ConformanceModelView {
        ConformanceModelView {
            schema: self.schema@,
            schema_version: self.schema_version,
            semantic_version: self.semantic_version@,
            project_id: optional_view(self.project_id),
            standard_edition: self.standard_edition@,
            ccg_digest: self.ccg_digest@,
            psm_digest: self.psm_digest@,
            state_effect_digest: self.state_effect_digest@,
            modules: crate::order::views(self.modules@),
            dependency_convergence: crate::order::views(self.dependency_convergence@),
            summary: self.summary@,
            unsupported_semantics: texts(self.unsupported_semantics@),
        }
    }
}

/// The first Module conclusion with the given identity, if any.
pub open spec fn module_index(modules: Seq<ModuleConformanceModel>, id: Seq<char>) -> Option<int> {
    if exists|i: int| 0 <= i < modules.len() && #[trigger] modules[i].module == id {
        Some(choose|i: int| 0 <= i < modules.len() && #[trigger] modules[i].module == id
            && forall|j: int| 0 <= j < i ==> modules[j].module != id)
    } else {
        None
    }
}

impl SemanticConformanceModel {
    /// Returns canonical Module conclusions.
    pub fn modules(&self) -> (r: &[ModuleSemanticConformance])
        ensures
            crate::order::views(r@) == self@.modules,
    {
        self.modules.as_slice()
    }

    /// Finds the first Module conclusion with the given stable identity.
    pub fn module(&self, id: &str) -> (r: Option<&ModuleSemanticConformance>)
        ensures
            match r {
                Some(m) => exists|i: int|
                    0 <= i < self@.modules.len() && self@.modules[i] == m@ && m@.module == id@
                        && forall|j: int| 0 <= j < i ==> self@.modules[j].module != id@,
                None => forall|i: int| 0 <= i < self@.modules.len() ==> self@.modules[i].module != id@,
            },
    {
        let ghost mv = crate::order::views(self.modules@);
        let mut i: usize = 0;
        while i < self.modules.len()
            invariant
                mv == crate::order::views(self.modules@),
                i <= self.modules@.len(),
                forall|j: int| 0 <= j < i ==> mv[j].module != id@,
            decreases self.modules.len() - i,
        {
            assert(mv[i as int] == self.modules@[i as int]@);
            if crate::text::text_eq(self.modules[i].module.as_str(), id) {
                return Some(&self.modules[i]);
            }
            i = i + 1;
        }
        None
    }

    /// Returns aggregate counts.
    pub fn summary(&self) -> (r: SemanticConformanceSummary)
        ensures
            r@ == self@.summary,
    {
        self.summary
    }

    /// Returns semantic limits that this evaluator never upgrades to favorable proof.
    pub fn unsupported_semantics(&self) -> (r: &[String])
        ensures
            texts(r@) == self@.unsupported_semantics,
    {
        self.unsupported_semantics.as_slice()
    }

    /// Returns dependency comparisons projected from Architecture Realization.
    pub fn dependency_convergence(&self) -> (r: &[DependencyConvergence])
        ensures
            crate::order::views(r@) == self@.dependency_convergence,
    {
        self.dependency_convergence.as_slice()
    }
}

/// Abstract value of the evaluation.
pub struct EvaluationModel {
    pub model: ConformanceModelView,
    pub findings: Seq<FindingModel>,
    pub coverage_findings: Seq<FindingModel>,
}

/// Rule-facing Module semantic-conformance result.
#[derive(Debug)]
pub struct SemanticConformanceEvaluation {
    model: SemanticConformanceModel,
    findings: Vec<SemanticFinding>,
    coverage_findings: Vec<SemanticFinding>,
}

impl View for SemanticConformanceEvaluation {
    type V = EvaluationModel;

    closed spec fn view(&self) -> EvaluationModel {
        EvaluationModel {
            model: self.model@,
            findings: crate::order::views(self.findings@),
            coverage_findings: crate::order::views(self.coverage_findings@),
        }
    }
}

impl SemanticConformanceEvaluation {
    /// Returns the deterministic derived model.
    pub fn model(&self) -> (r: &SemanticConformanceModel)
        ensures
            r@ == self@.model,
    {
        &self.model
    }

    /// Returns block-eligible semantic contradictions.
    pub fn findings(&self) -> (r: &[SemanticFinding])
        ensures
            crate::order::views(r@) == self@.findings,
    {
        self.findings.as_slice()
    }

    /// Returns claim-relative coverage findings that are not block eligible.
    pub fn coverage_findings(&self) -> (r: &[SemanticFinding])
        ensures
            crate::order::views(r@) == self@.coverage_findings,
    {
        self.coverage_findings.as_slice()
    }

    /// Returns whether at least one Module declared semantic policy.
    pub fn is_applicable(&self) -> (r: bool)
        ensures
            r == exists|i: int|
                0 <= i < self@.model.modules.len() && #[trigger] self@.model.modules[i].policy_state == "DECLARED"@,
    {
        let ghost mv = crate::order::views(self.model.modules@);
        let mut i: usize = 0;
        while i < self.model.modules.len()
            invariant
                mv == crate::order::views(self.model.modules@),
                mv == self@.model.modules,
                i <= self.model.modules@.len(),
                forall|j: int| 0 <= j < i ==> mv[j].policy_state != "DECLARED"@,
            decreases self.model.modules.len() - i,
        {
            assert(mv[i as int] == self.model.modules@[i as int]@);
            if crate::text::text_eq(self.model.modules[i].policy_state.as_str(), "DECLARED") {
                assert(self@.model.modules[i as int].policy_state == "DECLARED"@);
                return true;
            }
            i = i + 1;
        }
        false
    }

    /// Returns whether every applicable Module policy claim passed.
    pub fn is_success(&self) -> (r: bool)
        ensures
            r == (self@.findings.len() == 0 && self@.coverage_findings.len() == 0),
    {
        self.findings.len() == 0 && self.coverage_findings.len() == 0
    }
}

// ---------------------------------------------------------------------------
// Source coverage.

/// Paths of the declared-Module ownerships by `m`, in input order.
pub open spec fn governed_path_list(own: Seq<OwnershipModel>, m: Seq<char>) -> Seq<Seq<char>>
    decreases own.len(),
{
    if own.len() == 0 {
        Seq::empty()
    } else {
        let o = own.last();
        governed_path_list(own.drop_last(), m) + if o.authority == SourceOwnershipAuthority::DeclaredModule
            && o.owner == m {
            seq![o.source_path]
        } else {
            Seq::empty()
        }
    }
}

/// Paths of `m`'s symbols that lie in a path governed by `m`, in input order.
pub open spec fn analysed_path_list(own: Seq<OwnershipModel>, symbols: Seq<SymbolModel>, m: Seq<char>) -> Seq<Seq<char>>
    decreases symbols.len(),
{
    if symbols.len() == 0 {
        Seq::empty()
    } else {
        let s = symbols.last();
        analysed_path_list(own, symbols.drop_last(), m) + if s.fortress_module == m
            && governed_path_list(own, m).contains(s.source_path) {
            seq![s.source_path]
        } else {
            Seq::empty()
        }
    }
}

/// The coverage of Module `m`: its distinct governed paths, and those of them
/// represented by at least one of its semantic symbols.
pub open spec fn module_source_coverage(own: Seq<OwnershipModel>, symbols: Seq<SymbolModel>, m: Seq<char>) -> CoverageModel {
    coverage_of(
        canonical_set::<String>(governed_path_list(own, m)).len(),
        canonical_set::<String>(analysed_path_list(own, symbols, m)).len(),
    )
}

/// Owners of the declared-Module ownerships, in input order.
pub open spec fn governed_owner_list(own: Seq<OwnershipModel>) -> Seq<Seq<char>>
    decreases own.len(),
{
    if own.len() == 0 {
        Seq::empty()
    } else {
        let o = own.last();
        governed_owner_list(own.drop_last()) + if o.authority == SourceOwnershipAuthority::DeclaredModule {
            seq![o.owner]
        } else {
            Seq::empty()
        }
    }
}

// ---------------------------------------------------------------------------
// Attribution of effect evidence to Modules.

/// The Module owning symbol `id`: that of the last symbol with the identity.
pub open spec fn symbol_owner(symbols: Seq<SymbolModel>, id: Seq<char>) -> Option<Seq<char>>
    decreases symbols.len(),
{
    if symbols.len() == 0 {
        None
    } else if symbols.last().id == id {
        Some(symbols.last().fortress_module)
    } else {
        symbol_owner(symbols.drop_last(), id)
    }
}

/// Some declared Module has identity `id`.
pub open spec fn is_declared(modules: Seq<GovernedModel>, id: Seq<char>) -> bool {
    exists|i: int| 0 <= i < modules.len() && #[trigger] modules[i].id == id
}

/// The ungoverned observation of one piece of evidence of Module `m`.
pub open spec fn observation_of(m: Seq<char>, e: EvidenceModel) -> ObservationModel {
    ObservationModel {
        module: m,
        effect: e.effect,
        capability: e.capability,
        evidence_kind: e.kind,
        entry_symbol: e.entry_symbol,
        source_symbol: e.source_symbol,
        operation: e.operation,
        authority: e.classification_authority,
        path: e.path,
        line: e.line,
        column: e.column,
        call_chain: e.call_chain,
        policy_target_kind: None,
        policy_target: None,
        policy_disposition: None,
    }
}

/// The observations of a list of evidence of Module `m`.
pub open spec fn evidence_observations(m: Seq<char>, es: Seq<EvidenceModel>) -> Seq<ObservationModel> {
    es.map_values(|e: EvidenceModel| observation_of(m, e))
}

/// All evidence of the summaries whose symbol Module `m` owns, in input order.
pub open spec fn raw_observations(symbols: Seq<SymbolModel>, sums: Seq<EffectSummaryModel>, m: Seq<char>) -> Seq<ObservationModel>
    decreases sums.len(),
{
    if sums.len() == 0 {
        Seq::empty()
    } else {
        raw_observations(symbols, sums.drop_last(), m) + if symbol_owner(symbols, sums.last().symbol) == Some(m) {
            evidence_observations(m, sums.last().effect_evidence)
        } else {
            Seq::empty()
        }
    }
}

/// An uncertainty reason that leaves claim-relevant semantics opaque.
pub open spec fn is_opaque_reason(r: Seq<char>) -> bool {
    crate::text::is_prefix("opaque_call:"@, r) || crate::text::is_prefix("unclassified_external_operation:"@, r)
        || r == "external_operation_identity_missing"@ || r == "transitive_opaque_effect"@
}

/// The opaque reasons among `rs`, in order.
pub open spec fn opaque_reasons(rs: Seq<Seq<char>>) -> Seq<Seq<char>>
    decreases rs.len(),
{
    if rs.len() == 0 {
        Seq::empty()
    } else {
        opaque_reasons(rs.drop_last()) + if is_opaque_reason(rs.last()) {
            seq![rs.last()]
        } else {
            Seq::empty()
        }
    }
}

/// The opaque reasons of the summaries whose symbol Module `m` owns.
pub open spec fn raw_opaque(symbols: Seq<SymbolModel>, sums: Seq<EffectSummaryModel>, m: Seq<char>) -> Seq<Seq<char>>
    decreases sums.len(),
{
    if sums.len() == 0 {
        Seq::empty()
    } else {
        raw_opaque(symbols, sums.drop_last(), m) + if symbol_owner(symbols, sums.last().symbol) == Some(m) {
            opaque_reasons(sums.last().uncertainty)
        } else {
            Seq::empty()
        }
    }
}

/// Evidence owned by resolved symbols outside every declared Module
/// (saturating).
pub open spec fn analysis_only(modules: Seq<GovernedModel>, symbols: Seq<SymbolModel>, sums: Seq<EffectSummaryModel>) -> nat
    decreases sums.len(),
{
    if sums.len() == 0 {
        0
    } else {
        let rest = analysis_only(modules, symbols, sums.drop_last());
        match symbol_owner(symbols, sums.last().symbol) {
            Some(o) => if is_declared(modules, o) {
                rest
            } else {
                sat_add(rest, sums.last().effect_evidence.len())
            },
            None => rest,
        }
    }
}

// ---------------------------------------------------------------------------
// Policy application.

/// The authored disposition of `target` in one namespace: ALLOW first.
pub open spec fn set_disposition(set: PolicySetModel, target: Seq<char>) -> Option<PolicyDisposition> {
    if set.allow.contains(target) {
        Some(PolicyDisposition::Allow)
    } else if set.deny.contains(target) {
        Some(PolicyDisposition::Deny)
    } else {
        None
    }
}

/// An observation governed by a policy: by its effect first, else by its capability.
pub open spec fn governed_observation(p: PolicyModel, o: ObservationModel) -> ObservationModel {
    match set_disposition(p.effects, o.effect) {
        Some(d) => ObservationModel {
            policy_target_kind: Some(PolicyTargetKind::Effect),
            policy_target: Some(o.effect),
            policy_disposition: Some(d),
            ..o
        },
        None => match o.capability {
            Some(c) => match set_disposition(p.capabilities, c) {
                Some(d) => ObservationModel {
                    policy_target_kind: Some(PolicyTargetKind::Capability),
                    policy_target: Some(c),
                    policy_disposition: Some(d),
                    ..o
                },
                None => o,
            },
            None => o,
        },
    }
}

/// Abstract value of one authored policy claim.
pub struct ClaimModel {
    pub target_kind: PolicyTargetKind,
    pub target: Seq<char>,
    pub disposition: PolicyDisposition,
}

/// One authored policy entry.
#[derive(Debug)]
pub struct PolicyClaim {
    target_kind: PolicyTargetKind,
    target: String,
    disposition: PolicyDisposition,
}

impl View for PolicyClaim {
    type V = ClaimModel;

    closed spec fn view(&self) -> ClaimModel {
        ClaimModel { target_kind: self.target_kind, target: self.target@, disposition: self.disposition }
    }
}

/// The order fields of a claim: namespace, target, then disposition.
pub open spec fn claim_groups(c: ClaimModel) -> Seq<Seq<Seq<char>>> {
    seq![
        single(rank_field(target_kind_rank(Some(c.target_kind)))),
        single(c.target),
        single(rank_field(disposition_rank(Some(c.disposition)))),
    ]
}

fn claim_groups_exec(c: &PolicyClaim) -> (g: Vec<Vec<Vec<char>>>)
    ensures
        group_views(g@) == claim_groups(c@),
{
    let mut g: Vec<Vec<Vec<char>>> = Vec::new();
    g.push(rank_group(match c.target_kind {
        PolicyTargetKind::Capability => 1,
        PolicyTargetKind::Effect => 2,
    }));
    g.push(single_exec(c.target.as_str()));
    g.push(rank_group(match c.disposition {
        PolicyDisposition::Allow => 1,
        PolicyDisposition::Deny => 2,
    }));
    assert(group_views(g@) =~= claim_groups(c@));
    g
}

impl CanonicalOrder for PolicyClaim {
    open spec fn ordered(a: ClaimModel, b: ClaimModel) -> bool {
        groups_le(claim_groups(a), claim_groups(b))
    }

    proof fn lemma_ordered_reflexive(a: ClaimModel) {
        lemma_groups_le_reflexive(claim_groups(a));
    }

    proof fn lemma_ordered_transitive(a: ClaimModel, b: ClaimModel, c: ClaimModel) {
        lemma_groups_le_transitive(claim_groups(a), claim_groups(b), claim_groups(c));
    }

    proof fn lemma_ordered_total(a: ClaimModel, b: ClaimModel) {
        lemma_groups_le_total(claim_groups(a), claim_groups(b));
    }

    fn precedes(&self, other: &Self) -> (r: bool) {
        let a = claim_groups_exec(self);
        let b = claim_groups_exec(other);
        groups_le_exec(&a, &b)
    }
}

impl TotalOrder for PolicyClaim {
    proof fn lemma_ordered_antisymmetric(a: ClaimModel, b: ClaimModel) {
        let ga = claim_groups(a);
        let gb = claim_groups(b);
        lemma_groups_le_antisymmetric(ga, gb);
        assert(ga[0][0] == rank_field(target_kind_rank(Some(a.target_kind))));
        assert(gb[0][0] == rank_field(target_kind_rank(Some(b.target_kind))));
        assert(rank_field(target_kind_rank(Some(a.target_kind))).len() == target_kind_rank(Some(a.target_kind)));
        assert(rank_field(target_kind_rank(Some(b.target_kind))).len() == target_kind_rank(Some(b.target_kind)));
        assert(ga[1][0] == a.target && gb[1][0] == b.target);
        assert(ga[2][0] == rank_field(disposition_rank(Some(a.disposition))));
        assert(gb[2][0] == rank_field(disposition_rank(Some(b.disposition))));
        assert(rank_field(disposition_rank(Some(a.disposition))).len() == disposition_rank(Some(a.disposition)));
        assert(rank_field(disposition_rank(Some(b.disposition))).len() == disposition_rank(Some(b.disposition)));
    }
}

/// The claims of one target list.
pub open spec fn claims_of(kind: PolicyTargetKind, targets: Seq<Seq<char>>, d: PolicyDisposition) -> Seq<ClaimModel> {
    targets.map_values(|t: Seq<char>| ClaimModel { target_kind: kind, target: t, disposition: d })
}

/// Every authored entry of a policy, in canonical claim order.
pub open spec fn policy_claims(p: PolicyModel) -> Seq<ClaimModel> {
    canonical_set::<PolicyClaim>(
        claims_of(PolicyTargetKind::Capability, p.capabilities.allow, PolicyDisposition::Allow)
            + claims_of(PolicyTargetKind::Capability, p.capabilities.deny, PolicyDisposition::Deny)
            + claims_of(PolicyTargetKind::Effect, p.effects.allow, PolicyDisposition::Allow)
            + claims_of(PolicyTargetKind::Effect, p.effects.deny, PolicyDisposition::Deny),
    )
}

/// A governed observation exercises exactly this claim.
pub open spec fn matches_claim(o: ObservationModel, c: ClaimModel) -> bool {
    o.policy_target_kind == Some(c.target_kind) && o.policy_target == Some(c.target) && o.policy_disposition
        == Some(c.disposition)
}

/// The number of observations exercising a claim.
pub open spec fn matching_count(os: Seq<ObservationModel>, c: ClaimModel) -> nat
    decreases os.len(),
{
    if os.len() == 0 {
        0
    } else {
        matching_count(os.drop_last(), c) + if matches_claim(os.last(), c) {
            1nat
        } else {
            0nat
        }
    }
}

/// The conclusion of one claim, given the number of observations exercising
/// it, the Module's coverage and its opaque reasons.
pub open spec fn conclusion_of(c: ClaimModel, matching: nat, coverage: CoverageModel, opaque: Seq<Seq<char>>) -> ConclusionModel {
    let (authorization, conformance, eligibility, reasons) = if c.disposition == PolicyDisposition::Allow {
        (Some(AuthorizationState::Authorised), None, None, Seq::<Seq<char>>::empty())
    } else if matching > 0 {
        (None, Some(SemanticConformanceState::Fail), Some(BlockingEligibility::BlockSupported), Seq::empty())
    } else if coverage.governed == 0 {
        (None, Some(SemanticConformanceState::NotApplicable), Some(BlockingEligibility::AdvisoryOnly), Seq::empty())
    } else if coverage.analysed == 0 {
        (None, Some(SemanticConformanceState::Unknown), Some(BlockingEligibility::NotEvaluable), seq![NO_SEMANTIC_COVERAGE@])
    } else if opaque.len() > 0 {
        (None, Some(SemanticConformanceState::Unknown), Some(BlockingEligibility::NotEvaluable), opaque)
    } else {
        (None, Some(SemanticConformanceState::Pass), Some(BlockingEligibility::AdvisoryOnly), Seq::empty())
    };
    ConclusionModel {
        target_kind: c.target_kind,
        target: c.target,
        disposition: c.disposition,
        authorization,
        conformance,
        blocking_eligibility: eligibility,
        matching_observations: matching,
        coverage,
        coverage_reasons: reasons,
    }
}

/// The aggregate Module state over its DENY conclusions.
pub open spec fn module_state(cs: Seq<ConclusionModel>) -> SemanticConformanceState {
    if forall|i: int|
        0 <= i < cs.len() && #[trigger] cs[i].disposition == PolicyDisposition::Deny ==> cs[i].conformance == Some(
            SemanticConformanceState::NotApplicable,
        ) {
        SemanticConformanceState::NotApplicable
    } else if exists|i: int|
        0 <= i < cs.len() && #[trigger] cs[i].conformance == Some(SemanticConformanceState::Fail) {
        SemanticConformanceState::Fail
    } else if exists|i: int|
        0 <= i < cs.len() && #[trigger] cs[i].conformance == Some(SemanticConformanceState::Unknown) {
        SemanticConformanceState::Unknown
    } else {
        SemanticConformanceState::Pass
    }
}

/// The number of observations no policy entry governs.
pub open spec fn ungoverned_count(os: Seq<ObservationModel>) -> nat
    decreases os.len(),
{
    if os.len() == 0 {
        0
    } else {
        ungoverned_count(os.drop_last()) + if os.last().policy_disposition is None {
            1nat
        } else {
            0nat
        }
    }
}

/// The coverage reasons of a list of conclusions, concatenated.
pub open spec fn conclusion_reasons(cs: Seq<ConclusionModel>) -> Seq<Seq<char>>
    decreases cs.len(),
{
    if cs.len() == 0 {
        Seq::empty()
    } else {
        conclusion_reasons(cs.drop_last()) + cs.last().coverage_reasons
    }
}

/// The Module-level conclusion of one declared Module with the given coverage.
pub open spec fn module_result(
    m: GovernedModel,
    symbols: Seq<SymbolModel>,
    sums: Seq<EffectSummaryModel>,
    coverage: CoverageModel,
) -> ModuleConformanceModel {
    let observed = canonical_set::<ModuleEffectObservation>(raw_observations(symbols, sums, m.id));
    let opaque = canonical_set::<String>(raw_opaque(symbols, sums, m.id));
    match m.policy {
        Some(p) => {
            let observations = observed.map_values(|o: ObservationModel| governed_observation(p, o));
            let conclusions = policy_claims(p).map_values(
                |c: ClaimModel| conclusion_of(c, matching_count(observations, c), coverage, opaque),
            );
            ModuleConformanceModel {
                module: m.id,
                contract_path: m.contract_path,
                policy_state: "DECLARED"@,
                state: module_state(conclusions),
                conclusions,
                observations,
                ungoverned_observations: ungoverned_count(observations),
                coverage,
                coverage_reasons: canonical_set::<String>(opaque + conclusion_reasons(conclusions)),
            }
        },
        None => ModuleConformanceModel {
            module: m.id,
            contract_path: m.contract_path,
            policy_state: "UNDECLARED"@,
            state: SemanticConformanceState::NotApplicable,
            conclusions: Seq::empty(),
            observations: observed,
            ungoverned_observations: observed.len(),
            coverage,
            coverage_reasons: canonical_set::<String>(opaque),
        },
    }
}

// ---------------------------------------------------------------------------
// Findings.

/// The finding code of a forbidden target kind.
pub open spec fn forbidden_code(k: PolicyTargetKind) -> Seq<char> {
    match k {
        PolicyTargetKind::Capability => "FORBIDDEN_CAPABILITY_EXERCISED"@,
        PolicyTargetKind::Effect => "FORBIDDEN_EFFECT_EXERCISED"@,
    }
}

/// The prose name of a target kind.
pub open spec fn kind_noun(k: PolicyTargetKind) -> Seq<char> {
    match k {
        PolicyTargetKind::Capability => "capability"@,
        PolicyTargetKind::Effect => "effect"@,
    }
}

/// The label of a target kind.
pub open spec fn kind_tag(k: PolicyTargetKind) -> Seq<char> {
    match k {
        PolicyTargetKind::Capability => "CAPABILITY"@,
        PolicyTargetKind::Effect => "EFFECT"@,
    }
}

/// The prose name of an evidence kind.
pub open spec fn evidence_noun(k: EffectEvidenceKind) -> Seq<char> {
    match k {
        EffectEvidenceKind::Direct => "direct"@,
        EffectEvidenceKind::Transitive => "transitive"@,
    }
}

/// The digest material identifying one forbidden exercise.
pub open spec fn forbidden_material(module: Seq<char>, k: PolicyTargetKind, target: Seq<char>, o: ObservationModel) -> Seq<char> {
    forbidden_code(k) + "\0"@ + module + "\0"@ + target + "\0"@ + o.entry_symbol + "\0"@ + o.source_symbol + "\0"@
        + o.operation + "\0"@ + crate::text::join_texts(o.call_chain, "\0"@)
}

/// The finding of one observation exercising a forbidden target.
pub open spec fn forbidden_finding_of(module: Seq<char>, k: PolicyTargetKind, target: Seq<char>, o: ObservationModel) -> FindingModel {
    FindingModel {
        module,
        discriminator: forbidden_code(k) + ":"@ + crate::codec::sha256_identity_of(
            vstd::utf8::encode_utf8(forbidden_material(module, k, target, o)),
        ),
        message: "Module `"@ + module + "` explicitly forbids "@ + kind_noun(k) + " `"@ + target + "`, but `"@
            + o.entry_symbol + "` produces `"@ + o.operation + "` through "@ + evidence_noun(o.evidence_kind)
            + " evidence along `"@ + crate::text::join_texts(o.call_chain, " -> "@) + "`"@,
        remediation: REMEDIATION@,
        path: o.path,
        position: Some((o.line, o.column)),
        symbol: Some(o.entry_symbol),
    }
}

/// The finding of one claim that current semantic authority cannot evaluate.
pub open spec fn coverage_finding_of(
    module: Seq<char>,
    contract_path: Seq<char>,
    c: ConclusionModel,
) -> FindingModel {
    FindingModel {
        module,
        discriminator: "SEMANTIC_POLICY_NOT_EVALUABLE:"@ + kind_tag(c.target_kind) + ":"@ + c.target,
        message: if c.coverage_reasons == seq![NO_SEMANTIC_COVERAGE@] {
            "Module `"@ + module + "` policy for `"@ + c.target + "` is UNKNOWN because the Module owns "@
                + decimal_of(c.coverage.governed)
                + " governed source file(s), but the PSM produced semantic symbols for none of them (NO_SEMANTIC_COVERAGE)"@
        } else {
            "Module `"@ + module + "` policy for `"@ + c.target
                + "` is UNKNOWN because claim-relevant semantic operations remain opaque: "@
                + crate::text::join_texts(c.coverage_reasons, ", "@)
        },
        remediation: COVERAGE_REMEDIATION@,
        path: contract_path,
        position: None,
        symbol: None,
    }
}

/// The findings of the observations exercising one forbidden target.
pub open spec fn claim_findings(module: Seq<char>, c: ConclusionModel, os: Seq<ObservationModel>) -> Seq<FindingModel>
    decreases os.len(),
{
    if os.len() == 0 {
        Seq::empty()
    } else {
        let claim = ClaimModel { target_kind: c.target_kind, target: c.target, disposition: c.disposition };
        claim_findings(module, c, os.drop_last()) + if matches_claim(os.last(), claim) {
            seq![forbidden_finding_of(module, c.target_kind, c.target, os.last())]
        } else {
            Seq::empty()
        }
    }
}

/// The forbidden-exercise findings of a list of conclusions.
pub open spec fn conclusions_forbidden(module: Seq<char>, cs: Seq<ConclusionModel>, os: Seq<ObservationModel>) -> Seq<FindingModel>
    decreases cs.len(),
{
    if cs.len() == 0 {
        Seq::empty()
    } else {
        conclusions_forbidden(module, cs.drop_last(), os) + if cs.last().disposition == PolicyDisposition::Deny {
            claim_findings(module, cs.last(), os)
        } else {
            Seq::empty()
        }
    }
}

/// The not-evaluable findings of a list of conclusions.
pub open spec fn conclusions_unknown(module: Seq<char>, contract_path: Seq<char>, cs: Seq<ConclusionModel>) -> Seq<FindingModel>
    decreases cs.len(),
{
    if cs.len() == 0 {
        Seq::empty()
    } else {
        conclusions_unknown(module, contract_path, cs.drop_last()) + if cs.last().conformance == Some(
            SemanticConformanceState::Unknown,
        ) {
            seq![coverage_finding_of(module, contract_path, cs.last())]
        } else {
            Seq::empty()
        }
    }
}

/// The forbidden-exercise findings of every Module, in Module order.
pub open spec fn all_forbidden(rs: Seq<ModuleConformanceModel>) -> Seq<FindingModel>
    decreases rs.len(),
{
    if rs.len() == 0 {
        Seq::empty()
    } else {
        all_forbidden(rs.drop_last()) + conclusions_forbidden(rs.last().module, rs.last().conclusions, rs.last().observations)
    }
}

/// The not-evaluable findings of every Module, in Module order.
pub open spec fn all_unknown(rs: Seq<ModuleConformanceModel>) -> Seq<FindingModel>
    decreases rs.len(),
{
    if rs.len() == 0 {
        Seq::empty()
    } else {
        all_unknown(rs.drop_last()) + conclusions_unknown(rs.last().module, rs.last().contract_path, rs.last().conclusions)
    }
}

// ---------------------------------------------------------------------------
// Aggregate counts.

/// All counts zero.
pub open spec fn zero_counts() -> SummaryModel {
    SummaryModel {
        declared_modules: 0,
        modules_with_policy: 0,
        modules_passed: 0,
        modules_failed: 0,
        modules_unknown: 0,
        modules_not_applicable: 0,
        authored_authorizations: 0,
        authorizations_with_observed_usage: 0,
        authorization_observations: 0,
        evaluative_deny_claims: 0,
        deny_claims_passed: 0,
        deny_claims_failed: 0,
        deny_claims_unknown: 0,
        deny_claims_not_applicable: 0,
        supported_observations: 0,
        governed_observations: 0,
        ungoverned_observations: 0,
        analysis_only_observations: 0,
        forbidden_capability_findings: 0,
        forbidden_effect_findings: 0,
        not_evaluable_findings: 0,
        no_semantic_coverage_claims: 0,
    }
}

/// Field-wise saturating sum of two count records.
pub open spec fn add_counts(a: SummaryModel, b: SummaryModel) -> SummaryModel {
    SummaryModel {
        declared_modules: sat_add(a.declared_modules, b.declared_modules),
        modules_with_policy: sat_add(a.modules_with_policy, b.modules_with_policy),
        modules_passed: sat_add(a.modules_passed, b.modules_passed),
        modules_failed: sat_add(a.modules_failed, b.modules_failed),
        modules_unknown: sat_add(a.modules_unknown, b.modules_unknown),
        modules_not_applicable: sat_add(a.modules_not_applicable, b.modules_not_applicable),
        authored_authorizations: sat_add(a.authored_authorizations, b.authored_authorizations),
        authorizations_with_observed_usage: sat_add(a.authorizations_with_observed_usage, b.authorizations_with_observed_usage),
        authorization_observations: sat_add(a.authorization_observations, b.authorization_observations),
        evaluative_deny_claims: sat_add(a.evaluative_deny_claims, b.evaluative_deny_claims),
        deny_claims_passed: sat_add(a.deny_claims_passed, b.deny_claims_passed),
        deny_claims_failed: sat_add(a.deny_claims_failed, b.deny_claims_failed),
        deny_claims_unknown: sat_add(a.deny_claims_unknown, b.deny_claims_unknown),
        deny_claims_not_applicable: sat_add(a.deny_claims_not_applicable, b.deny_claims_not_applicable),
        supported_observations: sat_add(a.supported_observations, b.supported_observations),
        governed_observations: sat_add(a.governed_observations, b.governed_observations),
        ungoverned_observations: sat_add(a.ungoverned_observations, b.ungoverned_observations),
        analysis_only_observations: sat_add(a.analysis_only_observations, b.analysis_only_observations),
        forbidden_capability_findings: sat_add(a.forbidden_capability_findings, b.forbidden_capability_findings),
        forbidden_effect_findings: sat_add(a.forbidden_effect_findings, b.forbidden_effect_findings),
        not_evaluable_findings: sat_add(a.not_evaluable_findings, b.not_evaluable_findings),
        no_semantic_coverage_claims: sat_add(a.no_semantic_coverage_claims, b.no_semantic_coverage_claims),
    }
}

/// One if the condition holds.
pub open spec fn one_if(b: bool) -> nat {
    if b {
        1
    } else {
        0
    }
}

/// The counts contributed by one conclusion.
pub open spec fn conclusion_counts(c: ConclusionModel) -> SummaryModel {
    let allow = c.disposition == PolicyDisposition::Allow;
    SummaryModel {
        authored_authorizations: one_if(allow),
        authorizations_with_observed_usage: one_if(allow && c.matching_observations > 0),
        authorization_observations: if allow {
            c.matching_observations
        } else {
            0
        },
        evaluative_deny_claims: one_if(c.conformance is Some),
        deny_claims_passed: one_if(c.conformance == Some(SemanticConformanceState::Pass)),
        deny_claims_failed: one_if(c.conformance == Some(SemanticConformanceState::Fail)),
        deny_claims_unknown: one_if(c.conformance == Some(SemanticConformanceState::Unknown)),
        deny_claims_not_applicable: one_if(c.conformance == Some(SemanticConformanceState::NotApplicable)),
        not_evaluable_findings: one_if(c.conformance == Some(SemanticConformanceState::Unknown)),
        no_semantic_coverage_claims: one_if(
            c.conformance == Some(SemanticConformanceState::Unknown) && c.coverage_reasons == seq![NO_SEMANTIC_COVERAGE@],
        ),
        ..zero_counts()
    }
}

/// The counts contributed by a list of conclusions.
pub open spec fn conclusions_counts(cs: Seq<ConclusionModel>) -> SummaryModel
    decreases cs.len(),
{
    if cs.len() == 0 {
        zero_counts()
    } else {
        add_counts(conclusions_counts(cs.drop_last()), conclusion_counts(cs.last()))
    }
}

/// The counts contributed by one Module conclusion.
pub open spec fn result_counts(r: ModuleConformanceModel) -> SummaryModel {
    add_counts(
        conclusions_counts(r.conclusions),
        SummaryModel {
            modules_with_policy: one_if(r.policy_state == "DECLARED"@),
            modules_passed: one_if(r.state == SemanticConformanceState::Pass),
            modules_failed: one_if(r.state == SemanticConformanceState::Fail),
            modules_unknown: one_if(r.state == SemanticConformanceState::Unknown),
            modules_not_applicable: one_if(r.state == SemanticConformanceState::NotApplicable),
            supported_observations: r.observations.len(),
            governed_observations: sat(r.observations.len() - r.ungoverned_observations),
            ungoverned_observations: r.ungoverned_observations,
            ..zero_counts()
        },
    )
}

/// The counts contributed by a list of Module conclusions.
pub open spec fn results_counts(rs: Seq<ModuleConformanceModel>) -> SummaryModel
    decreases rs.len(),
{
    if rs.len() == 0 {
        zero_counts()
    } else {
        add_counts(results_counts(rs.drop_last()), result_counts(rs.last()))
    }
}

/// The number of findings whose discriminator starts with `code`.
pub open spec fn code_count(fs: Seq<FindingModel>, code: Seq<char>) -> nat
    decreases fs.len(),
{
    if fs.len() == 0 {
        0
    } else {
        code_count(fs.drop_last(), code) + one_if(crate::text::is_prefix(code, fs.last().discriminator))
    }
}

/// The aggregate counts of a complete evaluation.
pub open spec fn summary_of(
    declared: nat,
    rs: Seq<ModuleConformanceModel>,
    analysis_only_count: nat,
    findings: Seq<FindingModel>,
) -> SummaryModel {
    SummaryModel {
        declared_modules: declared,
        analysis_only_observations: analysis_only_count,
        forbidden_capability_findings: code_count(findings, "FORBIDDEN_CAPABILITY_EXERCISED:"@),
        forbidden_effect_findings: code_count(findings, "FORBIDDEN_EFFECT_EXERCISED:"@),
        ..results_counts(rs)
    }
}

// ---------------------------------------------------------------------------
// Dependency convergence.

/// The reflexion state of one reconciliation state.
pub open spec fn convergence_state(s: crate::architecture::realization::ReconciliationState) -> DependencyConvergenceState {
    match s {
        crate::architecture::realization::ReconciliationState::DeclaredAndObserved => DependencyConvergenceState::Convergence,
        crate::architecture::realization::ReconciliationState::ObservedUndeclared => DependencyConvergenceState::Divergence,
        crate::architecture::realization::ReconciliationState::ObservedTransitiveBypass => DependencyConvergenceState::Divergence,
        crate::architecture::realization::ReconciliationState::DeclaredUnobserved => DependencyConvergenceState::Absence,
        crate::architecture::realization::ReconciliationState::External => DependencyConvergenceState::Unmatched,
        crate::architecture::realization::ReconciliationState::Unresolved => DependencyConvergenceState::Unknown,
    }
}

/// The comparison projected from one reconciliation record.
pub open spec fn convergence_of(r: crate::architecture::realization::RecordModel) -> ConvergenceModel {
    ConvergenceModel {
        source_module: r.source_module,
        target_module: r.target_module,
        external_target: r.external_target,
        state: convergence_state(r.state),
        declared_capabilities: r.declared_capabilities,
        declared_path: r.declared_path,
    }
}

/// Semantic limits that this evaluator never upgrades to favorable proof.
pub open spec fn semantic_unsupported() -> Seq<Seq<char>> {
    seq![
        "capability_permission_inference_from_implementation"@,
        "claim_coverage_beyond_resolved_static_call_closure"@,
        "dynamic_dispatch_effect_closure"@,
        "module_policy_for_analysis_only_territories"@,
    ]
}

// ---------------------------------------------------------------------------
// Executable evaluation.

proof fn lemma_texts_are_views(v: Seq<String>)
    ensures
        views(v) == texts(v),
{
    assert(views(v) =~= texts(v));
}

fn governed_paths_exec(own: &[SourceOwnership], m: &str) -> (r: Vec<String>)
    ensures
        texts(r@) == governed_path_list(views(own@), m@),
{
    let ghost ov = views(own@);
    let mut out: Vec<String> = Vec::new();
    let mut i: usize = 0;
    while i < own.len()
        invariant
            ov == views(own@),
            i <= own@.len(),
            texts(out@) == governed_path_list(ov.take(i as int), m@),
        decreases own.len() - i,
    {
        let ghost before = out@;
        assert(ov.take(i + 1).drop_last() =~= ov.take(i as int));
        assert(ov.take(i + 1).last() == own@[i as int]@);
        let o = &own[i];
        if o.authority == SourceOwnershipAuthority::DeclaredModule && crate::text::text_eq(o.owner.as_str(), m) {
            out.push(copy_text(o.source_path.as_str()));
            assert(texts(out@) =~= texts(before) + seq![o.source_path@]);
        } else {
            assert(texts(out@) =~= texts(before) + Seq::<Seq<char>>::empty());
        }
        i = i + 1;
    }
    assert(ov.take(own@.len() as int) =~= ov);
    out
}

fn analysed_paths_exec(own: &[SourceOwnership], symbols: &[SemanticSymbol], m: &str, governed: &Vec<String>) -> (r: Vec<String>)
    requires
        texts(governed@) == governed_path_list(views(own@), m@),
    ensures
        texts(r@) == analysed_path_list(views(own@), views(symbols@), m@),
{
    let ghost sv = views(symbols@);
    let mut out: Vec<String> = Vec::new();
    let mut i: usize = 0;
    while i < symbols.len()
        invariant
            sv == views(symbols@),
            i <= symbols@.len(),
            texts(governed@) == governed_path_list(views(own@), m@),
            texts(out@) == analysed_path_list(views(own@), sv.take(i as int), m@),
        decreases symbols.len() - i,
    {
        let ghost before = out@;
        assert(sv.take(i + 1).drop_last() =~= sv.take(i as int));
        assert(sv.take(i + 1).last() == symbols@[i as int]@);
        let s = &symbols[i];
        if crate::text::text_eq(s.fortress_module.as_str(), m) && crate::text::texts_contain(governed, s.source_path.as_str()) {
            out.push(copy_text(s.source_path.as_str()));
            assert(texts(out@) =~= texts(before) + seq![s.source_path@]);
        } else {
            assert(texts(out@) =~= texts(before) + Seq::<Seq<char>>::empty());
        }
        i = i + 1;
    }
    assert(sv.take(symbols@.len() as int) =~= sv);
    out
}

fn distinct_count(v: Vec<String>) -> (n: usize)
    ensures
        n == canonical_set::<String>(texts(v@)).len(),
{
    proof {
        lemma_texts_are_views(v@);
    }
    let set = canonical_set_exec(v);
    set.len()
}

fn module_source_coverage_exec(own: &[SourceOwnership], symbols: &[SemanticSymbol], m: &str) -> (r: SemanticSourceCoverage)
    ensures
        r@ == module_source_coverage(views(own@), views(symbols@), m@),
{
    let governed = governed_paths_exec(own, m);
    let analysed = analysed_paths_exec(own, symbols, m, &governed);
    let g = distinct_count(governed);
    let a = distinct_count(analysed);
    SemanticSourceCoverage::from_counts(g, a)
}

/// Abstract value of one Module's coverage entry.
pub struct ModuleCoverageModel {
    pub module: Seq<char>,
    pub coverage: CoverageModel,
}

/// The source coverage of one declared Module.
#[derive(Debug)]
pub struct ModuleSourceCoverage {
    module: String,
    coverage: SemanticSourceCoverage,
}

impl View for ModuleSourceCoverage {
    type V = ModuleCoverageModel;

    closed spec fn view(&self) -> ModuleCoverageModel {
        ModuleCoverageModel { module: self.module@, coverage: self.coverage@ }
    }
}

impl ModuleSourceCoverage {
    /// Returns the Module identity.
    pub fn module(&self) -> (r: &str)
        ensures
            r@ == self@.module,
    {
        self.module.as_str()
    }

    /// Returns the Module's coverage.
    pub fn coverage(&self) -> (r: &SemanticSourceCoverage)
        ensures
            r@ == self@.coverage,
    {
        &self.coverage
    }
}

/// Computes Module semantic coverage from canonical ownership and actual
/// semantic symbols: for each Module owning at least one source artifact,
/// in identity order, the distinct owned paths and those of them that
/// produced at least one symbol of the Module. Opening a source file is not
/// evidence that it produced semantic facts.
pub fn compute_semantic_source_coverage(ownerships: &[SourceOwnership], symbols: &[SemanticSymbol]) -> (r: Vec<ModuleSourceCoverage>)
    ensures
        views(r@) == canonical_set::<String>(governed_owner_list(views(ownerships@))).map_values(
            |m: Seq<char>| ModuleCoverageModel { module: m, coverage: module_source_coverage(views(ownerships@), views(symbols@), m) },
        ),
{
    let ghost ov = views(ownerships@);
    let mut owners: Vec<String> = Vec::new();
    let mut i: usize = 0;
    while i < ownerships.len()
        invariant
            ov == views(ownerships@),
            i <= ownerships@.len(),
            texts(owners@) == governed_owner_list(ov.take(i as int)),
        decreases ownerships.len() - i,
    {
        let ghost before = owners@;
        assert(ov.take(i + 1).drop_last() =~= ov.take(i as int));
        assert(ov.take(i + 1).last() == ownerships@[i as int]@);
        if ownerships[i].authority == SourceOwnershipAuthority::DeclaredModule {
            owners.push(copy_text(ownerships[i].owner.as_str()));
            assert(texts(owners@) =~= texts(before) + seq![ownerships@[i as int].owner@]);
        } else {
            assert(texts(owners@) =~= texts(before) + Seq::<Seq<char>>::empty());
        }
        i = i + 1;
    }
    assert(ov.take(ownerships@.len() as int) =~= ov);
    proof {
        lemma_texts_are_views(owners@);
    }
    let modules = canonical_set_exec(owners);
    let ghost mv = views(modules@);
    let ghost target = mv.map_values(
        |m: Seq<char>| ModuleCoverageModel { module: m, coverage: module_source_coverage(ov, views(symbols@), m) },
    );
    let mut out: Vec<ModuleSourceCoverage> = Vec::new();
    let mut j: usize = 0;
    while j < modules.len()
        invariant
            ov == views(ownerships@),
            mv == views(modules@),
            target == mv.map_values(
                |m: Seq<char>| ModuleCoverageModel { module: m, coverage: module_source_coverage(ov, views(symbols@), m) },
            ),
            j <= modules@.len(),
            views(out@) == target.take(j as int),
        decreases modules.len() - j,
    {
        let ghost before = out@;
        let m = modules[j].as_str();
        assert(mv[j as int] == m@);
        let entry = ModuleSourceCoverage {
            module: copy_text(m),
            coverage: module_source_coverage_exec(ownerships, symbols, m),
        };
        out.push(entry);
        assert(views(out@) =~= views(before).push(target[j as int]));
        assert(target.take(j + 1) =~= target.take(j as int).push(target[j as int]));
        j = j + 1;
    }
    assert(target.take(modules@.len() as int) =~= target);
    out
}

/// The Module owning each summary's symbol.
pub open spec fn owners_wf(owners: Seq<Option<String>>, symbols: Seq<SymbolModel>, sums: Seq<EffectSummaryModel>) -> bool {
    owners.len() == sums.len() && forall|k: int|
        0 <= k < sums.len() ==> optional_view(#[trigger] owners[k]) == symbol_owner(symbols, sums[k].symbol)
}

fn symbol_owner_exec(symbols: &[SemanticSymbol], id: &str) -> (r: Option<String>)
    ensures
        optional_view(r) == symbol_owner(views(symbols@), id@),
{
    let ghost sv = views(symbols@);
    let mut i: usize = symbols.len();
    assert(sv.take(i as int) =~= sv);
    while i > 0
        invariant
            sv == views(symbols@),
            i <= symbols@.len(),
            symbol_owner(sv, id@) == symbol_owner(sv.take(i as int), id@),
        decreases i,
    {
        i = i - 1;
        assert(sv.take(i + 1).drop_last() =~= sv.take(i as int));
        assert(sv.take(i + 1).last() == symbols@[i as int]@);
        if crate::text::text_eq(symbols[i].id.as_str(), id) {
            return Some(copy_text(symbols[i].fortress_module.as_str()));
        }
    }
    None
}

fn summary_owners(symbols: &[SemanticSymbol], sums: &[EffectSummary]) -> (r: Vec<Option<String>>)
    ensures
        owners_wf(r@, views(symbols@), views(sums@)),
{
    let mut out: Vec<Option<String>> = Vec::new();
    let mut i: usize = 0;
    while i < sums.len()
        invariant
            i <= sums@.len(),
            out@.len() == i,
            forall|k: int|
                0 <= k < i ==> optional_view(#[trigger] out@[k]) == symbol_owner(views(symbols@), sums@[k]@.symbol),
        decreases sums.len() - i,
    {
        out.push(symbol_owner_exec(symbols, sums[i].symbol.as_str()));
        i = i + 1;
    }
    proof {
        assert forall|k: int| 0 <= k < sums@.len() implies optional_view(#[trigger] out@[k]) == symbol_owner(
            views(symbols@),
            views(sums@)[k].symbol,
        ) by {
            assert(views(sums@)[k] == sums@[k]@);
        }
    }
    out
}

fn owned_by(owner: &Option<String>, m: &str) -> (r: bool)
    ensures
        r == (optional_view(*owner) == Some(m@)),
{
    match owner {
        Some(o) => crate::text::text_eq(o.as_str(), m),
        None => false,
    }
}

fn observation_from(m: &str, e: &EffectEvidence) -> (r: ModuleEffectObservation)
    ensures
        r@ == observation_of(m@, e@),
{
    ModuleEffectObservation {
        module: copy_text(m),
        effect: copy_text(e.effect.as_str()),
        capability: copy_optional(&e.capability),
        evidence_kind: e.kind,
        entry_symbol: copy_text(e.entry_symbol.as_str()),
        source_symbol: copy_text(e.source_symbol.as_str()),
        operation: copy_text(e.operation.as_str()),
        authority: copy_text(e.classification_authority.as_str()),
        path: copy_text(e.path.as_str()),
        line: e.line,
        column: e.column,
        call_chain: copy_texts(e.call_chain.as_slice()),
        policy_target_kind: None,
        policy_target: None,
        policy_disposition: None,
    }
}

fn module_raw_observations(
    symbols: &[SemanticSymbol],
    sums: &[EffectSummary],
    owners: &Vec<Option<String>>,
    m: &str,
) -> (r: Vec<ModuleEffectObservation>)
    requires
        owners_wf(owners@, views(symbols@), views(sums@)),
    ensures
        views(r@) == raw_observations(views(symbols@), views(sums@), m@),
{
    let ghost sv = views(symbols@);
    let ghost mv = views(sums@);
    let mut out: Vec<ModuleEffectObservation> = Vec::new();
    let mut i: usize = 0;
    while i < sums.len()
        invariant
            sv == views(symbols@),
            mv == views(sums@),
            owners_wf(owners@, sv, mv),
            i <= sums@.len(),
            views(out@) == raw_observations(sv, mv.take(i as int), m@),
        decreases sums.len() - i,
    {
        assert(mv.take(i + 1).drop_last() =~= mv.take(i as int));
        assert(mv.take(i + 1).last() == sums@[i as int]@);
        assert(optional_view(owners@[i as int]) == symbol_owner(sv, mv[i as int].symbol));
        let ghost base = views(out@);
        if owned_by(&owners[i], m) {
            let ev = &sums[i].effect_evidence;
            let ghost evv = views(ev@);
            let mut j: usize = 0;
            while j < ev.len()
                invariant
                    evv == views(ev@),
                    j <= ev@.len(),
                    views(out@) == base + evidence_observations(m@, evv.take(j as int)),
                decreases ev.len() - j,
            {
                let ghost before = out@;
                out.push(observation_from(m, &ev[j]));
                proof {
                    crate::order::lemma_views_push_seq(before, out@.last());
                    assert(evidence_observations(m@, evv.take(j + 1)) =~= evidence_observations(m@, evv.take(j as int)).push(
                        observation_of(m@, ev@[j as int]@),
                    ));
                    assert(out@ =~= before.push(out@.last()));
                }
                j = j + 1;
            }
            assert(evv.take(ev@.len() as int) =~= evv);
            assert(evv == sums@[i as int]@.effect_evidence);
        } else {
            assert(views(out@) =~= base + Seq::<ObservationModel>::empty());
        }
        i = i + 1;
    }
    assert(mv.take(sums@.len() as int) =~= mv);
    out
}

fn opaque_reason(r: &str) -> (b: bool)
    ensures
        b == is_opaque_reason(r@),
{
    crate::text::starts_with(r, "opaque_call:") || crate::text::starts_with(r, "unclassified_external_operation:")
        || crate::text::text_eq(r, "external_operation_identity_missing") || crate::text::text_eq(r, "transitive_opaque_effect")
}

fn module_raw_opaque(
    symbols: &[SemanticSymbol],
    sums: &[EffectSummary],
    owners: &Vec<Option<String>>,
    m: &str,
) -> (r: Vec<String>)
    requires
        owners_wf(owners@, views(symbols@), views(sums@)),
    ensures
        texts(r@) == raw_opaque(views(symbols@), views(sums@), m@),
{
    let ghost sv = views(symbols@);
    let ghost mv = views(sums@);
    let mut out: Vec<String> = Vec::new();
    let mut i: usize = 0;
    while i < sums.len()
        invariant
            sv == views(symbols@),
            mv == views(sums@),
            owners_wf(owners@, sv, mv),
            i <= sums@.len(),
            texts(out@) == raw_opaque(sv, mv.take(i as int), m@),
        decreases sums.len() - i,
    {
        assert(mv.take(i + 1).drop_last() =~= mv.take(i as int));
        assert(mv.take(i + 1).last() == sums@[i as int]@);
        assert(optional_view(owners@[i as int]) == symbol_owner(sv, mv[i as int].symbol));
        let ghost base = texts(out@);
        if owned_by(&owners[i], m) {
            let rs = &sums[i].uncertainty;
            let ghost rv = texts(rs@);
            let mut j: usize = 0;
            while j < rs.len()
                invariant
                    rv == texts(rs@),
                    j <= rs@.len(),
                    texts(out@) == base + opaque_reasons(rv.take(j as int)),
                decreases rs.len() - j,
            {
                let ghost before = texts(out@);
                assert(rv.take(j + 1).drop_last() =~= rv.take(j as int));
                assert(rv.take(j + 1).last() == rs@[j as int]@);
                if opaque_reason(rs[j].as_str()) {
                    out.push(copy_text(rs[j].as_str()));
                    assert(texts(out@) =~= before + seq![rs@[j as int]@]);
                } else {
                    assert(texts(out@) =~= before + Seq::<Seq<char>>::empty());
                }
                j = j + 1;
            }
            assert(rv.take(rs@.len() as int) =~= rv);
            assert(rv == sums@[i as int]@.uncertainty);
        } else {
            assert(texts(out@) =~= base + Seq::<Seq<char>>::empty());
        }
        i = i + 1;
    }
    assert(mv.take(sums@.len() as int) =~= mv);
    out
}

fn declared_exec(modules: &[GovernedModule], id: &str) -> (r: bool)
    ensures
        r == is_declared(views(modules@), id@),
{
    let ghost gv = views(modules@);
    let mut i: usize = 0;
    while i < modules.len()
        invariant
            gv == views(modules@),
            i <= modules@.len(),
            forall|k: int| 0 <= k < i ==> gv[k].id != id@,
        decreases modules.len() - i,
    {
        assert(gv[i as int] == modules@[i as int]@);
        if crate::text::text_eq(modules[i].id.as_str(), id) {
            assert(gv[i as int].id == id@);
            return true;
        }
        i = i + 1;
    }
    false
}

fn analysis_only_exec(
    modules: &[GovernedModule],
    symbols: &[SemanticSymbol],
    sums: &[EffectSummary],
    owners: &Vec<Option<String>>,
) -> (r: usize)
    requires
        owners_wf(owners@, views(symbols@), views(sums@)),
    ensures
        r == analysis_only(views(modules@), views(symbols@), views(sums@)),
{
    let ghost sv = views(symbols@);
    let ghost mv = views(sums@);
    let mut n: usize = 0;
    let mut i: usize = 0;
    while i < sums.len()
        invariant
            sv == views(symbols@),
            mv == views(sums@),
            owners_wf(owners@, sv, mv),
            i <= sums@.len(),
            n == analysis_only(views(modules@), sv, mv.take(i as int)),
        decreases sums.len() - i,
    {
        assert(mv.take(i + 1).drop_last() =~= mv.take(i as int));
        assert(mv.take(i + 1).last() == sums@[i as int]@);
        assert(optional_view(owners@[i as int]) == symbol_owner(sv, mv[i as int].symbol));
        match &owners[i] {
            Some(o) => {
                if !declared_exec(modules, o.as_str()) {
                    n = n.saturating_add(sums[i].effect_evidence.len());
                    assert(sums@[i as int]@.effect_evidence.len() == sums@[i as int].effect_evidence@.len());
                }
            },
            None => {},
        }
        i = i + 1;
    }
    assert(mv.take(sums@.len() as int) =~= mv);
    n
}

fn set_disposition_exec(set: &SemanticPolicySet, target: &str) -> (r: Option<PolicyDisposition>)
    ensures
        r == set_disposition(set@, target@),
{
    if crate::text::texts_contain(&set.allow, target) {
        Some(PolicyDisposition::Allow)
    } else if crate::text::texts_contain(&set.deny, target) {
        Some(PolicyDisposition::Deny)
    } else {
        None
    }
}

fn governed_exec(p: &ModuleSemanticPolicy, o: ModuleEffectObservation) -> (r: ModuleEffectObservation)
    ensures
        r@ == governed_observation(p@, o@),
{
    let mut o = o;
    match set_disposition_exec(&p.effects, o.effect.as_str()) {
        Some(d) => {
            o.policy_target_kind = Some(PolicyTargetKind::Effect);
            o.policy_target = Some(copy_text(o.effect.as_str()));
            o.policy_disposition = Some(d);
        },
        None => {
            let capability = copy_optional(&o.capability);
            match capability {
                Some(c) => match set_disposition_exec(&p.capabilities, c.as_str()) {
                    Some(d) => {
                        o.policy_target_kind = Some(PolicyTargetKind::Capability);
                        o.policy_target = Some(c);
                        o.policy_disposition = Some(d);
                    },
                    None => {},
                },
                None => {},
            }
        },
    }
    o
}

fn append_claims(out: &mut Vec<PolicyClaim>, kind: PolicyTargetKind, targets: &Vec<String>, d: PolicyDisposition)
    ensures
        views(final(out)@) == views(old(out)@) + claims_of(kind, texts(targets@), d),
{
    let ghost base = views(out@);
    let ghost tv = texts(targets@);
    let mut i: usize = 0;
    while i < targets.len()
        invariant
            tv == texts(targets@),
            i <= targets@.len(),
            views(out@) == base + claims_of(kind, tv.take(i as int), d),
        decreases targets.len() - i,
    {
        let ghost before = out@;
        out.push(PolicyClaim { target_kind: kind, target: copy_text(targets[i].as_str()), disposition: d });
        proof {
            crate::order::lemma_views_push_seq(before, out@.last());
            assert(out@ =~= before.push(out@.last()));
            assert(claims_of(kind, tv.take(i + 1), d) =~= claims_of(kind, tv.take(i as int), d).push(
                ClaimModel { target_kind: kind, target: targets@[i as int]@, disposition: d },
            ));
        }
        i = i + 1;
    }
    assert(tv.take(targets@.len() as int) =~= tv);
}

fn policy_claims_exec(p: &ModuleSemanticPolicy) -> (r: Vec<PolicyClaim>)
    ensures
        views(r@) == policy_claims(p@),
{
    let mut raw: Vec<PolicyClaim> = Vec::new();
    append_claims(&mut raw, PolicyTargetKind::Capability, &p.capabilities.allow, PolicyDisposition::Allow);
    append_claims(&mut raw, PolicyTargetKind::Capability, &p.capabilities.deny, PolicyDisposition::Deny);
    append_claims(&mut raw, PolicyTargetKind::Effect, &p.effects.allow, PolicyDisposition::Allow);
    append_claims(&mut raw, PolicyTargetKind::Effect, &p.effects.deny, PolicyDisposition::Deny);
    assert(views(raw@) =~= claims_of(PolicyTargetKind::Capability, p@.capabilities.allow, PolicyDisposition::Allow)
        + claims_of(PolicyTargetKind::Capability, p@.capabilities.deny, PolicyDisposition::Deny)
        + claims_of(PolicyTargetKind::Effect, p@.effects.allow, PolicyDisposition::Allow)
        + claims_of(PolicyTargetKind::Effect, p@.effects.deny, PolicyDisposition::Deny));
    canonical_set_exec(raw)
}

fn matches_claim_exec(o: &ModuleEffectObservation, c: &PolicyClaim) -> (r: bool)
    ensures
        r == matches_claim(o@, c@),
{
    let kind_matches = match o.policy_target_kind {
        Some(k) => k == c.target_kind,
        None => false,
    };
    let target_matches = match &o.policy_target {
        Some(t) => crate::text::text_eq(t.as_str(), c.target.as_str()),
        None => false,
    };
    let disposition_matches = match o.policy_disposition {
        Some(d) => d == c.disposition,
        None => false,
    };
    kind_matches && target_matches && disposition_matches
}

fn matching_count_exec(os: &Vec<ModuleEffectObservation>, c: &PolicyClaim) -> (n: usize)
    ensures
        n == matching_count(views(os@), c@),
{
    let ghost ov = views(os@);
    let mut n: usize = 0;
    let mut i: usize = 0;
    while i < os.len()
        invariant
            ov == views(os@),
            i <= os@.len(),
            n <= i,
            n == matching_count(ov.take(i as int), c@),
        decreases os.len() - i,
    {
        assert(ov.take(i + 1).drop_last() =~= ov.take(i as int));
        assert(ov.take(i + 1).last() == os@[i as int]@);
        if matches_claim_exec(&os[i], c) {
            n = n + 1;
        }
        i = i + 1;
    }
    assert(ov.take(os@.len() as int) =~= ov);
    n
}

fn conclusion_exec(c: &PolicyClaim, matching: usize, coverage: &SemanticSourceCoverage, opaque: &Vec<String>) -> (r: SemanticPolicyConclusion)
    ensures
        r@ == conclusion_of(c@, matching as nat, coverage@, texts(opaque@)),
{
    let (authorization, conformance, eligibility, reasons) = if c.disposition == PolicyDisposition::Allow {
        (Some(AuthorizationState::Authorised), None, None, Vec::<String>::new())
    } else if matching > 0 {
        (None, Some(SemanticConformanceState::Fail), Some(BlockingEligibility::BlockSupported), Vec::new())
    } else if !coverage.has_governed_subject() {
        (None, Some(SemanticConformanceState::NotApplicable), Some(BlockingEligibility::AdvisoryOnly), Vec::new())
    } else if coverage.has_no_semantic_coverage() {
        let mut v: Vec<String> = Vec::new();
        v.push(copy_text(NO_SEMANTIC_COVERAGE));
        (None, Some(SemanticConformanceState::Unknown), Some(BlockingEligibility::NotEvaluable), v)
    } else if opaque.len() > 0 {
        (None, Some(SemanticConformanceState::Unknown), Some(BlockingEligibility::NotEvaluable), copy_texts(opaque.as_slice()))
    } else {
        (None, Some(SemanticConformanceState::Pass), Some(BlockingEligibility::AdvisoryOnly), Vec::new())
    };
    let r = SemanticPolicyConclusion {
        target_kind: c.target_kind,
        target: copy_text(c.target.as_str()),
        disposition: c.disposition,
        authorization,
        conformance,
        blocking_eligibility: eligibility,
        matching_observations: matching,
        coverage: coverage.duplicate(),
        coverage_reasons: reasons,
    };
    assert(r@.coverage_reasons =~= conclusion_of(c@, matching as nat, coverage@, texts(opaque@)).coverage_reasons);
    r
}

fn module_state_exec(cs: &Vec<SemanticPolicyConclusion>) -> (r: SemanticConformanceState)
    ensures
        r == module_state(views(cs@)),
{
    let ghost cv = views(cs@);
    let mut all_not_applicable = true;
    let mut any_fail = false;
    let mut any_unknown = false;
    let mut i: usize = 0;
    while i < cs.len()
        invariant
            cv == views(cs@),
            i <= cs@.len(),
            all_not_applicable == forall|k: int|
                0 <= k < i && #[trigger] cv[k].disposition == PolicyDisposition::Deny ==> cv[k].conformance == Some(
                    SemanticConformanceState::NotApplicable,
                ),
            any_fail == exists|k: int| 0 <= k < i && #[trigger] cv[k].conformance == Some(SemanticConformanceState::Fail),
            any_unknown == exists|k: int|
                0 <= k < i && #[trigger] cv[k].conformance == Some(SemanticConformanceState::Unknown),
        decreases cs.len() - i,
    {
        assert(cv[i as int] == cs@[i as int]@);
        let c = &cs[i];
        assert(cv[i as int].disposition == c.disposition && cv[i as int].conformance == c.conformance);
        if c.disposition == PolicyDisposition::Deny {
            match c.conformance {
                Some(SemanticConformanceState::NotApplicable) => {},
                _ => {
                    all_not_applicable = false;
                },
            }
        }
        match c.conformance {
            Some(SemanticConformanceState::Fail) => {
                any_fail = true;
            },
            Some(SemanticConformanceState::Unknown) => {
                any_unknown = true;
            },
            _ => {},
        }
        i = i + 1;
    }
    if all_not_applicable {
        SemanticConformanceState::NotApplicable
    } else if any_fail {
        SemanticConformanceState::Fail
    } else if any_unknown {
        SemanticConformanceState::Unknown
    } else {
        SemanticConformanceState::Pass
    }
}

fn ungoverned_exec(os: &Vec<ModuleEffectObservation>) -> (n: usize)
    ensures
        n == ungoverned_count(views(os@)),
{
    let ghost ov = views(os@);
    let mut n: usize = 0;
    let mut i: usize = 0;
    while i < os.len()
        invariant
            ov == views(os@),
            i <= os@.len(),
            n <= i,
            n == ungoverned_count(ov.take(i as int)),
        decreases os.len() - i,
    {
        assert(ov.take(i + 1).drop_last() =~= ov.take(i as int));
        assert(ov.take(i + 1).last() == os@[i as int]@);
        if os[i].policy_disposition.is_none() {
            n = n + 1;
        }
        i = i + 1;
    }
    assert(ov.take(os@.len() as int) =~= ov);
    n
}

fn module_reasons_exec(opaque: &Vec<String>, cs: &Vec<SemanticPolicyConclusion>) -> (r: Vec<String>)
    ensures
        texts(r@) == canonical_set::<String>(texts(opaque@) + conclusion_reasons(views(cs@))),
{
    let ghost cv = views(cs@);
    let mut all = copy_texts(opaque.as_slice());
    let mut i: usize = 0;
    while i < cs.len()
        invariant
            cv == views(cs@),
            i <= cs@.len(),
            texts(all@) == texts(opaque@) + conclusion_reasons(cv.take(i as int)),
        decreases cs.len() - i,
    {
        assert(cv.take(i + 1).drop_last() =~= cv.take(i as int));
        assert(cv.take(i + 1).last() == cs@[i as int]@);
        let ghost before = texts(all@);
        let mut more = copy_texts(cs[i].coverage_reasons.as_slice());
        let ghost added = texts(more@);
        all.append(&mut more);
        assert(texts(all@) =~= before + added);
        i = i + 1;
    }
    assert(cv.take(cs@.len() as int) =~= cv);
    proof {
        lemma_texts_are_views(all@);
    }
    let out = canonical_set_exec(all);
    proof {
        lemma_texts_are_views(out@);
    }
    out
}

fn governed_all(p: &ModuleSemanticPolicy, observed: &Vec<ModuleEffectObservation>) -> (r: Vec<ModuleEffectObservation>)
    ensures
        views(r@) == views(observed@).map_values(|o: ObservationModel| governed_observation(p@, o)),
{
    let ghost ov = views(observed@);
    let mut out: Vec<ModuleEffectObservation> = Vec::new();
    let mut i: usize = 0;
    while i < observed.len()
        invariant
            ov == views(observed@),
            i <= observed@.len(),
            views(out@) == ov.take(i as int).map_values(|o: ObservationModel| governed_observation(p@, o)),
        decreases observed.len() - i,
    {
        let ghost before = out@;
        let g = governed_exec(p, observed[i].duplicate());
        out.push(g);
        proof {
            crate::order::lemma_views_push_seq(before, g);
            assert(ov.take(i + 1).map_values(|o: ObservationModel| governed_observation(p@, o)) =~= ov.take(
                i as int,
            ).map_values(|o: ObservationModel| governed_observation(p@, o)).push(governed_observation(p@, ov[i as int])));
        }
        i = i + 1;
    }
    assert(ov.take(observed@.len() as int) =~= ov);
    out
}

fn conclusions_all(
    claims: &Vec<PolicyClaim>,
    observations: &Vec<ModuleEffectObservation>,
    coverage: &SemanticSourceCoverage,
    opaque: &Vec<String>,
) -> (r: Vec<SemanticPolicyConclusion>)
    ensures
        views(r@) == views(claims@).map_values(
            |c: ClaimModel| conclusion_of(c, matching_count(views(observations@), c), coverage@, texts(opaque@)),
        ),
{
    let ghost cv = views(claims@);
    let ghost target = cv.map_values(
        |c: ClaimModel| conclusion_of(c, matching_count(views(observations@), c), coverage@, texts(opaque@)),
    );
    let mut out: Vec<SemanticPolicyConclusion> = Vec::new();
    let mut j: usize = 0;
    while j < claims.len()
        invariant
            cv == views(claims@),
            target == cv.map_values(
                |c: ClaimModel| conclusion_of(c, matching_count(views(observations@), c), coverage@, texts(opaque@)),
            ),
            j <= claims@.len(),
            views(out@) == target.take(j as int),
        decreases claims.len() - j,
    {
        let ghost before = out@;
        assert(cv[j as int] == claims@[j as int]@);
        let n = matching_count_exec(observations, &claims[j]);
        let c = conclusion_exec(&claims[j], n, coverage, opaque);
        out.push(c);
        proof {
            crate::order::lemma_views_push_seq(before, c);
            assert(target.take(j + 1) =~= target.take(j as int).push(target[j as int]));
        }
        j = j + 1;
    }
    assert(target.take(claims@.len() as int) =~= target);
    out
}

fn evaluate_module(
    m: &GovernedModule,
    symbols: &[SemanticSymbol],
    sums: &[EffectSummary],
    owners: &Vec<Option<String>>,
    own: &[SourceOwnership],
) -> (r: ModuleSemanticConformance)
    requires
        owners_wf(owners@, views(symbols@), views(sums@)),
    ensures
        r@ == module_result(m@, views(symbols@), views(sums@), module_source_coverage(views(own@), views(symbols@), m@.id)),
{
    let id = m.id.as_str();
    let coverage = module_source_coverage_exec(own, symbols, id);
    let raw = module_raw_observations(symbols, sums, owners, id);
    let observed = canonical_set_exec(raw);
    let raw_opaque_reasons = module_raw_opaque(symbols, sums, owners, id);
    proof {
        lemma_texts_are_views(raw_opaque_reasons@);
    }
    let opaque = canonical_set_exec(raw_opaque_reasons);
    proof {
        lemma_texts_are_views(opaque@);
    }
    match &m.semantic_policy {
        Some(p) => {
            let observations = governed_all(p, &observed);
            let claims = policy_claims_exec(p);
            let conclusions = conclusions_all(&claims, &observations, &coverage, &opaque);
            let state = module_state_exec(&conclusions);
            let ungoverned = ungoverned_exec(&observations);
            let reasons = module_reasons_exec(&opaque, &conclusions);
            ModuleSemanticConformance {
                module: copy_text(id),
                contract_path: copy_text(m.contract_path.as_str()),
                policy_state: copy_text("DECLARED"),
                state,
                conclusions,
                observations,
                ungoverned_observations: ungoverned,
                coverage,
                coverage_reasons: reasons,
            }
        },
        None => {
            let n = observed.len();
            let copied = copy_texts(opaque.as_slice());
            proof {
                lemma_texts_are_views(copied@);
            }
            let reasons = canonical_set_exec(copied);
            proof {
                lemma_texts_are_views(reasons@);
            }
            let r = ModuleSemanticConformance {
                module: copy_text(id),
                contract_path: copy_text(m.contract_path.as_str()),
                policy_state: copy_text("UNDECLARED"),
                state: SemanticConformanceState::NotApplicable,
                conclusions: Vec::new(),
                observations: observed,
                ungoverned_observations: n,
                coverage,
                coverage_reasons: reasons,
            };
            assert(r@.conclusions =~= Seq::<ConclusionModel>::empty());
            r
        },
    }
}

fn forbidden_code_exec(k: PolicyTargetKind) -> (r: &'static str)
    ensures
        r@ == forbidden_code(k),
{
    match k {
        PolicyTargetKind::Capability => "FORBIDDEN_CAPABILITY_EXERCISED",
        PolicyTargetKind::Effect => "FORBIDDEN_EFFECT_EXERCISED",
    }
}

fn forbidden_finding_exec(module: &str, k: PolicyTargetKind, target: &str, o: &ModuleEffectObservation) -> (r: SemanticFinding)
    ensures
        r@ == forbidden_finding_of(module@, k, target@, o@),
{
    let code = forbidden_code_exec(k);
    let material = concat(code, "\0");
    let material = concat(material.as_str(), module);
    let material = concat(material.as_str(), "\0");
    let material = concat(material.as_str(), target);
    let material = concat(material.as_str(), "\0");
    let material = concat(material.as_str(), o.entry_symbol.as_str());
    let material = concat(material.as_str(), "\0");
    let material = concat(material.as_str(), o.source_symbol.as_str());
    let material = concat(material.as_str(), "\0");
    let material = concat(material.as_str(), o.operation.as_str());
    let material = concat(material.as_str(), "\0");
    let chain = crate::text::join(o.call_chain.as_slice(), "\0");
    let material = concat(material.as_str(), chain.as_str());
    let digest = crate::codec::sha256_text(material.as_str());
    let discriminator = concat(code, ":");
    let discriminator = concat(discriminator.as_str(), digest.as_str());
    let noun = match k {
        PolicyTargetKind::Capability => "capability",
        PolicyTargetKind::Effect => "effect",
    };
    let evidence = match o.evidence_kind {
        EffectEvidenceKind::Direct => "direct",
        EffectEvidenceKind::Transitive => "transitive",
    };
    let message = concat("Module `", module);
    let message = concat(message.as_str(), "` explicitly forbids ");
    let message = concat(message.as_str(), noun);
    let message = concat(message.as_str(), " `");
    let message = concat(message.as_str(), target);
    let message = concat(message.as_str(), "`, but `");
    let message = concat(message.as_str(), o.entry_symbol.as_str());
    let message = concat(message.as_str(), "` produces `");
    let message = concat(message.as_str(), o.operation.as_str());
    let message = concat(message.as_str(), "` through ");
    let message = concat(message.as_str(), evidence);
    let message = concat(message.as_str(), " evidence along `");
    let arrows = crate::text::join(o.call_chain.as_slice(), " -> ");
    let message = concat(message.as_str(), arrows.as_str());
    let message = concat(message.as_str(), "`");
    SemanticFinding {
        module: copy_text(module),
        discriminator,
        message,
        remediation: copy_text(REMEDIATION),
        path: copy_text(o.path.as_str()),
        position: Some((o.line, o.column)),
        symbol: Some(copy_text(o.entry_symbol.as_str())),
    }
}

fn coverage_finding_exec(module: &str, contract_path: &str, c: &SemanticPolicyConclusion) -> (r: SemanticFinding)
    ensures
        r@ == coverage_finding_of(module@, contract_path@, c@),
{
    let tag = match c.target_kind {
        PolicyTargetKind::Capability => "CAPABILITY",
        PolicyTargetKind::Effect => "EFFECT",
    };
    let discriminator = concat("SEMANTIC_POLICY_NOT_EVALUABLE:", tag);
    let discriminator = concat(discriminator.as_str(), ":");
    let discriminator = concat(discriminator.as_str(), c.target.as_str());
    let only_no_coverage = c.coverage_reasons.len() == 1 && crate::text::text_eq(
        c.coverage_reasons[0].as_str(),
        NO_SEMANTIC_COVERAGE,
    );
    proof {
        if only_no_coverage {
            assert(c@.coverage_reasons =~= seq![NO_SEMANTIC_COVERAGE@]);
        }
        if c@.coverage_reasons == seq![NO_SEMANTIC_COVERAGE@] {
            assert(texts(c.coverage_reasons@).len() == c.coverage_reasons@.len());
            assert(c.coverage_reasons@.len() == 1);
            assert(texts(c.coverage_reasons@)[0] == c.coverage_reasons@[0]@);
        }
    }
    let message = concat("Module `", module);
    let message = concat(message.as_str(), "` policy for `");
    let message = concat(message.as_str(), c.target.as_str());
    let message = if only_no_coverage {
        let message = concat(message.as_str(), "` is UNKNOWN because the Module owns ");
        let message = concat(message.as_str(), decimal(c.coverage.governed_source_files as u64).as_str());
        concat(
            message.as_str(),
            " governed source file(s), but the PSM produced semantic symbols for none of them (NO_SEMANTIC_COVERAGE)",
        )
    } else {
        let message = concat(message.as_str(), "` is UNKNOWN because claim-relevant semantic operations remain opaque: ");
        let reasons = crate::text::join(c.coverage_reasons.as_slice(), ", ");
        concat(message.as_str(), reasons.as_str())
    };
    SemanticFinding {
        module: copy_text(module),
        discriminator,
        message,
        remediation: copy_text(COVERAGE_REMEDIATION),
        path: copy_text(contract_path),
        position: None,
        symbol: None,
    }
}

fn claim_findings_exec(module: &str, c: &SemanticPolicyConclusion, os: &Vec<ModuleEffectObservation>, out: &mut Vec<SemanticFinding>)
    ensures
        views(final(out)@) == views(old(out)@) + claim_findings(module@, c@, views(os@)),
{
    let ghost base = views(out@);
    let ghost ov = views(os@);
    let claim = PolicyClaim { target_kind: c.target_kind, target: copy_text(c.target.as_str()), disposition: c.disposition };
    let mut i: usize = 0;
    while i < os.len()
        invariant
            ov == views(os@),
            i <= os@.len(),
            claim@ == (ClaimModel { target_kind: c@.target_kind, target: c@.target, disposition: c@.disposition }),
            views(out@) == base + claim_findings(module@, c@, ov.take(i as int)),
        decreases os.len() - i,
    {
        let ghost before = out@;
        assert(ov.take(i + 1).drop_last() =~= ov.take(i as int));
        assert(ov.take(i + 1).last() == os@[i as int]@);
        if matches_claim_exec(&os[i], &claim) {
            let f = forbidden_finding_exec(module, c.target_kind, c.target.as_str(), &os[i]);
            out.push(f);
            proof {
                crate::order::lemma_views_push_seq(before, f);
            }
            assert(views(out@) =~= views(before) + seq![f@]);
        } else {
            assert(views(out@) =~= views(before) + Seq::<FindingModel>::empty());
        }
        i = i + 1;
    }
    assert(ov.take(os@.len() as int) =~= ov);
}

fn module_findings_exec(r: &ModuleSemanticConformance, forbidden: &mut Vec<SemanticFinding>, unknown: &mut Vec<SemanticFinding>)
    ensures
        views(final(forbidden)@) == views(old(forbidden)@) + conclusions_forbidden(r@.module, r@.conclusions, r@.observations),
        views(final(unknown)@) == views(old(unknown)@) + conclusions_unknown(r@.module, r@.contract_path, r@.conclusions),
{
    let ghost fbase = views(forbidden@);
    let ghost ubase = views(unknown@);
    let ghost cv = views(r.conclusions@);
    let mut i: usize = 0;
    while i < r.conclusions.len()
        invariant
            cv == views(r.conclusions@),
            cv == r@.conclusions,
            i <= r.conclusions@.len(),
            views(forbidden@) == fbase + conclusions_forbidden(r@.module, cv.take(i as int), r@.observations),
            views(unknown@) == ubase + conclusions_unknown(r@.module, r@.contract_path, cv.take(i as int)),
        decreases r.conclusions.len() - i,
    {
        assert(cv.take(i + 1).drop_last() =~= cv.take(i as int));
        assert(cv.take(i + 1).last() == r.conclusions@[i as int]@);
        let c = &r.conclusions[i];
        let ghost fbefore = views(forbidden@);
        if c.disposition == PolicyDisposition::Deny {
            claim_findings_exec(r.module.as_str(), c, &r.observations, forbidden);
            assert(views(forbidden@) =~= fbefore + claim_findings(r@.module, c@, r@.observations));
        } else {
            assert(views(forbidden@) =~= fbefore + Seq::<FindingModel>::empty());
        }
        let ghost ubefore = views(unknown@);
        match c.conformance {
            Some(SemanticConformanceState::Unknown) => {
                let f = coverage_finding_exec(r.module.as_str(), r.contract_path.as_str(), c);
                let ghost u0 = unknown@;
                unknown.push(f);
                proof {
                    crate::order::lemma_views_push_seq(u0, f);
                }
                assert(views(unknown@) =~= ubefore + seq![f@]);
            },
            _ => {
                assert(views(unknown@) =~= ubefore + Seq::<FindingModel>::empty());
            },
        }
        i = i + 1;
    }
    assert(cv.take(r.conclusions@.len() as int) =~= cv);
}

fn zero_summary() -> (r: SemanticConformanceSummary)
    ensures
        r@ == zero_counts(),
{
    SemanticConformanceSummary {
        declared_modules: 0,
        modules_with_policy: 0,
        modules_passed: 0,
        modules_failed: 0,
        modules_unknown: 0,
        modules_not_applicable: 0,
        authored_authorizations: 0,
        authorizations_with_observed_usage: 0,
        authorization_observations: 0,
        evaluative_deny_claims: 0,
        deny_claims_passed: 0,
        deny_claims_failed: 0,
        deny_claims_unknown: 0,
        deny_claims_not_applicable: 0,
        supported_observations: 0,
        governed_observations: 0,
        ungoverned_observations: 0,
        analysis_only_observations: 0,
        forbidden_capability_findings: 0,
        forbidden_effect_findings: 0,
        not_evaluable_findings: 0,
        no_semantic_coverage_claims: 0,
    }
}

fn add_summary(a: SemanticConformanceSummary, b: SemanticConformanceSummary) -> (r: SemanticConformanceSummary)
    ensures
        r@ == add_counts(a@, b@),
{
    SemanticConformanceSummary {
        declared_modules: a.declared_modules.saturating_add(b.declared_modules),
        modules_with_policy: a.modules_with_policy.saturating_add(b.modules_with_policy),
        modules_passed: a.modules_passed.saturating_add(b.modules_passed),
        modules_failed: a.modules_failed.saturating_add(b.modules_failed),
        modules_unknown: a.modules_unknown.saturating_add(b.modules_unknown),
        modules_not_applicable: a.modules_not_applicable.saturating_add(b.modules_not_applicable),
        authored_authorizations: a.authored_authorizations.saturating_add(b.authored_authorizations),
        authorizations_with_observed_usage: a.authorizations_with_observed_usage.saturating_add(b.authorizations_with_observed_usage),
        authorization_observations: a.authorization_observations.saturating_add(b.authorization_observations),
        evaluative_deny_claims: a.evaluative_deny_claims.saturating_add(b.evaluative_deny_claims),
        deny_claims_passed: a.deny_claims_passed.saturating_add(b.deny_claims_passed),
        deny_claims_failed: a.deny_claims_failed.saturating_add(b.deny_claims_failed),
        deny_claims_unknown: a.deny_claims_unknown.saturating_add(b.deny_claims_unknown),
        deny_claims_not_applicable: a.deny_claims_not_applicable.saturating_add(b.deny_claims_not_applicable),
        supported_observations: a.supported_observations.saturating_add(b.supported_observations),
        governed_observations: a.governed_observations.saturating_add(b.governed_observations),
        ungoverned_observations: a.ungoverned_observations.saturating_add(b.ungoverned_observations),
        analysis_only_observations: a.analysis_only_observations.saturating_add(b.analysis_only_observations),
        forbidden_capability_findings: a.forbidden_capability_findings.saturating_add(b.forbidden_capability_findings),
        forbidden_effect_findings: a.forbidden_effect_findings.saturating_add(b.forbidden_effect_findings),
        not_evaluable_findings: a.not_evaluable_findings.saturating_add(b.not_evaluable_findings),
        no_semantic_coverage_claims: a.no_semantic_coverage_claims.saturating_add(b.no_semantic_coverage_claims),
    }
}

fn one_if_exec(b: bool) -> (r: usize)
    ensures
        r == one_if(b),
{
    if b {
        1
    } else {
        0
    }
}

fn conclusion_counts_exec(c: &SemanticPolicyConclusion) -> (r: SemanticConformanceSummary)
    ensures
        r@ == conclusion_counts(c@),
{
    let allow = c.disposition == PolicyDisposition::Allow;
    let (some, pass, fail, unknown, not_applicable) = match c.conformance {
        Some(SemanticConformanceState::Pass) => (true, true, false, false, false),
        Some(SemanticConformanceState::Fail) => (true, false, true, false, false),
        Some(SemanticConformanceState::Unknown) => (true, false, false, true, false),
        Some(SemanticConformanceState::NotApplicable) => (true, false, false, false, true),
        None => (false, false, false, false, false),
    };
    let only_no_coverage = c.coverage_reasons.len() == 1 && crate::text::text_eq(
        c.coverage_reasons[0].as_str(),
        NO_SEMANTIC_COVERAGE,
    );
    proof {
        if only_no_coverage {
            assert(c@.coverage_reasons =~= seq![NO_SEMANTIC_COVERAGE@]);
        }
        if c@.coverage_reasons == seq![NO_SEMANTIC_COVERAGE@] {
            assert(texts(c.coverage_reasons@).len() == c.coverage_reasons@.len());
            assert(texts(c.coverage_reasons@)[0] == c.coverage_reasons@[0]@);
        }
    }
    let mut r = zero_summary();
    r.authored_authorizations = one_if_exec(allow);
    r.authorizations_with_observed_usage = one_if_exec(allow && c.matching_observations > 0);
    r.authorization_observations = if allow {
        c.matching_observations
    } else {
        0
    };
    r.evaluative_deny_claims = one_if_exec(some);
    r.deny_claims_passed = one_if_exec(pass);
    r.deny_claims_failed = one_if_exec(fail);
    r.deny_claims_unknown = one_if_exec(unknown);
    r.deny_claims_not_applicable = one_if_exec(not_applicable);
    r.not_evaluable_findings = one_if_exec(unknown);
    r.no_semantic_coverage_claims = one_if_exec(unknown && only_no_coverage);
    r
}

fn result_counts_exec(m: &ModuleSemanticConformance) -> (r: SemanticConformanceSummary)
    ensures
        r@ == result_counts(m@),
{
    let ghost cv = views(m.conclusions@);
    let mut acc = zero_summary();
    let mut i: usize = 0;
    while i < m.conclusions.len()
        invariant
            cv == views(m.conclusions@),
            i <= m.conclusions@.len(),
            acc@ == conclusions_counts(cv.take(i as int)),
        decreases m.conclusions.len() - i,
    {
        assert(cv.take(i + 1).drop_last() =~= cv.take(i as int));
        assert(cv.take(i + 1).last() == m.conclusions@[i as int]@);
        acc = add_summary(acc, conclusion_counts_exec(&m.conclusions[i]));
        i = i + 1;
    }
    assert(cv.take(m.conclusions@.len() as int) =~= cv);
    let declared = crate::text::text_eq(m.policy_state.as_str(), "DECLARED");
    let mut part = zero_summary();
    part.modules_with_policy = one_if_exec(declared);
    part.modules_passed = one_if_exec(m.state == SemanticConformanceState::Pass);
    part.modules_failed = one_if_exec(m.state == SemanticConformanceState::Fail);
    part.modules_unknown = one_if_exec(m.state == SemanticConformanceState::Unknown);
    part.modules_not_applicable = one_if_exec(m.state == SemanticConformanceState::NotApplicable);
    part.supported_observations = m.observations.len();
    part.governed_observations = m.observations.len().saturating_sub(m.ungoverned_observations);
    part.ungoverned_observations = m.ungoverned_observations;
    add_summary(acc, part)
}

fn code_count_exec(fs: &Vec<SemanticFinding>, code: &str) -> (n: usize)
    ensures
        n == code_count(views(fs@), code@),
{
    let ghost fv = views(fs@);
    let mut n: usize = 0;
    let mut i: usize = 0;
    while i < fs.len()
        invariant
            fv == views(fs@),
            i <= fs@.len(),
            n <= i,
            n == code_count(fv.take(i as int), code@),
        decreases fs.len() - i,
    {
        assert(fv.take(i + 1).drop_last() =~= fv.take(i as int));
        assert(fv.take(i + 1).last() == fs@[i as int]@);
        if crate::text::starts_with(fs[i].discriminator.as_str(), code) {
            n = n + 1;
        }
        i = i + 1;
    }
    assert(fv.take(fs@.len() as int) =~= fv);
    n
}

fn convergence_exec(r: &crate::architecture::realization::ReconciliationRecord) -> (c: DependencyConvergence)
    ensures
        c@ == convergence_of(r@),
{
    let state = match r.state() {
        ReconciliationState::DeclaredAndObserved => DependencyConvergenceState::Convergence,
        ReconciliationState::ObservedUndeclared => DependencyConvergenceState::Divergence,
        ReconciliationState::ObservedTransitiveBypass => DependencyConvergenceState::Divergence,
        ReconciliationState::DeclaredUnobserved => DependencyConvergenceState::Absence,
        ReconciliationState::External => DependencyConvergenceState::Unmatched,
        ReconciliationState::Unresolved => DependencyConvergenceState::Unknown,
    };
    DependencyConvergence {
        source_module: copy_text(r.source_module()),
        target_module: match r.target_module() {
            Some(t) => Some(copy_text(t)),
            None => None,
        },
        external_target: match r.external_target() {
            Some(t) => Some(copy_text(t)),
            None => None,
        },
        state,
        declared_capabilities: copy_texts(r.declared_capabilities()),
        declared_path: copy_texts(r.declared_path()),
    }
}

/// Abstract value of the upstream digests.
pub struct DigestsModel {
    pub ccg: Seq<char>,
    pub psm: Seq<char>,
    pub state_effect: Seq<char>,
}

/// Canonical digests of the contract coherency graph, the program semantic
/// model and the state/effect analysis that the evaluation is bound to.
#[derive(Debug)]
pub struct UpstreamDigests {
    ccg: String,
    psm: String,
    state_effect: String,
}

impl View for UpstreamDigests {
    type V = DigestsModel;

    closed spec fn view(&self) -> DigestsModel {
        DigestsModel { ccg: self.ccg@, psm: self.psm@, state_effect: self.state_effect@ }
    }
}

impl UpstreamDigests {
    /// Records the upstream digests.
    pub fn new(ccg: String, psm: String, state_effect: String) -> (r: Self)
        ensures
            r@ == (DigestsModel { ccg: ccg@, psm: psm@, state_effect: state_effect@ }),
    {
        UpstreamDigests { ccg, psm, state_effect }
    }
}

/// Declared Modules come in strictly increasing identity order, and no
/// authored policy list names a target twice.
pub open spec fn modules_wf(ms: Seq<GovernedModel>) -> bool {
    &&& crate::text::strictly_sorted(ms.map_values(|m: GovernedModel| m.id))
    &&& forall|i: int|
        0 <= i < ms.len() ==> match #[trigger] ms[i].policy {
            Some(p) => p.capabilities.allow.no_duplicates() && p.capabilities.deny.no_duplicates()
                && p.effects.allow.no_duplicates() && p.effects.deny.no_duplicates(),
            None => true,
        }
}

/// The Module conclusions of every declared Module, in Module order.
pub open spec fn module_results(
    ms: Seq<GovernedModel>,
    symbols: Seq<SymbolModel>,
    sums: Seq<EffectSummaryModel>,
    own: Seq<OwnershipModel>,
) -> Seq<ModuleConformanceModel> {
    ms.map_values(|m: GovernedModel| module_result(m, symbols, sums, module_source_coverage(own, symbols, m.id)))
}

/// The complete evaluation of the given declared Modules and evidence.
pub open spec fn evaluation_of(
    ms: Seq<GovernedModel>,
    symbols: Seq<SymbolModel>,
    sums: Seq<EffectSummaryModel>,
    realization: crate::architecture::realization::RealizationModel,
    own: Seq<OwnershipModel>,
    project_id: Option<Seq<char>>,
    standard_edition: Seq<char>,
    digests: DigestsModel,
) -> EvaluationModel {
    let results = module_results(ms, symbols, sums, own);
    let findings = canonical_set::<SemanticFinding>(all_forbidden(results));
    EvaluationModel {
        model: ConformanceModelView {
            schema: SEMANTIC_CONFORMANCE_SCHEMA@,
            schema_version: SEMANTIC_CONFORMANCE_SCHEMA_VERSION,
            semantic_version: SEMANTIC_CONFORMANCE_VERSION@,
            project_id,
            standard_edition,
            ccg_digest: digests.ccg,
            psm_digest: digests.psm,
            state_effect_digest: digests.state_effect,
            modules: results,
            dependency_convergence: realization.records.map_values(
                |r: crate::architecture::realization::RecordModel| convergence_of(r),
            ),
            summary: summary_of(ms.len(), results, analysis_only(ms, symbols, sums), findings),
            unsupported_semantics: semantic_unsupported(),
        },
        findings,
        coverage_findings: canonical_set::<SemanticFinding>(all_unknown(results)),
    }
}

/// The discriminator starts with exactly one of the two forbidden-exercise
/// codes.
pub open spec fn forbidden_shaped(f: FindingModel) -> bool {
    crate::text::is_prefix("FORBIDDEN_CAPABILITY_EXERCISED:"@, f.discriminator) != crate::text::is_prefix(
        "FORBIDDEN_EFFECT_EXERCISED:"@,
        f.discriminator,
    )
}

proof fn lemma_forbidden_finding_shaped(module: Seq<char>, k: PolicyTargetKind, target: Seq<char>, o: ObservationModel)
    ensures
        forbidden_shaped(forbidden_finding_of(module, k, target, o)),
{
    reveal_strlit("FORBIDDEN_CAPABILITY_EXERCISED");
    reveal_strlit("FORBIDDEN_EFFECT_EXERCISED");
    reveal_strlit("FORBIDDEN_CAPABILITY_EXERCISED:");
    reveal_strlit("FORBIDDEN_EFFECT_EXERCISED:");
    reveal_strlit(":");
    let f = forbidden_finding_of(module, k, target, o);
    let d = f.discriminator;
    let rest = crate::codec::sha256_identity_of(vstd::utf8::encode_utf8(forbidden_material(module, k, target, o)));
    let head = forbidden_code(k) + ":"@;
    assert(d == head + rest);
    assert(d.subrange(0, head.len() as int) =~= head);
    let cap = "FORBIDDEN_CAPABILITY_EXERCISED:"@;
    let eff = "FORBIDDEN_EFFECT_EXERCISED:"@;
    match k {
        PolicyTargetKind::Capability => {
            assert(head =~= cap);
            assert(d[10] == 'C');
            if crate::text::is_prefix(eff, d) {
                assert(d.subrange(0, eff.len() as int)[10] == eff[10]);
            }
        },
        PolicyTargetKind::Effect => {
            assert(head =~= eff);
            assert(d[10] == 'E');
            if crate::text::is_prefix(cap, d) {
                assert(d.subrange(0, cap.len() as int)[10] == cap[10]);
            }
        },
    }
}

proof fn lemma_claim_findings_shaped(module: Seq<char>, c: ConclusionModel, os: Seq<ObservationModel>)
    ensures
        forall|i: int| 0 <= i < claim_findings(module, c, os).len() ==> forbidden_shaped(#[trigger] claim_findings(module, c, os)[i]),
    decreases os.len(),
{
    if os.len() > 0 {
        lemma_claim_findings_shaped(module, c, os.drop_last());
        lemma_forbidden_finding_shaped(module, c.target_kind, c.target, os.last());
        let prev = claim_findings(module, c, os.drop_last());
        let all = claim_findings(module, c, os);
        assert forall|i: int| 0 <= i < all.len() implies forbidden_shaped(#[trigger] all[i]) by {
            if i < prev.len() {
                assert(all[i] == prev[i]);
            }
        }
    }
}

proof fn lemma_conclusions_forbidden_shaped(module: Seq<char>, cs: Seq<ConclusionModel>, os: Seq<ObservationModel>)
    ensures
        forall|i: int|
            0 <= i < conclusions_forbidden(module, cs, os).len() ==> forbidden_shaped(
                #[trigger] conclusions_forbidden(module, cs, os)[i],
            ),
    decreases cs.len(),
{
    if cs.len() > 0 {
        lemma_conclusions_forbidden_shaped(module, cs.drop_last(), os);
        lemma_claim_findings_shaped(module, cs.last(), os);
        let prev = conclusions_forbidden(module, cs.drop_last(), os);
        let all = conclusions_forbidden(module, cs, os);
        let tail = if cs.last().disposition == PolicyDisposition::Deny {
            claim_findings(module, cs.last(), os)
        } else {
            Seq::empty()
        };
        assert(all == prev + tail);
        assert forall|i: int| 0 <= i < all.len() implies forbidden_shaped(#[trigger] all[i]) by {
            if i < prev.len() {
                assert(all[i] == prev[i]);
            } else {
                assert(all[i] == tail[i - prev.len()]);
            }
        }
    }
}

proof fn lemma_all_forbidden_shaped(rs: Seq<ModuleConformanceModel>)
    ensures
        forall|i: int| 0 <= i < all_forbidden(rs).len() ==> forbidden_shaped(#[trigger] all_forbidden(rs)[i]),
    decreases rs.len(),
{
    if rs.len() > 0 {
        lemma_all_forbidden_shaped(rs.drop_last());
        let r = rs.last();
        lemma_conclusions_forbidden_shaped(r.module, r.conclusions, r.observations);
        let prev = all_forbidden(rs.drop_last());
        let tail = conclusions_forbidden(r.module, r.conclusions, r.observations);
        let all = all_forbidden(rs);
        assert forall|i: int| 0 <= i < all.len() implies forbidden_shaped(#[trigger] all[i]) by {
            if i < prev.len() {
                assert(all[i] == prev[i]);
            } else {
                assert(all[i] == tail[i - prev.len()]);
            }
        }
    }
}

proof fn lemma_code_counts_partition(fs: Seq<FindingModel>)
    requires
        forall|i: int| 0 <= i < fs.len() ==> forbidden_shaped(#[trigger] fs[i]),
    ensures
        code_count(fs, "FORBIDDEN_CAPABILITY_EXERCISED:"@) + code_count(fs, "FORBIDDEN_EFFECT_EXERCISED:"@) == fs.len(),
    decreases fs.len(),
{
    if fs.len() > 0 {
        assert forall|i: int| 0 <= i < fs.drop_last().len() implies forbidden_shaped(#[trigger] fs.drop_last()[i]) by {
            assert(fs.drop_last()[i] == fs[i]);
        }
        lemma_code_counts_partition(fs.drop_last());
        assert(forbidden_shaped(fs[fs.len() - 1]));
    }
}

proof fn lemma_conclusion_deny_counts(cs: Seq<ConclusionModel>)
    requires
        conclusions_counts(cs).evaluative_deny_claims < usize::MAX,
    ensures
        conclusions_counts(cs).deny_claims_passed + conclusions_counts(cs).deny_claims_failed
            + conclusions_counts(cs).deny_claims_unknown + conclusions_counts(cs).deny_claims_not_applicable
            == conclusions_counts(cs).evaluative_deny_claims,
        conclusions_counts(cs).modules_passed == 0,
        conclusions_counts(cs).modules_failed == 0,
        conclusions_counts(cs).modules_unknown == 0,
        conclusions_counts(cs).modules_not_applicable == 0,
    decreases cs.len(),
{
    if cs.len() > 0 {
        let prev = conclusions_counts(cs.drop_last());
        let c = conclusion_counts(cs.last());
        assert(prev.evaluative_deny_claims + c.evaluative_deny_claims < usize::MAX);
        lemma_conclusion_deny_counts(cs.drop_last());
        match cs.last().conformance {
            Some(SemanticConformanceState::Pass) => {},
            Some(SemanticConformanceState::Fail) => {},
            Some(SemanticConformanceState::Unknown) => {},
            Some(SemanticConformanceState::NotApplicable) => {},
            None => {},
        }
        assert(c.deny_claims_passed + c.deny_claims_failed + c.deny_claims_unknown + c.deny_claims_not_applicable
            == c.evaluative_deny_claims);
    }
}

proof fn lemma_results_counts(rs: Seq<ModuleConformanceModel>)
    requires
        rs.len() <= usize::MAX,
        results_counts(rs).evaluative_deny_claims < usize::MAX,
    ensures
        results_counts(rs).modules_passed + results_counts(rs).modules_failed + results_counts(rs).modules_unknown
            + results_counts(rs).modules_not_applicable == rs.len(),
        results_counts(rs).deny_claims_passed + results_counts(rs).deny_claims_failed
            + results_counts(rs).deny_claims_unknown + results_counts(rs).deny_claims_not_applicable
            == results_counts(rs).evaluative_deny_claims,
    decreases rs.len(),
{
    if rs.len() > 0 {
        lemma_results_counts(rs.drop_last());
        lemma_conclusion_deny_counts(rs.last().conclusions);
    }
}

proof fn lemma_conclusions_not_evaluable(module: Seq<char>, contract_path: Seq<char>, cs: Seq<ConclusionModel>)
    requires
        conclusions_unknown(module, contract_path, cs).len() < usize::MAX,
    ensures
        conclusions_counts(cs).not_evaluable_findings == conclusions_unknown(module, contract_path, cs).len(),
    decreases cs.len(),
{
    if cs.len() > 0 {
        lemma_conclusions_not_evaluable(module, contract_path, cs.drop_last());
    }
}

proof fn lemma_results_not_evaluable(rs: Seq<ModuleConformanceModel>)
    requires
        all_unknown(rs).len() < usize::MAX,
    ensures
        results_counts(rs).not_evaluable_findings == all_unknown(rs).len(),
    decreases rs.len(),
{
    if rs.len() > 0 {
        let r = rs.last();
        lemma_results_not_evaluable(rs.drop_last());
        lemma_conclusions_not_evaluable(r.module, r.contract_path, r.conclusions);
    }
}

/// Every coverage finding is counted once as not evaluable: the summary's
/// not-evaluable count is the number of coverage findings, for evaluations
/// whose Modules raise no two identical coverage findings and whose count
/// stays below the machine bound.
pub proof fn lemma_not_evaluable_counts_coverage_findings(
    ms: Seq<GovernedModel>,
    symbols: Seq<SymbolModel>,
    sums: Seq<EffectSummaryModel>,
    realization: crate::architecture::realization::RealizationModel,
    own: Seq<OwnershipModel>,
    project_id: Option<Seq<char>>,
    standard_edition: Seq<char>,
    digests: DigestsModel,
)
    requires
        all_unknown(module_results(ms, symbols, sums, own)).len() < usize::MAX,
        all_unknown(module_results(ms, symbols, sums, own)).no_duplicates(),
    ensures
        ({
            let e = evaluation_of(ms, symbols, sums, realization, own, project_id, standard_edition, digests);
            e.model.summary.not_evaluable_findings == e.coverage_findings.len()
        }),
{
    let results = module_results(ms, symbols, sums, own);
    let u = all_unknown(results);
    lemma_results_not_evaluable(results);
    let c = canonical_set::<SemanticFinding>(u);
    crate::order::lemma_canonical_set::<SemanticFinding>(u);
    assert(c.no_duplicates()) by {
        assert forall|i: int, j: int| 0 <= i < c.len() && 0 <= j < c.len() && i != j implies c[i] != c[j] by {
            if i < j {
                assert(c[i] != c[j]);
            } else {
                assert(c[j] != c[i]);
            }
        }
    }
    assert(c.to_set() =~= u.to_set());
    c.unique_seq_to_set();
    u.unique_seq_to_set();
}

/// The summary of an evaluation accounts for every declared Module and
/// every evaluative deny claim: there is one result per declared Module, in
/// the given order; a Module without declared policy is not applicable and
/// concludes nothing; each Module has exactly one of the four states, and
/// each evaluative deny claim exactly one of the four conclusions, as long as
/// the counts do not reach the machine bound; and every blocking finding is a
/// forbidden-capability or a forbidden-effect finding.
pub proof fn lemma_conformance_summary_sums(
    ms: Seq<GovernedModel>,
    symbols: Seq<SymbolModel>,
    sums: Seq<EffectSummaryModel>,
    realization: crate::architecture::realization::RealizationModel,
    own: Seq<OwnershipModel>,
    project_id: Option<Seq<char>>,
    standard_edition: Seq<char>,
    digests: DigestsModel,
)
    requires
        ms.len() <= usize::MAX,
        evaluation_of(ms, symbols, sums, realization, own, project_id, standard_edition, digests).model.summary.evaluative_deny_claims
            < usize::MAX,
    ensures
        ({
            let e = evaluation_of(ms, symbols, sums, realization, own, project_id, standard_edition, digests);
            let s = e.model.summary;
            &&& e.model.modules.len() == ms.len()
            &&& forall|i: int| 0 <= i < ms.len() ==> (#[trigger] e.model.modules[i]).module == ms[i].id
            &&& forall|i: int|
                0 <= i < ms.len() && ms[i].policy is None ==> (#[trigger] e.model.modules[i]).state
                    == SemanticConformanceState::NotApplicable && e.model.modules[i].conclusions.len() == 0
            &&& s.declared_modules == ms.len()
            &&& s.modules_passed + s.modules_failed + s.modules_unknown + s.modules_not_applicable == ms.len()
            &&& s.deny_claims_passed + s.deny_claims_failed + s.deny_claims_unknown + s.deny_claims_not_applicable
                == s.evaluative_deny_claims
            &&& s.forbidden_capability_findings + s.forbidden_effect_findings == e.findings.len()
        }),
{
    let results = module_results(ms, symbols, sums, own);
    lemma_results_counts(results);
    lemma_all_forbidden_shaped(results);
    let findings = canonical_set::<SemanticFinding>(all_forbidden(results));
    crate::order::lemma_canonical_set::<SemanticFinding>(all_forbidden(results));
    assert forall|i: int| 0 <= i < findings.len() implies forbidden_shaped(#[trigger] findings[i]) by {
        assert(findings.contains(findings[i]));
        assert(all_forbidden(results).contains(findings[i]));
        let j = choose|j: int| 0 <= j < all_forbidden(results).len() && all_forbidden(results)[j] == findings[i];
        assert(forbidden_shaped(all_forbidden(results)[j]));
    }
    lemma_code_counts_partition(findings);
}

fn module_results_exec(
    modules: &[GovernedModule],
    symbols: &[SemanticSymbol],
    summaries: &[EffectSummary],
    owners: &Vec<Option<String>>,
    ownerships: &[SourceOwnership],
) -> (results: Vec<ModuleSemanticConformance>)
    requires
        owners_wf(owners@, views(symbols@), views(summaries@)),
    ensures
        views(results@) == module_results(views(modules@), views(symbols@), views(summaries@), views(ownerships@)),
{
    let ghost ms = views(modules@);
    let ghost sv = views(symbols@);
    let ghost mv = views(summaries@);
    let ghost ov = views(ownerships@);
    let ghost target = module_results(ms, sv, mv, ov);
    let mut results: Vec<ModuleSemanticConformance> = Vec::new();
    let mut i: usize = 0;
    while i < modules.len()
        invariant
            ms == views(modules@),
            sv == views(symbols@),
            mv == views(summaries@),
            ov == views(ownerships@),
            target == module_results(ms, sv, mv, ov),
            owners_wf(owners@, sv, mv),
            i <= modules@.len(),
            views(results@) == target.take(i as int),
        decreases modules.len() - i,
    {
        let ghost before = results@;
        assert(ms[i as int] == modules@[i as int]@);
        let r = evaluate_module(&modules[i], symbols, summaries, owners, ownerships);
        results.push(r);
        proof {
            crate::order::lemma_views_push_seq(before, r);
            assert(target.take(i + 1) =~= target.take(i as int).push(target[i as int]));
        }
        i = i + 1;
    }
    assert(target.take(modules@.len() as int) =~= target);
    results
}

/// Evaluates authored Module semantic policy against canonical State/Effect
/// facts.
///
/// Each summary's evidence belongs to the Module owning its symbol; evidence
/// of symbols owned by no declared Module is counted as analysis-only. Per
/// Module, observations are deduplicated in canonical order and governed by
/// the policy (by effect first, then by capability); every authored entry
/// yields one conclusion; DENY entries exercised by an observation fail with
/// one finding per distinct exercise, and DENY entries that coverage or opaque
/// semantics prevent from evaluating are UNKNOWN with one coverage finding.
#[verifier::rlimit(40)]
pub fn evaluate_semantic_conformance(
    modules: &[GovernedModule],
    symbols: &[SemanticSymbol],
    summaries: &[EffectSummary],
    architecture_realization: &crate::architecture::realization::ArchitectureRealization,
    ownerships: &[SourceOwnership],
    project_id: Option<String>,
    standard_edition: &str,
    digests: &UpstreamDigests,
) -> (r: SemanticConformanceEvaluation)
    requires
        modules_wf(views(modules@)),
    ensures
        r@ == evaluation_of(
            views(modules@),
            views(symbols@),
            views(summaries@),
            architecture_realization@,
            views(ownerships@),
            optional_view(project_id),
            standard_edition@,
            digests@,
        ),
{
    let owners = summary_owners(symbols, summaries);
    let analysis = analysis_only_exec(modules, symbols, summaries, &owners);
    let results = module_results_exec(modules, symbols, summaries, &owners, ownerships);
    let ghost rv = views(results@);
    let mut forbidden: Vec<SemanticFinding> = Vec::new();
    let mut unknown: Vec<SemanticFinding> = Vec::new();
    let mut acc = zero_summary();
    let mut j: usize = 0;
    while j < results.len()
        invariant
            rv == views(results@),
            j <= results@.len(),
            views(forbidden@) == all_forbidden(rv.take(j as int)),
            views(unknown@) == all_unknown(rv.take(j as int)),
            acc@ == results_counts(rv.take(j as int)),
        decreases results.len() - j,
    {
        assert(rv.take(j + 1).drop_last() =~= rv.take(j as int));
        assert(rv.take(j + 1).last() == results@[j as int]@);
        module_findings_exec(&results[j], &mut forbidden, &mut unknown);
        acc = add_summary(acc, result_counts_exec(&results[j]));
        j = j + 1;
    }
    assert(rv.take(results@.len() as int) =~= rv);
    let findings = canonical_set_exec(forbidden);
    let coverage_findings = canonical_set_exec(unknown);
    let mut summary = acc;
    summary.declared_modules = modules.len();
    summary.analysis_only_observations = analysis;
    summary.forbidden_capability_findings = code_count_exec(&findings, "FORBIDDEN_CAPABILITY_EXERCISED:");
    summary.forbidden_effect_findings = code_count_exec(&findings, "FORBIDDEN_EFFECT_EXERCISED:");
    let records = architecture_realization.records();
    let ghost recv = views(records@);
    let mut convergence: Vec<DependencyConvergence> = Vec::new();
    let mut k: usize = 0;
    while k < records.len()
        invariant
            recv == views(records@),
            recv == architecture_realization@.records,
            k <= records@.len(),
            views(convergence@) == recv.take(k as int).map_values(
                |r: crate::architecture::realization::RecordModel| convergence_of(r),
            ),
        decreases records.len() - k,
    {
        let ghost before = convergence@;
        assert(recv[k as int] == records@[k as int]@);
        let c = convergence_exec(&records[k]);
        convergence.push(c);
        proof {
            crate::order::lemma_views_push_seq(before, c);
            assert(recv.take(k + 1).map_values(|r: crate::architecture::realization::RecordModel| convergence_of(r))
                =~= recv.take(k as int).map_values(
                |r: crate::architecture::realization::RecordModel| convergence_of(r),
            ).push(convergence_of(recv[k as int])));
        }
        k = k + 1;
    }
    assert(recv.take(records@.len() as int) =~= recv);
    let mut unsupported: Vec<String> = Vec::new();
    unsupported.push(copy_text("capability_permission_inference_from_implementation"));
    unsupported.push(copy_text("claim_coverage_beyond_resolved_static_call_closure"));
    unsupported.push(copy_text("dynamic_dispatch_effect_closure"));
    unsupported.push(copy_text("module_policy_for_analysis_only_territories"));
    assert(texts(unsupported@) =~= semantic_unsupported());
    let model = SemanticConformanceModel {
        schema: copy_text(SEMANTIC_CONFORMANCE_SCHEMA),
        schema_version: SEMANTIC_CONFORMANCE_SCHEMA_VERSION,
        semantic_version: copy_text(SEMANTIC_CONFORMANCE_VERSION),
        project_id,
        standard_edition: copy_text(standard_edition),
        ccg_digest: copy_text(digests.ccg.as_str()),
        psm_digest: copy_text(digests.psm.as_str()),
        state_effect_digest: copy_text(digests.state_effect.as_str()),
        modules: results,
        dependency_convergence: convergence,
        summary,
        unsupported_semantics: unsupported,
    };
    SemanticConformanceEvaluation { model, findings, coverage_findings }
}

// ---------------------------------------------------------------------------
// Laws.

/// An ALLOW entry is an authorization and never a conformance claim: every
/// ALLOW conclusion is AUTHORISED, with no conformance state, no enforcement
/// eligibility and no coverage reasons.
pub proof fn lemma_allow_is_never_a_claim(
    m: GovernedModel,
    symbols: Seq<SymbolModel>,
    sums: Seq<EffectSummaryModel>,
    coverage: CoverageModel,
    i: int,
)
    requires
        0 <= i < module_result(m, symbols, sums, coverage).conclusions.len(),
        module_result(m, symbols, sums, coverage).conclusions[i].disposition == PolicyDisposition::Allow,
    ensures
        module_result(m, symbols, sums, coverage).conclusions[i].authorization == Some(AuthorizationState::Authorised),
        module_result(m, symbols, sums, coverage).conclusions[i].conformance is None,
        module_result(m, symbols, sums, coverage).conclusions[i].blocking_eligibility is None,
        module_result(m, symbols, sums, coverage).conclusions[i].coverage_reasons.len() == 0,
{
}

/// Missing semantic authority is never conformance: a DENY claim passes only
/// when no observation exercises it, the Module owns governed source, some
/// of that source produced semantic symbols, and no claim-relevant operation
/// of the Module remains opaque.
pub proof fn lemma_pass_requires_complete_authority(
    m: GovernedModel,
    symbols: Seq<SymbolModel>,
    sums: Seq<EffectSummaryModel>,
    coverage: CoverageModel,
    i: int,
)
    requires
        0 <= i < module_result(m, symbols, sums, coverage).conclusions.len(),
        module_result(m, symbols, sums, coverage).conclusions[i].conformance == Some(SemanticConformanceState::Pass),
    ensures
        module_result(m, symbols, sums, coverage).conclusions[i].disposition == PolicyDisposition::Deny,
        module_result(m, symbols, sums, coverage).conclusions[i].matching_observations == 0,
        coverage.governed > 0,
        coverage.analysed > 0,
        canonical_set::<String>(raw_opaque(symbols, sums, m.id)).len() == 0,
{
}

/// A Module fails exactly when one of its DENY claims fails, and a DENY claim
/// fails exactly when a supported observation exercises it.
pub proof fn lemma_module_fails_iff_claim_exercised(
    m: GovernedModel,
    symbols: Seq<SymbolModel>,
    sums: Seq<EffectSummaryModel>,
    coverage: CoverageModel,
)
    ensures
        ({
            let r = module_result(m, symbols, sums, coverage);
            &&& (r.state == SemanticConformanceState::Fail) <==> exists|i: int|
                0 <= i < r.conclusions.len() && #[trigger] r.conclusions[i].conformance == Some(SemanticConformanceState::Fail)
            &&& forall|i: int|
                0 <= i < r.conclusions.len() ==> ((#[trigger] r.conclusions[i].conformance == Some(
                    SemanticConformanceState::Fail,
                )) <==> (r.conclusions[i].disposition == PolicyDisposition::Deny
                    && r.conclusions[i].matching_observations > 0))
        }),
{
    let r = module_result(m, symbols, sums, coverage);
    if exists|i: int| 0 <= i < r.conclusions.len() && #[trigger] r.conclusions[i].conformance == Some(SemanticConformanceState::Fail) {
        let i = choose|i: int|
            0 <= i < r.conclusions.len() && #[trigger] r.conclusions[i].conformance == Some(SemanticConformanceState::Fail);
        assert(r.conclusions[i].disposition == PolicyDisposition::Deny);
    }
}

/// The claim a conclusion answers.
pub open spec fn claim_of(c: ConclusionModel) -> ClaimModel {
    ClaimModel { target_kind: c.target_kind, target: c.target, disposition: c.disposition }
}

proof fn lemma_claim_findings_len(module: Seq<char>, c: ConclusionModel, os: Seq<ObservationModel>)
    ensures
        claim_findings(module, c, os).len() == matching_count(os, claim_of(c)),
    decreases os.len(),
{
    if os.len() > 0 {
        lemma_claim_findings_len(module, c, os.drop_last());
    }
}

proof fn lemma_conclusions_forbidden_empty(module: Seq<char>, cs: Seq<ConclusionModel>, os: Seq<ObservationModel>)
    ensures
        conclusions_forbidden(module, cs, os).len() == 0 <==> forall|j: int|
            0 <= j < cs.len() && #[trigger] cs[j].disposition == PolicyDisposition::Deny ==> matching_count(
                os,
                claim_of(cs[j]),
            ) == 0,
    decreases cs.len(),
{
    if cs.len() > 0 {
        let init = cs.drop_last();
        lemma_conclusions_forbidden_empty(module, init, os);
        lemma_claim_findings_len(module, cs.last(), os);
        assert forall|j: int| 0 <= j < init.len() implies init[j] == cs[j] by {}
        if conclusions_forbidden(module, cs, os).len() == 0 {
            assert forall|j: int|
                0 <= j < cs.len() && #[trigger] cs[j].disposition == PolicyDisposition::Deny implies matching_count(
                os,
                claim_of(cs[j]),
            ) == 0 by {
                if j < init.len() {
                    assert(init[j].disposition == PolicyDisposition::Deny);
                }
            }
        } else {
            if conclusions_forbidden(module, init, os).len() != 0 {
                let j = choose|j: int|
                    0 <= j < init.len() && #[trigger] init[j].disposition == PolicyDisposition::Deny && matching_count(
                        os,
                        claim_of(init[j]),
                    ) != 0;
                assert(cs[j].disposition == PolicyDisposition::Deny);
            } else {
                assert(cs[cs.len() - 1].disposition == PolicyDisposition::Deny);
            }
        }
    }
}

proof fn lemma_conclusions_unknown_empty(module: Seq<char>, contract_path: Seq<char>, cs: Seq<ConclusionModel>)
    ensures
        conclusions_unknown(module, contract_path, cs).len() == 0 <==> forall|j: int|
            0 <= j < cs.len() ==> #[trigger] cs[j].conformance != Some(SemanticConformanceState::Unknown),
    decreases cs.len(),
{
    if cs.len() > 0 {
        let init = cs.drop_last();
        lemma_conclusions_unknown_empty(module, contract_path, init);
        assert forall|j: int| 0 <= j < init.len() implies init[j] == cs[j] by {}
        if conclusions_unknown(module, contract_path, cs).len() != 0 {
            if conclusions_unknown(module, contract_path, init).len() != 0 {
                let j = choose|j: int|
                    0 <= j < init.len() && #[trigger] init[j].conformance == Some(SemanticConformanceState::Unknown);
                assert(cs[j].conformance == Some(SemanticConformanceState::Unknown));
            } else {
                assert(cs[cs.len() - 1].conformance == Some(SemanticConformanceState::Unknown));
            }
        }
    }
}

proof fn lemma_all_empty(rs: Seq<ModuleConformanceModel>)
    ensures
        all_forbidden(rs).len() == 0 <==> forall|i: int|
            0 <= i < rs.len() ==> #[trigger] conclusions_forbidden(rs[i].module, rs[i].conclusions, rs[i].observations).len()
                == 0,
        all_unknown(rs).len() == 0 <==> forall|i: int|
            0 <= i < rs.len() ==> #[trigger] conclusions_unknown(rs[i].module, rs[i].contract_path, rs[i].conclusions).len()
                == 0,
    decreases rs.len(),
{
    if rs.len() > 0 {
        let init = rs.drop_last();
        lemma_all_empty(init);
        assert forall|i: int| 0 <= i < init.len() implies init[i] == rs[i] by {}
        let last = rs.len() - 1;
        assert(rs[last] == rs.last());
        if all_forbidden(rs).len() != 0 && all_forbidden(init).len() != 0 {
            let i = choose|i: int|
                0 <= i < init.len() && #[trigger] conclusions_forbidden(init[i].module, init[i].conclusions, init[i].observations).len()
                    != 0;
            assert(rs[i] == init[i]);
        }
        if all_unknown(rs).len() != 0 && all_unknown(init).len() != 0 {
            let i = choose|i: int|
                0 <= i < init.len() && #[trigger] conclusions_unknown(init[i].module, init[i].contract_path, init[i].conclusions).len()
                    != 0;
            assert(rs[i] == init[i]);
        }
    }
}

proof fn lemma_result_fail_iff_findings(m: GovernedModel, symbols: Seq<SymbolModel>, sums: Seq<EffectSummaryModel>, coverage: CoverageModel)
    ensures
        ({
            let r = module_result(m, symbols, sums, coverage);
            conclusions_forbidden(r.module, r.conclusions, r.observations).len() == 0 <==> forall|j: int|
                0 <= j < r.conclusions.len() ==> #[trigger] r.conclusions[j].conformance != Some(SemanticConformanceState::Fail)
        }),
{
    let r = module_result(m, symbols, sums, coverage);
    lemma_conclusions_forbidden_empty(r.module, r.conclusions, r.observations);
    match m.policy {
        Some(p) => {
            let claims = policy_claims(p);
            assert forall|j: int| 0 <= j < r.conclusions.len() implies claim_of(#[trigger] r.conclusions[j]) == claims[j]
                && r.conclusions[j].matching_observations == matching_count(r.observations, claims[j]) by {}
            if conclusions_forbidden(r.module, r.conclusions, r.observations).len() != 0 {
                let j = choose|j: int|
                    0 <= j < r.conclusions.len() && #[trigger] r.conclusions[j].disposition == PolicyDisposition::Deny
                        && matching_count(r.observations, claim_of(r.conclusions[j])) != 0;
                assert(r.conclusions[j].conformance == Some(SemanticConformanceState::Fail));
            }
        },
        None => {},
    }
}

/// An evaluation succeeds exactly when no authored claim of any Module
/// failed and none is UNKNOWN: every DENY claim passed or has no governed
/// subject.
pub proof fn lemma_success_iff_every_claim_settled(
    ms: Seq<GovernedModel>,
    symbols: Seq<SymbolModel>,
    sums: Seq<EffectSummaryModel>,
    realization: crate::architecture::realization::RealizationModel,
    own: Seq<OwnershipModel>,
    project_id: Option<Seq<char>>,
    standard_edition: Seq<char>,
    digests: DigestsModel,
)
    ensures
        ({
            let e = evaluation_of(ms, symbols, sums, realization, own, project_id, standard_edition, digests);
            (e.findings.len() == 0 && e.coverage_findings.len() == 0) <==> forall|i: int, j: int|
                0 <= i < e.model.modules.len() && 0 <= j < e.model.modules[i].conclusions.len() ==> {
                    let c = #[trigger] e.model.modules[i].conclusions[j];
                    c.conformance != Some(SemanticConformanceState::Fail) && c.conformance != Some(
                        SemanticConformanceState::Unknown,
                    )
                }
        }),
{
    let e = evaluation_of(ms, symbols, sums, realization, own, project_id, standard_edition, digests);
    let rs = module_results(ms, symbols, sums, own);
    lemma_canonical_set::<SemanticFinding>(all_forbidden(rs));
    lemma_canonical_set::<SemanticFinding>(all_unknown(rs));
    lemma_all_empty(rs);
    assert forall|i: int| 0 <= i < rs.len() implies ({
        let r = #[trigger] rs[i];
        &&& conclusions_forbidden(r.module, r.conclusions, r.observations).len() == 0 <==> forall|j: int|
            0 <= j < r.conclusions.len() ==> #[trigger] r.conclusions[j].conformance != Some(SemanticConformanceState::Fail)
        &&& conclusions_unknown(r.module, r.contract_path, r.conclusions).len() == 0 <==> forall|j: int|
            0 <= j < r.conclusions.len() ==> #[trigger] r.conclusions[j].conformance != Some(
                SemanticConformanceState::Unknown,
            )
    }) by {
        lemma_result_fail_iff_findings(ms[i], symbols, sums, module_source_coverage(own, symbols, ms[i].id));
        lemma_conclusions_unknown_empty(rs[i].module, rs[i].contract_path, rs[i].conclusions);
    }
    if e.findings.len() == 0 && e.coverage_findings.len() == 0 {
        assert forall|i: int, j: int|
            0 <= i < e.model.modules.len() && 0 <= j < e.model.modules[i].conclusions.len() implies ({
            let c = #[trigger] e.model.modules[i].conclusions[j];
            c.conformance != Some(SemanticConformanceState::Fail) && c.conformance != Some(SemanticConformanceState::Unknown)
        }) by {
            assert(conclusions_forbidden(rs[i].module, rs[i].conclusions, rs[i].observations).len() == 0);
            assert(conclusions_unknown(rs[i].module, rs[i].contract_path, rs[i].conclusions).len() == 0);
        }
    }
    if forall|i: int, j: int|
        0 <= i < e.model.modules.len() && 0 <= j < e.model.modules[i].conclusions.len() ==> {
            let c = #[trigger] e.model.modules[i].conclusions[j];
            c.conformance != Some(SemanticConformanceState::Fail) && c.conformance != Some(SemanticConformanceState::Unknown)
        } {
        assert forall|i: int| 0 <= i < rs.len() implies #[trigger] conclusions_forbidden(
            rs[i].module,
            rs[i].conclusions,
            rs[i].observations,
        ).len() == 0 && conclusions_unknown(rs[i].module, rs[i].contract_path, rs[i].conclusions).len() == 0 by {
            assert forall|j: int| 0 <= j < rs[i].conclusions.len() implies #[trigger] rs[i].conclusions[j].conformance
                != Some(SemanticConformanceState::Fail) by {
                assert(e.model.modules[i].conclusions[j] == rs[i].conclusions[j]);
            }
            assert forall|j: int| 0 <= j < rs[i].conclusions.len() implies #[trigger] rs[i].conclusions[j].conformance
                != Some(SemanticConformanceState::Unknown) by {
                assert(e.model.modules[i].conclusions[j] == rs[i].conclusions[j]);
            }
        }
    }
}

} // verus!
