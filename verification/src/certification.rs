//! Content-addressed evidence, snapshot certification, and the Verified
//! Behavioral Flow Graph.
//!
//! Certification consumes conclusions from the semantic stack. It never
//! re-evaluates their underlying meaning: authored authority, observed
//! implementation, static proof, executed verification and trusted
//! assertions stay distinct.

pub mod assemble;
pub mod certify;
pub mod compile;
pub mod evidence;
pub mod graph;
pub mod keyed;
pub mod laws;
pub mod profile;
pub mod requirements;
pub mod scenarios;
pub mod verified_bfg;

use vstd::prelude::*;

use crate::json::{lemma_member_models, member_models, text_array, text_values, Json, JsonModel};
use crate::text::{copy_text, copy_texts, texts};

use self::evidence::{class_name, EvidenceClass, EvidenceResult};
use self::graph::{ProfileIdentity, StandardIdentity};
use self::keyed::KeyedItem;
use self::profile::{CertificationProfile, RustSuiteExecution};

verus! {

/// Certification construction or validation error.
#[derive(Debug, PartialEq, Eq)]
pub enum CertificationError {
    /// A required node field was empty.
    EmptyNodeField,
    /// Graph schema version is unsupported.
    InvalidSchemaVersion(u16),
    /// Node array is not ordered by content identity.
    NonCanonicalNodeOrdering,
    /// Input references are not strictly sorted.
    NonCanonicalInputOrdering(String),
    /// A node digest does not match its canonical body.
    NodeDigestMismatch(String),
    /// Duplicate content identity appears.
    DuplicateNode(String),
    /// Two different nodes claim one semantic kind/subject identity.
    ConflictingSemanticNode {
        /// Evidence kind.
        kind: String,
        /// Semantic subject.
        subject: String,
    },
    /// An input reference is missing.
    MissingInput {
        /// Referencing node identity.
        node: String,
        /// Missing input identity.
        input: String,
    },
    /// A root obligation reference is missing.
    MissingRoot(String),
    /// Graph contains a dependency cycle.
    Cycle(String),
    /// Certification profile is malformed.
    InvalidProfile,
    /// Canonical full profile was weakened.
    WeakenedFullProfile,
    /// Suite execution semantics are malformed.
    InvalidSuiteExecution,
    /// Test inventory is not canonical.
    NonCanonicalTestInventory,
    /// Test appears as both enabled and ignored.
    ContradictoryTestEligibility,
    /// Test inventory digest does not bind its normalized eligibility lists.
    TestInventoryDigestMismatch,
    /// Suite evidence binds a different source subject.
    SuiteSubjectMismatch,
    /// Duplicate artifact evidence.
    DuplicateArtifact(String),
    /// Duplicate rule evidence.
    DuplicateRuleEvidence(String),
    /// Applicable rule inventory is not strictly sorted.
    NonCanonicalApplicableRules,
    /// Rule evidence claims a rule outside the applicable inventory.
    UnexpectedRuleEvidence(String),
    /// Duplicate Requirement evidence.
    DuplicateRequirement(String),
    /// Duplicate behavioral realization evidence.
    DuplicateBehavioralRealization(String),
    /// Duplicate generated obligation.
    DuplicateGeneratedVerification(String),
    /// Duplicate trusted assertion.
    DuplicateTrustedAssertion(String),
    /// Binding references an absent current obligation.
    UnknownVerificationObligation(String),
    /// Binding is owned by the wrong Testing Module.
    ForeignVerificationBinding {
        /// Bound obligation identity.
        obligation: String,
        /// Required canonical Testing Module.
        expected: String,
        /// Actual binding-owning Module.
        actual: String,
    },
    /// Binding has no tests or noncanonical tests.
    InvalidVerificationBinding(String),
    /// More than one binding targets an obligation.
    DuplicateVerificationBinding(String),
}

/// Abstract value of a certification error.
pub enum ErrorModel {
    EmptyNodeField,
    InvalidSchemaVersion(u16),
    NonCanonicalNodeOrdering,
    NonCanonicalInputOrdering(Seq<char>),
    NodeDigestMismatch(Seq<char>),
    DuplicateNode(Seq<char>),
    ConflictingSemanticNode { kind: Seq<char>, subject: Seq<char> },
    MissingInput { node: Seq<char>, input: Seq<char> },
    MissingRoot(Seq<char>),
    Cycle(Seq<char>),
    InvalidProfile,
    WeakenedFullProfile,
    InvalidSuiteExecution,
    NonCanonicalTestInventory,
    ContradictoryTestEligibility,
    TestInventoryDigestMismatch,
    SuiteSubjectMismatch,
    DuplicateArtifact(Seq<char>),
    DuplicateRuleEvidence(Seq<char>),
    NonCanonicalApplicableRules,
    UnexpectedRuleEvidence(Seq<char>),
    DuplicateRequirement(Seq<char>),
    DuplicateBehavioralRealization(Seq<char>),
    DuplicateGeneratedVerification(Seq<char>),
    DuplicateTrustedAssertion(Seq<char>),
    UnknownVerificationObligation(Seq<char>),
    ForeignVerificationBinding { obligation: Seq<char>, expected: Seq<char>, actual: Seq<char> },
    InvalidVerificationBinding(Seq<char>),
    DuplicateVerificationBinding(Seq<char>),
}

impl View for CertificationError {
    type V = ErrorModel;

    open spec fn view(&self) -> ErrorModel {
        match self {
            CertificationError::EmptyNodeField => ErrorModel::EmptyNodeField,
            CertificationError::InvalidSchemaVersion(v) => ErrorModel::InvalidSchemaVersion(*v),
            CertificationError::NonCanonicalNodeOrdering => ErrorModel::NonCanonicalNodeOrdering,
            CertificationError::NonCanonicalInputOrdering(s) => ErrorModel::NonCanonicalInputOrdering(s@),
            CertificationError::NodeDigestMismatch(s) => ErrorModel::NodeDigestMismatch(s@),
            CertificationError::DuplicateNode(s) => ErrorModel::DuplicateNode(s@),
            CertificationError::ConflictingSemanticNode { kind, subject } => ErrorModel::ConflictingSemanticNode {
                kind: kind@,
                subject: subject@,
            },
            CertificationError::MissingInput { node, input } => ErrorModel::MissingInput { node: node@, input: input@ },
            CertificationError::MissingRoot(s) => ErrorModel::MissingRoot(s@),
            CertificationError::Cycle(s) => ErrorModel::Cycle(s@),
            CertificationError::InvalidProfile => ErrorModel::InvalidProfile,
            CertificationError::WeakenedFullProfile => ErrorModel::WeakenedFullProfile,
            CertificationError::InvalidSuiteExecution => ErrorModel::InvalidSuiteExecution,
            CertificationError::NonCanonicalTestInventory => ErrorModel::NonCanonicalTestInventory,
            CertificationError::ContradictoryTestEligibility => ErrorModel::ContradictoryTestEligibility,
            CertificationError::TestInventoryDigestMismatch => ErrorModel::TestInventoryDigestMismatch,
            CertificationError::SuiteSubjectMismatch => ErrorModel::SuiteSubjectMismatch,
            CertificationError::DuplicateArtifact(s) => ErrorModel::DuplicateArtifact(s@),
            CertificationError::DuplicateRuleEvidence(s) => ErrorModel::DuplicateRuleEvidence(s@),
            CertificationError::NonCanonicalApplicableRules => ErrorModel::NonCanonicalApplicableRules,
            CertificationError::UnexpectedRuleEvidence(s) => ErrorModel::UnexpectedRuleEvidence(s@),
            CertificationError::DuplicateRequirement(s) => ErrorModel::DuplicateRequirement(s@),
            CertificationError::DuplicateBehavioralRealization(s) => ErrorModel::DuplicateBehavioralRealization(s@),
            CertificationError::DuplicateGeneratedVerification(s) => ErrorModel::DuplicateGeneratedVerification(s@),
            CertificationError::DuplicateTrustedAssertion(s) => ErrorModel::DuplicateTrustedAssertion(s@),
            CertificationError::UnknownVerificationObligation(s) => ErrorModel::UnknownVerificationObligation(s@),
            CertificationError::ForeignVerificationBinding { obligation, expected, actual } =>
                ErrorModel::ForeignVerificationBinding {
                obligation: obligation@,
                expected: expected@,
                actual: actual@,
            },
            CertificationError::InvalidVerificationBinding(s) => ErrorModel::InvalidVerificationBinding(s@),
            CertificationError::DuplicateVerificationBinding(s) => ErrorModel::DuplicateVerificationBinding(s@),
        }
    }
}

/// A value set between two texts.
pub open spec fn framed(before: Seq<char>, value: Seq<char>, after: Seq<char>) -> Seq<char> {
    before + value + after
}

fn frame(before: &str, value: &str, after: &str) -> (r: String)
    ensures
        r@ == framed(before@, value@, after@),
{
    let head = crate::text::concat(before, value);
    crate::text::concat(head.as_str(), after)
}

/// The human explanation of an error.
pub open spec fn error_message(e: ErrorModel) -> Seq<char> {
    match e {
        ErrorModel::EmptyNodeField => "evidence node identity, subject, producer, and version must be nonempty"@,
        ErrorModel::InvalidSchemaVersion(v) => "unsupported Evidence Graph schema version "@
            + crate::codec::decimal_of(v as nat),
        ErrorModel::NonCanonicalNodeOrdering => "evidence nodes are not strictly ordered by content identity"@,
        ErrorModel::NonCanonicalInputOrdering(n) => framed("evidence node `"@, n, "` inputs are not strictly ordered"@),
        ErrorModel::NodeDigestMismatch(n) => framed(
            "evidence node `"@,
            n,
            "` digest does not match canonical content"@,
        ),
        ErrorModel::DuplicateNode(n) => framed("duplicate evidence node `"@, n, "`"@),
        ErrorModel::ConflictingSemanticNode { kind, subject } => framed(
            "conflicting evidence nodes claim semantic identity `"@,
            kind + ":"@ + subject,
            "`"@,
        ),
        ErrorModel::MissingInput { node, input } => framed(
            "evidence node `"@,
            node,
            "` references missing input `"@,
        ) + input + "`"@,
        ErrorModel::MissingRoot(r) => framed("root obligation `"@, r, "` does not exist"@),
        ErrorModel::Cycle(n) => framed("evidence dependency cycle contains `"@, n, "`"@),
        ErrorModel::InvalidProfile => "certification profile identity or version is invalid"@,
        ErrorModel::WeakenedFullProfile => "CERT-FULL-SNAPSHOT-V1 cannot weaken any mandatory obligation class"@,
        ErrorModel::InvalidSuiteExecution =>
            "Rust suite execution evidence is missing executor, version, or toolchain identity"@,
        ErrorModel::NonCanonicalTestInventory => "Rust suite eligible/ignored inventories must be strictly sorted"@,
        ErrorModel::ContradictoryTestEligibility => "a Rust Test ID cannot be both eligible and ignored"@,
        ErrorModel::TestInventoryDigestMismatch => "Rust test inventory digest does not match normalized eligibility"@,
        ErrorModel::SuiteSubjectMismatch =>
            "Rust suite execution evidence refers to a different certification source digest"@,
        ErrorModel::DuplicateArtifact(v) => framed("duplicate artifact evidence `"@, v, "`"@),
        ErrorModel::DuplicateRuleEvidence(v) => framed("duplicate rule evidence `"@, v, "`"@),
        ErrorModel::NonCanonicalApplicableRules => "applicable Standard rule identities must be strictly sorted"@,
        ErrorModel::UnexpectedRuleEvidence(v) => framed("rule evidence `"@, v, "` is not applicable"@),
        ErrorModel::DuplicateRequirement(v) => framed("duplicate Requirement evidence `"@, v, "`"@),
        ErrorModel::DuplicateBehavioralRealization(v) => framed(
            "duplicate behavioral realization evidence `"@,
            v,
            "`"@,
        ),
        ErrorModel::DuplicateGeneratedVerification(v) => framed(
            "duplicate generated verification obligation `"@,
            v,
            "`"@,
        ),
        ErrorModel::DuplicateTrustedAssertion(v) => framed("duplicate trusted assertion `"@, v, "`"@),
        ErrorModel::UnknownVerificationObligation(v) => framed(
            "verification binding references absent obligation `"@,
            v,
            "`"@,
        ),
        ErrorModel::ForeignVerificationBinding { obligation, expected, actual } => framed(
            "verification binding `"@,
            obligation,
            "` belongs to `"@,
        ) + framed(actual, "`, expected `"@, expected) + "`"@,
        ErrorModel::InvalidVerificationBinding(v) => framed(
            "verification binding `"@,
            v,
            "` must contain strictly sorted Test IDs"@,
        ),
        ErrorModel::DuplicateVerificationBinding(v) => framed("duplicate verification binding `"@, v, "`"@),
    }
}

impl CertificationError {
    /// Deterministic human explanation.
    pub fn message(&self) -> (r: String)
        ensures
            r@ == error_message(self@),
    {
        match self {
            CertificationError::EmptyNodeField => String::from_str(
                "evidence node identity, subject, producer, and version must be nonempty",
            ),
            CertificationError::InvalidSchemaVersion(v) => {
                let n = crate::codec::decimal(*v as u64);
                crate::text::concat("unsupported Evidence Graph schema version ", n.as_str())
            },
            CertificationError::NonCanonicalNodeOrdering => String::from_str(
                "evidence nodes are not strictly ordered by content identity",
            ),
            CertificationError::NonCanonicalInputOrdering(n) => frame(
                "evidence node `",
                n.as_str(),
                "` inputs are not strictly ordered",
            ),
            CertificationError::NodeDigestMismatch(n) => frame(
                "evidence node `",
                n.as_str(),
                "` digest does not match canonical content",
            ),
            CertificationError::DuplicateNode(n) => frame("duplicate evidence node `", n.as_str(), "`"),
            CertificationError::ConflictingSemanticNode { kind, subject } => {
                let identity = frame(kind.as_str(), ":", subject.as_str());
                frame("conflicting evidence nodes claim semantic identity `", identity.as_str(), "`")
            },
            CertificationError::MissingInput { node, input } => {
                let head = frame("evidence node `", node.as_str(), "` references missing input `");
                frame(head.as_str(), input.as_str(), "`")
            },
            CertificationError::MissingRoot(r) => frame("root obligation `", r.as_str(), "` does not exist"),
            CertificationError::Cycle(n) => frame("evidence dependency cycle contains `", n.as_str(), "`"),
            CertificationError::InvalidProfile => String::from_str(
                "certification profile identity or version is invalid",
            ),
            CertificationError::WeakenedFullProfile => String::from_str(
                "CERT-FULL-SNAPSHOT-V1 cannot weaken any mandatory obligation class",
            ),
            CertificationError::InvalidSuiteExecution => String::from_str(
                "Rust suite execution evidence is missing executor, version, or toolchain identity",
            ),
            CertificationError::NonCanonicalTestInventory => String::from_str(
                "Rust suite eligible/ignored inventories must be strictly sorted",
            ),
            CertificationError::ContradictoryTestEligibility => String::from_str(
                "a Rust Test ID cannot be both eligible and ignored",
            ),
            CertificationError::TestInventoryDigestMismatch => String::from_str(
                "Rust test inventory digest does not match normalized eligibility",
            ),
            CertificationError::SuiteSubjectMismatch => String::from_str(
                "Rust suite execution evidence refers to a different certification source digest",
            ),
            CertificationError::DuplicateArtifact(v) => frame("duplicate artifact evidence `", v.as_str(), "`"),
            CertificationError::DuplicateRuleEvidence(v) => frame("duplicate rule evidence `", v.as_str(), "`"),
            CertificationError::NonCanonicalApplicableRules => String::from_str(
                "applicable Standard rule identities must be strictly sorted",
            ),
            CertificationError::UnexpectedRuleEvidence(v) => frame(
                "rule evidence `",
                v.as_str(),
                "` is not applicable",
            ),
            CertificationError::DuplicateRequirement(v) => frame(
                "duplicate Requirement evidence `",
                v.as_str(),
                "`",
            ),
            CertificationError::DuplicateBehavioralRealization(v) => frame(
                "duplicate behavioral realization evidence `",
                v.as_str(),
                "`",
            ),
            CertificationError::DuplicateGeneratedVerification(v) => frame(
                "duplicate generated verification obligation `",
                v.as_str(),
                "`",
            ),
            CertificationError::DuplicateTrustedAssertion(v) => frame(
                "duplicate trusted assertion `",
                v.as_str(),
                "`",
            ),
            CertificationError::UnknownVerificationObligation(v) => frame(
                "verification binding references absent obligation `",
                v.as_str(),
                "`",
            ),
            CertificationError::ForeignVerificationBinding { obligation, expected, actual } => {
                let head = frame("verification binding `", obligation.as_str(), "` belongs to `");
                let tail = frame(actual.as_str(), "`, expected `", expected.as_str());
                frame(head.as_str(), tail.as_str(), "`")
            },
            CertificationError::InvalidVerificationBinding(v) => frame(
                "verification binding `",
                v.as_str(),
                "` must contain strictly sorted Test IDs",
            ),
            CertificationError::DuplicateVerificationBinding(v) => frame(
                "duplicate verification binding `",
                v.as_str(),
                "`",
            ),
        }
    }
}

/// Certification result schema version.
pub const CERTIFICATION_SCHEMA_VERSION: u16 = 1;

/// Certification semantic implementation version.
pub const CERTIFICATION_SEMANTIC_VERSION: &'static str = "1.0.0";

/// Exact certification aggregate status.
#[derive(Clone, Copy, Debug, PartialEq, Eq, Structural)]
pub enum CertificationStatus {
    /// Every mandatory obligation has sufficient current evidence.
    Pass,
    /// Required evidence is absent or unsupported.
    Missing,
    /// Evidence is valid but bound to previous inputs.
    Stale,
    /// Current valid evidence proves a mandatory obligation false.
    Fail,
    /// Profile or evidence structure is invalid.
    Invalid,
}

/// The precedence of a status: `PASS < MISSING < STALE < FAIL < INVALID`.
pub open spec fn status_rank(s: CertificationStatus) -> nat {
    match s {
        CertificationStatus::Pass => 0,
        CertificationStatus::Missing => 1,
        CertificationStatus::Stale => 2,
        CertificationStatus::Fail => 3,
        CertificationStatus::Invalid => 4,
    }
}

/// The canonical spelling of a status.
pub open spec fn status_name(s: CertificationStatus) -> Seq<char> {
    match s {
        CertificationStatus::Pass => "PASS"@,
        CertificationStatus::Missing => "MISSING"@,
        CertificationStatus::Stale => "STALE"@,
        CertificationStatus::Fail => "FAIL"@,
        CertificationStatus::Invalid => "INVALID"@,
    }
}

/// The status of higher precedence.
pub open spec fn worse(a: CertificationStatus, b: CertificationStatus) -> CertificationStatus {
    if status_rank(a) >= status_rank(b) {
        a
    } else {
        b
    }
}

/// The aggregate of statuses: the one of highest precedence, `PASS` for none.
pub open spec fn aggregate_of(s: Seq<CertificationStatus>) -> CertificationStatus
    decreases s.len(),
{
    if s.len() == 0 {
        CertificationStatus::Pass
    } else {
        worse(aggregate_of(s.drop_last()), s.last())
    }
}

/// The aggregate follows the precedence `PASS < MISSING < STALE < FAIL <
/// INVALID`: it is `INVALID` exactly when some status is `INVALID`, `FAIL`
/// exactly when some status is `FAIL` and none is `INVALID`, `STALE` exactly
/// when some status is `STALE` and none is `FAIL` or `INVALID`, `MISSING`
/// exactly when some status is `MISSING` and none is of higher precedence,
/// and `PASS` exactly when every status is `PASS` (or there is none).
pub proof fn lemma_aggregate_precedence(s: Seq<CertificationStatus>)
    ensures
        (aggregate_of(s) == CertificationStatus::Invalid) <==> s.contains(CertificationStatus::Invalid),
        (aggregate_of(s) == CertificationStatus::Fail) <==> (s.contains(CertificationStatus::Fail)
            && !s.contains(CertificationStatus::Invalid)),
        (aggregate_of(s) == CertificationStatus::Stale) <==> (s.contains(CertificationStatus::Stale)
            && !s.contains(CertificationStatus::Fail) && !s.contains(CertificationStatus::Invalid)),
        (aggregate_of(s) == CertificationStatus::Missing) <==> (s.contains(CertificationStatus::Missing)
            && !s.contains(CertificationStatus::Stale) && !s.contains(CertificationStatus::Fail)
            && !s.contains(CertificationStatus::Invalid)),
        (aggregate_of(s) == CertificationStatus::Pass) <==> (forall|i: int|
            0 <= i < s.len() ==> #[trigger] s[i] == CertificationStatus::Pass),
    decreases s.len(),
{
    if s.len() > 0 {
        let t = s.drop_last();
        lemma_aggregate_precedence(t);
        assert(s =~= t.push(s.last()));
        assert forall|x: CertificationStatus| s.contains(x) <==> (t.contains(x) || s.last() == x) by {
            if s.contains(x) {
                let i = choose|i: int| 0 <= i < s.len() && s[i] == x;
                if i < t.len() {
                    assert(t[i] == x);
                }
            }
            if t.contains(x) {
                let i = choose|i: int| 0 <= i < t.len() && t[i] == x;
                assert(s[i] == x);
            }
            if s.last() == x {
                assert(s[s.len() - 1] == x);
            }
        }
        assert((forall|i: int| 0 <= i < s.len() ==> #[trigger] s[i] == CertificationStatus::Pass) <==> ((forall|i: int|
            0 <= i < t.len() ==> #[trigger] t[i] == CertificationStatus::Pass) && s.last() == CertificationStatus::Pass)) by {
            if forall|i: int| 0 <= i < s.len() ==> #[trigger] s[i] == CertificationStatus::Pass {
                assert forall|i: int| 0 <= i < t.len() implies #[trigger] t[i] == CertificationStatus::Pass by {
                    assert(s[i] == CertificationStatus::Pass);
                }
                assert(s[s.len() - 1] == CertificationStatus::Pass);
            }
        }
    }
}

impl CertificationStatus {
    /// Returns the canonical spelling.
    pub fn name(self) -> (r: &'static str)
        ensures
            r@ == status_name(self),
    {
        match self {
            CertificationStatus::Pass => "PASS",
            CertificationStatus::Missing => "MISSING",
            CertificationStatus::Stale => "STALE",
            CertificationStatus::Fail => "FAIL",
            CertificationStatus::Invalid => "INVALID",
        }
    }

    fn rank(self) -> (r: u8)
        ensures
            r == status_rank(self),
    {
        match self {
            CertificationStatus::Pass => 0,
            CertificationStatus::Missing => 1,
            CertificationStatus::Stale => 2,
            CertificationStatus::Fail => 3,
            CertificationStatus::Invalid => 4,
        }
    }

    /// Combines statuses using `INVALID > FAIL > STALE > MISSING > PASS`.
    pub fn aggregate(values: &[Self]) -> (r: Self)
        ensures
            r == aggregate_of(values@),
    {
        let mut acc = CertificationStatus::Pass;
        let mut i: usize = 0;
        while i < values.len()
            invariant
                i <= values@.len(),
                acc == aggregate_of(values@.take(i as int)),
            decreases values.len() - i,
        {
            assert(values@.take(i + 1).drop_last() =~= values@.take(i as int));
            if values[i].rank() > acc.rank() {
                acc = values[i];
            }
            i = i + 1;
        }
        assert(values@.take(values@.len() as int) =~= values@);
        acc
    }
}

/// Canonical obligation kind.
#[derive(Clone, Copy, Debug, PartialEq, Eq, Structural)]
pub enum CertificationObligationKind {
    /// Applicable Standard rule.
    StandardRule,
    /// Feature Requirement verification chain.
    FeatureRequirement,
    /// Behavioral realization coherence.
    BehavioralRealization,
    /// Behavioral verification obligation.
    BehavioralVerification,
    /// Environmental scenario obligation.
    EnvironmentalVerification,
    /// Semantic artifact freshness.
    ArtifactFreshness,
}

/// The canonical order of obligation kinds.
pub open spec fn kind_rank(k: CertificationObligationKind) -> nat {
    match k {
        CertificationObligationKind::StandardRule => 0,
        CertificationObligationKind::FeatureRequirement => 1,
        CertificationObligationKind::BehavioralRealization => 2,
        CertificationObligationKind::BehavioralVerification => 3,
        CertificationObligationKind::EnvironmentalVerification => 4,
        CertificationObligationKind::ArtifactFreshness => 5,
    }
}

/// The canonical spelling of an obligation kind.
pub open spec fn kind_name(k: CertificationObligationKind) -> Seq<char> {
    match k {
        CertificationObligationKind::StandardRule => "STANDARD_RULE"@,
        CertificationObligationKind::FeatureRequirement => "FEATURE_REQUIREMENT"@,
        CertificationObligationKind::BehavioralRealization => "BEHAVIORAL_REALIZATION"@,
        CertificationObligationKind::BehavioralVerification => "BEHAVIORAL_VERIFICATION"@,
        CertificationObligationKind::EnvironmentalVerification => "ENVIRONMENTAL_VERIFICATION"@,
        CertificationObligationKind::ArtifactFreshness => "ARTIFACT_FRESHNESS"@,
    }
}

/// The evidence kind of the aggregate node of an obligation kind.
pub open spec fn obligation_node_kind(k: CertificationObligationKind) -> Seq<char> {
    match k {
        CertificationObligationKind::StandardRule => "certification_obligation:standardrule"@,
        CertificationObligationKind::FeatureRequirement => "certification_obligation:featurerequirement"@,
        CertificationObligationKind::BehavioralRealization => "certification_obligation:behavioralrealization"@,
        CertificationObligationKind::BehavioralVerification => "certification_obligation:behavioralverification"@,
        CertificationObligationKind::EnvironmentalVerification =>
            "certification_obligation:environmentalverification"@,
        CertificationObligationKind::ArtifactFreshness => "certification_obligation:artifactfreshness"@,
    }
}

impl CertificationObligationKind {
    /// Returns the canonical spelling.
    pub fn name(self) -> (r: &'static str)
        ensures
            r@ == kind_name(self),
    {
        match self {
            CertificationObligationKind::StandardRule => "STANDARD_RULE",
            CertificationObligationKind::FeatureRequirement => "FEATURE_REQUIREMENT",
            CertificationObligationKind::BehavioralRealization => "BEHAVIORAL_REALIZATION",
            CertificationObligationKind::BehavioralVerification => "BEHAVIORAL_VERIFICATION",
            CertificationObligationKind::EnvironmentalVerification => "ENVIRONMENTAL_VERIFICATION",
            CertificationObligationKind::ArtifactFreshness => "ARTIFACT_FRESHNESS",
        }
    }

    fn rank(self) -> (r: u8)
        ensures
            r == kind_rank(self),
    {
        match self {
            CertificationObligationKind::StandardRule => 0,
            CertificationObligationKind::FeatureRequirement => 1,
            CertificationObligationKind::BehavioralRealization => 2,
            CertificationObligationKind::BehavioralVerification => 3,
            CertificationObligationKind::EnvironmentalVerification => 4,
            CertificationObligationKind::ArtifactFreshness => 5,
        }
    }

    fn node_kind(self) -> (r: &'static str)
        ensures
            r@ == obligation_node_kind(self),
    {
        match self {
            CertificationObligationKind::StandardRule => "certification_obligation:standardrule",
            CertificationObligationKind::FeatureRequirement => "certification_obligation:featurerequirement",
            CertificationObligationKind::BehavioralRealization => "certification_obligation:behavioralrealization",
            CertificationObligationKind::BehavioralVerification => "certification_obligation:behavioralverification",
            CertificationObligationKind::EnvironmentalVerification =>
                "certification_obligation:environmentalverification",
            CertificationObligationKind::ArtifactFreshness => "certification_obligation:artifactfreshness",
        }
    }
}

/// Abstract value of one obligation.
pub struct ObligationModel {
    pub kind: CertificationObligationKind,
    pub subject: Seq<char>,
    pub required_evidence_classes: Seq<EvidenceClass>,
    pub evidence_refs: Seq<Seq<char>>,
    pub status: CertificationStatus,
    pub reason: Seq<char>,
}

/// One deterministic certification obligation and its supporting evidence.
#[derive(Debug)]
pub struct CertificationObligation {
    /// Obligation kind.
    pub kind: CertificationObligationKind,
    /// Stable semantic subject.
    pub subject: String,
    /// Accepted evidence classes.
    pub required_evidence_classes: Vec<EvidenceClass>,
    /// Content-addressed supporting evidence references.
    pub evidence_refs: Vec<String>,
    /// Derived status.
    pub status: CertificationStatus,
    /// Deterministic explanation.
    pub reason: String,
}

impl View for CertificationObligation {
    type V = ObligationModel;

    open spec fn view(&self) -> ObligationModel {
        ObligationModel {
            kind: self.kind,
            subject: self.subject@,
            required_evidence_classes: self.required_evidence_classes@,
            evidence_refs: texts(self.evidence_refs@),
            status: self.status,
            reason: self.reason@,
        }
    }
}

/// The names of evidence classes as JSON strings.
pub open spec fn class_values(cs: Seq<EvidenceClass>) -> Seq<JsonModel> {
    cs.map_values(|c: EvidenceClass| JsonModel::Text(class_name(c)))
}

/// An obligation as a JSON value: its fields in key order.
pub open spec fn obligation_document(o: ObligationModel) -> JsonModel {
    JsonModel::Object(
        seq![
            ("evidence_refs"@, JsonModel::Array(text_values(o.evidence_refs))),
            ("kind"@, JsonModel::Text(kind_name(o.kind))),
            ("reason"@, JsonModel::Text(o.reason)),
            ("required_evidence_classes"@, JsonModel::Array(class_values(o.required_evidence_classes))),
            ("status"@, JsonModel::Text(status_name(o.status))),
            ("subject"@, JsonModel::Text(o.subject)),
        ],
    )
}

impl CertificationObligation {
    /// Copies the obligation.
    pub fn duplicate(&self) -> (r: Self)
        ensures
            r@ == self@,
    {
        CertificationObligation {
            kind: self.kind,
            subject: copy_text(self.subject.as_str()),
            required_evidence_classes: self.required_evidence_classes.clone(),
            evidence_refs: copy_texts(self.evidence_refs.as_slice()),
            status: self.status,
            reason: copy_text(self.reason.as_str()),
        }
    }

    /// The obligation as a JSON value.
    pub fn to_json(&self) -> (r: Json)
        ensures
            r@ == obligation_document(self@),
    {
        let mut classes: Vec<Json> = Vec::new();
        let mut i: usize = 0;
        while i < self.required_evidence_classes.len()
            invariant
                i <= self.required_evidence_classes@.len(),
                classes@.len() == i,
                forall|k: int|
                    0 <= k < i ==> #[trigger] crate::json::json_model(classes@[k]) == JsonModel::Text(
                        class_name(self.required_evidence_classes@[k]),
                    ),
            decreases self.required_evidence_classes.len() - i,
        {
            classes.push(Json::Text(String::from_str(self.required_evidence_classes[i].name())));
            i = i + 1;
        }
        proof {
            crate::json::lemma_json_models(classes@);
            assert(crate::json::json_models(classes@) =~= class_values(self.required_evidence_classes@));
        }
        let members = vec![
            (String::from_str("evidence_refs"), text_array(self.evidence_refs.as_slice())),
            (String::from_str("kind"), Json::Text(String::from_str(self.kind.name()))),
            (String::from_str("reason"), Json::Text(copy_text(self.reason.as_str()))),
            (String::from_str("required_evidence_classes"), Json::Array(classes)),
            (String::from_str("status"), Json::Text(String::from_str(self.status.name()))),
            (String::from_str("subject"), Json::Text(copy_text(self.subject.as_str()))),
        ];
        proof {
            lemma_member_models(members@);
            assert(self.evidence_refs@.map_values(|s: String| s@) =~= texts(self.evidence_refs@));
            assert(member_models(members@) =~= seq![
                ("evidence_refs"@, JsonModel::Array(text_values(self@.evidence_refs))),
                ("kind"@, JsonModel::Text(kind_name(self.kind))),
                ("reason"@, JsonModel::Text(self.reason@)),
                ("required_evidence_classes"@, JsonModel::Array(class_values(self.required_evidence_classes@))),
                ("status"@, JsonModel::Text(status_name(self.status))),
                ("subject"@, JsonModel::Text(self.subject@)),
            ]);
        }
        Json::Object(members)
    }
}

// ---------------------------------------------------------------------------
// Inputs.

/// One applicable rule result supplied by the canonical rule engine.
#[derive(Debug)]
pub struct RuleEvidenceInput {
    /// Rule identity.
    pub rule_id: String,
    /// PASS, FAIL, UNSUPPORTED, or INVALID result.
    pub result: EvidenceResult,
    /// Whether the proof binds the current certification subject.
    pub current: bool,
    /// Normalized finding fingerprints.
    pub finding_fingerprints: Vec<String>,
    /// Exact semantic input evidence refs.
    pub input_refs: Vec<String>,
}

impl KeyedItem for RuleEvidenceInput {
    open spec fn item_key(&self) -> Seq<char> {
        self.rule_id@
    }

    fn key_text(&self) -> (k: &str) {
        self.rule_id.as_str()
    }
}

/// One canonical semantic artifact reference.
#[derive(Debug)]
pub struct ArtifactEvidenceInput {
    /// Artifact semantic kind.
    pub kind: String,
    /// Canonical artifact digest.
    pub digest: String,
    /// Artifact schema identity/version.
    pub schema: String,
    /// Whether it was regenerated from current inputs.
    pub current: bool,
    /// Upstream artifact kinds.
    pub input_refs: Vec<String>,
    /// Whether this artifact is observation rather than proof/authority.
    pub evidence_class: EvidenceClass,
    /// Explicit unsupported coverage labels.
    pub unsupported: Vec<String>,
}

impl KeyedItem for ArtifactEvidenceInput {
    open spec fn item_key(&self) -> Seq<char> {
        self.kind@
    }

    fn key_text(&self) -> (k: &str) {
        self.kind.as_str()
    }
}

/// One Feature Requirement and all its declared tests.
#[derive(Debug)]
pub struct RequirementEvidenceInput {
    /// Owning Feature identity.
    pub feature_id: String,
    /// Requirement identity.
    pub requirement_id: String,
    /// Declared required Test IDs.
    pub test_ids: Vec<String>,
}

impl KeyedItem for RequirementEvidenceInput {
    open spec fn item_key(&self) -> Seq<char> {
        self.requirement_id@
    }

    fn key_text(&self) -> (k: &str) {
        self.requirement_id.as_str()
    }
}

/// Generated verification obligation category.
#[derive(Clone, Copy, Debug, PartialEq, Eq, Structural)]
pub enum GeneratedVerificationKind {
    /// Behavioral checkpoint/edge/dominator obligation.
    Behavioral,
    /// Environmental fault/outcome scenario.
    Environmental,
}

/// One current generated verification obligation.
#[derive(Debug)]
pub struct GeneratedVerificationInput {
    /// Stable obligation identity.
    pub id: String,
    /// Owning Testing Module.
    pub testing_module: String,
    /// Behavioral or environmental provenance.
    pub kind: GeneratedVerificationKind,
    /// Related checkpoint/edge/scenario subjects.
    pub targets: Vec<String>,
}

impl KeyedItem for GeneratedVerificationInput {
    open spec fn item_key(&self) -> Seq<char> {
        self.id@
    }

    fn key_text(&self) -> (k: &str) {
        self.id.as_str()
    }
}

/// Distributed mapping from one generated obligation to owned Test IDs.
#[derive(Debug)]
pub struct VerificationBinding {
    /// Binding-owning Testing Module.
    pub testing_module: String,
    /// Current generated obligation identity.
    pub obligation: String,
    /// Sorted Test IDs owned by the Testing Module.
    pub tests: Vec<String>,
}

/// Opted-in behavioral realization aggregate.
#[derive(Debug)]
pub struct BehavioralRealizationEvidenceInput {
    /// Feature identity.
    pub feature: String,
    /// Whether current static semantics prove coherent realization.
    pub coherent: bool,
    /// Exact static proof artifact ref.
    pub evidence_ref: String,
}

impl KeyedItem for BehavioralRealizationEvidenceInput {
    open spec fn item_key(&self) -> Seq<char> {
        self.feature@
    }

    fn key_text(&self) -> (k: &str) {
        self.feature.as_str()
    }
}

/// Explicit trusted assertion dependency.
#[derive(Debug)]
pub struct TrustedAssertionInput {
    /// Stable assertion subject.
    pub subject: String,
    /// Authority kind such as endorsement, declassification, or atomicity.
    pub kind: String,
    /// Exact contract provenance.
    pub provenance: String,
}

impl KeyedItem for TrustedAssertionInput {
    open spec fn item_key(&self) -> Seq<char> {
        self.subject@
    }

    fn key_text(&self) -> (k: &str) {
        self.subject.as_str()
    }
}

/// Minimal meaningful Feature projection consumed by Verified BFG generation.
#[derive(Debug)]
pub struct BehavioralProjectionInput {
    /// Feature identity.
    pub feature: String,
    /// Checkpoint identities.
    pub checkpoints: Vec<String>,
    /// Intended edges `(source, target)`.
    pub intended_edges: Vec<(String, String)>,
    /// Realized checkpoint identities.
    pub realized_checkpoints: Vec<String>,
    /// Realized edges `(source, target)`.
    pub realized_edges: Vec<(String, String)>,
    /// Whether realization is contradicted.
    pub contradicted: bool,
}

/// Complete already-derived evidence inputs consumed by Certification.
#[derive(Debug)]
pub struct CertificationInput {
    /// Project identity.
    pub project_id: String,
    /// Exact certification source digest.
    pub source_digest: String,
    /// Standard identity/edition.
    pub standard: StandardIdentity,
    /// Certification profile.
    pub profile: CertificationProfile,
    /// Current semantic artifacts.
    pub artifacts: Vec<ArtifactEvidenceInput>,
    /// Complete sorted applicable Standard rule identities.
    pub applicable_rules: Vec<String>,
    /// Applicable Standard rule evaluations.
    pub rules: Vec<RuleEvidenceInput>,
    /// Feature Requirements.
    pub requirements: Vec<RequirementEvidenceInput>,
    /// Current Rust execution result.
    pub suite_execution: RustSuiteExecution,
    /// Opted-in realization results.
    pub behavioral_realizations: Vec<BehavioralRealizationEvidenceInput>,
    /// Generated verification obligations.
    pub generated_verification: Vec<GeneratedVerificationInput>,
    /// Distributed verification bindings.
    pub verification_bindings: Vec<VerificationBinding>,
    /// Trusted assertion dependencies.
    pub trusted_assertions: Vec<TrustedAssertionInput>,
    /// Intended/realized Feature projection used only for the Verified BFG.
    pub behavioral_projection: Vec<BehavioralProjectionInput>,
}

} // verus!
