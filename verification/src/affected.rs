//! Exact-snapshot affected dependency analysis and verified incremental reuse.
//!
//! This module identifies invalidation; it does not decide architectural truth.

pub mod analysis;
pub mod cache;
pub mod paths;

use vstd::prelude::*;

use crate::order::{
    canonical_sort, first_duplicate_key, has_duplicate_key, is_canonical, is_least_duplicate_key,
    keys, keys_strictly_sorted, lemma_permutation_duplicate_keys, lemma_permutation_views, views,
    CanonicalOrder, Keyed,
};
use crate::json::{
    json_model, json_models, lemma_json_models, lemma_member_models, member_models, pretty_document,
    render_pretty_document, text, text_array, text_values, Json, JsonModel,
};
use crate::text::{
    blank, contains_char, copy_text, is_blank, lemma_seq_le_reflexive, lemma_seq_le_total,
    lemma_seq_le_transitive, seq_le, texts_contain, texts,
};
pub use self::cache::{
    CachedProjection, IncrementalCacheState, IncrementalProjectionCache, ProjectionCacheKey,
    ProjectionDependency, ProjectionKind,
};
pub use self::analysis::{
    analyze_affected, AffectedAnalysis, AffectedSummary, AffectedUnitResult, AffectedUnitState,
    InvalidationReason,
};
use self::paths::{
    authority_of, canonical_relative_path, classify_authority_path, is_canonical_relative_path,
    is_sha256_identity, sha256_identity, AuthorityInputKind,
};

verus! {

/// Canonical affected-analysis document schema.
pub const AFFECTED_ANALYSIS_SCHEMA: &'static str = "urn:fortress:schema:v1:affected-analysis";

/// Canonical affected-analysis schema version.
pub const AFFECTED_ANALYSIS_SCHEMA_VERSION: u16 = 1;

/// Semantic implementation version for dependency and cache interpretation.
pub const AFFECTED_ANALYSIS_VERSION: &'static str = "1.0.0";

/// Stable affected dependency resolver identity.
pub const AFFECTED_ANALYZER_ID: &'static str = "fortress-affected-analysis";

/// Affected-analysis construction failure.
#[derive(Debug)]
pub enum AffectedAnalysisError {
    /// A repository path was not canonical and relative.
    InvalidRepositoryPath(String),
    /// A SHA-256 identity was malformed.
    InvalidDigest(String),
    /// A stable unit identity was empty or malformed.
    InvalidUnitIdentity(String),
    /// A unit depended on itself.
    SelfDependency(String),
    /// A unit repeated a direct dependency.
    DuplicateDependency(String),
    /// A canonical identity was duplicated.
    DuplicateIdentity {
        /// Identity class.
        class: String,
        /// Repeated identity.
        identity: String,
    },
    /// A unit referenced an absent dependency.
    UnresolvedDependency {
        /// Dependent unit.
        unit: String,
        /// Missing dependency.
        dependency: String,
    },
    /// Project cache segment was unsafe.
    InvalidCacheProject(String),
    /// A cache key document could not be serialized.
    Serialization,
}

/// The human explanation of an affected-analysis error.
pub open spec fn affected_error_message(e: AffectedAnalysisError) -> Seq<char> {
    match e {
        AffectedAnalysisError::InvalidRepositoryPath(path) => "repository path is not canonical and relative: "@ + path@,
        AffectedAnalysisError::InvalidDigest(digest) => "invalid SHA-256 identity: "@ + digest@,
        AffectedAnalysisError::InvalidUnitIdentity(identity) => "invalid affected unit identity: "@ + identity@,
        AffectedAnalysisError::SelfDependency(identity) => "affected unit depends on itself: "@ + identity@,
        AffectedAnalysisError::DuplicateDependency(identity) => "affected unit repeats a dependency: "@ + identity@,
        AffectedAnalysisError::DuplicateIdentity { class, identity } => "duplicate "@ + class@ + " identity: "@
            + identity@,
        AffectedAnalysisError::UnresolvedDependency { unit, dependency } => "affected unit `"@ + unit@
            + "` references absent `"@ + dependency@ + "`"@,
        AffectedAnalysisError::InvalidCacheProject(project) => "invalid incremental cache project segment: "@
            + project@,
        AffectedAnalysisError::Serialization => "cache key serialization failed"@,
    }
}

impl AffectedAnalysisError {
    /// Deterministic human explanation.
    pub fn message(&self) -> (r: String)
        ensures
            r@ == affected_error_message(*self),
    {
        match self {
            AffectedAnalysisError::InvalidRepositoryPath(path) => {
                crate::text::concat("repository path is not canonical and relative: ", path)
            },
            AffectedAnalysisError::InvalidDigest(digest) => {
                crate::text::concat("invalid SHA-256 identity: ", digest)
            },
            AffectedAnalysisError::InvalidUnitIdentity(identity) => {
                crate::text::concat("invalid affected unit identity: ", identity)
            },
            AffectedAnalysisError::SelfDependency(identity) => {
                crate::text::concat("affected unit depends on itself: ", identity)
            },
            AffectedAnalysisError::DuplicateDependency(identity) => {
                crate::text::concat("affected unit repeats a dependency: ", identity)
            },
            AffectedAnalysisError::DuplicateIdentity { class, identity } => {
                let head = crate::text::concat("duplicate ", class);
                let head = crate::text::concat(&head, " identity: ");
                crate::text::concat(&head, identity)
            },
            AffectedAnalysisError::UnresolvedDependency { unit, dependency } => {
                let head = crate::text::concat("affected unit `", unit);
                let head = crate::text::concat(&head, "` references absent `");
                let head = crate::text::concat(&head, dependency);
                crate::text::concat(&head, "`")
            },
            AffectedAnalysisError::InvalidCacheProject(project) => {
                crate::text::concat("invalid incremental cache project segment: ", project)
            },
            AffectedAnalysisError::Serialization => {
                crate::text::copy_text("cache key serialization failed")
            },
        }
    }
}

/// Abstract value of one repository input.
pub struct InputModel {
    pub path: Seq<char>,
    pub digest: Seq<char>,
    pub bytes: u64,
    pub kind: AuthorityInputKind,
}

/// One exact repository input used by affected comparison.
#[derive(Clone, Debug, PartialEq, Eq)]
pub struct AffectedInput {
    path: String,
    digest: String,
    bytes: u64,
    kind: AuthorityInputKind,
}

impl View for AffectedInput {
    type V = InputModel;

    closed spec fn view(&self) -> InputModel {
        InputModel { path: self.path@, digest: self.digest@, bytes: self.bytes, kind: self.kind }
    }
}

/// A well-formed repository input.
pub open spec fn input_wf(i: InputModel) -> bool {
    &&& is_canonical_relative_path(i.path)
    &&& is_sha256_identity(i.digest)
    &&& i.kind == authority_of(i.path)
}

impl AffectedInput {
    /// Creates one canonical repository-relative input.
    pub fn new(path: String, digest: String, bytes: u64) -> (r: Result<Self, AffectedAnalysisError>)
        ensures
            !is_canonical_relative_path(path@) ==> r == Err::<Self, _>(
                AffectedAnalysisError::InvalidRepositoryPath(path),
            ),
            is_canonical_relative_path(path@) && !is_sha256_identity(digest@) ==> r == Err::<
                Self,
                _,
            >(AffectedAnalysisError::InvalidDigest(digest)),
            is_canonical_relative_path(path@) && is_sha256_identity(digest@) ==> (r matches Ok(
                input,
            ) && input@ == (InputModel {
                path: path@,
                digest: digest@,
                bytes,
                kind: authority_of(path@),
            })),
    {
        if !canonical_relative_path(path.as_str()) {
            return Err(AffectedAnalysisError::InvalidRepositoryPath(path));
        }
        if !sha256_identity(digest.as_str()) {
            return Err(AffectedAnalysisError::InvalidDigest(digest));
        }
        let kind = classify_authority_path(path.as_str());
        Ok(AffectedInput { path, digest, bytes, kind })
    }

    /// Returns the canonical repository-relative path.
    pub fn path(&self) -> (r: &str)
        ensures
            r@ == self@.path,
    {
        self.path.as_str()
    }

    /// Returns the exact content digest.
    pub fn digest(&self) -> (r: &str)
        ensures
            r@ == self@.digest,
    {
        self.digest.as_str()
    }

    /// Returns the exact byte length.
    pub fn bytes(&self) -> (r: u64)
        ensures
            r == self@.bytes,
    {
        self.bytes
    }

    /// Returns the input authority class.
    pub fn kind(&self) -> (r: AuthorityInputKind)
        ensures
            r == self@.kind,
    {
        self.kind
    }
}

impl Keyed for AffectedInput {
    open spec fn key_of(v: InputModel) -> Seq<char> {
        v.path
    }

    fn key(&self) -> (k: &str) {
        self.path.as_str()
    }
}

impl CanonicalOrder for AffectedInput {
    open spec fn ordered(a: InputModel, b: InputModel) -> bool {
        seq_le(a.path, b.path)
    }

    proof fn lemma_ordered_reflexive(a: InputModel) {
        lemma_seq_le_reflexive(a.path);
    }

    proof fn lemma_ordered_transitive(a: InputModel, b: InputModel, c: InputModel) {
        lemma_seq_le_transitive(a.path, b.path, c.path);
    }

    proof fn lemma_ordered_total(a: InputModel, b: InputModel) {
        lemma_seq_le_total(a.path, b.path);
    }

    fn precedes(&self, other: &Self) -> (r: bool) {
        crate::text::text_le(self.path.as_str(), other.path.as_str())
    }
}

/// Stable semantic unit category in the affected graph.
#[derive(Clone, Copy, Debug, PartialEq, Eq, Structural)]
pub enum AffectedUnitKind {
    /// Exact authoritative repository file.
    AuthorityInput,
    /// Observed source artifact and resolved ownership.
    SourceArtifact,
    /// Executable or nominal semantic symbol.
    Symbol,
    /// One supported or explicitly uncertain call relationship.
    CallRelationship,
    /// Authored Module semantic identity.
    Module,
    /// Direct or transitive effect consequence.
    Effect,
    /// Derived capability consequence.
    Capability,
    /// One authored-policy conformance claim.
    ConformanceClaim,
    /// Canonical finding identity.
    Finding,
    /// Evidence node or compact evidence aggregate.
    Evidence,
    /// Certification obligation.
    CertificationObligation,
    /// Canonical materialized projection.
    Projection,
}

/// Abstract value of one dependency unit.
pub struct UnitModel {
    pub id: Seq<char>,
    pub kind: AffectedUnitKind,
    pub digest: Seq<char>,
    pub dependencies: Seq<Seq<char>>,
}

/// One content-addressed unit and its complete direct semantic dependencies.
#[derive(Clone, Debug, PartialEq, Eq)]
pub struct AffectedUnit {
    id: String,
    kind: AffectedUnitKind,
    digest: String,
    dependencies: Vec<String>,
}

impl View for AffectedUnit {
    type V = UnitModel;

    closed spec fn view(&self) -> UnitModel {
        UnitModel {
            id: self.id@,
            kind: self.kind,
            digest: self.digest@,
            dependencies: texts(self.dependencies@),
        }
    }
}

/// A valid stable unit identity: not blank and free of NUL.
pub open spec fn is_unit_identity(id: Seq<char>) -> bool {
    !is_blank(id) && !id.contains('\0')
}

/// A well-formed unit: valid identity and digest, strictly ordered
/// dependencies, and no self-dependency.
pub open spec fn unit_wf(u: UnitModel) -> bool {
    &&& is_unit_identity(u.id)
    &&& is_sha256_identity(u.digest)
    &&& crate::text::strictly_sorted(u.dependencies)
    &&& !u.dependencies.contains(u.id)
}

impl AffectedUnit {
    /// Creates a canonical dependency unit.
    pub fn new(
        id: String,
        kind: AffectedUnitKind,
        digest: String,
        dependencies: Vec<String>,
    ) -> (r: Result<Self, AffectedAnalysisError>)
        ensures
            !is_unit_identity(id@) ==> r == Err::<Self, _>(
                AffectedAnalysisError::InvalidUnitIdentity(id),
            ),
            is_unit_identity(id@) && !is_sha256_identity(digest@) ==> r == Err::<Self, _>(
                AffectedAnalysisError::InvalidDigest(digest),
            ),
            is_unit_identity(id@) && is_sha256_identity(digest@) && has_duplicate_key(
                dependencies@,
            ) ==> r == Err::<Self, _>(AffectedAnalysisError::DuplicateDependency(id)),
            is_unit_identity(id@) && is_sha256_identity(digest@) && !has_duplicate_key(
                dependencies@,
            ) && texts(dependencies@).contains(id@) ==> r == Err::<Self, _>(
                AffectedAnalysisError::SelfDependency(id),
            ),
            is_unit_identity(id@) && is_sha256_identity(digest@) && !has_duplicate_key(
                dependencies@,
            ) && !texts(dependencies@).contains(id@) ==> (r matches Ok(unit) && unit@.id == id@
                && unit@.kind == kind && unit@.digest == digest@ && crate::text::strictly_sorted(
                unit@.dependencies,
            ) && (forall|d: Seq<char>|
                unit@.dependencies.contains(d) <==> texts(dependencies@).contains(d))),
            r matches Ok(unit) ==> unit_wf(unit@),
    {
        if blank(id.as_str()) || contains_char(id.as_str(), '\0') {
            return Err(AffectedAnalysisError::InvalidUnitIdentity(id));
        }
        if !sha256_identity(digest.as_str()) {
            return Err(AffectedAnalysisError::InvalidDigest(digest));
        }
        let ghost original = dependencies@;
        let sorted = canonical_sort(dependencies);
        proof {
            lemma_permutation_duplicate_keys(original, sorted@);
            lemma_permutation_views(original, sorted@);
            assert(keys(sorted@) =~= texts(sorted@));
            assert(keys(original) =~= texts(original));
            assert(views(sorted@) =~= texts(sorted@));
            assert(views(original) =~= texts(original));
            assert(crate::order::keys_sorted(sorted@)) by {
                assert(is_canonical::<String>(views(sorted@)));
            }
        }
        if first_duplicate_key(&sorted).is_some() {
            return Err(AffectedAnalysisError::DuplicateDependency(id));
        }
        if texts_contain(&sorted, id.as_str()) {
            return Err(AffectedAnalysisError::SelfDependency(id));
        }
        proof {
            assert(crate::text::strictly_sorted(texts(sorted@))) by {
                assert(keys_strictly_sorted(sorted@));
            }
        }
        Ok(AffectedUnit { id, kind, digest, dependencies: sorted })
    }

    /// Returns the stable semantic unit identity.
    pub fn id(&self) -> (r: &str)
        ensures
            r@ == self@.id,
    {
        self.id.as_str()
    }

    /// Returns the semantic unit category.
    pub fn kind(&self) -> (r: AffectedUnitKind)
        ensures
            r == self@.kind,
    {
        self.kind
    }

    /// Returns the unit content/meaning digest.
    pub fn digest(&self) -> (r: &str)
        ensures
            r@ == self@.digest,
    {
        self.digest.as_str()
    }

    /// Returns complete direct dependency identities.
    pub fn dependencies(&self) -> (r: &[String])
        ensures
            texts(r@) == self@.dependencies,
    {
        self.dependencies.as_slice()
    }
}

impl Keyed for AffectedUnit {
    open spec fn key_of(v: UnitModel) -> Seq<char> {
        v.id
    }

    fn key(&self) -> (k: &str) {
        self.id.as_str()
    }
}

impl CanonicalOrder for AffectedUnit {
    open spec fn ordered(a: UnitModel, b: UnitModel) -> bool {
        seq_le(a.id, b.id)
    }

    proof fn lemma_ordered_reflexive(a: UnitModel) {
        lemma_seq_le_reflexive(a.id);
    }

    proof fn lemma_ordered_transitive(a: UnitModel, b: UnitModel, c: UnitModel) {
        lemma_seq_le_transitive(a.id, b.id, c.id);
    }

    proof fn lemma_ordered_total(a: UnitModel, b: UnitModel) {
        lemma_seq_le_total(a.id, b.id);
    }

    fn precedes(&self, other: &Self) -> (r: bool) {
        crate::text::text_le(self.id.as_str(), other.id.as_str())
    }
}

/// Abstract value of one exact snapshot.
pub struct SnapshotModel {
    pub schema: Seq<char>,
    pub schema_version: u16,
    pub semantic_version: Seq<char>,
    pub source_fingerprint: Seq<char>,
    pub inputs: Seq<InputModel>,
    pub units: Seq<UnitModel>,
}

/// Exact dependency snapshot for one observed repository state.
#[derive(Debug, PartialEq, Eq)]
pub struct AffectedSnapshot {
    schema: String,
    schema_version: u16,
    semantic_version: String,
    source_fingerprint: String,
    inputs: Vec<AffectedInput>,
    units: Vec<AffectedUnit>,
}

impl View for AffectedSnapshot {
    type V = SnapshotModel;

    closed spec fn view(&self) -> SnapshotModel {
        SnapshotModel {
            schema: self.schema@,
            schema_version: self.schema_version,
            semantic_version: self.semantic_version@,
            source_fingerprint: self.source_fingerprint@,
            inputs: views(self.inputs@),
            units: views(self.units@),
        }
    }
}

/// The ids of a sequence of units.
pub open spec fn unit_ids(units: Seq<UnitModel>) -> Seq<Seq<char>> {
    units.map_values(|u: UnitModel| u.id)
}

/// Every direct dependency names a unit of the graph.
pub open spec fn dependencies_resolved(units: Seq<UnitModel>) -> bool {
    forall|i: int, k: int|
        0 <= i < units.len() && 0 <= k < units[i].dependencies.len() ==> unit_ids(
            units,
        ).contains(#[trigger] units[i].dependencies[k])
}

/// Whether dependencies resolve depends only on which units there are.
proof fn lemma_resolved_same_units(a: Seq<UnitModel>, b: Seq<UnitModel>)
    requires
        forall|x: UnitModel| a.contains(x) <==> b.contains(x),
        dependencies_resolved(b),
    ensures
        dependencies_resolved(a),
{
    assert forall|i: int, k: int| 0 <= i < a.len() && 0 <= k < a[i].dependencies.len() implies unit_ids(a).contains(
        #[trigger] a[i].dependencies[k],
    ) by {
        assert(a.contains(a[i]));
        let j = choose|j: int| 0 <= j < b.len() && b[j] == a[i];
        assert(b[j].dependencies[k] == a[i].dependencies[k]);
        assert(unit_ids(b).contains(b[j].dependencies[k]));
        let m = choose|m: int| 0 <= m < unit_ids(b).len() && unit_ids(b)[m] == a[i].dependencies[k];
        assert(unit_ids(b)[m] == b[m].id);
        assert(b.contains(b[m]));
        let q = choose|q: int| 0 <= q < a.len() && a[q] == b[m];
        assert(unit_ids(a)[q] == a[q].id);
    }
}

/// A well-formed snapshot: valid fingerprint, uniquely and canonically
/// ordered inputs and units, each well formed, and a closed dependency graph.
pub open spec fn snapshot_wf(s: SnapshotModel) -> bool {
    &&& s.schema == AFFECTED_ANALYSIS_SCHEMA@
    &&& s.schema_version == AFFECTED_ANALYSIS_SCHEMA_VERSION
    &&& s.semantic_version == AFFECTED_ANALYSIS_VERSION@
    &&& is_sha256_identity(s.source_fingerprint)
    &&& crate::text::strictly_sorted(s.inputs.map_values(|i: InputModel| i.path))
    &&& crate::text::strictly_sorted(unit_ids(s.units))
    &&& forall|i: int| 0 <= i < s.inputs.len() ==> input_wf(#[trigger] s.inputs[i])
    &&& forall|i: int| 0 <= i < s.units.len() ==> unit_wf(#[trigger] s.units[i])
    &&& dependencies_resolved(s.units)
}

/// `u` has a dependency naming no unit of `units`.
pub open spec fn has_unresolved(units: Seq<UnitModel>, u: UnitModel) -> bool {
    exists|k: int|
        0 <= k < u.dependencies.len() && !unit_ids(units).contains(#[trigger] u.dependencies[k])
}

/// `unit` is the least unit id with an unresolved dependency and `dependency`
/// is that unit's least unresolved dependency.
pub open spec fn is_least_unresolved(
    units: Seq<UnitModel>,
    unit: Seq<char>,
    dependency: Seq<char>,
) -> bool {
    &&& exists|i: int|
        0 <= i < units.len() && #[trigger] units[i].id == unit && units[i].dependencies.contains(
            dependency,
        ) && !unit_ids(units).contains(dependency) && forall|d: Seq<char>|
            #![trigger units[i].dependencies.contains(d)]
            units[i].dependencies.contains(d) && !unit_ids(units).contains(d) ==> seq_le(
                dependency,
                d,
            )
    &&& forall|j: int| 0 <= j < units.len() && has_unresolved(units, #[trigger] units[j]) ==> seq_le(unit, units[j].id)
}

impl AffectedSnapshot {
    #[verifier::type_invariant]
    closed spec fn inv(self) -> bool {
        &&& snapshot_wf(self@)
        &&& self.inputs@.len() <= usize::MAX
        &&& self.units@.len() <= usize::MAX
    }

    /// Creates and validates one canonical exact-snapshot dependency graph.
    ///
    /// Every input and unit must already be well formed (they are only
    /// obtainable through their validating constructors).
    pub fn new(
        source_fingerprint: String,
        inputs: Vec<AffectedInput>,
        units: Vec<AffectedUnit>,
    ) -> (r: Result<Self, AffectedAnalysisError>)
        requires
            forall|i: int| 0 <= i < inputs@.len() ==> input_wf(#[trigger] inputs@[i]@),
            forall|i: int| 0 <= i < units@.len() ==> unit_wf(#[trigger] units@[i]@),
        ensures
            !is_sha256_identity(source_fingerprint@) ==> r == Err::<Self, _>(
                AffectedAnalysisError::InvalidDigest(source_fingerprint),
            ),
            is_sha256_identity(source_fingerprint@) && has_duplicate_key(inputs@) ==> (r matches Err(
                AffectedAnalysisError::DuplicateIdentity { class, identity },
            ) && class@ == "input"@ && is_least_duplicate_key(inputs@, identity@)),
            is_sha256_identity(source_fingerprint@) && !has_duplicate_key(inputs@)
                && has_duplicate_key(units@) ==> (r matches Err(
                AffectedAnalysisError::DuplicateIdentity { class, identity },
            ) && class@ == "unit"@ && is_least_duplicate_key(units@, identity@)),
            r matches Err(AffectedAnalysisError::UnresolvedDependency { unit, dependency })
                ==> is_least_unresolved(views(units@), unit@, dependency@),
            is_sha256_identity(source_fingerprint@) && !has_duplicate_key(inputs@)
                && !has_duplicate_key(units@) && !dependencies_resolved(views(units@)) ==> r matches Err(
                AffectedAnalysisError::UnresolvedDependency { .. },
            ),
            r matches Ok(snapshot) ==> snapshot@.source_fingerprint == source_fingerprint@
                && snapshot_wf(snapshot@) && (forall|x: InputModel|
                snapshot@.inputs.contains(x) <==> views(inputs@).contains(x)) && (forall|
                x: UnitModel,
            | snapshot@.units.contains(x) <==> views(units@).contains(x)),
            is_sha256_identity(source_fingerprint@) && !has_duplicate_key(inputs@)
                && !has_duplicate_key(units@) && dependencies_resolved(views(units@)) ==> r is Ok,
    {
        if !sha256_identity(source_fingerprint.as_str()) {
            return Err(AffectedAnalysisError::InvalidDigest(source_fingerprint));
        }
        let ghost original_inputs = inputs@;
        let ghost original_units = units@;
        let inputs = canonical_sort(inputs);
        let units = canonical_sort(units);
        proof {
            lemma_permutation_duplicate_keys(original_inputs, inputs@);
            lemma_permutation_duplicate_keys(original_units, units@);
            lemma_permutation_views(original_inputs, inputs@);
            lemma_permutation_views(original_units, units@);
            assert forall|a: int, b: int| 0 <= a < b < inputs@.len() implies seq_le(
                #[trigger] keys(inputs@)[a],
                #[trigger] keys(inputs@)[b],
            ) by {
                assert(AffectedInput::ordered(views(inputs@)[a], views(inputs@)[b]));
            }
            assert forall|a: int, b: int| 0 <= a < b < units@.len() implies seq_le(
                #[trigger] keys(units@)[a],
                #[trigger] keys(units@)[b],
            ) by {
                assert(AffectedUnit::ordered(views(units@)[a], views(units@)[b]));
            }
        }
        if let Some(i) = first_duplicate_key(&inputs) {
            let identity = copy_text(inputs[i].path.as_str());
            return Err(
                AffectedAnalysisError::DuplicateIdentity {
                    class: copy_text("input"),
                    identity,
                },
            );
        }
        if let Some(i) = first_duplicate_key(&units) {
            let identity = copy_text(units[i].id.as_str());
            return Err(
                AffectedAnalysisError::DuplicateIdentity { class: copy_text("unit"), identity },
            );
        }
        proof {
            assert forall|i: int| 0 <= i < inputs@.len() implies input_wf(
                #[trigger] inputs@[i]@,
            ) by {
                assert(views(inputs@).contains(inputs@[i]@)) by {
                    assert(views(inputs@)[i] == inputs@[i]@);
                }
                let m = choose|m: int|
                    0 <= m < views(original_inputs).len() && views(original_inputs)[m]
                        == inputs@[i]@;
                assert(input_wf(original_inputs[m]@));
            }
            assert forall|i: int| 0 <= i < units@.len() implies unit_wf(#[trigger] units@[i]@) by {
                assert(views(units@).contains(units@[i]@)) by {
                    assert(views(units@)[i] == units@[i]@);
                }
                let m = choose|m: int|
                    0 <= m < views(original_units).len() && views(original_units)[m]
                        == units@[i]@;
                assert(unit_wf(original_units[m]@));
            }
        }
        let ghost model = views(units@);
        let ghost ids = unit_ids(model);
        proof {
            assert(keys(units@) =~= ids);
            assert forall|a: int, b: int| 0 <= a < b < ids.len() implies crate::text::seq_lt(
                #[trigger] ids[a],
                #[trigger] ids[b],
            ) by {
                assert(seq_le(keys(units@)[a], keys(units@)[b]));
                assert(keys(units@)[a] != keys(units@)[b]);
            }
        }
        if let Some((i, k)) = find_unresolved(&units) {
            proof {
                lemma_least_unresolved(original_units, units@, i as int, k as int);
            }
            return Err(
                AffectedAnalysisError::UnresolvedDependency {
                    unit: copy_text(units[i].id.as_str()),
                    dependency: copy_text(units[i].dependencies[k].as_str()),
                },
            );
        }
        proof {
            assert(dependencies_resolved(model));
            lemma_resolved_same_units(views(original_units), model);
            assert(keys(units@) =~= ids);
            assert(keys(inputs@) =~= views(inputs@).map_values(|x: InputModel| x.path));
            assert(crate::text::strictly_sorted(views(inputs@).map_values(|x: InputModel| x.path)));
            assert(crate::text::strictly_sorted(unit_ids(views(units@))));
        }
        let n_inputs = inputs.len();
        let n_units = units.len();
        let snapshot = AffectedSnapshot {
            schema: copy_text(AFFECTED_ANALYSIS_SCHEMA),
            schema_version: AFFECTED_ANALYSIS_SCHEMA_VERSION,
            semantic_version: copy_text(AFFECTED_ANALYSIS_VERSION),
            source_fingerprint,
            inputs,
            units,
        };
        Ok(snapshot)
    }

    /// Returns the exact repository source fingerprint.
    pub fn source_fingerprint(&self) -> (r: &str)
        ensures
            r@ == self@.source_fingerprint,
    {
        self.source_fingerprint.as_str()
    }

    /// Returns canonical repository inputs.
    pub fn inputs(&self) -> (r: &[AffectedInput])
        ensures
            views(r@) == self@.inputs,
    {
        self.inputs.as_slice()
    }

    /// Returns canonical dependency units.
    pub fn units(&self) -> (r: &[AffectedUnit])
        ensures
            views(r@) == self@.units,
    {
        self.units.as_slice()
    }
}

proof fn lemma_least_unresolved(
    original: Seq<AffectedUnit>,
    sorted: Seq<AffectedUnit>,
    i: int,
    k: int,
)
    requires
        original.to_multiset() == sorted.to_multiset(),
        keys_strictly_sorted(sorted),
        forall|x: UnitModel| views(sorted).contains(x) <==> views(original).contains(x),
        forall|j: int| 0 <= j < sorted.len() ==> unit_wf(#[trigger] sorted[j]@),
        0 <= i < sorted.len(),
        0 <= k < sorted[i]@.dependencies.len(),
        !unit_ids(views(sorted)).contains(sorted[i]@.dependencies[k]),
        forall|k2: int|
            0 <= k2 < k ==> unit_ids(views(sorted)).contains(sorted[i]@.dependencies[k2]),
        forall|i2: int, k2: int|
            0 <= i2 < i && 0 <= k2 < views(sorted)[i2].dependencies.len() ==> unit_ids(
                views(sorted),
            ).contains(#[trigger] views(sorted)[i2].dependencies[k2]),
    ensures
        is_least_unresolved(
            views(original),
            sorted[i]@.id,
            sorted[i]@.dependencies[k],
        ),
{
    let vs = views(sorted);
    let vo = views(original);
    let u = sorted[i]@;
    let d = u.dependencies[k];
    assert forall|x: Seq<char>| unit_ids(vs).contains(x) <==> unit_ids(vo).contains(x) by {
        if unit_ids(vs).contains(x) {
            let a = choose|a: int| 0 <= a < unit_ids(vs).len() && unit_ids(vs)[a] == x;
            assert(vs.contains(vs[a]));
            let b = choose|b: int| 0 <= b < vo.len() && vo[b] == vs[a];
            assert(unit_ids(vo)[b] == x);
        }
        if unit_ids(vo).contains(x) {
            let a = choose|a: int| 0 <= a < unit_ids(vo).len() && unit_ids(vo)[a] == x;
            assert(vo.contains(vo[a]));
            let b = choose|b: int| 0 <= b < vs.len() && vs[b] == vo[a];
            assert(unit_ids(vs)[b] == x);
        }
    }
    assert(vs[i] == u);
    assert(vs.contains(u));
    let io = choose|io: int| 0 <= io < vo.len() && vo[io] == u;
    assert(vo[io].id == u.id);
    assert(u.dependencies.contains(d));
    assert forall|e: Seq<char>|
        #![trigger u.dependencies.contains(e)]
        u.dependencies.contains(e) && !unit_ids(vo).contains(e) implies seq_le(d, e) by {
        let ke = choose|ke: int| 0 <= ke < u.dependencies.len() && u.dependencies[ke] == e;
        if ke < k {
            assert(unit_ids(vs).contains(u.dependencies[ke]));
        } else if ke > k {
            assert(crate::text::strictly_sorted(u.dependencies));
            assert(crate::text::seq_lt(u.dependencies[k], u.dependencies[ke]));
        } else {
            lemma_seq_le_reflexive(d);
        }
    }
    assert forall|j: int| 0 <= j < vo.len() && has_unresolved(vo, #[trigger] vo[j]) implies seq_le(
        u.id,
        vo[j].id,
    ) by {
        assert(vo.contains(vo[j]));
        let m = choose|m: int| 0 <= m < vs.len() && vs[m] == vo[j];
        let kk = choose|kk: int|
            0 <= kk < vo[j].dependencies.len() && !unit_ids(vo).contains(
                #[trigger] vo[j].dependencies[kk],
            );
        if m < i {
            assert(unit_ids(vs).contains(vs[m].dependencies[kk]));
        } else if m > i {
            assert(keys(sorted)[i] == u.id && keys(sorted)[m] == vs[m].id);
            assert(crate::text::seq_lt(keys(sorted)[i], keys(sorted)[m]));
        } else {
            lemma_seq_le_reflexive(u.id);
        }
    }
}

/// Finds the first unit, and its first dependency, that names no unit.
fn find_unresolved(units: &Vec<AffectedUnit>) -> (r: Option<(usize, usize)>)
    requires
        crate::text::strictly_sorted(unit_ids(views(units@))),
    ensures
        r is None ==> dependencies_resolved(views(units@)),
        r matches Some((i, k)) ==> i < units@.len() && k < units@[i as int]@.dependencies.len()
            && !unit_ids(views(units@)).contains(units@[i as int]@.dependencies[k as int])
            && (forall|k2: int|
            0 <= k2 < k ==> unit_ids(views(units@)).contains(
                units@[i as int]@.dependencies[k2],
            )) && (forall|i2: int, k2: int|
            0 <= i2 < i && 0 <= k2 < views(units@)[i2].dependencies.len() ==> unit_ids(
                views(units@),
            ).contains(#[trigger] views(units@)[i2].dependencies[k2])),
{
    let ghost model = views(units@);
    let ghost ids = unit_ids(model);
    let mut i: usize = 0;
    while i < units.len()
        invariant
            i <= units@.len(),
            model == views(units@),
            ids == unit_ids(model),
            crate::text::strictly_sorted(ids),
            forall|i2: int, k2: int|
                0 <= i2 < i && 0 <= k2 < model[i2].dependencies.len() ==> ids.contains(
                    #[trigger] model[i2].dependencies[k2],
                ),
        decreases units.len() - i,
    {
        let deps = units[i].dependencies.as_slice();
        assert(model[i as int] == units@[i as int]@);
        let mut k: usize = 0;
        while k < deps.len()
            invariant
                i < units@.len(),
                model == views(units@),
                ids == unit_ids(model),
                crate::text::strictly_sorted(ids),
                texts(deps@) == model[i as int].dependencies,
                k <= deps@.len(),
                forall|k2: int| 0 <= k2 < k ==> ids.contains(model[i as int].dependencies[k2]),
                forall|i2: int, k2: int|
                    0 <= i2 < i && 0 <= k2 < model[i2].dependencies.len() ==> ids.contains(
                        #[trigger] model[i2].dependencies[k2],
                    ),
            decreases deps.len() - k,
        {
            let found = unit_position(units, deps[k].as_str());
            assert(texts(deps@)[k as int] == deps@[k as int]@);
            match found {
                None => {
                    return Some((i, k));
                },
                Some(p) => {
                    assert(ids[p as int] == model[i as int].dependencies[k as int]);
                },
            }
            k = k + 1;
        }
        i = i + 1;
    }
    None
}

/// Finds the position of the unit with the given id.
fn unit_position(units: &Vec<AffectedUnit>, id: &str) -> (r: Option<usize>)
    requires
        crate::text::strictly_sorted(unit_ids(views(units@))),
    ensures
        r is None ==> !unit_ids(views(units@)).contains(id@),
        r matches Some(p) ==> p < units@.len() && units@[p as int]@.id == id@,
{
    unit_position_in(units.as_slice(), id)
}

/// No earlier unit with the same id has the same digest and dependencies:
/// the unit is new, or its own meaning or direct dependency set changed.
pub open spec fn directly_changed(previous: Seq<UnitModel>, u: UnitModel) -> bool {
    forall|j: int|
        0 <= j < previous.len() && #[trigger] previous[j].id == u.id ==> (previous[j].digest
            != u.digest || previous[j].dependencies != u.dependencies)
}

/// Unit `c` directly depends on unit `d`.
pub open spec fn depends_on(units: Seq<UnitModel>, c: int, d: int) -> bool {
    units[c].dependencies.contains(units[d].id)
}

/// `path` walks from each unit to one of its direct dependencies.
pub open spec fn is_dependency_path(units: Seq<UnitModel>, path: Seq<int>) -> bool {
    &&& path.len() > 0
    &&& forall|t: int| 0 <= t < path.len() ==> 0 <= #[trigger] path[t] < units.len()
    &&& forall|t: int| 0 <= t < path.len() - 1 ==> depends_on(units, #[trigger] path[t], path[t + 1])
}

/// Unit `c` of `current` must be recomputed: some dependency path from it
/// (possibly empty) reaches a directly changed unit.
pub open spec fn is_affected(previous: Seq<UnitModel>, current: Seq<UnitModel>, c: int) -> bool {
    exists|path: Seq<int>|
        #[trigger] is_dependency_path(current, path) && path[0] == c && directly_changed(
            previous,
            current[path.last()],
        )
}

/// Number of unset flags.
pub open spec fn count_unset(flags: Seq<bool>) -> nat
    decreases flags.len(),
{
    if flags.len() == 0 {
        0
    } else {
        count_unset(flags.drop_last()) + if flags.last() {
            0nat
        } else {
            1nat
        }
    }
}

proof fn lemma_count_unset_set(flags: Seq<bool>, i: int)
    requires
        0 <= i < flags.len(),
        !flags[i],
    ensures
        count_unset(flags.update(i, true)) + 1 == count_unset(flags),
    decreases flags.len(),
{
    if i < flags.len() - 1 {
        lemma_count_unset_set(flags.drop_last(), i);
        assert(flags.update(i, true).drop_last() =~= flags.drop_last().update(i, true));
    } else {
        assert(flags.update(i, true).drop_last() =~= flags.drop_last());
    }
}

proof fn lemma_closed_flags_cover_affected(
    previous: Seq<UnitModel>,
    current: Seq<UnitModel>,
    flags: Seq<bool>,
    path: Seq<int>,
)
    requires
        flags.len() == current.len(),
        is_dependency_path(current, path),
        directly_changed(previous, current[path.last()]),
        forall|c: int| 0 <= c < current.len() && directly_changed(previous, current[c]) ==> flags[c],
        forall|c: int, d: int|
            0 <= c < current.len() && 0 <= d < current.len() && #[trigger] depends_on(current, c, d)
                && flags[d] ==> flags[c],
    ensures
        flags[path[0]],
    decreases path.len(),
{
    if path.len() > 1 {
        let rest = path.drop_first();
        assert(is_dependency_path(current, rest)) by {
            assert forall|t: int| 0 <= t < rest.len() - 1 implies depends_on(
                current,
                #[trigger] rest[t],
                rest[t + 1],
            ) by {
                assert(rest[t] == path[t + 1] && rest[t + 1] == path[t + 2]);
            }
            assert forall|t: int| 0 <= t < rest.len() implies 0 <= #[trigger] rest[t]
                < current.len() by {
                assert(rest[t] == path[t + 1]);
            }
        }
        assert(rest.last() == path.last());
        lemma_closed_flags_cover_affected(previous, current, flags, rest);
        assert(depends_on(current, path[0], path[1]));
    }
}

/// Whether the previous graph holds the same unit id with identical digest
/// and dependency identities.
fn unit_directly_changed(previous: &[AffectedUnit], u: &AffectedUnit) -> (r: bool)
    requires
        crate::text::strictly_sorted(unit_ids(views(previous@))),
    ensures
        r == directly_changed(views(previous@), u@),
{
    let ghost pv = views(previous@);
    match unit_position_in(previous, u.id()) {
        None => {
            proof {
                assert forall|j: int| 0 <= j < pv.len() implies #[trigger] pv[j].id != u@.id by {
                    assert(unit_ids(pv)[j] == pv[j].id);
                }
            }
            true
        },
        Some(p) => {
            let q = &previous[p];
            assert(pv[p as int] == q@);
            proof {
                assert forall|j: int| 0 <= j < pv.len() && #[trigger] pv[j].id == u@.id implies j == p by {
                    if j != p {
                        assert(unit_ids(pv)[j] == pv[j].id);
                        assert(unit_ids(pv)[p as int] == pv[p as int].id);
                        if j < p {
                            assert(crate::text::seq_lt(unit_ids(pv)[j], unit_ids(pv)[p as int]));
                        } else {
                            assert(crate::text::seq_lt(unit_ids(pv)[p as int], unit_ids(pv)[j]));
                        }
                    }
                }
            }
            !(crate::text::text_eq(q.digest(), u.digest()) && same_texts(q.dependencies(), u.dependencies()))
        },
    }
}

/// Element-wise text equality of two string slices.
pub(crate) fn same_texts(a: &[String], b: &[String]) -> (r: bool)
    ensures
        r == (texts(a@) == texts(b@)),
{
    if a.len() != b.len() {
        assert(texts(a@).len() != texts(b@).len());
        return false;
    }
    let mut i: usize = 0;
    while i < a.len()
        invariant
            i <= a@.len(),
            a@.len() == b@.len(),
            forall|k: int| 0 <= k < i ==> a@[k]@ == b@[k]@,
        decreases a.len() - i,
    {
        if !crate::text::text_eq(a[i].as_str(), b[i].as_str()) {
            assert(texts(a@)[i as int] != texts(b@)[i as int]);
            return false;
        }
        i = i + 1;
    }
    assert(texts(a@) =~= texts(b@));
    true
}

/// Resolves every direct dependency of every unit to its position.
fn dependency_positions(units: &[AffectedUnit]) -> (r: Vec<Vec<usize>>)
    requires
        dependencies_resolved(views(units@)),
        crate::text::strictly_sorted(unit_ids(views(units@))),
    ensures
        r@.len() == units@.len(),
        forall|c: int|
            0 <= c < units@.len() ==> #[trigger] r@[c]@.len() == views(units@)[c].dependencies.len(),
        forall|c: int, k: int|
            0 <= c < units@.len() && 0 <= k < r@[c]@.len() ==> #[trigger] r@[c]@[k] < units@.len()
                && views(units@)[r@[c]@[k] as int].id == views(units@)[c].dependencies[k],
{
    let ghost model = views(units@);
    let mut out: Vec<Vec<usize>> = Vec::new();
    let mut c: usize = 0;
    while c < units.len()
        invariant
            c <= units@.len(),
            model == views(units@),
            dependencies_resolved(model),
            crate::text::strictly_sorted(unit_ids(model)),
            out@.len() == c,
            forall|c2: int| 0 <= c2 < c ==> #[trigger] out@[c2]@.len() == model[c2].dependencies.len(),
            forall|c2: int, k: int|
                0 <= c2 < c && 0 <= k < out@[c2]@.len() ==> #[trigger] out@[c2]@[k] < units@.len()
                    && model[out@[c2]@[k] as int].id == model[c2].dependencies[k],
        decreases units.len() - c,
    {
        let deps = units[c].dependencies();
        assert(model[c as int] == units@[c as int]@);
        let mut row: Vec<usize> = Vec::new();
        let mut k: usize = 0;
        while k < deps.len()
            invariant
                c < units@.len(),
                model == views(units@),
                dependencies_resolved(model),
                crate::text::strictly_sorted(unit_ids(model)),
                texts(deps@) == model[c as int].dependencies,
                k <= deps@.len(),
                row@.len() == k,
                forall|k2: int|
                    0 <= k2 < k ==> #[trigger] row@[k2] < units@.len() && model[row@[k2] as int].id
                        == model[c as int].dependencies[k2],
            decreases deps.len() - k,
        {
            assert(texts(deps@)[k as int] == deps@[k as int]@);
            let position = unit_position_in(units, deps[k].as_str());
            match position {
                Some(p) => {
                    row.push(p);
                },
                None => {
                    assert(unit_ids(model).contains(model[c as int].dependencies[k as int]));
                    return out;
                },
            }
            k = k + 1;
        }
        out.push(row);
        c = c + 1;
    }
    out
}

/// Finds the position of the unit with the given id, by bisection over ids
/// in strictly increasing order.
pub(crate) fn unit_position_in(units: &[AffectedUnit], id: &str) -> (r: Option<usize>)
    requires
        crate::text::strictly_sorted(unit_ids(views(units@))),
    ensures
        r is None ==> !unit_ids(views(units@)).contains(id@),
        r matches Some(p) ==> p < units@.len() && views(units@)[p as int].id == id@,
{
    let ghost ids = unit_ids(views(units@));
    let mut lo: usize = 0;
    let mut hi: usize = units.len();
    while lo < hi
        invariant
            ids == unit_ids(views(units@)),
            ids.len() == units@.len(),
            crate::text::strictly_sorted(ids),
            lo <= hi <= units@.len(),
            forall|k: int| 0 <= k < lo ==> crate::text::seq_lt(#[trigger] ids[k], id@),
            forall|k: int| hi <= k < ids.len() ==> crate::text::seq_lt(id@, #[trigger] ids[k]),
        decreases hi - lo,
    {
        let mid = lo + (hi - lo) / 2;
        assert(ids[mid as int] == units@[mid as int]@.id);
        let m = units[mid].id();
        if crate::text::text_eq(m, id) {
            return Some(mid);
        }
        if crate::text::text_lt(m, id) {
            proof {
                assert forall|k: int| 0 <= k < mid + 1 implies crate::text::seq_lt(#[trigger] ids[k], id@) by {
                    if k < mid {
                        crate::text::lemma_seq_lt_transitive(ids[k], ids[mid as int], id@);
                    }
                }
            }
            lo = mid + 1;
        } else {
            proof {
                crate::text::lemma_seq_lt_total(ids[mid as int], id@);
                assert forall|k: int| mid <= k < ids.len() implies crate::text::seq_lt(id@, #[trigger] ids[k]) by {
                    if k > mid {
                        crate::text::lemma_seq_lt_transitive(id@, ids[mid as int], ids[k]);
                    }
                }
            }
            hi = mid;
        }
    }
    proof {
        assert forall|q: int| 0 <= q < ids.len() implies ids[q] != id@ by {
            if q < lo {
                assert(crate::text::seq_lt(ids[q], id@));
            } else {
                assert(crate::text::seq_lt(id@, ids[q]));
            }
        }
    }
    None
}

/// The reverse of the dependency positions: for each unit, the units that
/// list it as a direct dependency.
fn dependents_index(positions: &Vec<Vec<usize>>, n: usize) -> (r: Vec<Vec<usize>>)
    requires
        positions@.len() == n,
        forall|c: int, k: int| 0 <= c < n && 0 <= k < positions@[c]@.len() ==> #[trigger] positions@[c]@[k] < n,
    ensures
        r@.len() == n,
        forall|a: int, j: int|
            0 <= a < n && 0 <= j < r@[a]@.len() ==> #[trigger] r@[a]@[j] < n && positions@[r@[a]@[j] as int]@.contains(
                a as usize,
            ),
        forall|x: int, k: int|
            0 <= x < n && 0 <= k < positions@[x]@.len() ==> r@[#[trigger] positions@[x]@[k] as int]@.contains(x as usize),
{
    let mut r: Vec<Vec<usize>> = Vec::new();
    let mut i: usize = 0;
    while i < n
        invariant
            i <= n,
            r@.len() == i,
            forall|a: int| 0 <= a < i ==> #[trigger] r@[a]@.len() == 0,
        decreases n - i,
    {
        r.push(Vec::new());
        i = i + 1;
    }
    let mut x: usize = 0;
    while x < n
        invariant
            positions@.len() == n,
            forall|c: int, k: int| 0 <= c < n && 0 <= k < positions@[c]@.len() ==> #[trigger] positions@[c]@[k] < n,
            x <= n,
            r@.len() == n,
            forall|a: int, j: int|
                0 <= a < n && 0 <= j < r@[a]@.len() ==> #[trigger] r@[a]@[j] < x && positions@[r@[a]@[j] as int]@.contains(
                    a as usize,
                ),
            forall|y: int, k: int|
                0 <= y < x && 0 <= k < positions@[y]@.len() ==> r@[#[trigger] positions@[y]@[k] as int]@.contains(
                    y as usize,
                ),
        decreases n - x,
    {
        let row = &positions[x];
        let mut k: usize = 0;
        while k < row.len()
            invariant
                positions@.len() == n,
                forall|c: int, k2: int| 0 <= c < n && 0 <= k2 < positions@[c]@.len() ==> #[trigger] positions@[c]@[k2] < n,
                x < n,
                row@ == positions@[x as int]@,
                k <= row@.len(),
                r@.len() == n,
                forall|a: int, j: int|
                    0 <= a < n && 0 <= j < r@[a]@.len() ==> #[trigger] r@[a]@[j] <= x && positions@[r@[a]@[j] as int]@.contains(
                        a as usize,
                    ),
                forall|y: int, k2: int|
                    0 <= y < x && 0 <= k2 < positions@[y]@.len() ==> r@[#[trigger] positions@[y]@[k2] as int]@.contains(
                        y as usize,
                    ),
                forall|k2: int| 0 <= k2 < k ==> r@[#[trigger] row@[k2] as int]@.contains(x),
            decreases row.len() - k,
        {
            let a = row[k];
            assert(positions@[x as int]@[k as int] == a);
            let ghost before = r@;
            r[a].push(x);
            proof {
                assert forall|b: int, j: int|
                    0 <= b < n && 0 <= j < r@[b]@.len() implies #[trigger] r@[b]@[j] <= x && positions@[r@[b]@[j] as int]@.contains(
                        b as usize,
                    ) by {
                    if b == a as int && j == before[b]@.len() {
                        assert(r@[b]@[j] == x);
                        assert(positions@[x as int]@[k as int] == a);
                    } else {
                        assert(r@[b]@[j] == before[b]@[j]);
                    }
                }
                assert forall|y: int, k2: int|
                    0 <= y < x && 0 <= k2 < positions@[y]@.len() implies r@[#[trigger] positions@[y]@[k2] as int]@.contains(
                        y as usize,
                    ) by {
                    let b = positions@[y]@[k2] as int;
                    assert(before[b]@.contains(y as usize));
                    let j = choose|j: int| 0 <= j < before[b]@.len() && before[b]@[j] == y as usize;
                    assert(r@[b]@[j] == y as usize);
                }
                assert forall|k2: int| 0 <= k2 < k + 1 implies r@[#[trigger] row@[k2] as int]@.contains(x) by {
                    let b = row@[k2] as int;
                    if k2 == k {
                        assert(r@[b]@[before[b]@.len() as int] == x);
                    } else {
                        assert(before[b]@.contains(x));
                        let j = choose|j: int| 0 <= j < before[b]@.len() && before[b]@[j] == x;
                        assert(r@[b]@[j] == x);
                    }
                }
            }
            k = k + 1;
        }
        proof {
            assert forall|a: int, j: int|
                0 <= a < n && 0 <= j < r@[a]@.len() implies #[trigger] r@[a]@[j] < x + 1 && positions@[r@[a]@[j] as int]@.contains(
                    a as usize,
                ) by {}
            assert forall|y: int, k2: int|
                0 <= y < x + 1 && 0 <= k2 < positions@[y]@.len() implies r@[#[trigger] positions@[y]@[k2] as int]@.contains(
                    y as usize,
                ) by {
                if y == x {
                    assert(row@[k2] == positions@[y]@[k2]);
                }
            }
        }
        x = x + 1;
    }
    r
}

/// Unit ids are unique.
pub open spec fn ids_unique(units: Seq<UnitModel>) -> bool {
    forall|a: int, b: int| 0 <= a < units.len() && 0 <= b < units.len() && a != b ==> units[a].id
        != units[b].id
}

/// Computes which current units must be recomputed.
pub(crate) fn affected_flags(previous: &[AffectedUnit], current: &[AffectedUnit]) -> (flags: Vec<bool>)
    requires
        dependencies_resolved(views(current@)),
        ids_unique(views(current@)),
        crate::text::strictly_sorted(unit_ids(views(previous@))),
        crate::text::strictly_sorted(unit_ids(views(current@))),
    ensures
        flags@.len() == current@.len(),
        forall|c: int|
            0 <= c < current@.len() ==> (flags@[c] <==> is_affected(
                views(previous@),
                views(current@),
                c,
            )),
{
    broadcast use vstd::seq_lib::group_seq_properties;

    let ghost prev = views(previous@);
    let ghost cur = views(current@);
    let n = current.len();
    let positions = dependency_positions(current);
    let dependents = dependents_index(&positions, n);
    proof {
        assert forall|b: int, j2: int|
            0 <= b < n && 0 <= j2 < dependents@[b]@.len() implies #[trigger] dependents@[b]@[j2] < n && depends_on(
                cur,
                dependents@[b]@[j2] as int,
                b,
            ) by {
            let x = dependents@[b]@[j2] as int;
            let k = choose|k: int| 0 <= k < positions@[x]@.len() && positions@[x]@[k] == b as usize;
            assert(cur[x].dependencies[k] == cur[b].id);
        }
        assert forall|y: int, b: int|
            0 <= y < n && 0 <= b < n && #[trigger] depends_on(cur, y, b) implies dependents@[b]@.contains(
                y as usize,
            ) by {
            let k = choose|k: int| 0 <= k < cur[y].dependencies.len() && cur[y].dependencies[k] == cur[b].id;
            let p = positions@[y]@[k] as int;
            assert(cur[p].id == cur[b].id);
            assert(p == b);
        }
    }
    let mut flags: Vec<bool> = Vec::new();
    let mut queue: Vec<usize> = Vec::new();
    let mut c: usize = 0;
    while c < n
        invariant
            n == current@.len(),
            cur == views(current@),
            prev == views(previous@),
            crate::text::strictly_sorted(unit_ids(prev)),
            c <= n,
            flags@.len() == c,
            forall|x: int| 0 <= x < c ==> (flags@[x] <==> directly_changed(prev, cur[x])),
            forall|t: int| 0 <= t < queue@.len() ==> #[trigger] queue@[t] < c,
            forall|x: int| 0 <= x < c ==> (flags@[x] <==> queue@.contains(x as usize)),
        decreases n - c,
    {
        assert(cur[c as int] == current@[c as int]@);
        let changed = unit_directly_changed(previous, &current[c]);
        flags.push(changed);
        let ghost queue_before = queue@;
        if changed {
            queue.push(c);
        }
        proof {
            assert forall|x: int| 0 <= x < c + 1 implies (flags@[x] <==> queue@.contains(
                x as usize,
            )) by {
                if x < c {
                    if queue_before.contains(x as usize) {
                        let t = choose|t: int|
                            0 <= t < queue_before.len() && queue_before[t] == x as usize;
                        assert(queue@[t] == x as usize);
                    }
                    if queue@.contains(x as usize) {
                        let t = choose|t: int| 0 <= t < queue@.len() && queue@[t] == x as usize;
                        if t < queue_before.len() {
                            assert(queue_before[t] == x as usize);
                        }
                    }
                } else if changed {
                    assert(queue@[queue@.len() - 1] == c);
                } else {
                    if queue@.contains(c) {
                        let t = choose|t: int| 0 <= t < queue@.len() && queue@[t] == c;
                        assert(queue@[t] < c);
                    }
                }
            }
        }
        c = c + 1;
    }
    proof {
        assert forall|x: int| 0 <= x < n && #[trigger] flags@[x] implies is_affected(prev, cur, x) by {
            let path = seq![x];
            assert(is_dependency_path(cur, path));
        }
    }
    let mut head: usize = 0;
    while head < queue.len()
        invariant
            n == current@.len(),
            cur == views(current@),
            prev == views(previous@),
            ids_unique(cur),
            dependents@.len() == n,
            forall|b: int, j2: int|
                0 <= b < n && 0 <= j2 < dependents@[b]@.len() ==> #[trigger] dependents@[b]@[j2] < n && depends_on(
                    cur,
                    dependents@[b]@[j2] as int,
                    b,
                ),
            forall|y: int, b: int|
                0 <= y < n && 0 <= b < n && #[trigger] depends_on(cur, y, b) ==> dependents@[b]@.contains(y as usize),
            flags@.len() == n,
            head <= queue@.len(),
            forall|t: int| 0 <= t < queue@.len() ==> #[trigger] queue@[t] < n,
            forall|x: int| 0 <= x < n ==> (flags@[x] <==> queue@.contains(x as usize)),
            forall|x: int| 0 <= x < n && directly_changed(prev, cur[x]) ==> flags@[x],
            forall|x: int| 0 <= x < n && #[trigger] flags@[x] ==> is_affected(prev, cur, x),
            forall|t: int, x: int|
                0 <= t < head && 0 <= x < n && depends_on(cur, x, #[trigger] queue@[t] as int)
                    ==> #[trigger] flags@[x],
        decreases count_unset(flags@), queue@.len() - head,
    {
        let a = queue[head];
        let ghost count_before = count_unset(flags@);
        let ghost queue_before = queue@.len();
        let list = &dependents[a];
        let mut j: usize = 0;
        while j < list.len()
            invariant
                n == current@.len(),
                cur == views(current@),
                prev == views(previous@),
                ids_unique(cur),
                dependents@.len() == n,
                forall|b: int, j2: int|
                    0 <= b < n && 0 <= j2 < dependents@[b]@.len() ==> #[trigger] dependents@[b]@[j2] < n
                        && depends_on(cur, dependents@[b]@[j2] as int, b),
                flags@.len() == n,
                a < n,
                list@ == dependents@[a as int]@,
                head < queue@.len(),
                queue@[head as int] == a,
                j <= list@.len(),
                flags@[a as int],
                forall|t: int| 0 <= t < queue@.len() ==> #[trigger] queue@[t] < n,
                forall|y: int| 0 <= y < n ==> (flags@[y] <==> queue@.contains(y as usize)),
                forall|y: int| 0 <= y < n && directly_changed(prev, cur[y]) ==> flags@[y],
                forall|y: int| 0 <= y < n && #[trigger] flags@[y] ==> is_affected(prev, cur, y),
                forall|t: int, y: int|
                    0 <= t < head && 0 <= y < n && depends_on(cur, y, #[trigger] queue@[t] as int)
                        ==> #[trigger] flags@[y],
                forall|j2: int| 0 <= j2 < j ==> #[trigger] flags@[list@[j2] as int],
                count_unset(flags@) <= count_before,
                queue@.len() >= queue_before,
                count_unset(flags@) == count_before ==> queue@.len() == queue_before,
            decreases list.len() - j,
        {
            let x = list[j];
            assert(list@[j as int] == x);
            assert(depends_on(cur, x as int, a as int));
            if !flags[x] {
                {
                    proof {
                        lemma_count_unset_set(flags@, x as int);
                        let pa = choose|pa: Seq<int>|
                            #[trigger] is_dependency_path(cur, pa) && pa[0] == a && directly_changed(
                                prev,
                                cur[pa.last()],
                            );
                        let px = seq![x as int] + pa;
                        assert(is_dependency_path(cur, px)) by {
                            assert forall|t: int| 0 <= t < px.len() - 1 implies depends_on(
                                cur,
                                #[trigger] px[t],
                                px[t + 1],
                            ) by {
                                if t > 0 {
                                    assert(px[t] == pa[t - 1] && px[t + 1] == pa[t]);
                                }
                            }
                            assert forall|t: int| 0 <= t < px.len() implies 0 <= #[trigger] px[t]
                                < cur.len() by {
                                if t > 0 {
                                    assert(px[t] == pa[t - 1]);
                                }
                            }
                        }
                        assert(px.last() == pa.last());
                    }
                    let ghost queue_old = queue@;
                    let ghost flags_old = flags@;
                    flags.set(x, true);
                    queue.push(x);
                    proof {
                        assert forall|y: int| 0 <= y < n implies (flags@[y] <==> queue@.contains(
                            y as usize,
                        )) by {
                            if y != x {
                                assert(flags@[y] == flags_old[y]);
                                if queue@.contains(y as usize) {
                                    let t = choose|t: int|
                                        0 <= t < queue@.len() && queue@[t] == y as usize;
                                    if t < queue_old.len() {
                                        assert(queue_old[t] == y as usize);
                                    }
                                }
                                if queue_old.contains(y as usize) {
                                    let t = choose|t: int|
                                        0 <= t < queue_old.len() && queue_old[t] == y as usize;
                                    assert(queue@[t] == y as usize);
                                }
                            } else {
                                assert(queue@[queue@.len() - 1] == x);
                            }
                        }
                    }
                }
            }
            j = j + 1;
        }
        proof {
            assert forall|y: int| 0 <= y < n && depends_on(cur, y, a as int) implies #[trigger] flags@[y] by {
                assert(dependents@[a as int]@.contains(y as usize));
                let j2 = choose|j2: int| 0 <= j2 < list@.len() && list@[j2] == y as usize;
                assert(flags@[list@[j2] as int]);
            }
        }
        head = head + 1;
    }
    proof {
        assert forall|c2: int| 0 <= c2 < n implies (flags@[c2] <==> is_affected(prev, cur, c2)) by {
            if is_affected(prev, cur, c2) {
                let path = choose|path: Seq<int>|
                    #[trigger] is_dependency_path(cur, path) && path[0] == c2 && directly_changed(
                        prev,
                        cur[path.last()],
                    );
                assert forall|y: int, d: int|
                    0 <= y < cur.len() && 0 <= d < cur.len() && #[trigger] depends_on(cur, y, d)
                        && flags@[d] implies flags@[y] by {
                    assert(queue@.contains(d as usize));
                    let t = choose|t: int| 0 <= t < queue@.len() && queue@[t] == d as usize;
                    assert(depends_on(cur, y, queue@[t] as int));
                }
                lemma_closed_flags_cover_affected(prev, cur, flags@, path);
            }
        }
    }
    flags
}

/// Repository input change classification used only for invalidation.
#[derive(Clone, Copy, Debug, PartialEq, Eq, Structural)]
pub enum InputChangeKind {
    /// A new authoritative input exists.
    Added,
    /// A prior authoritative input no longer exists.
    Removed,
    /// Bytes changed at the same canonical path.
    Modified,
    /// Unique identical content moved between repository-relative paths.
    Relocated,
}

impl InputChangeKind {
    /// Declaration rank, which is the canonical order of kinds.
    pub open spec fn spec_rank(self) -> nat {
        match self {
            InputChangeKind::Added => 0,
            InputChangeKind::Removed => 1,
            InputChangeKind::Modified => 2,
            InputChangeKind::Relocated => 3,
        }
    }

    /// Executable declaration rank.
    pub fn rank(self) -> (r: u8)
        ensures
            r as nat == self.spec_rank(),
    {
        match self {
            InputChangeKind::Added => 0,
            InputChangeKind::Removed => 1,
            InputChangeKind::Modified => 2,
            InputChangeKind::Relocated => 3,
        }
    }

    /// Stable identity spelling used in human reports.
    pub fn name(self) -> (r: &'static str)
        ensures
            r@ == change_kind_name(self),
    {
        match self {
            InputChangeKind::Added => "Added",
            InputChangeKind::Removed => "Removed",
            InputChangeKind::Modified => "Modified",
            InputChangeKind::Relocated => "Relocated",
        }
    }
}

/// The spelling of a change kind in human reports.
pub open spec fn change_kind_name(k: InputChangeKind) -> Seq<char> {
    match k {
        InputChangeKind::Added => "Added"@,
        InputChangeKind::Removed => "Removed"@,
        InputChangeKind::Modified => "Modified"@,
        InputChangeKind::Relocated => "Relocated"@,
    }
}

/// Abstract value of one input change.
pub struct ChangeModel {
    pub kind: InputChangeKind,
    pub authority: AuthorityInputKind,
    pub previous_path: Option<Seq<char>>,
    pub current_path: Option<Seq<char>>,
    pub previous_digest: Option<Seq<char>>,
    pub current_digest: Option<Seq<char>>,
}

/// One exact authoritative-input delta.
#[derive(Clone, Debug, PartialEq, Eq)]
pub struct InputChange {
    kind: InputChangeKind,
    authority: AuthorityInputKind,
    previous_path: Option<String>,
    current_path: Option<String>,
    previous_digest: Option<String>,
    current_digest: Option<String>,
}

impl View for InputChange {
    type V = ChangeModel;

    closed spec fn view(&self) -> ChangeModel {
        ChangeModel {
            kind: self.kind,
            authority: self.authority,
            previous_path: self.previous_path.deep_view(),
            current_path: self.current_path.deep_view(),
            previous_digest: self.previous_digest.deep_view(),
            current_digest: self.current_digest.deep_view(),
        }
    }
}

/// Canonical field encoding of a change: kind, authority, previous path,
/// current path, previous digest, current digest.
pub open spec fn change_fields(c: ChangeModel) -> Seq<Seq<char>> {
    seq![
        crate::order::rank_field(c.kind.spec_rank()),
        crate::order::rank_field(c.authority.spec_rank()),
        crate::order::optional_field(c.previous_path),
        crate::order::optional_field(c.current_path),
        crate::order::optional_field(c.previous_digest),
        crate::order::optional_field(c.current_digest),
    ]
}

pub proof fn lemma_optional_field_injective(a: Option<Seq<char>>, b: Option<Seq<char>>)
    requires
        crate::order::optional_field(a) == crate::order::optional_field(b),
    ensures
        a == b,
{
    match (a, b) {
        (Some(x), Some(y)) => {
            assert(x =~= crate::order::optional_field(a).drop_first());
            assert(y =~= crate::order::optional_field(b).drop_first());
        },
        (None, Some(y)) => {
            assert(crate::order::optional_field(b).len() > 0);
        },
        (Some(x), None) => {
            assert(crate::order::optional_field(a).len() > 0);
        },
        (None, None) => {},
    }
}

proof fn lemma_change_fields_injective(a: ChangeModel, b: ChangeModel)
    requires
        change_fields(a) == change_fields(b),
    ensures
        a == b,
{
    assert(change_fields(a)[0] == change_fields(b)[0]);
    assert(change_fields(a)[0].len() == a.kind.spec_rank());
    assert(change_fields(b)[0].len() == b.kind.spec_rank());
    assert(change_fields(a)[1] == change_fields(b)[1]);
    assert(change_fields(a)[1].len() == a.authority.spec_rank());
    assert(change_fields(b)[1].len() == b.authority.spec_rank());
    self::paths::lemma_authority_rank_injective(a.authority, b.authority);
    lemma_optional_field_injective(a.previous_path, b.previous_path);
    assert(change_fields(a)[3] == change_fields(b)[3]);
    lemma_optional_field_injective(a.current_path, b.current_path);
    assert(change_fields(a)[4] == change_fields(b)[4]);
    lemma_optional_field_injective(a.previous_digest, b.previous_digest);
    assert(change_fields(a)[5] == change_fields(b)[5]);
    lemma_optional_field_injective(a.current_digest, b.current_digest);
}

impl InputChange {
    /// Returns the change class.
    pub fn kind(&self) -> (r: InputChangeKind)
        ensures
            r == self@.kind,
    {
        self.kind
    }

    /// Returns the understood authority class.
    pub fn authority(&self) -> (r: AuthorityInputKind)
        ensures
            r == self@.authority,
    {
        self.authority
    }

    /// Returns the prior path when present.
    pub fn previous_path(&self) -> (r: Option<&str>)
        ensures
            r.deep_view() == self@.previous_path,
    {
        match &self.previous_path {
            Some(p) => Some(p.as_str()),
            None => None,
        }
    }

    /// Returns the current path when present.
    pub fn current_path(&self) -> (r: Option<&str>)
        ensures
            r.deep_view() == self@.current_path,
    {
        match &self.current_path {
            Some(p) => Some(p.as_str()),
            None => None,
        }
    }

    fn fields(&self) -> (r: Vec<Vec<char>>)
        ensures
            r@.map_values(|f: Vec<char>| f@) == change_fields(self@),
    {
        let mut out: Vec<Vec<char>> = Vec::new();
        out.push(crate::order::rank_field_exec(self.kind.rank()));
        out.push(crate::order::rank_field_exec(self.authority.rank()));
        out.push(crate::order::optional_field_exec(&self.previous_path));
        out.push(crate::order::optional_field_exec(&self.current_path));
        out.push(crate::order::optional_field_exec(&self.previous_digest));
        out.push(crate::order::optional_field_exec(&self.current_digest));
        assert(out@.map_values(|f: Vec<char>| f@) =~= change_fields(self@));
        out
    }
}

impl CanonicalOrder for InputChange {
    open spec fn ordered(a: ChangeModel, b: ChangeModel) -> bool {
        crate::order::fields_le(change_fields(a), change_fields(b))
    }

    proof fn lemma_ordered_reflexive(a: ChangeModel) {
        crate::order::lemma_fields_le_reflexive(change_fields(a));
    }

    proof fn lemma_ordered_transitive(a: ChangeModel, b: ChangeModel, c: ChangeModel) {
        crate::order::lemma_fields_le_transitive(change_fields(a), change_fields(b), change_fields(c));
    }

    proof fn lemma_ordered_total(a: ChangeModel, b: ChangeModel) {
        crate::order::lemma_fields_le_total(change_fields(a), change_fields(b));
    }

    fn precedes(&self, other: &Self) -> (r: bool) {
        let a = self.fields();
        let b = other.fields();
        crate::order::fields_le_exec(&a, &b)
    }
}

impl crate::order::TotalOrder for InputChange {
    proof fn lemma_ordered_antisymmetric(a: ChangeModel, b: ChangeModel) {
        crate::order::lemma_fields_le_antisymmetric(change_fields(a), change_fields(b));
        lemma_change_fields_injective(a, b);
    }
}

/// Some input of `s` has the path.
pub open spec fn has_path(s: Seq<InputModel>, path: Seq<char>) -> bool {
    exists|i: int| 0 <= i < s.len() && #[trigger] s[i].path == path
}

/// Same digest, byte length, and authority class.
pub open spec fn same_content(a: InputModel, b: InputModel) -> bool {
    a.digest == b.digest && a.bytes == b.bytes && a.kind == b.kind
}

/// `x` is present only in `here` (its path is absent from `there`).
pub open spec fn only_in(here: Seq<InputModel>, there: Seq<InputModel>, x: InputModel) -> bool {
    here.contains(x) && !has_path(there, x.path)
}

/// `x` is the only input present only in `here` with its content.
pub open spec fn uniquely_only_in(
    here: Seq<InputModel>,
    there: Seq<InputModel>,
    x: InputModel,
) -> bool {
    only_in(here, there, x) && forall|y: InputModel|
        #![trigger only_in(here, there, y)]
        only_in(here, there, y) && same_content(y, x) ==> y == x
}

/// Unique identical content moved from `p` (previous) to `c` (current).
pub open spec fn is_relocation(
    previous: Seq<InputModel>,
    current: Seq<InputModel>,
    p: InputModel,
    c: InputModel,
) -> bool {
    uniquely_only_in(previous, current, p) && uniquely_only_in(current, previous, c)
        && same_content(p, c)
}

/// The exact set of input changes between two input sets.
pub open spec fn is_input_change(
    previous: Seq<InputModel>,
    current: Seq<InputModel>,
    x: ChangeModel,
) -> bool {
    ||| exists|p: InputModel, c: InputModel|
        #![trigger previous.contains(p), current.contains(c)]
        previous.contains(p) && current.contains(c) && p.path == c.path && (p.digest != c.digest
            || p.bytes != c.bytes) && x == (ChangeModel {
            kind: InputChangeKind::Modified,
            authority: c.kind,
            previous_path: Some(p.path),
            current_path: Some(c.path),
            previous_digest: Some(p.digest),
            current_digest: Some(c.digest),
        })
    ||| exists|p: InputModel, c: InputModel|
        #[trigger] is_relocation(previous, current, p, c) && x == (ChangeModel {
            kind: InputChangeKind::Relocated,
            authority: c.kind,
            previous_path: Some(p.path),
            current_path: Some(c.path),
            previous_digest: Some(p.digest),
            current_digest: Some(c.digest),
        })
    ||| exists|p: InputModel|
        #[trigger] only_in(previous, current, p) && !(exists|c: InputModel|
            #[trigger] is_relocation(previous, current, p, c)) && x == (ChangeModel {
            kind: InputChangeKind::Removed,
            authority: p.kind,
            previous_path: Some(p.path),
            current_path: None,
            previous_digest: Some(p.digest),
            current_digest: None,
        })
    ||| exists|c: InputModel|
        #[trigger] only_in(current, previous, c) && !(exists|p: InputModel|
            #[trigger] is_relocation(previous, current, p, c)) && x == (ChangeModel {
            kind: InputChangeKind::Added,
            authority: c.kind,
            previous_path: None,
            current_path: Some(c.path),
            previous_digest: None,
            current_digest: Some(c.digest),
        })
}

/// Input paths are strictly increasing.
pub open spec fn paths_strictly_sorted(s: Seq<InputModel>) -> bool {
    crate::text::strictly_sorted(s.map_values(|i: InputModel| i.path))
}

pub(crate) proof fn lemma_unique_path(s: Seq<InputModel>, a: int, b: int)
    requires
        paths_strictly_sorted(s),
        0 <= a < s.len(),
        0 <= b < s.len(),
        s[a].path == s[b].path,
    ensures
        a == b,
{
    let ps = s.map_values(|i: InputModel| i.path);
    if a < b {
        assert(crate::text::seq_lt(ps[a], ps[b]));
    } else if b < a {
        assert(crate::text::seq_lt(ps[b], ps[a]));
    }
}

fn input_position(s: &[AffectedInput], path: &str) -> (r: Option<usize>)
    ensures
        r is None ==> !has_path(views(s@), path@),
        r matches Some(i) ==> i < s@.len() && views(s@)[i as int].path == path@,
{
    let mut i: usize = 0;
    while i < s.len()
        invariant
            i <= s@.len(),
            forall|k: int| 0 <= k < i ==> views(s@)[k].path != path@,
        decreases s.len() - i,
    {
        assert(views(s@)[i as int] == s@[i as int]@);
        if crate::text::text_eq(s[i].path.as_str(), path) {
            return Some(i);
        }
        i = i + 1;
    }
    None
}

fn same_content_exec(a: &AffectedInput, b: &AffectedInput) -> (r: bool)
    ensures
        r == same_content(a@, b@),
{
    crate::text::text_eq(a.digest.as_str(), b.digest.as_str()) && a.bytes == b.bytes
        && a.kind == b.kind
}

fn only_in_exec(here: &[AffectedInput], there: &[AffectedInput], i: usize) -> (r: bool)
    requires
        i < here@.len(),
    ensures
        r == only_in(views(here@), views(there@), views(here@)[i as int]),
{
    assert(views(here@).contains(views(here@)[i as int]));
    input_position(there, here[i].path.as_str()).is_none()
}

fn uniquely_only_in_exec(here: &[AffectedInput], there: &[AffectedInput], i: usize) -> (r: bool)
    requires
        i < here@.len(),
        paths_strictly_sorted(views(here@)),
    ensures
        r == uniquely_only_in(views(here@), views(there@), views(here@)[i as int]),
{
    let ghost h = views(here@);
    let ghost t = views(there@);
    if !only_in_exec(here, there, i) {
        return false;
    }
    let mut k: usize = 0;
    while k < here.len()
        invariant
            i < here@.len(),
            h == views(here@),
            t == views(there@),
            paths_strictly_sorted(h),
            k <= here@.len(),
            forall|k2: int|
                0 <= k2 < k && k2 != i && only_in(h, t, #[trigger] h[k2]) ==> !same_content(
                    h[k2],
                    h[i as int],
                ),
        decreases here.len() - k,
    {
        if k != i && only_in_exec(here, there, k) && same_content_exec(&here[k], &here[i]) {
            proof {
                assert(h[k as int] != h[i as int]) by {
                    if h[k as int] == h[i as int] {
                        lemma_unique_path(h, k as int, i as int);
                    }
                }
            }
            return false;
        }
        assert(h[k as int] == here@[k as int]@);
        k = k + 1;
    }
    proof {
        assert forall|y: InputModel|
            #![trigger only_in(h, t, y)]
            only_in(h, t, y) && same_content(y, h[i as int]) implies y == h[i as int] by {
            let k2 = choose|k2: int| 0 <= k2 < h.len() && h[k2] == y;
            if k2 != i {
                assert(only_in(h, t, h[k2]));
            }
        }
    }
    true
}

fn find_only_with_content(
    here: &[AffectedInput],
    there: &[AffectedInput],
    x: &AffectedInput,
) -> (r: Option<usize>)
    ensures
        r is None ==> forall|y: InputModel|
            #![trigger only_in(views(here@), views(there@), y)]
            only_in(views(here@), views(there@), y) ==> !same_content(y, x@),
        r matches Some(k) ==> k < here@.len() && only_in(
            views(here@),
            views(there@),
            views(here@)[k as int],
        ) && same_content(views(here@)[k as int], x@),
{
    let ghost h = views(here@);
    let ghost t = views(there@);
    let mut k: usize = 0;
    while k < here.len()
        invariant
            h == views(here@),
            t == views(there@),
            k <= here@.len(),
            forall|k2: int| 0 <= k2 < k && only_in(h, t, #[trigger] h[k2]) ==> !same_content(h[k2], x@),
        decreases here.len() - k,
    {
        assert(h[k as int] == here@[k as int]@);
        if only_in_exec(here, there, k) && same_content_exec(&here[k], x) {
            return Some(k);
        }
        k = k + 1;
    }
    proof {
        assert forall|y: InputModel|
            #![trigger only_in(h, t, y)]
            only_in(h, t, y) implies !same_content(y, x@) by {
            let k2 = choose|k2: int| 0 <= k2 < h.len() && h[k2] == y;
            assert(only_in(h, t, h[k2]));
        }
    }
    None
}

/// Finds the relocation partner of `here[i]`, searching `there`.
fn relocation_partner(here: &[AffectedInput], there: &[AffectedInput], i: usize) -> (r: Option<
    usize,
>)
    requires
        i < here@.len(),
        paths_strictly_sorted(views(here@)),
        paths_strictly_sorted(views(there@)),
    ensures
        r is None ==> forall|y: InputModel|
            !(uniquely_only_in(views(here@), views(there@), views(here@)[i as int])
                && uniquely_only_in(views(there@), views(here@), y) && same_content(
                views(here@)[i as int],
                y,
            )),
        r matches Some(k) ==> k < there@.len() && uniquely_only_in(
            views(here@),
            views(there@),
            views(here@)[i as int],
        ) && uniquely_only_in(views(there@), views(here@), views(there@)[k as int])
            && same_content(views(here@)[i as int], views(there@)[k as int]),
{
    let ghost h = views(here@);
    let ghost t = views(there@);
    if !uniquely_only_in_exec(here, there, i) {
        return None;
    }
    match find_only_with_content(there, here, &here[i]) {
        None => None,
        Some(k) => {
            if uniquely_only_in_exec(there, here, k) {
                Some(k)
            } else {
                proof {
                    assert forall|y: InputModel|
                        !(uniquely_only_in(t, h, y) && same_content(h[i as int], y)) by {
                        if uniquely_only_in(t, h, y) && same_content(h[i as int], y) {
                            assert(only_in(t, h, t[k as int]));
                            assert(same_content(t[k as int], y));
                            assert(t[k as int] == y);
                        }
                    }
                }
                None
            }
        },
    }
}

/// The change describing `p -> c` for a modified or relocated pair.
pub open spec fn pair_change(kind: InputChangeKind, p: InputModel, c: InputModel) -> ChangeModel {
    ChangeModel {
        kind,
        authority: c.kind,
        previous_path: Some(p.path),
        current_path: Some(c.path),
        previous_digest: Some(p.digest),
        current_digest: Some(c.digest),
    }
}

/// The change describing the removal of `p`.
pub open spec fn removed_change(p: InputModel) -> ChangeModel {
    ChangeModel {
        kind: InputChangeKind::Removed,
        authority: p.kind,
        previous_path: Some(p.path),
        current_path: None,
        previous_digest: Some(p.digest),
        current_digest: None,
    }
}

/// The change describing the addition of `c`.
pub open spec fn added_change(c: InputModel) -> ChangeModel {
    ChangeModel {
        kind: InputChangeKind::Added,
        authority: c.kind,
        previous_path: None,
        current_path: Some(c.path),
        previous_digest: None,
        current_digest: Some(c.digest),
    }
}

fn pair_change_exec(kind: InputChangeKind, p: &AffectedInput, c: &AffectedInput) -> (r: InputChange)
    ensures
        r@ == pair_change(kind, p@, c@),
{
    InputChange {
        kind,
        authority: c.kind,
        previous_path: Some(copy_text(p.path.as_str())),
        current_path: Some(copy_text(c.path.as_str())),
        previous_digest: Some(copy_text(p.digest.as_str())),
        current_digest: Some(copy_text(c.digest.as_str())),
    }
}

/// Compares two input sets and classifies every authoritative delta.
pub(crate) fn compare_inputs(previous: &[AffectedInput], current: &[AffectedInput]) -> (r: Vec<InputChange>)
    requires
        paths_strictly_sorted(views(previous@)),
        paths_strictly_sorted(views(current@)),
    ensures
        crate::order::is_strictly_canonical::<InputChange>(views(r@)),
        forall|x: ChangeModel|
            views(r@).contains(x) <==> is_input_change(views(previous@), views(current@), x),
{
    broadcast use vstd::seq_lib::group_seq_properties;

    let ghost pv = views(previous@);
    let ghost cv = views(current@);
    let mut changes: Vec<InputChange> = Vec::new();
    let mut i: usize = 0;
    while i < previous.len()
        invariant
            pv == views(previous@),
            cv == views(current@),
            paths_strictly_sorted(pv),
            paths_strictly_sorted(cv),
            i <= previous@.len(),
            forall|x: ChangeModel| #[trigger] views(changes@).contains(x) ==> is_input_change(pv, cv, x),
            forall|i2: int, j: int|
                0 <= i2 < i && 0 <= j < cv.len() && #[trigger] pv[i2].path == #[trigger] cv[j].path && (
                pv[i2].digest != cv[j].digest || pv[i2].bytes != cv[j].bytes) ==> views(
                    changes@,
                ).contains(pair_change(InputChangeKind::Modified, pv[i2], cv[j])),
            forall|i2: int, c: InputModel|
                0 <= i2 < i && #[trigger] is_relocation(pv, cv, pv[i2], c) ==> views(
                    changes@,
                ).contains(pair_change(InputChangeKind::Relocated, pv[i2], c)),
            forall|i2: int|
                0 <= i2 < i && #[trigger] only_in(pv, cv, pv[i2]) && !(exists|c: InputModel|
                    #[trigger] is_relocation(pv, cv, pv[i2], c)) ==> views(changes@).contains(
                    removed_change(pv[i2]),
                ),
        decreases previous.len() - i,
    {
        let p = &previous[i];
        assert(pv[i as int] == p@);
        assert(pv.contains(p@));
        let ghost before = views(changes@);
        let ghost mut pushed: Option<ChangeModel> = None;
        match input_position(current, p.path.as_str()) {
            Some(j) => {
                let c = &current[j];
                assert(cv[j as int] == c@);
                assert(cv.contains(c@));
                if !crate::text::text_eq(p.digest.as_str(), c.digest.as_str()) || p.bytes != c.bytes {
                    let change = pair_change_exec(InputChangeKind::Modified, p, c);
                    assert(is_input_change(pv, cv, change@));
                    proof {
                        crate::order::lemma_views_push_seq(changes@, change);
                        pushed = Some(change@);
                    }
                    changes.push(change);
                }
                proof {
                    assert forall|j2: int|
                        0 <= j2 < cv.len() && pv[i as int].path == #[trigger] cv[j2].path implies j2
                        == j by {
                        lemma_unique_path(cv, j2, j as int);
                    }
                    assert(!only_in(pv, cv, pv[i as int]));
                    assert forall|c2: InputModel| !is_relocation(pv, cv, pv[i as int], c2) by {}
                }
            },
            None => {
                assert(only_in(pv, cv, p@));
                match relocation_partner(previous, current, i) {
                    Some(k) => {
                        let change = pair_change_exec(InputChangeKind::Relocated, p, &current[k]);
                        assert(is_relocation(pv, cv, p@, cv[k as int]));
                        assert(is_input_change(pv, cv, change@));
                        proof {
                            crate::order::lemma_views_push_seq(changes@, change);
                            pushed = Some(change@);
                            assert forall|c2: InputModel|
                                #[trigger] is_relocation(pv, cv, pv[i as int], c2) implies c2
                                == cv[k as int] by {
                                assert(only_in(cv, pv, cv[k as int]));
                                assert(same_content(cv[k as int], c2));
                            }
                        }
                        changes.push(change);
                    },
                    None => {
                        let change = InputChange {
                            kind: InputChangeKind::Removed,
                            authority: p.kind,
                            previous_path: Some(copy_text(p.path.as_str())),
                            current_path: None,
                            previous_digest: Some(copy_text(p.digest.as_str())),
                            current_digest: None,
                        };
                        assert(change@ == removed_change(p@));
                        assert(!(exists|c2: InputModel| #[trigger] is_relocation(pv, cv, p@, c2)));
                        assert(is_input_change(pv, cv, change@));
                        proof {
                            crate::order::lemma_views_push_seq(changes@, change);
                            pushed = Some(change@);
                        }
                        changes.push(change);
                    },
                }
                proof {
                    assert forall|j2: int| 0 <= j2 < cv.len() implies pv[i as int].path
                        != #[trigger] cv[j2].path by {}
                }
            },
        }
        proof {
            match pushed {
                None => {
                    assert(views(changes@) == before);
                },
                Some(a) => {
                    assert(views(changes@) == before.push(a));
                    assert(is_input_change(pv, cv, a));
                    assert(views(changes@).contains(a)) by {
                        assert(views(changes@)[before.len() as int] == a);
                    }
                },
            }
            assert forall|x: ChangeModel| before.contains(x) implies views(changes@).contains(x) by {
                let t = choose|t: int| 0 <= t < before.len() && before[t] == x;
                assert(views(changes@)[t] == x);
            }
            assert forall|x: ChangeModel| #[trigger] views(changes@).contains(x) implies is_input_change(
                pv,
                cv,
                x,
            ) by {
                let t = choose|t: int| 0 <= t < views(changes@).len() && views(changes@)[t] == x;
                if t < before.len() {
                    assert(before[t] == x);
                    assert(before.contains(x));
                }
            }
        }
        i = i + 1;
    }
    let mut j: usize = 0;
    while j < current.len()
        invariant
            pv == views(previous@),
            cv == views(current@),
            paths_strictly_sorted(pv),
            paths_strictly_sorted(cv),
            j <= current@.len(),
            forall|x: ChangeModel| #[trigger] views(changes@).contains(x) ==> is_input_change(pv, cv, x),
            forall|i2: int, j2: int|
                0 <= i2 < pv.len() && 0 <= j2 < cv.len() && #[trigger] pv[i2].path == #[trigger] cv[j2].path && (
                pv[i2].digest != cv[j2].digest || pv[i2].bytes != cv[j2].bytes) ==> views(
                    changes@,
                ).contains(pair_change(InputChangeKind::Modified, pv[i2], cv[j2])),
            forall|i2: int, c: InputModel|
                0 <= i2 < pv.len() && #[trigger] is_relocation(pv, cv, pv[i2], c) ==> views(
                    changes@,
                ).contains(pair_change(InputChangeKind::Relocated, pv[i2], c)),
            forall|i2: int|
                0 <= i2 < pv.len() && #[trigger] only_in(pv, cv, pv[i2]) && !(exists|c: InputModel|
                    #[trigger] is_relocation(pv, cv, pv[i2], c)) ==> views(changes@).contains(
                    removed_change(pv[i2]),
                ),
            forall|j2: int|
                0 <= j2 < j && #[trigger] only_in(cv, pv, cv[j2]) && !(exists|p: InputModel|
                    #[trigger] is_relocation(pv, cv, p, cv[j2])) ==> views(changes@).contains(
                    added_change(cv[j2]),
                ),
        decreases current.len() - j,
    {
        let c = &current[j];
        assert(cv[j as int] == c@);
        assert(cv.contains(c@));
        let ghost before = views(changes@);
        let ghost mut pushed: Option<ChangeModel> = None;
        if only_in_exec(current, previous, j) {
            match relocation_partner(current, previous, j) {
                None => {
                    let change = InputChange {
                        kind: InputChangeKind::Added,
                        authority: c.kind,
                        previous_path: None,
                        current_path: Some(copy_text(c.path.as_str())),
                        previous_digest: None,
                        current_digest: Some(copy_text(c.digest.as_str())),
                    };
                    assert(change@ == added_change(c@));
                    proof {
                        assert forall|p2: InputModel| !is_relocation(pv, cv, p2, c@) by {
                            if is_relocation(pv, cv, p2, c@) {
                                assert(uniquely_only_in(pv, cv, p2) && same_content(c@, p2));
                            }
                        }
                    }
                    assert(is_input_change(pv, cv, change@));
                    proof {
                        crate::order::lemma_views_push_seq(changes@, change);
                        pushed = Some(change@);
                    }
                    changes.push(change);
                },
                Some(k) => {
                    assert(is_relocation(pv, cv, pv[k as int], cv[j as int]));
                },
            }
        }
        proof {
            match pushed {
                None => {
                    assert(views(changes@) == before);
                },
                Some(a) => {
                    assert(views(changes@) == before.push(a));
                    assert(is_input_change(pv, cv, a));
                    assert(views(changes@).contains(a)) by {
                        assert(views(changes@)[before.len() as int] == a);
                    }
                },
            }
            assert forall|x: ChangeModel| before.contains(x) implies views(changes@).contains(x) by {
                let t = choose|t: int| 0 <= t < before.len() && before[t] == x;
                assert(views(changes@)[t] == x);
            }
            assert forall|x: ChangeModel| #[trigger] views(changes@).contains(x) implies is_input_change(
                pv,
                cv,
                x,
            ) by {
                let t = choose|t: int| 0 <= t < views(changes@).len() && views(changes@)[t] == x;
                if t < before.len() {
                    assert(before[t] == x);
                    assert(before.contains(x));
                }
            }
        }
        j = j + 1;
    }
    proof {
        assert forall|x: ChangeModel| is_input_change(pv, cv, x) implies views(changes@).contains(
            x,
        ) by {
            if exists|p: InputModel, c: InputModel|
                #![trigger pv.contains(p), cv.contains(c)]
                pv.contains(p) && cv.contains(c) && p.path == c.path && (p.digest != c.digest
                    || p.bytes != c.bytes) && x == pair_change(InputChangeKind::Modified, p, c) {
                let (p, c) = choose|p: InputModel, c: InputModel|
                    #![trigger pv.contains(p), cv.contains(c)]
                    pv.contains(p) && cv.contains(c) && p.path == c.path && (p.digest != c.digest
                        || p.bytes != c.bytes) && x == pair_change(InputChangeKind::Modified, p, c);
                let a = choose|a: int| 0 <= a < pv.len() && pv[a] == p;
                let b = choose|b: int| 0 <= b < cv.len() && cv[b] == c;
                assert(pv[a].path == cv[b].path);
            } else if exists|p: InputModel, c: InputModel|
                #[trigger] is_relocation(pv, cv, p, c) && x == pair_change(
                    InputChangeKind::Relocated,
                    p,
                    c,
                ) {
                let (p, c) = choose|p: InputModel, c: InputModel|
                    #[trigger] is_relocation(pv, cv, p, c) && x == pair_change(
                        InputChangeKind::Relocated,
                        p,
                        c,
                    );
                let a = choose|a: int| 0 <= a < pv.len() && pv[a] == p;
                assert(is_relocation(pv, cv, pv[a], c));
            } else if exists|p: InputModel|
                #[trigger] only_in(pv, cv, p) && !(exists|c: InputModel|
                    #[trigger] is_relocation(pv, cv, p, c)) && x == removed_change(p) {
                let p = choose|p: InputModel|
                    #[trigger] only_in(pv, cv, p) && !(exists|c: InputModel|
                        #[trigger] is_relocation(pv, cv, p, c)) && x == removed_change(p);
                let a = choose|a: int| 0 <= a < pv.len() && pv[a] == p;
                assert(only_in(pv, cv, pv[a]));
            } else {
                let c = choose|c: InputModel|
                    #[trigger] only_in(cv, pv, c) && !(exists|p: InputModel|
                        #[trigger] is_relocation(pv, cv, p, c)) && x == added_change(c);
                let b = choose|b: int| 0 <= b < cv.len() && cv[b] == c;
                assert(only_in(cv, pv, cv[b]));
            }
        }
    }
    crate::order::canonical_sort_dedup(changes)
}

// ---------------------------------------------------------------------------
// Canonical JSON.

/// The serialized name of an authority class.
pub open spec fn authority_label(k: AuthorityInputKind) -> Seq<char> {
    match k {
        AuthorityInputKind::Source => "SOURCE"@,
        AuthorityInputKind::CargoAuthority => "CARGO_AUTHORITY"@,
        AuthorityInputKind::ProjectConfiguration => "PROJECT_CONFIGURATION"@,
        AuthorityInputKind::ModuleContract => "MODULE_CONTRACT"@,
        AuthorityInputKind::FunctionContract => "FUNCTION_CONTRACT"@,
        AuthorityInputKind::FindingGovernance => "FINDING_GOVERNANCE"@,
        AuthorityInputKind::StandardAuthority => "STANDARD_AUTHORITY"@,
        AuthorityInputKind::SourceResponsibility => "SOURCE_RESPONSIBILITY"@,
        AuthorityInputKind::StateContract => "STATE_CONTRACT"@,
        AuthorityInputKind::InformationFlowPolicy => "INFORMATION_FLOW_POLICY"@,
        AuthorityInputKind::EnvironmentContract => "ENVIRONMENT_CONTRACT"@,
        AuthorityInputKind::BehavioralRealizationContract => "BEHAVIORAL_REALIZATION_CONTRACT"@,
        AuthorityInputKind::RepositoryInput => "REPOSITORY_INPUT"@,
    }
}

fn authority_label_exec(k: AuthorityInputKind) -> (r: &'static str)
    ensures
        r@ == authority_label(k),
{
    match k {
        AuthorityInputKind::Source => "SOURCE",
        AuthorityInputKind::CargoAuthority => "CARGO_AUTHORITY",
        AuthorityInputKind::ProjectConfiguration => "PROJECT_CONFIGURATION",
        AuthorityInputKind::ModuleContract => "MODULE_CONTRACT",
        AuthorityInputKind::FunctionContract => "FUNCTION_CONTRACT",
        AuthorityInputKind::FindingGovernance => "FINDING_GOVERNANCE",
        AuthorityInputKind::StandardAuthority => "STANDARD_AUTHORITY",
        AuthorityInputKind::SourceResponsibility => "SOURCE_RESPONSIBILITY",
        AuthorityInputKind::StateContract => "STATE_CONTRACT",
        AuthorityInputKind::InformationFlowPolicy => "INFORMATION_FLOW_POLICY",
        AuthorityInputKind::EnvironmentContract => "ENVIRONMENT_CONTRACT",
        AuthorityInputKind::BehavioralRealizationContract => "BEHAVIORAL_REALIZATION_CONTRACT",
        AuthorityInputKind::RepositoryInput => "REPOSITORY_INPUT",
    }
}

/// The serialized name of a unit class.
pub open spec fn unit_kind_label(k: AffectedUnitKind) -> Seq<char> {
    match k {
        AffectedUnitKind::AuthorityInput => "AUTHORITY_INPUT"@,
        AffectedUnitKind::SourceArtifact => "SOURCE_ARTIFACT"@,
        AffectedUnitKind::Symbol => "SYMBOL"@,
        AffectedUnitKind::CallRelationship => "CALL_RELATIONSHIP"@,
        AffectedUnitKind::Module => "MODULE"@,
        AffectedUnitKind::Effect => "EFFECT"@,
        AffectedUnitKind::Capability => "CAPABILITY"@,
        AffectedUnitKind::ConformanceClaim => "CONFORMANCE_CLAIM"@,
        AffectedUnitKind::Finding => "FINDING"@,
        AffectedUnitKind::Evidence => "EVIDENCE"@,
        AffectedUnitKind::CertificationObligation => "CERTIFICATION_OBLIGATION"@,
        AffectedUnitKind::Projection => "PROJECTION"@,
    }
}

/// Returns the serialized name of a unit class.
pub fn unit_kind_label_exec(k: AffectedUnitKind) -> (r: &'static str)
    ensures
        r@ == unit_kind_label(k),
{
    match k {
        AffectedUnitKind::AuthorityInput => "AUTHORITY_INPUT",
        AffectedUnitKind::SourceArtifact => "SOURCE_ARTIFACT",
        AffectedUnitKind::Symbol => "SYMBOL",
        AffectedUnitKind::CallRelationship => "CALL_RELATIONSHIP",
        AffectedUnitKind::Module => "MODULE",
        AffectedUnitKind::Effect => "EFFECT",
        AffectedUnitKind::Capability => "CAPABILITY",
        AffectedUnitKind::ConformanceClaim => "CONFORMANCE_CLAIM",
        AffectedUnitKind::Finding => "FINDING",
        AffectedUnitKind::Evidence => "EVIDENCE",
        AffectedUnitKind::CertificationObligation => "CERTIFICATION_OBLIGATION",
        AffectedUnitKind::Projection => "PROJECTION",
    }
}

/// The serialized name of a change class.
pub open spec fn change_kind_label(k: InputChangeKind) -> Seq<char> {
    match k {
        InputChangeKind::Added => "ADDED"@,
        InputChangeKind::Removed => "REMOVED"@,
        InputChangeKind::Modified => "MODIFIED"@,
        InputChangeKind::Relocated => "RELOCATED"@,
    }
}

fn change_kind_label_exec(k: InputChangeKind) -> (r: &'static str)
    ensures
        r@ == change_kind_label(k),
{
    match k {
        InputChangeKind::Added => "ADDED",
        InputChangeKind::Removed => "REMOVED",
        InputChangeKind::Modified => "MODIFIED",
        InputChangeKind::Relocated => "RELOCATED",
    }
}

/// An optional text: the text, or null.
pub open spec fn optional_text_document(o: Option<Seq<char>>) -> JsonModel {
    match o {
        Some(t) => JsonModel::Text(t),
        None => JsonModel::Null,
    }
}

fn optional_text_json(o: &Option<String>) -> (r: Json)
    ensures
        r@ == optional_text_document(o.deep_view()),
{
    match o {
        Some(t) => text(t.as_str()),
        None => Json::Null,
    }
}

/// The JSON document of an input: every field, in declaration order.
pub open spec fn input_document(i: InputModel) -> JsonModel {
    JsonModel::Object(
        seq![
            ("path"@, JsonModel::Text(i.path)),
            ("digest"@, JsonModel::Text(i.digest)),
            ("bytes"@, JsonModel::Number(i.bytes as nat)),
            ("kind"@, JsonModel::Text(authority_label(i.kind))),
        ],
    )
}

/// The JSON document of a unit: every field, in declaration order.
pub open spec fn unit_document(u: UnitModel) -> JsonModel {
    JsonModel::Object(
        seq![
            ("id"@, JsonModel::Text(u.id)),
            ("kind"@, JsonModel::Text(unit_kind_label(u.kind))),
            ("digest"@, JsonModel::Text(u.digest)),
            ("dependencies"@, JsonModel::Array(text_values(u.dependencies))),
        ],
    )
}

/// The JSON document of a snapshot: every field, in declaration order.
pub open spec fn snapshot_document(s: SnapshotModel) -> JsonModel {
    JsonModel::Object(
        seq![
            ("$schema"@, JsonModel::Text(s.schema)),
            ("schema_version"@, JsonModel::Number(s.schema_version as nat)),
            ("semantic_version"@, JsonModel::Text(s.semantic_version)),
            ("source_fingerprint"@, JsonModel::Text(s.source_fingerprint)),
            ("inputs"@, JsonModel::Array(s.inputs.map_values(|i: InputModel| input_document(i)))),
            ("units"@, JsonModel::Array(s.units.map_values(|u: UnitModel| unit_document(u)))),
        ],
    )
}

/// The JSON document of an input change: every field, in declaration order.
pub open spec fn change_document(c: ChangeModel) -> JsonModel {
    JsonModel::Object(
        seq![
            ("kind"@, JsonModel::Text(change_kind_label(c.kind))),
            ("authority"@, JsonModel::Text(authority_label(c.authority))),
            ("previous_path"@, optional_text_document(c.previous_path)),
            ("current_path"@, optional_text_document(c.current_path)),
            ("previous_digest"@, optional_text_document(c.previous_digest)),
            ("current_digest"@, optional_text_document(c.current_digest)),
        ],
    )
}

impl AffectedInput {
    fn to_json(&self) -> (r: Json)
        ensures
            r@ == input_document(self@),
    {
        let members = vec![
            (String::from_str("path"), text(self.path.as_str())),
            (String::from_str("digest"), text(self.digest.as_str())),
            (String::from_str("bytes"), Json::Number(self.bytes)),
            (String::from_str("kind"), text(authority_label_exec(self.kind))),
        ];
        proof {
            lemma_member_models(members@);
            let i = self@;
            assert(member_models(members@) =~= seq![
                ("path"@, JsonModel::Text(i.path)),
                ("digest"@, JsonModel::Text(i.digest)),
                ("bytes"@, JsonModel::Number(i.bytes as nat)),
                ("kind"@, JsonModel::Text(authority_label(i.kind))),
            ]);
        }
        Json::Object(members)
    }
}

impl AffectedUnit {
    fn to_json(&self) -> (r: Json)
        ensures
            r@ == unit_document(self@),
    {
        let members = vec![
            (String::from_str("id"), text(self.id.as_str())),
            (String::from_str("kind"), text(unit_kind_label_exec(self.kind))),
            (String::from_str("digest"), text(self.digest.as_str())),
            (String::from_str("dependencies"), text_array(self.dependencies.as_slice())),
        ];
        proof {
            lemma_member_models(members@);
            assert(self.dependencies@.map_values(|s: String| s@) =~= texts(self.dependencies@));
            let u = self@;
            assert(member_models(members@) =~= seq![
                ("id"@, JsonModel::Text(u.id)),
                ("kind"@, JsonModel::Text(unit_kind_label(u.kind))),
                ("digest"@, JsonModel::Text(u.digest)),
                ("dependencies"@, JsonModel::Array(text_values(u.dependencies))),
            ]);
        }
        Json::Object(members)
    }
}

impl AffectedSnapshot {
    /// The snapshot as a JSON document.
    pub fn to_json(&self) -> (r: Json)
        ensures
            r@ == snapshot_document(self@),
    {
        let mut inputs: Vec<Json> = Vec::new();
        let mut i: usize = 0;
        while i < self.inputs.len()
            invariant
                i <= self.inputs@.len(),
                inputs@.len() == i,
                forall|k: int| 0 <= k < i ==> #[trigger] json_model(inputs@[k]) == input_document(self.inputs@[k]@),
            decreases self.inputs.len() - i,
        {
            inputs.push(self.inputs[i].to_json());
            i = i + 1;
        }
        let mut units: Vec<Json> = Vec::new();
        let mut j: usize = 0;
        while j < self.units.len()
            invariant
                j <= self.units@.len(),
                units@.len() == j,
                forall|k: int| 0 <= k < j ==> #[trigger] json_model(units@[k]) == unit_document(self.units@[k]@),
            decreases self.units.len() - j,
        {
            units.push(self.units[j].to_json());
            j = j + 1;
        }
        proof {
            lemma_json_models(inputs@);
            lemma_json_models(units@);
            assert(json_models(inputs@) =~= views(self.inputs@).map_values(|i: InputModel| input_document(i)));
            assert(json_models(units@) =~= views(self.units@).map_values(|u: UnitModel| unit_document(u)));
        }
        let members = vec![
            (String::from_str("$schema"), text(self.schema.as_str())),
            (String::from_str("schema_version"), Json::Number(self.schema_version as u64)),
            (String::from_str("semantic_version"), text(self.semantic_version.as_str())),
            (String::from_str("source_fingerprint"), text(self.source_fingerprint.as_str())),
            (String::from_str("inputs"), Json::Array(inputs)),
            (String::from_str("units"), Json::Array(units)),
        ];
        proof {
            lemma_member_models(members@);
            let s = self@;
            assert(member_models(members@) =~= seq![
                ("$schema"@, JsonModel::Text(s.schema)),
                ("schema_version"@, JsonModel::Number(s.schema_version as nat)),
                ("semantic_version"@, JsonModel::Text(s.semantic_version)),
                ("source_fingerprint"@, JsonModel::Text(s.source_fingerprint)),
                ("inputs"@, JsonModel::Array(s.inputs.map_values(|i: InputModel| input_document(i)))),
                ("units"@, JsonModel::Array(s.units.map_values(|u: UnitModel| unit_document(u)))),
            ]);
        }
        Json::Object(members)
    }

    /// Serializes canonical two-space JSON with one trailing line feed.
    pub fn to_canonical_json(&self) -> (r: String)
        ensures
            r@ == pretty_document(snapshot_document(self@)),
    {
        let document = self.to_json();
        render_pretty_document(&document)
    }
}

impl InputChange {
    /// The change as a JSON document.
    pub fn to_json(&self) -> (r: Json)
        ensures
            r@ == change_document(self@),
    {
        let members = vec![
            (String::from_str("kind"), text(change_kind_label_exec(self.kind))),
            (String::from_str("authority"), text(authority_label_exec(self.authority))),
            (String::from_str("previous_path"), optional_text_json(&self.previous_path)),
            (String::from_str("current_path"), optional_text_json(&self.current_path)),
            (String::from_str("previous_digest"), optional_text_json(&self.previous_digest)),
            (String::from_str("current_digest"), optional_text_json(&self.current_digest)),
        ];
        proof {
            lemma_member_models(members@);
            let c = self@;
            assert(member_models(members@) =~= seq![
                ("kind"@, JsonModel::Text(change_kind_label(c.kind))),
                ("authority"@, JsonModel::Text(authority_label(c.authority))),
                ("previous_path"@, optional_text_document(c.previous_path)),
                ("current_path"@, optional_text_document(c.current_path)),
                ("previous_digest"@, optional_text_document(c.previous_digest)),
                ("current_digest"@, optional_text_document(c.current_digest)),
            ]);
        }
        Json::Object(members)
    }
}

} // verus!
