//! Dependency-bound cache keys and the verification of cached projections.

use vstd::prelude::*;
use vstd::utf8::encode_utf8;

use crate::codec::{json_quoted, json_string, sha256, sha256_identity_of};
use crate::order::{
    is_strictly_canonical, TotalOrder,
    canonical_sort, fields_le, first_duplicate_key, has_duplicate_key, is_canonical,
    is_least_duplicate_key, keys, lemma_fields_le_reflexive, lemma_fields_le_total,
    lemma_fields_le_transitive, lemma_permutation_duplicate_keys, lemma_permutation_views,
    lemma_seq_eq_from_le, views, CanonicalOrder, Keyed,
};
use crate::text::{blank, concat, copy_text, is_ascii_alnum, is_blank, seq_le, seq_lt, text_eq};
use super::paths::{is_sha256_identity, sha256_identity};
use super::AffectedAnalysisError;

verus! {

/// Declares `std::path::PathBuf` to the verifier; values are carried opaquely.
#[verifier::external_type_specification]
#[verifier::external_body]
pub struct ExPathBuf(std::path::PathBuf);

/// Canonical projection kinds eligible for dependency-bound cache reuse.
#[derive(Clone, Copy, Debug, PartialEq, Eq, Structural)]
pub enum ProjectionKind {
    /// Contract Coherency Graph.
    Ccg,
    /// Intended Behavioral Flow Graph.
    Bfg,
    /// Program Semantic Model.
    Psm,
    /// Function-domain semantic analysis.
    Semantic,
    /// State and Effect Analysis.
    StateEffect,
    /// Module semantic conformance.
    SemanticConformance,
    /// Information-flow analysis.
    InformationFlow,
    /// Environmental analysis.
    Environmental,
    /// Realized Behavioral Flow Graph.
    RealizedBfg,
    /// Component reference resolution.
    References,
    /// Source Artifact Model.
    SourceArtifacts,
    /// Raw repository audit.
    Audit,
}

/// The stable command/cache identity of a projection kind.
pub open spec fn projection_kind_name(kind: ProjectionKind) -> Seq<char> {
    match kind {
        ProjectionKind::Ccg => "ccg"@,
        ProjectionKind::Bfg => "bfg"@,
        ProjectionKind::Psm => "psm"@,
        ProjectionKind::Semantic => "semantic"@,
        ProjectionKind::StateEffect => "state-effect"@,
        ProjectionKind::SemanticConformance => "semantic-conformance"@,
        ProjectionKind::InformationFlow => "information-flow"@,
        ProjectionKind::Environmental => "environmental"@,
        ProjectionKind::RealizedBfg => "realized-bfg"@,
        ProjectionKind::References => "references"@,
        ProjectionKind::SourceArtifacts => "source-artifacts"@,
        ProjectionKind::Audit => "audit"@,
    }
}

impl ProjectionKind {
    /// Returns the stable command/cache identity.
    pub fn as_str(self) -> (r: &'static str)
        ensures
            r@ == projection_kind_name(self),
    {
        match self {
            ProjectionKind::Ccg => "ccg",
            ProjectionKind::Bfg => "bfg",
            ProjectionKind::Psm => "psm",
            ProjectionKind::Semantic => "semantic",
            ProjectionKind::StateEffect => "state-effect",
            ProjectionKind::SemanticConformance => "semantic-conformance",
            ProjectionKind::InformationFlow => "information-flow",
            ProjectionKind::Environmental => "environmental",
            ProjectionKind::RealizedBfg => "realized-bfg",
            ProjectionKind::References => "references",
            ProjectionKind::SourceArtifacts => "source-artifacts",
            ProjectionKind::Audit => "audit",
        }
    }
}

/// Abstract value of one projection dependency.
pub struct DependencyModel {
    pub id: Seq<char>,
    pub digest: Seq<char>,
}

/// One exact input to a reusable projection unit.
#[derive(Clone, Debug)]
pub struct ProjectionDependency {
    id: String,
    digest: String,
}

impl View for ProjectionDependency {
    type V = DependencyModel;

    closed spec fn view(&self) -> DependencyModel {
        DependencyModel { id: self.id@, digest: self.digest@ }
    }
}

impl ProjectionDependency {
    /// Creates one stable input binding.
    pub fn new(id: String, digest: String) -> (r: Result<Self, AffectedAnalysisError>)
        ensures
            is_blank(id@) ==> r == Err::<Self, _>(AffectedAnalysisError::InvalidUnitIdentity(id)),
            !is_blank(id@) && !is_sha256_identity(digest@) ==> r == Err::<Self, _>(
                AffectedAnalysisError::InvalidDigest(digest),
            ),
            !is_blank(id@) && is_sha256_identity(digest@) ==> (r matches Ok(d) && d@ == (
            DependencyModel { id: id@, digest: digest@ })),
    {
        if blank(id.as_str()) {
            return Err(AffectedAnalysisError::InvalidUnitIdentity(id));
        }
        if !sha256_identity(digest.as_str()) {
            return Err(AffectedAnalysisError::InvalidDigest(digest));
        }
        Ok(ProjectionDependency { id, digest })
    }

    /// Returns the stable dependency identity.
    pub fn id(&self) -> (r: &str)
        ensures
            r@ == self@.id,
    {
        self.id.as_str()
    }

    /// Returns the exact dependency digest.
    pub fn digest(&self) -> (r: &str)
        ensures
            r@ == self@.digest,
    {
        self.digest.as_str()
    }
}

impl Keyed for ProjectionDependency {
    open spec fn key_of(v: DependencyModel) -> Seq<char> {
        v.id
    }

    fn key(&self) -> (k: &str) {
        self.id.as_str()
    }
}

impl CanonicalOrder for ProjectionDependency {
    open spec fn ordered(a: DependencyModel, b: DependencyModel) -> bool {
        fields_le(seq![a.id, a.digest], seq![b.id, b.digest])
    }

    proof fn lemma_ordered_reflexive(a: DependencyModel) {
        lemma_fields_le_reflexive(seq![a.id, a.digest]);
    }

    proof fn lemma_ordered_transitive(a: DependencyModel, b: DependencyModel, c: DependencyModel) {
        lemma_fields_le_transitive(seq![a.id, a.digest], seq![b.id, b.digest], seq![c.id, c.digest]);
    }

    proof fn lemma_ordered_total(a: DependencyModel, b: DependencyModel) {
        lemma_fields_le_total(seq![a.id, a.digest], seq![b.id, b.digest]);
    }

    fn precedes(&self, other: &Self) -> (r: bool) {
        let a = seq_pair(self.id.as_str(), self.digest.as_str());
        let b = seq_pair(other.id.as_str(), other.digest.as_str());
        crate::order::fields_le_exec(&a, &b)
    }
}

impl TotalOrder for ProjectionDependency {
    proof fn lemma_ordered_antisymmetric(a: DependencyModel, b: DependencyModel) {
        crate::order::lemma_fields_le_antisymmetric(seq![a.id, a.digest], seq![b.id, b.digest]);
        assert(seq![a.id, a.digest][0] == a.id && seq![a.id, a.digest][1] == a.digest);
        assert(seq![b.id, b.digest][0] == b.id && seq![b.id, b.digest][1] == b.digest);
    }
}

fn seq_pair(x: &str, y: &str) -> (r: Vec<Vec<char>>)
    ensures
        r@.len() == 2,
        r@[0]@ == x@,
        r@[1]@ == y@,
        r@.map_values(|v: Vec<char>| v@) == seq![x@, y@],
{
    let mut r: Vec<Vec<char>> = Vec::new();
    r.push(crate::text::chars_of(x));
    r.push(crate::text::chars_of(y));
    assert(r@.map_values(|v: Vec<char>| v@) =~= seq![x@, y@]);
    r
}

proof fn lemma_ordered_keys(a: DependencyModel, b: DependencyModel)
    requires
        ProjectionDependency::ordered(a, b),
    ensures
        seq_le(a.id, b.id),
{
    let x = seq![a.id, a.digest];
    let y = seq![b.id, b.digest];
    assert(x[0] == a.id && y[0] == b.id);
    if !seq_lt(a.id, b.id) && !seq_lt(b.id, a.id) {
        lemma_seq_eq_from_le(a.id, b.id);
        crate::text::lemma_seq_le_reflexive(a.id);
    }
}

/// The compact JSON object binding one dependency.
pub open spec fn dependency_material(d: DependencyModel) -> Seq<char> {
    "{\"id\":"@ + json_quoted(d.id) + ",\"digest\":"@ + json_quoted(d.digest) + "}"@
}

/// The comma-separated JSON objects of a dependency list.
pub open spec fn dependencies_material(ds: Seq<DependencyModel>) -> Seq<char>
    decreases ds.len(),
{
    if ds.len() == 0 {
        Seq::empty()
    } else if ds.len() == 1 {
        dependency_material(ds[0])
    } else {
        dependencies_material(ds.drop_last()) + ","@ + dependency_material(ds.last())
    }
}

/// The compact JSON document that a cache key digest is computed over.
pub open spec fn key_material(
    kind: ProjectionKind,
    generator: Seq<char>,
    generator_version: Seq<char>,
    ds: Seq<DependencyModel>,
) -> Seq<char> {
    "{\"kind\":"@ + json_quoted(projection_kind_name(kind)) + ",\"generator\":"@ + json_quoted(
        generator,
    ) + ",\"generator_version\":"@ + json_quoted(generator_version) + ",\"dependencies\":["@
        + dependencies_material(ds) + "]}"@
}

/// Abstract value of one cache key.
pub struct KeyModel {
    pub kind: ProjectionKind,
    pub generator: Seq<char>,
    pub generator_version: Seq<char>,
    pub dependencies: Seq<DependencyModel>,
    pub digest: Seq<char>,
}

/// Complete cache identity for one canonical projection computation.
#[derive(Clone, Debug)]
pub struct ProjectionCacheKey {
    kind: ProjectionKind,
    generator: String,
    generator_version: String,
    dependencies: Vec<ProjectionDependency>,
    digest: String,
}

impl View for ProjectionCacheKey {
    type V = KeyModel;

    closed spec fn view(&self) -> KeyModel {
        KeyModel {
            kind: self.kind,
            generator: self.generator@,
            generator_version: self.generator_version@,
            dependencies: views(self.dependencies@),
            digest: self.digest@,
        }
    }
}

fn dependency_json(d: &ProjectionDependency) -> (r: Option<String>)
    ensures
        r matches Some(t) && t@ == dependency_material(d@),
{
    let id = json_string(d.id.as_str())?;
    let digest = json_string(d.digest.as_str())?;
    let out = concat("{\"id\":", id.as_str());
    let out = concat(out.as_str(), ",\"digest\":");
    let out = concat(out.as_str(), digest.as_str());
    Some(concat(out.as_str(), "}"))
}

fn key_json(
    kind: ProjectionKind,
    generator: &str,
    generator_version: &str,
    dependencies: &Vec<ProjectionDependency>,
) -> (r: Option<String>)
    ensures
        r matches Some(t) && t@ == key_material(kind, generator@, generator_version@, views(dependencies@)),
{
    let mut list = String::new();
    let mut i: usize = 0;
    while i < dependencies.len()
        invariant
            i <= dependencies@.len(),
            list@ == dependencies_material(views(dependencies@).take(i as int)),
        decreases dependencies.len() - i,
    {
        let ghost ds = views(dependencies@);
        assert(ds.take(i + 1).drop_last() =~= ds.take(i as int));
        assert(ds.take(i + 1).last() == dependencies@[i as int]@);
        let item = dependency_json(&dependencies[i])?;
        if i == 0 {
            assert(ds.take(1) =~= seq![dependencies@[0]@]);
            list = item;
        } else {
            let joined = concat(list.as_str(), ",");
            list = concat(joined.as_str(), item.as_str());
        }
        i = i + 1;
    }
    assert(views(dependencies@).take(dependencies@.len() as int) =~= views(dependencies@));
    let kind_text = json_string(kind.as_str())?;
    let generator_text = json_string(generator)?;
    let version_text = json_string(generator_version)?;
    let out = concat("{\"kind\":", kind_text.as_str());
    let out = concat(out.as_str(), ",\"generator\":");
    let out = concat(out.as_str(), generator_text.as_str());
    let out = concat(out.as_str(), ",\"generator_version\":");
    let out = concat(out.as_str(), version_text.as_str());
    let out = concat(out.as_str(), ",\"dependencies\":[");
    let out = concat(out.as_str(), list.as_str());
    Some(concat(out.as_str(), "]}"))
}

/// `key` is the key of a projection of `kind` by a generator at a version
/// over the dependency bindings `deps`: the bindings in canonical order,
/// each once, and the digest of the key material.
pub open spec fn key_of(
    key: KeyModel,
    kind: ProjectionKind,
    generator: Seq<char>,
    generator_version: Seq<char>,
    deps: Seq<DependencyModel>,
) -> bool {
    &&& key.kind == kind
    &&& key.generator == generator
    &&& key.generator_version == generator_version
    &&& is_strictly_canonical::<ProjectionDependency>(key.dependencies)
    &&& key.dependencies.len() == deps.len()
    &&& forall|x: DependencyModel| key.dependencies.contains(x) <==> deps.contains(x)
    &&& key.digest == sha256_identity_of(encode_utf8(key_material(kind, generator, generator_version, key.dependencies)))
}

/// A key does not depend on the order in which its dependency bindings are
/// given: keys built from the same bindings in any order are equal, with the
/// same dependencies in canonical order and the same digest.
pub proof fn lemma_key_ignores_dependency_order(
    a: KeyModel,
    b: KeyModel,
    kind: ProjectionKind,
    generator: Seq<char>,
    generator_version: Seq<char>,
    first: Seq<DependencyModel>,
    second: Seq<DependencyModel>,
)
    requires
        key_of(a, kind, generator, generator_version, first),
        key_of(b, kind, generator, generator_version, second),
        first.to_multiset() == second.to_multiset(),
    ensures
        a == b,
{
    broadcast use vstd::seq_lib::group_to_multiset_ensures;

    assert forall|x: DependencyModel| a.dependencies.contains(x) <==> b.dependencies.contains(x) by {
        assert(first.contains(x) <==> first.to_multiset().count(x) > 0);
        assert(second.contains(x) <==> second.to_multiset().count(x) > 0);
    }
    crate::order::lemma_strictly_canonical_unique::<ProjectionDependency>(a.dependencies, b.dependencies);
}

impl ProjectionCacheKey {
    /// Creates a canonical key bound to every declared dependency.
    ///
    /// Dependencies are put in canonical order; a repeated dependency identity
    /// is refused. The digest covers the kind, the generator, its version and
    /// every dependency binding.
    pub fn new(
        kind: ProjectionKind,
        generator: String,
        generator_version: String,
        dependencies: Vec<ProjectionDependency>,
    ) -> (r: Result<Self, AffectedAnalysisError>)
        ensures
            has_duplicate_key(dependencies@) ==> (r matches Err(
                AffectedAnalysisError::DuplicateIdentity { class, identity },
            ) && class@ == "projection dependency"@ && is_least_duplicate_key(
                dependencies@,
                identity@,
            )),
            !has_duplicate_key(dependencies@) ==> r is Ok,
            r matches Ok(key) ==> key_of(key@, kind, generator@, generator_version@, views(dependencies@))
                && crate::codec::is_lower_sha256_identity(key@.digest),
    {
        let ghost original = dependencies@;
        let dependencies = canonical_sort(dependencies);
        proof {
            lemma_permutation_duplicate_keys(original, dependencies@);
            lemma_permutation_views(original, dependencies@);
            assert forall|a: int, b: int| 0 <= a < b < dependencies@.len() implies seq_le(
                #[trigger] keys(dependencies@)[a],
                #[trigger] keys(dependencies@)[b],
            ) by {
                assert(ProjectionDependency::ordered(
                    views(dependencies@)[a],
                    views(dependencies@)[b],
                ));
                lemma_ordered_keys(views(dependencies@)[a], views(dependencies@)[b]);
            }
        }
        if let Some(i) = first_duplicate_key(&dependencies) {
            let identity = copy_text(dependencies[i].id.as_str());
            return Err(
                AffectedAnalysisError::DuplicateIdentity {
                    class: copy_text("projection dependency"),
                    identity,
                },
            );
        }
        proof {
            assert forall|a: int, b: int| 0 <= a < b < dependencies@.len() implies views(dependencies@)[a]
                != views(dependencies@)[b] by {
                assert(keys(dependencies@)[a] == views(dependencies@)[a].id);
                assert(keys(dependencies@)[b] == views(dependencies@)[b].id);
            }
        }
        let material = match key_json(kind, generator.as_str(), generator_version.as_str(), &dependencies) {
            Some(m) => m,
            None => {
                return Err(AffectedAnalysisError::Serialization);
            },
        };
        let digest = crate::codec::sha256_text(material.as_str());
        Ok(ProjectionCacheKey { kind, generator, generator_version, dependencies, digest })
    }

    /// Returns the projection kind.
    pub fn kind(&self) -> (r: ProjectionKind)
        ensures
            r == self@.kind,
    {
        self.kind
    }

    /// Returns the generator identity.
    pub fn generator(&self) -> (r: &str)
        ensures
            r@ == self@.generator,
    {
        self.generator.as_str()
    }

    /// Returns the generator version.
    pub fn generator_version(&self) -> (r: &str)
        ensures
            r@ == self@.generator_version,
    {
        self.generator_version.as_str()
    }

    /// Returns the complete semantic dependency digest.
    pub fn digest(&self) -> (r: &str)
        ensures
            r@ == self@.digest,
    {
        self.digest.as_str()
    }

    /// Returns exact dependency bindings.
    pub fn dependencies(&self) -> (r: &[ProjectionDependency])
        ensures
            views(r@) == self@.dependencies,
    {
        self.dependencies.as_slice()
    }

    /// The directory segment of this key: its digest without `sha256:`.
    pub fn directory_segment(&self) -> (r: String)
        ensures
            r@ == crate::affected::analysis::strip_prefix_spec(self@.digest, "sha256:"@),
    {
        crate::text::strip_prefix_or_self(self.digest.as_str(), "sha256:")
    }
}

/// Machine-local cache state for one requested dependency key.
#[derive(Clone, Copy, Debug, PartialEq, Eq, Structural)]
pub enum IncrementalCacheState {
    /// Exact dependency-bound bytes were verified.
    ReusableCurrent,
    /// A prior key exists but does not match current dependencies.
    Stale,
    /// No materialized unit exists.
    Missing,
    /// Materialized metadata or content failed verification.
    Invalid,
}

/// Verified cache lookup result.
#[derive(Debug)]
pub struct CachedProjection {
    state: IncrementalCacheState,
    content: Option<Vec<u8>>,
    exit_code: Option<u8>,
}

/// Abstract value of one lookup result.
pub struct CachedModel {
    pub state: IncrementalCacheState,
    pub content: Option<Seq<u8>>,
    pub exit_code: Option<u8>,
}

impl View for CachedProjection {
    type V = CachedModel;

    closed spec fn view(&self) -> CachedModel {
        CachedModel {
            state: self.state,
            content: match self.content {
                Some(c) => Some(c@),
                None => None,
            },
            exit_code: self.exit_code,
        }
    }
}

impl CachedProjection {
    /// Returns the truthful cache state.
    pub fn state(&self) -> (r: IncrementalCacheState)
        ensures
            r == self@.state,
    {
        self.state
    }

    /// Returns verified canonical bytes only for a current entry.
    pub fn content(&self) -> (r: Option<&[u8]>)
        ensures
            r is Some <==> self@.content is Some,
            r matches Some(c) ==> self@.content == Some(c@),
    {
        match &self.content {
            Some(c) => Some(c.as_slice()),
            None => None,
        }
    }

    /// Returns the original semantic command exit code when current.
    pub fn exit_code(&self) -> (r: Option<u8>)
        ensures
            r == self@.exit_code,
    {
        self.exit_code
    }

    /// The lookup result when no materialized entry exists for the key:
    /// missing without any index, invalid when the index names this very key,
    /// stale when it names another.
    pub fn absent(latest: Option<&str>, key: &ProjectionCacheKey) -> (r: CachedProjection)
        ensures
            r@.content is None && r@.exit_code is None,
            r@.state == match latest {
                None => IncrementalCacheState::Missing,
                Some(l) => if l@ == key@.digest {
                    IncrementalCacheState::Invalid
                } else {
                    IncrementalCacheState::Stale
                },
            },
    {
        let state = match latest {
            None => IncrementalCacheState::Missing,
            Some(l) => if text_eq(l, key.digest.as_str()) {
                IncrementalCacheState::Invalid
            } else {
                IncrementalCacheState::Stale
            },
        };
        CachedProjection { state, content: None, exit_code: None }
    }

    /// The lookup result for a materialized entry whose descriptor was read.
    ///
    /// The entry is current only when its descriptor is canonical and names
    /// this key, and the content has the recorded length and digest.
    pub fn materialized(
        descriptor_matches: bool,
        content: Vec<u8>,
        recorded_bytes: u64,
        recorded_digest: &str,
        exit_code: u8,
    ) -> (r: CachedProjection)
        ensures
            (r@.state == IncrementalCacheState::ReusableCurrent) == (descriptor_matches
                && content@.len() == recorded_bytes && recorded_digest@ == sha256_identity_of(
                content@,
            )),
            r@.state != IncrementalCacheState::ReusableCurrent ==> r@.state
                == IncrementalCacheState::Invalid && r@.content is None && r@.exit_code is None,
            r@.state == IncrementalCacheState::ReusableCurrent ==> r@.content == Some(content@)
                && r@.exit_code == Some(exit_code),
    {
        if !descriptor_matches {
            return CachedProjection { state: IncrementalCacheState::Invalid, content: None, exit_code: None };
        }
        let length = content.len();
        if length as u64 != recorded_bytes {
            return CachedProjection { state: IncrementalCacheState::Invalid, content: None, exit_code: None };
        }
        let digest = sha256(content.as_slice());
        if !text_eq(digest.as_str(), recorded_digest) {
            return CachedProjection { state: IncrementalCacheState::Invalid, content: None, exit_code: None };
        }
        CachedProjection {
            state: IncrementalCacheState::ReusableCurrent,
            content: Some(content),
            exit_code: Some(exit_code),
        }
    }
}

/// A safe project cache segment: non-empty ASCII letters, digits, `-`, `_`.
pub open spec fn is_cache_project(s: Seq<char>) -> bool {
    s.len() > 0 && forall|i: int| 0 <= i < s.len() ==> is_ascii_alnum(#[trigger] s[i]) || s[i] == '-' || s[i] == '_'
}

fn cache_project(s: &str) -> (r: bool)
    ensures
        r == is_cache_project(s@),
{
    let chars = crate::text::chars_of(s);
    if chars.len() == 0 {
        return false;
    }
    let mut i: usize = 0;
    while i < chars.len()
        invariant
            chars@ == s@,
            i <= chars@.len(),
            forall|k: int| 0 <= k < i ==> is_ascii_alnum(#[trigger] s@[k]) || s@[k] == '-' || s@[k] == '_',
        decreases chars.len() - i,
    {
        let c = chars[i];
        if !(crate::text::ascii_alnum(c) || c == '-' || c == '_') {
            return false;
        }
        i = i + 1;
    }
    true
}

/// Verified machine-local content-addressed projection cache.
#[derive(Debug)]
pub struct IncrementalProjectionCache {
    base: std::path::PathBuf,
    project: String,
}

impl View for IncrementalProjectionCache {
    type V = Seq<char>;

    /// The validated project segment.
    closed spec fn view(&self) -> Seq<char> {
        self.project@
    }
}

impl IncrementalProjectionCache {
    /// The execution-local base directory.
    pub closed spec fn base_path(&self) -> std::path::PathBuf {
        self.base
    }

    /// Creates a cache rooted at an explicit execution-local directory.
    pub fn new(base: std::path::PathBuf, project: String) -> (r: Result<Self, AffectedAnalysisError>)
        ensures
            !is_cache_project(project@) ==> r == Err::<Self, _>(
                AffectedAnalysisError::InvalidCacheProject(project),
            ),
            is_cache_project(project@) ==> (r matches Ok(cache) && cache@ == project@ && cache.base_path() == base),
    {
        if !cache_project(project.as_str()) {
            return Err(AffectedAnalysisError::InvalidCacheProject(project));
        }
        Ok(IncrementalProjectionCache { base, project })
    }

    /// Returns the execution-local base directory.
    pub fn base(&self) -> (r: &std::path::PathBuf)
        ensures
            *r == self.base_path(),
    {
        &self.base
    }

    /// Returns the validated project segment.
    pub fn project(&self) -> (r: &str)
        ensures
            r@ == self@,
    {
        self.project.as_str()
    }
}

} // verus!
