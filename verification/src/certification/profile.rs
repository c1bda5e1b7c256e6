//! Certification profiles, Rust suite execution evidence, and the digests
//! that bind a certification to its source and test inventory.

use vstd::prelude::*;

use crate::codec::sha256;
use crate::json::{lemma_member_models, member_models, text_array, text_values, Json, JsonModel};
use crate::text::{copy_text, is_strictly_sorted, strictly_sorted, text_eq, texts, texts_contain};

use super::evidence::{content_identity, content_identity_of};
use super::CertificationError;

verus! {

/// Certification Profile schema version.
pub const CERTIFICATION_PROFILE_SCHEMA_VERSION: u16 = 1;

/// Certification Profile schema identity.
pub const CERTIFICATION_PROFILE_SCHEMA: &'static str = "urn:fortress:schema:v1:certification-profile";

/// Canonical full-snapshot profile identity.
pub const FULL_SNAPSHOT_PROFILE_ID: &'static str = "CERT-FULL-SNAPSHOT-V1";

/// Canonical certification profile.
#[derive(Debug)]
pub struct CertificationProfile {
    /// Profile schema identity.
    pub schema: String,
    /// Profile schema version.
    pub schema_version: u16,
    /// Stable profile identity.
    pub id: String,
    /// Whether all applicable rules must be supported and pass.
    pub require_all_applicable_rules: bool,
    /// Whether all declared Requirement tests must execute.
    pub require_all_requirement_tests: bool,
    /// Whether opted-in behavioral realization must be coherent.
    pub require_behavioral_realization: bool,
    /// Whether generated verification obligations must execute.
    pub require_generated_verification: bool,
    /// Whether every mandatory semantic artifact must be current.
    pub require_current_artifacts: bool,
}

/// Why a profile is refused, if it is: an unknown schema version or an empty
/// identity, or the full-snapshot identity with any requirement switched off.
pub open spec fn profile_error(p: CertificationProfile) -> Option<CertificationError> {
    if p.schema_version != CERTIFICATION_PROFILE_SCHEMA_VERSION || p.id@.len() == 0 {
        Some(CertificationError::InvalidProfile)
    } else if p.id@ == FULL_SNAPSHOT_PROFILE_ID@ && !(p.require_all_applicable_rules
        && p.require_all_requirement_tests && p.require_behavioral_realization
        && p.require_generated_verification && p.require_current_artifacts) {
        Some(CertificationError::WeakenedFullProfile)
    } else {
        None
    }
}

/// The profile as a JSON value: its fields in key order.
pub open spec fn profile_document(p: CertificationProfile) -> JsonModel {
    JsonModel::Object(
        seq![
            ("$schema"@, JsonModel::Text(p.schema@)),
            ("id"@, JsonModel::Text(p.id@)),
            ("require_all_applicable_rules"@, JsonModel::Bool(p.require_all_applicable_rules)),
            ("require_all_requirement_tests"@, JsonModel::Bool(p.require_all_requirement_tests)),
            ("require_behavioral_realization"@, JsonModel::Bool(p.require_behavioral_realization)),
            ("require_current_artifacts"@, JsonModel::Bool(p.require_current_artifacts)),
            ("require_generated_verification"@, JsonModel::Bool(p.require_generated_verification)),
            ("schema_version"@, JsonModel::Number(p.schema_version as nat)),
        ],
    )
}

impl CertificationProfile {
    /// Returns the canonical full-snapshot profile.
    pub fn full_snapshot() -> (r: Self)
        ensures
            r.schema@ == CERTIFICATION_PROFILE_SCHEMA@,
            r.schema_version == CERTIFICATION_PROFILE_SCHEMA_VERSION,
            r.id@ == FULL_SNAPSHOT_PROFILE_ID@,
            r.require_all_applicable_rules,
            r.require_all_requirement_tests,
            r.require_behavioral_realization,
            r.require_generated_verification,
            r.require_current_artifacts,
    {
        CertificationProfile {
            schema: String::from_str(CERTIFICATION_PROFILE_SCHEMA),
            schema_version: CERTIFICATION_PROFILE_SCHEMA_VERSION,
            id: String::from_str(FULL_SNAPSHOT_PROFILE_ID),
            require_all_applicable_rules: true,
            require_all_requirement_tests: true,
            require_behavioral_realization: true,
            require_generated_verification: true,
            require_current_artifacts: true,
        }
    }

    /// Validates profile identity and the mandatory semantics of the full
    /// profile.
    pub fn validate(&self) -> (r: Result<(), CertificationError>)
        ensures
            match profile_error(*self) {
                Some(e) => r == Err::<(), CertificationError>(e),
                None => r is Ok,
            },
    {
        if self.schema_version != CERTIFICATION_PROFILE_SCHEMA_VERSION || self.id.as_str().unicode_len() == 0 {
            return Err(CertificationError::InvalidProfile);
        }
        if text_eq(self.id.as_str(), FULL_SNAPSHOT_PROFILE_ID) && !(self.require_all_applicable_rules
            && self.require_all_requirement_tests && self.require_behavioral_realization
            && self.require_generated_verification && self.require_current_artifacts) {
            return Err(CertificationError::WeakenedFullProfile);
        }
        Ok(())
    }

    /// The profile as a JSON value.
    pub fn to_json(&self) -> (r: Json)
        ensures
            r@ == profile_document(*self),
    {
        let members = vec![
            (String::from_str("$schema"), Json::Text(copy_text(self.schema.as_str()))),
            (String::from_str("id"), Json::Text(copy_text(self.id.as_str()))),
            (String::from_str("require_all_applicable_rules"), Json::Bool(self.require_all_applicable_rules)),
            (String::from_str("require_all_requirement_tests"), Json::Bool(self.require_all_requirement_tests)),
            (String::from_str("require_behavioral_realization"), Json::Bool(self.require_behavioral_realization)),
            (String::from_str("require_current_artifacts"), Json::Bool(self.require_current_artifacts)),
            (String::from_str("require_generated_verification"), Json::Bool(self.require_generated_verification)),
            (String::from_str("schema_version"), Json::Number(self.schema_version as u64)),
        ];
        proof {
            lemma_member_models(members@);
            assert(member_models(members@) =~= seq![
                ("$schema"@, JsonModel::Text(self.schema@)),
                ("id"@, JsonModel::Text(self.id@)),
                ("require_all_applicable_rules"@, JsonModel::Bool(self.require_all_applicable_rules)),
                ("require_all_requirement_tests"@, JsonModel::Bool(self.require_all_requirement_tests)),
                ("require_behavioral_realization"@, JsonModel::Bool(self.require_behavioral_realization)),
                ("require_current_artifacts"@, JsonModel::Bool(self.require_current_artifacts)),
                ("require_generated_verification"@, JsonModel::Bool(self.require_generated_verification)),
                ("schema_version"@, JsonModel::Number(self.schema_version as nat)),
            ]);
        }
        Json::Object(members)
    }
}

/// The test inventory as a JSON value: enabled and ignored Test IDs.
pub open spec fn inventory_document(eligible: Seq<Seq<char>>, ignored: Seq<Seq<char>>) -> JsonModel {
    JsonModel::Object(
        seq![
            ("eligible"@, JsonModel::Array(text_values(eligible))),
            ("ignored"@, JsonModel::Array(text_values(ignored))),
        ],
    )
}

/// Computes a deterministic test-inventory digest: the content identity of
/// the inventory document.
pub fn test_inventory_digest(eligible: &[String], ignored: &[String]) -> (r: String)
    ensures
        r@ == content_identity(inventory_document(texts(eligible@), texts(ignored@))),
{
    let members = vec![
        (String::from_str("eligible"), text_array(eligible)),
        (String::from_str("ignored"), text_array(ignored)),
    ];
    proof {
        lemma_member_models(members@);
        assert(eligible@.map_values(|s: String| s@) =~= texts(eligible@));
        assert(ignored@.map_values(|s: String| s@) =~= texts(ignored@));
        assert(member_models(members@) =~= seq![
            ("eligible"@, JsonModel::Array(text_values(texts(eligible@)))),
            ("ignored"@, JsonModel::Array(text_values(texts(ignored@)))),
        ]);
    }
    content_identity_of(&Json::Object(members))
}

/// Exact normalized Rust suite execution supplied by the execution boundary.
#[derive(Debug)]
pub struct RustSuiteExecution {
    /// Stable executor identity.
    pub executor: String,
    /// Executor semantic version.
    pub executor_version: String,
    /// Exact toolchain identity.
    pub toolchain: String,
    /// Exact certification source digest before and after execution.
    pub certification_source_digest: String,
    /// Digest of the eligible test inventory.
    pub test_inventory_digest: String,
    /// Whether the canonical unfiltered workspace/all-target/all-feature command ran.
    pub canonical_unfiltered: bool,
    /// Process result.
    pub passed: bool,
    /// Sorted eligible Test IDs proven included by the canonical suite.
    pub eligible_test_ids: Vec<String>,
    /// Sorted ignored Test IDs, which never satisfy execution evidence.
    pub ignored_test_ids: Vec<String>,
}

/// Why suite evidence is refused, if it is, checked in order: a missing
/// executor, version or toolchain; inventories not strictly sorted; a Test ID
/// both enabled and ignored; an inventory digest that does not bind the lists.
pub open spec fn suite_error(s: RustSuiteExecution) -> Option<CertificationError> {
    let eligible = texts(s.eligible_test_ids@);
    let ignored = texts(s.ignored_test_ids@);
    if s.executor@.len() == 0 || s.executor_version@.len() == 0 || s.toolchain@.len() == 0 {
        Some(CertificationError::InvalidSuiteExecution)
    } else if !strictly_sorted(eligible) || !strictly_sorted(ignored) {
        Some(CertificationError::NonCanonicalTestInventory)
    } else if exists|k: int| 0 <= k < eligible.len() && ignored.contains(#[trigger] eligible[k]) {
        Some(CertificationError::ContradictoryTestEligibility)
    } else if s.test_inventory_digest@ != content_identity(inventory_document(eligible, ignored)) {
        Some(CertificationError::TestInventoryDigestMismatch)
    } else {
        None
    }
}

impl RustSuiteExecution {
    /// Validates canonical suite semantics and deterministic inventory ordering.
    pub fn validate(&self) -> (r: Result<(), CertificationError>)
        ensures
            match suite_error(*self) {
                Some(e) => r == Err::<(), CertificationError>(e),
                None => r is Ok,
            },
    {
        if self.executor.as_str().unicode_len() == 0 || self.executor_version.as_str().unicode_len() == 0
            || self.toolchain.as_str().unicode_len() == 0 {
            return Err(CertificationError::InvalidSuiteExecution);
        }
        if !is_strictly_sorted(&self.eligible_test_ids) || !is_strictly_sorted(&self.ignored_test_ids) {
            return Err(CertificationError::NonCanonicalTestInventory);
        }
        let ghost eligible = texts(self.eligible_test_ids@);
        let mut k: usize = 0;
        while k < self.eligible_test_ids.len()
            invariant
                eligible == texts(self.eligible_test_ids@),
                !(self.executor@.len() == 0 || self.executor_version@.len() == 0 || self.toolchain@.len() == 0),
                strictly_sorted(eligible),
                strictly_sorted(texts(self.ignored_test_ids@)),
                k <= eligible.len(),
                forall|t: int| 0 <= t < k ==> !texts(self.ignored_test_ids@).contains(#[trigger] eligible[t]),
            decreases self.eligible_test_ids.len() - k,
        {
            if texts_contain(&self.ignored_test_ids, self.eligible_test_ids[k].as_str()) {
                assert(eligible[k as int] == self.eligible_test_ids@[k as int]@);
                return Err(CertificationError::ContradictoryTestEligibility);
            }
            k = k + 1;
        }
        let digest = test_inventory_digest(self.eligible_test_ids.as_slice(), self.ignored_test_ids.as_slice());
        if !text_eq(self.test_inventory_digest.as_str(), digest.as_str()) {
            return Err(CertificationError::TestInventoryDigestMismatch);
        }
        Ok(())
    }
}

/// Snapshot-bound source and Rust test inventory prepared before execution.
#[derive(Debug)]
pub struct CertificationSourceIdentity {
    /// Recursion-free exact repository source digest.
    pub digest: String,
    /// Sorted enabled Rust Test IDs.
    pub eligible_test_ids: Vec<String>,
    /// Sorted ignored Rust Test IDs.
    pub ignored_test_ids: Vec<String>,
    /// Digest of the enabled/ignored inventory.
    pub test_inventory_digest: String,
}

/// Generated semantic projections excluded from certification source identity.
pub open spec fn generated_projections() -> Seq<Seq<char>> {
    seq![
        "info/behavioral_flow_graph.json"@,
        "info/certification.json"@,
        "info/component_resolution_index.json"@,
        "info/contract_coherency_graph.json"@,
        "info/environmental_analysis.json"@,
        "info/evidence_graph.json"@,
        "info/information_flow_analysis.json"@,
        "info/program_semantic_model.json"@,
        "info/quality_certificate.json"@,
        "info/realized_behavioral_flow_graph.json"@,
        "info/semantic_analysis.json"@,
        "info/state_effect_analysis.json"@,
        "info/verified_behavioral_flow_graph.json"@,
    ]
}

/// The one canonical registry of generated projections excluded from
/// certification source identity.
pub fn generated_certification_projections() -> (r: Vec<&'static str>)
    ensures
        r@.map_values(|s: &'static str| s@) == generated_projections(),
{
    let v = vec![
        "info/behavioral_flow_graph.json",
        "info/certification.json",
        "info/component_resolution_index.json",
        "info/contract_coherency_graph.json",
        "info/environmental_analysis.json",
        "info/evidence_graph.json",
        "info/information_flow_analysis.json",
        "info/program_semantic_model.json",
        "info/quality_certificate.json",
        "info/realized_behavioral_flow_graph.json",
        "info/semantic_analysis.json",
        "info/state_effect_analysis.json",
        "info/verified_behavioral_flow_graph.json",
    ];
    assert(v@.map_values(|s: &'static str| s@) =~= generated_projections());
    v
}

/// The eight big-endian bytes of a 64-bit value.
pub open spec fn be64(n: u64) -> Seq<u8> {
    seq![
        ((n / 0x100000000000000) % 256) as u8,
        ((n / 0x1000000000000) % 256) as u8,
        ((n / 0x10000000000) % 256) as u8,
        ((n / 0x100000000) % 256) as u8,
        ((n / 0x1000000) % 256) as u8,
        ((n / 0x10000) % 256) as u8,
        ((n / 0x100) % 256) as u8,
        (n % 256) as u8,
    ]
}

/// The hashed material of one file: its path's byte length, the path, its
/// content's byte length and the content.
pub open spec fn file_material(path: Seq<u8>, bytes: Seq<u8>) -> Seq<u8> {
    be64(path.len() as u64) + path + be64(bytes.len() as u64) + bytes
}

/// The hashed material of the first `k` files, generated projections left out.
pub open spec fn source_material(files: Seq<(Seq<char>, Seq<u8>)>, k: int) -> Seq<u8>
    decreases k,
{
    if k <= 0 {
        Seq::empty()
    } else {
        source_material(files, k - 1) + if generated_projections().contains(files[k - 1].0) {
            Seq::<u8>::empty()
        } else {
            file_material(vstd::utf8::encode_utf8(files[k - 1].0), files[k - 1].1)
        }
    }
}

/// The files as paths and contents.
pub open spec fn file_views(files: Seq<(String, Vec<u8>)>) -> Seq<(Seq<char>, Seq<u8>)> {
    files.map_values(|f: (String, Vec<u8>)| (f.0@, f.1@))
}

fn push_be64(out: &mut Vec<u8>, n: u64)
    ensures
        final(out)@ == old(out)@ + be64(n),
{
    out.push(((n / 0x100000000000000) % 256) as u8);
    out.push(((n / 0x1000000000000) % 256) as u8);
    out.push(((n / 0x10000000000) % 256) as u8);
    out.push(((n / 0x100000000) % 256) as u8);
    out.push(((n / 0x1000000) % 256) as u8);
    out.push(((n / 0x10000) % 256) as u8);
    out.push(((n / 0x100) % 256) as u8);
    out.push((n % 256) as u8);
    assert(final(out)@ =~= old(out)@ + be64(n));
}

fn push_bytes(out: &mut Vec<u8>, bytes: &[u8])
    ensures
        final(out)@ == old(out)@ + bytes@,
{
    let ghost start = out@;
    let mut i: usize = 0;
    while i < bytes.len()
        invariant
            i <= bytes@.len(),
            out@ == start + bytes@.take(i as int),
        decreases bytes.len() - i,
    {
        out.push(bytes[i]);
        assert(bytes@.take(i + 1) =~= bytes@.take(i as int).push(bytes@[i as int]));
        i = i + 1;
    }
    assert(bytes@.take(bytes@.len() as int) =~= bytes@);
}

/// Computes the canonical certification-source digest from observed bytes.
///
/// The files come in path order, each path once, as a map keyed by
/// canonical repository-relative path yields them; generated projections do
/// not contribute.
pub fn certification_source_digest(files: &[(String, Vec<u8>)]) -> (r: String)
    requires
        strictly_sorted(files@.map_values(|f: (String, Vec<u8>)| f.0@)),
    ensures
        r@ == crate::codec::sha256_identity_of(source_material(file_views(files@), files@.len() as int)),
{
    let excluded = generated_certification_projections();
    let mut material: Vec<u8> = Vec::new();
    let mut i: usize = 0;
    while i < files.len()
        invariant
            i <= files@.len(),
            excluded@.map_values(|s: &'static str| s@) == generated_projections(),
            material@ == source_material(file_views(files@), i as int),
        decreases files.len() - i,
    {
        let path = files[i].0.as_str();
        let mut skip = false;
        let mut e: usize = 0;
        while e < excluded.len()
            invariant
                e <= excluded@.len(),
                excluded@.map_values(|s: &'static str| s@) == generated_projections(),
                skip == exists|t: int| 0 <= t < e && excluded@[t]@ == path@,
            decreases excluded.len() - e,
        {
            if text_eq(excluded[e], path) {
                skip = true;
            }
            e = e + 1;
        }
        proof {
            let gp = generated_projections();
            assert(file_views(files@)[i as int] == (files@[i as int].0@, files@[i as int].1@));
            if skip {
                let t = choose|t: int| 0 <= t < excluded@.len() && excluded@[t]@ == path@;
                assert(gp[t] == path@);
            }
            if gp.contains(path@) {
                let t = choose|t: int| 0 <= t < gp.len() && gp[t] == path@;
                assert(excluded@[t]@ == gp[t]);
            }
        }
        if !skip {
            let path_bytes = path.as_bytes();
            push_be64(&mut material, path_bytes.len() as u64);
            push_bytes(&mut material, path_bytes);
            push_be64(&mut material, files[i].1.len() as u64);
            push_bytes(&mut material, files[i].1.as_slice());
        }
        i = i + 1;
    }
    sha256(material.as_slice())
}

} // verus!
