use fortress::certification::certify::compile_certification;
use fortress::certification::compile::mandatory_semantic_artifacts;
use fortress::certification::evidence::{EvidenceClass, EvidenceNode, EvidenceResult};
use fortress::certification::graph::{EvidenceGraph, ProfileIdentity, StandardIdentity};
use fortress::certification::profile::{
    certification_source_digest, test_inventory_digest, CertificationProfile, RustSuiteExecution,
};
use fortress::certification::verified_bfg::VerifiedBehavioralState;
use fortress::certification::{
    ArtifactEvidenceInput, BehavioralProjectionInput, BehavioralRealizationEvidenceInput, CertificationError,
    CertificationInput, CertificationStatus, GeneratedVerificationInput, GeneratedVerificationKind,
    RequirementEvidenceInput, RuleEvidenceInput, TrustedAssertionInput, VerificationBinding,
};
use fortress::json::Json;

fn input() -> CertificationInput {
    let source_digest = "sha256:subject".to_owned();
    let eligible_test_ids = vec!["T-AF-CERTIFICATION-0001-R01-001".to_owned()];
    CertificationInput {
        project_id: "PF-FORTRESS-0001".into(),
        source_digest: source_digest.clone(),
        standard: StandardIdentity { id: "STD-FORTRESS-0001".into(), edition: "2026.1-draft".into() },
        profile: CertificationProfile::full_snapshot(),
        artifacts: mandatory_semantic_artifacts()
            .iter()
            .map(|kind| ArtifactEvidenceInput {
                kind: (*kind).into(),
                digest: format!("sha256:{kind}"),
                schema: "v1".into(),
                current: true,
                input_refs: Vec::new(),
                evidence_class: match *kind {
                    "ccg" | "intended_bfg" => EvidenceClass::Authority,
                    "psm" => EvidenceClass::Observation,
                    _ => EvidenceClass::StaticProof,
                },
                unsupported: Vec::new(),
            })
            .collect(),
        applicable_rules: vec!["STD-ID-001".into()],
        rules: vec![RuleEvidenceInput {
            rule_id: "STD-ID-001".into(),
            result: EvidenceResult::Pass,
            current: true,
            finding_fingerprints: Vec::new(),
            input_refs: Vec::new(),
        }],
        requirements: vec![RequirementEvidenceInput {
            feature_id: "AF-CERTIFICATION-0001".into(),
            requirement_id: "AF-CERTIFICATION-0001-R01".into(),
            test_ids: eligible_test_ids.clone(),
        }],
        suite_execution: RustSuiteExecution {
            executor: "fortress-local-rust-executor".into(),
            executor_version: "1.0.0".into(),
            toolchain: "1.97.1".into(),
            certification_source_digest: source_digest,
            test_inventory_digest: test_inventory_digest(&eligible_test_ids, &[]),
            canonical_unfiltered: true,
            passed: true,
            eligible_test_ids,
            ignored_test_ids: Vec::new(),
        },
        behavioral_realizations: Vec::new(),
        generated_verification: Vec::new(),
        verification_bindings: Vec::new(),
        trusted_assertions: Vec::new(),
        behavioral_projection: Vec::new(),
    }
}

fn status_of(value: &CertificationInput) -> CertificationStatus {
    compile_certification(value).unwrap().certification.status()
}

fn node(kind: &str, subject: &str, result: EvidenceResult, inputs: Vec<String>, class: EvidenceClass) -> EvidenceNode {
    EvidenceNode::new(
        kind.into(),
        subject.into(),
        result,
        inputs,
        "producer".into(),
        "1".into(),
        class,
        Json::Object(Vec::new()),
    )
    .unwrap()
}

fn standard() -> StandardIdentity {
    StandardIdentity { id: "STD-FORTRESS-0001".into(), edition: "1".into() }
}

fn profile() -> ProfileIdentity {
    ProfileIdentity { id: "CERT-FULL-SNAPSHOT-V1".into(), version: 1 }
}

#[test]
fn content_addressed_dag_is_deterministic_and_valid() {
    let first = compile_certification(&input()).expect("compile");
    let second = compile_certification(&input()).expect("compile");
    assert_eq!(first.evidence_graph.nodes().len(), second.evidence_graph.nodes().len());
    assert_eq!(first.certification.certification_digest(), second.certification.certification_digest());
    assert_eq!(first.evidence_graph.to_json_pretty(), second.evidence_graph.to_json_pretty());
    assert_eq!(first.certification.status(), CertificationStatus::Pass);
    first.evidence_graph.validate().expect("valid graph");
}

#[test]
fn node_identity_excludes_its_own_id() {
    let a = node("proof", "subject", EvidenceResult::Pass, Vec::new(), EvidenceClass::StaticProof);
    let b = node("proof", "subject", EvidenceResult::Pass, Vec::new(), EvidenceClass::StaticProof);
    assert_eq!(a.id(), b.id());
    assert!(a.id().starts_with("sha256:"));
}

#[test]
fn affected_closure_preserves_independent_evidence() {
    let products = compile_certification(&input()).unwrap();
    let source = products
        .evidence_graph
        .nodes()
        .iter()
        .find(|node| node.kind() == "certification_source_snapshot")
        .unwrap();
    let affected = products.evidence_graph.affected(&vec![source.id().to_owned()]);
    assert!(affected.iter().any(|id| id == products.certification.certification_digest()));
    assert!(affected.len() > 1);

    let changed = node("authority", "changed", EvidenceResult::Observed, Vec::new(), EvidenceClass::Authority);
    let independent =
        node("observation", "independent", EvidenceResult::Observed, Vec::new(), EvidenceClass::Observation);
    let dependent =
        node("proof", "dependent", EvidenceResult::Pass, vec![changed.id().into()], EvidenceClass::StaticProof);
    let changed_id = changed.id().to_owned();
    let independent_id = independent.id().to_owned();
    let dependent_id = dependent.id().to_owned();
    let graph = EvidenceGraph::new(
        "sha256:subject".into(),
        standard(),
        profile(),
        vec![changed, independent, dependent],
        vec![dependent_id.clone(), independent_id.clone()],
        Vec::new(),
    )
    .unwrap();
    let affected = graph.affected(&vec![changed_id]);
    assert!(affected.contains(&dependent_id));
    assert!(!affected.contains(&independent_id));
}

#[test]
fn certification_status_precedence_is_canonical() {
    assert_eq!(
        CertificationStatus::aggregate(&[CertificationStatus::Pass, CertificationStatus::Missing]),
        CertificationStatus::Missing
    );
    assert_eq!(
        CertificationStatus::aggregate(&[CertificationStatus::Stale, CertificationStatus::Fail]),
        CertificationStatus::Fail
    );
    assert_eq!(
        CertificationStatus::aggregate(&[CertificationStatus::Fail, CertificationStatus::Invalid]),
        CertificationStatus::Invalid
    );
    assert_eq!(CertificationStatus::aggregate(&[]), CertificationStatus::Pass);
}

#[test]
fn unsupported_rule_is_missing_not_pass() {
    let mut value = input();
    value.rules[0].result = EvidenceResult::Unsupported;
    assert_eq!(status_of(&value), CertificationStatus::Missing);
    let mut stale = input();
    stale.rules[0].current = false;
    assert_eq!(status_of(&stale), CertificationStatus::Stale);
    let mut absent = input();
    absent.rules.clear();
    assert_eq!(status_of(&absent), CertificationStatus::Missing);
    let mut stale_artifact = input();
    stale_artifact.artifacts[0].current = false;
    assert_eq!(status_of(&stale_artifact), CertificationStatus::Stale);
    let mut missing_artifact = input();
    missing_artifact.artifacts.remove(0);
    assert_eq!(status_of(&missing_artifact), CertificationStatus::Missing);
}

#[test]
fn failed_rule_precedes_missing_evidence() {
    let mut value = input();
    value.rules[0].result = EvidenceResult::Fail;
    value.requirements[0].test_ids.push("T-AF-MISSING-0001-R01-001".into());
    assert_eq!(status_of(&value), CertificationStatus::Fail);
}

#[test]
fn filtered_or_ignored_test_cannot_verify_requirement() {
    assert_eq!(status_of(&input()), CertificationStatus::Pass);
    let mut filtered = input();
    filtered.suite_execution.canonical_unfiltered = false;
    assert_eq!(status_of(&filtered), CertificationStatus::Missing);
    let mut ignored = input();
    let id = ignored.suite_execution.eligible_test_ids.remove(0);
    ignored.suite_execution.ignored_test_ids.push(id);
    ignored.suite_execution.test_inventory_digest = test_inventory_digest(
        &ignored.suite_execution.eligible_test_ids,
        &ignored.suite_execution.ignored_test_ids,
    );
    assert_eq!(status_of(&ignored), CertificationStatus::Missing);
    let mut failed = input();
    failed.suite_execution.passed = false;
    assert_eq!(status_of(&failed), CertificationStatus::Fail);
    let mut missing = input();
    missing.requirements[0].test_ids.push("T-AF-CERTIFICATION-0001-R01-999".into());
    assert_eq!(status_of(&missing), CertificationStatus::Missing);
    let mut stale = input();
    stale.suite_execution.certification_source_digest = "sha256:prior-subject".into();
    assert_eq!(status_of(&stale), CertificationStatus::Stale);
    let mut corrupted_inventory = input();
    corrupted_inventory.suite_execution.test_inventory_digest = "sha256:forged".into();
    let error = compile_certification(&corrupted_inventory).unwrap_err();
    assert_eq!(error, CertificationError::TestInventoryDigestMismatch);
    assert!(error.message().contains("inventory digest"));
}

#[test]
fn verification_binding_requires_responsible_testing_module() {
    let mut value = input();
    value.generated_verification.push(GeneratedVerificationInput {
        id: "VERIFY-ONE".into(),
        testing_module: "AF-ROOT-TESTING-0001".into(),
        kind: GeneratedVerificationKind::Behavioral,
        targets: vec!["CHK-ONE".into()],
    });
    value.verification_bindings.push(VerificationBinding {
        testing_module: "AF-FOREIGN-TESTING-0001".into(),
        obligation: "VERIFY-ONE".into(),
        tests: vec!["T-AF-CERTIFICATION-0001-R01-001".into()],
    });
    assert!(compile_certification(&value).unwrap_err().message().contains("expected `AF-ROOT-TESTING-0001`"));
    let mut stale = input();
    stale.verification_bindings.push(VerificationBinding {
        testing_module: "AF-ROOT-TESTING-0001".into(),
        obligation: "VERIFY-STALE".into(),
        tests: vec!["T-AF-CERTIFICATION-0001-R01-001".into()],
    });
    assert!(compile_certification(&stale).unwrap_err().message().contains("absent obligation"));
}

#[test]
fn trusted_assertion_remains_distinct_from_static_proof() {
    let mut value = input();
    value.trusted_assertions.push(TrustedAssertionInput {
        subject: "ASSERT-ATOMIC".into(),
        kind: "external_atomicity".into(),
        provenance: "mods/x/data/environment_contracts.json#/operations/0".into(),
    });
    let products = compile_certification(&value).unwrap();
    let assertion =
        products.evidence_graph.nodes().iter().find(|node| node.subject() == "ASSERT-ATOMIC").unwrap();
    assert_eq!(assertion.evidence_class(), EvidenceClass::TrustedAssertion);
    assert_ne!(assertion.evidence_class(), EvidenceClass::StaticProof);
    assert_eq!(products.certification.trusted_assertion_dependencies(), &["ASSERT-ATOMIC".to_owned()]);
    assert_eq!(products.certification.summary().trusted_assertions, 1);
}

#[test]
fn generated_outputs_do_not_change_certification_source() {
    let mut files = std::collections::BTreeMap::from([("code/lib.rs".to_owned(), b"fn x() {}".to_vec())]);
    let digest = |files: &std::collections::BTreeMap<String, Vec<u8>>| {
        let list: Vec<(String, Vec<u8>)> = files.iter().map(|(p, b)| (p.clone(), b.clone())).collect();
        certification_source_digest(&list)
    };
    let first = digest(&files);
    files.insert("info/certification.json".into(), b"old".to_vec());
    assert_eq!(first, digest(&files));
    files.insert("info/evidence_graph.json".into(), b"changed".to_vec());
    files.insert("info/verified_behavioral_flow_graph.json".into(), b"changed".to_vec());
    assert_eq!(first, digest(&files));
    files.insert("code/lib.rs".into(), b"fn y() {}".to_vec());
    assert_ne!(first, digest(&files));
}

#[test]
fn verified_bfg_preserves_intended_realized_and_executed_dimensions() {
    let mut value = input();
    value.behavioral_realizations.push(BehavioralRealizationEvidenceInput {
        feature: "AF-FLOW-0001".into(),
        coherent: true,
        evidence_ref: String::new(),
    });
    value.generated_verification.push(GeneratedVerificationInput {
        id: "VERIFY-CHK".into(),
        testing_module: "AF-TESTING-0001".into(),
        kind: GeneratedVerificationKind::Behavioral,
        targets: vec!["CHK-ONE".into()],
    });
    value.verification_bindings.push(VerificationBinding {
        testing_module: "AF-TESTING-0001".into(),
        obligation: "VERIFY-CHK".into(),
        tests: vec!["T-AF-CERTIFICATION-0001-R01-001".into()],
    });
    value.behavioral_projection.push(BehavioralProjectionInput {
        feature: "AF-FLOW-0001".into(),
        checkpoints: vec!["CHK-ONE".into()],
        intended_edges: Vec::new(),
        realized_checkpoints: vec!["CHK-ONE".into()],
        realized_edges: Vec::new(),
        contradicted: false,
    });
    let products = compile_certification(&value).unwrap();
    let checkpoint = &products.verified_bfg.features()[0].checkpoints[0];
    assert!(checkpoint.intended && checkpoint.realized);
    assert_eq!(checkpoint.verification, VerifiedBehavioralState::VerifiedStaticAndExecuted);
    assert_eq!(
        products
            .evidence_graph
            .nodes()
            .iter()
            .filter(|node| node.evidence_class() == EvidenceClass::ExecutedScenario)
            .count(),
        1
    );
    assert_eq!(products.verified_bfg.summary(), &[("VERIFIED_STATIC_AND_EXECUTED".to_owned(), 1)]);

    let mut stale = value;
    stale.suite_execution.certification_source_digest = "sha256:prior-subject".into();
    let stale_products = compile_certification(&stale).unwrap();
    assert_eq!(
        stale_products.verified_bfg.features()[0].checkpoints[0].verification,
        VerifiedBehavioralState::StaleEvidence
    );
}

#[test]
fn graph_constructor_rejects_missing_refs() {
    let missing = node(
        "proof",
        "subject",
        EvidenceResult::Pass,
        vec!["sha256:missing".into()],
        EvidenceClass::StaticProof,
    );
    let graph = EvidenceGraph::new("sha256:subject".into(), standard(), profile(), vec![missing], Vec::new(), Vec::new());
    assert!(graph.unwrap_err().message().contains("missing input"));

    let products = compile_certification(&input()).unwrap();
    let stored = &products.evidence_graph;
    let rebuild = |nodes: Vec<EvidenceNode>| {
        EvidenceGraph::from_parts(
            stored.schema().to_string(),
            stored.schema_version(),
            stored.subject().to_string(),
            stored.standard().duplicate(),
            stored.profile().duplicate(),
            nodes,
            stored.root_obligations().to_vec(),
            stored.coverage(),
            stored.provenance().to_vec(),
        )
    };
    let with = |index: usize, subject: Option<&str>, inputs: Option<Vec<String>>| {
        let n = &stored.nodes()[index];
        EvidenceNode::from_parts(
            n.id().to_string(),
            n.kind().to_string(),
            subject.unwrap_or(n.subject()).to_string(),
            n.result(),
            inputs.unwrap_or_else(|| n.inputs().to_vec()),
            n.producer().to_string(),
            n.producer_semantic_version().to_string(),
            n.evidence_class(),
            fortress::certification::evidence::duplicate_json(n.payload()),
        )
    };
    let all = || (0..stored.nodes().len()).map(|i| with(i, None, None)).collect::<Vec<EvidenceNode>>();
    let mut corrupted = all();
    corrupted[0] = with(0, Some("corrupted"), None);
    assert!(rebuild(corrupted).validate().unwrap_err().message().contains("digest does not match"));

    let first = stored.nodes()[0].id().to_string();
    let second = stored.nodes()[1].id().to_string();
    let mut cyclic = all();
    cyclic[0] = with(0, None, Some(vec![second]));
    cyclic[1] = with(1, None, Some(vec![first]));
    assert!(rebuild(cyclic).validate().unwrap_err().message().contains("cycle"));

    let one = EvidenceNode::new(
        "proof".into(),
        "same-subject".into(),
        EvidenceResult::Pass,
        Vec::new(),
        "producer".into(),
        "1".into(),
        EvidenceClass::StaticProof,
        Json::Object(vec![("variant".into(), Json::Number(1))]),
    )
    .unwrap();
    let two = EvidenceNode::new(
        "proof".into(),
        "same-subject".into(),
        EvidenceResult::Fail,
        Vec::new(),
        "producer".into(),
        "1".into(),
        EvidenceClass::StaticProof,
        Json::Object(vec![("variant".into(), Json::Number(2))]),
    )
    .unwrap();
    let conflict = EvidenceGraph::new("sha256:subject".into(), standard(), profile(), vec![one, two], Vec::new(), Vec::new());
    assert!(conflict.unwrap_err().message().contains("conflicting evidence nodes"));
}

#[test]
fn duplicate_rule_evidence_names_the_least_repeated_rule() {
    let mut value = input();
    value.applicable_rules = vec!["STD-ID-001".into(), "STD-ID-002".into()];
    value.rules.push(RuleEvidenceInput {
        rule_id: "STD-ID-001".into(),
        result: EvidenceResult::Pass,
        current: true,
        finding_fingerprints: Vec::new(),
        input_refs: Vec::new(),
    });
    assert_eq!(
        compile_certification(&value).unwrap_err(),
        CertificationError::DuplicateRuleEvidence("STD-ID-001".into())
    );
    let mut unexpected = input();
    unexpected.rules[0].rule_id = "STD-ID-999".into();
    assert_eq!(
        compile_certification(&unexpected).unwrap_err(),
        CertificationError::UnexpectedRuleEvidence("STD-ID-999".into())
    );
}

#[test]
fn certification_result_counts_obligations_by_status() {
    let products = compile_certification(&input()).unwrap();
    let summary = products.certification.summary();
    assert_eq!(summary.obligations, products.certification.obligations().len());
    assert_eq!(summary.pass, summary.obligations);
    assert_eq!(summary.fail + summary.missing + summary.stale + summary.invalid, 0);
    let json = products.certification.to_json_pretty();
    assert!(json.ends_with("\n"));
    assert!(json.contains("\"$schema\": \"urn:fortress:schema:v1:certification-result\""));
}
