use fortress::architecture::realization::{reconcile_implementation, ArchitectureRealization, ObservedImplementation};
use fortress::architecture::semantic_conformance::{
    compute_semantic_source_coverage, evaluate_semantic_conformance, AuthorizationState,
    BlockingEligibility, EffectEvidence, EffectEvidenceKind, EffectSummary, EvidenceSite,
    GovernedModule, ModuleSemanticPolicy, PolicyDisposition, SemanticConformanceEvaluation,
    SemanticConformanceState, SemanticPolicySet, SemanticSymbol, SourceOwnership,
    SourceOwnershipAuthority, UpstreamDigests, NO_SEMANTIC_COVERAGE,
};

const MODULE: &str = "AF-A-0001";
const PATH: &str = "mods/a/code/a.rs";

fn strings(items: &[&str]) -> Vec<String> {
    items.iter().map(|s| s.to_string()).collect()
}

fn policy(allow: &[&str], deny: &[&str]) -> ModuleSemanticPolicy {
    ModuleSemanticPolicy::new(
        SemanticPolicySet::new(Vec::new(), Vec::new()),
        SemanticPolicySet::new(strings(allow), strings(deny)),
    )
}

fn evidence(effect: &str) -> EffectEvidence {
    EffectEvidence::new(
        effect.to_string(),
        None,
        EffectEvidenceKind::Direct,
        "sym:a".to_string(),
        "sym:a".to_string(),
        "std::fs::write".to_string(),
        "builtin".to_string(),
        EvidenceSite { path: PATH.to_string(), line: 3, column: 5 },
        Vec::new(),
    )
}

fn empty_realization() -> ArchitectureRealization {
    reconcile_implementation(&[], &ObservedImplementation::new(Vec::new(), Vec::new(), Vec::new()))
}

fn evaluate(
    module_policy: Option<ModuleSemanticPolicy>,
    owned: bool,
    analysed: bool,
    summaries: Vec<EffectSummary>,
) -> SemanticConformanceEvaluation {
    let modules = vec![GovernedModule::new(
        MODULE.to_string(),
        "mods/a/contract.json".to_string(),
        module_policy,
    )];
    let symbols = if analysed {
        vec![SemanticSymbol::new("sym:a".to_string(), MODULE.to_string(), PATH.to_string())]
    } else {
        Vec::new()
    };
    let ownerships = if owned {
        vec![SourceOwnership::new(MODULE.to_string(), PATH.to_string(), SourceOwnershipAuthority::DeclaredModule)]
    } else {
        Vec::new()
    };
    evaluate_semantic_conformance(
        &modules,
        &symbols,
        &summaries,
        &empty_realization(),
        &ownerships,
        Some("PF-FIXTURE".to_string()),
        "1.0.0-draft.1",
        &UpstreamDigests::new("sha256:c".to_string(), "sha256:p".to_string(), "sha256:s".to_string()),
    )
}

#[test]
fn exercised_deny_claim_fails_with_one_finding() {
    let evaluation = evaluate(
        Some(policy(&["process.spawn"], &["filesystem.write"])),
        true,
        true,
        vec![EffectSummary::new("sym:a".to_string(), Vec::new(), vec![evidence("filesystem.write")])],
    );
    let module = &evaluation.model().modules()[0];
    assert_eq!(module.state(), SemanticConformanceState::Fail);
    assert_eq!(module.policy_state(), "DECLARED");
    let deny = module
        .conclusions()
        .iter()
        .find(|c| c.disposition() == PolicyDisposition::Deny)
        .expect("deny claim");
    assert_eq!(deny.target(), "filesystem.write");
    assert_eq!(deny.conformance(), Some(SemanticConformanceState::Fail));
    assert_eq!(deny.blocking_eligibility(), Some(BlockingEligibility::BlockSupported));
    assert_eq!(deny.matching_observation_count(), 1);
    let allow = module
        .conclusions()
        .iter()
        .find(|c| c.disposition() == PolicyDisposition::Allow)
        .expect("allow entry");
    assert_eq!(allow.authorization(), Some(AuthorizationState::Authorised));
    assert_eq!(allow.conformance(), None);
    assert_eq!(module.coverage().ratio(), Some("1/1"));
    assert_eq!(evaluation.findings().len(), 1);
    assert!(!evaluation.is_success());
}

#[test]
fn allow_entries_are_never_conformance_claims() {
    let evaluation = evaluate(
        Some(policy(&["filesystem.write"], &[])),
        true,
        true,
        vec![EffectSummary::new("sym:a".to_string(), Vec::new(), vec![evidence("filesystem.write")])],
    );
    let module = &evaluation.model().modules()[0];
    assert_eq!(module.state(), SemanticConformanceState::NotApplicable);
    assert!(evaluation.findings().is_empty());
    assert!(evaluation.is_success());
    assert!(evaluation.is_applicable());
}

#[test]
fn unexercised_deny_with_full_coverage_passes() {
    let evaluation = evaluate(
        Some(policy(&[], &["filesystem.write"])),
        true,
        true,
        vec![EffectSummary::new("sym:a".to_string(), Vec::new(), Vec::new())],
    );
    let module = &evaluation.model().modules()[0];
    assert_eq!(module.state(), SemanticConformanceState::Pass);
    assert!(evaluation.is_success());
    assert!(evaluation.is_applicable());
}

#[test]
fn opaque_semantics_make_the_claim_unknown() {
    let evaluation = evaluate(
        Some(policy(&[], &["filesystem.write"])),
        true,
        true,
        vec![EffectSummary::new("sym:a".to_string(), strings(&["opaque_call:mystery"]), Vec::new())],
    );
    let module = &evaluation.model().modules()[0];
    assert_eq!(module.state(), SemanticConformanceState::Unknown);
    let deny = &module.conclusions()[0];
    assert_eq!(deny.blocking_eligibility(), Some(BlockingEligibility::NotEvaluable));
    assert_eq!(deny.coverage_reasons(), ["opaque_call:mystery"]);
    assert_eq!(evaluation.coverage_findings().len(), 1);
    assert_eq!(evaluation.model().summary().not_evaluable_findings(), evaluation.coverage_findings().len());
    assert!(!evaluation.is_success());
}

#[test]
fn unanalysed_module_has_no_semantic_coverage() {
    let evaluation = evaluate(Some(policy(&[], &["filesystem.write"])), true, false, Vec::new());
    let module = &evaluation.model().modules()[0];
    assert_eq!(module.state(), SemanticConformanceState::Unknown);
    assert_eq!(module.coverage().ratio(), Some("0/1"));
    assert_eq!(module.conclusions()[0].coverage_reasons(), [NO_SEMANTIC_COVERAGE]);
    assert!(!evaluation.is_success());
}

#[test]
fn module_without_governed_sources_is_not_applicable() {
    let evaluation = evaluate(Some(policy(&[], &["filesystem.write"])), false, false, Vec::new());
    let module = &evaluation.model().modules()[0];
    assert_eq!(module.state(), SemanticConformanceState::NotApplicable);
    assert_eq!(module.coverage().ratio(), None);
    assert!(evaluation.is_success());
}

#[test]
fn undeclared_policy_counts_observations_as_ungoverned() {
    let evaluation = evaluate(
        None,
        true,
        true,
        vec![EffectSummary::new("sym:a".to_string(), Vec::new(), vec![evidence("filesystem.write")])],
    );
    let module = &evaluation.model().modules()[0];
    assert_eq!(module.policy_state(), "UNDECLARED");
    assert_eq!(module.ungoverned_observations(), 1);
    assert!(evaluation.is_success());
}

#[test]
fn source_coverage_counts_analysed_files_per_module() {
    let ownerships = vec![
        SourceOwnership::new(MODULE.to_string(), "mods/a/code/a.rs".to_string(), SourceOwnershipAuthority::DeclaredModule),
        SourceOwnership::new(MODULE.to_string(), "mods/a/code/b.rs".to_string(), SourceOwnershipAuthority::DeclaredModule),
    ];
    let symbols = vec![SemanticSymbol::new("sym:a".to_string(), MODULE.to_string(), "mods/a/code/a.rs".to_string())];
    let coverage = compute_semantic_source_coverage(&ownerships, &symbols);
    assert_eq!(coverage.len(), 1);
    assert_eq!(coverage[0].module(), MODULE);
    assert_eq!(coverage[0].coverage().governed_source_files(), 2);
    assert_eq!(coverage[0].coverage().analysed_source_files(), 1);
    assert_eq!(coverage[0].coverage().ratio(), Some("1/2"));
}

#[test]
fn summary_accounts_for_every_deny_claim_and_blocking_finding() {
    let evaluation = evaluate(
        Some(policy(&["process.spawn"], &["filesystem.write", "network.connect"])),
        true,
        true,
        vec![EffectSummary::new("sym:a".to_string(), Vec::new(), vec![evidence("filesystem.write")])],
    );
    let s = evaluation.model().summary();
    assert_eq!(evaluation.model().modules().len(), 1);
    assert_eq!(s.evaluative_deny_claims(), 2);
    assert_eq!(
        s.deny_claims_passed() + s.deny_claims_failed() + s.deny_claims_unknown() + s.deny_claims_not_applicable(),
        s.evaluative_deny_claims()
    );
    assert_eq!(s.blocking_findings(), evaluation.findings().len());
}
