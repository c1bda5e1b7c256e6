use fortress::architecture::realization::{
    reconcile_implementation, DirectRequirement, Observation, ObservationIssue, ObservationIssueKind,
    ObservedDependency, ObservedImplementation, ReconciliationState, TargetClassification,
};

const EDITION: &str = "1.0.0-draft.1";

fn declared_chain() -> Vec<DirectRequirement> {
    vec![
        DirectRequirement::new("AF-A-0001".into(), "AF-B-0001".into(), "CAP-B".into()),
        DirectRequirement::new("AF-B-0001".into(), "AF-C-0001".into(), "CAP-C".into()),
    ]
}

fn provenance(source: &str, reference: &str) -> String {
    format!("mods/{}/code/source.rs:4:5 {reference}", source.to_ascii_lowercase())
}

fn dependency(source: &str, target: &str, reference: &str, path: Option<&[&str]>) -> ObservedDependency {
    ObservedDependency::new(
        source.into(),
        target.into(),
        vec![provenance(source, reference)],
        path.map(|p| p.iter().map(|m| m.to_string()).collect()),
    )
}

fn governed(source: &str, reference: &str) -> Observation {
    Observation::new(
        source.into(),
        TargetClassification::GovernedModule,
        None,
        "code/source.rs".into(),
        provenance(source, reference),
    )
}

#[test]
fn reconciliation_distinguishes_every_supported_state_without_circular_observation() {
    let observed = ObservedImplementation::new(
        vec![
            dependency("AF-A-0001", "AF-B-0001", "crate::b::Surface", Some(&["AF-A-0001", "AF-B-0001"])),
            dependency(
                "AF-A-0001",
                "AF-C-0001",
                "crate::c::Surface",
                Some(&["AF-A-0001", "AF-B-0001", "AF-C-0001"]),
            ),
            dependency("AF-C-0001", "AF-A-0001", "crate::a::Surface", None),
        ],
        vec![
            governed("AF-A-0001", "crate::b::Surface"),
            governed("AF-A-0001", "crate::c::Surface"),
            governed("AF-C-0001", "crate::a::Surface"),
            Observation::new(
                "AF-A-0001".into(),
                TargetClassification::ExternalDependency,
                Some("serde".into()),
                "code/source.rs".into(),
                provenance("AF-A-0001", "serde::Serialize"),
            ),
            Observation::new(
                "AF-A-0001".into(),
                TargetClassification::Unresolved,
                None,
                "code/source.rs".into(),
                provenance("AF-A-0001", "mystery::Surface"),
            ),
        ],
        Vec::new(),
    );
    let result = reconcile_implementation(&declared_chain(), &observed);
    let summary = result.summary();
    assert_eq!(summary.declared_direct(), 2);
    assert_eq!(summary.observed_governed(), 3);
    assert_eq!(summary.declared_and_observed(), 1);
    assert_eq!(summary.observed_transitive_bypass(), 1);
    assert_eq!(summary.observed_undeclared(), 1);
    assert_eq!(summary.declared_unobserved(), 1);
    assert_eq!(summary.external(), 1);
    assert_eq!(summary.unresolved(), 1);
    assert_eq!(result.findings(EDITION).len(), 2);
    assert!(result
        .unsupported_semantics()
        .contains(&"capability_to_source_realization".to_owned()));
}

#[test]
fn transitive_reachability_never_authorizes_direct_source_access() {
    let observed = ObservedImplementation::new(
        vec![dependency(
            "AF-A-0001",
            "AF-C-0001",
            "crate::c::Surface",
            Some(&["AF-A-0001", "AF-B-0001", "AF-C-0001"]),
        )],
        vec![governed("AF-A-0001", "crate::c::Surface")],
        Vec::new(),
    );
    let result = reconcile_implementation(&declared_chain(), &observed);
    let bypass = result
        .records()
        .iter()
        .find(|record| record.state() == ReconciliationState::ObservedTransitiveBypass)
        .expect("bypass recorded");
    assert_eq!(bypass.declared_path(), ["AF-A-0001", "AF-B-0001", "AF-C-0001"]);
    assert!(result.findings(EDITION)[0]
        .message()
        .contains("transitive reachability is not direct authorization"));
}

#[test]
fn declared_unobserved_is_explicit_without_becoming_a_hard_failure() {
    let observed = ObservedImplementation::new(Vec::new(), Vec::new(), Vec::new());
    let first = reconcile_implementation(&declared_chain(), &observed);
    let second = reconcile_implementation(&declared_chain(), &observed);
    assert_eq!(first, second);
    assert_eq!(first.summary().declared_unobserved(), 2);
    assert!(first.records().iter().all(|r| r.state() == ReconciliationState::DeclaredUnobserved));
    assert!(first.findings(EDITION).is_empty());
}

#[test]
fn invalid_observation_is_a_hard_finding_while_unsupported_coverage_is_explicit() {
    let observed = ObservedImplementation::new(
        Vec::new(),
        Vec::new(),
        vec![
            ObservationIssue::new(
                ObservationIssueKind::Invalid,
                "code/invalid.rs".into(),
                "source has no physical Module owner".into(),
            ),
            ObservationIssue::new(
                ObservationIssueKind::Unsupported,
                "code/macro.rs".into(),
                "macro-generated dependency semantics are unsupported".into(),
            ),
        ],
    );
    let result = reconcile_implementation(&declared_chain(), &observed);
    assert_eq!(result.summary().invalid(), 1);
    assert_eq!(result.summary().unsupported(), 1);
    assert_eq!(result.findings(EDITION).len(), 1);
    assert!(result.findings(EDITION)[0].message().contains("invalid"));
}

#[test]
fn declared_capabilities_are_canonical_for_a_module_pair() {
    let requirements = vec![
        DirectRequirement::new("AF-A-0001".into(), "AF-B-0001".into(), "CAP-Z".into()),
        DirectRequirement::new("AF-A-0001".into(), "AF-B-0001".into(), "CAP-A".into()),
        DirectRequirement::new("AF-A-0001".into(), "AF-B-0001".into(), "CAP-A".into()),
    ];
    let observed = ObservedImplementation::new(Vec::new(), Vec::new(), Vec::new());
    let result = reconcile_implementation(&requirements, &observed);
    assert_eq!(result.records().len(), 1);
    assert_eq!(result.records()[0].declared_capabilities(), ["CAP-A", "CAP-Z"]);
    assert_eq!(result.summary().declared_direct(), 1);
}
