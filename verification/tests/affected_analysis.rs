use fortress::affected::cache::{ProjectionCacheKey, ProjectionDependency, ProjectionKind};
use fortress::affected::{
    analyze_affected, AffectedAnalysis, AffectedInput, AffectedSnapshot, AffectedUnit,
    AffectedUnitKind, InputChangeKind,
};
use fortress::codec::sha256;
use std::time::{Duration, Instant};

fn digest(value: &str) -> String {
    sha256(value.as_bytes())
}

fn input(path: &str, value: &str) -> AffectedInput {
    AffectedInput::new(path.to_string(), digest(value), value.len() as u64).expect("valid input")
}

fn unit(id: &str, kind: AffectedUnitKind, value: &str, dependencies: &[&str]) -> AffectedUnit {
    AffectedUnit::new(
        id.to_string(),
        kind,
        digest(value),
        dependencies.iter().map(|d| d.to_string()).collect(),
    )
    .expect("valid unit")
}

fn snapshot(marker: &str, inputs: Vec<AffectedInput>, units: Vec<AffectedUnit>) -> AffectedSnapshot {
    AffectedSnapshot::new(digest(marker), inputs, units).expect("valid snapshot")
}

fn has_affected(analysis: &AffectedAnalysis, id: &str) -> bool {
    analysis.affected().iter().any(|unit| unit.id() == id)
}

#[test]
fn independent_module_change_preserves_unrelated_reuse() {
    let previous = snapshot(
        "before",
        vec![input("a/code/a.rs", "a0"), input("b/code/b.rs", "b0")],
        vec![
            unit("authority:a", AffectedUnitKind::AuthorityInput, "a0", &[]),
            unit("authority:b", AffectedUnitKind::AuthorityInput, "b0", &[]),
            unit("source:a", AffectedUnitKind::SourceArtifact, "a", &["authority:a"]),
            unit("source:b", AffectedUnitKind::SourceArtifact, "b", &["authority:b"]),
            unit("module:A", AffectedUnitKind::Module, "A", &["source:a"]),
            unit("module:B", AffectedUnitKind::Module, "B", &["source:b"]),
        ],
    );
    let current = snapshot(
        "after",
        vec![input("a/code/a.rs", "a1"), input("b/code/b.rs", "b0")],
        vec![
            unit("authority:a", AffectedUnitKind::AuthorityInput, "a1", &[]),
            unit("authority:b", AffectedUnitKind::AuthorityInput, "b0", &[]),
            unit("source:a", AffectedUnitKind::SourceArtifact, "a", &["authority:a"]),
            unit("source:b", AffectedUnitKind::SourceArtifact, "b", &["authority:b"]),
            unit("module:A", AffectedUnitKind::Module, "A", &["source:a"]),
            unit("module:B", AffectedUnitKind::Module, "B", &["source:b"]),
        ],
    );
    let analysis = analyze_affected(&previous, &current);
    assert_eq!(analysis.input_changes()[0].kind(), InputChangeKind::Modified);
    assert!(has_affected(&analysis, "module:A"));
    assert!(!has_affected(&analysis, "module:B"));
    assert!(analysis.reusable().iter().any(|id| id == "module:B"));
}

#[test]
fn unique_content_relocation_is_classified_without_machine_root() {
    let previous = snapshot(
        "before",
        vec![input("code/old.rs", "same")],
        vec![unit("authority:source", AffectedUnitKind::AuthorityInput, "same", &[])],
    );
    let current = snapshot(
        "after",
        vec![input("code/new.rs", "same")],
        vec![unit("authority:source", AffectedUnitKind::AuthorityInput, "same", &[])],
    );
    let first = analyze_affected(&previous, &current);
    let second = analyze_affected(&previous, &current);
    assert_eq!(first, second);
    assert_eq!(first.input_changes()[0].kind(), InputChangeKind::Relocated);
    assert!(!first.to_human().contains("C:\\"));
}

#[test]
fn standard_change_invalidates_dependent_obligations_conservatively() {
    let make = |standard: &str| {
        snapshot(
            standard,
            vec![input("standard/rule.json", standard)],
            vec![
                unit("authority:standard", AffectedUnitKind::AuthorityInput, standard, &[]),
                unit("claim:A", AffectedUnitKind::ConformanceClaim, "claim", &["authority:standard"]),
                unit("evidence:A", AffectedUnitKind::Evidence, "evidence", &["claim:A"]),
                unit("cert:A", AffectedUnitKind::CertificationObligation, "cert", &["evidence:A"]),
            ],
        )
    };
    let analysis = analyze_affected(&make("v1"), &make("v2"));
    assert!(has_affected(&analysis, "claim:A"));
    assert!(has_affected(&analysis, "cert:A"));
}

#[test]
fn transitive_effect_change_invalidates_callers_not_independent_module() {
    let make = |operation: &str| {
        snapshot(
            operation,
            vec![input("b/code/io.rs", operation)],
            vec![
                unit("authority:b", AffectedUnitKind::AuthorityInput, operation, &[]),
                unit("effect:B", AffectedUnitKind::Effect, operation, &["authority:b"]),
                unit("call:A-B", AffectedUnitKind::CallRelationship, "A-B", &["effect:B"]),
                unit("effect:A", AffectedUnitKind::Effect, "A", &["call:A-B"]),
                unit("claim:A", AffectedUnitKind::ConformanceClaim, "A-policy", &["effect:A"]),
                unit("claim:B", AffectedUnitKind::ConformanceClaim, "B-policy", &["effect:B"]),
                unit("effect:C", AffectedUnitKind::Effect, "C", &[]),
                unit("claim:C", AffectedUnitKind::ConformanceClaim, "C-policy", &["effect:C"]),
            ],
        )
    };
    let analysis = analyze_affected(&make("filesystem.write"), &make("filesystem.read"));
    assert!(has_affected(&analysis, "effect:B"));
    assert!(has_affected(&analysis, "effect:A"));
    assert!(has_affected(&analysis, "claim:A"));
    assert!(!has_affected(&analysis, "claim:C"));
}

#[test]
fn contract_binding_and_function_authority_have_narrow_dependencies() {
    let make = |policy: &str, binding: &str, function: &str| {
        snapshot(
            &format!("{policy}-{binding}-{function}"),
            vec![
                input("mods/a/contract.json", policy),
                input("data/project.json", binding),
                input("mods/a/data/function_contracts.json", function),
            ],
            vec![
                unit("authority:policy", AffectedUnitKind::AuthorityInput, policy, &[]),
                unit("authority:binding", AffectedUnitKind::AuthorityInput, binding, &[]),
                unit("authority:function", AffectedUnitKind::AuthorityInput, function, &[]),
                unit("source:a", AffectedUnitKind::SourceArtifact, binding, &["authority:binding"]),
                unit("projection:psm", AffectedUnitKind::Projection, "psm", &["source:a"]),
                unit(
                    "projection:semantic",
                    AffectedUnitKind::Projection,
                    function,
                    &["projection:psm", "authority:function"],
                ),
                unit(
                    "claim:A",
                    AffectedUnitKind::ConformanceClaim,
                    policy,
                    &["projection:semantic", "authority:policy"],
                ),
            ],
        )
    };
    let policy = analyze_affected(&make("allow", "A", "f0"), &make("deny", "A", "f0"));
    assert!(!has_affected(&policy, "projection:psm"));
    assert!(has_affected(&policy, "claim:A"));
    let binding = analyze_affected(&make("allow", "A", "f0"), &make("allow", "B", "f0"));
    assert!(has_affected(&binding, "source:a"));
    assert!(has_affected(&binding, "projection:psm"));
    let function = analyze_affected(&make("allow", "A", "f0"), &make("allow", "A", "f1"));
    assert!(!has_affected(&function, "projection:psm"));
    assert!(has_affected(&function, "projection:semantic"));
}

#[test]
fn finding_governance_updates_enforcement_without_raw_semantic_recomputation() {
    let make = |governance: &str| {
        snapshot(
            governance,
            vec![input("data/finding_governance.json", governance)],
            vec![
                unit("authority:governance", AffectedUnitKind::AuthorityInput, governance, &[]),
                unit("claim:A", AffectedUnitKind::ConformanceClaim, "raw-fail", &[]),
                unit("finding:A", AffectedUnitKind::Finding, "raw-finding", &["claim:A"]),
                unit(
                    "evidence:enforcement",
                    AffectedUnitKind::Evidence,
                    governance,
                    &["finding:A", "authority:governance"],
                ),
            ],
        )
    };
    let analysis = analyze_affected(&make("active"), &make("retired"));
    assert!(!has_affected(&analysis, "claim:A"));
    assert!(!has_affected(&analysis, "finding:A"));
    assert!(has_affected(&analysis, "evidence:enforcement"));
}

#[test]
fn canonical_output_is_stable_across_input_order() {
    let left = snapshot(
        "same",
        vec![input("b.rs", "b"), input("a.rs", "a")],
        vec![
            unit("source:b", AffectedUnitKind::SourceArtifact, "b", &[]),
            unit("source:a", AffectedUnitKind::SourceArtifact, "a", &[]),
        ],
    );
    let right = snapshot(
        "same",
        vec![input("a.rs", "a"), input("b.rs", "b")],
        vec![
            unit("source:a", AffectedUnitKind::SourceArtifact, "a", &[]),
            unit("source:b", AffectedUnitKind::SourceArtifact, "b", &[]),
        ],
    );
    assert_eq!(left.to_canonical_json(), right.to_canonical_json());
    assert_eq!(
        analyze_affected(&left, &right).to_canonical_json(),
        analyze_affected(&left, &right).to_canonical_json()
    );
}

#[test]
fn ten_thousand_node_closure_is_deterministic_and_indexed() {
    const COUNT: usize = 10_000;
    let make = |changed: bool| {
        let mut units = Vec::with_capacity(COUNT);
        for index in 0..COUNT {
            let id = format!("symbol:{index:05}");
            let value = if changed && index == 0 { "changed" } else { "same" };
            let dependencies = if index == 0 {
                Vec::new()
            } else if index < COUNT / 2 {
                vec![format!("symbol:{:05}", index - 1)]
            } else {
                Vec::new()
            };
            units.push(
                AffectedUnit::new(id, AffectedUnitKind::Symbol, digest(value), dependencies)
                    .expect("stress unit"),
            );
        }
        snapshot(if changed { "after" } else { "before" }, Vec::new(), units)
    };
    let previous = make(false);
    let current = make(true);
    let started = Instant::now();
    let first = analyze_affected(&previous, &current);
    let elapsed = started.elapsed();
    let second = analyze_affected(&previous, &current);
    assert_eq!(first, second);
    assert_eq!(first.summary().affected_units(), COUNT / 2);
    assert_eq!(first.summary().reusable_units(), COUNT / 2);
    assert!(elapsed < Duration::from_secs(10), "stress closure took {elapsed:?}");
}

#[test]
fn removed_input_and_unit_are_reported() {
    let previous = snapshot(
        "before",
        vec![input("code/gone.rs", "x")],
        vec![unit("source:gone", AffectedUnitKind::SourceArtifact, "x", &[])],
    );
    let current = snapshot("after", Vec::new(), Vec::new());
    let analysis = analyze_affected(&previous, &current);
    assert_eq!(analysis.input_changes()[0].kind(), InputChangeKind::Removed);
    assert_eq!(analysis.summary().removed_units(), 1);
    assert_eq!(analysis.summary().changed_inputs(), 1);
}

#[test]
fn invalid_inputs_are_rejected() {
    assert!(AffectedInput::new("/abs/path.rs".to_string(), digest("x"), 1).is_err());
    assert!(AffectedInput::new("code/a.rs".to_string(), "md5:nope".to_string(), 1).is_err());
    assert!(AffectedUnit::new(String::new(), AffectedUnitKind::Symbol, digest("x"), Vec::new()).is_err());
    assert!(AffectedSnapshot::new(
        digest("m"),
        Vec::new(),
        vec![unit("a:1", AffectedUnitKind::Symbol, "x", &["missing:1"])]
    )
    .is_err());
}

#[test]
fn analysis_errors_explain_themselves() {
    let error = fortress::affected::AffectedAnalysisError::InvalidDigest("sha256:bad".into());
    assert_eq!(error.message(), "invalid SHA-256 identity: sha256:bad");
    let error = fortress::affected::AffectedAnalysisError::UnresolvedDependency {
        unit: "symbol:a".into(),
        dependency: "symbol:b".into(),
    };
    assert_eq!(error.message(), "affected unit `symbol:a` references absent `symbol:b`");
}

#[test]
fn cache_key_binds_kind_generator_and_dependencies() {
    let dependency = ProjectionDependency::new("source:a".into(), digest("a")).unwrap();
    let key = ProjectionCacheKey::new(ProjectionKind::Ccg, "gen".into(), "1".into(), vec![dependency]).unwrap();
    let material = format!(
        "{{\"kind\":\"ccg\",\"generator\":\"gen\",\"generator_version\":\"1\",\"dependencies\":[{{\"id\":\"source:a\",\"digest\":\"{}\"}}]}}",
        digest("a")
    );
    assert_eq!(key.digest(), sha256(material.as_bytes()));
}

#[test]
fn comparing_a_snapshot_with_itself_changes_nothing() {
    let s = snapshot(
        "same",
        vec![input("a.rs", "a"), input("b.rs", "b")],
        vec![
            unit("module:a", AffectedUnitKind::Module, "a", &[]),
            unit("projection:p", AffectedUnitKind::Projection, "p", &["module:a"]),
        ],
    );
    let r = analyze_affected(&s, &s);
    assert!(r.input_changes().is_empty());
    assert!(r.affected().is_empty());
    let ids: Vec<String> = s.units().iter().map(|u| u.id().to_string()).collect();
    assert_eq!(r.reusable(), ids.as_slice());
    assert!(r.affected_modules().is_empty());
    assert!(r.affected_projections().is_empty());
    assert_eq!(r.summary().affected_units(), 0);
    assert_eq!(r.summary().reusable_units(), 2);
    assert_eq!(r.summary().recomputation_percent(), 0);
}

#[test]
fn cache_key_ignores_dependency_order() {
    let a = || ProjectionDependency::new("source:a".into(), digest("a")).unwrap();
    let b = || ProjectionDependency::new("source:b".into(), digest("b")).unwrap();
    let first = ProjectionCacheKey::new(ProjectionKind::Ccg, "gen".into(), "1".into(), vec![a(), b()]).unwrap();
    let second = ProjectionCacheKey::new(ProjectionKind::Ccg, "gen".into(), "1".into(), vec![b(), a()]).unwrap();
    assert_eq!(first.digest(), second.digest());
    let ids: Vec<&str> = second.dependencies().iter().map(|d| d.id()).collect();
    assert_eq!(ids, vec!["source:a", "source:b"]);
}

#[test]
fn canonical_snapshot_is_two_space_json_with_trailing_lf() {
    let snap = snapshot("same", vec![input("a.rs", "a")], vec![unit("source:a", AffectedUnitKind::SourceArtifact, "a", &[])]);
    let text = snap.to_canonical_json();
    assert!(text.ends_with("}\n"));
    let doc: serde_json::Value = serde_json::from_str(&text).expect("snapshot JSON parses");
    assert_eq!(doc["inputs"][0]["path"], "a.rs");
    assert_eq!(doc["inputs"][0]["kind"], "SOURCE");
    assert_eq!(doc["units"][0]["kind"], "SOURCE_ARTIFACT");
    assert!(text.starts_with("{\n  \"$schema\": "));
}

#[test]
fn canonical_analysis_names_reasons_by_tag() {
    let before = snapshot("same", vec![input("a.rs", "a")], vec![unit("source:a", AffectedUnitKind::SourceArtifact, "a", &[])]);
    let after = snapshot("same", vec![input("a.rs", "b")], vec![unit("source:a", AffectedUnitKind::SourceArtifact, "b", &[])]);
    let doc: serde_json::Value =
        serde_json::from_str(&analyze_affected(&before, &after).to_canonical_json()).expect("analysis JSON parses");
    assert_eq!(doc["input_changes"][0]["kind"], "MODIFIED");
    assert_eq!(doc["input_changes"][0]["authority"], "SOURCE");
    assert_eq!(doc["affected"][0]["state"], "RECOMPUTE");
    assert_eq!(doc["affected"][0]["reasons"][0]["kind"], "UNIT_DIGEST_CHANGED");
    assert_eq!(doc["summary"]["affected_units"], 1);
}
