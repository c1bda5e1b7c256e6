use std::collections::BTreeMap;

use fortress::behavior::bfg::{
    bfg_unsupported_semantics, compile_intended_bfg, evaluate_behavioral_semantics, BehaviorSource, FeatureOwnership,
    IntendedBehavioralFlowGraph,
};
use fortress::behavior::flow::{CheckpointDeclaration, CheckpointTransition};
use fortress::behavior::model::{BehavioralModelingState, CheckpointKind};

const FEATURE: &str = "AF-BFG-FEATURE-0001";
const ROOT: &str = "PF-BFG-FIXTURE";
const PARTICIPANT: &str = "AF-BFG-PARTICIPANT-0001";

struct Authored {
    id: &'static str,
    kind: CheckpointKind,
    outcome: Option<&'static str>,
    transitions: Vec<(Option<&'static str>, &'static str)>,
}

fn checkpoint(
    id: &'static str,
    kind: CheckpointKind,
    outcome: Option<&'static str>,
    transitions: Vec<(Option<&'static str>, &'static str)>,
) -> Authored {
    Authored { id, kind, outcome, transitions }
}

fn declarations(module: &str, path: &str, authored: Vec<Authored>) -> Vec<CheckpointDeclaration> {
    authored
        .into_iter()
        .enumerate()
        .map(|(index, a)| {
            CheckpointDeclaration::new(
                a.id.to_string(),
                FEATURE.to_string(),
                module.to_string(),
                a.kind,
                a.outcome.map(str::to_string),
                a.transitions
                    .into_iter()
                    .map(|(outcome, target)| {
                        CheckpointTransition::new(target.to_string(), outcome.map(str::to_string))
                    })
                    .collect(),
                path.to_string(),
                index,
            )
        })
        .collect()
}

fn source(root: Vec<Authored>, participant: Option<Vec<Authored>>) -> BehaviorSource {
    let mut all = declarations(ROOT, "contract.json", root);
    if let Some(child) = participant {
        all.extend(declarations(PARTICIPANT, "mods/participant/contract.json", child));
    }
    all.sort_by(|a, b| a.checkpoint().cmp(b.checkpoint()));
    BehaviorSource::new(
        Some(ROOT.to_string()),
        Some("STD-FORTRESS-ENGINEERING".to_string()),
        Some("1.0.0-draft.1".to_string()),
        "sha256:0000000000000000000000000000000000000000000000000000000000000000".to_string(),
        vec![FeatureOwnership::new(FEATURE.to_string(), ROOT.to_string())],
        all,
    )
}

fn compile(root: Vec<Authored>, participant: Option<Vec<Authored>>) -> IntendedBehavioralFlowGraph {
    compile_intended_bfg(&source(root, participant)).expect("BFG compiles")
}

fn linear() -> Vec<Authored> {
    vec![
        checkpoint("CHK-FLOW-ACTION", CheckpointKind::Action, None, vec![(None, "CHK-FLOW-DONE")]),
        checkpoint("CHK-FLOW-DONE", CheckpointKind::Terminal, Some("done"), vec![]),
        checkpoint("CHK-FLOW-START", CheckpointKind::Trigger, None, vec![(None, "CHK-FLOW-ACTION")]),
    ]
}

fn violation_codes(behavior: Vec<Authored>) -> Vec<String> {
    compile(behavior, None)
        .violations()
        .iter()
        .map(|violation| violation.code().to_owned())
        .collect()
}

#[test]
fn linear_branching_and_looping_flows_compile() {
    let linear_graph = compile(linear(), None);
    assert_eq!(linear_graph.summary().modeled_features(), 1);
    assert_eq!(linear_graph.summary().checkpoints(), 3);
    assert_eq!(linear_graph.summary().edges(), 2);
    assert_eq!(linear_graph.summary().terminals(), 1);
    assert!(linear_graph.violations().is_empty());

    let branching = vec![
        checkpoint(
            "CHK-FLOW-DECIDE",
            CheckpointKind::Decision,
            None,
            vec![(Some("accept"), "CHK-FLOW-DONE"), (Some("reject"), "CHK-FLOW-REJECTED")],
        ),
        checkpoint("CHK-FLOW-DONE", CheckpointKind::Terminal, Some("done"), vec![]),
        checkpoint("CHK-FLOW-REJECTED", CheckpointKind::Terminal, Some("rejected"), vec![]),
        checkpoint("CHK-FLOW-START", CheckpointKind::Trigger, None, vec![(None, "CHK-FLOW-DECIDE")]),
    ];
    let graph = compile(branching, None);
    assert_eq!(graph.summary().decisions(), 1);
    assert_eq!(graph.flows()[0].decision_branches().len(), 2);
    assert!(graph.violations().is_empty());

    let looping = vec![
        checkpoint(
            "CHK-FLOW-DECIDE",
            CheckpointKind::Decision,
            None,
            vec![(Some("retry"), "CHK-FLOW-START"), (Some("stop"), "CHK-FLOW-DONE")],
        ),
        checkpoint("CHK-FLOW-DONE", CheckpointKind::Terminal, Some("done"), vec![]),
        checkpoint("CHK-FLOW-START", CheckpointKind::Trigger, None, vec![(None, "CHK-FLOW-DECIDE")]),
    ];
    let graph = compile(looping, None);
    assert_eq!(graph.summary().loops(), 1);
    assert!(graph.violations().is_empty());
}

#[test]
fn distributed_flow_derives_lanes_boundaries_and_provenance() {
    let root = vec![checkpoint(
        "CHK-FLOW-START",
        CheckpointKind::Trigger,
        None,
        vec![(None, "CHK-FLOW-WORK")],
    )];
    let child = vec![
        checkpoint("CHK-FLOW-DONE", CheckpointKind::Terminal, Some("done"), vec![]),
        checkpoint("CHK-FLOW-WORK", CheckpointKind::Action, None, vec![(None, "CHK-FLOW-DONE")]),
    ];
    let graph = compile(root, Some(child));
    let flow = &graph.flows()[0];
    assert_eq!(flow.participating_modules(), [PARTICIPANT, ROOT]);
    assert_eq!(flow.module_boundary_crossings().len(), 1);
    assert_eq!(flow.module_boundary_crossings()[0].source(), "CHK-FLOW-START");
    assert_eq!(flow.module_boundary_crossings()[0].provenance().path(), "contract.json");
    assert!(flow
        .nodes()
        .iter()
        .all(|node| node.provenance().pointer().starts_with("/behavior/")));
}

#[test]
fn dominators_post_dominators_bytes_and_digest_are_deterministic() {
    let first = compile(linear(), None);
    let second = compile(linear(), None);
    assert_eq!(first, second);
    assert_eq!(first.to_canonical_json(), second.to_canonical_json());
    assert_eq!(first.digest(), second.digest());
    let flow = &first.flows()[0];
    let dominators = flow
        .immediate_dominators()
        .iter()
        .map(|value| (value.checkpoint(), value.immediate()))
        .collect::<BTreeMap<_, _>>();
    assert_eq!(dominators["CHK-FLOW-START"], None);
    assert_eq!(dominators["CHK-FLOW-ACTION"], Some("CHK-FLOW-START"));
    assert_eq!(dominators["CHK-FLOW-DONE"], Some("CHK-FLOW-ACTION"));
    let post = flow
        .immediate_post_dominators()
        .iter()
        .map(|value| (value.checkpoint(), value.immediate()))
        .collect::<BTreeMap<_, _>>();
    assert_eq!(post["CHK-FLOW-START"], Some("CHK-FLOW-ACTION"));
    assert_eq!(post["CHK-FLOW-ACTION"], Some("CHK-FLOW-DONE"));
    assert_eq!(post["CHK-FLOW-DONE"], None);
}

#[test]
fn unmodeled_feature_is_explicit_and_non_failing() {
    let graph = compile(Vec::new(), None);
    assert_eq!(graph.summary().modeled_features(), 0);
    assert_eq!(graph.summary().unmodeled_features(), 1);
    assert_eq!(graph.feature_states()[0].state(), BehavioralModelingState::Unmodeled);
    assert!(graph.violations().is_empty());
    assert_eq!(graph.unsupported_semantics(), bfg_unsupported_semantics().as_slice());
}

#[test]
fn trigger_terminal_and_dead_region_contradictions_are_exact() {
    let zero_trigger = vec![
        checkpoint("CHK-FLOW-DONE", CheckpointKind::Terminal, Some("done"), vec![]),
        checkpoint("CHK-FLOW-WORK", CheckpointKind::Action, None, vec![(None, "CHK-FLOW-DONE")]),
    ];
    assert_eq!(violation_codes(zero_trigger), ["BFG-TRIGGER-COUNT"]);

    let multiple_trigger = vec![
        checkpoint("CHK-FLOW-DONE", CheckpointKind::Terminal, Some("done"), vec![]),
        checkpoint("CHK-FLOW-START", CheckpointKind::Trigger, None, vec![(None, "CHK-FLOW-DONE")]),
        checkpoint("CHK-FLOW-START-TWO", CheckpointKind::Trigger, None, vec![(None, "CHK-FLOW-DONE")]),
    ];
    assert_eq!(violation_codes(multiple_trigger), ["BFG-TRIGGER-COUNT"]);

    let unreachable = vec![
        checkpoint("CHK-FLOW-DONE", CheckpointKind::Terminal, Some("done"), vec![]),
        checkpoint("CHK-FLOW-ORPHAN", CheckpointKind::Terminal, Some("orphan"), vec![]),
        checkpoint("CHK-FLOW-START", CheckpointKind::Trigger, None, vec![(None, "CHK-FLOW-DONE")]),
    ];
    assert_eq!(violation_codes(unreachable), ["BFG-UNREACHABLE-CHECKPOINT"]);
}

#[test]
fn nonterminating_components_and_branches_are_exact() {
    let no_terminal = vec![
        checkpoint("CHK-FLOW-START", CheckpointKind::Trigger, None, vec![(None, "CHK-FLOW-WORK")]),
        checkpoint("CHK-FLOW-WORK", CheckpointKind::Action, None, vec![(None, "CHK-FLOW-START")]),
    ];
    assert_eq!(
        violation_codes(no_terminal),
        ["BFG-CLOSED-SCC", "BFG-NO-TERMINAL-PATH", "BFG-NO-TERMINAL-PATH", "BFG-TERMINAL-MISSING"]
    );

    let bad_branch = vec![
        checkpoint(
            "CHK-FLOW-DECIDE",
            CheckpointKind::Decision,
            None,
            vec![(Some("done"), "CHK-FLOW-DONE"), (Some("loop"), "CHK-FLOW-LOOP")],
        ),
        checkpoint("CHK-FLOW-DONE", CheckpointKind::Terminal, Some("done"), vec![]),
        checkpoint("CHK-FLOW-LOOP", CheckpointKind::Action, None, vec![(None, "CHK-FLOW-LOOP")]),
        checkpoint("CHK-FLOW-START", CheckpointKind::Trigger, None, vec![(None, "CHK-FLOW-DECIDE")]),
    ];
    assert_eq!(
        violation_codes(bad_branch),
        ["BFG-CLOSED-SCC", "BFG-NO-TERMINAL-PATH", "BFG-NONVIABLE-BRANCH"]
    );
}

#[test]
fn missing_root_ecosystem_is_an_error() {
    let source = BehaviorSource::new(
        None,
        None,
        None,
        "sha256:00".to_string(),
        vec![FeatureOwnership::new(FEATURE.to_string(), ROOT.to_string())],
        Vec::new(),
    );
    assert!(compile_intended_bfg(&source).is_err());
}

#[test]
fn intended_summary_accounts_for_every_feature() {
    for graph in [compile(linear(), None), compile(Vec::new(), None)] {
        let s = graph.summary();
        assert_eq!(s.total_features(), graph.feature_states().len());
        assert_eq!(s.total_features(), s.modeled_features() + s.unmodeled_features());
        assert_eq!(s.modeled_features(), graph.flows().len());
        assert_eq!(s.modeled_features(), s.coherent_features() + s.incoherent_features());
    }
}

#[test]
fn canonical_intended_bfg_is_two_space_json_in_field_order() {
    let graph = compile(linear(), None);
    let text = graph.to_canonical_json();
    assert!(text.ends_with("}\n"));
    assert!(text.starts_with("{\n  \"$schema\": "));
    let doc: serde_json::Value = serde_json::from_str(&text).expect("graph JSON parses");
    assert_eq!(doc["view"], "intended");
    assert_eq!(doc["flows"][0]["state"], "MODELED_COHERENT");
    assert_eq!(doc["flows"][0]["nodes"][0]["kind"].as_str().map(|k| k.chars().all(|c| c.is_ascii_lowercase())), Some(true));
    assert!(doc["flows"][0]["immediate_dominators"].as_array().expect("dominators").iter().any(|d| d["immediate"].is_null()));
    assert_eq!(graph.digest(), fortress::codec::sha256_text(&text));
    let summary = text.find("\"summary\"").unwrap();
    let view = text.find("\"view\"").unwrap();
    let digest = text.find("\"source_ccg_digest\"").unwrap();
    assert!(digest < view && view < summary);
}

#[test]
fn each_violation_is_one_flow_rule_finding() {
    let zero_trigger = vec![
        checkpoint("CHK-FLOW-DONE", CheckpointKind::Terminal, Some("done"), vec![]),
        checkpoint("CHK-FLOW-WORK", CheckpointKind::Action, None, vec![(None, "CHK-FLOW-DONE")]),
    ];
    let evaluation = evaluate_behavioral_semantics(&source(zero_trigger, None), "1.0.0-draft.1").expect("evaluates");
    let violations = evaluation.graph().violations();
    assert_eq!(evaluation.findings().len(), violations.len());
    let finding = &evaluation.findings()[0];
    assert_eq!(finding.rule_id(), "BEHAVIOR-FLOW-001");
    assert_eq!(finding.feature(), FEATURE);
    assert_eq!(finding.message(), format!("BFG-TRIGGER-COUNT: {}", violations[0].message()));
    assert_eq!(finding.path(), Some(violations[0].provenance()[0].path()));
    assert_eq!(finding.standard_edition(), "1.0.0-draft.1");
}

#[test]
fn coherent_flow_has_no_flow_rule_finding() {
    let evaluation = evaluate_behavioral_semantics(&source(linear(), None), "1.0.0-draft.1").expect("evaluates");
    assert!(evaluation.findings().is_empty());
}

#[test]
fn a_flow_is_coherent_exactly_when_no_violation_names_its_feature() {
    let coherent = compile(linear(), None);
    assert_eq!(coherent.flows()[0].state(), BehavioralModelingState::ModeledCoherent);
    assert!(!coherent.violations().iter().any(|v| v.feature() == coherent.flows()[0].feature()));
    let zero_trigger = vec![
        checkpoint("CHK-FLOW-DONE", CheckpointKind::Terminal, Some("done"), vec![]),
        checkpoint("CHK-FLOW-WORK", CheckpointKind::Action, None, vec![(None, "CHK-FLOW-DONE")]),
    ];
    let incoherent = compile(zero_trigger, None);
    assert_eq!(incoherent.flows()[0].state(), BehavioralModelingState::ModeledIncoherent);
    assert!(incoherent.violations().iter().any(|v| v.feature() == incoherent.flows()[0].feature()));
}
