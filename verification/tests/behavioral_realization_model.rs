use fortress::behavior::bfg::{compile_intended_bfg, BehaviorSource, FeatureOwnership, IntendedBehavioralFlowGraph};
use fortress::behavior::flow::{CheckpointDeclaration, CheckpointTransition};
use fortress::behavior::model::CheckpointKind;
use fortress::behavioral_realization::contract::{
    event_id, resolve_anchor_event, BehaviorAnchor, BindingOrigin, BooleanDomain,
    ResolvedBehaviorRealizationContracts, ResolvedCheckpointRealization,
};
use fortress::behavioral_realization::events::{
    combine_coverage, supported_path, EventAuthority, EventSubject, ImplementationEvent,
    ImplementationEventEdge, RealizationCoverage,
};
use fortress::behavioral_realization::{
    compile_realized_bfg_from_events, evaluate_behavioral_realization_from_events, verification_obligation,
    CheckpointRealizationState, EdgeReconciliationState, FeatureRealizationState,
    ImplementationEventModel, RealizationDigests, RealizedBehavioralFlowGraph,
};
use fortress::codec::sha256_text;

const FEATURE: &str = "AF-BFG-FEATURE-0001";
const ROOT: &str = "PF-BFG-FIXTURE";

fn strings(items: &[&str]) -> Vec<String> {
    items.iter().map(|s| s.to_string()).collect()
}

fn edge(source: &str, target: &str, coverage: RealizationCoverage) -> ImplementationEventEdge {
    ImplementationEventEdge::new(source.to_string(), target.to_string(), coverage, "control".to_string())
}

fn declaration(id: &str, kind: CheckpointKind, outcome: Option<&str>, target: Option<&str>, index: usize) -> CheckpointDeclaration {
    CheckpointDeclaration::new(
        id.to_string(),
        FEATURE.to_string(),
        ROOT.to_string(),
        kind,
        outcome.map(str::to_string),
        target.map(|t| vec![CheckpointTransition::new(t.to_string(), None)]).unwrap_or_default(),
        "contract.json".to_string(),
        index,
    )
}

fn intended() -> IntendedBehavioralFlowGraph {
    let source = BehaviorSource::new(
        Some(ROOT.to_string()),
        Some("STD-FORTRESS-ENGINEERING".to_string()),
        Some("1.0.0-draft.1".to_string()),
        "sha256:ccg".to_string(),
        vec![FeatureOwnership::new(FEATURE.to_string(), ROOT.to_string())],
        vec![
            declaration("CHK-FLOW-ACTION", CheckpointKind::Action, None, Some("CHK-FLOW-DONE"), 0),
            declaration("CHK-FLOW-DONE", CheckpointKind::Terminal, Some("done"), None, 1),
            declaration("CHK-FLOW-START", CheckpointKind::Trigger, None, Some("CHK-FLOW-ACTION"), 2),
        ],
    );
    compile_intended_bfg(&source).expect("intended flow compiles")
}

fn binding(checkpoint: &str, anchor: BehaviorAnchor) -> ResolvedCheckpointRealization {
    ResolvedCheckpointRealization::new(
        FEATURE.to_string(),
        checkpoint.to_string(),
        BindingOrigin {
            declaring_module: ROOT.to_string(),
            source_path: "data/behavior_realization_contracts.json".to_string(),
            pointer: format!("/checkpoints/{checkpoint}"),
        },
        vec![anchor],
    )
}

fn contracts() -> ResolvedBehaviorRealizationContracts {
    ResolvedBehaviorRealizationContracts::new(
        vec![FEATURE.to_string()],
        vec![
            binding("CHK-FLOW-ACTION", BehaviorAnchor::SymbolEntry { symbol: "sym::act".to_string() }),
            binding("CHK-FLOW-DONE", BehaviorAnchor::SymbolReturn { symbol: "sym::act".to_string(), boolean: None }),
            binding("CHK-FLOW-START", BehaviorAnchor::SymbolEntry { symbol: "sym::start".to_string() }),
        ],
        "sha256:contracts".to_string(),
    )
}

fn event(id: &str, kind: &str) -> ImplementationEvent {
    ImplementationEvent::new(
        id.to_string(),
        EventSubject { kind: kind.to_string(), responsible_symbol: None, module: ROOT.to_string() },
        EventAuthority::ProgramSemanticModel,
        vec!["code/lib.rs".to_string()],
        RealizationCoverage::Proven,
    )
}

fn events() -> (String, String, String, Vec<ImplementationEvent>) {
    let start = event_id("symbol_entry", "sym::start");
    let act = event_id("symbol_entry", "sym::act");
    let done = event_id("symbol_return", "sym::act");
    let all = vec![event(&start, "symbol_entry"), event(&act, "symbol_entry"), event(&done, "symbol_return")];
    (start, act, done, all)
}

fn digests() -> RealizationDigests {
    RealizationDigests::new(
        "sha256:bfg".to_string(),
        "sha256:psm".to_string(),
        "sha256:semantic".to_string(),
        "sha256:state".to_string(),
        "sha256:flow".to_string(),
        "sha256:env".to_string(),
    )
}

#[test]
fn event_identity_is_content_addressed() {
    let id = event_id("symbol_entry", "sym::start");
    assert_eq!(id, format!("event:symbol_entry:{}", sha256_text("symbol_entry:sym::start")));
    assert_ne!(id, event_id("symbol_entry", "sym::other"));
}

#[test]
fn anchors_resolve_to_their_events() {
    let entry = BehaviorAnchor::SymbolEntry { symbol: "sym::a".to_string() };
    assert_eq!(resolve_anchor_event(&entry, &[]), Some(event_id("symbol_entry", "sym::a")));
    let plain_return = BehaviorAnchor::SymbolReturn { symbol: "sym::a".to_string(), boolean: None };
    assert_eq!(resolve_anchor_event(&plain_return, &[]), Some(event_id("symbol_return", "sym::a")));
    let refined = BehaviorAnchor::SymbolReturn { symbol: "sym::a".to_string(), boolean: Some(true) };
    assert_eq!(resolve_anchor_event(&refined, &[]), None);
    let domains = vec![BooleanDomain::new("sym::a".to_string(), vec![false, true])];
    assert_eq!(
        resolve_anchor_event(&refined, &domains),
        Some(event_id("symbol_return_boolean", "sym::a:true"))
    );
    assert_eq!(entry.kind(), "symbol_entry");
    assert_eq!(entry.symbol(), Some("sym::a"));
}

#[test]
fn coverage_combines_to_the_weaker() {
    assert_eq!(combine_coverage(RealizationCoverage::Proven, RealizationCoverage::Partial), RealizationCoverage::Partial);
    assert_eq!(combine_coverage(RealizationCoverage::Unknown, RealizationCoverage::Proven), RealizationCoverage::Unknown);
    assert_eq!(combine_coverage(RealizationCoverage::Proven, RealizationCoverage::Proven), RealizationCoverage::Proven);
}

#[test]
fn supported_path_respects_forbidden_events() {
    let edges = vec![
        edge("a", "b", RealizationCoverage::Proven),
        edge("b", "c", RealizationCoverage::Partial),
    ];
    let found = supported_path(&edges, &strings(&["a"]), &strings(&["c"]), &Vec::new()).expect("path");
    assert_eq!(found.0, strings(&["a", "b", "c"]));
    assert_eq!(found.1, RealizationCoverage::Partial);
    assert!(supported_path(&edges, &strings(&["a"]), &strings(&["c"]), &strings(&["b"])).is_none());
    assert!(supported_path(&edges, &strings(&["c"]), &strings(&["a"]), &Vec::new()).is_none());
}

#[test]
fn verification_obligation_identity_is_derived() {
    let obligation = verification_obligation(FEATURE, "reaches", strings(&["CHK-A", "CHK-B"]));
    let digest = sha256_text(&format!("{FEATURE}:reaches:CHK-A:CHK-B"));
    let expected = format!("OBL-BEHAVIOR-{}", digest["sha256:".len().."sha256:".len() + 16].to_uppercase());
    assert_eq!(obligation.id(), expected);
    assert_eq!(obligation.evidence_status(), "NOT_ESTABLISHED");
    assert_eq!(obligation.checkpoints(), ["CHK-A", "CHK-B"]);
}

#[test]
fn coherent_realization_reconciles_every_intended_edge() {
    let (start, act, done, all) = events();
    let model = ImplementationEventModel::new(
        all,
        vec![edge(&start, &act, RealizationCoverage::Proven), edge(&act, &done, RealizationCoverage::Proven)],
    );
    let graph = compile_realized_bfg_from_events(&intended(), model, &[], &contracts(), ROOT, digests());
    let flow = &graph.flows()[0];
    assert_eq!(flow.state(), FeatureRealizationState::RealizedCoherent);
    assert!(flow.checkpoints().iter().all(|c| c.state() == CheckpointRealizationState::Realized));
    assert!(flow
        .transitions()
        .iter()
        .all(|t| t.state() == EdgeReconciliationState::IntendedAndRealized));
    assert!(flow.bypasses().is_empty());
    assert_eq!(graph.summary().intended_and_realized_edges(), 2);
    assert_eq!(graph.summary().realized_checkpoints(), 3);
    assert_eq!(graph.summary().proven_bypasses(), 0);
    assert_eq!(graph.summary().opted_in_features(), 1);
    assert!(graph.verification_obligations().iter().all(|o| o.id().starts_with("OBL-BEHAVIOR-")));
}

#[test]
fn missing_control_flow_leaves_edges_unproven() {
    let (_, _, _, all) = events();
    let model = ImplementationEventModel::new(all, Vec::new());
    let graph = compile_realized_bfg_from_events(&intended(), model, &[], &contracts(), ROOT, digests());
    let flow = &graph.flows()[0];
    assert_eq!(flow.state(), FeatureRealizationState::RealizationPartial);
    assert_eq!(graph.summary().intended_unproven_edges(), 2);
}

#[test]
fn shortcut_around_a_dominator_is_a_bypass() {
    let (start, act, done, all) = events();
    let model = ImplementationEventModel::new(
        all,
        vec![
            edge(&start, &act, RealizationCoverage::Proven),
            edge(&act, &done, RealizationCoverage::Proven),
            edge(&start, &done, RealizationCoverage::Proven),
        ],
    );
    let evaluation = evaluate_behavioral_realization_from_events(
        &intended(),
        model,
        &[],
        &contracts(),
        ROOT,
        digests(),
        "1.0.0-draft.1",
    );
    let graph = evaluation.graph();
    assert_eq!(graph.flows()[0].state(), FeatureRealizationState::RealizedContradicted);
    assert_eq!(graph.summary().realized_undeclared_edges(), 1);
    assert!(graph.summary().proven_bypasses() >= 1);
    assert_eq!(graph.flows()[0].bypasses()[0].required_dominator(), "CHK-FLOW-ACTION");
    assert!(!evaluation.bypass_findings().is_empty());
}

#[test]
fn unsupported_semantics_remain_explicit() {
    let (start, act, done, all) = events();
    let model = ImplementationEventModel::new(
        all,
        vec![edge(&start, &act, RealizationCoverage::Proven), edge(&act, &done, RealizationCoverage::Proven)],
    );
    let graph = compile_realized_bfg_from_events(&intended(), model, &[], &contracts(), ROOT, digests());
    assert!(graph.unsupported_semantics().iter().any(|item| item == "dynamic_runtime_trace_realization"));
}

#[test]
fn no_supported_self_bypass_exists() {
    let (start, act, done, all) = events();
    let model = ImplementationEventModel::new(
        all,
        vec![edge(&start, &act, RealizationCoverage::Proven), edge(&act, &done, RealizationCoverage::Proven)],
    );
    let graph = compile_realized_bfg_from_events(&intended(), model, &[], &contracts(), ROOT, digests());
    assert_eq!(graph.summary().proven_bypasses(), 0);
}

fn coherent_graph() -> RealizedBehavioralFlowGraph {
    let (start, act, done, all) = events();
    let model = ImplementationEventModel::new(
        all,
        vec![edge(&start, &act, RealizationCoverage::Proven), edge(&act, &done, RealizationCoverage::Proven)],
    );
    compile_realized_bfg_from_events(&intended(), model, &[], &contracts(), ROOT, digests())
}

fn document() -> serde_json::Value {
    serde_json::from_str(&coherent_graph().to_canonical_json()).expect("graph JSON parses")
}

#[test]
fn canonical_realized_bfg_has_trailing_lf() {
    assert!(coherent_graph().to_canonical_json().ends_with('\n'));
}

#[test]
fn realized_bfg_digest_is_deterministic() {
    let graph = coherent_graph();
    assert_eq!(graph.digest(), coherent_graph().digest());
    assert_eq!(graph.digest(), sha256_text(&graph.to_canonical_json()));
}

#[test]
fn realized_document_is_two_space_json_in_field_order() {
    let text = coherent_graph().to_canonical_json();
    assert!(text.starts_with("{\n  \"$schema\": \"urn:fortress:schema:v1:realized-behavioral-flow-graph\",\n  \"schema_version\": 1,\n"));
    let schema = text.find("\"$schema\"").unwrap();
    let summary = text.find("\"summary\"").unwrap();
    let flows = text.find("\"flows\"").unwrap();
    assert!(schema < summary && summary < flows);
}

#[test]
fn realized_document_carries_counts_events_and_bindings() {
    let doc = document();
    assert_eq!(doc["view"], "realized");
    assert_eq!(doc["summary"]["opted_in_features"], 1);
    assert_eq!(doc["summary"]["checkpoints"], 3);
    assert_eq!(doc["summary"]["intended_and_realized_edges"], 2);
    assert_eq!(doc["summary"]["intended_unproven_edges"], 0);
    assert_eq!(doc["flows"][0]["state"], "REALIZED_COHERENT");
    assert_eq!(doc["feature_states"][0][1], "REALIZED_COHERENT");
    let events = doc["implementation_events"]["events"].as_array().expect("events");
    assert_eq!(events.len(), 3);
    assert!(events.iter().all(|e| e["module"] == ROOT));
    assert!(events.iter().all(|e| e["authority"] == "program_semantic_model"));
    assert!(events.iter().all(|e| e["coverage"] == "PROVEN"));
    assert!(events.iter().all(|e| e["responsible_symbol"].is_null()));
    assert_eq!(doc["implementation_events"]["edges"].as_array().expect("edges").len(), 2);
    let checkpoints = doc["flows"][0]["checkpoints"].as_array().expect("checkpoints");
    assert!(checkpoints.iter().all(|c| !c["anchor_events"].as_array().expect("anchors").is_empty()));
    assert!(checkpoints.iter().all(|c| c["checkpoint"].as_str().expect("checkpoint").starts_with("CHK-")));
    for field in [
        "intended_bfg_digest",
        "psm_digest",
        "semantic_analysis_digest",
        "state_effect_digest",
        "information_flow_digest",
        "environmental_analysis_digest",
    ] {
        assert!(doc[field].as_str().expect("digest").starts_with("sha256:"));
    }
}
