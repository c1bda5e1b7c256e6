use fortress::behavioral_realization::contract::event_id;
use fortress::behavioral_realization::derive::{
    derive_implementation_events, CallEvidence, EnvironmentOperation, EnvironmentOutcome, ExecutableSymbol,
    HandlingStatus, ProgramBody, ProgramCall, ProgramExpression, ProgramSemanticModel, ProgramStatement,
    SemanticSummary, SourcePosition, StateEffectSummary, TrustedTransitionDiagnostic,
};
use fortress::behavioral_realization::events::RealizationCoverage;
use fortress::behavioral_realization::ImplementationEventModel;

fn position(line: u32, column: u32) -> SourcePosition {
    SourcePosition { path: "code/lib.rs".to_string(), line, column }
}

fn symbol(id: &str, line: u32) -> ExecutableSymbol {
    ExecutableSymbol {
        id: id.to_string(),
        fortress_module: "AF-MOD".to_string(),
        source_path: "code/lib.rs".to_string(),
        provenance: position(line, 1),
    }
}

fn call(reference: &str) -> ProgramExpression {
    ProgramExpression::Call { reference: reference.to_string(), arguments: Vec::new() }
}

fn psm() -> ProgramSemanticModel {
    ProgramSemanticModel {
        symbols: vec![symbol("sym::run", 1), symbol("sym::check", 10), symbol("sym::opaque", 20)],
        calls: vec![ProgramCall {
            caller: "sym::run".to_string(),
            callee: Some("sym::check".to_string()),
            resolved_static: true,
            evidence: vec![CallEvidence { reference: "check".to_string(), provenance: position(3, 5) }],
        }],
        bodies: vec![
            ProgramBody {
                symbol: "sym::run".to_string(),
                statements: vec![ProgramStatement::If {
                    condition: call("check"),
                    then_branch: vec![ProgramStatement::Return { value: None }],
                    else_branch: Vec::new(),
                    provenance: position(3, 2),
                }],
            },
            ProgramBody { symbol: "sym::check".to_string(), statements: Vec::new() },
        ],
    }
}

fn derive() -> ImplementationEventModel {
    derive_implementation_events(
        &psm(),
        &vec![SemanticSummary { symbol: "sym::check".to_string(), boolean_output: Some(vec![false, true]) }],
        &vec![StateEffectSummary {
            symbol: "sym::check".to_string(),
            input_receiver_state: None,
            output_receiver_state: None,
            state_postcondition_coverage: RealizationCoverage::Proven,
            direct_effects: vec!["Filesystem".to_string()],
        }],
        &vec![TrustedTransitionDiagnostic {
            symbol: "sym::missing".to_string(),
            kind: "Endorsement".to_string(),
            facet: "integrity".to_string(),
            from: "low".to_string(),
            to: "high".to_string(),
            contract_provenance: "contract.json".to_string(),
        }],
        &vec![EnvironmentOperation {
            operation: "fs.read".to_string(),
            boundary: "sym::check".to_string(),
            outcomes: vec![EnvironmentOutcome {
                id: "missing".to_string(),
                handling: HandlingStatus::PartiallyHandled,
                provenance: "contract.json".to_string(),
                continuation: None,
            }],
        }],
    )
}

fn has_edge(model: &ImplementationEventModel, source: &str, target: &str, derivation: &str) -> bool {
    model.edges().iter().any(|e| e.source() == source && e.target() == target && e.derivation() == derivation)
}

fn site_key() -> String {
    "sym::run:code/lib.rs:3:5:0".to_string()
}

#[test]
fn derives_language_neutral_events() {
    let model = derive();
    assert!(!model.events().is_empty());
    let ids: Vec<&str> = model.events().iter().map(|e| e.id()).collect();
    let mut sorted = ids.clone();
    sorted.sort();
    sorted.dedup();
    assert_eq!(ids, sorted);
    for kind in ["symbol_entry", "symbol_return"] {
        for s in ["sym::run", "sym::check", "sym::opaque"] {
            assert!(ids.contains(&event_id(kind, s).as_str()));
        }
    }
    assert!(ids.contains(&event_id("symbol_return_boolean", "sym::check:true").as_str()));
    assert!(ids.contains(&event_id("effect", "sym::check:Filesystem").as_str()));
    assert!(ids.contains(&event_id("environment_outcome", "fs.read:missing").as_str()));
    assert!(ids.contains(&event_id("call_site", &format!("{}:before", site_key())).as_str()));
    assert!(ids.contains(&event_id("control_decision", "sym::run:code/lib.rs:3:2").as_str()));
    assert!(model.events().iter().all(|e| e.module() == "AF-MOD"));
    assert_eq!(model.events().len(), 13);
}

#[test]
fn derives_program_control_edges() {
    let model = derive();
    assert!(!model.edges().is_empty());
    let before = event_id("call_site", &format!("{}:before", site_key()));
    let after = event_id("call_return", &format!("{}:after", site_key()));
    let decision = event_id("control_decision", "sym::run:code/lib.rs:3:2");
    assert!(has_edge(&model, &event_id("symbol_entry", "sym::run"), &before, "expression_order"));
    assert!(has_edge(&model, &before, &event_id("symbol_entry", "sym::check"), "resolved_static_call"));
    assert!(has_edge(&model, &event_id("symbol_return", "sym::check"), &after, "context_insensitive_static_return"));
    assert!(has_edge(&model, &after, &decision, "if_condition"));
    assert!(has_edge(&model, &decision, &event_id("symbol_return", "sym::run"), "explicit_return"));
    assert!(has_edge(&model, &decision, &event_id("symbol_return", "sym::run"), "normal_return"));
    assert!(has_edge(
        &model,
        &event_id("symbol_entry", "sym::run"),
        &event_id("symbol_entry", "sym::check"),
        "lexical_call_order_fallback"
    ));
    assert!(has_edge(
        &model,
        &event_id("symbol_entry", "sym::opaque"),
        &event_id("symbol_return", "sym::opaque"),
        "opaque_declaration_return"
    ));
    assert!(has_edge(
        &model,
        &event_id("symbol_entry", "sym::check"),
        &event_id("symbol_return", "sym::check"),
        "normal_return"
    ));
    let continuation = model
        .edges()
        .iter()
        .find(|e| e.derivation() == "environment_outcome_continuation")
        .expect("continuation");
    assert_eq!(continuation.coverage(), RealizationCoverage::Partial);
    assert!(!model.edges().iter().any(|e| e.derivation() == "trusted_transition"));
}

#[test]
fn event_model_is_deterministic() {
    let first = derive();
    let second = derive();
    let a: Vec<(&str, &str, &str)> = first.edges().iter().map(|e| (e.source(), e.target(), e.derivation())).collect();
    let b: Vec<(&str, &str, &str)> =
        second.edges().iter().map(|e| (e.source(), e.target(), e.derivation())).collect();
    assert_eq!(a, b);
    let ids_a: Vec<&str> = first.events().iter().map(|e| e.id()).collect();
    let ids_b: Vec<&str> = second.events().iter().map(|e| e.id()).collect();
    assert_eq!(ids_a, ids_b);
}
