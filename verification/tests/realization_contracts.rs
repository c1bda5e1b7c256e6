use fortress::behavior::bfg::{compile_intended_bfg, BehaviorSource, FeatureOwnership, IntendedBehavioralFlowGraph};
use fortress::behavior::flow::{CheckpointDeclaration, CheckpointTransition};
use fortress::behavior::model::CheckpointKind;
use fortress::behavioral_realization::contract::{BehaviorAnchor, BEHAVIOR_REALIZATION_CONTRACT_SCHEMA};
use fortress::behavioral_realization::loader::{
    distributed_contract_digest, resolve_behavior_realization_contracts, AnchorAuthority,
    BehaviorRealizationContractError, BehaviorRealizationContractSource, CheckpointContract, ContractDocument,
    DecodedContract, EffectSummaryFacts, FeatureContract, ParsedContractSource,
};

const FEATURE: &str = "AF-BFG-FEATURE-0001";
const ROOT: &str = "PF-BFG-FIXTURE";
const PATH: &str = "data/behavior_realization_contracts.json";
const TEXT: &str = "{\"canonical\":true}\n";

fn declaration(id: &str, kind: CheckpointKind, outcome: Option<&str>, target: Option<&str>, index: usize) -> CheckpointDeclaration {
    CheckpointDeclaration::new(
        id.to_string(),
        FEATURE.to_string(),
        ROOT.to_string(),
        kind,
        outcome.map(str::to_string),
        target.map(|t| vec![CheckpointTransition::new(t.to_string(), None)]).unwrap_or_default(),
        "contract.json".to_string(),
        index,
    )
}

fn intended() -> IntendedBehavioralFlowGraph {
    let source = BehaviorSource::new(
        Some(ROOT.to_string()),
        Some("STD-FORTRESS-ENGINEERING".to_string()),
        Some("1.0.0-draft.1".to_string()),
        "sha256:ccg".to_string(),
        vec![FeatureOwnership::new(FEATURE.to_string(), ROOT.to_string())],
        vec![
            declaration("CHK-FLOW-ACTION", CheckpointKind::Action, None, Some("CHK-FLOW-DONE"), 0),
            declaration("CHK-FLOW-DONE", CheckpointKind::Terminal, Some("done"), None, 1),
            declaration("CHK-FLOW-START", CheckpointKind::Trigger, None, Some("CHK-FLOW-ACTION"), 2),
        ],
    );
    compile_intended_bfg(&source).expect("intended flow compiles")
}

fn authority() -> AnchorAuthority {
    AnchorAuthority {
        symbols: vec![
            ("sym::act".to_string(), ROOT.to_string()),
            ("sym::start".to_string(), ROOT.to_string()),
        ],
        nominal_types: vec![],
        module_paths: vec![(ROOT.to_string(), String::new()), ("PF-OTHER".to_string(), "other".to_string())],
        summaries: vec![EffectSummaryFacts {
            symbol: "sym::act".to_string(),
            transitive_effects: vec!["Filesystem".to_string()],
            input_receiver_state: None,
            output_receiver_state: None,
        }],
        transitions: vec![],
        operations: vec![],
    }
}

fn entry(symbol: &str) -> BehaviorAnchor {
    BehaviorAnchor::SymbolEntry { symbol: symbol.to_string() }
}

fn checkpoint(id: &str, anchors: Vec<BehaviorAnchor>) -> CheckpointContract {
    CheckpointContract { checkpoint: id.to_string(), anchors }
}

fn complete_feature() -> FeatureContract {
    FeatureContract {
        feature: FEATURE.to_string(),
        checkpoints: vec![
            checkpoint("CHK-FLOW-ACTION", vec![entry("sym::act")]),
            checkpoint("CHK-FLOW-DONE", vec![BehaviorAnchor::SymbolReturn { symbol: "sym::act".to_string(), boolean: None }]),
            checkpoint("CHK-FLOW-START", vec![entry("sym::start")]),
        ],
    }
}

fn document(features: Vec<FeatureContract>) -> ContractDocument {
    ContractDocument { schema: BEHAVIOR_REALIZATION_CONTRACT_SCHEMA.to_string(), schema_version: 1, features }
}

fn parsed(module: &str, path: &str, doc: ContractDocument) -> ParsedContractSource {
    ParsedContractSource {
        source: BehaviorRealizationContractSource::new(module.to_string(), path.to_string(), TEXT.to_string()),
        parsed: Ok(DecodedContract { document: doc, canonical: TEXT.to_string() }),
    }
}

fn resolve(sources: Vec<ParsedContractSource>) -> Result<fortress::behavioral_realization::contract::ResolvedBehaviorRealizationContracts, BehaviorRealizationContractError> {
    resolve_behavior_realization_contracts(&intended(), &authority(), sources)
}

#[test]
fn complete_opt_in_resolves_every_checkpoint() {
    let resolved = resolve(vec![parsed(ROOT, PATH, document(vec![complete_feature()]))]).expect("resolves");
    assert_eq!(resolved.features(), &[FEATURE.to_string()]);
    let checkpoints: Vec<&str> = resolved.checkpoints().iter().map(|c| c.checkpoint()).collect();
    assert_eq!(checkpoints, vec!["CHK-FLOW-ACTION", "CHK-FLOW-DONE", "CHK-FLOW-START"]);
    assert_eq!(resolved.checkpoints()[1].pointer(), "/features/0/checkpoints/1");
    assert_eq!(resolved.checkpoints()[2].declaring_module(), ROOT);
    assert_eq!(resolved.checkpoints()[2].source_path(), PATH);
    let expected = distributed_contract_digest(&[BehaviorRealizationContractSource::new(
        ROOT.to_string(),
        PATH.to_string(),
        TEXT.to_string(),
    )]);
    assert_eq!(resolved.digest(), expected);
    assert!(resolved.digest().starts_with("sha256:"));
}

#[test]
fn no_source_opts_nothing_in() {
    let resolved = resolve(vec![]).expect("empty authority resolves");
    assert!(resolved.features().is_empty());
    assert!(resolved.checkpoints().is_empty());
    assert_eq!(resolved.digest(), distributed_contract_digest(&[]));
}

#[test]
fn digest_follows_sorted_sources() {
    let a = || parsed(ROOT, "a.json", document(vec![]));
    let b = || parsed(ROOT, "b.json", document(vec![]));
    let first = resolve(vec![a(), b()]).expect("resolves");
    let second = resolve(vec![b(), a()]).expect("resolves");
    assert_eq!(first.digest(), second.digest());
    let sorted = distributed_contract_digest(&[
        BehaviorRealizationContractSource::new(ROOT.to_string(), "a.json".to_string(), TEXT.to_string()),
        BehaviorRealizationContractSource::new(ROOT.to_string(), "b.json".to_string(), TEXT.to_string()),
    ]);
    let reversed = distributed_contract_digest(&[
        BehaviorRealizationContractSource::new(ROOT.to_string(), "b.json".to_string(), TEXT.to_string()),
        BehaviorRealizationContractSource::new(ROOT.to_string(), "a.json".to_string(), TEXT.to_string()),
    ]);
    assert_eq!(first.digest(), sorted);
    assert_ne!(sorted, reversed);
}

#[test]
fn undecodable_document_is_invalid_json() {
    let source = ParsedContractSource {
        source: BehaviorRealizationContractSource::new(ROOT.to_string(), PATH.to_string(), "{".to_string()),
        parsed: Err("EOF while parsing".to_string()),
    };
    assert_eq!(
        resolve(vec![source]).unwrap_err(),
        BehaviorRealizationContractError::InvalidJson { path: PATH.to_string(), detail: "EOF while parsing".to_string() }
    );
}

#[test]
fn unsupported_schema_is_refused() {
    let mut doc = document(vec![complete_feature()]);
    doc.schema_version = 2;
    assert_eq!(
        resolve(vec![parsed(ROOT, PATH, doc)]).unwrap_err(),
        BehaviorRealizationContractError::UnsupportedSchema(PATH.to_string())
    );
}

#[test]
fn noncanonical_text_is_refused() {
    let mut source = parsed(ROOT, PATH, document(vec![complete_feature()]));
    if let Ok(decoded) = &mut source.parsed {
        decoded.canonical = "{}\n".to_string();
    }
    assert_eq!(resolve(vec![source]).unwrap_err(), BehaviorRealizationContractError::NonCanonical(PATH.to_string()));
}

#[test]
fn unknown_feature_is_refused() {
    let mut feature = complete_feature();
    feature.feature = "AF-BFG-FEATURE-9999".to_string();
    assert_eq!(
        resolve(vec![parsed(ROOT, PATH, document(vec![feature]))]).unwrap_err(),
        BehaviorRealizationContractError::UnknownFeature("AF-BFG-FEATURE-9999".to_string())
    );
}

#[test]
fn partial_opt_in_names_the_least_missing_checkpoint() {
    let mut feature = complete_feature();
    feature.checkpoints.remove(2);
    assert_eq!(
        resolve(vec![parsed(ROOT, PATH, document(vec![feature]))]).unwrap_err(),
        BehaviorRealizationContractError::MissingCheckpoint {
            feature: FEATURE.to_string(),
            checkpoint: "CHK-FLOW-START".to_string(),
        }
    );
}

#[test]
fn unsorted_anchors_are_refused() {
    let mut feature = complete_feature();
    feature.checkpoints[0].anchors = vec![entry("sym::start"), entry("sym::act")];
    assert_eq!(
        resolve(vec![parsed(ROOT, PATH, document(vec![feature]))]).unwrap_err(),
        BehaviorRealizationContractError::NonCanonicalOrder(format!("{PATH}/features/0/checkpoints/0/anchors"))
    );
}

#[test]
fn empty_anchors_are_refused() {
    let mut feature = complete_feature();
    feature.checkpoints[1].anchors = vec![];
    assert_eq!(
        resolve(vec![parsed(ROOT, PATH, document(vec![feature]))]).unwrap_err(),
        BehaviorRealizationContractError::EmptyAnchors("CHK-FLOW-DONE".to_string())
    );
}

#[test]
fn unknown_symbol_is_refused() {
    let mut feature = complete_feature();
    feature.checkpoints[0].anchors = vec![entry("sym::missing")];
    assert_eq!(
        resolve(vec![parsed(ROOT, PATH, document(vec![feature]))]).unwrap_err(),
        BehaviorRealizationContractError::UnknownSymbol("sym::missing".to_string())
    );
}

#[test]
fn unestablished_effect_is_refused() {
    let mut feature = complete_feature();
    feature.checkpoints[0].anchors =
        vec![BehaviorAnchor::Effect { effect: "Network".to_string(), symbol: "sym::act".to_string() }];
    assert_eq!(
        resolve(vec![parsed(ROOT, PATH, document(vec![feature]))]).unwrap_err(),
        BehaviorRealizationContractError::UnknownEffect { symbol: "sym::act".to_string(), effect: "Network".to_string() }
    );
}

#[test]
fn established_effect_is_accepted() {
    let mut feature = complete_feature();
    feature.checkpoints[0].anchors =
        vec![BehaviorAnchor::Effect { effect: "Filesystem".to_string(), symbol: "sym::act".to_string() }];
    assert!(resolve(vec![parsed(ROOT, PATH, document(vec![feature]))]).is_ok());
}

#[test]
fn unknown_checkpoint_is_refused() {
    let mut feature = complete_feature();
    feature.checkpoints.push(checkpoint("CHK-FLOW-ZZZ", vec![entry("sym::act")]));
    assert_eq!(
        resolve(vec![parsed(ROOT, PATH, document(vec![feature]))]).unwrap_err(),
        BehaviorRealizationContractError::UnknownCheckpoint {
            feature: FEATURE.to_string(),
            checkpoint: "CHK-FLOW-ZZZ".to_string(),
        }
    );
}

#[test]
fn unsorted_checkpoints_are_refused() {
    let mut feature = complete_feature();
    feature.checkpoints.swap(0, 1);
    assert_eq!(
        resolve(vec![parsed(ROOT, PATH, document(vec![feature]))]).unwrap_err(),
        BehaviorRealizationContractError::NonCanonicalOrder(format!("{PATH}/features/0/checkpoints"))
    );
}

#[test]
fn feature_authored_twice_is_a_duplicate() {
    let first = parsed(ROOT, "a.json", document(vec![complete_feature()]));
    let second = parsed(ROOT, "b.json", document(vec![complete_feature()]));
    assert_eq!(
        resolve(vec![second, first]).unwrap_err(),
        BehaviorRealizationContractError::DuplicateIdentity(FEATURE.to_string())
    );
}

#[test]
fn contract_outside_the_owner_subtree_is_foreign() {
    let auth = AnchorAuthority {
        module_paths: vec![(ROOT.to_string(), "root".to_string()), ("PF-OTHER".to_string(), "other".to_string())],
        ..authority()
    };
    let result = resolve_behavior_realization_contracts(
        &intended(),
        &auth,
        vec![parsed("PF-OTHER", PATH, document(vec![complete_feature()]))],
    );
    assert_eq!(
        result.unwrap_err(),
        BehaviorRealizationContractError::ForeignContractOwner { feature: FEATURE.to_string(), module: "PF-OTHER".to_string() }
    );
}
