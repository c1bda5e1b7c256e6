//! Snapshot certification: the evidence graph, the certification result and
//! the Verified BFG of one input.

use vstd::prelude::*;

use crate::codec::{sha256, sha256_identity_of};
use crate::json::{lemma_member_models, member_models, pretty_document, text, text_values, Json, JsonModel};
use crate::order::views;
use crate::text::{copy_text, copy_texts, is_strictly_sorted, lemma_seq_le_antisymmetric, strictly_sorted, texts};

use super::assemble::{
    obligation_node, obligation_nodes_exec, obligation_result, sort_obligations, sort_obligations_exec, statuses,
    summarize, summary_of, CertificationResult, ResultModel, CERTIFICATION_RESULT_SCHEMA,
};
use super::compile::{
    all_artifact_nodes, artifact_ids, artifact_obligations, artifact_phase, base_nodes, empty_artifact_kind,
    empty_rule_id, empty_test_id, make_node, ordered_artifacts, profile_node, rule_nodes, rule_obligations,
    rule_phase, semver, source_node, standard_node, suite_node, suite_phase, test_nodes, unexpected_rule,
    unexpected_rule_exec,
};
use super::evidence::{node_of, EvidenceClass, EvidenceNode, NodeModel};
use super::graph::{graph_document, graph_from, on_cycle, validation, EvidenceGraph, GraphModel, ProfileIdentity, ProfileModel, Validation};
use super::keyed::{item_keys, least_repeated_key, order_by_key, repeated_key};
use super::profile::{profile_error, suite_error, CERTIFICATION_PROFILE_SCHEMA_VERSION};
use super::requirements::{realization_obligations, realization_phase, requirement_obligations, requirement_phase};
use super::scenarios::{
    assertion_nodes, assertion_phase, binding_error, empty_assertion_field, empty_scenario_id, generated_obligations,
    generated_phase, ordered_assertions, scenario_nodes, validate_bindings,
};
use super::verified_bfg::{bfg_model, build_verified_bfg, BfgModel, VerifiedBehavioralFlowGraph};
use super::{
    aggregate_of, CertificationError, CertificationInput, CertificationObligation, CertificationStatus, ErrorModel,
    ObligationModel, TrustedAssertionInput, CERTIFICATION_SCHEMA_VERSION,
};

verus! {

/// The least key that repeats.
pub open spec fn least_key(keys: Seq<Seq<char>>) -> Seq<char> {
    choose|k: Seq<char>| least_repeated_key(keys, k)
}

proof fn lemma_least_key(keys: Seq<Seq<char>>, k: Seq<char>)
    requires
        least_repeated_key(keys, k),
    ensures
        least_key(keys) == k,
{
    let c = least_key(keys);
    assert(least_repeated_key(keys, c));
    let (i, j) = choose|i: int, j: int| 0 <= i < j < keys.len() && #[trigger] keys[i] == k && #[trigger] keys[j] == k;
    let (a, b) = choose|a: int, b: int| 0 <= a < b < keys.len() && #[trigger] keys[a] == c && #[trigger] keys[b] == c;
    assert(crate::text::seq_le(k, keys[a]));
    assert(crate::text::seq_le(c, keys[i]));
    lemma_seq_le_antisymmetric(k, c);
}

/// The error of a repeated key.
pub open spec fn duplicate_error(keys: Seq<Seq<char>>, make: spec_fn(Seq<char>) -> ErrorModel) -> Option<ErrorModel> {
    if repeated_key(keys) {
        Some(make(least_key(keys)))
    } else {
        None
    }
}

/// Why an input is refused while its source, Standard, profile, artifact,
/// suite, test and rule evidence is built, checked in order: the profile,
/// the suite evidence, the applicable rule order, the project and Standard
/// identities, repeated artifact kinds, empty artifact kinds, empty Test IDs,
/// rule evidence outside the applicable rules, repeated rule evidence, and
/// empty rule identities.
pub open spec fn front_refusal(i: CertificationInput) -> Option<ErrorModel> {
    if profile_error(i.profile) is Some {
        Some((profile_error(i.profile)->0)@)
    } else if suite_error(i.suite_execution) is Some {
        Some((suite_error(i.suite_execution)->0)@)
    } else if !strictly_sorted(texts(i.applicable_rules@)) {
        Some(ErrorModel::NonCanonicalApplicableRules)
    } else if i.project_id@.len() == 0 || i.standard.id@.len() == 0 {
        Some(ErrorModel::EmptyNodeField)
    } else if repeated_key(item_keys(i.artifacts@)) {
        Some(ErrorModel::DuplicateArtifact(least_key(item_keys(i.artifacts@))))
    } else if empty_artifact_kind(i) || empty_test_id(i) {
        Some(ErrorModel::EmptyNodeField)
    } else if unexpected_rule(i) is Some {
        Some(ErrorModel::UnexpectedRuleEvidence(unexpected_rule(i)->0))
    } else if repeated_key(item_keys(i.rules@)) {
        Some(ErrorModel::DuplicateRuleEvidence(least_key(item_keys(i.rules@))))
    } else if empty_rule_id(i) {
        Some(ErrorModel::EmptyNodeField)
    } else {
        None
    }
}

/// Why an input is refused while its Requirement, realization, generated
/// verification and trusted assertion evidence is built, checked in order:
/// repeated Requirements, repeated realizations, the verification bindings,
/// repeated generated obligations, empty scenario identities, repeated
/// trusted assertions, and empty assertion kinds or subjects.
pub open spec fn middle_refusal(i: CertificationInput) -> Option<ErrorModel> {
    if repeated_key(item_keys(i.requirements@)) {
        Some(ErrorModel::DuplicateRequirement(least_key(item_keys(i.requirements@))))
    } else if repeated_key(item_keys(i.behavioral_realizations@)) {
        Some(ErrorModel::DuplicateBehavioralRealization(least_key(item_keys(i.behavioral_realizations@))))
    } else if binding_error(i) is Some {
        binding_error(i)
    } else if repeated_key(item_keys(i.generated_verification@)) {
        Some(ErrorModel::DuplicateGeneratedVerification(least_key(item_keys(i.generated_verification@))))
    } else if empty_scenario_id(i) {
        Some(ErrorModel::EmptyNodeField)
    } else if repeated_key(item_keys(i.trusted_assertions@)) {
        Some(ErrorModel::DuplicateTrustedAssertion(least_key(item_keys(i.trusted_assertions@))))
    } else if empty_assertion_field(i) {
        Some(ErrorModel::EmptyNodeField)
    } else {
        None
    }
}

/// Why an input is refused before its evidence graph is validated: a front
/// or middle refusal, else an obligation with an empty subject.
pub open spec fn compile_refusal(i: CertificationInput) -> Option<ErrorModel> {
    if front_refusal(i) is Some {
        front_refusal(i)
    } else if middle_refusal(i) is Some {
        middle_refusal(i)
    } else if super::assemble::empty_obligation_subject(all_obligations(i)) {
        Some(ErrorModel::EmptyNodeField)
    } else {
        None
    }
}

/// Every obligation, ordered by kind and subject.
pub open spec fn all_obligations(i: CertificationInput) -> Seq<ObligationModel> {
    sort_obligations(
        artifact_obligations(i) + super::compile::rule_obligations(i) + requirement_obligations(i)
            + realization_obligations(i) + generated_obligations(i),
    )
}

/// The aggregate node of every obligation.
pub open spec fn obligation_models(i: CertificationInput) -> Seq<NodeModel> {
    all_obligations(i).map_values(|o: ObligationModel| obligation_node(profile_node(i).id, o))
}

/// The identities of nodes.
pub open spec fn ids_of(ns: Seq<NodeModel>) -> Seq<Seq<char>> {
    ns.map_values(|n: NodeModel| n.id)
}

/// The payload of the root node.
pub open spec fn root_payload(i: CertificationInput) -> JsonModel {
    let arts = ordered_artifacts(i);
    let nodes = all_artifact_nodes(i);
    JsonModel::Object(
        seq![
            ("certification_source_digest"@, JsonModel::Text(i.source_digest@)),
            ("profile"@, JsonModel::Text(i.profile.id@)),
            (
                "semantic_artifacts"@,
                JsonModel::Object(Seq::new(arts.len(), |k: int| (arts[k].kind@, JsonModel::Text(nodes[k].id)))),
            ),
            (
                "standard"@,
                JsonModel::Object(
                    seq![("edition"@, JsonModel::Text(i.standard.edition@)), ("id"@, JsonModel::Text(i.standard.id@))],
                ),
            ),
            ("test_execution_digest"@, JsonModel::Text(suite_node(i).id)),
            ("trusted_assertion_dependencies"@, JsonModel::Array(text_values(ids_of(assertion_nodes(i))))),
        ],
    )
}

/// The certification root: every obligation node and trusted assertion as
/// inputs, the aggregate status as result.
pub open spec fn root_node(i: CertificationInput) -> NodeModel {
    node_of(
        "certification_root"@,
        i.project_id@,
        obligation_result(aggregate_of(statuses(all_obligations(i)))),
        ids_of(obligation_models(i)) + ids_of(assertion_nodes(i)),
        "fortress-certification"@,
        semver(),
        EvidenceClass::Aggregate,
        root_payload(i),
    )
}

/// Every node of the certification, in the order they are produced.
pub open spec fn certification_nodes(i: CertificationInput) -> Seq<NodeModel> {
    seq![source_node(i), standard_node(i), profile_node(i)] + all_artifact_nodes(i) + seq![suite_node(i)]
        + test_nodes(i) + rule_nodes(i) + scenario_nodes(i) + assertion_nodes(i) + obligation_models(i) + seq![
        root_node(i),
    ]
}

/// The statement every certification graph carries.
pub open spec fn certification_provenance() -> Seq<Seq<char>> {
    seq!["Certification consumes upstream semantic conclusions without redefining them."@]
}

/// The evidence graph of an input.
pub open spec fn certification_graph(i: CertificationInput) -> GraphModel {
    graph_from(
        i.source_digest@,
        i.standard@,
        ProfileModel { id: i.profile.id@, version: CERTIFICATION_PROFILE_SCHEMA_VERSION },
        certification_nodes(i),
        ids_of(obligation_models(i)).push(root_node(i).id),
        certification_provenance(),
    )
}

/// The certification result of an input whose graph is `m`.
pub open spec fn certification_of(i: CertificationInput, m: GraphModel) -> ResultModel {
    let os = all_obligations(i);
    ResultModel {
        schema: CERTIFICATION_RESULT_SCHEMA@,
        schema_version: CERTIFICATION_SCHEMA_VERSION,
        profile: ProfileModel { id: i.profile.id@, version: CERTIFICATION_PROFILE_SCHEMA_VERSION },
        subject: i.source_digest@,
        status: aggregate_of(statuses(os)),
        certification_digest: root_node(i).id,
        evidence_graph_digest: sha256_identity_of(vstd::utf8::encode_utf8(pretty_document(graph_document(m)))),
        obligations: os,
        summary: summary_of(os, ordered_assertions(i).len()),
        trusted_assertion_dependencies: ordered_assertions(i).map_values(|a: TrustedAssertionInput| a.subject@),
    }
}

/// Complete deterministic certification products.
#[derive(Debug)]
pub struct CertificationProducts {
    /// Content-addressed evidence graph.
    pub evidence_graph: EvidenceGraph,
    /// Profile result.
    pub certification: CertificationResult,
    /// Evidence-aware behavioral projection.
    pub verified_bfg: VerifiedBehavioralFlowGraph,
}

/// What compiling an unrefused input gives: the products when its graph is
/// valid, else the graph's error.
pub open spec fn certified(i: CertificationInput, r: Result<CertificationProducts, CertificationError>) -> bool {
    let m = certification_graph(i);
    match validation(m) {
        Validation::Valid => r matches Ok(p) && p.evidence_graph@ == m && p.certification@ == certification_of(i, m)
            && p.verified_bfg@ == bfg_model(i, all_obligations(i), root_node(i).id),
        Validation::Invalid(e) => r matches Err(x) && x@ == e,
        Validation::Cyclic => r matches Err(x) && x matches CertificationError::Cycle(id) && exists|v: int|
            0 <= v < m.nodes.len() && on_cycle(m.nodes, v) && #[trigger] m.nodes[v].id == id@,
    }
}

/// Appends every node of `more` to `nodes`.
fn extend_nodes(nodes: &mut Vec<EvidenceNode>, more: Vec<EvidenceNode>)
    ensures
        views(final(nodes)@) == views(old(nodes)@) + views(more@),
{
    let ghost a = nodes@;
    let ghost b = more@;
    let mut rest = more;
    nodes.append(&mut rest);
    assert(views(nodes@) =~= views(a) + views(b));
}

/// The evidence built before the Requirements.
struct FrontEvidence {
    source: EvidenceNode,
    standard: EvidenceNode,
    profile: EvidenceNode,
    artifacts: Vec<EvidenceNode>,
    artifact_refs: Vec<(String, String)>,
    artifact_obligations: Vec<CertificationObligation>,
    suite: EvidenceNode,
    tests: Vec<EvidenceNode>,
    test_refs: Vec<(String, String)>,
    rules: Vec<EvidenceNode>,
    rule_obligations: Vec<CertificationObligation>,
}

/// Each artifact kind in kind order with the identity of its node.
spec fn artifact_index(i: CertificationInput, refs: Seq<(String, String)>) -> bool {
    &&& refs.len() == ordered_artifacts(i).len()
    &&& forall|u: int| 0 <= u < refs.len() ==> #[trigger] refs[u].0@ == ordered_artifacts(i)[u].kind@
    &&& forall|u: int| 0 <= u < refs.len() ==> #[trigger] refs[u].1@ == all_artifact_nodes(i)[u].id
}

spec fn front_built(i: CertificationInput, f: FrontEvidence) -> bool {
    &&& f.source@ == source_node(i)
    &&& f.standard@ == standard_node(i)
    &&& f.profile@ == profile_node(i)
    &&& views(f.artifacts@) == all_artifact_nodes(i)
    &&& artifact_index(i, f.artifact_refs@)
    &&& views(f.artifact_obligations@) == artifact_obligations(i)
    &&& f.suite@ == suite_node(i)
    &&& views(f.tests@) == test_nodes(i)
    &&& super::requirements::test_index(i, f.test_refs@)
    &&& views(f.rules@) == rule_nodes(i)
    &&& views(f.rule_obligations@) == rule_obligations(i)
}

fn artifact_node_ids(i: &CertificationInput, refs: &Vec<(String, String)>) -> (r: Vec<String>)
    requires
        artifact_index(*i, refs@),
        all_artifact_nodes(*i).len() == ordered_artifacts(*i).len(),
    ensures
        texts(r@) == artifact_ids(*i),
{
    let mut out: Vec<String> = Vec::new();
    let mut k: usize = 0;
    while k < refs.len()
        invariant
            artifact_index(*i, refs@),
            all_artifact_nodes(*i).len() == ordered_artifacts(*i).len(),
            k <= refs@.len(),
            texts(out@) == artifact_ids(*i).take(k as int),
        decreases refs.len() - k,
    {
        let ghost old = out@;
        out.push(copy_text(refs[k].1.as_str()));
        assert(texts(out@) =~= texts(old).push(refs@[k as int].1@));
        assert(artifact_ids(*i).take(k + 1) =~= artifact_ids(*i).take(k as int).push(artifact_ids(*i)[k as int]));
        k = k + 1;
    }
    assert(artifact_ids(*i).take(refs@.len() as int) =~= artifact_ids(*i));
    out
}

/// Builds the source, Standard, profile, artifact, suite, test and rule
/// evidence.
fn front_stage(i: &CertificationInput) -> (r: Result<FrontEvidence, CertificationError>)
    ensures
        match front_refusal(*i) {
            Some(e) => r matches Err(x) && x@ == e,
            None => r matches Ok(f) && front_built(*i, f),
        },
{
    match i.profile.validate() {
        Ok(()) => {},
        Err(e) => {
            return Err(e);
        },
    }
    match i.suite_execution.validate() {
        Ok(()) => {},
        Err(e) => {
            return Err(e);
        },
    }
    if !is_strictly_sorted(&i.applicable_rules) {
        return Err(CertificationError::NonCanonicalApplicableRules);
    }
    let (source, standard, profile) = match base_nodes(i) {
        Ok(t) => t,
        Err(e) => {
            return Err(e);
        },
    };
    let artifact_order = match order_by_key(i.artifacts.as_slice()) {
        Ok(p) => p,
        Err(k) => {
            proof {
                lemma_least_key(item_keys(i.artifacts@), k@);
            }
            return Err(CertificationError::DuplicateArtifact(k));
        },
    };
    let (artifacts, artifact_refs, artifact_obligations) = match artifact_phase(i, &artifact_order, source.id()) {
        Ok(t) => t,
        Err(e) => {
            return Err(e);
        },
    };
    let (suite, tests, test_refs) = match suite_phase(i, source.id()) {
        Ok(t) => t,
        Err(e) => {
            return Err(e);
        },
    };
    match unexpected_rule_exec(i) {
        Some(x) => {
            return Err(CertificationError::UnexpectedRuleEvidence(x));
        },
        None => {},
    }
    let rule_order = match order_by_key(i.rules.as_slice()) {
        Ok(p) => p,
        Err(k) => {
            proof {
                lemma_least_key(item_keys(i.rules@), k@);
            }
            return Err(CertificationError::DuplicateRuleEvidence(k));
        },
    };
    proof {
        super::compile::lemma_artifact_counts(*i);
    }
    let ids = artifact_node_ids(i, &artifact_refs);
    let (rules, rule_obligations) = match rule_phase(i, &rule_order, &ids, standard.id()) {
        Ok(t) => t,
        Err(e) => {
            return Err(e);
        },
    };
    Ok(
        FrontEvidence {
            source,
            standard,
            profile,
            artifacts,
            artifact_refs,
            artifact_obligations,
            suite,
            tests,
            test_refs,
            rules,
            rule_obligations,
        },
    )
}

/// The evidence built from Requirements on.
struct MiddleEvidence {
    requirement_obligations: Vec<CertificationObligation>,
    realization_obligations: Vec<CertificationObligation>,
    scenarios: Vec<EvidenceNode>,
    generated_obligations: Vec<CertificationObligation>,
    assertions: Vec<EvidenceNode>,
}

spec fn middle_built(i: CertificationInput, m: MiddleEvidence) -> bool {
    &&& views(m.requirement_obligations@) == requirement_obligations(i)
    &&& views(m.realization_obligations@) == realization_obligations(i)
    &&& views(m.scenarios@) == scenario_nodes(i)
    &&& views(m.generated_obligations@) == generated_obligations(i)
    &&& views(m.assertions@) == assertion_nodes(i)
}

/// Builds the Requirement, realization, generated verification and trusted
/// assertion evidence.
fn middle_stage(i: &CertificationInput, f: &FrontEvidence) -> (r: Result<MiddleEvidence, CertificationError>)
    requires
        front_built(*i, *f),
    ensures
        match middle_refusal(*i) {
            Some(e) => r matches Err(x) && x@ == e,
            None => r matches Ok(m) && middle_built(*i, m),
        },
{
    let order = match order_by_key(i.requirements.as_slice()) {
        Ok(p) => p,
        Err(k) => {
            proof {
                lemma_least_key(item_keys(i.requirements@), k@);
            }
            return Err(CertificationError::DuplicateRequirement(k));
        },
    };
    let requirement_obligations = requirement_phase(i, &order, &f.test_refs);
    let order = match order_by_key(i.behavioral_realizations.as_slice()) {
        Ok(p) => p,
        Err(k) => {
            proof {
                lemma_least_key(item_keys(i.behavioral_realizations@), k@);
            }
            return Err(CertificationError::DuplicateBehavioralRealization(k));
        },
    };
    let realization_obligations = realization_phase(i, &order, &f.artifact_refs);
    match validate_bindings(i) {
        Ok(()) => {},
        Err(e) => {
            return Err(e);
        },
    }
    let order = match order_by_key(i.generated_verification.as_slice()) {
        Ok(p) => p,
        Err(k) => {
            proof {
                lemma_least_key(item_keys(i.generated_verification@), k@);
            }
            return Err(CertificationError::DuplicateGeneratedVerification(k));
        },
    };
    let (scenarios, generated_obligations) = match generated_phase(i, &order, &f.test_refs) {
        Ok(t) => t,
        Err(e) => {
            return Err(e);
        },
    };
    let order = match order_by_key(i.trusted_assertions.as_slice()) {
        Ok(p) => p,
        Err(k) => {
            proof {
                lemma_least_key(item_keys(i.trusted_assertions@), k@);
            }
            return Err(CertificationError::DuplicateTrustedAssertion(k));
        },
    };
    let assertions = match assertion_phase(i, &order, f.source.id()) {
        Ok(v) => v,
        Err(e) => {
            return Err(e);
        },
    };
    Ok(
        MiddleEvidence {
            requirement_obligations,
            realization_obligations,
            scenarios,
            generated_obligations,
            assertions,
        },
    )
}

fn copy_obligations(v: &Vec<CertificationObligation>) -> (r: Vec<CertificationObligation>)
    ensures
        views(r@) == views(v@),
{
    let mut out: Vec<CertificationObligation> = Vec::new();
    let mut k: usize = 0;
    while k < v.len()
        invariant
            k <= v@.len(),
            views(out@) == views(v@).take(k as int),
        decreases v.len() - k,
    {
        let ghost old = out@;
        out.push(v[k].duplicate());
        proof {
            crate::order::lemma_views_push_seq(old, out@.last());
            assert(out@ == old.push(out@.last()));
            assert(views(v@).take(k + 1) =~= views(v@).take(k as int).push(v@[k as int]@));
        }
        k = k + 1;
    }
    assert(views(v@).take(v@.len() as int) =~= views(v@));
    out
}

/// Every obligation, ordered by kind and subject.
fn collect_obligations(i: &CertificationInput, f: &FrontEvidence, m: &MiddleEvidence) -> (r: Vec<
    CertificationObligation,
>)
    requires
        front_built(*i, *f),
        middle_built(*i, *m),
    ensures
        views(r@) == all_obligations(*i),
{
    let ghost combined = artifact_obligations(*i) + rule_obligations(*i) + requirement_obligations(*i)
        + realization_obligations(*i) + generated_obligations(*i);
    let mut obligations = copy_obligations(&f.artifact_obligations);
    let ghost a0 = obligations@;
    let mut more = copy_obligations(&f.rule_obligations);
    let ghost b0 = more@;
    obligations.append(&mut more);
    assert(views(obligations@) =~= views(a0) + views(b0));
    let ghost a1 = obligations@;
    let mut more = copy_obligations(&m.requirement_obligations);
    let ghost b1 = more@;
    obligations.append(&mut more);
    assert(views(obligations@) =~= views(a1) + views(b1));
    let ghost a2 = obligations@;
    let mut more = copy_obligations(&m.realization_obligations);
    let ghost b2 = more@;
    obligations.append(&mut more);
    assert(views(obligations@) =~= views(a2) + views(b2));
    let ghost a3 = obligations@;
    let mut more = copy_obligations(&m.generated_obligations);
    let ghost b3 = more@;
    obligations.append(&mut more);
    assert(views(obligations@) =~= views(a3) + views(b3));
    assert(views(obligations@) =~= combined);
    sort_obligations_exec(obligations)
}

/// The identities of nodes.
fn node_ids(nodes: &Vec<EvidenceNode>) -> (r: Vec<String>)
    ensures
        texts(r@) == ids_of(views(nodes@)),
{
    let mut out: Vec<String> = Vec::new();
    let mut k: usize = 0;
    while k < nodes.len()
        invariant
            k <= nodes@.len(),
            texts(out@) == ids_of(views(nodes@)).take(k as int),
        decreases nodes.len() - k,
    {
        let ghost old = out@;
        out.push(copy_text(nodes[k].id()));
        assert(texts(out@) =~= texts(old).push(nodes@[k as int]@.id));
        assert(ids_of(views(nodes@)).take(k + 1) =~= ids_of(views(nodes@)).take(k as int).push(
            ids_of(views(nodes@))[k as int],
        ));
        k = k + 1;
    }
    assert(ids_of(views(nodes@)).take(nodes@.len() as int) =~= ids_of(views(nodes@)));
    out
}

fn root_payload_json(
    i: &CertificationInput,
    artifact_refs: &Vec<(String, String)>,
    suite_id: &str,
    assertion_ids: &Vec<String>,
) -> (r: Json)
    requires
        artifact_index(*i, artifact_refs@),
        suite_id@ == suite_node(*i).id,
        texts(assertion_ids@) == ids_of(assertion_nodes(*i)),
    ensures
        r@ == root_payload(*i),
{
    let ghost arts = ordered_artifacts(*i);
    let ghost nodes = all_artifact_nodes(*i);
    let mut artifacts: Vec<(String, Json)> = Vec::new();
    let mut k: usize = 0;
    while k < artifact_refs.len()
        invariant
            artifact_index(*i, artifact_refs@),
            arts == ordered_artifacts(*i),
            nodes == all_artifact_nodes(*i),
            k <= artifact_refs@.len(),
            member_models(artifacts@) == Seq::new(k as nat, |x: int| (arts[x].kind@, JsonModel::Text(nodes[x].id))),
        decreases artifact_refs.len() - k,
    {
        let ghost old = artifacts@;
        artifacts.push((copy_text(artifact_refs[k].0.as_str()), text(artifact_refs[k].1.as_str())));
        proof {
            lemma_member_models(old);
            lemma_member_models(artifacts@);
            let want = Seq::new((k + 1) as nat, |x: int| (arts[x].kind@, JsonModel::Text(nodes[x].id)));
            assert forall|x: int| 0 <= x < k + 1 implies member_models(artifacts@)[x] == want[x] by {
                if x < k {
                    assert(artifacts@[x] == old[x]);
                    assert(member_models(old)[x] == want[x]);
                } else {
                    assert(artifact_refs@[x].0@ == arts[x].kind@);
                    assert(artifact_refs@[x].1@ == nodes[x].id);
                }
            }
            assert(member_models(artifacts@) =~= want);
        }
        k = k + 1;
    }
    let standard = vec![
        (String::from_str("edition"), text(i.standard.edition.as_str())),
        (String::from_str("id"), text(i.standard.id.as_str())),
    ];
    proof {
        lemma_member_models(standard@);
        assert(member_models(standard@) =~= seq![
            ("edition"@, JsonModel::Text(i.standard.edition@)),
            ("id"@, JsonModel::Text(i.standard.id@)),
        ]);
    }
    let members = vec![
        (String::from_str("certification_source_digest"), text(i.source_digest.as_str())),
        (String::from_str("profile"), text(i.profile.id.as_str())),
        (String::from_str("semantic_artifacts"), Json::Object(artifacts)),
        (String::from_str("standard"), Json::Object(standard)),
        (String::from_str("test_execution_digest"), text(suite_id)),
        (String::from_str("trusted_assertion_dependencies"), crate::json::text_array(assertion_ids.as_slice())),
    ];
    proof {
        lemma_member_models(members@);
        assert(assertion_ids@.map_values(|x: String| x@) =~= texts(assertion_ids@));
        assert(member_models(members@) =~= seq![
            ("certification_source_digest"@, JsonModel::Text(i.source_digest@)),
            ("profile"@, JsonModel::Text(i.profile.id@)),
            (
                "semantic_artifacts"@,
                JsonModel::Object(Seq::new(arts.len(), |x: int| (arts[x].kind@, JsonModel::Text(nodes[x].id)))),
            ),
            (
                "standard"@,
                JsonModel::Object(
                    seq![("edition"@, JsonModel::Text(i.standard.edition@)), ("id"@, JsonModel::Text(i.standard.id@))],
                ),
            ),
            ("test_execution_digest"@, JsonModel::Text(suite_node(*i).id)),
            ("trusted_assertion_dependencies"@, JsonModel::Array(text_values(ids_of(assertion_nodes(*i))))),
        ]);
    }
    Json::Object(members)
}

/// The subjects of the trusted assertions, in subject order.
fn assertion_subjects(i: &CertificationInput, assertions: &Vec<EvidenceNode>) -> (r: Vec<String>)
    requires
        views(assertions@) == assertion_nodes(*i),
    ensures
        texts(r@) == ordered_assertions(*i).map_values(|a: TrustedAssertionInput| a.subject@),
{
    let ghost want = ordered_assertions(*i).map_values(|a: TrustedAssertionInput| a.subject@);
    let mut subjects: Vec<String> = Vec::new();
    let mut k: usize = 0;
    while k < assertions.len()
        invariant
            views(assertions@) == assertion_nodes(*i),
            want == ordered_assertions(*i).map_values(|a: TrustedAssertionInput| a.subject@),
            k <= assertions@.len(),
            texts(subjects@) == want.take(k as int),
        decreases assertions.len() - k,
    {
        let ghost old = subjects@;
        subjects.push(copy_text(assertions[k].subject()));
        proof {
            assert(assertion_nodes(*i).len() == ordered_assertions(*i).len());
            assert(views(assertions@)[k as int] == assertions@[k as int]@);
            assert(assertion_nodes(*i)[k as int] == super::scenarios::assertion_node(*i, ordered_assertions(*i)[k as int]));
            assert(texts(subjects@) =~= texts(old).push(want[k as int]));
            assert(want.take(k + 1) =~= want.take(k as int).push(want[k as int]));
        }
        k = k + 1;
    }
    proof {
        assert(assertion_nodes(*i).len() == ordered_assertions(*i).len());
        assert(want.take(assertions@.len() as int) =~= want);
    }
    subjects
}

/// The aggregate status of obligations.
fn aggregate_status(obligations: &Vec<CertificationObligation>) -> (r: CertificationStatus)
    ensures
        r == aggregate_of(statuses(views(obligations@))),
{
    let mut states: Vec<CertificationStatus> = Vec::new();
    let mut k: usize = 0;
    while k < obligations.len()
        invariant
            k <= obligations@.len(),
            states@ == statuses(views(obligations@)).take(k as int),
        decreases obligations.len() - k,
    {
        states.push(obligations[k].status);
        assert(statuses(views(obligations@)).take(k + 1) =~= statuses(views(obligations@)).take(k as int).push(
            obligations@[k as int].status,
        ));
        k = k + 1;
    }
    assert(statuses(views(obligations@)).take(obligations@.len() as int) =~= statuses(views(obligations@)));
    CertificationStatus::aggregate(states.as_slice())
}

/// Builds the certification root.
fn root_stage(
    i: &CertificationInput,
    f: &FrontEvidence,
    obligations: &Vec<CertificationObligation>,
    obligation_ids: &Vec<String>,
    assertion_ids: &Vec<String>,
) -> (r: Result<EvidenceNode, CertificationError>)
    requires
        front_refusal(*i) is None,
        front_built(*i, *f),
        views(obligations@) == all_obligations(*i),
        texts(obligation_ids@) == ids_of(obligation_models(*i)),
        texts(assertion_ids@) == ids_of(assertion_nodes(*i)),
    ensures
        r matches Ok(n) && n@ == root_node(*i),
{
    let status = aggregate_status(obligations);
    let mut root_inputs = copy_texts(obligation_ids.as_slice());
    let mut more = copy_texts(assertion_ids.as_slice());
    let ghost r0 = root_inputs@;
    let ghost m0 = more@;
    root_inputs.append(&mut more);
    assert(texts(root_inputs@) =~= texts(r0) + texts(m0));
    let payload = root_payload_json(i, &f.artifact_refs, f.suite.id(), assertion_ids);
    proof {
        reveal_strlit("certification_root");
        reveal_strlit("fortress-certification");
        reveal_strlit("1.0.0");
    }
    make_node(
        "certification_root",
        i.project_id.as_str(),
        super::assemble::obligation_result_exec(status),
        root_inputs,
        "fortress-certification",
        super::CERTIFICATION_SEMANTIC_VERSION,
        EvidenceClass::Aggregate,
        payload,
    )
}

/// Builds and validates the evidence graph from every node.
fn graph_stage(
    i: &CertificationInput,
    f: FrontEvidence,
    m: MiddleEvidence,
    obligation_nodes: Vec<EvidenceNode>,
    obligation_ids: &Vec<String>,
    root: EvidenceNode,
) -> (r: Result<EvidenceGraph, CertificationError>)
    requires
        front_built(*i, f),
        middle_built(*i, m),
        views(obligation_nodes@) == obligation_models(*i),
        texts(obligation_ids@) == ids_of(obligation_models(*i)),
        root@ == root_node(*i),
    ensures
        super::graph::built(certification_graph(*i), r),
{
    let root_id = copy_text(root.id());
    let FrontEvidence { source, standard, profile, artifacts, suite, tests, rules, .. } = f;
    let MiddleEvidence { scenarios, assertions, .. } = m;
    let ghost s0 = seq![source_node(*i), standard_node(*i), profile_node(*i)];
    let ghost s1 = s0 + all_artifact_nodes(*i);
    let ghost s2 = s1 + seq![suite_node(*i)];
    let ghost s3 = s2 + test_nodes(*i);
    let ghost s4 = s3 + rule_nodes(*i);
    let ghost s5 = s4 + scenario_nodes(*i);
    let ghost s6 = s5 + assertion_nodes(*i);
    let ghost s7 = s6 + obligation_models(*i);
    let ghost s8 = s7 + seq![root_node(*i)];
    assert(s8 == certification_nodes(*i));
    let mut nodes: Vec<EvidenceNode> = Vec::new();
    nodes.push(source);
    nodes.push(standard);
    nodes.push(profile);
    assert(views(nodes@) =~= s0);
    extend_nodes(&mut nodes, artifacts);
    assert(views(nodes@) == s1);
    let ghost n1 = nodes@;
    nodes.push(suite);
    proof {
        crate::order::lemma_views_push_seq(n1, nodes@.last());
        assert(nodes@ == n1.push(nodes@.last()));
        assert(views(nodes@) =~= s2);
    }
    extend_nodes(&mut nodes, tests);
    assert(views(nodes@) == s3);
    extend_nodes(&mut nodes, rules);
    assert(views(nodes@) == s4);
    extend_nodes(&mut nodes, scenarios);
    assert(views(nodes@) == s5);
    extend_nodes(&mut nodes, assertions);
    assert(views(nodes@) == s6);
    extend_nodes(&mut nodes, obligation_nodes);
    assert(views(nodes@) == s7);
    let ghost n2 = nodes@;
    nodes.push(root);
    proof {
        crate::order::lemma_views_push_seq(n2, nodes@.last());
        assert(nodes@ == n2.push(nodes@.last()));
        assert(views(nodes@) =~= s8);
    }
    let mut roots = copy_texts(obligation_ids.as_slice());
    let ghost roots0 = roots@;
    roots.push(root_id);
    assert(texts(roots@) =~= texts(roots0).push(root_node(*i).id));
    let provenance = vec![String::from_str(
        "Certification consumes upstream semantic conclusions without redefining them.",
    )];
    assert(texts(provenance@) =~= certification_provenance());
    EvidenceGraph::new(
        copy_text(i.source_digest.as_str()),
        i.standard.duplicate(),
        ProfileIdentity { id: copy_text(i.profile.id.as_str()), version: CERTIFICATION_PROFILE_SCHEMA_VERSION },
        nodes,
        roots,
        provenance,
    )
}

/// Compiles the evidence graph, the certification result and the Verified
/// BFG of an input.
pub fn compile_certification(i: &CertificationInput) -> (r: Result<CertificationProducts, CertificationError>)
    ensures
        match compile_refusal(*i) {
            Some(e) => r matches Err(x) && x@ == e,
            None => certified(*i, r),
        },
{
    let f = match front_stage(i) {
        Ok(f) => f,
        Err(e) => {
            return Err(e);
        },
    };
    let m = match middle_stage(i, &f) {
        Ok(m) => m,
        Err(e) => {
            return Err(e);
        },
    };
    let obligations = collect_obligations(i, &f, &m);
    let obligation_nodes = match obligation_nodes_exec(&obligations, f.profile.id()) {
        Ok(v) => v,
        Err(e) => {
            return Err(e);
        },
    };
    let obligation_ids = node_ids(&obligation_nodes);
    let assertion_ids = node_ids(&m.assertions);
    let subjects = assertion_subjects(i, &m.assertions);
    let root = match root_stage(i, &f, &obligations, &obligation_ids, &assertion_ids) {
        Ok(n) => n,
        Err(e) => {
            return Err(e);
        },
    };
    let root_id = copy_text(root.id());
    let verified_bfg = build_verified_bfg(i, &obligations, &f.test_refs, root_id.as_str());
    let status = aggregate_status(&obligations);
    let graph = match graph_stage(i, f, m, obligation_nodes, &obligation_ids, root) {
        Ok(g) => g,
        Err(e) => {
            return Err(e);
        },
    };
    let pretty = graph.to_json_pretty();
    let graph_digest = sha256(pretty.as_str().as_bytes());
    let summary = summarize(&obligations, assertion_ids.len());
    let certification = CertificationResult::from_parts(
        ProfileIdentity { id: copy_text(i.profile.id.as_str()), version: CERTIFICATION_PROFILE_SCHEMA_VERSION },
        copy_text(i.source_digest.as_str()),
        status,
        root_id,
        graph_digest,
        obligations,
        summary,
        subjects,
    );
    Ok(CertificationProducts { evidence_graph: graph, certification, verified_bfg })
}

} // verus!
