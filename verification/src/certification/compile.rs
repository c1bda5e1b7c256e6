//! The evidence nodes and obligations of one certification, phase by phase.

use vstd::prelude::*;

use crate::json::{lemma_member_models, member_models, text, text_array, text_values, Json, JsonModel};
use crate::text::{concat, copy_text, copy_texts, text_eq, texts, texts_contain};

use super::evidence::{node_fields_present, node_of, EvidenceClass, EvidenceNode, EvidenceResult, NodeModel};
use super::keyed::{in_key_order, item_keys, sorted_positions};
use super::{
    ArtifactEvidenceInput, CertificationError, CertificationInput, CertificationObligation,
    CertificationObligationKind, CertificationStatus, ObligationModel, CERTIFICATION_SEMANTIC_VERSION,
};

verus! {

/// The semantic version every certification node is produced under.
pub open spec fn semver() -> Seq<char> {
    CERTIFICATION_SEMANTIC_VERSION@
}

/// A one-member object.
pub open spec fn single_member(key: Seq<char>, value: JsonModel) -> JsonModel {
    JsonModel::Object(seq![(key, value)])
}

fn single_member_json(key: &str, value: Json) -> (r: Json)
    ensures
        r@ == single_member(key@, value@),
{
    let members = vec![(String::from_str(key), value)];
    proof {
        lemma_member_models(members@);
        assert(member_models(members@) =~= seq![(key@, members@[0].1@)]);
    }
    Json::Object(members)
}

/// Builds a node from borrowed fields.
pub fn make_node(
    kind: &str,
    subject: &str,
    result: EvidenceResult,
    inputs: Vec<String>,
    producer: &str,
    producer_semantic_version: &str,
    evidence_class: EvidenceClass,
    payload: Json,
) -> (r: Result<EvidenceNode, CertificationError>)
    ensures
        r is Ok <==> node_fields_present(kind@, subject@, producer@, producer_semantic_version@),
        r is Err ==> r == Err::<EvidenceNode, CertificationError>(CertificationError::EmptyNodeField),
        r matches Ok(n) ==> n@ == node_of(
            kind@,
            subject@,
            result,
            texts(inputs@),
            producer@,
            producer_semantic_version@,
            evidence_class,
            payload@,
        ),
{
    EvidenceNode::new(
        String::from_str(kind),
        String::from_str(subject),
        result,
        inputs,
        String::from_str(producer),
        String::from_str(producer_semantic_version),
        evidence_class,
        payload,
    )
}

// ---------------------------------------------------------------------------
// The source, Standard and profile nodes.

/// The node binding the certification source snapshot.
pub open spec fn source_node(i: CertificationInput) -> NodeModel {
    node_of(
        "certification_source_snapshot"@,
        i.project_id@,
        EvidenceResult::Observed,
        Seq::empty(),
        "fortress-certification-source"@,
        semver(),
        EvidenceClass::Observation,
        single_member("certification_source_digest"@, JsonModel::Text(i.source_digest@)),
    )
}

/// The node of the Standard.
pub open spec fn standard_node(i: CertificationInput) -> NodeModel {
    node_of(
        "standard"@,
        i.standard.id@,
        EvidenceResult::Pass,
        seq![source_node(i).id],
        "fortress-standard-registry"@,
        semver(),
        EvidenceClass::Authority,
        single_member("edition"@, JsonModel::Text(i.standard.edition@)),
    )
}

/// The node of the certification profile.
pub open spec fn profile_node(i: CertificationInput) -> NodeModel {
    node_of(
        "certification_profile"@,
        i.profile.id@,
        EvidenceResult::Pass,
        seq![standard_node(i).id],
        "fortress-certification"@,
        semver(),
        EvidenceClass::Authority,
        super::profile::profile_document(i.profile),
    )
}

/// Builds the source, Standard and profile nodes.
pub fn base_nodes(i: &CertificationInput) -> (r: Result<(EvidenceNode, EvidenceNode, EvidenceNode), CertificationError>)
    requires
        i.profile.id@.len() > 0,
    ensures
        i.project_id@.len() == 0 || i.standard.id@.len() == 0 ==> r == Err::<
            (EvidenceNode, EvidenceNode, EvidenceNode),
            CertificationError,
        >(CertificationError::EmptyNodeField),
        i.project_id@.len() > 0 && i.standard.id@.len() > 0 ==> (r matches Ok(t) && t.0@ == source_node(*i) && t.1@
            == standard_node(*i) && t.2@ == profile_node(*i)),
{
    proof {
        reveal_strlit("certification_source_snapshot");
        reveal_strlit("fortress-certification-source");
        reveal_strlit("standard");
        reveal_strlit("fortress-standard-registry");
        reveal_strlit("certification_profile");
        reveal_strlit("fortress-certification");
        reveal_strlit("1.0.0");
    }
    let source = make_node(
        "certification_source_snapshot",
        i.project_id.as_str(),
        EvidenceResult::Observed,
        Vec::new(),
        "fortress-certification-source",
        CERTIFICATION_SEMANTIC_VERSION,
        EvidenceClass::Observation,
        single_member_json("certification_source_digest", text(i.source_digest.as_str())),
    )?;
    proof {
        assert(texts(Seq::<String>::empty()) =~= Seq::<Seq<char>>::empty());
    }
    let mut refs = Vec::new();
    refs.push(copy_text(source.id()));
    proof {
        assert(texts(refs@) =~= seq![source@.id]);
    }
    let standard = make_node(
        "standard",
        i.standard.id.as_str(),
        EvidenceResult::Pass,
        refs,
        "fortress-standard-registry",
        CERTIFICATION_SEMANTIC_VERSION,
        EvidenceClass::Authority,
        single_member_json("edition", text(i.standard.edition.as_str())),
    )?;
    let mut refs = Vec::new();
    refs.push(copy_text(standard.id()));
    proof {
        assert(texts(refs@) =~= seq![standard@.id]);
    }
    let profile = make_node(
        "certification_profile",
        i.profile.id.as_str(),
        EvidenceResult::Pass,
        refs,
        "fortress-certification",
        CERTIFICATION_SEMANTIC_VERSION,
        EvidenceClass::Authority,
        i.profile.to_json(),
    )?;
    Ok((source, standard, profile))
}

// ---------------------------------------------------------------------------
// Semantic artifacts.

/// The artifacts in kind order.
pub open spec fn ordered_artifacts(i: CertificationInput) -> Seq<ArtifactEvidenceInput> {
    in_key_order(i.artifacts@)
}

/// The first of the first `m` artifacts with kind `k`, if any.
pub open spec fn first_kind(arts: Seq<ArtifactEvidenceInput>, k: Seq<char>, m: int) -> Option<int>
    decreases m,
{
    if m <= 0 {
        None
    } else {
        match first_kind(arts, k, m - 1) {
            Some(u) => Some(u),
            None => if arts[m - 1].kind@ == k {
                Some(m - 1)
            } else {
                None
            },
        }
    }
}

/// The node identities of the upstream kinds that name an earlier artifact.
pub open spec fn known_refs(arts: Seq<ArtifactEvidenceInput>, earlier: Seq<NodeModel>, refs: Seq<Seq<char>>) -> Seq<
    Seq<char>,
>
    decreases refs.len(),
{
    if refs.len() == 0 {
        Seq::empty()
    } else {
        known_refs(arts, earlier, refs.drop_last()) + match first_kind(arts, refs.last(), earlier.len() as int) {
            Some(u) => seq![earlier[u].id],
            None => Seq::empty(),
        }
    }
}

/// The payload of an artifact node.
pub open spec fn artifact_payload(a: ArtifactEvidenceInput) -> JsonModel {
    JsonModel::Object(
        seq![
            ("artifact_digest"@, JsonModel::Text(a.digest@)),
            ("current"@, JsonModel::Bool(a.current)),
            ("schema"@, JsonModel::Text(a.schema@)),
            ("unsupported"@, JsonModel::Array(text_values(texts(a.unsupported@)))),
        ],
    )
}

/// The node of one artifact, given the nodes of the artifacts before it.
pub open spec fn artifact_node(i: CertificationInput, a: ArtifactEvidenceInput, earlier: Seq<NodeModel>) -> NodeModel {
    node_of(
        "semantic_artifact:"@ + a.kind@,
        a.kind@,
        if a.current {
            EvidenceResult::Pass
        } else {
            EvidenceResult::Observed
        },
        known_refs(ordered_artifacts(i), earlier, texts(a.input_refs@)).push(source_node(i).id),
        "fortress-semantic-artifact"@,
        semver(),
        a.evidence_class,
        artifact_payload(a),
    )
}

/// The nodes of the first `t` artifacts in kind order.
pub open spec fn artifact_nodes(i: CertificationInput, t: int) -> Seq<NodeModel>
    decreases t,
{
    if t <= 0 {
        Seq::empty()
    } else {
        let prev = artifact_nodes(i, t - 1);
        prev.push(artifact_node(i, ordered_artifacts(i)[t - 1], prev))
    }
}

/// The nodes of all artifacts.
pub open spec fn all_artifact_nodes(i: CertificationInput) -> Seq<NodeModel> {
    artifact_nodes(i, i.artifacts@.len() as int)
}

/// The freshness obligation of one artifact with node identity `id`.
pub open spec fn freshness_obligation(a: ArtifactEvidenceInput, id: Seq<char>) -> ObligationModel {
    ObligationModel {
        kind: CertificationObligationKind::ArtifactFreshness,
        subject: a.kind@,
        required_evidence_classes: seq![a.evidence_class],
        evidence_refs: seq![id],
        status: if a.current {
            CertificationStatus::Pass
        } else {
            CertificationStatus::Stale
        },
        reason: if a.current {
            "artifact was regenerated from the current certification source"@
        } else {
            "artifact is cryptographically valid but references prior semantic inputs"@
        },
    }
}

/// Semantic artifact kinds mandatory for full-snapshot certification.
pub open spec fn mandatory_kinds() -> Seq<Seq<char>> {
    seq![
        "ccg"@,
        "environmental_analysis"@,
        "information_flow"@,
        "intended_bfg"@,
        "psm"@,
        "realized_bfg"@,
        "reference_resolution"@,
        "semantic_analysis"@,
        "state_effect"@,
    ]
}

/// The obligation of a mandatory artifact kind without evidence.
pub open spec fn absent_artifact_obligation(kind: Seq<char>) -> ObligationModel {
    ObligationModel {
        kind: CertificationObligationKind::ArtifactFreshness,
        subject: kind,
        required_evidence_classes: seq![EvidenceClass::StaticProof],
        evidence_refs: Seq::empty(),
        status: CertificationStatus::Missing,
        reason: "mandatory semantic artifact evidence is absent"@,
    }
}

/// Absence obligations of the first `k` mandatory kinds not in `present`.
pub open spec fn absent_obligations(present: Seq<Seq<char>>, k: int) -> Seq<ObligationModel>
    decreases k,
{
    if k <= 0 {
        Seq::empty()
    } else {
        absent_obligations(present, k - 1) + if present.contains(mandatory_kinds()[k - 1]) {
            Seq::<ObligationModel>::empty()
        } else {
            seq![absent_artifact_obligation(mandatory_kinds()[k - 1])]
        }
    }
}

/// The obligations of the artifact phase: one freshness obligation per
/// artifact in kind order, then, when the profile requires current
/// artifacts, one absence obligation per mandatory kind without an artifact.
pub open spec fn artifact_obligations(i: CertificationInput) -> Seq<ObligationModel> {
    let arts = ordered_artifacts(i);
    let nodes = all_artifact_nodes(i);
    Seq::new(arts.len(), |k: int| freshness_obligation(arts[k], nodes[k].id)) + if i.profile.require_current_artifacts {
        absent_obligations(item_keys(arts), 9)
    } else {
        Seq::empty()
    }
}

/// Some artifact has an empty kind.
pub open spec fn empty_artifact_kind(i: CertificationInput) -> bool {
    exists|k: int| 0 <= k < ordered_artifacts(i).len() && (#[trigger] ordered_artifacts(i)[k]).kind@.len() == 0
}

proof fn lemma_artifact_nodes_prefix(i: CertificationInput, t: int, m: int)
    requires
        0 <= t <= m,
    ensures
        artifact_nodes(i, m).len() == m,
        artifact_nodes(i, t) == artifact_nodes(i, m).take(t),
    decreases m,
{
    if m > 0 {
        if t < m {
            lemma_artifact_nodes_prefix(i, t, m - 1);
            lemma_artifact_nodes_prefix(i, m - 1, m - 1);
            assert(artifact_nodes(i, m).take(m - 1) =~= artifact_nodes(i, m - 1));
            assert(artifact_nodes(i, m).take(t) =~= artifact_nodes(i, m - 1).take(t));
        } else {
            lemma_artifact_nodes_prefix(i, m - 1, m - 1);
            assert(artifact_nodes(i, m).take(m) =~= artifact_nodes(i, m));
        }
    } else {
        assert(artifact_nodes(i, m).take(t) =~= Seq::<NodeModel>::empty());
    }
}

/// There are as many artifacts in kind order, and artifact nodes, as artifacts.
pub proof fn lemma_artifact_counts(i: CertificationInput)
    ensures
        ordered_artifacts(i).len() == i.artifacts@.len(),
        all_artifact_nodes(i).len() == i.artifacts@.len(),
{
    super::keyed::lemma_sorted_positions(item_keys(i.artifacts@), i.artifacts@.len() as int);
    lemma_artifact_nodes_prefix(i, i.artifacts@.len() as int, i.artifacts@.len() as int);
}

fn lookup_kind(refs: &Vec<(String, String)>, kind: &str) -> (r: Option<usize>)
    ensures
        match r {
            Some(u) => u < refs@.len() && refs@[u as int].0@ == kind@ && forall|v: int|
                0 <= v < u ==> refs@[v].0@ != kind@,
            None => forall|v: int| 0 <= v < refs@.len() ==> refs@[v].0@ != kind@,
        },
{
    let mut u: usize = 0;
    while u < refs.len()
        invariant
            u <= refs@.len(),
            forall|v: int| 0 <= v < u ==> refs@[v].0@ != kind@,
        decreases refs.len() - u,
    {
        if text_eq(refs[u].0.as_str(), kind) {
            return Some(u);
        }
        u = u + 1;
    }
    None
}

pub proof fn lemma_first_kind(arts: Seq<ArtifactEvidenceInput>, k: Seq<char>, m: int, u: Option<int>)
    requires
        0 <= m <= arts.len(),
        match u {
            Some(x) => 0 <= x < m && arts[x].kind@ == k && forall|v: int| 0 <= v < x ==> arts[v].kind@ != k,
            None => forall|v: int| 0 <= v < m ==> arts[v].kind@ != k,
        },
    ensures
        first_kind(arts, k, m) == u,
    decreases m,
{
    if m > 0 {
        match u {
            Some(x) => {
                if x < m - 1 {
                    lemma_first_kind(arts, k, m - 1, u);
                } else {
                    lemma_first_kind(arts, k, m - 1, None);
                }
            },
            None => {
                lemma_first_kind(arts, k, m - 1, None);
            },
        }
    }
}

/// The upstream references of one artifact.
#[verifier::loop_isolation(false)]
fn artifact_refs_of(
    a: &ArtifactEvidenceInput,
    done: &Vec<(String, String)>,
    source_id: &str,
    Ghost(arts): Ghost<Seq<ArtifactEvidenceInput>>,
    Ghost(earlier): Ghost<Seq<NodeModel>>,
) -> (r: Vec<String>)
    requires
        done@.len() == earlier.len(),
        earlier.len() <= arts.len(),
        forall|u: int| 0 <= u < done@.len() ==> #[trigger] done@[u].0@ == arts[u].kind@ && done@[u].1@ == earlier[u].id,
    ensures
        texts(r@) == known_refs(arts, earlier, texts(a.input_refs@)).push(source_id@),
{
    let mut out: Vec<String> = Vec::new();
    let mut k: usize = 0;
    while k < a.input_refs.len()
        invariant
            k <= a.input_refs@.len(),
            texts(out@) == known_refs(arts, earlier, texts(a.input_refs@).take(k as int)),
        decreases a.input_refs.len() - k,
    {
        let ghost refs = texts(a.input_refs@);
        proof {
            assert(refs.take(k + 1).drop_last() =~= refs.take(k as int));
            assert(refs.take(k + 1).last() == a.input_refs@[k as int]@);
        }
        let found = lookup_kind(done, a.input_refs[k].as_str());
        proof {
            let u = match found {
                Some(x) => Some(x as int),
                None => None,
            };
            match found {
                Some(x) => {
                    assert forall|v: int| 0 <= v < x implies arts[v].kind@ != a.input_refs@[k as int]@ by {
                        assert(done@[v].0@ == arts[v].kind@);
                    }
                    assert(done@[x as int].0@ == arts[x as int].kind@);
                },
                None => {
                    assert forall|v: int| 0 <= v < earlier.len() implies arts[v].kind@ != a.input_refs@[k as int]@ by {
                        assert(done@[v].0@ == arts[v].kind@);
                    }
                },
            }
            lemma_first_kind(arts, a.input_refs@[k as int]@, earlier.len() as int, u);
        }
        let ghost before = texts(out@);
        match found {
            Some(u) => {
                out.push(copy_text(done[u].1.as_str()));
                proof {
                    assert(texts(out@) =~= before + seq![earlier[u as int].id]);
                }
            },
            None => {
                assert(texts(out@) =~= before + Seq::<Seq<char>>::empty());
            },
        }
        k = k + 1;
    }
    proof {
        assert(texts(a.input_refs@).take(a.input_refs@.len() as int) =~= texts(a.input_refs@));
    }
    let ghost before = texts(out@);
    out.push(String::from_str(source_id));
    proof {
        assert(texts(out@) =~= before.push(source_id@));
    }
    out
}

fn artifact_payload_json(a: &ArtifactEvidenceInput) -> (r: Json)
    ensures
        r@ == artifact_payload(*a),
{
    let members = vec![
        (String::from_str("artifact_digest"), text(a.digest.as_str())),
        (String::from_str("current"), Json::Bool(a.current)),
        (String::from_str("schema"), text(a.schema.as_str())),
        (String::from_str("unsupported"), text_array(a.unsupported.as_slice())),
    ];
    proof {
        lemma_member_models(members@);
        assert(a.unsupported@.map_values(|s: String| s@) =~= texts(a.unsupported@));
        assert(member_models(members@) =~= seq![
            ("artifact_digest"@, JsonModel::Text(a.digest@)),
            ("current"@, JsonModel::Bool(a.current)),
            ("schema"@, JsonModel::Text(a.schema@)),
            ("unsupported"@, JsonModel::Array(text_values(texts(a.unsupported@)))),
        ]);
    }
    Json::Object(members)
}

/// The mandatory artifact kinds.
pub fn mandatory_semantic_artifacts() -> (r: Vec<&'static str>)
    ensures
        r@.map_values(|s: &'static str| s@) == mandatory_kinds(),
{
    let v = vec![
        "ccg",
        "environmental_analysis",
        "information_flow",
        "intended_bfg",
        "psm",
        "realized_bfg",
        "reference_resolution",
        "semantic_analysis",
        "state_effect",
    ];
    assert(v@.map_values(|s: &'static str| s@) =~= mandatory_kinds());
    v
}

fn freshness_exec(a: &ArtifactEvidenceInput, id: &str) -> (r: CertificationObligation)
    ensures
        r@ == freshness_obligation(*a, id@),
{
    let mut refs = Vec::new();
    refs.push(String::from_str(id));
    let r = CertificationObligation {
        kind: CertificationObligationKind::ArtifactFreshness,
        subject: copy_text(a.kind.as_str()),
        required_evidence_classes: vec![a.evidence_class],
        evidence_refs: refs,
        status: if a.current {
            CertificationStatus::Pass
        } else {
            CertificationStatus::Stale
        },
        reason: if a.current {
            String::from_str("artifact was regenerated from the current certification source")
        } else {
            String::from_str("artifact is cryptographically valid but references prior semantic inputs")
        },
    };
    assert(r@.evidence_refs =~= seq![id@]);
    assert(r@.required_evidence_classes =~= seq![a.evidence_class]);
    r
}

/// Relates positions in kind order to the artifacts.
proof fn lemma_ordered_artifacts(i: CertificationInput, order: Seq<int>)
    requires
        order == sorted_positions(item_keys(i.artifacts@), i.artifacts@.len() as int),
    ensures
        order.len() == i.artifacts@.len(),
        ordered_artifacts(i).len() == i.artifacts@.len(),
        forall|t: int| 0 <= t < order.len() ==> 0 <= #[trigger] order[t] < i.artifacts@.len()
            && ordered_artifacts(i)[t] == i.artifacts@[order[t]],
{
    super::keyed::lemma_sorted_positions(item_keys(i.artifacts@), i.artifacts@.len() as int);
}

/// Builds the artifact nodes in kind order, with the kind and node identity
/// of each, and the artifact obligations.
pub fn artifact_phase(i: &CertificationInput, order: &Vec<usize>, source_id: &str) -> (r: Result<
    (Vec<EvidenceNode>, Vec<(String, String)>, Vec<CertificationObligation>),
    CertificationError,
>)
    requires
        order@.map_values(|p: usize| p as int) == sorted_positions(item_keys(i.artifacts@), i.artifacts@.len() as int),
        source_id@ == source_node(*i).id,
    ensures
        empty_artifact_kind(*i) ==> r == Err::<
            (Vec<EvidenceNode>, Vec<(String, String)>, Vec<CertificationObligation>),
            CertificationError,
        >(CertificationError::EmptyNodeField),
        !empty_artifact_kind(*i) ==> (r matches Ok(t) && crate::order::views(t.0@) == all_artifact_nodes(*i)
            && t.1@.len() == i.artifacts@.len() && (forall|u: int|
            0 <= u < t.1@.len() ==> #[trigger] t.1@[u].0@ == ordered_artifacts(*i)[u].kind@) && (forall|u: int|
            0 <= u < t.1@.len() ==> #[trigger] t.1@[u].1@ == all_artifact_nodes(*i)[u].id) && crate::order::views(t.2@)
            == artifact_obligations(*i)),
{
    let ghost arts = ordered_artifacts(*i);
    let ghost ord = order@.map_values(|p: usize| p as int);
    proof {
        lemma_ordered_artifacts(*i, ord);
        reveal_strlit("semantic_artifact:");
        reveal_strlit("fortress-semantic-artifact");
        reveal_strlit("1.0.0");
    }
    let n = i.artifacts.len();
    let mut nodes: Vec<EvidenceNode> = Vec::new();
    let mut done: Vec<(String, String)> = Vec::new();
    let mut obligations: Vec<CertificationObligation> = Vec::new();
    let mut t: usize = 0;
    while t < n
        invariant
            n == i.artifacts@.len(),
            arts == ordered_artifacts(*i),
            ord == order@.map_values(|p: usize| p as int),
            ord.len() == n,
            arts.len() == n,
            forall|x: int| 0 <= x < ord.len() ==> 0 <= #[trigger] ord[x] < n && arts[x] == i.artifacts@[ord[x]],
            source_id@ == source_node(*i).id,
            t <= n,
            crate::order::views(nodes@) == artifact_nodes(*i, t as int),
            done@.len() == t,
            artifact_nodes(*i, t as int).len() == t,
            forall|u: int| 0 <= u < t ==> #[trigger] done@[u].0@ == arts[u].kind@,
            forall|u: int| 0 <= u < t ==> #[trigger] done@[u].1@ == artifact_nodes(*i, t as int)[u].id,
            forall|u: int| 0 <= u < t ==> (#[trigger] arts[u]).kind@.len() > 0,
            crate::order::views(obligations@) == Seq::new(
                t as nat,
                |k: int| freshness_obligation(arts[k], artifact_nodes(*i, t as int)[k].id),
            ),
        decreases n - t,
    {
        proof {
            lemma_artifact_nodes_prefix(*i, t as int, t as int);
            reveal_strlit("semantic_artifact:");
            reveal_strlit("fortress-semantic-artifact");
            reveal_strlit("1.0.0");
        }
        assert(ord[t as int] == order@[t as int] as int);
        let a = &i.artifacts[order[t]];
        assert(*a == arts[t as int]);
        let ghost earlier = crate::order::views(nodes@);
        let refs = artifact_refs_of(a, &done, source_id, Ghost(arts), Ghost(earlier));
        let kind = concat("semantic_artifact:", a.kind.as_str());
        let node = make_node(
            kind.as_str(),
            a.kind.as_str(),
            if a.current {
                EvidenceResult::Pass
            } else {
                EvidenceResult::Observed
            },
            refs,
            "fortress-semantic-artifact",
            CERTIFICATION_SEMANTIC_VERSION,
            a.evidence_class,
            artifact_payload_json(a),
        );
        let node = match node {
            Ok(node) => node,
            Err(e) => {
                assert(arts[t as int].kind@.len() == 0);
                return Err(e);
            },
        };
        let ghost next = artifact_nodes(*i, t + 1);
        proof {
            assert(next == earlier.push(node@));
            lemma_artifact_nodes_prefix(*i, t as int, t + 1);
        }
        let ghost old_obligations = crate::order::views(obligations@);
        let ghost old_done = done@;
        let ghost old_raw = obligations@;
        let ghost old_nodes = nodes@;
        done.push((copy_text(a.kind.as_str()), copy_text(node.id())));
        let f = freshness_exec(a, node.id());
        let ghost fv = f@;
        obligations.push(f);
        let ghost nv = node@;
        nodes.push(node);
        proof {
            crate::order::lemma_views_push(old_raw, obligations@.last());
            assert(obligations@ == old_raw.push(obligations@.last()));
            crate::order::lemma_views_push(old_nodes, nodes@.last());
            assert(nodes@ == old_nodes.push(nodes@.last()));
            assert(crate::order::views(nodes@) =~= next);
            assert(crate::order::views(obligations@) == old_obligations.push(fv));
            assert forall|k: int| 0 <= k < t implies earlier[k] == next[k] by {
                assert(next[k] == earlier.push(nv)[k]);
            }
            assert forall|u: int| 0 <= u < t + 1 implies #[trigger] done@[u].0@ == arts[u].kind@ by {
                if u < t {
                    assert(done@[u] == old_done[u]);
                    assert(old_done[u].0@ == arts[u].kind@);
                }
            }
            assert forall|u: int| 0 <= u < t + 1 implies #[trigger] done@[u].1@ == artifact_nodes(*i, t + 1)[u].id by {
                if u < t {
                    assert(done@[u] == old_done[u]);
                    assert(old_done[u].1@ == artifact_nodes(*i, t as int)[u].id);
                    assert(artifact_nodes(*i, t as int)[u] == earlier[u]);
                } else {
                    assert(next[u] == nv);
                }
            }
            assert(crate::order::views(obligations@) =~= Seq::new(
                (t + 1) as nat,
                |k: int| freshness_obligation(arts[k], next[k].id),
            ));
        }
        t = t + 1;
    }
    let ghost all = all_artifact_nodes(*i);
    let ghost fresh = crate::order::views(obligations@);
    proof {
        lemma_artifact_nodes_prefix(*i, n as int, n as int);
    }
    if i.profile.require_current_artifacts {
        let mandatory = mandatory_semantic_artifacts();
        assert(mandatory@.map_values(|s: &'static str| s@).len() == 9);
        let mut m: usize = 0;
        while m < 9
            invariant
                mandatory@.map_values(|s: &'static str| s@) == mandatory_kinds(),
                mandatory@.len() == 9,
                n == i.artifacts@.len(),
                done@.len() == n,
                arts == ordered_artifacts(*i),
                arts.len() == n,
                forall|u: int| 0 <= u < n ==> #[trigger] done@[u].0@ == arts[u].kind@,
                m <= 9,
                crate::order::views(obligations@) == fresh + absent_obligations(item_keys(arts), m as int),
            decreases 9 - m,
        {
            let ghost kind = mandatory_kinds()[m as int];
            assert(mandatory@[m as int]@ == kind);
            let found = lookup_kind(&done, mandatory[m]);
            let ghost before = crate::order::views(obligations@);
            proof {
                match found {
                    Some(u) => {
                        assert(item_keys(arts)[u as int] == kind);
                    },
                    None => {
                        assert forall|u: int| 0 <= u < item_keys(arts).len() implies item_keys(arts)[u] != kind by {
                            assert(done@[u].0@ == arts[u].kind@);
                        }
                    },
                }
            }
            if found.is_none() {
                obligations.push(
                    CertificationObligation {
                        kind: CertificationObligationKind::ArtifactFreshness,
                        subject: String::from_str(mandatory[m]),
                        required_evidence_classes: vec![EvidenceClass::StaticProof],
                        evidence_refs: Vec::new(),
                        status: CertificationStatus::Missing,
                        reason: String::from_str("mandatory semantic artifact evidence is absent"),
                    },
                );
                proof {
                    let last = obligations@[obligations@.len() - 1]@;
                    assert(last.required_evidence_classes =~= seq![EvidenceClass::StaticProof]);
                    assert(last.evidence_refs =~= Seq::<Seq<char>>::empty());
                    assert(crate::order::views(obligations@) =~= before + seq![absent_artifact_obligation(kind)]);
                }
            } else {
                assert(crate::order::views(obligations@) =~= before + Seq::<ObligationModel>::empty());
            }
            m = m + 1;
        }
    } else {
        assert(crate::order::views(obligations@) =~= fresh + Seq::<ObligationModel>::empty());
    }
    proof {
        assert(fresh =~= Seq::new(arts.len(), |k: int| freshness_obligation(arts[k], all[k].id)));
        assert(artifact_nodes(*i, n as int) == all);
    }
    Ok((nodes, done, obligations))
}

// ---------------------------------------------------------------------------
// Rust suite execution.

/// The suite supports test evidence: it passed, and the canonical unfiltered
/// command ran.
pub open spec fn suite_sufficient(i: CertificationInput) -> bool {
    i.suite_execution.passed && i.suite_execution.canonical_unfiltered
}

/// The suite ran on the current certification source.
pub open spec fn suite_current(i: CertificationInput) -> bool {
    i.suite_execution.certification_source_digest@ == i.source_digest@
}

/// The canonical suite command.
pub open spec fn command_values() -> Seq<JsonModel> {
    seq![
        JsonModel::Text("cargo"@),
        JsonModel::Text("+1.97.1"@),
        JsonModel::Text("--config"@),
        JsonModel::Text("data/cargo_config.toml"@),
        JsonModel::Text("test"@),
        JsonModel::Text("--manifest-path"@),
        JsonModel::Text("data/Cargo.toml"@),
        JsonModel::Text("--workspace"@),
        JsonModel::Text("--all-targets"@),
        JsonModel::Text("--all-features"@),
    ]
}

/// The payload of the suite node.
pub open spec fn suite_payload(i: CertificationInput) -> JsonModel {
    let s = i.suite_execution;
    JsonModel::Object(
        seq![
            ("canonical_unfiltered"@, JsonModel::Bool(s.canonical_unfiltered)),
            ("certification_source_digest"@, JsonModel::Text(s.certification_source_digest@)),
            ("command"@, JsonModel::Array(command_values())),
            ("eligible_test_ids"@, JsonModel::Array(text_values(texts(s.eligible_test_ids@)))),
            ("ignored_test_ids"@, JsonModel::Array(text_values(texts(s.ignored_test_ids@)))),
            ("test_inventory_digest"@, JsonModel::Text(s.test_inventory_digest@)),
            ("toolchain"@, JsonModel::Text(s.toolchain@)),
        ],
    )
}

/// The node of the workspace suite execution.
pub open spec fn suite_node(i: CertificationInput) -> NodeModel {
    node_of(
        "rust_workspace_suite_execution"@,
        i.project_id@,
        if i.suite_execution.passed {
            EvidenceResult::Pass
        } else {
            EvidenceResult::Fail
        },
        seq![source_node(i).id],
        i.suite_execution.executor@,
        i.suite_execution.executor_version@,
        EvidenceClass::ExecutedTest,
        suite_payload(i),
    )
}

/// The node of one test executed by a sufficient suite.
pub open spec fn test_node(i: CertificationInput, test: Seq<char>) -> NodeModel {
    node_of(
        "rust_test_execution"@,
        test,
        EvidenceResult::Pass,
        seq![suite_node(i).id],
        i.suite_execution.executor@,
        i.suite_execution.executor_version@,
        EvidenceClass::ExecutedTest,
        single_member("derivation"@, JsonModel::Text("eligible member of successful canonical unfiltered suite"@)),
    )
}

/// The eligible Test IDs.
pub open spec fn eligible_tests(i: CertificationInput) -> Seq<Seq<char>> {
    texts(i.suite_execution.eligible_test_ids@)
}

/// The test nodes: one per eligible test when the suite is sufficient.
pub open spec fn test_nodes(i: CertificationInput) -> Seq<NodeModel> {
    if suite_sufficient(i) {
        eligible_tests(i).map_values(|t: Seq<char>| test_node(i, t))
    } else {
        Seq::empty()
    }
}

/// The execution evidence of a test, if the suite supplies it.
pub open spec fn test_ref(i: CertificationInput, test: Seq<char>) -> Option<Seq<char>> {
    if suite_sufficient(i) && eligible_tests(i).contains(test) {
        Some(test_node(i, test).id)
    } else {
        None
    }
}

/// A sufficient suite names an empty Test ID.
pub open spec fn empty_test_id(i: CertificationInput) -> bool {
    suite_sufficient(i) && exists|k: int| 0 <= k < eligible_tests(i).len() && (#[trigger] eligible_tests(i)[k]).len() == 0
}

fn suite_payload_json(i: &CertificationInput) -> (r: Json)
    ensures
        r@ == suite_payload(*i),
{
    let s = &i.suite_execution;
    let command = vec![
        text("cargo"),
        text("+1.97.1"),
        text("--config"),
        text("data/cargo_config.toml"),
        text("test"),
        text("--manifest-path"),
        text("data/Cargo.toml"),
        text("--workspace"),
        text("--all-targets"),
        text("--all-features"),
    ];
    proof {
        crate::json::lemma_json_models(command@);
        assert(crate::json::json_models(command@) =~= command_values());
    }
    let members = vec![
        (String::from_str("canonical_unfiltered"), Json::Bool(s.canonical_unfiltered)),
        (String::from_str("certification_source_digest"), text(s.certification_source_digest.as_str())),
        (String::from_str("command"), Json::Array(command)),
        (String::from_str("eligible_test_ids"), text_array(s.eligible_test_ids.as_slice())),
        (String::from_str("ignored_test_ids"), text_array(s.ignored_test_ids.as_slice())),
        (String::from_str("test_inventory_digest"), text(s.test_inventory_digest.as_str())),
        (String::from_str("toolchain"), text(s.toolchain.as_str())),
    ];
    proof {
        lemma_member_models(members@);
        assert(s.eligible_test_ids@.map_values(|x: String| x@) =~= texts(s.eligible_test_ids@));
        assert(s.ignored_test_ids@.map_values(|x: String| x@) =~= texts(s.ignored_test_ids@));
        assert(member_models(members@) =~= seq![
            ("canonical_unfiltered"@, JsonModel::Bool(s.canonical_unfiltered)),
            ("certification_source_digest"@, JsonModel::Text(s.certification_source_digest@)),
            ("command"@, JsonModel::Array(command_values())),
            ("eligible_test_ids"@, JsonModel::Array(text_values(texts(s.eligible_test_ids@)))),
            ("ignored_test_ids"@, JsonModel::Array(text_values(texts(s.ignored_test_ids@)))),
            ("test_inventory_digest"@, JsonModel::Text(s.test_inventory_digest@)),
            ("toolchain"@, JsonModel::Text(s.toolchain@)),
        ]);
    }
    Json::Object(members)
}

/// Builds the suite node, the test nodes, and each test's node identity.
pub fn suite_phase(i: &CertificationInput, source_id: &str) -> (r: Result<
    (EvidenceNode, Vec<EvidenceNode>, Vec<(String, String)>),
    CertificationError,
>)
    requires
        source_id@ == source_node(*i).id,
        i.project_id@.len() > 0,
        i.suite_execution.executor@.len() > 0,
        i.suite_execution.executor_version@.len() > 0,
    ensures
        empty_test_id(*i) ==> r == Err::<(EvidenceNode, Vec<EvidenceNode>, Vec<(String, String)>), CertificationError>(
            CertificationError::EmptyNodeField,
        ),
        !empty_test_id(*i) ==> (r matches Ok(t) && t.0@ == suite_node(*i) && crate::order::views(t.1@) == test_nodes(
            *i,
        ) && t.2@.len() == test_nodes(*i).len() && (forall|u: int|
            0 <= u < t.2@.len() ==> #[trigger] t.2@[u].0@ == eligible_tests(*i)[u]) && (forall|u: int|
            0 <= u < t.2@.len() ==> #[trigger] t.2@[u].1@ == test_nodes(*i)[u].id)),
{
    proof {
        reveal_strlit("rust_workspace_suite_execution");
        reveal_strlit("rust_test_execution");
    }
    let s = &i.suite_execution;
    let mut refs = Vec::new();
    refs.push(String::from_str(source_id));
    proof {
        assert(texts(refs@) =~= seq![source_id@]);
    }
    let suite = match make_node(
        "rust_workspace_suite_execution",
        i.project_id.as_str(),
        if s.passed {
            EvidenceResult::Pass
        } else {
            EvidenceResult::Fail
        },
        refs,
        s.executor.as_str(),
        s.executor_version.as_str(),
        EvidenceClass::ExecutedTest,
        suite_payload_json(i),
    ) {
        Ok(node) => node,
        Err(e) => {
            return Err(e);
        },
    };
    let mut tests: Vec<EvidenceNode> = Vec::new();
    let mut test_refs: Vec<(String, String)> = Vec::new();
    if s.passed && s.canonical_unfiltered {
        let ghost el = eligible_tests(*i);
        let mut k: usize = 0;
        while k < i.suite_execution.eligible_test_ids.len()
            invariant
                el == eligible_tests(*i),
                el.len() == i.suite_execution.eligible_test_ids@.len(),
                suite_sufficient(*i),
                suite@ == suite_node(*i),
                i.suite_execution.executor@.len() > 0,
                i.suite_execution.executor_version@.len() > 0,
                k <= el.len(),
                crate::order::views(tests@) == el.take(k as int).map_values(|t: Seq<char>| test_node(*i, t)),
                test_refs@.len() == k,
                forall|u: int| 0 <= u < k ==> #[trigger] test_refs@[u].0@ == el[u],
                forall|u: int| 0 <= u < k ==> #[trigger] test_refs@[u].1@ == test_node(*i, el[u]).id,
                forall|u: int| 0 <= u < k ==> (#[trigger] el[u]).len() > 0,
            decreases i.suite_execution.eligible_test_ids.len() - k,
        {
            proof {
                reveal_strlit("rust_test_execution");
            }
            let mut inputs = Vec::new();
            inputs.push(copy_text(suite.id()));
            proof {
                assert(texts(inputs@) =~= seq![suite@.id]);
            }
            let test = &i.suite_execution.eligible_test_ids[k];
            assert(test@ == el[k as int]);
            let node = match make_node(
                "rust_test_execution",
                test.as_str(),
                EvidenceResult::Pass,
                inputs,
                i.suite_execution.executor.as_str(),
                i.suite_execution.executor_version.as_str(),
                EvidenceClass::ExecutedTest,
                single_member_json(
                    "derivation",
                    text("eligible member of successful canonical unfiltered suite"),
                ),
            ) {
                Ok(node) => node,
                Err(e) => {
                    assert(el[k as int].len() == 0);
                    return Err(e);
                },
            };
            let ghost old_tests = tests@;
            let ghost old_refs = test_refs@;
            test_refs.push((copy_text(test.as_str()), copy_text(node.id())));
            tests.push(node);
            proof {
                crate::order::lemma_views_push_seq(old_tests, tests@.last());
                assert(tests@ == old_tests.push(tests@.last()));
                assert(el.take(k + 1).map_values(|t: Seq<char>| test_node(*i, t)) =~= el.take(k as int).map_values(
                    |t: Seq<char>| test_node(*i, t),
                ).push(test_node(*i, el[k as int])));
                assert forall|u: int| 0 <= u < k + 1 implies #[trigger] test_refs@[u].0@ == el[u] by {
                    if u < k {
                        assert(test_refs@[u] == old_refs[u]);
                    }
                }
                assert forall|u: int| 0 <= u < k + 1 implies #[trigger] test_refs@[u].1@ == test_node(*i, el[u]).id by {
                    if u < k {
                        assert(test_refs@[u] == old_refs[u]);
                    }
                }
            }
            k = k + 1;
        }
        proof {
            assert(el.take(el.len() as int) =~= el);
        }
    }
    proof {
        if !suite_sufficient(*i) {
            assert(crate::order::views(tests@) =~= test_nodes(*i));
        }
    }
    Ok((suite, tests, test_refs))
}

// ---------------------------------------------------------------------------
// Standard rules.

/// The identities of the supplied rule evaluations.
pub open spec fn supplied_rules(i: CertificationInput) -> Seq<Seq<char>> {
    item_keys(i.rules@)
}

/// `x` is the least supplied rule that is not applicable.
pub open spec fn least_unexpected(i: CertificationInput, x: Seq<char>) -> bool {
    &&& supplied_rules(i).contains(x)
    &&& !texts(i.applicable_rules@).contains(x)
    &&& forall|y: Seq<char>|
        supplied_rules(i).contains(y) && !texts(i.applicable_rules@).contains(y) ==> crate::text::seq_le(x, y)
}

/// The least supplied rule that is not applicable, if any.
pub open spec fn unexpected_rule(i: CertificationInput) -> Option<Seq<char>> {
    if exists|x: Seq<char>| least_unexpected(i, x) {
        Some(choose|x: Seq<char>| least_unexpected(i, x))
    } else {
        None
    }
}

/// Finds the least supplied rule that is not applicable.
pub fn unexpected_rule_exec(i: &CertificationInput) -> (r: Option<String>)
    ensures
        match unexpected_rule(*i) {
            Some(x) => r matches Some(s) && s@ == x,
            None => r is None,
        },
{
    let ghost sup = supplied_rules(*i);
    let ghost app = texts(i.applicable_rules@);
    let mut best: Option<usize> = None;
    let mut k: usize = 0;
    while k < i.rules.len()
        invariant
            sup == supplied_rules(*i),
            app == texts(i.applicable_rules@),
            k <= i.rules@.len(),
            match best {
                Some(b) => b < k && !app.contains(sup[b as int]) && forall|t: int|
                    0 <= t < k && !app.contains(#[trigger] sup[t]) ==> crate::text::seq_le(sup[b as int], sup[t]),
                None => forall|t: int| 0 <= t < k ==> app.contains(#[trigger] sup[t]),
            },
        decreases i.rules.len() - k,
    {
        assert(sup[k as int] == i.rules@[k as int].rule_id@);
        if !texts_contain(&i.applicable_rules, i.rules[k].rule_id.as_str()) {
            match best {
                Some(b) => {
                    assert(sup[b as int] == i.rules@[b as int].rule_id@);
                    if crate::text::text_lt(i.rules[k].rule_id.as_str(), i.rules[b].rule_id.as_str()) {
                        proof {
                            assert forall|t: int| 0 <= t < k + 1 && !app.contains(#[trigger] sup[t]) implies crate::text::seq_le(
                                sup[k as int],
                                sup[t],
                            ) by {
                                if t < k {
                                    crate::text::lemma_seq_le_transitive(sup[k as int], sup[b as int], sup[t]);
                                } else {
                                    crate::text::lemma_seq_le_reflexive(sup[t]);
                                }
                            }
                        }
                        best = Some(k);
                    } else {
                        proof {
                            crate::text::lemma_seq_le_total(sup[b as int], sup[k as int]);
                        }
                    }
                },
                None => {
                    proof {
                        crate::text::lemma_seq_le_reflexive(sup[k as int]);
                    }
                    best = Some(k);
                },
            }
        }
        k = k + 1;
    }
    match best {
        Some(b) => {
            proof {
                let x = sup[b as int];
                assert(sup.contains(x));
                assert forall|y: Seq<char>| sup.contains(y) && !app.contains(y) implies crate::text::seq_le(x, y) by {
                    let t = choose|t: int| 0 <= t < sup.len() && sup[t] == y;
                }
                assert(least_unexpected(*i, x));
                let c = choose|x: Seq<char>| least_unexpected(*i, x);
                crate::text::lemma_seq_le_antisymmetric(x, c);
            }
            Some(copy_text(i.rules[b].rule_id.as_str()))
        },
        None => {
            proof {
                if exists|x: Seq<char>| least_unexpected(*i, x) {
                    let x = choose|x: Seq<char>| least_unexpected(*i, x);
                    let t = choose|t: int| 0 <= t < sup.len() && sup[t] == x;
                }
            }
            None
        },
    }
}

/// The rules in identity order.
pub open spec fn ordered_rules(i: CertificationInput) -> Seq<super::RuleEvidenceInput> {
    in_key_order(i.rules@)
}

/// The identities of the artifact nodes in kind order.
pub open spec fn artifact_ids(i: CertificationInput) -> Seq<Seq<char>> {
    all_artifact_nodes(i).map_values(|n: NodeModel| n.id)
}

/// The payload of a rule evaluation node.
pub open spec fn rule_payload(i: CertificationInput, r: super::RuleEvidenceInput) -> JsonModel {
    JsonModel::Object(
        seq![
            ("current"@, JsonModel::Bool(r.current)),
            ("finding_fingerprints"@, JsonModel::Array(text_values(texts(r.finding_fingerprints@)))),
            ("standard_edition"@, JsonModel::Text(i.standard.edition@)),
        ],
    )
}

/// The node of one rule evaluation.
pub open spec fn rule_node(i: CertificationInput, r: super::RuleEvidenceInput) -> NodeModel {
    node_of(
        "standard_rule_evaluation"@,
        r.rule_id@,
        r.result,
        artifact_ids(i).push(standard_node(i).id),
        "fortress-snapshot-rule-engine"@,
        semver(),
        EvidenceClass::StaticProof,
        rule_payload(i, r),
    )
}

/// The status of a rule obligation: invalid evidence is invalid, evidence
/// of another subject is stale, and current evidence passes, fails, or, when
/// unsupported, is missing.
pub open spec fn rule_status(r: super::RuleEvidenceInput) -> CertificationStatus {
    if r.result == EvidenceResult::Invalid {
        CertificationStatus::Invalid
    } else if !r.current {
        CertificationStatus::Stale
    } else {
        match r.result {
            EvidenceResult::Pass => CertificationStatus::Pass,
            EvidenceResult::Fail => CertificationStatus::Fail,
            EvidenceResult::Unsupported => CertificationStatus::Missing,
            _ => CertificationStatus::Invalid,
        }
    }
}

/// The explanation of a rule obligation's status.
pub open spec fn rule_reason(s: CertificationStatus) -> Seq<char> {
    match s {
        CertificationStatus::Pass => "applicable rule has current PASS proof"@,
        CertificationStatus::Fail => "current rule evidence contains one or more findings"@,
        CertificationStatus::Missing => "mandatory applicable rule remains unsupported"@,
        CertificationStatus::Invalid => "rule evidence is invalid"@,
        CertificationStatus::Stale => "rule evidence is stale"@,
    }
}

/// The obligation of one evaluated rule with node identity `id`.
pub open spec fn rule_obligation(r: super::RuleEvidenceInput, id: Seq<char>) -> ObligationModel {
    ObligationModel {
        kind: CertificationObligationKind::StandardRule,
        subject: r.rule_id@,
        required_evidence_classes: seq![EvidenceClass::StaticProof],
        evidence_refs: seq![id],
        status: rule_status(r),
        reason: rule_reason(rule_status(r)),
    }
}

/// The obligation of an applicable rule without evaluation evidence.
pub open spec fn unevaluated_rule_obligation(rule: Seq<char>) -> ObligationModel {
    ObligationModel {
        kind: CertificationObligationKind::StandardRule,
        subject: rule,
        required_evidence_classes: seq![EvidenceClass::StaticProof],
        evidence_refs: Seq::empty(),
        status: CertificationStatus::Missing,
        reason: "applicable Standard rule has no current evaluation evidence"@,
    }
}

/// Obligations of the first `k` applicable rules without evaluation.
pub open spec fn unevaluated_obligations(i: CertificationInput, k: int) -> Seq<ObligationModel>
    decreases k,
{
    if k <= 0 {
        Seq::empty()
    } else {
        let a = texts(i.applicable_rules@)[k - 1];
        unevaluated_obligations(i, k - 1) + if supplied_rules(i).contains(a) {
            Seq::<ObligationModel>::empty()
        } else {
            seq![unevaluated_rule_obligation(a)]
        }
    }
}

/// The rule nodes in identity order.
pub open spec fn rule_nodes(i: CertificationInput) -> Seq<NodeModel> {
    ordered_rules(i).map_values(|r: super::RuleEvidenceInput| rule_node(i, r))
}

/// The rule obligations: evaluated rules in identity order, then applicable
/// rules without evaluation in applicable order.
pub open spec fn rule_obligations(i: CertificationInput) -> Seq<ObligationModel> {
    let rs = ordered_rules(i);
    Seq::new(rs.len(), |k: int| rule_obligation(rs[k], rule_node(i, rs[k]).id)) + unevaluated_obligations(
        i,
        i.applicable_rules@.len() as int,
    )
}

/// Some supplied rule has an empty identity.
pub open spec fn empty_rule_id(i: CertificationInput) -> bool {
    exists|k: int| 0 <= k < ordered_rules(i).len() && (#[trigger] ordered_rules(i)[k]).rule_id@.len() == 0
}

fn rule_status_exec(r: &super::RuleEvidenceInput) -> (s: CertificationStatus)
    ensures
        s == rule_status(*r),
{
    match (r.current, r.result) {
        (_, EvidenceResult::Invalid) => CertificationStatus::Invalid,
        (false, _) => CertificationStatus::Stale,
        (true, EvidenceResult::Pass) => CertificationStatus::Pass,
        (true, EvidenceResult::Fail) => CertificationStatus::Fail,
        (true, EvidenceResult::Unsupported) => CertificationStatus::Missing,
        (true, _) => CertificationStatus::Invalid,
    }
}

fn rule_reason_exec(s: CertificationStatus) -> (r: String)
    ensures
        r@ == rule_reason(s),
{
    match s {
        CertificationStatus::Pass => String::from_str("applicable rule has current PASS proof"),
        CertificationStatus::Fail => String::from_str("current rule evidence contains one or more findings"),
        CertificationStatus::Missing => String::from_str("mandatory applicable rule remains unsupported"),
        CertificationStatus::Invalid => String::from_str("rule evidence is invalid"),
        CertificationStatus::Stale => String::from_str("rule evidence is stale"),
    }
}

fn rule_payload_json(i: &CertificationInput, r: &super::RuleEvidenceInput) -> (j: Json)
    ensures
        j@ == rule_payload(*i, *r),
{
    let members = vec![
        (String::from_str("current"), Json::Bool(r.current)),
        (String::from_str("finding_fingerprints"), text_array(r.finding_fingerprints.as_slice())),
        (String::from_str("standard_edition"), text(i.standard.edition.as_str())),
    ];
    proof {
        lemma_member_models(members@);
        assert(r.finding_fingerprints@.map_values(|s: String| s@) =~= texts(r.finding_fingerprints@));
        assert(member_models(members@) =~= seq![
            ("current"@, JsonModel::Bool(r.current)),
            ("finding_fingerprints"@, JsonModel::Array(text_values(texts(r.finding_fingerprints@)))),
            ("standard_edition"@, JsonModel::Text(i.standard.edition@)),
        ]);
    }
    Json::Object(members)
}

/// Builds the rule nodes and the rule obligations.
pub fn rule_phase(i: &CertificationInput, order: &Vec<usize>, artifact_node_ids: &Vec<String>, standard_id: &str) -> (r: Result<
    (Vec<EvidenceNode>, Vec<CertificationObligation>),
    CertificationError,
>)
    requires
        order@.map_values(|p: usize| p as int) == sorted_positions(item_keys(i.rules@), i.rules@.len() as int),
        texts(artifact_node_ids@) == artifact_ids(*i),
        standard_id@ == standard_node(*i).id,
    ensures
        empty_rule_id(*i) ==> r == Err::<(Vec<EvidenceNode>, Vec<CertificationObligation>), CertificationError>(
            CertificationError::EmptyNodeField,
        ),
        !empty_rule_id(*i) ==> (r matches Ok(t) && crate::order::views(t.0@) == rule_nodes(*i)
            && crate::order::views(t.1@) == rule_obligations(*i)),
{
    let ghost rs = ordered_rules(*i);
    let ghost ord = order@.map_values(|p: usize| p as int);
    proof {
        super::keyed::lemma_sorted_positions(item_keys(i.rules@), i.rules@.len() as int);
    }
    let n = i.rules.len();
    let mut nodes: Vec<EvidenceNode> = Vec::new();
    let mut obligations: Vec<CertificationObligation> = Vec::new();
    let mut t: usize = 0;
    while t < n
        invariant
            n == i.rules@.len(),
            rs == ordered_rules(*i),
            rs.len() == n,
            ord == order@.map_values(|p: usize| p as int),
            ord.len() == n,
            forall|x: int| 0 <= x < n ==> 0 <= #[trigger] ord[x] < n && rs[x] == i.rules@[ord[x]],
            texts(artifact_node_ids@) == artifact_ids(*i),
            standard_id@ == standard_node(*i).id,
            t <= n,
            crate::order::views(nodes@) == rs.take(t as int).map_values(|r: super::RuleEvidenceInput| rule_node(*i, r)),
            crate::order::views(obligations@) == Seq::new(t as nat, |k: int| rule_obligation(rs[k], rule_node(*i, rs[k]).id)),
            forall|u: int| 0 <= u < t ==> (#[trigger] rs[u]).rule_id@.len() > 0,
        decreases n - t,
    {
        proof {
            reveal_strlit("standard_rule_evaluation");
            reveal_strlit("fortress-snapshot-rule-engine");
            reveal_strlit("1.0.0");
        }
        assert(ord[t as int] == order@[t as int] as int);
        let rule = &i.rules[order[t]];
        assert(*rule == rs[t as int]);
        let mut inputs = copy_texts(artifact_node_ids.as_slice());
        let ghost before = texts(inputs@);
        inputs.push(String::from_str(standard_id));
        proof {
            assert(texts(inputs@) =~= before.push(standard_id@));
        }
        let node = match make_node(
            "standard_rule_evaluation",
            rule.rule_id.as_str(),
            rule.result,
            inputs,
            "fortress-snapshot-rule-engine",
            CERTIFICATION_SEMANTIC_VERSION,
            EvidenceClass::StaticProof,
            rule_payload_json(i, rule),
        ) {
            Ok(node) => node,
            Err(e) => {
                assert(rs[t as int].rule_id@.len() == 0);
                return Err(e);
            },
        };
        let status = rule_status_exec(rule);
        let mut refs = Vec::new();
        refs.push(copy_text(node.id()));
        let obligation = CertificationObligation {
            kind: CertificationObligationKind::StandardRule,
            subject: copy_text(rule.rule_id.as_str()),
            required_evidence_classes: vec![EvidenceClass::StaticProof],
            evidence_refs: refs,
            status,
            reason: rule_reason_exec(status),
        };
        proof {
            assert(obligation@.required_evidence_classes =~= seq![EvidenceClass::StaticProof]);
            assert(obligation@.evidence_refs =~= seq![node@.id]);
        }
        let ghost old_nodes = nodes@;
        let ghost old_obligations = obligations@;
        let ghost ov = obligation@;
        obligations.push(obligation);
        nodes.push(node);
        proof {
            crate::order::lemma_views_push_seq(old_nodes, nodes@.last());
            assert(nodes@ == old_nodes.push(nodes@.last()));
            crate::order::lemma_views_push_seq(old_obligations, obligations@.last());
            assert(obligations@ == old_obligations.push(obligations@.last()));
            assert(rs.take(t + 1).map_values(|r: super::RuleEvidenceInput| rule_node(*i, r)) =~= rs.take(
                t as int,
            ).map_values(|r: super::RuleEvidenceInput| rule_node(*i, r)).push(rule_node(*i, rs[t as int])));
            assert(crate::order::views(obligations@) =~= Seq::new(
                (t + 1) as nat,
                |k: int| rule_obligation(rs[k], rule_node(*i, rs[k]).id),
            ));
        }
        t = t + 1;
    }
    proof {
        assert(rs.take(n as int) =~= rs);
    }
    let ghost evaluated = crate::order::views(obligations@);
    let ghost app = texts(i.applicable_rules@);
    let mut a: usize = 0;
    while a < i.applicable_rules.len()
        invariant
            app == texts(i.applicable_rules@),
            a <= app.len(),
            crate::order::views(obligations@) == evaluated + unevaluated_obligations(*i, a as int),
        decreases i.applicable_rules.len() - a,
    {
        let rule = i.applicable_rules[a].as_str();
        let mut supplied = false;
        let mut k: usize = 0;
        while k < i.rules.len()
            invariant
                k <= i.rules@.len(),
                supplied == exists|x: int| 0 <= x < k && supplied_rules(*i)[x] == rule@,
            decreases i.rules.len() - k,
        {
            assert(supplied_rules(*i)[k as int] == i.rules@[k as int].rule_id@);
            if text_eq(i.rules[k].rule_id.as_str(), rule) {
                supplied = true;
            }
            k = k + 1;
        }
        let ghost before = crate::order::views(obligations@);
        proof {
            assert(app[a as int] == rule@);
            if supplied_rules(*i).contains(rule@) {
                let x = choose|x: int| 0 <= x < supplied_rules(*i).len() && supplied_rules(*i)[x] == rule@;
            }
        }
        if !supplied {
            let obligation = CertificationObligation {
                kind: CertificationObligationKind::StandardRule,
                subject: String::from_str(rule),
                required_evidence_classes: vec![EvidenceClass::StaticProof],
                evidence_refs: Vec::new(),
                status: CertificationStatus::Missing,
                reason: String::from_str("applicable Standard rule has no current evaluation evidence"),
            };
            proof {
                assert(obligation@.required_evidence_classes =~= seq![EvidenceClass::StaticProof]);
                assert(obligation@.evidence_refs =~= Seq::<Seq<char>>::empty());
            }
            let ghost old_raw = obligations@;
            obligations.push(obligation);
            proof {
                crate::order::lemma_views_push_seq(old_raw, obligations@.last());
                assert(obligations@ == old_raw.push(obligations@.last()));
                assert(crate::order::views(obligations@) =~= before + seq![unevaluated_rule_obligation(rule@)]);
            }
        } else {
            assert(crate::order::views(obligations@) =~= before + Seq::<ObligationModel>::empty());
        }
        a = a + 1;
    }
    Ok((nodes, obligations))
}

} // verus!
