//! Content-addressed evidence nodes.

use vstd::prelude::*;
use vstd::utf8::encode_utf8;

use crate::codec::{sha256_identity_of, sha256_text};
use crate::json::{
    compact, lemma_member_models, render_compact, text, text_array, text_values, Json, JsonModel,
};
use crate::order::{canonical_set, canonical_set_exec, lemma_canonical_set, views};
use crate::text::{copy_text, texts};

use super::CertificationError;

verus! {

/// Closed evidence-authority vocabulary.
#[derive(Clone, Copy, Debug, PartialEq, Eq, Structural)]
pub enum EvidenceClass {
    /// Authored or canonically derived semantic authority.
    Authority,
    /// Snapshot-bound implementation observation.
    Observation,
    /// Deterministic proof produced by a semantic evaluator.
    StaticProof,
    /// Actual eligible test-suite execution evidence.
    ExecutedTest,
    /// Actual execution evidence for a bound generated scenario.
    ExecutedScenario,
    /// Explicitly trusted assertion, never relabeled as proof.
    TrustedAssertion,
    /// Deterministic aggregation over other evidence.
    Aggregate,
}

/// The canonical spelling of an evidence class.
pub open spec fn class_name(c: EvidenceClass) -> Seq<char> {
    match c {
        EvidenceClass::Authority => "AUTHORITY"@,
        EvidenceClass::Observation => "OBSERVATION"@,
        EvidenceClass::StaticProof => "STATIC_PROOF"@,
        EvidenceClass::ExecutedTest => "EXECUTED_TEST"@,
        EvidenceClass::ExecutedScenario => "EXECUTED_SCENARIO"@,
        EvidenceClass::TrustedAssertion => "TRUSTED_ASSERTION"@,
        EvidenceClass::Aggregate => "AGGREGATE"@,
    }
}

impl EvidenceClass {
    /// Returns the canonical spelling.
    pub fn name(self) -> (r: &'static str)
        ensures
            r@ == class_name(self),
    {
        match self {
            EvidenceClass::Authority => "AUTHORITY",
            EvidenceClass::Observation => "OBSERVATION",
            EvidenceClass::StaticProof => "STATIC_PROOF",
            EvidenceClass::ExecutedTest => "EXECUTED_TEST",
            EvidenceClass::ExecutedScenario => "EXECUTED_SCENARIO",
            EvidenceClass::TrustedAssertion => "TRUSTED_ASSERTION",
            EvidenceClass::Aggregate => "AGGREGATE",
        }
    }
}

/// Result vocabulary carried by evidence nodes.
#[derive(Clone, Copy, Debug, PartialEq, Eq, Structural)]
pub enum EvidenceResult {
    /// The evidenced proposition holds.
    Pass,
    /// Current evidence proves the proposition false.
    Fail,
    /// The producing analyzer cannot establish the proposition.
    Unsupported,
    /// The evidence or authority is invalid.
    Invalid,
    /// The evidence is an observed fact without a truth verdict.
    Observed,
    /// The evidence is an explicitly trusted assertion.
    Asserted,
}

/// The canonical spelling of an evidence result.
pub open spec fn result_name(r: EvidenceResult) -> Seq<char> {
    match r {
        EvidenceResult::Pass => "PASS"@,
        EvidenceResult::Fail => "FAIL"@,
        EvidenceResult::Unsupported => "UNSUPPORTED"@,
        EvidenceResult::Invalid => "INVALID"@,
        EvidenceResult::Observed => "OBSERVED"@,
        EvidenceResult::Asserted => "ASSERTED"@,
    }
}

impl EvidenceResult {
    /// Returns the canonical spelling.
    pub fn name(self) -> (r: &'static str)
        ensures
            r@ == result_name(self),
    {
        match self {
            EvidenceResult::Pass => "PASS",
            EvidenceResult::Fail => "FAIL",
            EvidenceResult::Unsupported => "UNSUPPORTED",
            EvidenceResult::Invalid => "INVALID",
            EvidenceResult::Observed => "OBSERVED",
            EvidenceResult::Asserted => "ASSERTED",
        }
    }
}

/// The identity-bearing body of a node: every field but the identity, in
/// declaration order.
pub open spec fn node_body(
    kind: Seq<char>,
    subject: Seq<char>,
    result: EvidenceResult,
    inputs: Seq<Seq<char>>,
    producer: Seq<char>,
    producer_semantic_version: Seq<char>,
    evidence_class: EvidenceClass,
    payload: JsonModel,
) -> JsonModel {
    JsonModel::Object(
        seq![
            ("kind"@, JsonModel::Text(kind)),
            ("subject"@, JsonModel::Text(subject)),
            ("result"@, JsonModel::Text(result_name(result))),
            ("inputs"@, JsonModel::Array(text_values(inputs))),
            ("producer"@, JsonModel::Text(producer)),
            ("producer_semantic_version"@, JsonModel::Text(producer_semantic_version)),
            ("evidence_class"@, JsonModel::Text(class_name(evidence_class))),
            ("payload"@, payload),
        ],
    )
}

/// The content identity of a JSON document: the SHA-256 identity of its
/// compact UTF-8 bytes.
pub open spec fn content_identity(v: JsonModel) -> Seq<char> {
    sha256_identity_of(encode_utf8(compact(v)))
}

/// Abstract value of one evidence node.
pub struct NodeModel {
    pub id: Seq<char>,
    pub kind: Seq<char>,
    pub subject: Seq<char>,
    pub result: EvidenceResult,
    pub inputs: Seq<Seq<char>>,
    pub producer: Seq<char>,
    pub producer_semantic_version: Seq<char>,
    pub evidence_class: EvidenceClass,
    pub payload: JsonModel,
}

/// The body of a node model.
pub open spec fn body_of(n: NodeModel) -> JsonModel {
    node_body(
        n.kind,
        n.subject,
        n.result,
        n.inputs,
        n.producer,
        n.producer_semantic_version,
        n.evidence_class,
        n.payload,
    )
}

/// The node built from its fields: inputs in canonical order without
/// repetition, identity derived from the body.
pub open spec fn node_of(
    kind: Seq<char>,
    subject: Seq<char>,
    result: EvidenceResult,
    inputs: Seq<Seq<char>>,
    producer: Seq<char>,
    producer_semantic_version: Seq<char>,
    evidence_class: EvidenceClass,
    payload: JsonModel,
) -> NodeModel {
    let ins = canonical_set::<String>(inputs);
    NodeModel {
        id: content_identity(
            node_body(kind, subject, result, ins, producer, producer_semantic_version, evidence_class, payload),
        ),
        kind,
        subject,
        result,
        inputs: ins,
        producer,
        producer_semantic_version,
        evidence_class,
        payload,
    }
}

/// The text fields a node requires are present.
pub open spec fn node_fields_present(
    kind: Seq<char>,
    subject: Seq<char>,
    producer: Seq<char>,
    producer_semantic_version: Seq<char>,
) -> bool {
    kind.len() > 0 && subject.len() > 0 && producer.len() > 0 && producer_semantic_version.len() > 0
}

/// Immutable content-addressed evidence node.
#[derive(Debug)]
pub struct EvidenceNode {
    id: String,
    kind: String,
    subject: String,
    result: EvidenceResult,
    inputs: Vec<String>,
    producer: String,
    producer_semantic_version: String,
    evidence_class: EvidenceClass,
    payload: Json,
}

impl View for EvidenceNode {
    type V = NodeModel;

    closed spec fn view(&self) -> NodeModel {
        NodeModel {
            id: self.id@,
            kind: self.kind@,
            subject: self.subject@,
            result: self.result,
            inputs: texts(self.inputs@),
            producer: self.producer@,
            producer_semantic_version: self.producer_semantic_version@,
            evidence_class: self.evidence_class,
            payload: self.payload@,
        }
    }
}

/// Builds the body document of a node.
fn body_json(
    kind: &str,
    subject: &str,
    result: EvidenceResult,
    inputs: &Vec<String>,
    producer: &str,
    producer_semantic_version: &str,
    evidence_class: EvidenceClass,
    payload: &Json,
) -> (r: Json)
    ensures
        r@ == node_body(
            kind@,
            subject@,
            result,
            texts(inputs@),
            producer@,
            producer_semantic_version@,
            evidence_class,
            payload@,
        ),
{
    let members = vec![
        (String::from_str("kind"), text(kind)),
        (String::from_str("subject"), text(subject)),
        (String::from_str("result"), text(result.name())),
        (String::from_str("inputs"), text_array(inputs.as_slice())),
        (String::from_str("producer"), text(producer)),
        (String::from_str("producer_semantic_version"), text(producer_semantic_version)),
        (String::from_str("evidence_class"), text(evidence_class.name())),
        (String::from_str("payload"), duplicate_json(payload)),
    ];
    proof {
        lemma_member_models(members@);
        assert(inputs@.map_values(|s: String| s@) =~= texts(inputs@));
        assert(crate::json::member_models(members@) =~= seq![
            ("kind"@, JsonModel::Text(kind@)),
            ("subject"@, JsonModel::Text(subject@)),
            ("result"@, JsonModel::Text(result_name(result))),
            ("inputs"@, JsonModel::Array(text_values(texts(inputs@)))),
            ("producer"@, JsonModel::Text(producer@)),
            ("producer_semantic_version"@, JsonModel::Text(producer_semantic_version@)),
            ("evidence_class"@, JsonModel::Text(class_name(evidence_class))),
            ("payload"@, payload@),
        ]);
    }
    Json::Object(members)
}

/// Computes the content identity of a document.
pub fn content_identity_of(v: &Json) -> (r: String)
    ensures
        r@ == content_identity(v@),
{
    let rendered = render_compact(v);
    sha256_text(rendered.as_str())
}

impl EvidenceNode {
    /// Creates a canonical node and derives its immutable identity.
    ///
    /// Inputs are put in canonical order without repetition; an empty kind,
    /// subject, producer or producer version is refused.
    pub fn new(
        kind: String,
        subject: String,
        result: EvidenceResult,
        inputs: Vec<String>,
        producer: String,
        producer_semantic_version: String,
        evidence_class: EvidenceClass,
        payload: Json,
    ) -> (r: Result<Self, CertificationError>)
        ensures
            !node_fields_present(kind@, subject@, producer@, producer_semantic_version@) ==> r == Err::<
                Self,
                CertificationError,
            >(CertificationError::EmptyNodeField),
            r is Ok <==> node_fields_present(kind@, subject@, producer@, producer_semantic_version@),
            r matches Ok(n) ==> n@ == node_of(
                kind@,
                subject@,
                result,
                texts(inputs@),
                producer@,
                producer_semantic_version@,
                evidence_class,
                payload@,
            ),
    {
        if kind.as_str().unicode_len() == 0 || subject.as_str().unicode_len() == 0 || producer.as_str().unicode_len() == 0
            || producer_semantic_version.as_str().unicode_len() == 0 {
            return Err(CertificationError::EmptyNodeField);
        }
        let ghost raw = texts(inputs@);
        proof {
            assert(views(inputs@) =~= raw);
        }
        let inputs = canonical_set_exec(inputs);
        proof {
            assert(views(inputs@) =~= texts(inputs@));
        }
        let body = body_json(
            kind.as_str(),
            subject.as_str(),
            result,
            &inputs,
            producer.as_str(),
            producer_semantic_version.as_str(),
            evidence_class,
            &payload,
        );
        let id = content_identity_of(&body);
        Ok(
            EvidenceNode {
                id,
                kind,
                subject,
                result,
                inputs,
                producer,
                producer_semantic_version,
                evidence_class,
                payload,
            },
        )
    }

    /// Restores a node from its stored fields without checking them; see
    /// `EvidenceGraph::validate`.
    pub fn from_parts(
        id: String,
        kind: String,
        subject: String,
        result: EvidenceResult,
        inputs: Vec<String>,
        producer: String,
        producer_semantic_version: String,
        evidence_class: EvidenceClass,
        payload: Json,
    ) -> (r: Self)
        ensures
            r@ == (NodeModel {
                id: id@,
                kind: kind@,
                subject: subject@,
                result,
                inputs: texts(inputs@),
                producer: producer@,
                producer_semantic_version: producer_semantic_version@,
                evidence_class,
                payload: payload@,
            }),
    {
        EvidenceNode { id, kind, subject, result, inputs, producer, producer_semantic_version, evidence_class, payload }
    }

    /// Returns the content-addressed node identity.
    pub fn id(&self) -> (r: &str)
        ensures
            r@ == self@.id,
    {
        self.id.as_str()
    }

    /// Returns the evidence kind.
    pub fn kind(&self) -> (r: &str)
        ensures
            r@ == self@.kind,
    {
        self.kind.as_str()
    }

    /// Returns the semantic subject.
    pub fn subject(&self) -> (r: &str)
        ensures
            r@ == self@.subject,
    {
        self.subject.as_str()
    }

    /// Returns the node result.
    pub fn result(&self) -> (r: EvidenceResult)
        ensures
            r == self@.result,
    {
        self.result
    }

    /// Returns the immutable dependency references.
    pub fn inputs(&self) -> (r: &[String])
        ensures
            texts(r@) == self@.inputs,
    {
        self.inputs.as_slice()
    }

    /// Returns the producer identity.
    pub fn producer(&self) -> (r: &str)
        ensures
            r@ == self@.producer,
    {
        self.producer.as_str()
    }

    /// Returns the producer's semantic version.
    pub fn producer_semantic_version(&self) -> (r: &str)
        ensures
            r@ == self@.producer_semantic_version,
    {
        self.producer_semantic_version.as_str()
    }

    /// Returns the evidence authority class.
    pub fn evidence_class(&self) -> (r: EvidenceClass)
        ensures
            r == self@.evidence_class,
    {
        self.evidence_class
    }

    /// Returns the payload document.
    pub fn payload(&self) -> (r: &Json)
        ensures
            r@ == self@.payload,
    {
        &self.payload
    }

    /// Recomputes the identity from the stored fields.
    pub fn recompute_id(&self) -> (r: String)
        ensures
            r@ == content_identity(body_of(self@)),
    {
        let body = body_json(
            self.kind.as_str(),
            self.subject.as_str(),
            self.result,
            &self.inputs,
            self.producer.as_str(),
            self.producer_semantic_version.as_str(),
            self.evidence_class,
            &self.payload,
        );
        content_identity_of(&body)
    }
}

/// Copies a document.
#[verifier::loop_isolation(false)]
pub fn duplicate_json(v: &Json) -> (r: Json)
    ensures
        r@ == v@,
    decreases v,
{
    match v {
        Json::Null => Json::Null,
        Json::Bool(b) => Json::Bool(*b),
        Json::Number(n) => Json::Number(*n),
        Json::Text(s) => Json::Text(copy_text(s.as_str())),
        Json::Array(items) => {
            let mut out: Vec<Json> = Vec::new();
            let mut i: usize = 0;
            while i < items.len()
                invariant
                    i <= items@.len(),
                    out@.len() == i,
                    forall|k: int| 0 <= k < i ==> #[trigger] crate::json::json_model(out@[k]) == crate::json::json_model(items@[k]),
                decreases items.len() - i,
            {
                proof {
                    assert(decreases_to!(v => items));
                    assert(decreases_to!(items => items@));
                    assert(decreases_to!(items@ => items@[i as int]));
                }
                out.push(duplicate_json(&items[i]));
                i = i + 1;
            }
            proof {
                crate::json::lemma_json_models(out@);
                crate::json::lemma_json_models(items@);
                assert(crate::json::json_models(out@) =~= crate::json::json_models(items@));
            }
            Json::Array(out)
        },
        Json::Object(members) => {
            let mut out: Vec<(String, Json)> = Vec::new();
            let mut i: usize = 0;
            while i < members.len()
                invariant
                    i <= members@.len(),
                    out@.len() == i,
                    forall|k: int| 0 <= k < i ==> #[trigger] out@[k].0@ == members@[k].0@ && crate::json::json_model(out@[k].1) == crate::json::json_model(members@[k].1),
                decreases members.len() - i,
            {
                proof {
                    assert(decreases_to!(v => members));
                    assert(decreases_to!(members => members@));
                    assert(decreases_to!(members@ => members@[i as int]));
                    assert(decreases_to!(members@[i as int] => members@[i as int].1));
                }
                let key = copy_text(members[i].0.as_str());
                let value = duplicate_json(&members[i].1);
                out.push((key, value));
                i = i + 1;
            }
            proof {
                lemma_member_models(out@);
                lemma_member_models(members@);
                assert(crate::json::member_models(out@) =~= crate::json::member_models(members@));
            }
            Json::Object(out)
        },
    }
}

} // verus!
