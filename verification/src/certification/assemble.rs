//! Canonical obligation order, obligation and root nodes, and the
//! certification result.

use vstd::prelude::*;

use crate::json::{
    json_model, json_models, lemma_json_models, lemma_member_models, member_models, render_pretty_document,
    text, text_array, text_values, Json, JsonModel,
};
use crate::text::{copy_text, copy_texts, seq_lt, text_lt, texts};

use super::compile::{make_node, semver};
use super::evidence::{class_name, node_of, EvidenceClass, EvidenceNode, EvidenceResult, NodeModel};
use super::graph::{ProfileIdentity, ProfileModel};
use super::{
    aggregate_of, kind_name, kind_rank, obligation_document, obligation_node_kind, status_name, CertificationError,
    CertificationObligation, CertificationObligationKind, CertificationStatus, ObligationModel,
    CERTIFICATION_SCHEMA_VERSION, CERTIFICATION_SEMANTIC_VERSION,
};

verus! {

// ---------------------------------------------------------------------------
// Canonical obligation order: a stable insertion sort by kind, then subject.

/// `a` precedes `b`: an earlier kind, or the same kind and a smaller subject.
pub open spec fn obligation_before(a: ObligationModel, b: ObligationModel) -> bool {
    kind_rank(a.kind) < kind_rank(b.kind) || (kind_rank(a.kind) == kind_rank(b.kind) && seq_lt(
        a.subject,
        b.subject,
    ))
}

/// Inserts `x` after every obligation that does not follow it.
pub open spec fn insert_obligation(s: Seq<ObligationModel>, x: ObligationModel) -> Seq<ObligationModel>
    decreases s.len(),
{
    if s.len() == 0 {
        seq![x]
    } else if obligation_before(x, s.last()) {
        insert_obligation(s.drop_last(), x).push(s.last())
    } else {
        s.push(x)
    }
}

/// Obligations ordered by kind and subject, equal keys keeping their order.
pub open spec fn sort_obligations(s: Seq<ObligationModel>) -> Seq<ObligationModel>
    decreases s.len(),
{
    if s.len() == 0 {
        Seq::empty()
    } else {
        insert_obligation(sort_obligations(s.drop_last()), s.last())
    }
}

proof fn lemma_insert_obligation(s: Seq<ObligationModel>, x: ObligationModel, j: int)
    requires
        0 <= j <= s.len(),
        forall|k: int| j <= k < s.len() ==> obligation_before(x, #[trigger] s[k]),
        j == 0 || !obligation_before(x, s[j - 1]),
    ensures
        insert_obligation(s, x) == s.take(j).push(x) + s.skip(j),
    decreases s.len(),
{
    if s.len() == 0 {
        assert(s.take(j).push(x) + s.skip(j) =~= seq![x]);
    } else if j == s.len() {
        assert(s.take(j) =~= s);
        assert(s.skip(j) =~= Seq::<ObligationModel>::empty());
        assert(s.take(j).push(x) + s.skip(j) =~= s.push(x));
    } else {
        let t = s.drop_last();
        assert(obligation_before(x, s[s.len() - 1]));
        assert forall|k: int| j <= k < t.len() implies obligation_before(x, #[trigger] t[k]) by {
            assert(t[k] == s[k]);
        }
        if j > 0 {
            assert(t[j - 1] == s[j - 1]);
        }
        lemma_insert_obligation(t, x, j);
        assert(t.take(j).push(x) + t.skip(j) + seq![s.last()] =~= s.take(j).push(x) + s.skip(j));
        assert(insert_obligation(t, x).push(s.last()) =~= t.take(j).push(x) + t.skip(j) + seq![s.last()]);
    }
}

fn before_exec(a: &CertificationObligation, b: &CertificationObligation) -> (r: bool)
    ensures
        r == obligation_before(a@, b@),
{
    let x = a.kind.rank();
    let y = b.kind.rank();
    x < y || (x == y && text_lt(a.subject.as_str(), b.subject.as_str()))
}

/// Orders obligations by kind and subject, equal keys keeping their order.
pub fn sort_obligations_exec(v: Vec<CertificationObligation>) -> (out: Vec<CertificationObligation>)
    ensures
        crate::order::views(out@) == sort_obligations(crate::order::views(v@)),
{
    let ghost original = crate::order::views(v@);
    let total = v.len();
    assert(original.len() == total);
    let mut input = v;
    let mut out: Vec<CertificationObligation> = Vec::new();
    let mut i: usize = 0;
    while input.len() > 0
        invariant
            i <= original.len(),
            original.len() <= usize::MAX,
            input@.len() + i == original.len(),
            crate::order::views(input@) == original.skip(i as int),
            crate::order::views(out@) == sort_obligations(original.take(i as int)),
        decreases input.len(),
    {
        let ghost old_input = input@;
        let x = input.remove(0);
        proof {
            assert(crate::order::views(old_input)[0] == original.skip(i as int)[0]);
            assert(crate::order::views(input@) =~= crate::order::views(old_input).skip(1));
            assert(crate::order::views(input@) =~= original.skip(i + 1));
            assert(x@ == original[i as int]);
            assert(original.take(i + 1).drop_last() =~= original.take(i as int));
        }
        let mut j = out.len();
        while j > 0 && before_exec(&x, &out[j - 1])
            invariant
                j <= out@.len(),
                forall|k: int| j <= k < out@.len() ==> obligation_before(x@, #[trigger] crate::order::views(out@)[k]),
            decreases j,
        {
            j = j - 1;
        }
        proof {
            lemma_insert_obligation(crate::order::views(out@), x@, j as int);
        }
        let ghost before = crate::order::views(out@);
        out.insert(j, x);
        proof {
            assert(crate::order::views(out@) =~= before.take(j as int).push(x@) + before.skip(j as int));
        }
        i = i + 1;
    }
    proof {
        assert(original.take(i as int) =~= original);
    }
    out
}

// ---------------------------------------------------------------------------
// Obligation nodes.

/// The evidence result recorded for an obligation status.
pub open spec fn obligation_result(s: CertificationStatus) -> EvidenceResult {
    match s {
        CertificationStatus::Pass => EvidenceResult::Pass,
        CertificationStatus::Fail => EvidenceResult::Fail,
        CertificationStatus::Invalid => EvidenceResult::Invalid,
        CertificationStatus::Missing => EvidenceResult::Unsupported,
        CertificationStatus::Stale => EvidenceResult::Unsupported,
    }
}

pub(crate) fn obligation_result_exec(s: CertificationStatus) -> (r: EvidenceResult)
    ensures
        r == obligation_result(s),
{
    match s {
        CertificationStatus::Pass => EvidenceResult::Pass,
        CertificationStatus::Fail => EvidenceResult::Fail,
        CertificationStatus::Invalid => EvidenceResult::Invalid,
        CertificationStatus::Missing => EvidenceResult::Unsupported,
        CertificationStatus::Stale => EvidenceResult::Unsupported,
    }
}

/// The aggregate node of one obligation: its evidence and the profile as
/// inputs, the obligation itself as payload.
pub open spec fn obligation_node(profile_id: Seq<char>, o: ObligationModel) -> NodeModel {
    node_of(
        obligation_node_kind(o.kind),
        o.subject,
        obligation_result(o.status),
        o.evidence_refs.push(profile_id),
        "fortress-certification"@,
        semver(),
        EvidenceClass::Aggregate,
        obligation_document(o),
    )
}

/// Some obligation has an empty subject.
pub open spec fn empty_obligation_subject(os: Seq<ObligationModel>) -> bool {
    exists|k: int| 0 <= k < os.len() && (#[trigger] os[k]).subject.len() == 0
}

/// Builds the aggregate node of every obligation, in order.
pub fn obligation_nodes_exec(obligations: &Vec<CertificationObligation>, profile_id: &str) -> (r: Result<
    Vec<EvidenceNode>,
    CertificationError,
>)
    ensures
        empty_obligation_subject(crate::order::views(obligations@)) ==> r == Err::<
            Vec<EvidenceNode>,
            CertificationError,
        >(CertificationError::EmptyNodeField),
        !empty_obligation_subject(crate::order::views(obligations@)) ==> (r matches Ok(v) && crate::order::views(v@)
            == crate::order::views(obligations@).map_values(|o: ObligationModel| obligation_node(profile_id@, o))),
{
    let ghost os = crate::order::views(obligations@);
    let mut out: Vec<EvidenceNode> = Vec::new();
    let mut t: usize = 0;
    while t < obligations.len()
        invariant
            os == crate::order::views(obligations@),
            t <= os.len(),
            crate::order::views(out@) == os.take(t as int).map_values(
                |o: ObligationModel| obligation_node(profile_id@, o),
            ),
            forall|k: int| 0 <= k < t ==> (#[trigger] os[k]).subject.len() > 0,
        decreases obligations.len() - t,
    {
        proof {
            reveal_strlit("fortress-certification");
            reveal_strlit("1.0.0");
            reveal_strlit("certification_obligation:standardrule");
            reveal_strlit("certification_obligation:featurerequirement");
            reveal_strlit("certification_obligation:behavioralrealization");
            reveal_strlit("certification_obligation:behavioralverification");
            reveal_strlit("certification_obligation:environmentalverification");
            reveal_strlit("certification_obligation:artifactfreshness");
        }
        let o = &obligations[t];
        assert(os[t as int] == o@);
        let mut inputs = copy_texts(o.evidence_refs.as_slice());
        let ghost before = texts(inputs@);
        inputs.push(String::from_str(profile_id));
        assert(texts(inputs@) =~= before.push(profile_id@));
        let node = match make_node(
            o.kind.node_kind(),
            o.subject.as_str(),
            obligation_result_exec(o.status),
            inputs,
            "fortress-certification",
            CERTIFICATION_SEMANTIC_VERSION,
            EvidenceClass::Aggregate,
            o.to_json(),
        ) {
            Ok(node) => node,
            Err(e) => {
                assert(os[t as int].subject.len() == 0);
                return Err(e);
            },
        };
        let ghost old = out@;
        out.push(node);
        proof {
            crate::order::lemma_views_push_seq(old, out@.last());
            assert(out@ == old.push(out@.last()));
            assert(os.take(t + 1).map_values(|o: ObligationModel| obligation_node(profile_id@, o)) =~= os.take(
                t as int,
            ).map_values(|o: ObligationModel| obligation_node(profile_id@, o)).push(obligation_node(profile_id@, os[t as int])));
        }
        t = t + 1;
    }
    proof {
        assert(os.take(os.len() as int) =~= os);
    }
    Ok(out)
}

// ---------------------------------------------------------------------------
// Summary.

/// The number of obligations with a status.
pub open spec fn status_count(os: Seq<ObligationModel>, s: CertificationStatus) -> nat
    decreases os.len(),
{
    if os.len() == 0 {
        0
    } else {
        status_count(os.drop_last(), s) + if os.last().status == s {
            1nat
        } else {
            0nat
        }
    }
}

/// The statuses of obligations.
pub open spec fn statuses(os: Seq<ObligationModel>) -> Seq<CertificationStatus> {
    os.map_values(|o: ObligationModel| o.status)
}

/// Certification obligation counts.
#[derive(Clone, Copy, Debug, PartialEq, Eq, Structural)]
pub struct CertificationSummary {
    /// Total obligations.
    pub obligations: usize,
    /// Passing obligations.
    pub pass: usize,
    /// Failed obligations.
    pub fail: usize,
    /// Missing obligations.
    pub missing: usize,
    /// Stale obligations.
    pub stale: usize,
    /// Invalid obligations.
    pub invalid: usize,
    /// Trusted assertions in the dependency closure.
    pub trusted_assertions: usize,
}

/// The counts of obligations by status, and the number of trusted assertions.
pub open spec fn summary_of(os: Seq<ObligationModel>, trusted: nat) -> CertificationSummary {
    CertificationSummary {
        obligations: os.len() as usize,
        pass: status_count(os, CertificationStatus::Pass) as usize,
        fail: status_count(os, CertificationStatus::Fail) as usize,
        missing: status_count(os, CertificationStatus::Missing) as usize,
        stale: status_count(os, CertificationStatus::Stale) as usize,
        invalid: status_count(os, CertificationStatus::Invalid) as usize,
        trusted_assertions: trusted as usize,
    }
}

proof fn lemma_status_count_bound(os: Seq<ObligationModel>, s: CertificationStatus)
    ensures
        status_count(os, s) <= os.len(),
    decreases os.len(),
{
    if os.len() > 0 {
        lemma_status_count_bound(os.drop_last(), s);
    }
}

/// Counts the obligations by status.
pub fn summarize(obligations: &Vec<CertificationObligation>, trusted: usize) -> (r: CertificationSummary)
    ensures
        r == summary_of(crate::order::views(obligations@), trusted as nat),
{
    let ghost os = crate::order::views(obligations@);
    let mut pass: usize = 0;
    let mut fail: usize = 0;
    let mut missing: usize = 0;
    let mut stale: usize = 0;
    let mut invalid: usize = 0;
    let mut t: usize = 0;
    while t < obligations.len()
        invariant
            os == crate::order::views(obligations@),
            t <= os.len(),
            pass == status_count(os.take(t as int), CertificationStatus::Pass),
            fail == status_count(os.take(t as int), CertificationStatus::Fail),
            missing == status_count(os.take(t as int), CertificationStatus::Missing),
            stale == status_count(os.take(t as int), CertificationStatus::Stale),
            invalid == status_count(os.take(t as int), CertificationStatus::Invalid),
        decreases obligations.len() - t,
    {
        proof {
            assert(os.take(t + 1).drop_last() =~= os.take(t as int));
            assert(os.take(t + 1).last() == obligations@[t as int]@);
            lemma_status_count_bound(os.take(t as int), CertificationStatus::Pass);
            lemma_status_count_bound(os.take(t as int), CertificationStatus::Fail);
            lemma_status_count_bound(os.take(t as int), CertificationStatus::Missing);
            lemma_status_count_bound(os.take(t as int), CertificationStatus::Stale);
            lemma_status_count_bound(os.take(t as int), CertificationStatus::Invalid);
        }
        match obligations[t].status {
            CertificationStatus::Pass => pass = pass + 1,
            CertificationStatus::Fail => fail = fail + 1,
            CertificationStatus::Missing => missing = missing + 1,
            CertificationStatus::Stale => stale = stale + 1,
            CertificationStatus::Invalid => invalid = invalid + 1,
        }
        t = t + 1;
    }
    proof {
        assert(os.take(os.len() as int) =~= os);
    }
    CertificationSummary {
        obligations: obligations.len(),
        pass,
        fail,
        missing,
        stale,
        invalid,
        trusted_assertions: trusted,
    }
}

/// The summary as a JSON value: its fields in declaration order.
pub open spec fn summary_document(s: CertificationSummary) -> JsonModel {
    JsonModel::Object(
        seq![
            ("obligations"@, JsonModel::Number(s.obligations as nat)),
            ("pass"@, JsonModel::Number(s.pass as nat)),
            ("fail"@, JsonModel::Number(s.fail as nat)),
            ("missing"@, JsonModel::Number(s.missing as nat)),
            ("stale"@, JsonModel::Number(s.stale as nat)),
            ("invalid"@, JsonModel::Number(s.invalid as nat)),
            ("trusted_assertions"@, JsonModel::Number(s.trusted_assertions as nat)),
        ],
    )
}

fn number(n: usize) -> (r: Json)
    ensures
        r@ == JsonModel::Number(n as nat),
{
    Json::Number(n as u64)
}

fn summary_json(s: &CertificationSummary) -> (r: Json)
    ensures
        r@ == summary_document(*s),
{
    let members = vec![
        (String::from_str("obligations"), number(s.obligations)),
        (String::from_str("pass"), number(s.pass)),
        (String::from_str("fail"), number(s.fail)),
        (String::from_str("missing"), number(s.missing)),
        (String::from_str("stale"), number(s.stale)),
        (String::from_str("invalid"), number(s.invalid)),
        (String::from_str("trusted_assertions"), number(s.trusted_assertions)),
    ];
    proof {
        lemma_member_models(members@);
        assert(member_models(members@) =~= seq![
            ("obligations"@, JsonModel::Number(s.obligations as nat)),
            ("pass"@, JsonModel::Number(s.pass as nat)),
            ("fail"@, JsonModel::Number(s.fail as nat)),
            ("missing"@, JsonModel::Number(s.missing as nat)),
            ("stale"@, JsonModel::Number(s.stale as nat)),
            ("invalid"@, JsonModel::Number(s.invalid as nat)),
            ("trusted_assertions"@, JsonModel::Number(s.trusted_assertions as nat)),
        ]);
    }
    Json::Object(members)
}

// ---------------------------------------------------------------------------
// The certification result.

/// Certification result schema identity.
pub const CERTIFICATION_RESULT_SCHEMA: &'static str = "urn:fortress:schema:v1:certification-result";

/// Abstract value of a certification result.
pub struct ResultModel {
    pub schema: Seq<char>,
    pub schema_version: u16,
    pub profile: ProfileModel,
    pub subject: Seq<char>,
    pub status: CertificationStatus,
    pub certification_digest: Seq<char>,
    pub evidence_graph_digest: Seq<char>,
    pub obligations: Seq<ObligationModel>,
    pub summary: CertificationSummary,
    pub trusted_assertion_dependencies: Seq<Seq<char>>,
}

/// Canonical certification result whose digest is the root evidence node ID.
#[derive(Debug)]
pub struct CertificationResult {
    schema: String,
    schema_version: u16,
    profile: ProfileIdentity,
    subject: String,
    status: CertificationStatus,
    certification_digest: String,
    evidence_graph_digest: String,
    obligations: Vec<CertificationObligation>,
    summary: CertificationSummary,
    trusted_assertion_dependencies: Vec<String>,
}

impl View for CertificationResult {
    type V = ResultModel;

    closed spec fn view(&self) -> ResultModel {
        ResultModel {
            schema: self.schema@,
            schema_version: self.schema_version,
            profile: self.profile@,
            subject: self.subject@,
            status: self.status,
            certification_digest: self.certification_digest@,
            evidence_graph_digest: self.evidence_graph_digest@,
            obligations: crate::order::views(self.obligations@),
            summary: self.summary,
            trusted_assertion_dependencies: texts(self.trusted_assertion_dependencies@),
        }
    }
}

/// An obligation as a JSON value: its fields in declaration order.
pub open spec fn obligation_fields_document(o: ObligationModel) -> JsonModel {
    JsonModel::Object(
        seq![
            ("kind"@, JsonModel::Text(kind_name(o.kind))),
            ("subject"@, JsonModel::Text(o.subject)),
            ("required_evidence_classes"@, JsonModel::Array(super::class_values(o.required_evidence_classes))),
            ("evidence_refs"@, JsonModel::Array(text_values(o.evidence_refs))),
            ("status"@, JsonModel::Text(status_name(o.status))),
            ("reason"@, JsonModel::Text(o.reason)),
        ],
    )
}

/// The result as a JSON value: its fields in declaration order.
pub open spec fn result_document(r: ResultModel) -> JsonModel {
    JsonModel::Object(
        seq![
            ("$schema"@, JsonModel::Text(r.schema)),
            ("schema_version"@, JsonModel::Number(r.schema_version as nat)),
            (
                "profile"@,
                JsonModel::Object(
                    seq![("id"@, JsonModel::Text(r.profile.id)), ("version"@, JsonModel::Number(r.profile.version as nat))],
                ),
            ),
            ("subject"@, JsonModel::Text(r.subject)),
            ("status"@, JsonModel::Text(status_name(r.status))),
            ("certification_digest"@, JsonModel::Text(r.certification_digest)),
            ("evidence_graph_digest"@, JsonModel::Text(r.evidence_graph_digest)),
            ("obligations"@, JsonModel::Array(r.obligations.map_values(|o: ObligationModel| obligation_fields_document(o)))),
            ("summary"@, summary_document(r.summary)),
            ("trusted_assertion_dependencies"@, JsonModel::Array(text_values(r.trusted_assertion_dependencies))),
        ],
    )
}

fn obligation_fields_json(o: &CertificationObligation) -> (r: Json)
    ensures
        r@ == obligation_fields_document(o@),
{
    let document = o.to_json();
    let mut classes: Vec<Json> = Vec::new();
    let mut i: usize = 0;
    while i < o.required_evidence_classes.len()
        invariant
            i <= o.required_evidence_classes@.len(),
            classes@.len() == i,
            forall|k: int|
                0 <= k < i ==> #[trigger] json_model(classes@[k]) == JsonModel::Text(
                    class_name(o.required_evidence_classes@[k]),
                ),
        decreases o.required_evidence_classes.len() - i,
    {
        classes.push(Json::Text(String::from_str(o.required_evidence_classes[i].name())));
        i = i + 1;
    }
    proof {
        lemma_json_models(classes@);
        assert(json_models(classes@) =~= super::class_values(o.required_evidence_classes@));
    }
    let members = vec![
        (String::from_str("kind"), Json::Text(String::from_str(o.kind.name()))),
        (String::from_str("subject"), text(o.subject.as_str())),
        (String::from_str("required_evidence_classes"), Json::Array(classes)),
        (String::from_str("evidence_refs"), text_array(o.evidence_refs.as_slice())),
        (String::from_str("status"), Json::Text(String::from_str(o.status.name()))),
        (String::from_str("reason"), text(o.reason.as_str())),
    ];
    proof {
        lemma_member_models(members@);
        assert(o.evidence_refs@.map_values(|s: String| s@) =~= texts(o.evidence_refs@));
        assert(member_models(members@) =~= seq![
            ("kind"@, JsonModel::Text(kind_name(o.kind))),
            ("subject"@, JsonModel::Text(o.subject@)),
            ("required_evidence_classes"@, JsonModel::Array(super::class_values(o.required_evidence_classes@))),
            ("evidence_refs"@, JsonModel::Array(text_values(o@.evidence_refs))),
            ("status"@, JsonModel::Text(status_name(o.status))),
            ("reason"@, JsonModel::Text(o.reason@)),
        ]);
    }
    Json::Object(members)
}

impl CertificationResult {
    /// Assembles a result.
    pub fn from_parts(
        profile: ProfileIdentity,
        subject: String,
        status: CertificationStatus,
        certification_digest: String,
        evidence_graph_digest: String,
        obligations: Vec<CertificationObligation>,
        summary: CertificationSummary,
        trusted_assertion_dependencies: Vec<String>,
    ) -> (r: Self)
        ensures
            r@ == (ResultModel {
                schema: CERTIFICATION_RESULT_SCHEMA@,
                schema_version: CERTIFICATION_SCHEMA_VERSION,
                profile: profile@,
                subject: subject@,
                status,
                certification_digest: certification_digest@,
                evidence_graph_digest: evidence_graph_digest@,
                obligations: crate::order::views(obligations@),
                summary,
                trusted_assertion_dependencies: texts(trusted_assertion_dependencies@),
            }),
    {
        CertificationResult {
            schema: String::from_str(CERTIFICATION_RESULT_SCHEMA),
            schema_version: CERTIFICATION_SCHEMA_VERSION,
            profile,
            subject,
            status,
            certification_digest,
            evidence_graph_digest,
            obligations,
            summary,
            trusted_assertion_dependencies,
        }
    }

    /// Returns aggregate certification state.
    pub fn status(&self) -> (r: CertificationStatus)
        ensures
            r == self@.status,
    {
        self.status
    }

    /// Returns the content-addressed root digest.
    pub fn certification_digest(&self) -> (r: &str)
        ensures
            r@ == self@.certification_digest,
    {
        self.certification_digest.as_str()
    }

    /// Returns the digest of the evidence graph's canonical JSON.
    pub fn evidence_graph_digest(&self) -> (r: &str)
        ensures
            r@ == self@.evidence_graph_digest,
    {
        self.evidence_graph_digest.as_str()
    }

    /// Returns all root obligations.
    pub fn obligations(&self) -> (r: &[CertificationObligation])
        ensures
            crate::order::views(r@) == self@.obligations,
    {
        self.obligations.as_slice()
    }

    /// Returns summary counts.
    pub fn summary(&self) -> (r: CertificationSummary)
        ensures
            r == self@.summary,
    {
        self.summary
    }

    /// Returns the subjects of the trusted assertions depended on.
    pub fn trusted_assertion_dependencies(&self) -> (r: &[String])
        ensures
            texts(r@) == self@.trusted_assertion_dependencies,
    {
        self.trusted_assertion_dependencies.as_slice()
    }

    /// The result as a JSON value.
    pub fn to_json(&self) -> (r: Json)
        ensures
            r@ == result_document(self@),
    {
        let mut obligations: Vec<Json> = Vec::new();
        let mut i: usize = 0;
        while i < self.obligations.len()
            invariant
                i <= self.obligations@.len(),
                obligations@.len() == i,
                forall|k: int|
                    0 <= k < i ==> #[trigger] json_model(obligations@[k]) == obligation_fields_document(
                        self.obligations@[k]@,
                    ),
            decreases self.obligations.len() - i,
        {
            obligations.push(obligation_fields_json(&self.obligations[i]));
            i = i + 1;
        }
        proof {
            lemma_json_models(obligations@);
            assert(json_models(obligations@) =~= self@.obligations.map_values(
                |o: ObligationModel| obligation_fields_document(o),
            ));
        }
        let profile_members = vec![
            (String::from_str("id"), text(self.profile.id.as_str())),
            (String::from_str("version"), Json::Number(self.profile.version as u64)),
        ];
        proof {
            lemma_member_models(profile_members@);
            assert(member_models(profile_members@) =~= seq![
                ("id"@, JsonModel::Text(self@.profile.id)),
                ("version"@, JsonModel::Number(self@.profile.version as nat)),
            ]);
        }
        let members = vec![
            (String::from_str("$schema"), text(self.schema.as_str())),
            (String::from_str("schema_version"), Json::Number(self.schema_version as u64)),
            (String::from_str("profile"), Json::Object(profile_members)),
            (String::from_str("subject"), text(self.subject.as_str())),
            (String::from_str("status"), Json::Text(String::from_str(self.status.name()))),
            (String::from_str("certification_digest"), text(self.certification_digest.as_str())),
            (String::from_str("evidence_graph_digest"), text(self.evidence_graph_digest.as_str())),
            (String::from_str("obligations"), Json::Array(obligations)),
            (String::from_str("summary"), summary_json(&self.summary)),
            (
                String::from_str("trusted_assertion_dependencies"),
                text_array(self.trusted_assertion_dependencies.as_slice()),
            ),
        ];
        proof {
            lemma_member_models(members@);
            assert(self.trusted_assertion_dependencies@.map_values(|s: String| s@) =~= texts(
                self.trusted_assertion_dependencies@,
            ));
        }
        let r = Json::Object(members);
        proof {
            assert(member_models(members@) =~= seq![
                ("$schema"@, JsonModel::Text(self@.schema)),
                ("schema_version"@, JsonModel::Number(self@.schema_version as nat)),
                (
                    "profile"@,
                    JsonModel::Object(
                        seq![
                            ("id"@, JsonModel::Text(self@.profile.id)),
                            ("version"@, JsonModel::Number(self@.profile.version as nat)),
                        ],
                    ),
                ),
                ("subject"@, JsonModel::Text(self@.subject)),
                ("status"@, JsonModel::Text(status_name(self@.status))),
                ("certification_digest"@, JsonModel::Text(self@.certification_digest)),
                ("evidence_graph_digest"@, JsonModel::Text(self@.evidence_graph_digest)),
                (
                    "obligations"@,
                    JsonModel::Array(self@.obligations.map_values(|o: ObligationModel| obligation_fields_document(o))),
                ),
                ("summary"@, summary_document(self@.summary)),
                ("trusted_assertion_dependencies"@, JsonModel::Array(text_values(self@.trusted_assertion_dependencies))),
            ]);
        }
        r
    }

    /// Serializes canonical pretty JSON with one trailing newline.
    pub fn to_json_pretty(&self) -> (r: String)
        ensures
            r@ == crate::json::pretty_document(result_document(self@)),
    {
        let document = self.to_json();
        render_pretty_document(&document)
    }
}

} // verus!
