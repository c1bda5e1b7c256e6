//! The deterministic content-addressed evidence graph.

use vstd::prelude::*;

use crate::behavior::graph::{
    adjacency_wf, has_edge, lemma_relation_reachable, reach_flags, reachable_from, relation_reachable,
};
use crate::order::{canonical_set, canonical_set_exec, views};
use crate::text::{copy_text, is_strictly_sorted, seq_lt, strictly_sorted, text_eq, text_lt, texts, texts_contain};

use crate::json::{
    json_model, json_models, lemma_json_models, lemma_member_models, member_models, pretty_document,
    render_pretty_document, text, text_array, text_values, Json, JsonModel,
};

use super::evidence::{
    body_of, class_name, content_identity, duplicate_json, result_name, EvidenceClass, EvidenceNode, NodeModel,
};
use super::{CertificationError, ErrorModel};

verus! {

/// Evidence graph schema version.
pub const EVIDENCE_GRAPH_SCHEMA_VERSION: u16 = 1;

/// Evidence graph schema identity.
pub const EVIDENCE_GRAPH_SCHEMA: &'static str = "urn:fortress:schema:v1:evidence-graph";

/// Abstract value of a Standard identity.
pub struct StandardModel {
    pub id: Seq<char>,
    pub edition: Seq<char>,
}

/// Standard identity bound into evidence.
#[derive(Debug, PartialEq, Eq)]
pub struct StandardIdentity {
    /// Stable Standard identity.
    pub id: String,
    /// Exact Standard edition.
    pub edition: String,
}

impl View for StandardIdentity {
    type V = StandardModel;

    open spec fn view(&self) -> StandardModel {
        StandardModel { id: self.id@, edition: self.edition@ }
    }
}

impl StandardIdentity {
    /// Copies the identity.
    pub fn duplicate(&self) -> (r: Self)
        ensures
            r@ == self@,
    {
        StandardIdentity { id: copy_text(self.id.as_str()), edition: copy_text(self.edition.as_str()) }
    }
}

/// Abstract value of a profile identity.
pub struct ProfileModel {
    pub id: Seq<char>,
    pub version: u16,
}

/// Certification profile identity bound into evidence.
#[derive(Debug, PartialEq, Eq)]
pub struct ProfileIdentity {
    /// Stable profile identity.
    pub id: String,
    /// Exact profile schema/semantic version.
    pub version: u16,
}

impl View for ProfileIdentity {
    type V = ProfileModel;

    open spec fn view(&self) -> ProfileModel {
        ProfileModel { id: self.id@, version: self.version }
    }
}

impl ProfileIdentity {
    /// Copies the identity.
    pub fn duplicate(&self) -> (r: Self)
        ensures
            r@ == self@,
    {
        ProfileIdentity { id: copy_text(self.id.as_str()), version: self.version }
    }
}

/// Evidence counts by authority class.
#[derive(Clone, Copy, Debug, PartialEq, Eq, Structural)]
pub struct EvidenceCoverage {
    /// Authority nodes.
    pub authority: usize,
    /// Observation nodes.
    pub observation: usize,
    /// Static proof nodes.
    pub static_proof: usize,
    /// Executed test nodes.
    pub executed_test: usize,
    /// Executed scenario nodes.
    pub executed_scenario: usize,
    /// Trusted assertion nodes.
    pub trusted_assertion: usize,
    /// Aggregate nodes.
    pub aggregate: usize,
}

/// The number of nodes of one class.
pub open spec fn class_count(nodes: Seq<NodeModel>, c: EvidenceClass) -> nat
    decreases nodes.len(),
{
    if nodes.len() == 0 {
        0
    } else {
        class_count(nodes.drop_last(), c) + if nodes.last().evidence_class == c {
            1nat
        } else {
            0nat
        }
    }
}

/// A class count never exceeds the number of nodes.
pub proof fn lemma_class_count_bound(nodes: Seq<NodeModel>, c: EvidenceClass)
    ensures
        class_count(nodes, c) <= nodes.len(),
    decreases nodes.len(),
{
    if nodes.len() > 0 {
        lemma_class_count_bound(nodes.drop_last(), c);
    }
}

/// The counts of nodes by class.
pub open spec fn coverage_of(nodes: Seq<NodeModel>) -> EvidenceCoverage {
    EvidenceCoverage {
        authority: class_count(nodes, EvidenceClass::Authority) as usize,
        observation: class_count(nodes, EvidenceClass::Observation) as usize,
        static_proof: class_count(nodes, EvidenceClass::StaticProof) as usize,
        executed_test: class_count(nodes, EvidenceClass::ExecutedTest) as usize,
        executed_scenario: class_count(nodes, EvidenceClass::ExecutedScenario) as usize,
        trusted_assertion: class_count(nodes, EvidenceClass::TrustedAssertion) as usize,
        aggregate: class_count(nodes, EvidenceClass::Aggregate) as usize,
    }
}

impl EvidenceCoverage {
    /// Counts nodes by class.
    pub fn from_nodes(nodes: &Vec<EvidenceNode>) -> (r: Self)
        ensures
            r == coverage_of(views(nodes@)),
    {
        let ghost vs = views(nodes@);
        let mut c = EvidenceCoverage {
            authority: 0,
            observation: 0,
            static_proof: 0,
            executed_test: 0,
            executed_scenario: 0,
            trusted_assertion: 0,
            aggregate: 0,
        };
        let mut i: usize = 0;
        while i < nodes.len()
            invariant
                vs == views(nodes@),
                i <= nodes@.len(),
                c.authority == class_count(vs.take(i as int), EvidenceClass::Authority),
                c.observation == class_count(vs.take(i as int), EvidenceClass::Observation),
                c.static_proof == class_count(vs.take(i as int), EvidenceClass::StaticProof),
                c.executed_test == class_count(vs.take(i as int), EvidenceClass::ExecutedTest),
                c.executed_scenario == class_count(vs.take(i as int), EvidenceClass::ExecutedScenario),
                c.trusted_assertion == class_count(vs.take(i as int), EvidenceClass::TrustedAssertion),
                c.aggregate == class_count(vs.take(i as int), EvidenceClass::Aggregate),
            decreases nodes.len() - i,
        {
            let ghost pre = vs.take(i as int);
            let ghost post = vs.take(i + 1);
            proof {
                assert(post.drop_last() =~= pre);
                assert(post.last() == nodes@[i as int]@);
                lemma_class_count_bound(pre, EvidenceClass::Authority);
                lemma_class_count_bound(pre, EvidenceClass::Observation);
                lemma_class_count_bound(pre, EvidenceClass::StaticProof);
                lemma_class_count_bound(pre, EvidenceClass::ExecutedTest);
                lemma_class_count_bound(pre, EvidenceClass::ExecutedScenario);
                lemma_class_count_bound(pre, EvidenceClass::TrustedAssertion);
                lemma_class_count_bound(pre, EvidenceClass::Aggregate);
            }
            match nodes[i].evidence_class() {
                EvidenceClass::Authority => c.authority = c.authority + 1,
                EvidenceClass::Observation => c.observation = c.observation + 1,
                EvidenceClass::StaticProof => c.static_proof = c.static_proof + 1,
                EvidenceClass::ExecutedTest => c.executed_test = c.executed_test + 1,
                EvidenceClass::ExecutedScenario => c.executed_scenario = c.executed_scenario + 1,
                EvidenceClass::TrustedAssertion => c.trusted_assertion = c.trusted_assertion + 1,
                EvidenceClass::Aggregate => c.aggregate = c.aggregate + 1,
            }
            i = i + 1;
        }
        assert(vs.take(nodes@.len() as int) =~= vs);
        c
    }
}

/// Abstract value of an evidence graph.
pub struct GraphModel {
    pub schema: Seq<char>,
    pub schema_version: u16,
    pub subject: Seq<char>,
    pub standard: StandardModel,
    pub profile: ProfileModel,
    pub nodes: Seq<NodeModel>,
    pub root_obligations: Seq<Seq<char>>,
    pub coverage: EvidenceCoverage,
    pub provenance: Seq<Seq<char>>,
}

/// Deterministic content-addressed evidence DAG.
#[derive(Debug)]
pub struct EvidenceGraph {
    schema: String,
    schema_version: u16,
    subject: String,
    standard: StandardIdentity,
    profile: ProfileIdentity,
    nodes: Vec<EvidenceNode>,
    root_obligations: Vec<String>,
    coverage: EvidenceCoverage,
    provenance: Vec<String>,
}

impl View for EvidenceGraph {
    type V = GraphModel;

    closed spec fn view(&self) -> GraphModel {
        GraphModel {
            schema: self.schema@,
            schema_version: self.schema_version,
            subject: self.subject@,
            standard: self.standard@,
            profile: self.profile@,
            nodes: views(self.nodes@),
            root_obligations: texts(self.root_obligations@),
            coverage: self.coverage,
            provenance: texts(self.provenance@),
        }
    }
}

// ---------------------------------------------------------------------------
// Canonical node order: a stable insertion sort by identity.

/// Inserts `x` after every element whose identity does not exceed its own.
pub open spec fn insert_by_id(s: Seq<NodeModel>, x: NodeModel) -> Seq<NodeModel>
    decreases s.len(),
{
    if s.len() == 0 {
        seq![x]
    } else if seq_lt(x.id, s.last().id) {
        insert_by_id(s.drop_last(), x).push(s.last())
    } else {
        s.push(x)
    }
}

/// Nodes ordered by identity, equal identities keeping their given order.
pub open spec fn sort_by_id(s: Seq<NodeModel>) -> Seq<NodeModel>
    decreases s.len(),
{
    if s.len() == 0 {
        Seq::empty()
    } else {
        insert_by_id(sort_by_id(s.drop_last()), s.last())
    }
}

proof fn lemma_insert_by_id(s: Seq<NodeModel>, x: NodeModel, j: int)
    requires
        0 <= j <= s.len(),
        forall|k: int| j <= k < s.len() ==> seq_lt(x.id, #[trigger] s[k].id),
        j == 0 || !seq_lt(x.id, s[j - 1].id),
    ensures
        insert_by_id(s, x) == s.take(j).push(x) + s.skip(j),
    decreases s.len(),
{
    if s.len() == 0 {
        assert(s.take(j).push(x) + s.skip(j) =~= seq![x]);
    } else if j == s.len() {
        assert(s.take(j) =~= s);
        assert(s.skip(j) =~= Seq::<NodeModel>::empty());
        assert(s.take(j).push(x) + s.skip(j) =~= s.push(x));
    } else {
        let t = s.drop_last();
        assert(seq_lt(x.id, s[s.len() - 1].id));
        assert forall|k: int| j <= k < t.len() implies seq_lt(x.id, #[trigger] t[k].id) by {
            assert(t[k] == s[k]);
        }
        if j > 0 {
            assert(t[j - 1] == s[j - 1]);
        }
        lemma_insert_by_id(t, x, j);
        assert(t.take(j).push(x) + t.skip(j) + seq![s.last()] =~= s.take(j).push(x) + s.skip(j));
        assert(insert_by_id(t, x).push(s.last()) =~= t.take(j).push(x) + t.skip(j) + seq![s.last()]);
    }
}

/// Orders nodes by identity, equal identities keeping their given order.
fn sort_nodes(nodes: Vec<EvidenceNode>) -> (out: Vec<EvidenceNode>)
    ensures
        views(out@) == sort_by_id(views(nodes@)),
{
    let ghost original = views(nodes@);
    let total = nodes.len();
    assert(original.len() == total);
    let mut input = nodes;
    let mut out: Vec<EvidenceNode> = Vec::new();
    let mut i: usize = 0;
    while input.len() > 0
        invariant
            i <= original.len(),
            input@.len() + i == original.len(),
            original.len() <= usize::MAX,
            views(input@) == original.skip(i as int),
            views(out@) == sort_by_id(original.take(i as int)),
        decreases input.len(),
    {
        let ghost old_input = input@;
        let x = input.remove(0);
        proof {
            assert(views(old_input)[0] == original.skip(i as int)[0]);
            assert(views(input@) =~= views(old_input).skip(1));
            assert(views(input@) =~= original.skip(i + 1));
            assert(x@ == original[i as int]);
            assert(original.take(i + 1).drop_last() =~= original.take(i as int));
        }
        let mut j = out.len();
        while j > 0 && text_lt(x.id(), out[j - 1].id())
            invariant
                j <= out@.len(),
                forall|k: int| j <= k < out@.len() ==> seq_lt(x@.id, #[trigger] views(out@)[k].id),
            decreases j,
        {
            j = j - 1;
        }
        proof {
            lemma_insert_by_id(views(out@), x@, j as int);
        }
        let ghost before = views(out@);
        out.insert(j, x);
        proof {
            assert(views(out@) =~= before.take(j as int).push(x@) + before.skip(j as int));
        }
        i = i + 1;
    }
    proof {
        assert(original.take(i as int) =~= original);
    }
    out
}

// ---------------------------------------------------------------------------
// Validation.

/// The structural problem node `i` shows, checked in order: identity order,
/// input order, repeated identity, repeated kind and subject.
pub open spec fn node_issue(nodes: Seq<NodeModel>, i: int) -> Option<ErrorModel> {
    let n = nodes[i];
    if i > 0 && seq_lt(n.id, nodes[i - 1].id) {
        Some(ErrorModel::NonCanonicalNodeOrdering)
    } else if !strictly_sorted(n.inputs) {
        Some(ErrorModel::NonCanonicalInputOrdering(n.id))
    } else if exists|j: int| 0 <= j < i && #[trigger] nodes[j].id == n.id {
        Some(ErrorModel::DuplicateNode(n.id))
    } else if exists|j: int| 0 <= j < i && #[trigger] nodes[j].kind == n.kind && nodes[j].subject == n.subject {
        Some(ErrorModel::ConflictingSemanticNode { kind: n.kind, subject: n.subject })
    } else {
        None
    }
}

/// The first structural problem among the first `k` nodes.
pub open spec fn first_node_issue(nodes: Seq<NodeModel>, k: int) -> Option<ErrorModel>
    decreases k,
{
    if k <= 0 {
        None
    } else {
        match first_node_issue(nodes, k - 1) {
            Some(e) => Some(e),
            None => node_issue(nodes, k - 1),
        }
    }
}

/// The identities of the nodes.
pub open spec fn node_ids(nodes: Seq<NodeModel>) -> Seq<Seq<char>> {
    nodes.map_values(|n: NodeModel| n.id)
}

/// The first of the first `k` references that names no identity in `ids`.
pub open spec fn first_absent(refs: Seq<Seq<char>>, ids: Seq<Seq<char>>, k: int) -> Option<Seq<char>>
    decreases k,
{
    if k <= 0 {
        None
    } else {
        match first_absent(refs, ids, k - 1) {
            Some(r) => Some(r),
            None => if ids.contains(refs[k - 1]) {
                None
            } else {
                Some(refs[k - 1])
            },
        }
    }
}

/// The first input reference, among the first `k` nodes, to an absent node.
pub open spec fn first_missing_input(nodes: Seq<NodeModel>, k: int) -> Option<ErrorModel>
    decreases k,
{
    if k <= 0 {
        None
    } else {
        match first_missing_input(nodes, k - 1) {
            Some(e) => Some(e),
            None => match first_absent(nodes[k - 1].inputs, node_ids(nodes), nodes[k - 1].inputs.len() as int) {
                Some(x) => Some(ErrorModel::MissingInput { node: nodes[k - 1].id, input: x }),
                None => None,
            },
        }
    }
}

/// Node `a` takes node `b`'s identity as an input.
pub open spec fn depends_on(nodes: Seq<NodeModel>) -> spec_fn(int, int) -> bool {
    |a: int, b: int| nodes[a].inputs.contains(nodes[b].id)
}

/// The nodes that node `v` takes as inputs.
pub open spec fn input_flags(nodes: Seq<NodeModel>, v: int) -> Seq<bool> {
    Seq::new(nodes.len(), |u: int| nodes[v].inputs.contains(nodes[u].id))
}

/// Node `v` lies on a dependency cycle: it is reachable from one of its own
/// inputs along input references.
pub open spec fn on_cycle(nodes: Seq<NodeModel>, v: int) -> bool {
    relation_reachable(nodes.len(), depends_on(nodes), input_flags(nodes, v), v)
}

/// Some node lies on a dependency cycle.
pub open spec fn has_cycle(nodes: Seq<NodeModel>) -> bool {
    exists|v: int| 0 <= v < nodes.len() && #[trigger] on_cycle(nodes, v)
}

/// The first of the first `k` nodes whose identity is not the content
/// identity of its body.
pub open spec fn first_digest_mismatch(nodes: Seq<NodeModel>, k: int) -> Option<Seq<char>>
    decreases k,
{
    if k <= 0 {
        None
    } else {
        match first_digest_mismatch(nodes, k - 1) {
            Some(id) => Some(id),
            None => if content_identity(body_of(nodes[k - 1])) == nodes[k - 1].id {
                None
            } else {
                Some(nodes[k - 1].id)
            },
        }
    }
}

/// The outcome of validating a graph.
pub enum Validation {
    /// Every invariant holds.
    Valid,
    /// The first failed check, with its error.
    Invalid(ErrorModel),
    /// The graph passes every earlier check but has a dependency cycle.
    Cyclic,
}

/// Validation, check by check: schema version; per node, in order,
/// identity order, input order, unique identity and unique kind and subject;
/// every input reference resolves; every root resolves; no dependency cycle;
/// every identity is the content identity of its node's body.
pub open spec fn validation(g: GraphModel) -> Validation {
    let n = g.nodes.len() as int;
    if g.schema_version != EVIDENCE_GRAPH_SCHEMA_VERSION {
        Validation::Invalid(ErrorModel::InvalidSchemaVersion(g.schema_version))
    } else if first_node_issue(g.nodes, n) is Some {
        Validation::Invalid(first_node_issue(g.nodes, n)->0)
    } else if first_missing_input(g.nodes, n) is Some {
        Validation::Invalid(first_missing_input(g.nodes, n)->0)
    } else if first_absent(g.root_obligations, node_ids(g.nodes), g.root_obligations.len() as int) is Some {
        Validation::Invalid(
            ErrorModel::MissingRoot(
                first_absent(g.root_obligations, node_ids(g.nodes), g.root_obligations.len() as int)->0,
            ),
        )
    } else if has_cycle(g.nodes) {
        Validation::Cyclic
    } else if first_digest_mismatch(g.nodes, n) is Some {
        Validation::Invalid(ErrorModel::NodeDigestMismatch(first_digest_mismatch(g.nodes, n)->0))
    } else {
        Validation::Valid
    }
}

/// What `validate` returns for a graph with this validation outcome.
pub open spec fn validated(g: GraphModel, r: Result<(), CertificationError>) -> bool {
    match validation(g) {
        Validation::Valid => r is Ok,
        Validation::Invalid(e) => r matches Err(x) && x@ == e,
        Validation::Cyclic => r matches Err(x) && x matches CertificationError::Cycle(id) && exists|v: int|
            0 <= v < g.nodes.len() && on_cycle(g.nodes, v) && #[trigger] g.nodes[v].id == id@,
    }
}

fn node_issue_exec(nodes: &Vec<EvidenceNode>, i: usize) -> (r: Option<CertificationError>)
    requires
        i < nodes@.len(),
    ensures
        match node_issue(views(nodes@), i as int) {
            Some(e) => r matches Some(x) && x@ == e,
            None => r is None,
        },
{
    let ghost vs = views(nodes@);
    let n = &nodes[i];
    assert(vs[i as int] == nodes@[i as int]@);
    if i > 0 {
        assert(vs[i - 1] == nodes@[i - 1]@);
    }
    if i > 0 && text_lt(n.id(), nodes[i - 1].id()) {
        return Some(CertificationError::NonCanonicalNodeOrdering);
    }
    let inputs = n.inputs();
    let mut k: usize = 0;
    let mut sorted = true;
    let owned = crate::text::copy_texts(inputs);
    if !is_strictly_sorted(&owned) {
        return Some(CertificationError::NonCanonicalInputOrdering(copy_text(n.id())));
    }
    let mut j: usize = 0;
    while j < i
        invariant
            vs == views(nodes@),
            i < nodes@.len(),
            j <= i,
            !(i > 0 && seq_lt(vs[i as int].id, vs[i - 1].id)),
            strictly_sorted(vs[i as int].inputs),
            forall|t: int| 0 <= t < j ==> vs[t].id != vs[i as int].id,
        decreases i - j,
    {
        assert(vs[j as int] == nodes@[j as int]@);
        if text_eq(nodes[j].id(), nodes[i].id()) {
            assert(vs[j as int].id == vs[i as int].id);
            return Some(CertificationError::DuplicateNode(copy_text(nodes[i].id())));
        }
        j = j + 1;
    }
    let mut j: usize = 0;
    while j < i
        invariant
            vs == views(nodes@),
            i < nodes@.len(),
            j <= i,
            !(i > 0 && seq_lt(vs[i as int].id, vs[i - 1].id)),
            strictly_sorted(vs[i as int].inputs),
            forall|t: int| 0 <= t < i ==> vs[t].id != vs[i as int].id,
            forall|t: int| 0 <= t < j ==> !(vs[t].kind == vs[i as int].kind && vs[t].subject == vs[i as int].subject),
        decreases i - j,
    {
        assert(vs[j as int] == nodes@[j as int]@);
        if text_eq(nodes[j].kind(), nodes[i].kind()) && text_eq(nodes[j].subject(), nodes[i].subject()) {
            assert(vs[j as int].kind == vs[i as int].kind && vs[j as int].subject == vs[i as int].subject);
            return Some(
                CertificationError::ConflictingSemanticNode {
                    kind: copy_text(nodes[i].kind()),
                    subject: copy_text(nodes[i].subject()),
                },
            );
        }
        j = j + 1;
    }
    None
}

fn first_absent_exec(refs: &[String], ids: &Vec<String>) -> (r: Option<String>)
    ensures
        match first_absent(texts(refs@), texts(ids@), refs@.len() as int) {
            Some(x) => r matches Some(s) && s@ == x,
            None => r is None,
        },
{
    let ghost rs = texts(refs@);
    let mut k: usize = 0;
    while k < refs.len()
        invariant
            rs == texts(refs@),
            k <= refs@.len(),
            first_absent(rs, texts(ids@), k as int) is None,
        decreases refs.len() - k,
    {
        if !texts_contain(ids, refs[k].as_str()) {
            assert(first_absent(rs, texts(ids@), k + 1) == Some(rs[k as int]));
            proof {
                lemma_first_absent_stable(rs, texts(ids@), k + 1, refs@.len() as int);
            }
            return Some(copy_text(refs[k].as_str()));
        }
        k = k + 1;
    }
    None
}

proof fn lemma_first_absent_stable(refs: Seq<Seq<char>>, ids: Seq<Seq<char>>, k: int, m: int)
    requires
        0 <= k <= m,
        first_absent(refs, ids, k) is Some,
    ensures
        first_absent(refs, ids, m) == first_absent(refs, ids, k),
    decreases m - k,
{
    if m > k {
        lemma_first_absent_stable(refs, ids, k, m - 1);
    }
}

proof fn lemma_first_node_issue_stable(nodes: Seq<NodeModel>, k: int, m: int)
    requires
        0 <= k <= m,
        first_node_issue(nodes, k) is Some,
    ensures
        first_node_issue(nodes, m) == first_node_issue(nodes, k),
    decreases m - k,
{
    if m > k {
        lemma_first_node_issue_stable(nodes, k, m - 1);
    }
}

proof fn lemma_first_missing_input_stable(nodes: Seq<NodeModel>, k: int, m: int)
    requires
        0 <= k <= m,
        first_missing_input(nodes, k) is Some,
    ensures
        first_missing_input(nodes, m) == first_missing_input(nodes, k),
    decreases m - k,
{
    if m > k {
        lemma_first_missing_input_stable(nodes, k, m - 1);
    }
}

proof fn lemma_first_digest_mismatch_stable(nodes: Seq<NodeModel>, k: int, m: int)
    requires
        0 <= k <= m,
        first_digest_mismatch(nodes, k) is Some,
    ensures
        first_digest_mismatch(nodes, m) == first_digest_mismatch(nodes, k),
    decreases m - k,
{
    if m > k {
        lemma_first_digest_mismatch_stable(nodes, k, m - 1);
    }
}

fn node_identities(nodes: &Vec<EvidenceNode>) -> (r: Vec<String>)
    ensures
        texts(r@) == node_ids(views(nodes@)),
{
    let mut out: Vec<String> = Vec::new();
    let mut i: usize = 0;
    while i < nodes.len()
        invariant
            i <= nodes@.len(),
            texts(out@) == node_ids(views(nodes@)).take(i as int),
        decreases nodes.len() - i,
    {
        let ghost before = texts(out@);
        out.push(copy_text(nodes[i].id()));
        proof {
            assert(views(nodes@)[i as int] == nodes@[i as int]@);
            assert(texts(out@) =~= before.push(nodes@[i as int]@.id));
            assert(node_ids(views(nodes@)).take(i + 1) =~= node_ids(views(nodes@)).take(i as int).push(
                nodes@[i as int]@.id,
            ));
        }
        i = i + 1;
    }
    assert(node_ids(views(nodes@)).take(nodes@.len() as int) =~= node_ids(views(nodes@)));
    out
}

/// The plain adjacency lists.
pub open spec fn adjacency_view(adj: Seq<Vec<usize>>) -> Seq<Seq<usize>> {
    adj.map_values(|s: Vec<usize>| s@)
}

/// The adjacency of input references: `adj[a]` lists the nodes whose
/// identity node `a` takes as an input.
fn input_adjacency(nodes: &Vec<EvidenceNode>) -> (adj: Vec<Vec<usize>>)
    ensures
        adj@.len() == nodes@.len(),
        adjacency_wf(adj@.map_values(|s: Vec<usize>| s@)),
        forall|a: int, b: int|
            0 <= a < nodes@.len() && 0 <= b < nodes@.len() ==> (#[trigger] has_edge(adjacency_view(adj@), a, b)
                <==> depends_on(views(nodes@))(a, b)),
{
    let ghost vs = views(nodes@);
    let n = nodes.len();
    let mut adj: Vec<Vec<usize>> = Vec::new();
    let mut a: usize = 0;
    while a < n
        invariant
            n == nodes@.len(),
            vs == views(nodes@),
            a <= n,
            adj@.len() == a,
            forall|x: int, k: int| 0 <= x < a && 0 <= k < adj@[x]@.len() ==> #[trigger] adj@[x]@[k] < n,
            forall|x: int, b: int|
                0 <= x < a && 0 <= b < n ==> (#[trigger] adj@[x]@.contains(b as usize) <==> vs[x].inputs.contains(
                    vs[b].id,
                )),
        decreases n - a,
    {
        let inputs = crate::text::copy_texts(nodes[a].inputs());
        let mut row: Vec<usize> = Vec::new();
        let mut b: usize = 0;
        while b < n
            invariant
                n == nodes@.len(),
                vs == views(nodes@),
                a < n,
                b <= n,
                texts(inputs@) == vs[a as int].inputs,
                forall|k: int| 0 <= k < row@.len() ==> #[trigger] row@[k] < b,
                forall|c: int| 0 <= c < b ==> (#[trigger] row@.contains(c as usize) <==> vs[a as int].inputs.contains(vs[c].id)),
            decreases n - b,
        {
            let ghost old_row = row@;
            if texts_contain(&inputs, nodes[b].id()) {
                row.push(b);
                proof {
                    assert forall|c: int| 0 <= c < b + 1 implies (#[trigger] row@.contains(c as usize)
                        <==> vs[a as int].inputs.contains(vs[c].id)) by {
                        if c < b {
                            if row@.contains(c as usize) {
                                let k = choose|k: int| 0 <= k < row@.len() && row@[k] == c as usize;
                                if k == old_row.len() {
                                } else {
                                    assert(old_row[k] == c as usize);
                                }
                            }
                            if old_row.contains(c as usize) {
                                let k = choose|k: int| 0 <= k < old_row.len() && old_row[k] == c as usize;
                                assert(row@[k] == c as usize);
                            }
                        } else {
                            assert(row@[old_row.len() as int] == b);
                        }
                    }
                }
            } else {
                proof {
                    assert(!old_row.contains(b as usize));
                }
            }
            b = b + 1;
        }
        adj.push(row);
        a = a + 1;
    }
    proof {
        let g = adj@.map_values(|s: Vec<usize>| s@);
        assert forall|x: int, b: int| 0 <= x < nodes@.len() && 0 <= b < nodes@.len() implies (#[trigger] has_edge(
            g,
            x,
            b,
        ) <==> depends_on(views(nodes@))(x, b)) by {
            assert(g[x] == adj@[x]@);
        }
        assert forall|x: int, k: int| 0 <= x < g.len() && 0 <= k < g[x].len() implies #[trigger] g[x][k] < g.len() by {
            assert(g[x] == adj@[x]@);
        }
    }
    adj
}

/// Finds a node on a dependency cycle, if any.
fn cycle_member(nodes: &Vec<EvidenceNode>) -> (r: Option<usize>)
    ensures
        match r {
            Some(v) => v < nodes@.len() && on_cycle(views(nodes@), v as int),
            None => !has_cycle(views(nodes@)),
        },
{
    let ghost vs = views(nodes@);
    let adj = input_adjacency(nodes);
    let ghost g = adj@.map_values(|s: Vec<usize>| s@);
    assert(g == adjacency_view(adj@));
    let n = nodes.len();
    let mut v: usize = 0;
    while v < n
        invariant
            n == nodes@.len(),
            vs == views(nodes@),
            g == adj@.map_values(|s: Vec<usize>| s@),
            adj@.len() == n,
            adjacency_wf(g),
            forall|a: int, b: int| 0 <= a < n && 0 <= b < n ==> (#[trigger] has_edge(g, a, b) <==> depends_on(vs)(a, b)),
            v <= n,
            forall|u: int| 0 <= u < v ==> !on_cycle(vs, u),
        decreases n - v,
    {
        let mut sources: Vec<bool> = Vec::new();
        let mut u: usize = 0;
        while u < n
            invariant
                n == nodes@.len(),
                vs == views(nodes@),
                v < n,
                u <= n,
                sources@.len() == u,
                forall|k: int| 0 <= k < u ==> #[trigger] sources@[k] == vs[v as int].inputs.contains(vs[k].id),
            decreases n - u,
        {
            let inputs = crate::text::copy_texts(nodes[v].inputs());
            sources.push(texts_contain(&inputs, nodes[u].id()));
            u = u + 1;
        }
        proof {
            assert(sources@ =~= input_flags(vs, v as int));
        }
        let flags = reach_flags(&adj, &sources, None);
        proof {
            lemma_relation_reachable(g, depends_on(vs), sources@, v as int);
        }
        if flags[v] {
            return Some(v);
        }
        v = v + 1;
    }
    None
}

impl EvidenceGraph {
    /// Validates content identities, references, ordering, and acyclicity.
    pub fn validate(&self) -> (r: Result<(), CertificationError>)
        ensures
            validated(self@, r),
    {
        let ghost g = self@;
        let ghost vs = g.nodes;
        if self.schema_version != EVIDENCE_GRAPH_SCHEMA_VERSION {
            return Err(CertificationError::InvalidSchemaVersion(self.schema_version));
        }
        let nodes = &self.nodes;
        let n = nodes.len();
        let mut i: usize = 0;
        while i < n
            invariant
                n == nodes@.len(),
                vs == views(nodes@),
                g == self@,
                vs == g.nodes,
                g.schema_version == EVIDENCE_GRAPH_SCHEMA_VERSION,
                i <= n,
                first_node_issue(vs, i as int) is None,
            decreases n - i,
        {
            match node_issue_exec(nodes, i) {
                Some(e) => {
                    proof {
                        assert(first_node_issue(vs, i + 1) == node_issue(vs, i as int));
                        lemma_first_node_issue_stable(vs, i + 1, n as int);
                        assert(validation(g) == Validation::Invalid(e@));
                    }
                    return Err(e);
                },
                None => {},
            }
            i = i + 1;
        }
        let ids = node_identities(nodes);
        let mut i: usize = 0;
        while i < n
            invariant
                n == nodes@.len(),
                vs == views(nodes@),
                g == self@,
                vs == g.nodes,
                g.schema_version == EVIDENCE_GRAPH_SCHEMA_VERSION,
                first_node_issue(vs, n as int) is None,
                texts(ids@) == node_ids(vs),
                i <= n,
                first_missing_input(vs, i as int) is None,
            decreases n - i,
        {
            match first_absent_exec(nodes[i].inputs(), &ids) {
                Some(input) => {
                    proof {
                        assert(views(nodes@)[i as int] == nodes@[i as int]@);
                        assert(first_missing_input(vs, i + 1) == Some(
                            ErrorModel::MissingInput { node: vs[i as int].id, input: input@ },
                        ));
                        lemma_first_missing_input_stable(vs, i + 1, n as int);
                    }
                    return Err(CertificationError::MissingInput { node: copy_text(nodes[i].id()), input });
                },
                None => {},
            }
            i = i + 1;
        }
        match first_absent_exec(self.root_obligations.as_slice(), &ids) {
            Some(root) => {
                return Err(CertificationError::MissingRoot(root));
            },
            None => {},
        }
        match cycle_member(nodes) {
            Some(v) => {
                return Err(CertificationError::Cycle(copy_text(nodes[v].id())));
            },
            None => {},
        }
        let mut i: usize = 0;
        while i < n
            invariant
                n == nodes@.len(),
                vs == views(nodes@),
                g == self@,
                vs == g.nodes,
                g.schema_version == EVIDENCE_GRAPH_SCHEMA_VERSION,
                first_node_issue(vs, n as int) is None,
                first_missing_input(vs, n as int) is None,
                first_absent(g.root_obligations, node_ids(vs), g.root_obligations.len() as int) is None,
                !has_cycle(vs),
                i <= n,
                first_digest_mismatch(vs, i as int) is None,
            decreases n - i,
        {
            let recomputed = nodes[i].recompute_id();
            if !text_eq(recomputed.as_str(), nodes[i].id()) {
                proof {
                    assert(views(nodes@)[i as int] == nodes@[i as int]@);
                    assert(first_digest_mismatch(vs, i + 1) == Some(vs[i as int].id));
                    lemma_first_digest_mismatch_stable(vs, i + 1, n as int);
                }
                return Err(CertificationError::NodeDigestMismatch(copy_text(nodes[i].id())));
            }
            i = i + 1;
        }
        Ok(())
    }
}

/// The graph assembled from its parts: nodes in identity order, roots in
/// canonical order without repetition, and the class counts of the nodes.
pub open spec fn graph_from(
    subject: Seq<char>,
    standard: StandardModel,
    profile: ProfileModel,
    nodes: Seq<NodeModel>,
    roots: Seq<Seq<char>>,
    provenance: Seq<Seq<char>>,
) -> GraphModel {
    let sorted = sort_by_id(nodes);
    GraphModel {
        schema: EVIDENCE_GRAPH_SCHEMA@,
        schema_version: EVIDENCE_GRAPH_SCHEMA_VERSION,
        subject,
        standard,
        profile,
        nodes: sorted,
        root_obligations: canonical_set::<String>(roots),
        coverage: coverage_of(sorted),
        provenance,
    }
}

/// What constructing the graph `m` returns: the graph when it validates,
/// and otherwise the validation error.
pub open spec fn built(m: GraphModel, r: Result<EvidenceGraph, CertificationError>) -> bool {
    match validation(m) {
        Validation::Valid => r matches Ok(g) && g@ == m,
        Validation::Invalid(e) => r matches Err(x) && x@ == e,
        Validation::Cyclic => r matches Err(x) && x matches CertificationError::Cycle(id) && exists|v: int|
            0 <= v < m.nodes.len() && on_cycle(m.nodes, v) && #[trigger] m.nodes[v].id == id@,
    }
}

/// Node `b` takes node `a`'s identity as an input.
pub open spec fn depended_on_by(nodes: Seq<NodeModel>) -> spec_fn(int, int) -> bool {
    |a: int, b: int| nodes[b].inputs.contains(nodes[a].id)
}

/// The nodes that take a changed identity as an input.
pub open spec fn changed_inputs(nodes: Seq<NodeModel>, changed: Seq<Seq<char>>) -> Seq<bool> {
    Seq::new(nodes.len(), |j: int| exists|c: Seq<char>| changed.contains(c) && #[trigger] nodes[j].inputs.contains(c))
}

/// `x` is affected by a change of the identities `changed`: it is changed
/// itself, or it names a node that depends, through input references, on a
/// changed identity.
pub open spec fn is_affected(nodes: Seq<NodeModel>, changed: Seq<Seq<char>>, x: Seq<char>) -> bool {
    changed.contains(x) || exists|j: int|
        0 <= j < nodes.len() && #[trigger] nodes[j].id == x && relation_reachable(
            nodes.len(),
            depended_on_by(nodes),
            changed_inputs(nodes, changed),
            j,
        )
}

/// The adjacency of dependents: `adj[a]` lists the nodes that take node
/// `a`'s identity as an input.
fn dependent_adjacency(nodes: &Vec<EvidenceNode>) -> (adj: Vec<Vec<usize>>)
    ensures
        adj@.len() == nodes@.len(),
        adjacency_wf(adjacency_view(adj@)),
        forall|a: int, b: int|
            0 <= a < nodes@.len() && 0 <= b < nodes@.len() ==> (#[trigger] has_edge(adjacency_view(adj@), a, b)
                <==> depended_on_by(views(nodes@))(a, b)),
{
    let ghost vs = views(nodes@);
    let n = nodes.len();
    let mut adj: Vec<Vec<usize>> = Vec::new();
    let mut a: usize = 0;
    while a < n
        invariant
            n == nodes@.len(),
            vs == views(nodes@),
            a <= n,
            adj@.len() == a,
            forall|x: int, k: int| 0 <= x < a && 0 <= k < adj@[x]@.len() ==> #[trigger] adj@[x]@[k] < n,
            forall|x: int, b: int|
                0 <= x < a && 0 <= b < n ==> (#[trigger] adj@[x]@.contains(b as usize) <==> vs[b].inputs.contains(
                    vs[x].id,
                )),
        decreases n - a,
    {
        let mut row: Vec<usize> = Vec::new();
        let mut b: usize = 0;
        while b < n
            invariant
                n == nodes@.len(),
                vs == views(nodes@),
                a < n,
                b <= n,
                forall|k: int| 0 <= k < row@.len() ==> #[trigger] row@[k] < b,
                forall|c: int| 0 <= c < b ==> (#[trigger] row@.contains(c as usize) <==> vs[c].inputs.contains(vs[a as int].id)),
            decreases n - b,
        {
            let ghost old_row = row@;
            let inputs = crate::text::copy_texts(nodes[b].inputs());
            assert(vs[b as int] == nodes@[b as int]@);
            assert(vs[a as int] == nodes@[a as int]@);
            if texts_contain(&inputs, nodes[a].id()) {
                row.push(b);
                proof {
                    assert forall|c: int| 0 <= c < b + 1 implies (#[trigger] row@.contains(c as usize)
                        <==> vs[c].inputs.contains(vs[a as int].id)) by {
                        if c < b {
                            if row@.contains(c as usize) {
                                let k = choose|k: int| 0 <= k < row@.len() && row@[k] == c as usize;
                                if k < old_row.len() {
                                    assert(old_row[k] == c as usize);
                                }
                            }
                            if old_row.contains(c as usize) {
                                let k = choose|k: int| 0 <= k < old_row.len() && old_row[k] == c as usize;
                                assert(row@[k] == c as usize);
                            }
                        } else {
                            assert(row@[old_row.len() as int] == b);
                        }
                    }
                }
            } else {
                proof {
                    assert(!old_row.contains(b as usize));
                }
            }
            b = b + 1;
        }
        adj.push(row);
        a = a + 1;
    }
    proof {
        let g = adjacency_view(adj@);
        assert forall|x: int, b: int| 0 <= x < nodes@.len() && 0 <= b < nodes@.len() implies (#[trigger] has_edge(
            g,
            x,
            b,
        ) <==> depended_on_by(views(nodes@))(x, b)) by {
            assert(g[x] == adj@[x]@);
        }
        assert forall|x: int, k: int| 0 <= x < g.len() && 0 <= k < g[x].len() implies #[trigger] g[x][k] < g.len() by {
            assert(g[x] == adj@[x]@);
        }
    }
    adj
}

/// The identities of the flagged nodes among the first `k`, in order.
pub open spec fn flagged_ids(nodes: Seq<NodeModel>, flags: Seq<bool>, k: int) -> Seq<Seq<char>>
    decreases k,
{
    if k <= 0 {
        Seq::empty()
    } else {
        flagged_ids(nodes, flags, k - 1) + if flags[k - 1] {
            seq![nodes[k - 1].id]
        } else {
            Seq::empty()
        }
    }
}

proof fn lemma_flagged_ids(nodes: Seq<NodeModel>, flags: Seq<bool>, k: int)
    requires
        0 <= k <= nodes.len(),
        k <= flags.len(),
    ensures
        forall|x: Seq<char>|
            #[trigger] flagged_ids(nodes, flags, k).contains(x) <==> exists|u: int|
                0 <= u < k && flags[u] && nodes[u].id == x,
    decreases k,
{
    if k > 0 {
        lemma_flagged_ids(nodes, flags, k - 1);
        let pre = flagged_ids(nodes, flags, k - 1);
        let f = flagged_ids(nodes, flags, k);
        assert forall|x: Seq<char>| #[trigger] f.contains(x) <==> exists|u: int| 0 <= u < k && flags[u] && nodes[u].id == x by {
            if f.contains(x) {
                let t = choose|t: int| 0 <= t < f.len() && f[t] == x;
                if t < pre.len() {
                    assert(pre[t] == x);
                    assert(pre.contains(x));
                } else {
                    assert(flags[k - 1] && nodes[k - 1].id == x);
                }
            }
            if exists|u: int| 0 <= u < k && flags[u] && nodes[u].id == x {
                let u = choose|u: int| 0 <= u < k && flags[u] && nodes[u].id == x;
                if u < k - 1 {
                    assert(pre.contains(x));
                    let t = choose|t: int| 0 <= t < pre.len() && pre[t] == x;
                    assert(f[t] == x);
                } else {
                    assert(f[pre.len() as int] == x);
                }
            }
        }
    }
}

/// Whether some input of `inputs` is among `changed`.
fn any_changed(inputs: &[String], changed: &Vec<String>) -> (r: bool)
    ensures
        r == exists|c: Seq<char>| texts(changed@).contains(c) && #[trigger] texts(inputs@).contains(c),
{
    let ghost ins = texts(inputs@);
    let mut k: usize = 0;
    while k < inputs.len()
        invariant
            ins == texts(inputs@),
            k <= inputs@.len(),
            forall|t: int| 0 <= t < k ==> !texts(changed@).contains(#[trigger] ins[t]),
        decreases inputs.len() - k,
    {
        if texts_contain(changed, inputs[k].as_str()) {
            assert(ins.contains(ins[k as int]));
            return true;
        }
        k = k + 1;
    }
    proof {
        assert forall|c: Seq<char>| texts(changed@).contains(c) implies !#[trigger] ins.contains(c) by {
            if ins.contains(c) {
                let t = choose|t: int| 0 <= t < ins.len() && ins[t] == c;
                assert(!texts(changed@).contains(ins[t]));
            }
        }
    }
    false
}

impl EvidenceGraph {
    /// Creates, sorts, and validates a graph.
    pub fn new(
        subject: String,
        standard: StandardIdentity,
        profile: ProfileIdentity,
        nodes: Vec<EvidenceNode>,
        root_obligations: Vec<String>,
        provenance: Vec<String>,
    ) -> (r: Result<Self, CertificationError>)
        ensures
            built(
                graph_from(subject@, standard@, profile@, views(nodes@), texts(root_obligations@), texts(provenance@)),
                r,
            ),
    {
        let ghost m = graph_from(subject@, standard@, profile@, views(nodes@), texts(root_obligations@), texts(provenance@));
        let nodes = sort_nodes(nodes);
        proof {
            assert(views(root_obligations@) =~= texts(root_obligations@));
        }
        let root_obligations = canonical_set_exec(root_obligations);
        proof {
            assert(views(root_obligations@) =~= texts(root_obligations@));
        }
        let coverage = EvidenceCoverage::from_nodes(&nodes);
        let graph = EvidenceGraph {
            schema: String::from_str(EVIDENCE_GRAPH_SCHEMA),
            schema_version: EVIDENCE_GRAPH_SCHEMA_VERSION,
            subject,
            standard,
            profile,
            nodes,
            root_obligations,
            coverage,
            provenance,
        };
        assert(graph@ == m);
        match graph.validate() {
            Ok(()) => Ok(graph),
            Err(e) => Err(e),
        }
    }

    /// Restores a graph from its stored fields without checking them; see
    /// `validate`.
    pub fn from_parts(
        schema: String,
        schema_version: u16,
        subject: String,
        standard: StandardIdentity,
        profile: ProfileIdentity,
        nodes: Vec<EvidenceNode>,
        root_obligations: Vec<String>,
        coverage: EvidenceCoverage,
        provenance: Vec<String>,
    ) -> (r: Self)
        ensures
            r@ == (GraphModel {
                schema: schema@,
                schema_version,
                subject: subject@,
                standard: standard@,
                profile: profile@,
                nodes: views(nodes@),
                root_obligations: texts(root_obligations@),
                coverage,
                provenance: texts(provenance@),
            }),
    {
        EvidenceGraph { schema, schema_version, subject, standard, profile, nodes, root_obligations, coverage, provenance }
    }

    /// Returns the schema identity.
    pub fn schema(&self) -> (r: &str)
        ensures
            r@ == self@.schema,
    {
        self.schema.as_str()
    }

    /// Returns the schema version.
    pub fn schema_version(&self) -> (r: u16)
        ensures
            r == self@.schema_version,
    {
        self.schema_version
    }

    /// Returns nodes in content-address order.
    pub fn nodes(&self) -> (r: &[EvidenceNode])
        ensures
            views(r@) == self@.nodes,
    {
        self.nodes.as_slice()
    }

    /// Returns root obligation references.
    pub fn root_obligations(&self) -> (r: &[String])
        ensures
            texts(r@) == self@.root_obligations,
    {
        self.root_obligations.as_slice()
    }

    /// Returns the exact source subject digest.
    pub fn subject(&self) -> (r: &str)
        ensures
            r@ == self@.subject,
    {
        self.subject.as_str()
    }

    /// Returns the Standard identity.
    pub fn standard(&self) -> (r: &StandardIdentity)
        ensures
            r@ == self@.standard,
    {
        &self.standard
    }

    /// Returns the profile identity.
    pub fn profile(&self) -> (r: &ProfileIdentity)
        ensures
            r@ == self@.profile,
    {
        &self.profile
    }

    /// Returns counts by evidence class.
    pub fn coverage(&self) -> (r: EvidenceCoverage)
        ensures
            r == self@.coverage,
    {
        self.coverage
    }

    /// Returns the provenance statements.
    pub fn provenance(&self) -> (r: &[String])
        ensures
            texts(r@) == self@.provenance,
    {
        self.provenance.as_slice()
    }

    /// Derives every node identity transitively affected by changed node
    /// identities, in canonical order; the changed identities are included.
    pub fn affected(&self, changed: &Vec<String>) -> (r: Vec<String>)
        ensures
            strictly_sorted(texts(r@)),
            forall|x: Seq<char>| #[trigger] texts(r@).contains(x) <==> is_affected(self@.nodes, texts(changed@), x),
    {
        let nodes = &self.nodes;
        let ghost vs = views(nodes@);
        let n = nodes.len();
        let adj = dependent_adjacency(nodes);
        let mut sources: Vec<bool> = Vec::new();
        let mut j: usize = 0;
        while j < n
            invariant
                n == nodes@.len(),
                vs == views(nodes@),
                j <= n,
                sources@.len() == j,
                forall|k: int| 0 <= k < j ==> #[trigger] sources@[k] == changed_inputs(vs, texts(changed@))[k],
            decreases n - j,
        {
            assert(vs[j as int] == nodes@[j as int]@);
            sources.push(any_changed(nodes[j].inputs(), changed));
            j = j + 1;
        }
        proof {
            assert(sources@ =~= changed_inputs(vs, texts(changed@)));
        }
        let flags = reach_flags(&adj, &sources, None);
        proof {
            assert forall|u: int| 0 <= u < n implies (flags@[u] <==> relation_reachable(
                n as nat,
                depended_on_by(vs),
                changed_inputs(vs, texts(changed@)),
                u,
            )) by {
                lemma_relation_reachable(adjacency_view(adj@), depended_on_by(vs), sources@, u);
            }
        }
        let mut out = crate::text::copy_texts(changed.as_slice());
        let mut v: usize = 0;
        while v < n
            invariant
                n == nodes@.len(),
                vs == views(nodes@),
                flags@.len() == n,
                v <= n,
                texts(out@) == texts(changed@) + flagged_ids(vs, flags@, v as int),
            decreases n - v,
        {
            let ghost before = texts(out@);
            assert(vs[v as int] == nodes@[v as int]@);
            if flags[v] {
                out.push(copy_text(nodes[v].id()));
                proof {
                    assert(texts(out@) =~= before.push(vs[v as int].id));
                }
            }
            assert(texts(out@) =~= texts(changed@) + flagged_ids(vs, flags@, v + 1));
            v = v + 1;
        }
        proof {
            lemma_flagged_ids(vs, flags@, n as int);
            assert forall|x: Seq<char>| texts(out@).contains(x) <==> is_affected(vs, texts(changed@), x) by {
                let c = texts(changed@);
                let f = flagged_ids(vs, flags@, n as int);
                if texts(out@).contains(x) {
                    let k = choose|k: int| 0 <= k < texts(out@).len() && texts(out@)[k] == x;
                    if k >= c.len() {
                        assert(f[k - c.len()] == x);
                        assert(f.contains(x));
                        let u = choose|u: int| 0 <= u < n && flags@[u] && vs[u].id == x;
                        assert(vs[u].id == x);
                    } else {
                        assert(c[k] == x);
                    }
                }
                if is_affected(vs, c, x) {
                    if c.contains(x) {
                        let k = choose|k: int| 0 <= k < c.len() && c[k] == x;
                        assert(texts(out@)[k] == x);
                    } else {
                        let u = choose|u: int| 0 <= u < vs.len() && #[trigger] vs[u].id == x && relation_reachable(
                            vs.len(),
                            depended_on_by(vs),
                            changed_inputs(vs, c),
                            u,
                        );
                        assert(flags@[u]);
                        assert(f.contains(x));
                        let k = choose|k: int| 0 <= k < f.len() && f[k] == x;
                        assert(texts(out@)[c.len() + k] == x);
                    }
                }
            }
            assert(views(out@) =~= texts(out@));
        }
        let result = canonical_set_exec(out);
        proof {
            crate::order::lemma_canonical_set::<String>(texts(out@));
            assert(views(result@) =~= texts(result@));
        }
        result
    }
}

// ---------------------------------------------------------------------------
// Canonical JSON.

/// The JSON document of a node: every field, in declaration order.
pub open spec fn node_document(n: NodeModel) -> JsonModel {
    JsonModel::Object(
        seq![
            ("id"@, JsonModel::Text(n.id)),
            ("kind"@, JsonModel::Text(n.kind)),
            ("subject"@, JsonModel::Text(n.subject)),
            ("result"@, JsonModel::Text(result_name(n.result))),
            ("inputs"@, JsonModel::Array(text_values(n.inputs))),
            ("producer"@, JsonModel::Text(n.producer)),
            ("producer_semantic_version"@, JsonModel::Text(n.producer_semantic_version)),
            ("evidence_class"@, JsonModel::Text(class_name(n.evidence_class))),
            ("payload"@, n.payload),
        ],
    )
}

/// The JSON document of the class counts.
pub open spec fn coverage_document(c: EvidenceCoverage) -> JsonModel {
    JsonModel::Object(
        seq![
            ("authority"@, JsonModel::Number(c.authority as nat)),
            ("observation"@, JsonModel::Number(c.observation as nat)),
            ("static_proof"@, JsonModel::Number(c.static_proof as nat)),
            ("executed_test"@, JsonModel::Number(c.executed_test as nat)),
            ("executed_scenario"@, JsonModel::Number(c.executed_scenario as nat)),
            ("trusted_assertion"@, JsonModel::Number(c.trusted_assertion as nat)),
            ("aggregate"@, JsonModel::Number(c.aggregate as nat)),
        ],
    )
}

/// The JSON document of a graph: every field, in declaration order.
pub open spec fn graph_document(g: GraphModel) -> JsonModel {
    JsonModel::Object(
        seq![
            ("$schema"@, JsonModel::Text(g.schema)),
            ("schema_version"@, JsonModel::Number(g.schema_version as nat)),
            ("subject"@, JsonModel::Text(g.subject)),
            (
                "standard"@,
                JsonModel::Object(
                    seq![("id"@, JsonModel::Text(g.standard.id)), ("edition"@, JsonModel::Text(g.standard.edition))],
                ),
            ),
            (
                "profile"@,
                JsonModel::Object(
                    seq![("id"@, JsonModel::Text(g.profile.id)), ("version"@, JsonModel::Number(g.profile.version as nat))],
                ),
            ),
            ("nodes"@, JsonModel::Array(g.nodes.map_values(|n: NodeModel| node_document(n)))),
            ("root_obligations"@, JsonModel::Array(text_values(g.root_obligations))),
            ("coverage"@, coverage_document(g.coverage)),
            ("provenance"@, JsonModel::Array(text_values(g.provenance))),
        ],
    )
}

fn node_json(n: &EvidenceNode) -> (r: Json)
    ensures
        r@ == node_document(n@),
{
    let members = vec![
        (String::from_str("id"), text(n.id())),
        (String::from_str("kind"), text(n.kind())),
        (String::from_str("subject"), text(n.subject())),
        (String::from_str("result"), text(n.result().name())),
        (String::from_str("inputs"), text_array(n.inputs())),
        (String::from_str("producer"), text(n.producer())),
        (String::from_str("producer_semantic_version"), text(n.producer_semantic_version())),
        (String::from_str("evidence_class"), text(n.evidence_class().name())),
        (String::from_str("payload"), duplicate_json(n.payload())),
    ];
    proof {
        lemma_member_models(members@);
        assert(member_models(members@) =~= seq![
            ("id"@, JsonModel::Text(n@.id)),
            ("kind"@, JsonModel::Text(n@.kind)),
            ("subject"@, JsonModel::Text(n@.subject)),
            ("result"@, JsonModel::Text(result_name(n@.result))),
            ("inputs"@, JsonModel::Array(text_values(n@.inputs))),
            ("producer"@, JsonModel::Text(n@.producer)),
            ("producer_semantic_version"@, JsonModel::Text(n@.producer_semantic_version)),
            ("evidence_class"@, JsonModel::Text(class_name(n@.evidence_class))),
            ("payload"@, n@.payload),
        ]);
    }
    Json::Object(members)
}

fn coverage_json(c: EvidenceCoverage) -> (r: Json)
    ensures
        r@ == coverage_document(c),
{
    let members = vec![
        (String::from_str("authority"), Json::Number(c.authority as u64)),
        (String::from_str("observation"), Json::Number(c.observation as u64)),
        (String::from_str("static_proof"), Json::Number(c.static_proof as u64)),
        (String::from_str("executed_test"), Json::Number(c.executed_test as u64)),
        (String::from_str("executed_scenario"), Json::Number(c.executed_scenario as u64)),
        (String::from_str("trusted_assertion"), Json::Number(c.trusted_assertion as u64)),
        (String::from_str("aggregate"), Json::Number(c.aggregate as u64)),
    ];
    proof {
        lemma_member_models(members@);
        assert(member_models(members@) =~= seq![
            ("authority"@, JsonModel::Number(c.authority as nat)),
            ("observation"@, JsonModel::Number(c.observation as nat)),
            ("static_proof"@, JsonModel::Number(c.static_proof as nat)),
            ("executed_test"@, JsonModel::Number(c.executed_test as nat)),
            ("executed_scenario"@, JsonModel::Number(c.executed_scenario as nat)),
            ("trusted_assertion"@, JsonModel::Number(c.trusted_assertion as nat)),
            ("aggregate"@, JsonModel::Number(c.aggregate as nat)),
        ]);
    }
    Json::Object(members)
}

impl EvidenceGraph {
    /// The graph as a JSON document.
    pub fn to_json(&self) -> (r: Json)
        ensures
            r@ == graph_document(self@),
    {
        let mut nodes: Vec<Json> = Vec::new();
        let mut i: usize = 0;
        while i < self.nodes.len()
            invariant
                i <= self.nodes@.len(),
                nodes@.len() == i,
                forall|k: int| 0 <= k < i ==> #[trigger] json_model(nodes@[k]) == node_document(self.nodes@[k]@),
            decreases self.nodes.len() - i,
        {
            nodes.push(node_json(&self.nodes[i]));
            i = i + 1;
        }
        proof {
            lemma_json_models(nodes@);
            assert(json_models(nodes@) =~= views(self.nodes@).map_values(|n: NodeModel| node_document(n)));
        }
        let standard = vec![
            (String::from_str("id"), text(self.standard.id.as_str())),
            (String::from_str("edition"), text(self.standard.edition.as_str())),
        ];
        let profile = vec![
            (String::from_str("id"), text(self.profile.id.as_str())),
            (String::from_str("version"), Json::Number(self.profile.version as u64)),
        ];
        proof {
            lemma_member_models(standard@);
            lemma_member_models(profile@);
            assert(member_models(standard@) =~= seq![
                ("id"@, JsonModel::Text(self.standard.id@)),
                ("edition"@, JsonModel::Text(self.standard.edition@)),
            ]);
            assert(member_models(profile@) =~= seq![
                ("id"@, JsonModel::Text(self.profile.id@)),
                ("version"@, JsonModel::Number(self.profile.version as nat)),
            ]);
        }
        let members = vec![
            (String::from_str("$schema"), text(self.schema.as_str())),
            (String::from_str("schema_version"), Json::Number(self.schema_version as u64)),
            (String::from_str("subject"), text(self.subject.as_str())),
            (String::from_str("standard"), Json::Object(standard)),
            (String::from_str("profile"), Json::Object(profile)),
            (String::from_str("nodes"), Json::Array(nodes)),
            (String::from_str("root_obligations"), text_array(self.root_obligations.as_slice())),
            (String::from_str("coverage"), coverage_json(self.coverage)),
            (String::from_str("provenance"), text_array(self.provenance.as_slice())),
        ];
        proof {
            lemma_member_models(members@);
            assert(self.root_obligations@.map_values(|s: String| s@) =~= texts(self.root_obligations@));
            assert(self.provenance@.map_values(|s: String| s@) =~= texts(self.provenance@));
            let g = self@;
            assert(member_models(members@) =~= seq![
                ("$schema"@, JsonModel::Text(g.schema)),
                ("schema_version"@, JsonModel::Number(g.schema_version as nat)),
                ("subject"@, JsonModel::Text(g.subject)),
                (
                    "standard"@,
                    JsonModel::Object(
                        seq![("id"@, JsonModel::Text(g.standard.id)), ("edition"@, JsonModel::Text(g.standard.edition))],
                    ),
                ),
                (
                    "profile"@,
                    JsonModel::Object(
                        seq![("id"@, JsonModel::Text(g.profile.id)), ("version"@, JsonModel::Number(g.profile.version as nat))],
                    ),
                ),
                ("nodes"@, JsonModel::Array(g.nodes.map_values(|n: NodeModel| node_document(n)))),
                ("root_obligations"@, JsonModel::Array(text_values(g.root_obligations))),
                ("coverage"@, coverage_document(g.coverage)),
                ("provenance"@, JsonModel::Array(text_values(g.provenance))),
            ]);
        }
        Json::Object(members)
    }

    /// Serializes canonical pretty JSON with one trailing newline.
    pub fn to_json_pretty(&self) -> (r: String)
        ensures
            r@ == pretty_document(graph_document(self@)),
    {
        let document = self.to_json();
        render_pretty_document(&document)
    }
}

} // verus!
