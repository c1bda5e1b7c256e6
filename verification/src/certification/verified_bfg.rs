//! The Verified Behavioral Flow Graph: intended, realized and verified
//! dimensions of every meaningful checkpoint and edge, kept apart.

use vstd::prelude::*;

use crate::json::{
    json_model, json_models, lemma_json_models, lemma_member_models, member_models, render_pretty_document, text,
    text_array, text_values, Json, JsonModel,
};
use crate::order::{canonical_set, canonical_set_exec, views};
use crate::text::{concat, copy_text, copy_texts, text_eq, texts, texts_contain};

use super::keyed::{item_keys, positions_by_key, sorted_positions, KeyedItem};
use super::requirements::test_index;
use super::scenarios::{bound_evidence, bound_tests, executed_refs};
use super::{
    BehavioralProjectionInput, CertificationInput, CertificationObligation, CertificationObligationKind,
    CertificationStatus, ObligationModel,
};

verus! {

/// Evidence-aware behavioral verification state.
#[derive(Clone, Copy, Debug, PartialEq, Eq, Structural)]
pub enum VerifiedBehavioralState {
    /// Intended behavior has no supported realization.
    Unrealized,
    /// Static semantic realization exists without bound execution evidence.
    RealizedStatic,
    /// Static proof verifies the meaningful element.
    VerifiedStatic,
    /// Bound executed evidence exists without a complete static proof.
    VerifiedExecuted,
    /// Both evidence classes support the element.
    VerifiedStaticAndExecuted,
    /// Required evidence is absent.
    MissingEvidence,
    /// Existing evidence references prior inputs.
    StaleEvidence,
    /// Current proof contradicts intent.
    Contradicted,
}

/// The canonical spelling of a state.
pub open spec fn state_name(s: VerifiedBehavioralState) -> Seq<char> {
    match s {
        VerifiedBehavioralState::Unrealized => "UNREALIZED"@,
        VerifiedBehavioralState::RealizedStatic => "REALIZED_STATIC"@,
        VerifiedBehavioralState::VerifiedStatic => "VERIFIED_STATIC"@,
        VerifiedBehavioralState::VerifiedExecuted => "VERIFIED_EXECUTED"@,
        VerifiedBehavioralState::VerifiedStaticAndExecuted => "VERIFIED_STATIC_AND_EXECUTED"@,
        VerifiedBehavioralState::MissingEvidence => "MISSING_EVIDENCE"@,
        VerifiedBehavioralState::StaleEvidence => "STALE_EVIDENCE"@,
        VerifiedBehavioralState::Contradicted => "CONTRADICTED"@,
    }
}

impl VerifiedBehavioralState {
    /// Returns the canonical spelling.
    pub fn as_str(self) -> (r: &'static str)
        ensures
            r@ == state_name(self),
    {
        match self {
            VerifiedBehavioralState::Unrealized => "UNREALIZED",
            VerifiedBehavioralState::RealizedStatic => "REALIZED_STATIC",
            VerifiedBehavioralState::VerifiedStatic => "VERIFIED_STATIC",
            VerifiedBehavioralState::VerifiedExecuted => "VERIFIED_EXECUTED",
            VerifiedBehavioralState::VerifiedStaticAndExecuted => "VERIFIED_STATIC_AND_EXECUTED",
            VerifiedBehavioralState::MissingEvidence => "MISSING_EVIDENCE",
            VerifiedBehavioralState::StaleEvidence => "STALE_EVIDENCE",
            VerifiedBehavioralState::Contradicted => "CONTRADICTED",
        }
    }
}

/// The state of an element: a contradiction wins, then stale evidence; a
/// realized element is verified with executed evidence and realized
/// without; executed evidence alone verifies by execution; an intended
/// element of an opted-in Feature misses evidence; anything else is
/// unrealized.
pub open spec fn element_state(
    contradicted: bool,
    stale: bool,
    realized: bool,
    executed: bool,
    intended: bool,
    opted_in: bool,
) -> VerifiedBehavioralState {
    if contradicted {
        VerifiedBehavioralState::Contradicted
    } else if stale {
        VerifiedBehavioralState::StaleEvidence
    } else if realized && executed {
        VerifiedBehavioralState::VerifiedStaticAndExecuted
    } else if realized {
        VerifiedBehavioralState::RealizedStatic
    } else if executed {
        VerifiedBehavioralState::VerifiedExecuted
    } else if intended && opted_in {
        VerifiedBehavioralState::MissingEvidence
    } else {
        VerifiedBehavioralState::Unrealized
    }
}

/// Abstract value of one element.
pub struct ElementModel {
    pub id: Seq<char>,
    pub intended: bool,
    pub realized: bool,
    pub verification: VerifiedBehavioralState,
    pub evidence_refs: Seq<Seq<char>>,
}

/// One verified meaningful checkpoint or edge.
#[derive(Debug, PartialEq, Eq)]
pub struct VerifiedBehavioralElement {
    /// Checkpoint identity or `source->target` edge identity.
    pub id: String,
    /// Authored Intended BFG presence.
    pub intended: bool,
    /// Supported Realized BFG presence.
    pub realized: bool,
    /// Evidence-aware state.
    pub verification: VerifiedBehavioralState,
    /// Static and executed evidence remain individually identifiable.
    pub evidence_refs: Vec<String>,
}

impl View for VerifiedBehavioralElement {
    type V = ElementModel;

    open spec fn view(&self) -> ElementModel {
        ElementModel {
            id: self.id@,
            intended: self.intended,
            realized: self.realized,
            verification: self.verification,
            evidence_refs: texts(self.evidence_refs@),
        }
    }
}

impl KeyedItem for VerifiedBehavioralElement {
    open spec fn item_key(&self) -> Seq<char> {
        self.id@
    }

    fn key_text(&self) -> (k: &str) {
        self.id.as_str()
    }
}

impl VerifiedBehavioralElement {
    /// Copies the element.
    pub fn duplicate(&self) -> (r: Self)
        ensures
            r@ == self@,
    {
        VerifiedBehavioralElement {
            id: copy_text(self.id.as_str()),
            intended: self.intended,
            realized: self.realized,
            verification: self.verification,
            evidence_refs: copy_texts(self.evidence_refs.as_slice()),
        }
    }
}

/// Abstract value of one Feature's projection.
pub struct FeatureModel {
    pub feature: Seq<char>,
    pub feature_requirement_evidence: Seq<Seq<char>>,
    pub checkpoints: Seq<ElementModel>,
    pub edges: Seq<ElementModel>,
}

/// Per-Feature Verified BFG projection.
#[derive(Debug, PartialEq, Eq)]
pub struct VerifiedFeatureFlow {
    /// Feature identity.
    pub feature: String,
    /// Feature Requirement evidence refs, not falsely attributed to edges.
    pub feature_requirement_evidence: Vec<String>,
    /// Meaningful checkpoint states.
    pub checkpoints: Vec<VerifiedBehavioralElement>,
    /// Meaningful edge states.
    pub edges: Vec<VerifiedBehavioralElement>,
}

impl View for VerifiedFeatureFlow {
    type V = FeatureModel;

    open spec fn view(&self) -> FeatureModel {
        FeatureModel {
            feature: self.feature@,
            feature_requirement_evidence: texts(self.feature_requirement_evidence@),
            checkpoints: views(self.checkpoints@),
            edges: views(self.edges@),
        }
    }
}

impl KeyedItem for VerifiedFeatureFlow {
    open spec fn item_key(&self) -> Seq<char> {
        self.feature@
    }

    fn key_text(&self) -> (k: &str) {
        self.feature.as_str()
    }
}

/// Copies a sequence of elements.
fn duplicate_elements(v: &Vec<VerifiedBehavioralElement>) -> (r: Vec<VerifiedBehavioralElement>)
    ensures
        views(r@) == views(v@),
{
    let mut out: Vec<VerifiedBehavioralElement> = Vec::new();
    let mut k: usize = 0;
    while k < v.len()
        invariant
            k <= v@.len(),
            views(out@) == views(v@).take(k as int),
        decreases v.len() - k,
    {
        let ghost old = out@;
        out.push(v[k].duplicate());
        proof {
            crate::order::lemma_views_push_seq(old, out@.last());
            assert(out@ == old.push(out@.last()));
            assert(views(v@).take(k + 1) =~= views(v@).take(k as int).push(v@[k as int]@));
        }
        k = k + 1;
    }
    assert(views(v@).take(v@.len() as int) =~= views(v@));
    out
}

impl VerifiedFeatureFlow {
    /// Copies the projection.
    pub fn duplicate(&self) -> (r: Self)
        ensures
            r@ == self@,
    {
        VerifiedFeatureFlow {
            feature: copy_text(self.feature.as_str()),
            feature_requirement_evidence: copy_texts(self.feature_requirement_evidence.as_slice()),
            checkpoints: duplicate_elements(&self.checkpoints),
            edges: duplicate_elements(&self.edges),
        }
    }
}

// ---------------------------------------------------------------------------
// Elements.

/// The obligation with this subject, of a generated verification kind, is
/// stale.
pub open spec fn stale_subject(os: Seq<ObligationModel>, id: Seq<char>) -> bool {
    exists|k: int|
        0 <= k < os.len() && (#[trigger] os[k]).subject == id && (os[k].kind
            == CertificationObligationKind::BehavioralVerification || os[k].kind
            == CertificationObligationKind::EnvironmentalVerification) && os[k].status == CertificationStatus::Stale
}

/// The generated obligation targets the element.
pub open spec fn targets(g: super::GeneratedVerificationInput, e: Seq<char>) -> bool {
    texts(g.targets@).contains(e)
}

/// The execution evidence bound, through the first `m` generated
/// obligations that target it, to an element.
pub open spec fn element_refs_upto(i: CertificationInput, e: Seq<char>, m: int) -> Seq<Seq<char>>
    decreases m,
{
    if m <= 0 {
        Seq::empty()
    } else {
        let g = i.generated_verification@[m - 1];
        element_refs_upto(i, e, m - 1) + if targets(g, e) {
            executed_refs(i, bound_tests(i, g))
        } else {
            Seq::empty()
        }
    }
}

/// One of the first `m` generated obligations that target the element is
/// stale.
pub open spec fn element_stale_upto(i: CertificationInput, os: Seq<ObligationModel>, e: Seq<char>, m: int) -> bool
    decreases m,
{
    if m <= 0 {
        false
    } else {
        let g = i.generated_verification@[m - 1];
        element_stale_upto(i, os, e, m - 1) || (targets(g, e) && stale_subject(os, g.id@))
    }
}

/// The element with identity `id`.
pub open spec fn element_model(
    i: CertificationInput,
    os: Seq<ObligationModel>,
    id: Seq<char>,
    realized: bool,
    contradicted: bool,
    opted_in: bool,
) -> ElementModel {
    let n = i.generated_verification@.len() as int;
    let refs = element_refs_upto(i, id, n);
    ElementModel {
        id,
        intended: true,
        realized,
        verification: element_state(contradicted, element_stale_upto(i, os, id, n), realized, refs.len() > 0, true, opted_in),
        evidence_refs: canonical_set::<String>(refs),
    }
}

fn stale_subject_exec(os: &Vec<CertificationObligation>, id: &str) -> (r: bool)
    ensures
        r == stale_subject(views(os@), id@),
{
    let ghost v = views(os@);
    let mut k: usize = 0;
    while k < os.len()
        invariant
            v == views(os@),
            k <= v.len(),
            forall|x: int|
                0 <= x < k ==> !((#[trigger] v[x]).subject == id@ && (v[x].kind
                    == CertificationObligationKind::BehavioralVerification || v[x].kind
                    == CertificationObligationKind::EnvironmentalVerification) && v[x].status
                    == CertificationStatus::Stale),
        decreases os.len() - k,
    {
        let o = &os[k];
        assert(v[k as int] == o@);
        if text_eq(o.subject.as_str(), id) && (o.kind == CertificationObligationKind::BehavioralVerification || o.kind
            == CertificationObligationKind::EnvironmentalVerification) && o.status == CertificationStatus::Stale {
            return true;
        }
        k = k + 1;
    }
    false
}

/// Builds one element.
fn element_exec(
    i: &CertificationInput,
    os: &Vec<CertificationObligation>,
    refs: &Vec<(String, String)>,
    id: String,
    realized: bool,
    contradicted: bool,
    opted_in: bool,
) -> (r: VerifiedBehavioralElement)
    requires
        test_index(*i, refs@),
    ensures
        r@ == element_model(*i, views(os@), id@, realized, contradicted, opted_in),
{
    let ghost gs = i.generated_verification@;
    let mut raw: Vec<String> = Vec::new();
    let mut stale = false;
    let mut m: usize = 0;
    while m < i.generated_verification.len()
        invariant
            gs == i.generated_verification@,
            test_index(*i, refs@),
            m <= gs.len(),
            texts(raw@) == element_refs_upto(*i, id@, m as int),
            stale == element_stale_upto(*i, views(os@), id@, m as int),
        decreases i.generated_verification.len() - m,
    {
        let g = &i.generated_verification[m];
        let ghost before = texts(raw@);
        if texts_contain(&g.targets, id.as_str()) {
            if stale_subject_exec(os, g.id.as_str()) {
                stale = true;
            }
            let (_, executed, _) = bound_evidence(i, refs, g);
            let ghost ev = texts(executed@);
            let mut k: usize = 0;
            while k < executed.len()
                invariant
                    k <= executed@.len(),
                    texts(raw@) == before + ev.take(k as int),
                    ev == texts(executed@),
                decreases executed.len() - k,
            {
                let ghost prev = raw@;
                raw.push(copy_text(executed[k].as_str()));
                assert(texts(raw@) =~= texts(prev).push(ev[k as int]));
                assert(ev.take(k + 1) =~= ev.take(k as int).push(ev[k as int]));
                k = k + 1;
            }
            assert(ev.take(ev.len() as int) =~= ev);
        } else {
            assert(texts(raw@) =~= before + Seq::<Seq<char>>::empty());
        }
        m = m + 1;
    }
    let executed = raw.len() > 0;
    let ghost raw_view = texts(raw@);
    assert(views(raw@) =~= raw_view);
    let evidence_refs = canonical_set_exec(raw);
    assert(views(evidence_refs@) =~= texts(evidence_refs@));
    let verification = if contradicted {
        VerifiedBehavioralState::Contradicted
    } else if stale {
        VerifiedBehavioralState::StaleEvidence
    } else if realized && executed {
        VerifiedBehavioralState::VerifiedStaticAndExecuted
    } else if realized {
        VerifiedBehavioralState::RealizedStatic
    } else if executed {
        VerifiedBehavioralState::VerifiedExecuted
    } else if opted_in {
        VerifiedBehavioralState::MissingEvidence
    } else {
        VerifiedBehavioralState::Unrealized
    };
    VerifiedBehavioralElement { id, intended: true, realized, verification, evidence_refs }
}

// ---------------------------------------------------------------------------
// Feature projections.

/// The Feature has an opted-in realization.
pub open spec fn opted(i: CertificationInput, feature: Seq<char>) -> bool {
    item_keys(i.behavioral_realizations@).contains(feature)
}

/// The identity of an edge.
pub open spec fn edge_id(source: Seq<char>, target: Seq<char>) -> Seq<char> {
    source + "->"@ + target
}

/// The identities of the realized edges.
pub open spec fn realized_edge_ids(p: BehavioralProjectionInput) -> Seq<Seq<char>> {
    p.realized_edges@.map_values(|e: (String, String)| edge_id(e.0@, e.1@))
}

/// Elements ordered by identity, equal identities keeping their order.
pub open spec fn by_id(s: Seq<ElementModel>) -> Seq<ElementModel> {
    sorted_positions(s.map_values(|e: ElementModel| e.id), s.len() as int).map_values(|p: int| s[p])
}

/// The checkpoints of a projection, in their given order.
pub open spec fn checkpoint_elements(i: CertificationInput, os: Seq<ObligationModel>, p: BehavioralProjectionInput) -> Seq<
    ElementModel,
> {
    texts(p.checkpoints@).map_values(
        |c: Seq<char>|
            element_model(i, os, c, texts(p.realized_checkpoints@).contains(c), p.contradicted, opted(i, p.feature@)),
    )
}

/// The intended edges of a projection, in their given order.
pub open spec fn edge_elements(i: CertificationInput, os: Seq<ObligationModel>, p: BehavioralProjectionInput) -> Seq<
    ElementModel,
> {
    p.intended_edges@.map_values(
        |e: (String, String)|
            element_model(
                i,
                os,
                edge_id(e.0@, e.1@),
                realized_edge_ids(p).contains(edge_id(e.0@, e.1@)),
                p.contradicted,
                opted(i, p.feature@),
            ),
    )
}

/// The Requirement `subject` belongs to the Feature.
pub open spec fn requirement_of_feature(i: CertificationInput, feature: Seq<char>, subject: Seq<char>) -> bool {
    exists|k: int|
        0 <= k < i.requirements@.len() && (#[trigger] i.requirements@[k]).feature_id@ == feature
            && i.requirements@[k].requirement_id@ == subject
}

/// The evidence of the Feature's Requirement obligations among the first `m`.
pub open spec fn feature_evidence_upto(
    i: CertificationInput,
    os: Seq<ObligationModel>,
    feature: Seq<char>,
    m: int,
) -> Seq<Seq<char>>
    decreases m,
{
    if m <= 0 {
        Seq::empty()
    } else {
        let o = os[m - 1];
        feature_evidence_upto(i, os, feature, m - 1) + if o.kind == CertificationObligationKind::FeatureRequirement
            && requirement_of_feature(i, feature, o.subject) {
            o.evidence_refs
        } else {
            Seq::empty()
        }
    }
}

/// The projection of one Feature.
pub open spec fn feature_model(i: CertificationInput, os: Seq<ObligationModel>, p: BehavioralProjectionInput) -> FeatureModel {
    FeatureModel {
        feature: p.feature@,
        feature_requirement_evidence: canonical_set::<String>(feature_evidence_upto(i, os, p.feature@, os.len() as int)),
        checkpoints: by_id(checkpoint_elements(i, os, p)),
        edges: by_id(edge_elements(i, os, p)),
    }
}

/// The Feature projections, ordered by Feature, equal Features keeping
/// their order.
pub open spec fn feature_models(i: CertificationInput, os: Seq<ObligationModel>) -> Seq<FeatureModel> {
    let fs = i.behavioral_projection@.map_values(|p: BehavioralProjectionInput| feature_model(i, os, p));
    sorted_positions(fs.map_values(|f: FeatureModel| f.feature), fs.len() as int).map_values(|q: int| fs[q])
}

/// Orders elements by identity.
fn elements_by_id(v: Vec<VerifiedBehavioralElement>) -> (r: Vec<VerifiedBehavioralElement>)
    ensures
        views(r@) == by_id(views(v@)),
{
    let pos = positions_by_key(v.as_slice());
    let ghost keys = item_keys(v@);
    proof {
        super::keyed::lemma_sorted_positions(keys, v@.len() as int);
        assert(keys =~= views(v@).map_values(|e: ElementModel| e.id));
    }
    let ghost ps = pos@.map_values(|p: usize| p as int);
    let mut out: Vec<VerifiedBehavioralElement> = Vec::new();
    let mut k: usize = 0;
    while k < pos.len()
        invariant
            ps == pos@.map_values(|p: usize| p as int),
            ps == sorted_positions(keys, v@.len() as int),
            keys == item_keys(v@),
            super::keyed::ordered_permutation(ps, keys, v@.len() as int),
            k <= pos@.len(),
            views(out@) == ps.take(k as int).map_values(|p: int| views(v@)[p]),
        decreases pos.len() - k,
    {
        assert(ps[k as int] == pos@[k as int] as int);
        assert(0 <= ps[k as int] < v@.len());
        let ghost old = out@;
        out.push(v[pos[k]].duplicate());
        proof {
            crate::order::lemma_views_push_seq(old, out@.last());
            assert(out@ == old.push(out@.last()));
            assert(ps.take(k + 1).map_values(|p: int| views(v@)[p]) =~= ps.take(k as int).map_values(
                |p: int| views(v@)[p],
            ).push(views(v@)[ps[k as int]]));
        }
        k = k + 1;
    }
    proof {
        assert(ps.take(ps.len() as int) =~= ps);
        assert(keys =~= views(v@).map_values(|e: ElementModel| e.id));
    }
    out
}

/// Builds the projection of one Feature.
fn feature_exec(
    i: &CertificationInput,
    os: &Vec<CertificationObligation>,
    refs: &Vec<(String, String)>,
    p: &BehavioralProjectionInput,
) -> (r: VerifiedFeatureFlow)
    requires
        test_index(*i, refs@),
    ensures
        r@ == feature_model(*i, views(os@), *p),
{
    let ghost ov = views(os@);
    let mut opted_in = false;
    let mut k: usize = 0;
    while k < i.behavioral_realizations.len()
        invariant
            k <= i.behavioral_realizations@.len(),
            opted_in == item_keys(i.behavioral_realizations@).take(k as int).contains(p.feature@),
        decreases i.behavioral_realizations.len() - k,
    {
        let ghost ks = item_keys(i.behavioral_realizations@);
        assert(ks.take(k + 1) =~= ks.take(k as int).push(i.behavioral_realizations@[k as int].feature@));
        let ghost was = opted_in;
        if text_eq(i.behavioral_realizations[k].feature.as_str(), p.feature.as_str()) {
            opted_in = true;
        }
        proof {
            let t0 = ks.take(k as int);
            let t1 = ks.take(k + 1);
            if t1.contains(p.feature@) {
                let j = choose|j: int| 0 <= j < t1.len() && t1[j] == p.feature@;
                if j < k {
                    assert(t0[j] == p.feature@);
                }
            }
            if was {
                let j = choose|j: int| 0 <= j < t0.len() && t0[j] == p.feature@;
                assert(t1[j] == p.feature@);
            }
            if opted_in && !was {
                assert(t1[k as int] == p.feature@);
            }
        }
        k = k + 1;
    }
    assert(item_keys(i.behavioral_realizations@).take(i.behavioral_realizations@.len() as int) =~= item_keys(
        i.behavioral_realizations@,
    ));
    let mut checkpoints: Vec<VerifiedBehavioralElement> = Vec::new();
    let mut c: usize = 0;
    while c < p.checkpoints.len()
        invariant
            test_index(*i, refs@),
            ov == views(os@),
            opted_in == opted(*i, p.feature@),
            c <= p.checkpoints@.len(),
            views(checkpoints@) == checkpoint_elements(*i, ov, *p).take(c as int),
        decreases p.checkpoints.len() - c,
    {
        let id = copy_text(p.checkpoints[c].as_str());
        let realized = texts_contain(&p.realized_checkpoints, id.as_str());
        let e = element_exec(i, os, refs, id, realized, p.contradicted, opted_in);
        let ghost old = checkpoints@;
        checkpoints.push(e);
        proof {
            crate::order::lemma_views_push_seq(old, checkpoints@.last());
            assert(checkpoints@ == old.push(checkpoints@.last()));
            assert(checkpoint_elements(*i, ov, *p).take(c + 1) =~= checkpoint_elements(*i, ov, *p).take(c as int).push(
                checkpoint_elements(*i, ov, *p)[c as int],
            ));
        }
        c = c + 1;
    }
    assert(checkpoint_elements(*i, ov, *p).take(p.checkpoints@.len() as int) =~= checkpoint_elements(*i, ov, *p));
    let mut realized_edges: Vec<String> = Vec::new();
    let mut r: usize = 0;
    while r < p.realized_edges.len()
        invariant
            r <= p.realized_edges@.len(),
            texts(realized_edges@) == realized_edge_ids(*p).take(r as int),
        decreases p.realized_edges.len() - r,
    {
        proof {
            reveal_strlit("->");
        }
        let head = concat(p.realized_edges[r].0.as_str(), "->");
        let id = concat(head.as_str(), p.realized_edges[r].1.as_str());
        let ghost old = realized_edges@;
        realized_edges.push(id);
        assert(texts(realized_edges@) =~= texts(old).push(id@));
        assert(realized_edge_ids(*p).take(r + 1) =~= realized_edge_ids(*p).take(r as int).push(
            realized_edge_ids(*p)[r as int],
        ));
        r = r + 1;
    }
    assert(realized_edge_ids(*p).take(p.realized_edges@.len() as int) =~= realized_edge_ids(*p));
    let mut edges: Vec<VerifiedBehavioralElement> = Vec::new();
    let mut x: usize = 0;
    while x < p.intended_edges.len()
        invariant
            test_index(*i, refs@),
            ov == views(os@),
            opted_in == opted(*i, p.feature@),
            texts(realized_edges@) == realized_edge_ids(*p),
            x <= p.intended_edges@.len(),
            views(edges@) == edge_elements(*i, ov, *p).take(x as int),
        decreases p.intended_edges.len() - x,
    {
        proof {
            reveal_strlit("->");
        }
        let head = concat(p.intended_edges[x].0.as_str(), "->");
        let id = concat(head.as_str(), p.intended_edges[x].1.as_str());
        let realized = texts_contain(&realized_edges, id.as_str());
        let e = element_exec(i, os, refs, id, realized, p.contradicted, opted_in);
        let ghost old = edges@;
        edges.push(e);
        proof {
            crate::order::lemma_views_push_seq(old, edges@.last());
            assert(edges@ == old.push(edges@.last()));
            assert(edge_elements(*i, ov, *p).take(x + 1) =~= edge_elements(*i, ov, *p).take(x as int).push(
                edge_elements(*i, ov, *p)[x as int],
            ));
        }
        x = x + 1;
    }
    assert(edge_elements(*i, ov, *p).take(p.intended_edges@.len() as int) =~= edge_elements(*i, ov, *p));
    let mut evidence: Vec<String> = Vec::new();
    let mut m: usize = 0;
    while m < os.len()
        invariant
            ov == views(os@),
            m <= ov.len(),
            texts(evidence@) == feature_evidence_upto(*i, ov, p.feature@, m as int),
        decreases os.len() - m,
    {
        let o = &os[m];
        assert(ov[m as int] == o@);
        let ghost before = texts(evidence@);
        let mut belongs = false;
        if o.kind == CertificationObligationKind::FeatureRequirement {
            let mut q: usize = 0;
            while q < i.requirements.len()
                invariant
                    q <= i.requirements@.len(),
                    belongs == exists|k: int|
                        0 <= k < q && (#[trigger] i.requirements@[k]).feature_id@ == p.feature@
                            && i.requirements@[k].requirement_id@ == o.subject@,
                decreases i.requirements.len() - q,
            {
                if text_eq(i.requirements[q].feature_id.as_str(), p.feature.as_str()) && text_eq(
                    i.requirements[q].requirement_id.as_str(),
                    o.subject.as_str(),
                ) {
                    belongs = true;
                }
                q = q + 1;
            }
        }
        if belongs {
            let mut k: usize = 0;
            while k < o.evidence_refs.len()
                invariant
                    k <= o.evidence_refs@.len(),
                    texts(evidence@) == before + texts(o.evidence_refs@).take(k as int),
                decreases o.evidence_refs.len() - k,
            {
                let ghost prev = evidence@;
                evidence.push(copy_text(o.evidence_refs[k].as_str()));
                assert(texts(evidence@) =~= texts(prev).push(o.evidence_refs@[k as int]@));
                assert(texts(o.evidence_refs@).take(k + 1) =~= texts(o.evidence_refs@).take(k as int).push(
                    o.evidence_refs@[k as int]@,
                ));
                k = k + 1;
            }
            assert(texts(o.evidence_refs@).take(o.evidence_refs@.len() as int) =~= texts(o.evidence_refs@));
        } else {
            assert(texts(evidence@) =~= before + Seq::<Seq<char>>::empty());
        }
        m = m + 1;
    }
    assert(views(evidence@) =~= texts(evidence@));
    let evidence = canonical_set_exec(evidence);
    assert(views(evidence@) =~= texts(evidence@));
    VerifiedFeatureFlow {
        feature: copy_text(p.feature.as_str()),
        feature_requirement_evidence: evidence,
        checkpoints: elements_by_id(checkpoints),
        edges: elements_by_id(edges),
    }
}

/// Orders Feature projections by Feature.
fn features_by_name(v: Vec<VerifiedFeatureFlow>) -> (r: Vec<VerifiedFeatureFlow>)
    ensures
        views(r@) == sorted_positions(views(v@).map_values(|f: FeatureModel| f.feature), v@.len() as int).map_values(
            |q: int| views(v@)[q],
        ),
{
    let pos = positions_by_key(v.as_slice());
    let ghost keys = item_keys(v@);
    proof {
        super::keyed::lemma_sorted_positions(keys, v@.len() as int);
        assert(keys =~= views(v@).map_values(|f: FeatureModel| f.feature));
    }
    let ghost ps = pos@.map_values(|p: usize| p as int);
    let mut out: Vec<VerifiedFeatureFlow> = Vec::new();
    let mut k: usize = 0;
    while k < pos.len()
        invariant
            ps == pos@.map_values(|p: usize| p as int),
            ps == sorted_positions(keys, v@.len() as int),
            keys == item_keys(v@),
            super::keyed::ordered_permutation(ps, keys, v@.len() as int),
            k <= pos@.len(),
            views(out@) == ps.take(k as int).map_values(|q: int| views(v@)[q]),
        decreases pos.len() - k,
    {
        assert(ps[k as int] == pos@[k as int] as int);
        assert(0 <= ps[k as int] < v@.len());
        let ghost old = out@;
        out.push(v[pos[k]].duplicate());
        proof {
            crate::order::lemma_views_push_seq(old, out@.last());
            assert(out@ == old.push(out@.last()));
            assert(ps.take(k + 1).map_values(|q: int| views(v@)[q]) =~= ps.take(k as int).map_values(
                |q: int| views(v@)[q],
            ).push(views(v@)[ps[k as int]]));
        }
        k = k + 1;
    }
    proof {
        assert(ps.take(ps.len() as int) =~= ps);
        assert(keys =~= views(v@).map_values(|f: FeatureModel| f.feature));
    }
    out
}

// ---------------------------------------------------------------------------
// The graph.

/// Verified BFG schema identity.
pub const VERIFIED_BFG_SCHEMA: &'static str = "urn:fortress:schema:v1:verified-behavioral-flow-graph";

/// Verified BFG schema version.
pub const VERIFIED_BFG_SCHEMA_VERSION: u16 = 1;

/// The states of every element: each Feature's checkpoints, then its edges.
pub open spec fn element_states(fs: Seq<FeatureModel>) -> Seq<VerifiedBehavioralState>
    decreases fs.len(),
{
    if fs.len() == 0 {
        Seq::empty()
    } else {
        let f = fs.last();
        element_states(fs.drop_last()) + f.checkpoints.map_values(|e: ElementModel| e.verification)
            + f.edges.map_values(|e: ElementModel| e.verification)
    }
}

/// The number of occurrences of a state.
pub open spec fn state_count(s: Seq<VerifiedBehavioralState>, x: VerifiedBehavioralState) -> nat
    decreases s.len(),
{
    if s.len() == 0 {
        0
    } else {
        state_count(s.drop_last(), x) + if s.last() == x {
            1nat
        } else {
            0nat
        }
    }
}

/// The states in the order of their spellings.
pub open spec fn states_by_name() -> Seq<VerifiedBehavioralState> {
    seq![
        VerifiedBehavioralState::Contradicted,
        VerifiedBehavioralState::MissingEvidence,
        VerifiedBehavioralState::RealizedStatic,
        VerifiedBehavioralState::StaleEvidence,
        VerifiedBehavioralState::Unrealized,
        VerifiedBehavioralState::VerifiedExecuted,
        VerifiedBehavioralState::VerifiedStatic,
        VerifiedBehavioralState::VerifiedStaticAndExecuted,
    ]
}

/// The count of each occurring state among the first `k` states by name.
pub open spec fn state_summary_upto(s: Seq<VerifiedBehavioralState>, k: int) -> Seq<(Seq<char>, nat)>
    decreases k,
{
    if k <= 0 {
        Seq::empty()
    } else {
        let x = states_by_name()[k - 1];
        state_summary_upto(s, k - 1) + if state_count(s, x) > 0 {
            seq![(state_name(x), state_count(s, x))]
        } else {
            Seq::empty()
        }
    }
}

/// The count of each occurring state, ordered by spelling.
pub open spec fn state_summary(s: Seq<VerifiedBehavioralState>) -> Seq<(Seq<char>, nat)> {
    state_summary_upto(s, 8)
}

/// Abstract value of a Verified BFG.
pub struct BfgModel {
    pub schema: Seq<char>,
    pub schema_version: u16,
    pub project_id: Seq<char>,
    pub certification_source_digest: Seq<char>,
    pub certification_digest: Seq<char>,
    pub view: Seq<char>,
    pub features: Seq<FeatureModel>,
    pub summary: Seq<(Seq<char>, nat)>,
    pub provenance: Seq<Seq<char>>,
}

/// The fixed provenance statements of a Verified BFG.
pub open spec fn bfg_provenance() -> Seq<Seq<char>> {
    seq![
        "Intended, realized, and verification dimensions remain separate."@,
        "Feature Requirement tests are not attributed to exact edges without a verification binding."@,
    ]
}

/// The Verified BFG of an input, given the obligations in canonical order and
/// the certification digest.
pub open spec fn bfg_model(i: CertificationInput, os: Seq<ObligationModel>, digest: Seq<char>) -> BfgModel {
    let fs = feature_models(i, os);
    BfgModel {
        schema: VERIFIED_BFG_SCHEMA@,
        schema_version: VERIFIED_BFG_SCHEMA_VERSION,
        project_id: i.project_id@,
        certification_source_digest: i.source_digest@,
        certification_digest: digest,
        view: "verified"@,
        features: fs,
        summary: state_summary(element_states(fs)),
        provenance: bfg_provenance(),
    }
}

/// Canonical Verified BFG.
#[derive(Debug, PartialEq, Eq)]
pub struct VerifiedBehavioralFlowGraph {
    schema: String,
    schema_version: u16,
    project_id: String,
    certification_source_digest: String,
    certification_digest: String,
    view: String,
    features: Vec<VerifiedFeatureFlow>,
    summary: Vec<(String, usize)>,
    provenance: Vec<String>,
}

impl View for VerifiedBehavioralFlowGraph {
    type V = BfgModel;

    closed spec fn view(&self) -> BfgModel {
        BfgModel {
            schema: self.schema@,
            schema_version: self.schema_version,
            project_id: self.project_id@,
            certification_source_digest: self.certification_source_digest@,
            certification_digest: self.certification_digest@,
            view: self.view@,
            features: views(self.features@),
            summary: self.summary@.map_values(|e: (String, usize)| (e.0@, e.1 as nat)),
            provenance: texts(self.provenance@),
        }
    }
}

proof fn lemma_state_count_bound(s: Seq<VerifiedBehavioralState>, x: VerifiedBehavioralState)
    ensures
        state_count(s, x) <= s.len(),
    decreases s.len(),
{
    if s.len() > 0 {
        lemma_state_count_bound(s.drop_last(), x);
    }
}

fn count_state(states: &Vec<VerifiedBehavioralState>, x: VerifiedBehavioralState) -> (r: usize)
    ensures
        r == state_count(states@, x),
{
    let mut n: usize = 0;
    let mut k: usize = 0;
    while k < states.len()
        invariant
            k <= states@.len(),
            n == state_count(states@.take(k as int), x),
        decreases states.len() - k,
    {
        proof {
            assert(states@.take(k + 1).drop_last() =~= states@.take(k as int));
            lemma_state_count_bound(states@.take(k as int), x);
        }
        if states[k] == x {
            n = n + 1;
        }
        k = k + 1;
    }
    assert(states@.take(states@.len() as int) =~= states@);
    n
}

fn states_of(features: &Vec<VerifiedFeatureFlow>) -> (r: Vec<VerifiedBehavioralState>)
    ensures
        r@ == element_states(views(features@)),
{
    let ghost fv = views(features@);
    let mut out: Vec<VerifiedBehavioralState> = Vec::new();
    let mut f: usize = 0;
    while f < features.len()
        invariant
            fv == views(features@),
            f <= fv.len(),
            out@ == element_states(fv.take(f as int)),
        decreases features.len() - f,
    {
        let ghost before = out@;
        let ft = &features[f];
        assert(fv[f as int] == ft@);
        let mut c: usize = 0;
        while c < ft.checkpoints.len()
            invariant
                c <= ft.checkpoints@.len(),
                out@ == before + views(ft.checkpoints@).map_values(|e: ElementModel| e.verification).take(c as int),
            decreases ft.checkpoints.len() - c,
        {
            let ghost prev = out@;
            out.push(ft.checkpoints[c].verification);
            assert(views(ft.checkpoints@).map_values(|e: ElementModel| e.verification).take(c + 1) =~= views(
                ft.checkpoints@,
            ).map_values(|e: ElementModel| e.verification).take(c as int).push(ft.checkpoints@[c as int].verification));
            c = c + 1;
        }
        let ghost mid = out@;
        let mut x: usize = 0;
        while x < ft.edges.len()
            invariant
                x <= ft.edges@.len(),
                out@ == mid + views(ft.edges@).map_values(|e: ElementModel| e.verification).take(x as int),
            decreases ft.edges.len() - x,
        {
            out.push(ft.edges[x].verification);
            assert(views(ft.edges@).map_values(|e: ElementModel| e.verification).take(x + 1) =~= views(
                ft.edges@,
            ).map_values(|e: ElementModel| e.verification).take(x as int).push(ft.edges@[x as int].verification));
            x = x + 1;
        }
        proof {
            assert(views(ft.checkpoints@).map_values(|e: ElementModel| e.verification).take(
                ft.checkpoints@.len() as int,
            ) =~= views(ft.checkpoints@).map_values(|e: ElementModel| e.verification));
            assert(views(ft.edges@).map_values(|e: ElementModel| e.verification).take(ft.edges@.len() as int)
                =~= views(ft.edges@).map_values(|e: ElementModel| e.verification));
            assert(fv.take(f + 1).drop_last() =~= fv.take(f as int));
            assert(fv.take(f + 1).last() == ft@);
        }
        f = f + 1;
    }
    assert(fv.take(fv.len() as int) =~= fv);
    out
}

fn state_summary_exec(states: &Vec<VerifiedBehavioralState>) -> (r: Vec<(String, usize)>)
    ensures
        r@.map_values(|e: (String, usize)| (e.0@, e.1 as nat)) == state_summary(states@),
{
    let order = vec![
        VerifiedBehavioralState::Contradicted,
        VerifiedBehavioralState::MissingEvidence,
        VerifiedBehavioralState::RealizedStatic,
        VerifiedBehavioralState::StaleEvidence,
        VerifiedBehavioralState::Unrealized,
        VerifiedBehavioralState::VerifiedExecuted,
        VerifiedBehavioralState::VerifiedStatic,
        VerifiedBehavioralState::VerifiedStaticAndExecuted,
    ];
    assert(order@ =~= states_by_name());
    let mut out: Vec<(String, usize)> = Vec::new();
    let mut k: usize = 0;
    while k < 8
        invariant
            order@ == states_by_name(),
            k <= 8,
            out@.map_values(|e: (String, usize)| (e.0@, e.1 as nat)) == state_summary_upto(states@, k as int),
        decreases 8 - k,
    {
        let x = order[k];
        let n = count_state(states, x);
        let ghost before = out@;
        if n > 0 {
            out.push((String::from_str(x.as_str()), n));
            assert(out@.map_values(|e: (String, usize)| (e.0@, e.1 as nat)) =~= before.map_values(
                |e: (String, usize)| (e.0@, e.1 as nat),
            ) + seq![(state_name(x), state_count(states@, x))]);
        } else {
            assert(out@.map_values(|e: (String, usize)| (e.0@, e.1 as nat)) =~= before.map_values(
                |e: (String, usize)| (e.0@, e.1 as nat),
            ) + Seq::<(Seq<char>, nat)>::empty());
        }
        k = k + 1;
    }
    out
}

/// Builds the Verified BFG from the obligations in canonical order.
pub fn build_verified_bfg(
    i: &CertificationInput,
    os: &Vec<CertificationObligation>,
    refs: &Vec<(String, String)>,
    certification_digest: &str,
) -> (r: VerifiedBehavioralFlowGraph)
    requires
        test_index(*i, refs@),
    ensures
        r@ == bfg_model(*i, views(os@), certification_digest@),
{
    let ghost ov = views(os@);
    let ghost fs = i.behavioral_projection@.map_values(|p: BehavioralProjectionInput| feature_model(*i, ov, p));
    let mut features: Vec<VerifiedFeatureFlow> = Vec::new();
    let mut k: usize = 0;
    while k < i.behavioral_projection.len()
        invariant
            test_index(*i, refs@),
            ov == views(os@),
            fs == i.behavioral_projection@.map_values(|p: BehavioralProjectionInput| feature_model(*i, ov, p)),
            k <= fs.len(),
            views(features@) == fs.take(k as int),
        decreases i.behavioral_projection.len() - k,
    {
        let f = feature_exec(i, os, refs, &i.behavioral_projection[k]);
        let ghost old = features@;
        features.push(f);
        proof {
            crate::order::lemma_views_push_seq(old, features@.last());
            assert(features@ == old.push(features@.last()));
            assert(fs.take(k + 1) =~= fs.take(k as int).push(fs[k as int]));
        }
        k = k + 1;
    }
    assert(fs.take(fs.len() as int) =~= fs);
    let features = features_by_name(features);
    let states = states_of(&features);
    let summary = state_summary_exec(&states);
    let provenance = vec![
        String::from_str("Intended, realized, and verification dimensions remain separate."),
        String::from_str("Feature Requirement tests are not attributed to exact edges without a verification binding."),
    ];
    assert(texts(provenance@) =~= bfg_provenance());
    VerifiedBehavioralFlowGraph {
        schema: String::from_str(VERIFIED_BFG_SCHEMA),
        schema_version: VERIFIED_BFG_SCHEMA_VERSION,
        project_id: copy_text(i.project_id.as_str()),
        certification_source_digest: copy_text(i.source_digest.as_str()),
        certification_digest: String::from_str(certification_digest),
        view: String::from_str("verified"),
        features,
        summary,
        provenance,
    }
}

// ---------------------------------------------------------------------------
// JSON.

/// An element as a JSON value: its fields in declaration order.
pub open spec fn element_document(e: ElementModel) -> JsonModel {
    JsonModel::Object(
        seq![
            ("id"@, JsonModel::Text(e.id)),
            ("intended"@, JsonModel::Bool(e.intended)),
            ("realized"@, JsonModel::Bool(e.realized)),
            ("verification"@, JsonModel::Text(state_name(e.verification))),
            ("evidence_refs"@, JsonModel::Array(text_values(e.evidence_refs))),
        ],
    )
}

/// A Feature projection as a JSON value: its fields in declaration order.
pub open spec fn feature_document(f: FeatureModel) -> JsonModel {
    JsonModel::Object(
        seq![
            ("feature"@, JsonModel::Text(f.feature)),
            ("feature_requirement_evidence"@, JsonModel::Array(text_values(f.feature_requirement_evidence))),
            ("checkpoints"@, JsonModel::Array(f.checkpoints.map_values(|e: ElementModel| element_document(e)))),
            ("edges"@, JsonModel::Array(f.edges.map_values(|e: ElementModel| element_document(e)))),
        ],
    )
}

/// The state counts as a JSON object keyed by spelling.
pub open spec fn summary_members(s: Seq<(Seq<char>, nat)>) -> Seq<(Seq<char>, JsonModel)> {
    s.map_values(|e: (Seq<char>, nat)| (e.0, JsonModel::Number(e.1)))
}

/// A Verified BFG as a JSON value: its fields in declaration order.
pub open spec fn bfg_document(g: BfgModel) -> JsonModel {
    JsonModel::Object(
        seq![
            ("$schema"@, JsonModel::Text(g.schema)),
            ("schema_version"@, JsonModel::Number(g.schema_version as nat)),
            ("project_id"@, JsonModel::Text(g.project_id)),
            ("certification_source_digest"@, JsonModel::Text(g.certification_source_digest)),
            ("certification_digest"@, JsonModel::Text(g.certification_digest)),
            ("view"@, JsonModel::Text(g.view)),
            ("features"@, JsonModel::Array(g.features.map_values(|f: FeatureModel| feature_document(f)))),
            ("summary"@, JsonModel::Object(summary_members(g.summary))),
            ("provenance"@, JsonModel::Array(text_values(g.provenance))),
        ],
    )
}

fn element_json(e: &VerifiedBehavioralElement) -> (r: Json)
    ensures
        r@ == element_document(e@),
{
    let members = vec![
        (String::from_str("id"), text(e.id.as_str())),
        (String::from_str("intended"), Json::Bool(e.intended)),
        (String::from_str("realized"), Json::Bool(e.realized)),
        (String::from_str("verification"), Json::Text(String::from_str(e.verification.as_str()))),
        (String::from_str("evidence_refs"), text_array(e.evidence_refs.as_slice())),
    ];
    proof {
        lemma_member_models(members@);
        assert(e.evidence_refs@.map_values(|s: String| s@) =~= texts(e.evidence_refs@));
        assert(member_models(members@) =~= seq![
            ("id"@, JsonModel::Text(e@.id)),
            ("intended"@, JsonModel::Bool(e.intended)),
            ("realized"@, JsonModel::Bool(e.realized)),
            ("verification"@, JsonModel::Text(state_name(e.verification))),
            ("evidence_refs"@, JsonModel::Array(text_values(e@.evidence_refs))),
        ]);
    }
    Json::Object(members)
}

fn elements_json(v: &Vec<VerifiedBehavioralElement>) -> (r: Json)
    ensures
        r@ == JsonModel::Array(views(v@).map_values(|e: ElementModel| element_document(e))),
{
    let mut out: Vec<Json> = Vec::new();
    let mut k: usize = 0;
    while k < v.len()
        invariant
            k <= v@.len(),
            out@.len() == k,
            forall|x: int| 0 <= x < k ==> #[trigger] json_model(out@[x]) == element_document(v@[x]@),
        decreases v.len() - k,
    {
        out.push(element_json(&v[k]));
        k = k + 1;
    }
    proof {
        lemma_json_models(out@);
        assert(json_models(out@) =~= views(v@).map_values(|e: ElementModel| element_document(e)));
    }
    Json::Array(out)
}

fn feature_json(f: &VerifiedFeatureFlow) -> (r: Json)
    ensures
        r@ == feature_document(f@),
{
    let members = vec![
        (String::from_str("feature"), text(f.feature.as_str())),
        (String::from_str("feature_requirement_evidence"), text_array(f.feature_requirement_evidence.as_slice())),
        (String::from_str("checkpoints"), elements_json(&f.checkpoints)),
        (String::from_str("edges"), elements_json(&f.edges)),
    ];
    proof {
        lemma_member_models(members@);
        assert(f.feature_requirement_evidence@.map_values(|s: String| s@) =~= texts(f.feature_requirement_evidence@));
        assert(member_models(members@) =~= seq![
            ("feature"@, JsonModel::Text(f@.feature)),
            ("feature_requirement_evidence"@, JsonModel::Array(text_values(f@.feature_requirement_evidence))),
            ("checkpoints"@, JsonModel::Array(f@.checkpoints.map_values(|e: ElementModel| element_document(e)))),
            ("edges"@, JsonModel::Array(f@.edges.map_values(|e: ElementModel| element_document(e)))),
        ]);
    }
    Json::Object(members)
}

impl VerifiedBehavioralFlowGraph {
    /// Returns per-Feature intended/realized/verified projections.
    pub fn features(&self) -> (r: &[VerifiedFeatureFlow])
        ensures
            views(r@) == self@.features,
    {
        self.features.as_slice()
    }

    /// Returns the count of each occurring state, ordered by spelling.
    pub fn summary(&self) -> (r: &[(String, usize)])
        ensures
            r@.map_values(|e: (String, usize)| (e.0@, e.1 as nat)) == self@.summary,
    {
        self.summary.as_slice()
    }

    /// Returns the certification digest the graph is bound to.
    pub fn certification_digest(&self) -> (r: &str)
        ensures
            r@ == self@.certification_digest,
    {
        self.certification_digest.as_str()
    }

    /// The graph as a JSON value.
    pub fn to_json(&self) -> (r: Json)
        ensures
            r@ == bfg_document(self@),
    {
        let mut features: Vec<Json> = Vec::new();
        let mut k: usize = 0;
        while k < self.features.len()
            invariant
                k <= self.features@.len(),
                features@.len() == k,
                forall|x: int| 0 <= x < k ==> #[trigger] json_model(features@[x]) == feature_document(self.features@[x]@),
            decreases self.features.len() - k,
        {
            features.push(feature_json(&self.features[k]));
            k = k + 1;
        }
        proof {
            lemma_json_models(features@);
            assert(json_models(features@) =~= self@.features.map_values(|f: FeatureModel| feature_document(f)));
        }
        let mut summary: Vec<(String, Json)> = Vec::new();
        let mut s: usize = 0;
        while s < self.summary.len()
            invariant
                s <= self.summary@.len(),
                member_models(summary@) == summary_members(self@.summary).take(s as int),
            decreases self.summary.len() - s,
        {
            let ghost old = summary@;
            summary.push((copy_text(self.summary[s].0.as_str()), Json::Number(self.summary[s].1 as u64)));
            proof {
                lemma_member_models(old);
                lemma_member_models(summary@);
                assert(member_models(summary@) =~= member_models(old).push(
                    (self.summary@[s as int].0@, JsonModel::Number(self.summary@[s as int].1 as nat)),
                ));
                assert(summary_members(self@.summary).take(s + 1) =~= summary_members(self@.summary).take(
                    s as int,
                ).push(summary_members(self@.summary)[s as int]));
            }
            s = s + 1;
        }
        assert(summary_members(self@.summary).take(self.summary@.len() as int) =~= summary_members(self@.summary));
        let members = vec![
            (String::from_str("$schema"), text(self.schema.as_str())),
            (String::from_str("schema_version"), Json::Number(self.schema_version as u64)),
            (String::from_str("project_id"), text(self.project_id.as_str())),
            (String::from_str("certification_source_digest"), text(self.certification_source_digest.as_str())),
            (String::from_str("certification_digest"), text(self.certification_digest.as_str())),
            (String::from_str("view"), text(self.view.as_str())),
            (String::from_str("features"), Json::Array(features)),
            (String::from_str("summary"), Json::Object(summary)),
            (String::from_str("provenance"), text_array(self.provenance.as_slice())),
        ];
        proof {
            lemma_member_models(members@);
            assert(self.provenance@.map_values(|x: String| x@) =~= texts(self.provenance@));
            assert(member_models(members@) =~= seq![
                ("$schema"@, JsonModel::Text(self@.schema)),
                ("schema_version"@, JsonModel::Number(self@.schema_version as nat)),
                ("project_id"@, JsonModel::Text(self@.project_id)),
                ("certification_source_digest"@, JsonModel::Text(self@.certification_source_digest)),
                ("certification_digest"@, JsonModel::Text(self@.certification_digest)),
                ("view"@, JsonModel::Text(self@.view)),
                ("features"@, JsonModel::Array(self@.features.map_values(|f: FeatureModel| feature_document(f)))),
                ("summary"@, JsonModel::Object(summary_members(self@.summary))),
                ("provenance"@, JsonModel::Array(text_values(self@.provenance))),
            ]);
        }
        Json::Object(members)
    }

    /// Serializes canonical pretty JSON with one trailing newline.
    pub fn to_json_pretty(&self) -> (r: String)
        ensures
            r@ == crate::json::pretty_document(bfg_document(self@)),
    {
        let document = self.to_json();
        render_pretty_document(&document)
    }
}

} // verus!
