//! Feature Requirement and behavioral realization obligations.

use vstd::prelude::*;

use crate::text::{concat, copy_text, join, join_texts, texts, texts_contain};

use super::compile::{
    all_artifact_nodes, eligible_tests, first_kind, lemma_first_kind, ordered_artifacts, suite_current,
    test_node, test_nodes, test_ref,
};
use super::evidence::EvidenceClass;
use super::keyed::{in_key_order, item_keys, lemma_sorted_positions, sorted_positions};
use super::{
    BehavioralRealizationEvidenceInput, CertificationInput, CertificationObligation, CertificationObligationKind,
    CertificationStatus, ObligationModel, RequirementEvidenceInput,
};

verus! {

/// `refs` pairs each test that has execution evidence with the identity of
/// that evidence, in eligible order.
pub open spec fn test_index(i: CertificationInput, refs: Seq<(String, String)>) -> bool {
    &&& refs.len() == test_nodes(i).len()
    &&& forall|u: int| 0 <= u < refs.len() ==> #[trigger] refs[u].0@ == eligible_tests(i)[u]
    &&& forall|u: int| 0 <= u < refs.len() ==> #[trigger] refs[u].1@ == test_nodes(i)[u].id
}

/// The execution evidence of a test.
pub fn test_ref_exec(i: &CertificationInput, refs: &Vec<(String, String)>, test: &str) -> (r: Option<String>)
    requires
        test_index(*i, refs@),
    ensures
        match test_ref(*i, test@) {
            Some(id) => r matches Some(s) && s@ == id,
            None => r is None,
        },
{
    let mut u: usize = 0;
    while u < refs.len()
        invariant
            test_index(*i, refs@),
            u <= refs@.len(),
            forall|v: int| 0 <= v < u ==> refs@[v].0@ != test@,
        decreases refs.len() - u,
    {
        if crate::text::text_eq(refs[u].0.as_str(), test) {
            proof {
                assert(test_nodes(*i).len() > 0);
                assert(eligible_tests(*i)[u as int] == test@);
                assert(test_nodes(*i)[u as int] == test_node(*i, eligible_tests(*i)[u as int]));
            }
            return Some(copy_text(refs[u].1.as_str()));
        }
        u = u + 1;
    }
    proof {
        if super::compile::suite_sufficient(*i) && eligible_tests(*i).contains(test@) {
            let v = choose|v: int| 0 <= v < eligible_tests(*i).len() && eligible_tests(*i)[v] == test@;
            assert(refs@[v].0@ == eligible_tests(*i)[v]);
        }
    }
    None
}

// ---------------------------------------------------------------------------
// Feature Requirements.

/// The ignored Test IDs.
pub open spec fn ignored_tests(i: CertificationInput) -> Seq<Seq<char>> {
    texts(i.suite_execution.ignored_test_ids@)
}

/// The execution evidence a test supplies to a Requirement: none when the
/// test is ignored.
pub open spec fn requirement_test_ref(i: CertificationInput, test: Seq<char>) -> Option<Seq<char>> {
    if ignored_tests(i).contains(test) {
        None
    } else {
        test_ref(i, test)
    }
}

/// The execution evidence of the declared tests, in declared order.
pub open spec fn covered_refs(i: CertificationInput, tests: Seq<Seq<char>>) -> Seq<Seq<char>>
    decreases tests.len(),
{
    if tests.len() == 0 {
        Seq::empty()
    } else {
        covered_refs(i, tests.drop_last()) + match requirement_test_ref(i, tests.last()) {
            Some(id) => seq![id],
            None => Seq::empty(),
        }
    }
}

/// The declared tests that are neither ignored nor executed.
pub open spec fn uncovered_tests(i: CertificationInput, tests: Seq<Seq<char>>) -> Seq<Seq<char>>
    decreases tests.len(),
{
    if tests.len() == 0 {
        Seq::empty()
    } else {
        uncovered_tests(i, tests.drop_last()) + if !ignored_tests(i).contains(tests.last()) && test_ref(
            i,
            tests.last(),
        ) is None {
            seq![tests.last()]
        } else {
            Seq::empty()
        }
    }
}

/// The declared tests that are ignored.
pub open spec fn ignored_of(i: CertificationInput, tests: Seq<Seq<char>>) -> Seq<Seq<char>>
    decreases tests.len(),
{
    if tests.len() == 0 {
        Seq::empty()
    } else {
        ignored_of(i, tests.drop_last()) + if ignored_tests(i).contains(tests.last()) {
            seq![tests.last()]
        } else {
            Seq::empty()
        }
    }
}

/// The status of a Requirement: stale when the suite ran on another source,
/// failed when the suite failed, missing when the suite was filtered or a
/// declared test is uncovered or ignored, and passing otherwise.
pub open spec fn requirement_status(i: CertificationInput, r: RequirementEvidenceInput) -> CertificationStatus {
    let tests = texts(r.test_ids@);
    if !suite_current(i) {
        CertificationStatus::Stale
    } else if !i.suite_execution.passed {
        CertificationStatus::Fail
    } else if !i.suite_execution.canonical_unfiltered || uncovered_tests(i, tests).len() > 0 || ignored_of(
        i,
        tests,
    ).len() > 0 {
        CertificationStatus::Missing
    } else {
        CertificationStatus::Pass
    }
}

/// The explanation of a Requirement's status.
pub open spec fn requirement_reason(i: CertificationInput, r: RequirementEvidenceInput) -> Seq<char> {
    let tests = texts(r.test_ids@);
    match requirement_status(i, r) {
        CertificationStatus::Pass =>
            "every declared required test is eligible and covered by the successful canonical suite"@,
        CertificationStatus::Fail => "the canonical required test suite failed"@,
        _ => "missing tests: "@ + join_texts(uncovered_tests(i, tests), ","@) + "; ignored tests: "@ + join_texts(
            ignored_of(i, tests),
            ","@,
        ),
    }
}

/// The obligation of one Requirement.
pub open spec fn requirement_obligation(i: CertificationInput, r: RequirementEvidenceInput) -> ObligationModel {
    ObligationModel {
        kind: CertificationObligationKind::FeatureRequirement,
        subject: r.requirement_id@,
        required_evidence_classes: seq![EvidenceClass::ExecutedTest],
        evidence_refs: covered_refs(i, texts(r.test_ids@)),
        status: requirement_status(i, r),
        reason: requirement_reason(i, r),
    }
}

/// The Requirement obligations in identity order.
pub open spec fn requirement_obligations(i: CertificationInput) -> Seq<ObligationModel> {
    in_key_order(i.requirements@).map_values(|r: RequirementEvidenceInput| requirement_obligation(i, r))
}

/// The obligation of one Requirement.
fn requirement_obligation_exec(i: &CertificationInput, refs: &Vec<(String, String)>, r: &RequirementEvidenceInput) -> (o:
    CertificationObligation)
    requires
        test_index(*i, refs@),
    ensures
        o@ == requirement_obligation(*i, *r),
{
    let ghost tests = texts(r.test_ids@);
    let mut covered: Vec<String> = Vec::new();
    let mut missing: Vec<String> = Vec::new();
    let mut ignored: Vec<String> = Vec::new();
    let mut k: usize = 0;
    while k < r.test_ids.len()
        invariant
            test_index(*i, refs@),
            tests == texts(r.test_ids@),
            k <= tests.len(),
            texts(covered@) == covered_refs(*i, tests.take(k as int)),
            texts(missing@) == uncovered_tests(*i, tests.take(k as int)),
            texts(ignored@) == ignored_of(*i, tests.take(k as int)),
        decreases r.test_ids.len() - k,
    {
        let test = r.test_ids[k].as_str();
        proof {
            assert(tests.take(k + 1).drop_last() =~= tests.take(k as int));
            assert(tests.take(k + 1).last() == test@);
        }
        let ghost c0 = texts(covered@);
        let ghost m0 = texts(missing@);
        let ghost g0 = texts(ignored@);
        if texts_contain(&i.suite_execution.ignored_test_ids, test) {
            ignored.push(copy_text(test));
            proof {
                assert(texts(ignored@) =~= g0 + seq![test@]);
                assert(texts(covered@) =~= c0 + Seq::<Seq<char>>::empty());
                assert(texts(missing@) =~= m0 + Seq::<Seq<char>>::empty());
            }
        } else {
            match test_ref_exec(i, refs, test) {
                Some(id) => {
                    covered.push(id);
                    proof {
                        assert(texts(covered@) =~= c0 + seq![covered@.last()@]);
                        assert(texts(missing@) =~= m0 + Seq::<Seq<char>>::empty());
                    }
                },
                None => {
                    missing.push(copy_text(test));
                    proof {
                        assert(texts(missing@) =~= m0 + seq![test@]);
                        assert(texts(covered@) =~= c0 + Seq::<Seq<char>>::empty());
                    }
                },
            }
            proof {
                assert(texts(ignored@) =~= g0 + Seq::<Seq<char>>::empty());
            }
        }
        k = k + 1;
    }
    proof {
        assert(tests.take(tests.len() as int) =~= tests);
    }
    let s = &i.suite_execution;
    let current = crate::text::text_eq(s.certification_source_digest.as_str(), i.source_digest.as_str());
    let status = if !current {
        CertificationStatus::Stale
    } else if !s.passed {
        CertificationStatus::Fail
    } else if !s.canonical_unfiltered || missing.len() > 0 || ignored.len() > 0 {
        CertificationStatus::Missing
    } else {
        CertificationStatus::Pass
    };
    let reason = match status {
        CertificationStatus::Pass => String::from_str(
            "every declared required test is eligible and covered by the successful canonical suite",
        ),
        CertificationStatus::Fail => String::from_str("the canonical required test suite failed"),
        _ => {
            let a = join(missing.as_slice(), ",");
            let b = concat("missing tests: ", a.as_str());
            let c = concat(b.as_str(), "; ignored tests: ");
            let d = join(ignored.as_slice(), ",");
            concat(c.as_str(), d.as_str())
        },
    };
    let o = CertificationObligation {
        kind: CertificationObligationKind::FeatureRequirement,
        subject: copy_text(r.requirement_id.as_str()),
        required_evidence_classes: vec![EvidenceClass::ExecutedTest],
        evidence_refs: covered,
        status,
        reason,
    };
    assert(o@.required_evidence_classes =~= seq![EvidenceClass::ExecutedTest]);
    o
}

/// Builds the Requirement obligations in identity order.
pub fn requirement_phase(i: &CertificationInput, order: &Vec<usize>, refs: &Vec<(String, String)>) -> (r: Vec<
    CertificationObligation,
>)
    requires
        order@.map_values(|p: usize| p as int) == sorted_positions(
            item_keys(i.requirements@),
            i.requirements@.len() as int,
        ),
        test_index(*i, refs@),
    ensures
        crate::order::views(r@) == requirement_obligations(*i),
{
    let ghost rs = in_key_order(i.requirements@);
    let ghost ord = order@.map_values(|p: usize| p as int);
    proof {
        lemma_sorted_positions(item_keys(i.requirements@), i.requirements@.len() as int);
    }
    let n = i.requirements.len();
    let mut out: Vec<CertificationObligation> = Vec::new();
    let mut t: usize = 0;
    while t < n
        invariant
            n == i.requirements@.len(),
            rs == in_key_order(i.requirements@),
            rs.len() == n,
            ord == order@.map_values(|p: usize| p as int),
            ord.len() == n,
            forall|x: int| 0 <= x < n ==> 0 <= #[trigger] ord[x] < n && rs[x] == i.requirements@[ord[x]],
            test_index(*i, refs@),
            t <= n,
            crate::order::views(out@) == rs.take(t as int).map_values(
                |r: RequirementEvidenceInput| requirement_obligation(*i, r),
            ),
        decreases n - t,
    {
        assert(ord[t as int] == order@[t as int] as int);
        let r = &i.requirements[order[t]];
        assert(*r == rs[t as int]);
        let o = requirement_obligation_exec(i, refs, r);
        let ghost old = out@;
        out.push(o);
        proof {
            crate::order::lemma_views_push_seq(old, out@.last());
            assert(out@ == old.push(out@.last()));
            assert(rs.take(t + 1).map_values(|r: RequirementEvidenceInput| requirement_obligation(*i, r)) =~= rs.take(
                t as int,
            ).map_values(|r: RequirementEvidenceInput| requirement_obligation(*i, r)).push(
                requirement_obligation(*i, rs[t as int]),
            ));
        }
        t = t + 1;
    }
    proof {
        assert(rs.take(n as int) =~= rs);
    }
    out
}

// ---------------------------------------------------------------------------
// Behavioral realizations.

/// The evidence of the realized behavioral flow graph artifact, if present.
pub open spec fn realized_evidence(i: CertificationInput) -> Seq<Seq<char>> {
    match first_kind(ordered_artifacts(i), "realized_bfg"@, ordered_artifacts(i).len() as int) {
        Some(u) => seq![all_artifact_nodes(i)[u].id],
        None => Seq::empty(),
    }
}

/// The obligation of one opted-in realization.
pub open spec fn realization_obligation(i: CertificationInput, r: BehavioralRealizationEvidenceInput) -> ObligationModel {
    ObligationModel {
        kind: CertificationObligationKind::BehavioralRealization,
        subject: r.feature@,
        required_evidence_classes: seq![EvidenceClass::StaticProof],
        evidence_refs: realized_evidence(i),
        status: if r.coherent {
            CertificationStatus::Pass
        } else {
            CertificationStatus::Fail
        },
        reason: if r.coherent {
            "opted-in Feature has coherent current behavioral realization"@
        } else {
            "current semantic proof contradicts opted-in behavioral realization"@
        },
    }
}

/// The realization obligations in Feature order.
pub open spec fn realization_obligations(i: CertificationInput) -> Seq<ObligationModel> {
    in_key_order(i.behavioral_realizations@).map_values(
        |r: BehavioralRealizationEvidenceInput| realization_obligation(i, r),
    )
}

/// Builds the realization obligations in Feature order, given each artifact
/// kind with its node identity in kind order.
pub fn realization_phase(i: &CertificationInput, order: &Vec<usize>, artifacts: &Vec<(String, String)>) -> (r: Vec<
    CertificationObligation,
>)
    requires
        order@.map_values(|p: usize| p as int) == sorted_positions(
            item_keys(i.behavioral_realizations@),
            i.behavioral_realizations@.len() as int,
        ),
        artifacts@.len() == ordered_artifacts(*i).len(),
        forall|u: int| 0 <= u < artifacts@.len() ==> #[trigger] artifacts@[u].0@ == ordered_artifacts(*i)[u].kind@,
        forall|u: int| 0 <= u < artifacts@.len() ==> #[trigger] artifacts@[u].1@ == all_artifact_nodes(*i)[u].id,
    ensures
        crate::order::views(r@) == realization_obligations(*i),
{
    proof {
        reveal_strlit("realized_bfg");
    }
    let mut evidence: Vec<String> = Vec::new();
    let mut u: usize = 0;
    let mut found: Option<usize> = None;
    while u < artifacts.len()
        invariant
            u <= artifacts@.len(),
            forall|v: int| 0 <= v < artifacts@.len() ==> #[trigger] artifacts@[v].0@ == ordered_artifacts(*i)[v].kind@,
            match found {
                Some(x) => x < u && artifacts@[x as int].0@ == "realized_bfg"@ && forall|v: int|
                    0 <= v < x ==> artifacts@[v].0@ != "realized_bfg"@,
                None => forall|v: int| 0 <= v < u ==> artifacts@[v].0@ != "realized_bfg"@,
            },
        decreases artifacts.len() - u,
    {
        if found.is_none() && crate::text::text_eq(artifacts[u].0.as_str(), "realized_bfg") {
            found = Some(u);
        }
        u = u + 1;
    }
    proof {
        let arts = ordered_artifacts(*i);
        let m = match found {
            Some(x) => Some(x as int),
            None => None,
        };
        match found {
            Some(x) => {
                assert forall|v: int| 0 <= v < x implies arts[v].kind@ != "realized_bfg"@ by {
                    assert(artifacts@[v].0@ == arts[v].kind@);
                }
                assert(artifacts@[x as int].0@ == arts[x as int].kind@);
            },
            None => {
                assert forall|v: int| 0 <= v < arts.len() implies arts[v].kind@ != "realized_bfg"@ by {
                    assert(artifacts@[v].0@ == arts[v].kind@);
                }
            },
        }
        lemma_first_kind(arts, "realized_bfg"@, arts.len() as int, m);
    }
    match found {
        Some(x) => {
            evidence.push(copy_text(artifacts[x].1.as_str()));
        },
        None => {},
    }
    assert(texts(evidence@) =~= realized_evidence(*i));
    let ghost rs = in_key_order(i.behavioral_realizations@);
    let ghost ord = order@.map_values(|p: usize| p as int);
    proof {
        lemma_sorted_positions(item_keys(i.behavioral_realizations@), i.behavioral_realizations@.len() as int);
    }
    let n = i.behavioral_realizations.len();
    let mut out: Vec<CertificationObligation> = Vec::new();
    let mut t: usize = 0;
    while t < n
        invariant
            n == i.behavioral_realizations@.len(),
            rs == in_key_order(i.behavioral_realizations@),
            rs.len() == n,
            ord == order@.map_values(|p: usize| p as int),
            ord.len() == n,
            forall|x: int| 0 <= x < n ==> 0 <= #[trigger] ord[x] < n && rs[x] == i.behavioral_realizations@[ord[x]],
            texts(evidence@) == realized_evidence(*i),
            t <= n,
            crate::order::views(out@) == rs.take(t as int).map_values(
                |r: BehavioralRealizationEvidenceInput| realization_obligation(*i, r),
            ),
        decreases n - t,
    {
        assert(ord[t as int] == order@[t as int] as int);
        let r = &i.behavioral_realizations[order[t]];
        assert(*r == rs[t as int]);
        let o = CertificationObligation {
            kind: CertificationObligationKind::BehavioralRealization,
            subject: copy_text(r.feature.as_str()),
            required_evidence_classes: vec![EvidenceClass::StaticProof],
            evidence_refs: crate::text::copy_texts(evidence.as_slice()),
            status: if r.coherent {
                CertificationStatus::Pass
            } else {
                CertificationStatus::Fail
            },
            reason: if r.coherent {
                String::from_str("opted-in Feature has coherent current behavioral realization")
            } else {
                String::from_str("current semantic proof contradicts opted-in behavioral realization")
            },
        };
        assert(o@.required_evidence_classes =~= seq![EvidenceClass::StaticProof]);
        let ghost old = out@;
        out.push(o);
        proof {
            crate::order::lemma_views_push_seq(old, out@.last());
            assert(out@ == old.push(out@.last()));
            assert(rs.take(t + 1).map_values(|r: BehavioralRealizationEvidenceInput| realization_obligation(*i, r))
                =~= rs.take(t as int).map_values(
                |r: BehavioralRealizationEvidenceInput| realization_obligation(*i, r),
            ).push(realization_obligation(*i, rs[t as int])));
        }
        t = t + 1;
    }
    proof {
        assert(rs.take(n as int) =~= rs);
    }
    out
}

} // verus!
