//! What certification promises of every input.

use vstd::prelude::*;

use crate::text::texts;

use super::certify::{all_obligations, certification_of, certified, certification_graph, root_node, CertificationProducts};
use super::compile::{rule_status, suite_current};
use super::evidence::{EvidenceClass, EvidenceResult};
use super::graph::{validation, Validation};
use super::profile::{file_material, generated_projections, source_material};
use super::requirements::{ignored_of, ignored_tests, requirement_status, uncovered_tests};
use super::scenarios::{assertion_nodes, ordered_assertions};
use super::verified_bfg::{element_state, VerifiedBehavioralState};
use super::{
    aggregate_of, status_rank, worse, CertificationError, CertificationInput, CertificationStatus,
    RequirementEvidenceInput, RuleEvidenceInput,
};

verus! {

// ---------------------------------------------------------------------------
// Status precedence.

/// The aggregate of statuses is the status of highest precedence among
/// them (`INVALID > FAIL > STALE > MISSING > PASS`), and `PASS` for none.
pub proof fn lemma_aggregate_is_highest_precedence(s: Seq<CertificationStatus>)
    ensures
        forall|k: int| 0 <= k < s.len() ==> status_rank(#[trigger] s[k]) <= status_rank(aggregate_of(s)),
        s.len() == 0 ==> aggregate_of(s) == CertificationStatus::Pass,
        s.len() > 0 ==> s.contains(aggregate_of(s)),
    decreases s.len(),
{
    if s.len() > 0 {
        let t = s.drop_last();
        lemma_aggregate_is_highest_precedence(t);
        assert forall|k: int| 0 <= k < s.len() implies status_rank(#[trigger] s[k]) <= status_rank(aggregate_of(s)) by {
            if k < t.len() {
                assert(s[k] == t[k]);
            }
        }
        if t.len() > 0 {
            let a = aggregate_of(t);
            let j = choose|j: int| 0 <= j < t.len() && t[j] == a;
            if worse(a, s.last()) == a {
                assert(s[j] == a);
            } else {
                assert(s[s.len() - 1] == s.last());
            }
        } else {
            assert(s[0] == s.last());
        }
    }
}

/// Certification passes exactly when every obligation passes.
pub proof fn lemma_pass_iff_every_obligation_passes(s: Seq<CertificationStatus>)
    ensures
        aggregate_of(s) == CertificationStatus::Pass <==> forall|k: int|
            0 <= k < s.len() ==> #[trigger] s[k] == CertificationStatus::Pass,
{
    lemma_aggregate_is_highest_precedence(s);
    if aggregate_of(s) == CertificationStatus::Pass {
        assert forall|k: int| 0 <= k < s.len() implies #[trigger] s[k] == CertificationStatus::Pass by {
            assert(status_rank(s[k]) <= 0);
        }
    }
    if forall|k: int| 0 <= k < s.len() ==> #[trigger] s[k] == CertificationStatus::Pass {
        if s.len() > 0 {
            let j = choose|j: int| 0 <= j < s.len() && s[j] == aggregate_of(s);
            assert(s[j] == CertificationStatus::Pass);
        }
    }
}

/// A failed obligation outranks missing or stale evidence: certification
/// with a failure never reports a missing or stale status.
pub proof fn lemma_failure_precedes_missing_evidence(s: Seq<CertificationStatus>, k: int)
    requires
        0 <= k < s.len(),
        s[k] == CertificationStatus::Fail,
    ensures
        aggregate_of(s) == CertificationStatus::Fail || aggregate_of(s) == CertificationStatus::Invalid,
{
    lemma_aggregate_is_highest_precedence(s);
    assert(status_rank(s[k]) <= status_rank(aggregate_of(s)));
}

// ---------------------------------------------------------------------------
// Rules and Requirements.

/// An unsupported rule result never passes: it is missing evidence when
/// current and stale otherwise.
pub proof fn lemma_unsupported_rule_is_never_pass(r: RuleEvidenceInput)
    requires
        r.result == EvidenceResult::Unsupported,
    ensures
        rule_status(r) == (if r.current {
            CertificationStatus::Missing
        } else {
            CertificationStatus::Stale
        }),
{
}

proof fn lemma_ignored_of_nonempty(i: CertificationInput, tests: Seq<Seq<char>>, k: int)
    requires
        0 <= k < tests.len(),
        ignored_tests(i).contains(tests[k]),
    ensures
        ignored_of(i, tests).len() > 0,
    decreases tests.len(),
{
    if k < tests.len() - 1 {
        lemma_ignored_of_nonempty(i, tests.drop_last(), k);
    }
}

proof fn lemma_uncovered_nonempty(i: CertificationInput, tests: Seq<Seq<char>>, k: int)
    requires
        0 <= k < tests.len(),
        !ignored_tests(i).contains(tests[k]),
        super::compile::test_ref(i, tests[k]) is None,
    ensures
        uncovered_tests(i, tests).len() > 0,
    decreases tests.len(),
{
    if k < tests.len() - 1 {
        lemma_uncovered_nonempty(i, tests.drop_last(), k);
    }
}

/// A Requirement passes only through a passing, canonical unfiltered suite
/// run on the current source in which every declared test ran: a filtered
/// suite, an ignored declared test, or a declared test without execution
/// evidence leaves it unverified.
pub proof fn lemma_requirement_pass_needs_every_declared_test(i: CertificationInput, r: RequirementEvidenceInput)
    requires
        requirement_status(i, r) == CertificationStatus::Pass,
    ensures
        suite_current(i),
        i.suite_execution.passed,
        i.suite_execution.canonical_unfiltered,
        forall|k: int|
            0 <= k < r.test_ids@.len() ==> !ignored_tests(i).contains(#[trigger] texts(r.test_ids@)[k])
                && super::compile::test_ref(i, texts(r.test_ids@)[k]) is Some,
{
    let tests = texts(r.test_ids@);
    assert forall|k: int| 0 <= k < r.test_ids@.len() implies !ignored_tests(i).contains(#[trigger] tests[k])
        && super::compile::test_ref(i, tests[k]) is Some by {
        if ignored_tests(i).contains(tests[k]) {
            lemma_ignored_of_nonempty(i, tests, k);
        } else if super::compile::test_ref(i, tests[k]) is None {
            lemma_uncovered_nonempty(i, tests, k);
        }
    }
}

// ---------------------------------------------------------------------------
// Trusted assertions and the Verified BFG.

/// Trusted assertions stay trusted assertions: their nodes are never
/// static proof, and assert rather than prove.
pub proof fn lemma_trusted_assertions_stay_distinct(i: CertificationInput)
    ensures
        forall|k: int|
            0 <= k < assertion_nodes(i).len() ==> (#[trigger] assertion_nodes(i)[k]).evidence_class
                == EvidenceClass::TrustedAssertion && assertion_nodes(i)[k].result == EvidenceResult::Asserted,
{
}

/// A contradicted element is reported contradicted whatever evidence it
/// has, and an element verified by static proof and execution is realized
/// and executed, uncontradicted and not stale.
pub proof fn lemma_element_dimensions_stay_separate(
    contradicted: bool,
    stale: bool,
    realized: bool,
    executed: bool,
    intended: bool,
    opted_in: bool,
)
    ensures
        contradicted ==> element_state(contradicted, stale, realized, executed, intended, opted_in)
            == VerifiedBehavioralState::Contradicted,
        element_state(contradicted, stale, realized, executed, intended, opted_in)
            == VerifiedBehavioralState::VerifiedStaticAndExecuted ==> realized && executed && !contradicted && !stale,
        element_state(contradicted, stale, realized, executed, intended, opted_in)
            == VerifiedBehavioralState::VerifiedExecuted ==> executed && !realized,
{
}

// ---------------------------------------------------------------------------
// Whole certifications.

/// Certification is deterministic: every outcome an input can have carries
/// the same graph, result and Verified BFG.
pub proof fn lemma_certification_is_deterministic(
    i: CertificationInput,
    a: Result<CertificationProducts, CertificationError>,
    b: Result<CertificationProducts, CertificationError>,
)
    requires
        certified(i, a),
        certified(i, b),
        a is Ok,
    ensures
        b is Ok,
        a->Ok_0.evidence_graph@ == b->Ok_0.evidence_graph@,
        a->Ok_0.certification@ == b->Ok_0.certification@,
        a->Ok_0.verified_bfg@ == b->Ok_0.verified_bfg@,
{
}

/// A certification result passes exactly when every one of its obligations
/// passes.
pub proof fn lemma_certification_passes_iff_all_obligations_pass(i: CertificationInput)
    ensures
        certification_of(i, certification_graph(i)).status == CertificationStatus::Pass <==> forall|k: int|
            0 <= k < all_obligations(i).len() ==> (#[trigger] all_obligations(i)[k]).status
                == CertificationStatus::Pass,
{
    let s = super::assemble::statuses(all_obligations(i));
    lemma_pass_iff_every_obligation_passes(s);
    assert forall|k: int| 0 <= k < all_obligations(i).len() implies (#[trigger] all_obligations(i)[k]).status
        == s[k] by {}
}

// ---------------------------------------------------------------------------
// The certification source.

/// The files that contribute to the certification source, in order.
pub open spec fn source_files(files: Seq<(Seq<char>, Seq<u8>)>, k: int) -> Seq<(Seq<char>, Seq<u8>)>
    decreases k,
{
    if k <= 0 {
        Seq::empty()
    } else {
        source_files(files, k - 1) + if generated_projections().contains(files[k - 1].0) {
            Seq::<(Seq<char>, Seq<u8>)>::empty()
        } else {
            seq![files[k - 1]]
        }
    }
}

/// The hashed material of every file of a list.
pub open spec fn material_of(files: Seq<(Seq<char>, Seq<u8>)>) -> Seq<u8>
    decreases files.len(),
{
    if files.len() == 0 {
        Seq::empty()
    } else {
        material_of(files.drop_last()) + file_material(vstd::utf8::encode_utf8(files.last().0), files.last().1)
    }
}

proof fn lemma_source_material(files: Seq<(Seq<char>, Seq<u8>)>, k: int)
    requires
        0 <= k <= files.len(),
    ensures
        source_material(files, k) == material_of(source_files(files, k)),
    decreases k,
{
    if k > 0 {
        lemma_source_material(files, k - 1);
        let prev = source_files(files, k - 1);
        if !generated_projections().contains(files[k - 1].0) {
            assert((prev + seq![files[k - 1]]).drop_last() =~= prev);
        } else {
            assert(prev + Seq::<(Seq<char>, Seq<u8>)>::empty() =~= prev);
            assert(source_material(files, k - 1) + Seq::<u8>::empty() =~= source_material(files, k - 1));
        }
    }
}

/// Generated projections never change the certification source: two file
/// lists with the same contributing files, in the same order, hash the same
/// material.
pub proof fn lemma_generated_projections_do_not_contribute(
    a: Seq<(Seq<char>, Seq<u8>)>,
    b: Seq<(Seq<char>, Seq<u8>)>,
)
    requires
        source_files(a, a.len() as int) == source_files(b, b.len() as int),
    ensures
        source_material(a, a.len() as int) == source_material(b, b.len() as int),
{
    lemma_source_material(a, a.len() as int);
    lemma_source_material(b, b.len() as int);
}

} // verus!
