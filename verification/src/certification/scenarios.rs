//! Distributed verification bindings, generated verification obligations
//! and trusted assertions.

use vstd::prelude::*;

use crate::json::{lemma_member_models, member_models, text, text_array, text_values, Json, JsonModel};
use crate::text::{concat, copy_text, join, join_texts, strictly_sorted, text_eq, texts};

use super::compile::{make_node, semver, single_member, source_node, suite_current, test_ref};
use super::evidence::{node_of, EvidenceClass, EvidenceNode, EvidenceResult, NodeModel};
use super::keyed::{in_key_order, item_keys, lemma_sorted_positions, sorted_positions};
use super::requirements::{test_index, test_ref_exec};
use super::{
    CertificationError, CertificationInput, CertificationObligation, CertificationObligationKind, CertificationStatus,
    ErrorModel, GeneratedVerificationInput, GeneratedVerificationKind, ObligationModel, TrustedAssertionInput,
    VerificationBinding, CERTIFICATION_SEMANTIC_VERSION,
};

verus! {

// ---------------------------------------------------------------------------
// Bindings.

/// The position of the last of the first `m` generated obligations with
/// identity `id`.
pub open spec fn last_generated(gs: Seq<GeneratedVerificationInput>, id: Seq<char>, m: int) -> Option<int>
    decreases m,
{
    if m <= 0 {
        None
    } else if gs[m - 1].id@ == id {
        Some(m - 1)
    } else {
        last_generated(gs, id, m - 1)
    }
}

/// Why binding `k` is refused, given that the bindings before it were
/// accepted: it names no generated obligation, it is owned by another
/// Testing Module than the obligation (the last generated obligation of that
/// identity), its tests are empty or not strictly sorted, or an earlier
/// binding already targets the obligation.
pub open spec fn binding_issue(i: CertificationInput, k: int) -> Option<ErrorModel> {
    let bs = i.verification_bindings@;
    let gs = i.generated_verification@;
    let b = bs[k];
    match last_generated(gs, b.obligation@, gs.len() as int) {
        None => Some(ErrorModel::UnknownVerificationObligation(b.obligation@)),
        Some(g) => if b.testing_module@ != gs[g].testing_module@ {
            Some(
                ErrorModel::ForeignVerificationBinding {
                    obligation: b.obligation@,
                    expected: gs[g].testing_module@,
                    actual: b.testing_module@,
                },
            )
        } else if b.tests@.len() == 0 || !strictly_sorted(texts(b.tests@)) {
            Some(ErrorModel::InvalidVerificationBinding(b.obligation@))
        } else if exists|j: int| 0 <= j < k && #[trigger] bs[j].obligation@ == b.obligation@ {
            Some(ErrorModel::DuplicateVerificationBinding(b.obligation@))
        } else {
            None
        },
    }
}

/// The first refusal among the first `k` bindings.
pub open spec fn first_binding_issue(i: CertificationInput, k: int) -> Option<ErrorModel>
    decreases k,
{
    if k <= 0 {
        None
    } else {
        match first_binding_issue(i, k - 1) {
            Some(e) => Some(e),
            None => binding_issue(i, k - 1),
        }
    }
}

/// Why the bindings are refused, if they are.
pub open spec fn binding_error(i: CertificationInput) -> Option<ErrorModel> {
    first_binding_issue(i, i.verification_bindings@.len() as int)
}

proof fn lemma_last_generated(gs: Seq<GeneratedVerificationInput>, id: Seq<char>, m: int, u: Option<int>)
    requires
        0 <= m <= gs.len(),
        match u {
            Some(x) => 0 <= x < m && gs[x].id@ == id && forall|v: int| x < v < m ==> gs[v].id@ != id,
            None => forall|v: int| 0 <= v < m ==> gs[v].id@ != id,
        },
    ensures
        last_generated(gs, id, m) == u,
    decreases m,
{
    if m > 0 {
        match u {
            Some(x) => {
                if x < m - 1 {
                    lemma_last_generated(gs, id, m - 1, u);
                }
            },
            None => {
                lemma_last_generated(gs, id, m - 1, None);
            },
        }
    }
}

fn last_generated_exec(i: &CertificationInput, id: &str) -> (r: Option<usize>)
    ensures
        match last_generated(i.generated_verification@, id@, i.generated_verification@.len() as int) {
            Some(x) => r matches Some(y) && y == x,
            None => r is None,
        },
        r matches Some(y) ==> y < i.generated_verification@.len(),
{
    let ghost gs = i.generated_verification@;
    let mut found: Option<usize> = None;
    let mut v: usize = 0;
    while v < i.generated_verification.len()
        invariant
            gs == i.generated_verification@,
            v <= gs.len(),
            match found {
                Some(x) => x < v && gs[x as int].id@ == id@ && forall|w: int| x < w < v ==> gs[w].id@ != id@,
                None => forall|w: int| 0 <= w < v ==> gs[w].id@ != id@,
            },
        decreases i.generated_verification.len() - v,
    {
        if text_eq(i.generated_verification[v].id.as_str(), id) {
            found = Some(v);
        }
        v = v + 1;
    }
    proof {
        let u = match found {
            Some(x) => Some(x as int),
            None => None,
        };
        lemma_last_generated(gs, id@, gs.len() as int, u);
    }
    found
}

/// A refusal among the first bindings stays the first refusal.
proof fn lemma_first_binding_issue_stable(i: CertificationInput, k: int, m: int)
    requires
        0 <= k <= m,
        first_binding_issue(i, k) is Some,
    ensures
        first_binding_issue(i, m) == first_binding_issue(i, k),
    decreases m - k,
{
    if m > k {
        lemma_first_binding_issue_stable(i, k, m - 1);
    }
}

/// Checks every binding in order.
pub fn validate_bindings(i: &CertificationInput) -> (r: Result<(), CertificationError>)
    ensures
        match binding_error(*i) {
            Some(e) => r matches Err(x) && x@ == e,
            None => r is Ok,
        },
{
    let ghost bs = i.verification_bindings@;
    let n = i.verification_bindings.len();
    let mut k: usize = 0;
    while k < n
        invariant
            bs == i.verification_bindings@,
            n == bs.len(),
            k <= n,
            first_binding_issue(*i, k as int) is None,
        decreases n - k,
    {
        let b = &i.verification_bindings[k];
        let issue = binding_issue_exec(i, k);
        match issue {
            Some(e) => {
                proof {
                    lemma_first_binding_issue_stable(*i, k + 1, n as int);
                }
                return Err(e);
            },
            None => {},
        }
        k = k + 1;
    }
    Ok(())
}

/// Why binding `k` is refused, given that the bindings before it were accepted.
#[verifier::loop_isolation(false)]
fn binding_issue_exec(i: &CertificationInput, k: usize) -> (r: Option<CertificationError>)
    requires
        k < i.verification_bindings@.len(),
    ensures
        match binding_issue(*i, k as int) {
            Some(e) => r matches Some(x) && x@ == e,
            None => r is None,
        },
{
    let ghost bs = i.verification_bindings@;
    let b = &i.verification_bindings[k];
    match last_generated_exec(i, b.obligation.as_str()) {
        None => Some(CertificationError::UnknownVerificationObligation(copy_text(b.obligation.as_str()))),
        Some(g) => {
            let owner = &i.generated_verification[g];
            if !text_eq(b.testing_module.as_str(), owner.testing_module.as_str()) {
                return Some(
                    CertificationError::ForeignVerificationBinding {
                        obligation: copy_text(b.obligation.as_str()),
                        expected: copy_text(owner.testing_module.as_str()),
                        actual: copy_text(b.testing_module.as_str()),
                    },
                );
            }
            if b.tests.len() == 0 || !crate::text::is_strictly_sorted(&b.tests) {
                return Some(CertificationError::InvalidVerificationBinding(copy_text(b.obligation.as_str())));
            }
            let mut j: usize = 0;
            while j < k
                invariant
                    bs == i.verification_bindings@,
                    k < bs.len(),
                    j <= k,
                    forall|x: int| 0 <= x < j ==> bs[x].obligation@ != bs[k as int].obligation@,
                decreases k - j,
            {
                if text_eq(i.verification_bindings[j].obligation.as_str(), i.verification_bindings[k].obligation.as_str()) {
                    assert(exists|x: int| 0 <= x < k && #[trigger] bs[x].obligation@ == bs[k as int].obligation@) by {
                        assert(bs[j as int].obligation@ == bs[k as int].obligation@);
                    }
                    return Some(
                        CertificationError::DuplicateVerificationBinding(
                            copy_text(i.verification_bindings[k].obligation.as_str()),
                        ),
                    );
                }
                j = j + 1;
            }
            None
        },
    }
}

/// The position of the first of the first `m` bindings that targets `id`.
pub open spec fn binding_for(bs: Seq<VerificationBinding>, id: Seq<char>, m: int) -> Option<int>
    decreases m,
{
    if m <= 0 {
        None
    } else {
        match binding_for(bs, id, m - 1) {
            Some(k) => Some(k),
            None => if bs[m - 1].obligation@ == id {
                Some(m - 1)
            } else {
                None
            },
        }
    }
}

/// The binding of a generated obligation, if any.
pub open spec fn binding_of(i: CertificationInput, id: Seq<char>) -> Option<int> {
    binding_for(i.verification_bindings@, id, i.verification_bindings@.len() as int)
}

proof fn lemma_binding_for(bs: Seq<VerificationBinding>, id: Seq<char>, m: int, u: Option<int>)
    requires
        0 <= m <= bs.len(),
        match u {
            Some(x) => 0 <= x < m && bs[x].obligation@ == id && forall|v: int| 0 <= v < x ==> bs[v].obligation@ != id,
            None => forall|v: int| 0 <= v < m ==> bs[v].obligation@ != id,
        },
    ensures
        binding_for(bs, id, m) == u,
    decreases m,
{
    if m > 0 {
        match u {
            Some(x) => {
                if x < m - 1 {
                    lemma_binding_for(bs, id, m - 1, u);
                } else {
                    lemma_binding_for(bs, id, m - 1, None);
                }
            },
            None => {
                lemma_binding_for(bs, id, m - 1, None);
            },
        }
    }
}

fn binding_exec(i: &CertificationInput, id: &str) -> (r: Option<usize>)
    ensures
        match binding_of(*i, id@) {
            Some(x) => r matches Some(y) && y == x,
            None => r is None,
        },
        r matches Some(y) ==> y < i.verification_bindings@.len(),
{
    let ghost bs = i.verification_bindings@;
    let mut v: usize = 0;
    while v < i.verification_bindings.len()
        invariant
            bs == i.verification_bindings@,
            v <= bs.len(),
            forall|w: int| 0 <= w < v ==> bs[w].obligation@ != id@,
        decreases i.verification_bindings.len() - v,
    {
        if text_eq(i.verification_bindings[v].obligation.as_str(), id) {
            proof {
                lemma_binding_for(bs, id@, bs.len() as int, Some(v as int));
            }
            return Some(v);
        }
        v = v + 1;
    }
    proof {
        lemma_binding_for(bs, id@, bs.len() as int, None);
    }
    None
}

// ---------------------------------------------------------------------------
// Generated verification obligations.

/// The tests bound to a generated obligation.
pub open spec fn bound_tests(i: CertificationInput, g: GeneratedVerificationInput) -> Seq<Seq<char>> {
    match binding_of(i, g.id@) {
        Some(k) => texts(i.verification_bindings@[k].tests@),
        None => Seq::empty(),
    }
}

/// The execution evidence of the tests that have it, in order.
pub open spec fn executed_refs(i: CertificationInput, tests: Seq<Seq<char>>) -> Seq<Seq<char>>
    decreases tests.len(),
{
    if tests.len() == 0 {
        Seq::empty()
    } else {
        executed_refs(i, tests.drop_last()) + match test_ref(i, tests.last()) {
            Some(id) => seq![id],
            None => Seq::empty(),
        }
    }
}

/// The tests without execution evidence, in order.
pub open spec fn unexecuted_tests(i: CertificationInput, tests: Seq<Seq<char>>) -> Seq<Seq<char>>
    decreases tests.len(),
{
    if tests.len() == 0 {
        Seq::empty()
    } else {
        unexecuted_tests(i, tests.drop_last()) + if test_ref(i, tests.last()) is None {
            seq![tests.last()]
        } else {
            Seq::empty()
        }
    }
}

/// The status of a generated obligation: stale when its bound tests all ran
/// on another source; failed when the suite failed; missing without a
/// binding or with a bound test unexecuted; passing otherwise.
pub open spec fn generated_status(i: CertificationInput, g: GeneratedVerificationInput) -> CertificationStatus {
    let bound = binding_of(i, g.id@) is Some;
    let refs = executed_refs(i, bound_tests(i, g));
    let missing = unexecuted_tests(i, bound_tests(i, g));
    if !suite_current(i) && bound && missing.len() == 0 && refs.len() > 0 {
        CertificationStatus::Stale
    } else if !i.suite_execution.passed {
        CertificationStatus::Fail
    } else if !bound || missing.len() > 0 || refs.len() == 0 {
        CertificationStatus::Missing
    } else {
        CertificationStatus::Pass
    }
}

/// A scenario execution node is recorded for passing and stale obligations.
pub open spec fn has_scenario(i: CertificationInput, g: GeneratedVerificationInput) -> bool {
    generated_status(i, g) == CertificationStatus::Pass || generated_status(i, g) == CertificationStatus::Stale
}

/// The evidence kind of a scenario execution.
pub open spec fn scenario_kind(k: GeneratedVerificationKind) -> Seq<char> {
    match k {
        GeneratedVerificationKind::Behavioral => "behavioral_verification_execution"@,
        GeneratedVerificationKind::Environmental => "environmental_scenario_execution"@,
    }
}

/// The payload of a scenario execution node.
pub open spec fn scenario_payload(g: GeneratedVerificationInput) -> JsonModel {
    JsonModel::Object(
        seq![
            ("targets"@, JsonModel::Array(text_values(texts(g.targets@)))),
            ("testing_module"@, JsonModel::Text(g.testing_module@)),
        ],
    )
}

/// The scenario execution node of a generated obligation.
pub open spec fn scenario_node(i: CertificationInput, g: GeneratedVerificationInput) -> NodeModel {
    node_of(
        scenario_kind(g.kind),
        g.id@,
        if generated_status(i, g) == CertificationStatus::Pass {
            EvidenceResult::Pass
        } else {
            EvidenceResult::Observed
        },
        executed_refs(i, bound_tests(i, g)),
        "fortress-certification"@,
        semver(),
        EvidenceClass::ExecutedScenario,
        scenario_payload(g),
    )
}

/// The obligation kind of a generated obligation.
pub open spec fn generated_kind(k: GeneratedVerificationKind) -> CertificationObligationKind {
    match k {
        GeneratedVerificationKind::Behavioral => CertificationObligationKind::BehavioralVerification,
        GeneratedVerificationKind::Environmental => CertificationObligationKind::EnvironmentalVerification,
    }
}

/// The explanation of a generated obligation's status.
pub open spec fn generated_reason(i: CertificationInput, g: GeneratedVerificationInput) -> Seq<char> {
    match generated_status(i, g) {
        CertificationStatus::Pass => "distributed verification binding is covered by current executed tests"@,
        CertificationStatus::Fail => "the canonical suite supporting the generated scenario failed"@,
        CertificationStatus::Stale => "bound execution evidence refers to a prior certification subject"@,
        _ => if binding_of(i, g.id@) is None {
            "no distributed verification binding exists"@
        } else {
            "bound tests lack current execution evidence: "@ + join_texts(
                unexecuted_tests(i, bound_tests(i, g)),
                ","@,
            )
        },
    }
}

/// The obligation of a generated verification obligation.
pub open spec fn generated_obligation(i: CertificationInput, g: GeneratedVerificationInput) -> ObligationModel {
    ObligationModel {
        kind: generated_kind(g.kind),
        subject: g.id@,
        required_evidence_classes: seq![EvidenceClass::ExecutedScenario],
        evidence_refs: if has_scenario(i, g) {
            seq![scenario_node(i, g).id]
        } else {
            executed_refs(i, bound_tests(i, g))
        },
        status: generated_status(i, g),
        reason: generated_reason(i, g),
    }
}

/// The generated obligations in identity order.
pub open spec fn ordered_generated(i: CertificationInput) -> Seq<GeneratedVerificationInput> {
    in_key_order(i.generated_verification@)
}

/// The obligations of the generated obligations in identity order.
pub open spec fn generated_obligations(i: CertificationInput) -> Seq<ObligationModel> {
    ordered_generated(i).map_values(|g: GeneratedVerificationInput| generated_obligation(i, g))
}

/// The scenario nodes of the first `t` generated obligations.
pub open spec fn scenario_nodes_upto(i: CertificationInput, t: int) -> Seq<NodeModel>
    decreases t,
{
    if t <= 0 {
        Seq::empty()
    } else {
        let g = ordered_generated(i)[t - 1];
        scenario_nodes_upto(i, t - 1) + if has_scenario(i, g) {
            seq![scenario_node(i, g)]
        } else {
            Seq::empty()
        }
    }
}

/// The scenario nodes, in identity order of their obligations.
pub open spec fn scenario_nodes(i: CertificationInput) -> Seq<NodeModel> {
    scenario_nodes_upto(i, ordered_generated(i).len() as int)
}

/// A generated obligation that records a scenario node has an empty identity.
pub open spec fn empty_scenario_id(i: CertificationInput) -> bool {
    exists|k: int|
        0 <= k < ordered_generated(i).len() && (#[trigger] ordered_generated(i)[k]).id@.len() == 0 && has_scenario(
            i,
            ordered_generated(i)[k],
        )
}

fn scenario_payload_json(g: &GeneratedVerificationInput) -> (r: Json)
    ensures
        r@ == scenario_payload(*g),
{
    let members = vec![
        (String::from_str("targets"), text_array(g.targets.as_slice())),
        (String::from_str("testing_module"), text(g.testing_module.as_str())),
    ];
    proof {
        lemma_member_models(members@);
        assert(g.targets@.map_values(|s: String| s@) =~= texts(g.targets@));
        assert(member_models(members@) =~= seq![
            ("targets"@, JsonModel::Array(text_values(texts(g.targets@)))),
            ("testing_module"@, JsonModel::Text(g.testing_module@)),
        ]);
    }
    Json::Object(members)
}

/// The executed and unexecuted bound tests of a generated obligation.
pub(crate) fn bound_evidence(i: &CertificationInput, refs: &Vec<(String, String)>, g: &GeneratedVerificationInput) -> (r: (
    Option<usize>,
    Vec<String>,
    Vec<String>,
))
    requires
        test_index(*i, refs@),
    ensures
        match binding_of(*i, g.id@) {
            Some(x) => r.0 matches Some(y) && y == x,
            None => r.0 is None,
        },
        texts(r.1@) == executed_refs(*i, bound_tests(*i, *g)),
        texts(r.2@) == unexecuted_tests(*i, bound_tests(*i, *g)),
{
    let binding = binding_exec(i, g.id.as_str());
    let mut executed: Vec<String> = Vec::new();
    let mut missing: Vec<String> = Vec::new();
    match binding {
        Some(b) => {
            let ghost ts = texts(i.verification_bindings@[b as int].tests@);
            assert(ts == bound_tests(*i, *g));
            let mut k: usize = 0;
            while k < i.verification_bindings[b].tests.len()
                invariant
                    test_index(*i, refs@),
                    b < i.verification_bindings@.len(),
                    ts == texts(i.verification_bindings@[b as int].tests@),
                    k <= ts.len(),
                    texts(executed@) == executed_refs(*i, ts.take(k as int)),
                    texts(missing@) == unexecuted_tests(*i, ts.take(k as int)),
                decreases i.verification_bindings[b as int].tests@.len() - k,
            {
                let test = i.verification_bindings[b].tests[k].as_str();
                proof {
                    assert(ts.take(k + 1).drop_last() =~= ts.take(k as int));
                    assert(ts.take(k + 1).last() == test@);
                }
                let ghost e0 = texts(executed@);
                let ghost m0 = texts(missing@);
                match test_ref_exec(i, refs, test) {
                    Some(id) => {
                        executed.push(id);
                        proof {
                            assert(texts(executed@) =~= e0 + seq![executed@.last()@]);
                            assert(texts(missing@) =~= m0 + Seq::<Seq<char>>::empty());
                        }
                    },
                    None => {
                        missing.push(copy_text(test));
                        proof {
                            assert(texts(missing@) =~= m0 + seq![test@]);
                            assert(texts(executed@) =~= e0 + Seq::<Seq<char>>::empty());
                        }
                    },
                }
                k = k + 1;
            }
            proof {
                assert(ts.take(ts.len() as int) =~= ts);
            }
        },
        None => {
            assert(texts(executed@) =~= Seq::<Seq<char>>::empty());
            assert(texts(missing@) =~= Seq::<Seq<char>>::empty());
        },
    }
    (binding, executed, missing)
}

/// The scenario node, if one is recorded, and the obligation of one
/// generated obligation.
fn generated_step(
    i: &CertificationInput,
    refs: &Vec<(String, String)>,
    g: &GeneratedVerificationInput,
    current: bool,
) -> (r: Result<(Option<EvidenceNode>, CertificationObligation), CertificationError>)
    requires
        test_index(*i, refs@),
        current == suite_current(*i),
    ensures
        has_scenario(*i, *g) && g.id@.len() == 0 ==> r == Err::<
            (Option<EvidenceNode>, CertificationObligation),
            CertificationError,
        >(CertificationError::EmptyNodeField),
        !(has_scenario(*i, *g) && g.id@.len() == 0) ==> (r matches Ok((node, o)) && o@ == generated_obligation(
            *i,
            *g,
        ) && (has_scenario(*i, *g) ==> (node matches Some(x) && x@ == scenario_node(*i, *g))) && (!has_scenario(
            *i,
            *g,
        ) ==> node is None)),
{
    proof {
        reveal_strlit("behavioral_verification_execution");
        reveal_strlit("environmental_scenario_execution");
        reveal_strlit("fortress-certification");
        reveal_strlit("1.0.0");
    }
    let passed = i.suite_execution.passed;
    let (binding, executed, missing) = bound_evidence(i, refs, g);
    let bound = binding.is_some();
    let status = if !current && bound && missing.len() == 0 && executed.len() > 0 {
        CertificationStatus::Stale
    } else if !passed {
        CertificationStatus::Fail
    } else if !bound || missing.len() > 0 || executed.len() == 0 {
        CertificationStatus::Missing
    } else {
        CertificationStatus::Pass
    };
    assert(status == generated_status(*i, *g));
    let reason = match status {
        CertificationStatus::Pass => String::from_str(
            "distributed verification binding is covered by current executed tests",
        ),
        CertificationStatus::Fail => String::from_str("the canonical suite supporting the generated scenario failed"),
        CertificationStatus::Stale => String::from_str(
            "bound execution evidence refers to a prior certification subject",
        ),
        _ => if !bound {
            String::from_str("no distributed verification binding exists")
        } else {
            let list = join(missing.as_slice(), ",");
            concat("bound tests lack current execution evidence: ", list.as_str())
        },
    };
    assert(reason@ == generated_reason(*i, *g));
    let kind = match g.kind {
        GeneratedVerificationKind::Behavioral => CertificationObligationKind::BehavioralVerification,
        GeneratedVerificationKind::Environmental => CertificationObligationKind::EnvironmentalVerification,
    };
    if status == CertificationStatus::Pass || status == CertificationStatus::Stale {
        let node_kind = match g.kind {
            GeneratedVerificationKind::Behavioral => "behavioral_verification_execution",
            GeneratedVerificationKind::Environmental => "environmental_scenario_execution",
        };
        let node = make_node(
            node_kind,
            g.id.as_str(),
            if status == CertificationStatus::Pass {
                EvidenceResult::Pass
            } else {
                EvidenceResult::Observed
            },
            executed,
            "fortress-certification",
            CERTIFICATION_SEMANTIC_VERSION,
            EvidenceClass::ExecutedScenario,
            scenario_payload_json(g),
        )?;
        let mut ev = Vec::new();
        ev.push(copy_text(node.id()));
        let o = CertificationObligation {
            kind,
            subject: copy_text(g.id.as_str()),
            required_evidence_classes: vec![EvidenceClass::ExecutedScenario],
            evidence_refs: ev,
            status,
            reason,
        };
        assert(o@.required_evidence_classes =~= seq![EvidenceClass::ExecutedScenario]);
        assert(o@.evidence_refs =~= seq![node@.id]);
        Ok((Some(node), o))
    } else {
        let o = CertificationObligation {
            kind,
            subject: copy_text(g.id.as_str()),
            required_evidence_classes: vec![EvidenceClass::ExecutedScenario],
            evidence_refs: executed,
            status,
            reason,
        };
        assert(o@.required_evidence_classes =~= seq![EvidenceClass::ExecutedScenario]);
        Ok((None, o))
    }
}

/// Builds the scenario nodes and the obligations of the generated
/// obligations in identity order.
pub fn generated_phase(i: &CertificationInput, order: &Vec<usize>, refs: &Vec<(String, String)>) -> (r: Result<
    (Vec<EvidenceNode>, Vec<CertificationObligation>),
    CertificationError,
>)
    requires
        order@.map_values(|p: usize| p as int) == sorted_positions(
            item_keys(i.generated_verification@),
            i.generated_verification@.len() as int,
        ),
        test_index(*i, refs@),
    ensures
        empty_scenario_id(*i) ==> r == Err::<(Vec<EvidenceNode>, Vec<CertificationObligation>), CertificationError>(
            CertificationError::EmptyNodeField,
        ),
        !empty_scenario_id(*i) ==> (r matches Ok(t) && crate::order::views(t.0@) == scenario_nodes(*i)
            && crate::order::views(t.1@) == generated_obligations(*i)),
{
    let ghost gs = ordered_generated(*i);
    let ghost ord = order@.map_values(|p: usize| p as int);
    proof {
        lemma_sorted_positions(item_keys(i.generated_verification@), i.generated_verification@.len() as int);
    }
    let current = text_eq(i.suite_execution.certification_source_digest.as_str(), i.source_digest.as_str());
    let n = i.generated_verification.len();
    let mut nodes: Vec<EvidenceNode> = Vec::new();
    let mut out: Vec<CertificationObligation> = Vec::new();
    let mut t: usize = 0;
    while t < n
        invariant
            n == i.generated_verification@.len(),
            gs == ordered_generated(*i),
            gs.len() == n,
            ord == order@.map_values(|p: usize| p as int),
            ord.len() == n,
            forall|x: int| 0 <= x < n ==> 0 <= #[trigger] ord[x] < n && gs[x] == i.generated_verification@[ord[x]],
            test_index(*i, refs@),
            current == suite_current(*i),
            t <= n,
            crate::order::views(nodes@) == scenario_nodes_upto(*i, t as int),
            crate::order::views(out@) == gs.take(t as int).map_values(
                |g: GeneratedVerificationInput| generated_obligation(*i, g),
            ),
            forall|k: int| 0 <= k < t ==> !((#[trigger] gs[k]).id@.len() == 0 && has_scenario(*i, gs[k])),
        decreases n - t,
    {
        assert(ord[t as int] == order@[t as int] as int);
        let g = &i.generated_verification[order[t]];
        assert(*g == gs[t as int]);
        let (node, o) = match generated_step(i, refs, g, current) {
            Ok(step) => step,
            Err(e) => {
                return Err(e);
            },
        };
        let ghost old_nodes = nodes@;
        match node {
            Some(x) => {
                nodes.push(x);
                proof {
                    crate::order::lemma_views_push_seq(old_nodes, nodes@.last());
                    assert(nodes@ == old_nodes.push(nodes@.last()));
                    assert(crate::order::views(nodes@) =~= scenario_nodes_upto(*i, t as int) + seq![
                        scenario_node(*i, *g),
                    ]);
                }
            },
            None => {
                assert(crate::order::views(nodes@) =~= scenario_nodes_upto(*i, t as int) + Seq::<NodeModel>::empty());
            },
        }
        let ghost old = out@;
        out.push(o);
        proof {
            crate::order::lemma_views_push_seq(old, out@.last());
            assert(out@ == old.push(out@.last()));
            assert(gs.take(t + 1).map_values(|g: GeneratedVerificationInput| generated_obligation(*i, g)) =~= gs.take(
                t as int,
            ).map_values(|g: GeneratedVerificationInput| generated_obligation(*i, g)).push(
                generated_obligation(*i, gs[t as int]),
            ));
        }
        t = t + 1;
    }
    proof {
        assert(gs.take(n as int) =~= gs);
    }
    Ok((nodes, out))
}

// ---------------------------------------------------------------------------
// Trusted assertions.

/// The assertions in subject order.
pub open spec fn ordered_assertions(i: CertificationInput) -> Seq<TrustedAssertionInput> {
    in_key_order(i.trusted_assertions@)
}

/// The node of one trusted assertion.
pub open spec fn assertion_node(i: CertificationInput, a: TrustedAssertionInput) -> NodeModel {
    node_of(
        a.kind@,
        a.subject@,
        EvidenceResult::Asserted,
        seq![source_node(i).id],
        "fortress-distributed-authority"@,
        semver(),
        EvidenceClass::TrustedAssertion,
        single_member("provenance"@, JsonModel::Text(a.provenance@)),
    )
}

/// The assertion nodes in subject order.
pub open spec fn assertion_nodes(i: CertificationInput) -> Seq<NodeModel> {
    ordered_assertions(i).map_values(|a: TrustedAssertionInput| assertion_node(i, a))
}

/// Some assertion has an empty kind or subject.
pub open spec fn empty_assertion_field(i: CertificationInput) -> bool {
    exists|k: int|
        0 <= k < ordered_assertions(i).len() && ((#[trigger] ordered_assertions(i)[k]).kind@.len() == 0
            || ordered_assertions(i)[k].subject@.len() == 0)
}

/// Builds the assertion nodes in subject order.
pub fn assertion_phase(i: &CertificationInput, order: &Vec<usize>, source_id: &str) -> (r: Result<
    Vec<EvidenceNode>,
    CertificationError,
>)
    requires
        order@.map_values(|p: usize| p as int) == sorted_positions(
            item_keys(i.trusted_assertions@),
            i.trusted_assertions@.len() as int,
        ),
        source_id@ == source_node(*i).id,
    ensures
        empty_assertion_field(*i) ==> r == Err::<Vec<EvidenceNode>, CertificationError>(
            CertificationError::EmptyNodeField,
        ),
        !empty_assertion_field(*i) ==> (r matches Ok(v) && crate::order::views(v@) == assertion_nodes(*i)),
{
    let ghost ts = ordered_assertions(*i);
    let ghost ord = order@.map_values(|p: usize| p as int);
    proof {
        lemma_sorted_positions(item_keys(i.trusted_assertions@), i.trusted_assertions@.len() as int);
    }
    let n = i.trusted_assertions.len();
    let mut out: Vec<EvidenceNode> = Vec::new();
    let mut t: usize = 0;
    while t < n
        invariant
            n == i.trusted_assertions@.len(),
            ts == ordered_assertions(*i),
            ts.len() == n,
            ord == order@.map_values(|p: usize| p as int),
            ord.len() == n,
            forall|x: int| 0 <= x < n ==> 0 <= #[trigger] ord[x] < n && ts[x] == i.trusted_assertions@[ord[x]],
            source_id@ == source_node(*i).id,
            t <= n,
            crate::order::views(out@) == ts.take(t as int).map_values(|a: TrustedAssertionInput| assertion_node(*i, a)),
            forall|k: int| 0 <= k < t ==> (#[trigger] ts[k]).kind@.len() > 0 && ts[k].subject@.len() > 0,
        decreases n - t,
    {
        proof {
            reveal_strlit("fortress-distributed-authority");
            reveal_strlit("1.0.0");
        }
        assert(ord[t as int] == order@[t as int] as int);
        let a = &i.trusted_assertions[order[t]];
        assert(*a == ts[t as int]);
        let mut inputs = Vec::new();
        inputs.push(String::from_str(source_id));
        assert(texts(inputs@) =~= seq![source_id@]);
        let members = vec![(String::from_str("provenance"), text(a.provenance.as_str()))];
        proof {
            lemma_member_models(members@);
            assert(member_models(members@) =~= seq![("provenance"@, JsonModel::Text(a.provenance@))]);
        }
        let node = match make_node(
            a.kind.as_str(),
            a.subject.as_str(),
            EvidenceResult::Asserted,
            inputs,
            "fortress-distributed-authority",
            CERTIFICATION_SEMANTIC_VERSION,
            EvidenceClass::TrustedAssertion,
            Json::Object(members),
        ) {
            Ok(node) => node,
            Err(e) => {
                assert(ts[t as int].kind@.len() == 0 || ts[t as int].subject@.len() == 0);
                return Err(e);
            },
        };
        let ghost old = out@;
        out.push(node);
        proof {
            crate::order::lemma_views_push_seq(old, out@.last());
            assert(out@ == old.push(out@.last()));
            assert(ts.take(t + 1).map_values(|a: TrustedAssertionInput| assertion_node(*i, a)) =~= ts.take(
                t as int,
            ).map_values(|a: TrustedAssertionInput| assertion_node(*i, a)).push(assertion_node(*i, ts[t as int])));
        }
        t = t + 1;
    }
    proof {
        assert(ts.take(n as int) =~= ts);
    }
    Ok(out)
}

} // verus!
