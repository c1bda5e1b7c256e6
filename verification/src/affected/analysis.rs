//! Affected closure between two exact snapshots, with complete reasons.

use vstd::prelude::*;

use crate::order::{canonical_sort, is_canonical, is_strictly_canonical, lemma_permutation_views, views, CanonicalOrder};
use crate::codec::{decimal, decimal_of};
use crate::json::{
    json_model, json_models, lemma_json_models, lemma_member_models, member_models, pretty_document,
    render_pretty_document, text, text_array, text_values, Json, JsonModel,
};
use crate::text::{
    concat, copy_text, is_prefix, lemma_seq_le_reflexive, lemma_seq_le_total, lemma_seq_le_transitive,
    seq_le, strip_prefix_or_self, text_eq, texts,
};
use super::InputModel;
use super::{
    affected_flags, compare_inputs, is_affected, is_input_change, same_texts, unit_ids,
    unit_position_in, AffectedSnapshot, AffectedUnitKind, ChangeModel, InputChange, UnitModel,
};

verus! {

/// Abstract value of one invalidation reason.
pub enum ReasonModel {
    UnitAdded,
    UnitRemoved,
    UnitDigestChanged,
    DependencySetChanged,
    UpstreamAffected(Seq<char>),
}

/// Why one semantic unit must be recomputed.
#[derive(Clone, Debug, PartialEq, Eq)]
pub enum InvalidationReason {
    /// The unit exists only in the current graph.
    UnitAdded,
    /// The prior unit no longer exists.
    UnitRemoved,
    /// The unit's own exact semantic digest changed.
    UnitDigestChanged,
    /// The direct dependency identity set changed.
    DependencySetChanged,
    /// A direct or transitive dependency is affected.
    UpstreamAffected {
        /// Stable affected dependency identity.
        dependency: String,
    },
}

impl View for InvalidationReason {
    type V = ReasonModel;

    open spec fn view(&self) -> ReasonModel {
        match self {
            InvalidationReason::UnitAdded => ReasonModel::UnitAdded,
            InvalidationReason::UnitRemoved => ReasonModel::UnitRemoved,
            InvalidationReason::UnitDigestChanged => ReasonModel::UnitDigestChanged,
            InvalidationReason::DependencySetChanged => ReasonModel::DependencySetChanged,
            InvalidationReason::UpstreamAffected { dependency } => ReasonModel::UpstreamAffected(
                dependency@,
            ),
        }
    }
}

/// Affected status for one semantic unit.
#[derive(Clone, Copy, Debug, PartialEq, Eq, Structural)]
pub enum AffectedUnitState {
    /// The unit must be recomputed.
    Recompute,
    /// The unit was removed and prior material cannot be current.
    Removed,
}

/// Abstract value of one invalidated unit.
pub struct ResultModel {
    pub id: Seq<char>,
    pub kind: AffectedUnitKind,
    pub state: AffectedUnitState,
    pub reasons: Seq<ReasonModel>,
}

/// One invalidated unit with complete deterministic reasons.
#[derive(Clone, Debug, PartialEq, Eq)]
pub struct AffectedUnitResult {
    id: String,
    kind: AffectedUnitKind,
    state: AffectedUnitState,
    reasons: Vec<InvalidationReason>,
}

impl View for AffectedUnitResult {
    type V = ResultModel;

    closed spec fn view(&self) -> ResultModel {
        ResultModel {
            id: self.id@,
            kind: self.kind,
            state: self.state,
            reasons: views(self.reasons@),
        }
    }
}

impl AffectedUnitResult {
    /// Returns the stable unit identity.
    pub fn id(&self) -> (r: &str)
        ensures
            r@ == self@.id,
    {
        self.id.as_str()
    }

    /// Returns the unit class.
    pub fn kind(&self) -> (r: AffectedUnitKind)
        ensures
            r == self@.kind,
    {
        self.kind
    }

    /// Returns whether the unit is recomputed or removed.
    pub fn state(&self) -> (r: AffectedUnitState)
        ensures
            r == self@.state,
    {
        self.state
    }

    /// Returns deterministic invalidation reasons.
    pub fn reasons(&self) -> (r: &[InvalidationReason])
        ensures
            views(r@) == self@.reasons,
    {
        self.reasons.as_slice()
    }
}

impl CanonicalOrder for AffectedUnitResult {
    open spec fn ordered(a: ResultModel, b: ResultModel) -> bool {
        seq_le(a.id, b.id)
    }

    proof fn lemma_ordered_reflexive(a: ResultModel) {
        lemma_seq_le_reflexive(a.id);
    }

    proof fn lemma_ordered_transitive(a: ResultModel, b: ResultModel, c: ResultModel) {
        lemma_seq_le_transitive(a.id, b.id, c.id);
    }

    proof fn lemma_ordered_total(a: ResultModel, b: ResultModel) {
        lemma_seq_le_total(a.id, b.id);
    }

    fn precedes(&self, other: &Self) -> (r: bool) {
        crate::text::text_le(self.id.as_str(), other.id.as_str())
    }
}

/// Abstract value of the aggregate counts.
pub struct SummaryModel {
    pub changed_inputs: usize,
    pub affected_units: usize,
    pub reusable_units: usize,
    pub removed_units: usize,
    pub recomputation_percent: u32,
}

/// Aggregate affected/reuse counts.
#[derive(Clone, Copy, Debug, PartialEq, Eq, Structural)]
pub struct AffectedSummary {
    changed_inputs: usize,
    affected_units: usize,
    reusable_units: usize,
    removed_units: usize,
    recomputation_percent: u32,
}

impl View for AffectedSummary {
    type V = SummaryModel;

    closed spec fn view(&self) -> SummaryModel {
        SummaryModel {
            changed_inputs: self.changed_inputs,
            affected_units: self.affected_units,
            reusable_units: self.reusable_units,
            removed_units: self.removed_units,
            recomputation_percent: self.recomputation_percent,
        }
    }
}

impl AffectedSummary {
    /// Returns authoritative input change count.
    pub fn changed_inputs(self) -> (r: usize)
        ensures
            r == self@.changed_inputs,
    {
        self.changed_inputs
    }

    /// Returns current units requiring recomputation.
    pub fn affected_units(self) -> (r: usize)
        ensures
            r == self@.affected_units,
    {
        self.affected_units
    }

    /// Returns current units proven reusable.
    pub fn reusable_units(self) -> (r: usize)
        ensures
            r == self@.reusable_units,
    {
        self.reusable_units
    }

    /// Returns prior units that no longer exist.
    pub fn removed_units(self) -> (r: usize)
        ensures
            r == self@.removed_units,
    {
        self.removed_units
    }

    /// Returns integer recomputation percentage rounded up.
    pub fn recomputation_percent(self) -> (r: u32)
        ensures
            r == self@.recomputation_percent,
    {
        self.recomputation_percent
    }
}

/// Abstract value of one analysis.
pub struct AnalysisModel {
    pub schema: Seq<char>,
    pub schema_version: u16,
    pub semantic_version: Seq<char>,
    pub previous_source_fingerprint: Seq<char>,
    pub current_source_fingerprint: Seq<char>,
    pub input_changes: Seq<ChangeModel>,
    pub affected: Seq<ResultModel>,
    pub reusable: Seq<Seq<char>>,
    pub affected_modules: Seq<Seq<char>>,
    pub affected_projections: Seq<Seq<char>>,
    pub summary: SummaryModel,
}

/// Deterministic comparison and affected closure for two exact snapshots.
#[derive(Clone, Debug, PartialEq, Eq)]
pub struct AffectedAnalysis {
    schema: String,
    schema_version: u16,
    semantic_version: String,
    previous_source_fingerprint: String,
    current_source_fingerprint: String,
    input_changes: Vec<InputChange>,
    affected: Vec<AffectedUnitResult>,
    reusable: Vec<String>,
    affected_modules: Vec<String>,
    affected_projections: Vec<String>,
    summary: AffectedSummary,
}

impl View for AffectedAnalysis {
    type V = AnalysisModel;

    closed spec fn view(&self) -> AnalysisModel {
        AnalysisModel {
            schema: self.schema@,
            schema_version: self.schema_version,
            semantic_version: self.semantic_version@,
            previous_source_fingerprint: self.previous_source_fingerprint@,
            current_source_fingerprint: self.current_source_fingerprint@,
            input_changes: views(self.input_changes@),
            affected: views(self.affected@),
            reusable: texts(self.reusable@),
            affected_modules: texts(self.affected_modules@),
            affected_projections: texts(self.affected_projections@),
            summary: self.summary@,
        }
    }
}

impl AffectedAnalysis {
    /// Returns the prior snapshot fingerprint.
    pub fn previous_source_fingerprint(&self) -> (r: &str)
        ensures
            r@ == self@.previous_source_fingerprint,
    {
        self.previous_source_fingerprint.as_str()
    }

    /// Returns the current snapshot fingerprint.
    pub fn current_source_fingerprint(&self) -> (r: &str)
        ensures
            r@ == self@.current_source_fingerprint,
    {
        self.current_source_fingerprint.as_str()
    }

    /// Returns authoritative input changes.
    pub fn input_changes(&self) -> (r: &[InputChange])
        ensures
            views(r@) == self@.input_changes,
    {
        self.input_changes.as_slice()
    }

    /// Returns affected dependency units.
    pub fn affected(&self) -> (r: &[AffectedUnitResult])
        ensures
            views(r@) == self@.affected,
    {
        self.affected.as_slice()
    }

    /// Returns unit identities proven reusable.
    pub fn reusable(&self) -> (r: &[String])
        ensures
            texts(r@) == self@.reusable,
    {
        self.reusable.as_slice()
    }

    /// Returns stable affected Module identities.
    pub fn affected_modules(&self) -> (r: &[String])
        ensures
            texts(r@) == self@.affected_modules,
    {
        self.affected_modules.as_slice()
    }

    /// Returns affected canonical projection identities.
    pub fn affected_projections(&self) -> (r: &[String])
        ensures
            texts(r@) == self@.affected_projections,
    {
        self.affected_projections.as_slice()
    }

    /// Returns aggregate affected/reuse counts.
    pub fn summary(&self) -> (r: AffectedSummary)
        ensures
            r@ == self@.summary,
    {
        self.summary
    }

    /// Renders a deterministic developer explanation.
    pub fn to_human(&self) -> (r: String)
        ensures
            r@ == human_report(self@),
    {
        let s = &self.summary;
        let out = concat("Fortress Affected Analysis\nFrom: ", self.previous_source_fingerprint.as_str());
        let out = concat(out.as_str(), "\nTo: ");
        let out = concat(out.as_str(), self.current_source_fingerprint.as_str());
        let out = concat(out.as_str(), "\nChanged inputs: ");
        let out = concat(out.as_str(), decimal(s.changed_inputs as u64).as_str());
        let out = concat(out.as_str(), "\nAffected units: ");
        let out = concat(out.as_str(), decimal(s.affected_units as u64).as_str());
        let out = concat(out.as_str(), "\nReusable units: ");
        let out = concat(out.as_str(), decimal(s.reusable_units as u64).as_str());
        let out = concat(out.as_str(), "\nRecomputation: ");
        let out = concat(out.as_str(), decimal(s.recomputation_percent as u64).as_str());
        let out = concat(out.as_str(), "%\n\n");
        let out = concat(out.as_str(), "Input changes:\n");
        let mut lines = String::new();
        let ghost cv = views(self.input_changes@);
        let mut i: usize = 0;
        while i < self.input_changes.len()
            invariant
                cv == views(self.input_changes@),
                i <= self.input_changes@.len(),
                lines@ == change_lines(cv.take(i as int)),
            decreases self.input_changes.len() - i,
        {
            assert(cv.take(i + 1).drop_last() =~= cv.take(i as int));
            assert(cv.take(i + 1).last() == self.input_changes@[i as int]@);
            let line = change_line_exec(&self.input_changes[i]);
            lines = concat(lines.as_str(), line.as_str());
            i = i + 1;
        }
        assert(cv.take(self.input_changes@.len() as int) =~= cv);
        let out = concat(out.as_str(), lines.as_str());
        let out = concat(out.as_str(), "\nAffected Modules:\n");
        let out = concat(out.as_str(), indented_lines(self.affected_modules.as_slice()).as_str());
        let out = concat(out.as_str(), "\nAffected projections:\n");
        concat(out.as_str(), indented_lines(self.affected_projections.as_slice()).as_str())
    }
}

/// One human line per input change.
pub open spec fn change_lines(changes: Seq<ChangeModel>) -> Seq<char>
    decreases changes.len(),
{
    if changes.len() == 0 {
        Seq::empty()
    } else {
        change_lines(changes.drop_last()) + change_line(changes.last())
    }
}

/// The human line of one input change.
pub open spec fn change_line(c: ChangeModel) -> Seq<char> {
    "  "@ + super::change_kind_name(c.kind) + " "@ + super::paths::authority_name(c.authority) + ": "@
        + (match c.previous_path {
        Some(p) => p,
        None => "-"@,
    }) + " -> "@ + (match c.current_path {
        Some(p) => p,
        None => "-"@,
    }) + "\n"@
}

fn change_line_exec(c: &InputChange) -> (r: String)
    ensures
        r@ == change_line(c@),
{
    let line = concat("  ", c.kind().name());
    let line = concat(line.as_str(), " ");
    let line = concat(line.as_str(), c.authority().name());
    let line = concat(line.as_str(), ": ");
    let line = concat(line.as_str(), match c.previous_path() {
        Some(p) => p,
        None => "-",
    });
    let line = concat(line.as_str(), " -> ");
    let line = concat(line.as_str(), match c.current_path() {
        Some(p) => p,
        None => "-",
    });
    concat(line.as_str(), "\n")
}

/// Each text on its own line, indented by two spaces.
pub open spec fn indented(items: Seq<Seq<char>>) -> Seq<char>
    decreases items.len(),
{
    if items.len() == 0 {
        Seq::empty()
    } else {
        indented(items.drop_last()) + "  "@ + items.last() + "\n"@
    }
}

fn indented_lines(items: &[String]) -> (r: String)
    ensures
        r@ == indented(texts(items@)),
{
    let ghost t = texts(items@);
    let mut out = String::new();
    let mut i: usize = 0;
    while i < items.len()
        invariant
            t == texts(items@),
            i <= items@.len(),
            out@ == indented(t.take(i as int)),
        decreases items.len() - i,
    {
        assert(t.take(i + 1).drop_last() =~= t.take(i as int));
        assert(t.take(i + 1).last() == items@[i as int]@);
        let line = concat("  ", items[i].as_str());
        let line = concat(line.as_str(), "\n");
        out = concat(out.as_str(), line.as_str());
        i = i + 1;
    }
    assert(t.take(items@.len() as int) =~= t);
    out
}

/// The developer explanation of an analysis.
pub open spec fn human_report(a: AnalysisModel) -> Seq<char> {
    "Fortress Affected Analysis\nFrom: "@ + a.previous_source_fingerprint + "\nTo: "@
        + a.current_source_fingerprint + "\nChanged inputs: "@ + decimal_of(a.summary.changed_inputs as nat)
        + "\nAffected units: "@ + decimal_of(a.summary.affected_units as nat) + "\nReusable units: "@
        + decimal_of(a.summary.reusable_units as nat) + "\nRecomputation: "@ + decimal_of(
        a.summary.recomputation_percent as nat,
    ) + "%\n\n"@ + "Input changes:\n"@ + change_lines(a.input_changes) + "\nAffected Modules:\n"@
        + indented(a.affected_modules) + "\nAffected projections:\n"@ + indented(a.affected_projections)
}

/// Some current unit with identity `id` is affected.
pub open spec fn id_affected(previous: Seq<UnitModel>, current: Seq<UnitModel>, id: Seq<char>) -> bool {
    exists|k: int| 0 <= k < current.len() && #[trigger] current[k].id == id && is_affected(previous, current, k)
}

/// The reasons a unit carries of its own: new, or its digest or direct
/// dependency set differs from the prior unit of the same identity.
pub open spec fn direct_reasons(previous: Seq<UnitModel>, u: UnitModel) -> Seq<ReasonModel> {
    if !unit_ids(previous).contains(u.id) {
        seq![ReasonModel::UnitAdded]
    } else {
        let j = choose|j: int| 0 <= j < previous.len() && previous[j].id == u.id;
        (if previous[j].digest != u.digest {
            seq![ReasonModel::UnitDigestChanged]
        } else {
            Seq::empty()
        }) + (if previous[j].dependencies != u.dependencies {
            seq![ReasonModel::DependencySetChanged]
        } else {
            Seq::empty()
        })
    }
}

/// One upstream reason per affected direct dependency, in dependency order.
pub open spec fn upstream_reasons(
    previous: Seq<UnitModel>,
    current: Seq<UnitModel>,
    dependencies: Seq<Seq<char>>,
) -> Seq<ReasonModel>
    decreases dependencies.len(),
{
    if dependencies.len() == 0 {
        Seq::empty()
    } else {
        upstream_reasons(previous, current, dependencies.drop_last()) + (if id_affected(
            previous,
            current,
            dependencies.last(),
        ) {
            seq![ReasonModel::UpstreamAffected(dependencies.last())]
        } else {
            Seq::empty()
        })
    }
}

/// The result recorded for affected current unit `c`.
pub open spec fn recompute_result(previous: Seq<UnitModel>, current: Seq<UnitModel>, c: int) -> ResultModel {
    ResultModel {
        id: current[c].id,
        kind: current[c].kind,
        state: AffectedUnitState::Recompute,
        reasons: direct_reasons(previous, current[c]) + upstream_reasons(
            previous,
            current,
            current[c].dependencies,
        ),
    }
}

/// The result recorded for a prior unit that no longer exists.
pub open spec fn removed_result(p: UnitModel) -> ResultModel {
    ResultModel { id: p.id, kind: p.kind, state: AffectedUnitState::Removed, reasons: seq![ReasonModel::UnitRemoved] }
}

/// Results for the affected units among the first `n` current units, in order.
pub open spec fn recomputed(previous: Seq<UnitModel>, current: Seq<UnitModel>, n: int) -> Seq<ResultModel>
    decreases n,
{
    if n <= 0 {
        Seq::empty()
    } else {
        recomputed(previous, current, n - 1) + (if is_affected(previous, current, n - 1) {
            seq![recompute_result(previous, current, n - 1)]
        } else {
            Seq::empty()
        })
    }
}

/// Results for the removed units among the first `n` prior units, in order.
pub open spec fn removed_results(previous: Seq<UnitModel>, current: Seq<UnitModel>, n: int) -> Seq<ResultModel>
    decreases n,
{
    if n <= 0 {
        Seq::empty()
    } else {
        removed_results(previous, current, n - 1) + (if !unit_ids(current).contains(previous[n - 1].id) {
            seq![removed_result(previous[n - 1])]
        } else {
            Seq::empty()
        })
    }
}

/// Identities of the reusable units among the first `n` current units.
pub open spec fn reusable_ids(previous: Seq<UnitModel>, current: Seq<UnitModel>, n: int) -> Seq<Seq<char>>
    decreases n,
{
    if n <= 0 {
        Seq::empty()
    } else {
        reusable_ids(previous, current, n - 1) + (if !is_affected(previous, current, n - 1) {
            seq![current[n - 1].id]
        } else {
            Seq::empty()
        })
    }
}

/// `s` without `prefix` when it starts with it.
pub open spec fn strip_prefix_spec(s: Seq<char>, prefix: Seq<char>) -> Seq<char> {
    if is_prefix(prefix, s) {
        s.skip(prefix.len() as int)
    } else {
        s
    }
}

/// The identities of results of one kind, stripped of a class prefix.
pub open spec fn kind_ids(results: Seq<ResultModel>, kind: AffectedUnitKind, prefix: Seq<char>) -> Seq<Seq<char>>
    decreases results.len(),
{
    if results.len() == 0 {
        Seq::empty()
    } else {
        kind_ids(results.drop_last(), kind, prefix) + (if results.last().kind == kind {
            seq![strip_prefix_spec(results.last().id, prefix)]
        } else {
            Seq::empty()
        })
    }
}

/// `affected * 100` saturated at the machine word, divided by the unit
/// count (at least one) and rounded up; 100 when that exceeds `u32`.
pub open spec fn recomputation_percent_of(affected: nat, total: nat) -> nat {
    let scaled: nat = if affected * 100 > usize::MAX { usize::MAX as nat } else { affected * 100 };
    let denominator: nat = if total == 0 { 1 } else { total };
    let q: nat = if scaled % denominator == 0 { scaled / denominator } else { scaled / denominator + 1 };
    if q > u32::MAX { 100 } else { q }
}

/// An element of the affected list: an affected current unit, or a prior unit
/// that no longer exists.
pub open spec fn is_affected_result(previous: Seq<UnitModel>, current: Seq<UnitModel>, x: ResultModel) -> bool {
    ||| exists|c: int|
        0 <= c < current.len() && is_affected(previous, current, c) && x == #[trigger] recompute_result(
            previous,
            current,
            c,
        )
    ||| exists|j: int|
        0 <= j < previous.len() && !unit_ids(current).contains(previous[j].id) && x
            == #[trigger] removed_result(previous[j])
}

proof fn lemma_recomputed_contains(previous: Seq<UnitModel>, current: Seq<UnitModel>, n: int)
    requires
        0 <= n <= current.len(),
    ensures
        forall|x: ResultModel|
            recomputed(previous, current, n).contains(x) <==> exists|c: int|
                0 <= c < n && is_affected(previous, current, c) && x == #[trigger] recompute_result(
                    previous,
                    current,
                    c,
                ),
    decreases n,
{
    broadcast use vstd::seq_lib::group_seq_properties;

    if n > 0 {
        lemma_recomputed_contains(previous, current, n - 1);
        assert forall|x: ResultModel|
            recomputed(previous, current, n).contains(x) <==> exists|c: int|
                0 <= c < n && is_affected(previous, current, c) && x == #[trigger] recompute_result(
                    previous,
                    current,
                    c,
                ) by {
            let s = recomputed(previous, current, n);
            let s0 = recomputed(previous, current, n - 1);
            if s.contains(x) {
                let t = choose|t: int| 0 <= t < s.len() && s[t] == x;
                if t < s0.len() {
                    assert(s0[t] == x);
                    assert(s0.contains(x));
                } else {
                    assert(is_affected(previous, current, n - 1));
                    assert(x == recompute_result(previous, current, n - 1));
                }
            }
            if exists|c: int|
                0 <= c < n && is_affected(previous, current, c) && x == #[trigger] recompute_result(
                    previous,
                    current,
                    c,
                ) {
                let c = choose|c: int|
                    0 <= c < n && is_affected(previous, current, c) && x == #[trigger] recompute_result(
                        previous,
                        current,
                        c,
                    );
                if c < n - 1 {
                    assert(recomputed(previous, current, n - 1).contains(x));
                }
            }
        }
    }
}

proof fn lemma_removed_contains(previous: Seq<UnitModel>, current: Seq<UnitModel>, n: int)
    requires
        0 <= n <= previous.len(),
    ensures
        forall|x: ResultModel|
            removed_results(previous, current, n).contains(x) <==> exists|j: int|
                0 <= j < n && !unit_ids(current).contains(previous[j].id) && x
                    == #[trigger] removed_result(previous[j]),
    decreases n,
{
    broadcast use vstd::seq_lib::group_seq_properties;

    if n > 0 {
        lemma_removed_contains(previous, current, n - 1);
        assert forall|x: ResultModel|
            removed_results(previous, current, n).contains(x) <==> exists|j: int|
                0 <= j < n && !unit_ids(current).contains(previous[j].id) && x
                    == #[trigger] removed_result(previous[j]) by {
            let s = removed_results(previous, current, n);
            let s0 = removed_results(previous, current, n - 1);
            if s.contains(x) {
                let t = choose|t: int| 0 <= t < s.len() && s[t] == x;
                if t < s0.len() {
                    assert(s0[t] == x);
                    assert(s0.contains(x));
                } else {
                    assert(x == removed_result(previous[n - 1]));
                }
            }
            if exists|j: int|
                0 <= j < n && !unit_ids(current).contains(previous[j].id) && x
                    == #[trigger] removed_result(previous[j]) {
                let j = choose|j: int|
                    0 <= j < n && !unit_ids(current).contains(previous[j].id) && x
                        == #[trigger] removed_result(previous[j]);
                if j < n - 1 {
                    assert(removed_results(previous, current, n - 1).contains(x));
                }
            }
        }
    }
}

/// Strictly increasing identities are pairwise distinct.
pub proof fn lemma_sorted_ids_unique(units: Seq<UnitModel>)
    requires
        crate::text::strictly_sorted(unit_ids(units)),
    ensures
        super::ids_unique(units),
{
    assert forall|a: int, b: int|
        0 <= a < units.len() && 0 <= b < units.len() && a != b implies units[a].id != units[b].id by {
        assert(unit_ids(units)[a] == units[a].id);
        assert(unit_ids(units)[b] == units[b].id);
        if a < b {
            assert(crate::text::seq_lt(unit_ids(units)[a], unit_ids(units)[b]));
        } else {
            assert(crate::text::seq_lt(unit_ids(units)[b], unit_ids(units)[a]));
        }
    }
}

/// Builds the complete result for affected current unit `c`.
fn recompute_exec(
    previous: &[crate::affected::AffectedUnit],
    current: &[crate::affected::AffectedUnit],
    flags: &Vec<bool>,
    c: usize,
) -> (r: AffectedUnitResult)
    requires
        c < current@.len(),
        flags@.len() == current@.len(),
        forall|k: int| 0 <= k < current@.len() ==> (flags@[k] <==> is_affected(
            views(previous@),
            views(current@),
            k,
        )),
        super::ids_unique(views(previous@)),
        super::ids_unique(views(current@)),
        crate::text::strictly_sorted(unit_ids(views(previous@))),
        crate::text::strictly_sorted(unit_ids(views(current@))),
    ensures
        r@ == recompute_result(views(previous@), views(current@), c as int),
{
    let ghost pv = views(previous@);
    let ghost cv = views(current@);
    let u = &current[c];
    assert(cv[c as int] == u@);
    let mut reasons: Vec<InvalidationReason> = Vec::new();
    match unit_position_in(previous, u.id()) {
        None => {
            reasons.push(InvalidationReason::UnitAdded);
            assert(views(reasons@) =~= direct_reasons(pv, u@));
        },
        Some(p) => {
            let q = &previous[p];
            assert(pv[p as int] == q@);
            assert(unit_ids(pv)[p as int] == q@.id);
            assert(unit_ids(pv).contains(u@.id));
            let ghost j = choose|j: int| 0 <= j < pv.len() && pv[j].id == u@.id;
            assert(j == p);
            if !text_eq(q.digest(), u.digest()) {
                reasons.push(InvalidationReason::UnitDigestChanged);
            }
            if !same_texts(q.dependencies(), u.dependencies()) {
                reasons.push(InvalidationReason::DependencySetChanged);
            }
            assert(views(reasons@) =~= direct_reasons(pv, u@));
        },
    }
    let ghost direct = views(reasons@);
    let deps = u.dependencies();
    let ghost dv = texts(deps@);
    assert(dv == u@.dependencies);
    let mut k: usize = 0;
    while k < deps.len()
        invariant
            pv == views(previous@),
            cv == views(current@),
            dv == texts(deps@),
            flags@.len() == current@.len(),
            forall|k2: int| 0 <= k2 < current@.len() ==> (flags@[k2] <==> is_affected(pv, cv, k2)),
            super::ids_unique(cv),
            crate::text::strictly_sorted(unit_ids(cv)),
            k <= deps@.len(),
            views(reasons@) == direct + upstream_reasons(pv, cv, dv.take(k as int)),
        decreases deps.len() - k,
    {
        assert(dv.take(k + 1).drop_last() =~= dv.take(k as int));
        assert(dv.take(k + 1).last() == deps@[k as int]@);
        match unit_position_in(current, deps[k].as_str()) {
            Some(q) => {
                assert(cv[q as int].id == deps@[k as int]@);
                if flags[q] {
                    let ghost before = reasons@;
                    reasons.push(InvalidationReason::UpstreamAffected { dependency: copy_text(deps[k].as_str()) });
                    assert(id_affected(pv, cv, deps@[k as int]@));
                    assert(views(reasons@) =~= views(before).push(
                        ReasonModel::UpstreamAffected(deps@[k as int]@),
                    ));
                } else {
                    assert(!id_affected(pv, cv, deps@[k as int]@)) by {
                        if id_affected(pv, cv, deps@[k as int]@) {
                            let k2 = choose|k2: int|
                                0 <= k2 < cv.len() && #[trigger] cv[k2].id == deps@[k as int]@ && is_affected(pv, cv, k2);
                            assert(k2 == q);
                        }
                    }
                }
            },
            None => {
                assert(!id_affected(pv, cv, deps@[k as int]@)) by {
                    if id_affected(pv, cv, deps@[k as int]@) {
                        let k2 = choose|k2: int|
                            0 <= k2 < cv.len() && #[trigger] cv[k2].id == deps@[k as int]@ && is_affected(pv, cv, k2);
                        assert(unit_ids(cv)[k2] == cv[k2].id);
                    }
                }
            },
        }
        k = k + 1;
    }
    assert(dv.take(deps@.len() as int) =~= dv);
    AffectedUnitResult {
        id: copy_text(u.id()),
        kind: u.kind(),
        state: AffectedUnitState::Recompute,
        reasons,
    }
}

/// Computes `recomputation_percent_of` on machine integers.
fn recomputation_percent(affected: usize, total: usize) -> (r: u32)
    ensures
        r == recomputation_percent_of(affected as nat, total as nat),
{
    let scaled: usize = if affected > usize::MAX / 100 {
        usize::MAX
    } else {
        affected * 100
    };
    assert(affected > usize::MAX / 100 <==> affected * 100 > usize::MAX) by (nonlinear_arith);
    let denominator: usize = if total == 0 {
        1
    } else {
        total
    };
    let q: usize = if scaled % denominator == 0 {
        scaled / denominator
    } else {
        assert(scaled / denominator < usize::MAX) by (nonlinear_arith)
            requires
                scaled % denominator != 0,
                denominator >= 1,
        {
            assert(denominator >= 2);
        }
        scaled / denominator + 1
    };
    if q > 4294967295usize {
        100
    } else {
        q as u32
    }
}

/// What the analysis `r` of `previous` against `current` holds: the
/// fingerprints, the input changes and affected results in canonical order,
/// the reusable units in order, the affected Modules and projections, and the
/// aggregate counts.
pub open spec fn analysis_result(
    previous: crate::affected::SnapshotModel,
    current: crate::affected::SnapshotModel,
    r: AnalysisModel,
) -> bool {
    &&& r.schema == super::AFFECTED_ANALYSIS_SCHEMA@
    &&& r.schema_version == super::AFFECTED_ANALYSIS_SCHEMA_VERSION
    &&& r.semantic_version == super::AFFECTED_ANALYSIS_VERSION@
    &&& r.previous_source_fingerprint == previous.source_fingerprint
    &&& r.current_source_fingerprint == current.source_fingerprint
    &&& is_strictly_canonical::<InputChange>(r.input_changes)
    &&& forall|x: ChangeModel|
        r.input_changes.contains(x) <==> is_input_change(previous.inputs, current.inputs, x)
    &&& is_canonical::<AffectedUnitResult>(r.affected)
    &&& forall|x: ResultModel|
        r.affected.contains(x) <==> is_affected_result(previous.units, current.units, x)
    &&& r.affected.len() == recomputed(previous.units, current.units, current.units.len() as int).len()
        + removed_results(previous.units, current.units, previous.units.len() as int).len()
    &&& r.reusable == reusable_ids(previous.units, current.units, current.units.len() as int)
    &&& r.affected_modules == kind_ids(r.affected, AffectedUnitKind::Module, "module:"@)
    &&& r.affected_projections == kind_ids(r.affected, AffectedUnitKind::Projection, "projection:"@)
    &&& r.summary.changed_inputs == r.input_changes.len()
    &&& r.summary.affected_units == recomputed(previous.units, current.units, current.units.len() as int).len()
    &&& r.summary.reusable_units == current.units.len() - r.summary.affected_units
    &&& r.summary.removed_units == removed_results(previous.units, current.units, previous.units.len() as int).len()
    &&& r.summary.recomputation_percent == recomputation_percent_of(r.summary.affected_units as nat, current.units.len())
}

/// Compares two exact dependency snapshots and computes conservative closure.
///
/// A unit is reusable only when its own digest, direct dependency identities,
/// and entire upstream closure are unchanged.
#[verifier::spinoff_prover]
#[verifier::rlimit(60)]
pub fn analyze_affected(previous: &AffectedSnapshot, current: &AffectedSnapshot) -> (r: AffectedAnalysis)
    ensures
        analysis_result(previous@, current@, r@),
{
    broadcast use vstd::seq_lib::group_seq_properties;

    proof {
        use_type_invariant(previous);
        use_type_invariant(current);
    }
    let previous_inputs = previous.inputs();
    let current_inputs = current.inputs();
    let input_changes = compare_inputs(previous_inputs, current_inputs);
    let pu = previous.units();
    let cu = current.units();
    let ghost pv = views(pu@);
    let ghost cv = views(cu@);
    proof {
        lemma_sorted_ids_unique(pv);
        lemma_sorted_ids_unique(cv);
    }
    let flags = affected_flags(pu, cu);
    let mut results: Vec<AffectedUnitResult> = Vec::new();
    let mut reusable: Vec<String> = Vec::new();
    let mut c: usize = 0;
    while c < cu.len()
        invariant
            pv == views(pu@),
            cv == views(cu@),
            super::ids_unique(pv),
            super::ids_unique(cv),
            crate::text::strictly_sorted(unit_ids(pv)),
            crate::text::strictly_sorted(unit_ids(cv)),
            flags@.len() == cu@.len(),
            forall|k: int| 0 <= k < cu@.len() ==> (flags@[k] <==> is_affected(pv, cv, k)),
            c <= cu@.len(),
            views(results@) == recomputed(pv, cv, c as int),
            texts(reusable@) == reusable_ids(pv, cv, c as int),
            results@.len() <= c,
        decreases cu.len() - c,
    {
        if flags[c] {
            let result = recompute_exec(pu, cu, &flags, c);
            proof {
                crate::order::lemma_views_push_seq(results@, result);
            }
            results.push(result);
        } else {
            assert(cv[c as int] == cu@[c as int]@);
            let id = copy_text(cu[c].id());
            let ghost before = reusable@;
            reusable.push(id);
            assert(texts(reusable@) =~= texts(before).push(cv[c as int].id));
        }
        c = c + 1;
    }
    let affected_count = results.len();
    let mut removed: Vec<AffectedUnitResult> = Vec::new();
    let mut j: usize = 0;
    while j < pu.len()
        invariant
            pv == views(pu@),
            cv == views(cu@),
            crate::text::strictly_sorted(unit_ids(cv)),
            j <= pu@.len(),
            views(removed@) == removed_results(pv, cv, j as int),
        decreases pu.len() - j,
    {
        let p = &pu[j];
        assert(pv[j as int] == p@);
        if unit_position_in(cu, p.id()).is_none() {
            let mut reasons: Vec<InvalidationReason> = Vec::new();
            reasons.push(InvalidationReason::UnitRemoved);
            let result = AffectedUnitResult {
                id: copy_text(p.id()),
                kind: p.kind(),
                state: AffectedUnitState::Removed,
                reasons,
            };
            assert(views(reasons@) =~= seq![ReasonModel::UnitRemoved]);
            assert(result@ == removed_result(p@));
            proof {
                crate::order::lemma_views_push_seq(removed@, result);
            }
            removed.push(result);
        } else {
            assert(unit_ids(cv).contains(p@.id)) by {
                let q = choose|q: int| 0 <= q < cv.len() && cv[q].id == p@.id;
                assert(unit_ids(cv)[q] == cv[q].id);
            }
        }
        j = j + 1;
    }
    let removed_count = removed.len();
    let ghost recomputed_part = views(results@);
    let ghost removed_part = views(removed@);
    results.append(&mut removed);
    assert(views(results@) =~= recomputed_part + removed_part);
    let ghost merged = results@;
    let affected = canonical_sort(results);
    proof {
        lemma_permutation_views(affected@, merged);
        lemma_recomputed_contains(pv, cv, cv.len() as int);
        lemma_removed_contains(pv, cv, pv.len() as int);
        assert forall|x: ResultModel| views(affected@).contains(x) <==> is_affected_result(pv, cv, x) by {
            if views(merged).contains(x) {
                let t = choose|t: int| 0 <= t < views(merged).len() && views(merged)[t] == x;
                if t < recomputed_part.len() {
                    assert(recomputed_part[t] == x);
                    assert(recomputed_part.contains(x));
                } else {
                    assert(removed_part[t - recomputed_part.len()] == x);
                    assert(removed_part.contains(x));
                }
            }
            if is_affected_result(pv, cv, x) {
                if recomputed_part.contains(x) {
                    let t = choose|t: int| 0 <= t < recomputed_part.len() && recomputed_part[t] == x;
                    assert(views(merged)[t] == x);
                } else {
                    assert(removed_part.contains(x));
                    let t = choose|t: int| 0 <= t < removed_part.len() && removed_part[t] == x;
                    assert(views(merged)[t + recomputed_part.len()] == x);
                }
            }
        }
    }
    let mut modules: Vec<String> = Vec::new();
    let mut projections: Vec<String> = Vec::new();
    let mut a: usize = 0;
    while a < affected.len()
        invariant
            a <= affected@.len(),
            texts(modules@) == kind_ids(views(affected@).take(a as int), AffectedUnitKind::Module, "module:"@),
            texts(projections@) == kind_ids(
                views(affected@).take(a as int),
                AffectedUnitKind::Projection,
                "projection:"@,
            ),
        decreases affected.len() - a,
    {
        let ghost va = views(affected@);
        assert(va.take(a + 1).drop_last() =~= va.take(a as int));
        assert(va.take(a + 1).last() == affected@[a as int]@);
        let unit = &affected[a];
        if unit.kind == AffectedUnitKind::Module {
            let ghost before = modules@;
            modules.push(strip_prefix_or_self(unit.id.as_str(), "module:"));
            assert(texts(modules@) =~= texts(before).push(strip_prefix_spec(unit@.id, "module:"@)));
        }
        if unit.kind == AffectedUnitKind::Projection {
            let ghost before = projections@;
            projections.push(strip_prefix_or_self(unit.id.as_str(), "projection:"));
            assert(texts(projections@) =~= texts(before).push(
                strip_prefix_spec(unit@.id, "projection:"@),
            ));
        }
        a = a + 1;
    }
    assert(views(affected@).take(affected@.len() as int) =~= views(affected@));
    let changed_inputs = input_changes.len();
    let total = cu.len();
    let summary = AffectedSummary {
        changed_inputs,
        affected_units: affected_count,
        reusable_units: total - affected_count,
        removed_units: removed_count,
        recomputation_percent: recomputation_percent(affected_count, total),
    };
    AffectedAnalysis {
        schema: copy_text(super::AFFECTED_ANALYSIS_SCHEMA),
        schema_version: super::AFFECTED_ANALYSIS_SCHEMA_VERSION,
        semantic_version: copy_text(super::AFFECTED_ANALYSIS_VERSION),
        previous_source_fingerprint: copy_text(previous.source_fingerprint()),
        current_source_fingerprint: copy_text(current.source_fingerprint()),
        input_changes,
        affected,
        reusable,
        affected_modules: modules,
        affected_projections: projections,
        summary,
    }
}

/// Comparing a snapshot with itself reports no input change and no affected
/// unit: every unit is reusable, in order, and nothing needs recomputation.
pub proof fn lemma_identical_snapshots_reuse_everything(s: crate::affected::SnapshotModel)
    requires
        crate::affected::snapshot_wf(s),
    ensures
        forall|x: ChangeModel| !is_input_change(s.inputs, s.inputs, x),
        forall|x: ResultModel| !is_affected_result(s.units, s.units, x),
        reusable_ids(s.units, s.units, s.units.len() as int) == unit_ids(s.units),
        recomputed(s.units, s.units, s.units.len() as int).len() == 0,
        removed_results(s.units, s.units, s.units.len() as int).len() == 0,
        recomputation_percent_of(0, s.units.len()) == 0,
{
    let u = s.units;
    let i = s.inputs;
    assert forall|c: int| 0 <= c < u.len() implies !is_affected(u, u, c) by {
        if is_affected(u, u, c) {
            let path = choose|path: Seq<int>|
                #[trigger] crate::affected::is_dependency_path(u, path) && path[0] == c
                    && crate::affected::directly_changed(u, u[path.last()]);
            let l = path.last();
            assert(0 <= path[path.len() - 1] < u.len());
            assert(u[l].id == u[l].id);
        }
    }
    assert forall|x: ChangeModel| !is_input_change(i, i, x) by {
        assert forall|p: InputModel| !crate::affected::only_in(i, i, p) by {
            if i.contains(p) {
                let k = choose|k: int| 0 <= k < i.len() && i[k] == p;
                assert(i[k].path == p.path);
            }
        }
        if exists|p: InputModel, c: InputModel|
            #![trigger i.contains(p), i.contains(c)]
            i.contains(p) && i.contains(c) && p.path == c.path && (p.digest != c.digest
                || p.bytes != c.bytes) {
            let (p, c) = choose|p: InputModel, c: InputModel|
                #![trigger i.contains(p), i.contains(c)]
                i.contains(p) && i.contains(c) && p.path == c.path && (p.digest != c.digest
                    || p.bytes != c.bytes);
            let a = choose|a: int| 0 <= a < i.len() && i[a] == p;
            let b = choose|b: int| 0 <= b < i.len() && i[b] == c;
            crate::affected::lemma_unique_path(i, a, b);
        }
        if exists|p: InputModel, c: InputModel| #[trigger] crate::affected::is_relocation(i, i, p, c) {
            let (p, c) = choose|p: InputModel, c: InputModel| #[trigger] crate::affected::is_relocation(i, i, p, c);
            assert(crate::affected::only_in(i, i, p));
        }
    }
    lemma_reuse_prefix(u, u.len() as int);
    assert(unit_ids(u).take(u.len() as int) =~= unit_ids(u));
    lemma_none_removed(u, u.len() as int);
    assert forall|x: ResultModel| !is_affected_result(u, u, x) by {
        if exists|j: int|
            0 <= j < u.len() && !unit_ids(u).contains(u[j].id) && x == #[trigger] removed_result(u[j]) {
            let j = choose|j: int|
                0 <= j < u.len() && !unit_ids(u).contains(u[j].id) && x == #[trigger] removed_result(u[j]);
            assert(unit_ids(u)[j] == u[j].id);
        }
    }
}

/// Comparing a snapshot with itself changes nothing: no input change, no
/// affected unit, Module or projection, every unit reusable in order, and
/// nothing to recompute.
pub proof fn lemma_self_comparison_changes_nothing(s: crate::affected::SnapshotModel, r: AnalysisModel)
    requires
        crate::affected::snapshot_wf(s),
        analysis_result(s, s, r),
    ensures
        r.input_changes.len() == 0,
        r.affected.len() == 0,
        r.reusable == unit_ids(s.units),
        r.affected_modules.len() == 0,
        r.affected_projections.len() == 0,
        r.summary.changed_inputs == 0,
        r.summary.affected_units == 0,
        r.summary.reusable_units == s.units.len(),
        r.summary.removed_units == 0,
        r.summary.recomputation_percent == 0,
{
    lemma_identical_snapshots_reuse_everything(s);
    if r.input_changes.len() > 0 {
        assert(r.input_changes.contains(r.input_changes[0]));
    }
    if r.affected.len() > 0 {
        assert(r.affected.contains(r.affected[0]));
    }
}

proof fn lemma_reuse_prefix(u: Seq<UnitModel>, n: int)
    requires
        0 <= n <= u.len(),
        forall|c: int| 0 <= c < u.len() ==> !is_affected(u, u, c),
    ensures
        reusable_ids(u, u, n) == unit_ids(u).take(n),
        recomputed(u, u, n).len() == 0,
    decreases n,
{
    if n > 0 {
        lemma_reuse_prefix(u, n - 1);
        assert(unit_ids(u).take(n) =~= unit_ids(u).take(n - 1).push(u[n - 1].id));
    } else {
        assert(unit_ids(u).take(0) =~= Seq::<Seq<char>>::empty());
    }
}

proof fn lemma_none_removed(u: Seq<UnitModel>, n: int)
    requires
        0 <= n <= u.len(),
    ensures
        removed_results(u, u, n).len() == 0,
    decreases n,
{
    if n > 0 {
        lemma_none_removed(u, n - 1);
        assert(unit_ids(u)[n - 1] == u[n - 1].id);
    }
}

// ---------------------------------------------------------------------------
// Canonical JSON.

/// The JSON document of a reason: its tag, and the dependency it names.
pub open spec fn reason_document(r: ReasonModel) -> JsonModel {
    match r {
        ReasonModel::UnitAdded => JsonModel::Object(seq![("kind"@, JsonModel::Text("UNIT_ADDED"@))]),
        ReasonModel::UnitRemoved => JsonModel::Object(seq![("kind"@, JsonModel::Text("UNIT_REMOVED"@))]),
        ReasonModel::UnitDigestChanged => JsonModel::Object(seq![("kind"@, JsonModel::Text("UNIT_DIGEST_CHANGED"@))]),
        ReasonModel::DependencySetChanged => JsonModel::Object(
            seq![("kind"@, JsonModel::Text("DEPENDENCY_SET_CHANGED"@))],
        ),
        ReasonModel::UpstreamAffected(d) => JsonModel::Object(
            seq![("kind"@, JsonModel::Text("UPSTREAM_AFFECTED"@)), ("dependency"@, JsonModel::Text(d))],
        ),
    }
}

/// The serialized name of a unit state.
pub open spec fn state_label(s: AffectedUnitState) -> Seq<char> {
    match s {
        AffectedUnitState::Recompute => "RECOMPUTE"@,
        AffectedUnitState::Removed => "REMOVED"@,
    }
}

/// The JSON document of an invalidated unit: every field, in declaration order.
pub open spec fn result_document(r: ResultModel) -> JsonModel {
    JsonModel::Object(
        seq![
            ("id"@, JsonModel::Text(r.id)),
            ("kind"@, JsonModel::Text(super::unit_kind_label(r.kind))),
            ("state"@, JsonModel::Text(state_label(r.state))),
            ("reasons"@, JsonModel::Array(r.reasons.map_values(|x: ReasonModel| reason_document(x)))),
        ],
    )
}

/// The JSON document of the counts: every count, in declaration order.
pub open spec fn summary_document(s: SummaryModel) -> JsonModel {
    JsonModel::Object(
        seq![
            ("changed_inputs"@, JsonModel::Number(s.changed_inputs as nat)),
            ("affected_units"@, JsonModel::Number(s.affected_units as nat)),
            ("reusable_units"@, JsonModel::Number(s.reusable_units as nat)),
            ("removed_units"@, JsonModel::Number(s.removed_units as nat)),
            ("recomputation_percent"@, JsonModel::Number(s.recomputation_percent as nat)),
        ],
    )
}

/// The JSON document of an analysis: every field, in declaration order.
pub open spec fn analysis_document(a: AnalysisModel) -> JsonModel {
    JsonModel::Object(
        seq![
            ("$schema"@, JsonModel::Text(a.schema)),
            ("schema_version"@, JsonModel::Number(a.schema_version as nat)),
            ("semantic_version"@, JsonModel::Text(a.semantic_version)),
            ("previous_source_fingerprint"@, JsonModel::Text(a.previous_source_fingerprint)),
            ("current_source_fingerprint"@, JsonModel::Text(a.current_source_fingerprint)),
            ("input_changes"@, JsonModel::Array(a.input_changes.map_values(|c: ChangeModel| super::change_document(c)))),
            ("affected"@, JsonModel::Array(a.affected.map_values(|r: ResultModel| result_document(r)))),
            ("reusable"@, JsonModel::Array(text_values(a.reusable))),
            ("affected_modules"@, JsonModel::Array(text_values(a.affected_modules))),
            ("affected_projections"@, JsonModel::Array(text_values(a.affected_projections))),
            ("summary"@, summary_document(a.summary)),
        ],
    )
}

impl InvalidationReason {
    fn to_json(&self) -> (r: Json)
        ensures
            r@ == reason_document(self@),
    {
        let (tag, dependency): (&str, Option<&String>) = match self {
            InvalidationReason::UnitAdded => ("UNIT_ADDED", None),
            InvalidationReason::UnitRemoved => ("UNIT_REMOVED", None),
            InvalidationReason::UnitDigestChanged => ("UNIT_DIGEST_CHANGED", None),
            InvalidationReason::DependencySetChanged => ("DEPENDENCY_SET_CHANGED", None),
            InvalidationReason::UpstreamAffected { dependency } => ("UPSTREAM_AFFECTED", Some(dependency)),
        };
        let mut members = vec![(String::from_str("kind"), text(tag))];
        if let Some(d) = dependency {
            members.push((String::from_str("dependency"), text(d.as_str())));
        }
        proof {
            lemma_member_models(members@);
            match self@ {
                ReasonModel::UpstreamAffected(d) => {
                    assert(member_models(members@) =~= seq![
                        ("kind"@, JsonModel::Text("UPSTREAM_AFFECTED"@)),
                        ("dependency"@, JsonModel::Text(d)),
                    ]);
                },
                _ => {
                    assert(member_models(members@) =~= seq![("kind"@, JsonModel::Text(tag@))]);
                },
            }
        }
        Json::Object(members)
    }
}

impl AffectedUnitResult {
    fn to_json(&self) -> (r: Json)
        ensures
            r@ == result_document(self@),
    {
        let mut reasons: Vec<Json> = Vec::new();
        let mut i: usize = 0;
        while i < self.reasons.len()
            invariant
                i <= self.reasons@.len(),
                reasons@.len() == i,
                forall|k: int| 0 <= k < i ==> #[trigger] json_model(reasons@[k]) == reason_document(self.reasons@[k]@),
            decreases self.reasons.len() - i,
        {
            reasons.push(self.reasons[i].to_json());
            i = i + 1;
        }
        proof {
            lemma_json_models(reasons@);
            assert(json_models(reasons@) =~= views(self.reasons@).map_values(|x: ReasonModel| reason_document(x)));
        }
        let state = match self.state {
            AffectedUnitState::Recompute => "RECOMPUTE",
            AffectedUnitState::Removed => "REMOVED",
        };
        let members = vec![
            (String::from_str("id"), text(self.id.as_str())),
            (String::from_str("kind"), text(super::unit_kind_label_exec(self.kind))),
            (String::from_str("state"), text(state)),
            (String::from_str("reasons"), Json::Array(reasons)),
        ];
        proof {
            lemma_member_models(members@);
            let r = self@;
            assert(member_models(members@) =~= seq![
                ("id"@, JsonModel::Text(r.id)),
                ("kind"@, JsonModel::Text(super::unit_kind_label(r.kind))),
                ("state"@, JsonModel::Text(state_label(r.state))),
                ("reasons"@, JsonModel::Array(r.reasons.map_values(|x: ReasonModel| reason_document(x)))),
            ]);
        }
        Json::Object(members)
    }
}

impl AffectedAnalysis {
    /// The analysis as a JSON document.
    pub fn to_json(&self) -> (r: Json)
        ensures
            r@ == analysis_document(self@),
    {
        let mut changes: Vec<Json> = Vec::new();
        let mut i: usize = 0;
        while i < self.input_changes.len()
            invariant
                i <= self.input_changes@.len(),
                changes@.len() == i,
                forall|k: int|
                    0 <= k < i ==> #[trigger] json_model(changes@[k]) == super::change_document(self.input_changes@[k]@),
            decreases self.input_changes.len() - i,
        {
            changes.push(self.input_changes[i].to_json());
            i = i + 1;
        }
        let mut affected: Vec<Json> = Vec::new();
        let mut j: usize = 0;
        while j < self.affected.len()
            invariant
                j <= self.affected@.len(),
                affected@.len() == j,
                forall|k: int| 0 <= k < j ==> #[trigger] json_model(affected@[k]) == result_document(self.affected@[k]@),
            decreases self.affected.len() - j,
        {
            affected.push(self.affected[j].to_json());
            j = j + 1;
        }
        proof {
            lemma_json_models(changes@);
            lemma_json_models(affected@);
            assert(json_models(changes@) =~= views(self.input_changes@).map_values(
                |c: ChangeModel| super::change_document(c),
            ));
            assert(json_models(affected@) =~= views(self.affected@).map_values(|r: ResultModel| result_document(r)));
        }
        let s = self.summary;
        let summary = vec![
            (String::from_str("changed_inputs"), Json::Number(s.changed_inputs as u64)),
            (String::from_str("affected_units"), Json::Number(s.affected_units as u64)),
            (String::from_str("reusable_units"), Json::Number(s.reusable_units as u64)),
            (String::from_str("removed_units"), Json::Number(s.removed_units as u64)),
            (String::from_str("recomputation_percent"), Json::Number(s.recomputation_percent as u64)),
        ];
        proof {
            lemma_member_models(summary@);
            let m = s@;
            assert(member_models(summary@) =~= seq![
                ("changed_inputs"@, JsonModel::Number(m.changed_inputs as nat)),
                ("affected_units"@, JsonModel::Number(m.affected_units as nat)),
                ("reusable_units"@, JsonModel::Number(m.reusable_units as nat)),
                ("removed_units"@, JsonModel::Number(m.removed_units as nat)),
                ("recomputation_percent"@, JsonModel::Number(m.recomputation_percent as nat)),
            ]);
        }
        let members = vec![
            (String::from_str("$schema"), text(self.schema.as_str())),
            (String::from_str("schema_version"), Json::Number(self.schema_version as u64)),
            (String::from_str("semantic_version"), text(self.semantic_version.as_str())),
            (String::from_str("previous_source_fingerprint"), text(self.previous_source_fingerprint.as_str())),
            (String::from_str("current_source_fingerprint"), text(self.current_source_fingerprint.as_str())),
            (String::from_str("input_changes"), Json::Array(changes)),
            (String::from_str("affected"), Json::Array(affected)),
            (String::from_str("reusable"), text_array(self.reusable.as_slice())),
            (String::from_str("affected_modules"), text_array(self.affected_modules.as_slice())),
            (String::from_str("affected_projections"), text_array(self.affected_projections.as_slice())),
            (String::from_str("summary"), Json::Object(summary)),
        ];
        proof {
            lemma_member_models(members@);
            assert(self.reusable@.map_values(|t: String| t@) =~= texts(self.reusable@));
            assert(self.affected_modules@.map_values(|t: String| t@) =~= texts(self.affected_modules@));
            assert(self.affected_projections@.map_values(|t: String| t@) =~= texts(self.affected_projections@));
            let a = self@;
            assert(member_models(members@) =~= seq![
                ("$schema"@, JsonModel::Text(a.schema)),
                ("schema_version"@, JsonModel::Number(a.schema_version as nat)),
                ("semantic_version"@, JsonModel::Text(a.semantic_version)),
                ("previous_source_fingerprint"@, JsonModel::Text(a.previous_source_fingerprint)),
                ("current_source_fingerprint"@, JsonModel::Text(a.current_source_fingerprint)),
                ("input_changes"@, JsonModel::Array(a.input_changes.map_values(|c: ChangeModel| super::change_document(c)))),
                ("affected"@, JsonModel::Array(a.affected.map_values(|r: ResultModel| result_document(r)))),
                ("reusable"@, JsonModel::Array(text_values(a.reusable))),
                ("affected_modules"@, JsonModel::Array(text_values(a.affected_modules))),
                ("affected_projections"@, JsonModel::Array(text_values(a.affected_projections))),
                ("summary"@, summary_document(a.summary)),
            ]);
        }
        Json::Object(members)
    }

    /// Serializes canonical two-space JSON with one trailing line feed.
    pub fn to_canonical_json(&self) -> (r: String)
        ensures
            r@ == pretty_document(analysis_document(self@)),
    {
        let document = self.to_json();
        render_pretty_document(&document)
    }
}

} // verus!
