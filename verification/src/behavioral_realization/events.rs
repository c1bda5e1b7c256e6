//! Language-neutral implementation events and supported paths between them.

use vstd::prelude::*;
use vstd::seq_lib::seq_to_set_is_finite;

use crate::behavior::model::optional_view;
use crate::order::{
    canonical_set, canonical_set_exec, group_views, groups_le, groups_le_exec, lemma_canonical_set,
    lemma_groups_le_antisymmetric, lemma_groups_le_reflexive, lemma_groups_le_total, lemma_groups_le_transitive,
    rank_field, rank_field_exec, single, single_exec, views, CanonicalOrder, TotalOrder,
};
use crate::json::{lemma_member_models, member_models, text, text_array, text_values, Json, JsonModel};
use crate::text::{copy_text, text_eq, texts, texts_contain};

verus! {

/// Epistemic coverage for implementation-event and bypass conclusions.
#[derive(Clone, Copy, Debug, PartialEq, Eq, Structural)]
pub enum RealizationCoverage {
    /// Exact supported semantics establish the conclusion.
    Proven,
    /// Exact facts coexist with relevant opaque semantics.
    Partial,
    /// Insufficient semantic facts prevent a conclusion.
    Unknown,
    /// The semantic class is outside the supported semantics.
    Unsupported,
}

/// The rank of a coverage: weaker coverage ranks higher.
pub open spec fn coverage_rank(c: RealizationCoverage) -> nat {
    match c {
        RealizationCoverage::Proven => 0,
        RealizationCoverage::Partial => 1,
        RealizationCoverage::Unknown => 2,
        RealizationCoverage::Unsupported => 3,
    }
}

/// The coverage of a conclusion resting on two others: the weaker of the two.
pub open spec fn combined(a: RealizationCoverage, b: RealizationCoverage) -> RealizationCoverage {
    if coverage_rank(a) >= coverage_rank(b) {
        a
    } else {
        b
    }
}

/// Combines two coverages into the weaker one.
pub fn combine_coverage(a: RealizationCoverage, b: RealizationCoverage) -> (r: RealizationCoverage)
    ensures
        r == combined(a, b),
{
    match (a, b) {
        (RealizationCoverage::Unsupported, _) | (_, RealizationCoverage::Unsupported) => RealizationCoverage::Unsupported,
        (RealizationCoverage::Unknown, _) | (_, RealizationCoverage::Unknown) => RealizationCoverage::Unknown,
        (RealizationCoverage::Partial, _) | (_, RealizationCoverage::Partial) => RealizationCoverage::Partial,
        (RealizationCoverage::Proven, RealizationCoverage::Proven) => RealizationCoverage::Proven,
    }
}

/// The coverage of a chain of conclusions: the weakest, or Proven for none.
pub open spec fn worst(cs: Seq<RealizationCoverage>) -> RealizationCoverage
    decreases cs.len(),
{
    if cs.len() == 0 {
        RealizationCoverage::Proven
    } else {
        combined(worst(cs.drop_last()), cs.last())
    }
}

/// Source semantic authority for one implementation event.
#[derive(Clone, Copy, Debug, PartialEq, Eq, Structural)]
pub enum EventAuthority {
    /// Canonical program semantic model executable/control semantics.
    ProgramSemanticModel,
    /// Canonical State and Effect Analysis.
    StateEffectAnalysis,
    /// Canonical Information Flow Analysis.
    InformationFlowAnalysis,
    /// Canonical Environmental Analysis.
    EnvironmentalAnalysis,
}

/// Abstract value of one implementation event.
pub struct EventModel {
    pub id: Seq<char>,
    pub kind: Seq<char>,
    pub responsible_symbol: Option<Seq<char>>,
    pub module: Seq<char>,
    pub authority: EventAuthority,
    pub provenance: Seq<Seq<char>>,
    pub coverage: RealizationCoverage,
}

/// One language-neutral semantic implementation event.
#[derive(Debug)]
pub struct ImplementationEvent {
    id: String,
    kind: String,
    responsible_symbol: Option<String>,
    module: String,
    authority: EventAuthority,
    provenance: Vec<String>,
    coverage: RealizationCoverage,
}

impl View for ImplementationEvent {
    type V = EventModel;

    closed spec fn view(&self) -> EventModel {
        EventModel {
            id: self.id@,
            kind: self.kind@,
            responsible_symbol: optional_view(self.responsible_symbol),
            module: self.module@,
            authority: self.authority,
            provenance: texts(self.provenance@),
            coverage: self.coverage,
        }
    }
}

/// The descriptive parts of an event: its kind, its responsible executable
/// and its Module lane.
pub struct EventSubject {
    /// The semantic event kind.
    pub kind: String,
    /// The responsible executable, when applicable.
    pub responsible_symbol: Option<String>,
    /// The Fortress Module lane.
    pub module: String,
}

impl ImplementationEvent {
    /// Records one event.
    pub fn new(
        id: String,
        subject: EventSubject,
        authority: EventAuthority,
        provenance: Vec<String>,
        coverage: RealizationCoverage,
    ) -> (r: Self)
        ensures
            r@ == (EventModel {
                id: id@,
                kind: subject.kind@,
                responsible_symbol: optional_view(subject.responsible_symbol),
                module: subject.module@,
                authority,
                provenance: texts(provenance@),
                coverage,
            }),
    {
        ImplementationEvent {
            id,
            kind: subject.kind,
            responsible_symbol: subject.responsible_symbol,
            module: subject.module,
            authority,
            provenance,
            coverage,
        }
    }

    /// Returns the content-addressed event identity.
    pub fn id(&self) -> (r: &str)
        ensures
            r@ == self@.id,
    {
        self.id.as_str()
    }

    /// Returns the semantic event kind.
    pub fn kind(&self) -> (r: &str)
        ensures
            r@ == self@.kind,
    {
        self.kind.as_str()
    }

    /// Returns the responsible executable when applicable.
    pub fn responsible_symbol(&self) -> (r: Option<&str>)
        ensures
            match r {
                Some(t) => self@.responsible_symbol == Some(t@),
                None => self@.responsible_symbol is None,
            },
    {
        match &self.responsible_symbol {
            Some(t) => Some(t.as_str()),
            None => None,
        }
    }

    /// Returns the Fortress Module lane.
    pub fn module(&self) -> (r: &str)
        ensures
            r@ == self@.module,
    {
        self.module.as_str()
    }
}

/// Abstract value of one event edge.
pub struct EventEdgeModel {
    pub source: Seq<char>,
    pub target: Seq<char>,
    pub coverage: RealizationCoverage,
    pub derivation: Seq<char>,
}

/// One supported implementation-event transition.
#[derive(Debug)]
pub struct ImplementationEventEdge {
    source: String,
    target: String,
    coverage: RealizationCoverage,
    derivation: String,
}

impl View for ImplementationEventEdge {
    type V = EventEdgeModel;

    closed spec fn view(&self) -> EventEdgeModel {
        EventEdgeModel {
            source: self.source@,
            target: self.target@,
            coverage: self.coverage,
            derivation: self.derivation@,
        }
    }
}

impl ImplementationEventEdge {
    /// Records one edge.
    pub fn new(source: String, target: String, coverage: RealizationCoverage, derivation: String) -> (r: Self)
        ensures
            r@ == (EventEdgeModel { source: source@, target: target@, coverage, derivation: derivation@ }),
    {
        ImplementationEventEdge { source, target, coverage, derivation }
    }

    /// Returns the source event.
    pub fn source(&self) -> (r: &str)
        ensures
            r@ == self@.source,
    {
        self.source.as_str()
    }

    /// Returns the target event.
    pub fn target(&self) -> (r: &str)
        ensures
            r@ == self@.target,
    {
        self.target.as_str()
    }

    /// Returns the coverage of the transition.
    pub fn coverage(&self) -> (r: RealizationCoverage)
        ensures
            r == self@.coverage,
    {
        self.coverage
    }

    /// Returns how the transition was derived.
    pub fn derivation(&self) -> (r: &str)
        ensures
            r@ == self@.derivation,
    {
        self.derivation.as_str()
    }
}

// ---------------------------------------------------------------------------
// Supported walks.

/// Some edge leads from `a` to `b` with coverage `c`.
pub open spec fn has_edge(edges: Seq<EventEdgeModel>, a: Seq<char>, b: Seq<char>, c: RealizationCoverage) -> bool {
    exists|i: int|
        0 <= i < edges.len() && #[trigger] edges[i].source == a && edges[i].target == b && edges[i].coverage == c
}

/// `w` is a walk whose `i`-th step is an edge of coverage `cs[i]`.
pub open spec fn is_walk(edges: Seq<EventEdgeModel>, w: Seq<Seq<char>>, cs: Seq<RealizationCoverage>) -> bool {
    &&& w.len() >= 1
    &&& cs.len() + 1 == w.len()
    &&& forall|i: int| 0 <= i < cs.len() ==> has_edge(edges, w[i], w[i + 1], #[trigger] cs[i])
}

/// `w` is a walk from a source to a target that touches no forbidden event.
pub open spec fn connects(
    edges: Seq<EventEdgeModel>,
    w: Seq<Seq<char>>,
    cs: Seq<RealizationCoverage>,
    sources: Seq<Seq<char>>,
    targets: Seq<Seq<char>>,
    forbidden: Seq<Seq<char>>,
) -> bool {
    &&& is_walk(edges, w, cs)
    &&& sources.contains(w[0])
    &&& targets.contains(w.last())
    &&& forall|i: int| 0 <= i < w.len() ==> !forbidden.contains(#[trigger] w[i])
}

/// Some walk connects a source to a target avoiding every forbidden event.
pub open spec fn connected(
    edges: Seq<EventEdgeModel>,
    sources: Seq<Seq<char>>,
    targets: Seq<Seq<char>>,
    forbidden: Seq<Seq<char>>,
) -> bool {
    exists|w: Seq<Seq<char>>, cs: Seq<RealizationCoverage>| connects(edges, w, cs, sources, targets, forbidden)
}

/// Abstract value of one successor of an event.
pub struct SuccessorModel {
    pub target: Seq<char>,
    pub coverage: RealizationCoverage,
}

struct Successor {
    target: String,
    coverage: RealizationCoverage,
}

impl View for Successor {
    type V = SuccessorModel;

    closed spec fn view(&self) -> SuccessorModel {
        SuccessorModel { target: self.target@, coverage: self.coverage }
    }
}

/// The order fields of a successor: target, then coverage.
pub open spec fn successor_groups(s: SuccessorModel) -> Seq<Seq<Seq<char>>> {
    seq![single(s.target), single(rank_field(coverage_rank(s.coverage)))]
}

fn successor_groups_exec(s: &Successor) -> (g: Vec<Vec<Vec<char>>>)
    ensures
        group_views(g@) == successor_groups(s@),
{
    let mut g: Vec<Vec<Vec<char>>> = Vec::new();
    g.push(single_exec(s.target.as_str()));
    let mut r: Vec<Vec<char>> = Vec::new();
    r.push(rank_field_exec(match s.coverage {
        RealizationCoverage::Proven => 0,
        RealizationCoverage::Partial => 1,
        RealizationCoverage::Unknown => 2,
        RealizationCoverage::Unsupported => 3,
    }));
    assert(r@.map_values(|x: Vec<char>| x@) =~= single(rank_field(coverage_rank(s@.coverage))));
    g.push(r);
    assert(group_views(g@) =~= successor_groups(s@));
    g
}

impl CanonicalOrder for Successor {
    open spec fn ordered(a: SuccessorModel, b: SuccessorModel) -> bool {
        groups_le(successor_groups(a), successor_groups(b))
    }

    proof fn lemma_ordered_reflexive(a: SuccessorModel) {
        lemma_groups_le_reflexive(successor_groups(a));
    }

    proof fn lemma_ordered_transitive(a: SuccessorModel, b: SuccessorModel, c: SuccessorModel) {
        lemma_groups_le_transitive(successor_groups(a), successor_groups(b), successor_groups(c));
    }

    proof fn lemma_ordered_total(a: SuccessorModel, b: SuccessorModel) {
        lemma_groups_le_total(successor_groups(a), successor_groups(b));
    }

    fn precedes(&self, other: &Self) -> (r: bool) {
        let a = successor_groups_exec(self);
        let b = successor_groups_exec(other);
        groups_le_exec(&a, &b)
    }
}

impl TotalOrder for Successor {
    proof fn lemma_ordered_antisymmetric(a: SuccessorModel, b: SuccessorModel) {
        let ga = successor_groups(a);
        let gb = successor_groups(b);
        lemma_groups_le_antisymmetric(ga, gb);
        assert(ga[0][0] == a.target && gb[0][0] == b.target);
        assert(ga[1][0] == rank_field(coverage_rank(a.coverage)));
        assert(gb[1][0] == rank_field(coverage_rank(b.coverage)));
        assert(rank_field(coverage_rank(a.coverage)).len() == coverage_rank(a.coverage));
        assert(rank_field(coverage_rank(b.coverage)).len() == coverage_rank(b.coverage));
    }
}

/// The successors of `u`, in edge order.
spec fn successor_list(edges: Seq<EventEdgeModel>, u: Seq<char>) -> Seq<SuccessorModel>
    decreases edges.len(),
{
    if edges.len() == 0 {
        Seq::empty()
    } else {
        successor_list(edges.drop_last(), u) + if edges.last().source == u {
            seq![SuccessorModel { target: edges.last().target, coverage: edges.last().coverage }]
        } else {
            Seq::empty()
        }
    }
}

proof fn lemma_successor_list(edges: Seq<EventEdgeModel>, u: Seq<char>, t: Seq<char>, c: RealizationCoverage)
    ensures
        successor_list(edges, u).contains(SuccessorModel { target: t, coverage: c }) <==> has_edge(edges, u, t, c),
    decreases edges.len(),
{
    let s = SuccessorModel { target: t, coverage: c };
    if edges.len() > 0 {
        let init = edges.drop_last();
        lemma_successor_list(init, u, t, c);
        let l = successor_list(edges, u);
        let li = successor_list(init, u);
        if l.contains(s) {
            let k = choose|k: int| 0 <= k < l.len() && l[k] == s;
            if k < li.len() {
                assert(li[k] == s);
                let i = choose|i: int|
                    0 <= i < init.len() && #[trigger] init[i].source == u && init[i].target == t && init[i].coverage == c;
                assert(edges[i] == init[i]);
            } else {
                assert(edges[edges.len() - 1].source == u);
            }
        }
        if has_edge(edges, u, t, c) {
            let i = choose|i: int|
                0 <= i < edges.len() && #[trigger] edges[i].source == u && edges[i].target == t && edges[i].coverage == c;
            if i < init.len() {
                assert(init[i] == edges[i]);
                let k = choose|k: int| 0 <= k < li.len() && li[k] == s;
                assert(l[k] == s);
            } else {
                assert(l[li.len() as int] == s);
            }
        }
    }
}

fn successors(edges: &[ImplementationEventEdge], u: &str) -> (r: Vec<Successor>)
    ensures
        forall|t: Seq<char>, c: RealizationCoverage|
            views(r@).contains(SuccessorModel { target: t, coverage: c }) <==> has_edge(views(edges@), u@, t, c),
{
    let ghost ev = views(edges@);
    let mut out: Vec<Successor> = Vec::new();
    let mut i: usize = 0;
    while i < edges.len()
        invariant
            ev == views(edges@),
            i <= edges@.len(),
            views(out@) == successor_list(ev.take(i as int), u@),
        decreases edges.len() - i,
    {
        let ghost before = out@;
        assert(ev.take(i + 1).drop_last() =~= ev.take(i as int));
        assert(ev.take(i + 1).last() == edges@[i as int]@);
        if text_eq(edges[i].source.as_str(), u) {
            let s = Successor { target: copy_text(edges[i].target.as_str()), coverage: edges[i].coverage };
            out.push(s);
            proof {
                crate::order::lemma_views_push_seq(before, s);
            }
            assert(views(out@) =~= views(before) + seq![s@]);
        } else {
            assert(views(out@) =~= views(before) + Seq::<SuccessorModel>::empty());
        }
        i = i + 1;
    }
    assert(ev.take(edges@.len() as int) =~= ev);
    proof {
        assert forall|t: Seq<char>, c: RealizationCoverage|
            views(out@).contains(SuccessorModel { target: t, coverage: c }) <==> has_edge(ev, u@, t, c) by {
            lemma_successor_list(ev, u@, t, c);
        }
    }
    let sorted = canonical_set_exec(out);
    sorted
}

// ---------------------------------------------------------------------------
// Breadth-first search.

/// The search tree: every discovered event is admissible, and is either a
/// source reached with Proven coverage or reached from an earlier event by an
/// edge, with the combined coverage.
spec fn search_tree(
    edges: Seq<EventEdgeModel>,
    sources: Seq<Seq<char>>,
    forbidden: Seq<Seq<char>>,
    order: Seq<Seq<char>>,
    parent: Seq<Option<usize>>,
    via: Seq<RealizationCoverage>,
    cov: Seq<RealizationCoverage>,
) -> bool {
    &&& parent.len() == order.len()
    &&& via.len() == order.len()
    &&& cov.len() == order.len()
    &&& forall|k: int| 0 <= k < order.len() ==> !forbidden.contains(#[trigger] order[k])
    &&& forall|k: int|
        0 <= k < order.len() ==> match #[trigger] parent[k] {
            None => sources.contains(order[k]) && cov[k] == RealizationCoverage::Proven,
            Some(j) => j < k && has_edge(edges, order[j as int], order[k], via[k]) && cov[k] == combined(
                cov[j as int],
                via[k],
            ),
        }
}

/// The discovered indices from a source down to `k`.
spec fn chain(parent: Seq<Option<usize>>, k: int) -> Seq<int>
    decreases k,
{
    if k < 0 || k >= parent.len() {
        seq![k]
    } else {
        match parent[k] {
            Some(j) => if 0 <= j < k {
                chain(parent, j as int).push(k)
            } else {
                seq![k]
            },
            None => seq![k],
        }
    }
}

/// The step coverages along `chain(parent, k)`.
spec fn chain_coverages(parent: Seq<Option<usize>>, via: Seq<RealizationCoverage>, k: int) -> Seq<RealizationCoverage>
    decreases k,
{
    if k < 0 || k >= parent.len() {
        Seq::empty()
    } else {
        match parent[k] {
            Some(j) => if 0 <= j < k {
                chain_coverages(parent, via, j as int).push(via[k])
            } else {
                Seq::empty()
            },
            None => Seq::empty(),
        }
    }
}

proof fn lemma_chain(
    edges: Seq<EventEdgeModel>,
    sources: Seq<Seq<char>>,
    forbidden: Seq<Seq<char>>,
    order: Seq<Seq<char>>,
    parent: Seq<Option<usize>>,
    via: Seq<RealizationCoverage>,
    cov: Seq<RealizationCoverage>,
    k: int,
)
    requires
        search_tree(edges, sources, forbidden, order, parent, via, cov),
        0 <= k < order.len(),
    ensures
        ({
            let c = chain(parent, k);
            let w = c.map_values(|i: int| order[i]);
            &&& forall|i: int| 0 <= i < c.len() ==> 0 <= #[trigger] c[i] < order.len()
            &&& c.last() == k
            &&& is_walk(edges, w, chain_coverages(parent, via, k))
            &&& sources.contains(w[0])
            &&& forall|i: int| 0 <= i < w.len() ==> !forbidden.contains(#[trigger] w[i])
            &&& worst(chain_coverages(parent, via, k)) == cov[k]
        }),
    decreases k,
{
    let c = chain(parent, k);
    let w = c.map_values(|i: int| order[i]);
    match parent[k] {
        None => {
            assert(c =~= seq![k]);
            assert(w[0] == order[k]);
            assert(chain_coverages(parent, via, k) =~= Seq::<RealizationCoverage>::empty());
        },
        Some(j) => {
            let j = j as int;
            lemma_chain(edges, sources, forbidden, order, parent, via, cov, j);
            let cj = chain(parent, j);
            let wj = cj.map_values(|i: int| order[i]);
            let csj = chain_coverages(parent, via, j);
            let cs = chain_coverages(parent, via, k);
            assert(c =~= cj.push(k));
            assert(cs =~= csj.push(via[k]));
            assert(w =~= wj.push(order[k]));
            assert(w[0] == wj[0]);
            assert(cs.drop_last() =~= csj);
            assert forall|i: int| 0 <= i < cs.len() implies has_edge(edges, w[i], w[i + 1], #[trigger] cs[i]) by {
                if i < csj.len() {
                    assert(cs[i] == csj[i]);
                    assert(w[i] == wj[i] && w[i + 1] == wj[i + 1]);
                } else {
                    assert(wj.last() == order[j]);
                    assert(w[i] == order[j]);
                    assert(w[i + 1] == order[k]);
                }
            }
            assert forall|i: int| 0 <= i < w.len() implies !forbidden.contains(#[trigger] w[i]) by {
                if i < wj.len() {
                    assert(w[i] == wj[i]);
                }
            }
        },
    }
}

proof fn lemma_bounded_distinct(s: Seq<Seq<char>>, c: Seq<Seq<char>>)
    requires
        s.no_duplicates(),
        forall|i: int| 0 <= i < s.len() ==> c.contains(#[trigger] s[i]),
    ensures
        s.len() <= c.len(),
{
    s.unique_seq_to_set();
    c.lemma_cardinality_of_set();
    seq_to_set_is_finite(c);
    assert(s.to_set().subset_of(c.to_set())) by {
        assert forall|x: Seq<char>| s.to_set().contains(x) implies c.to_set().contains(x) by {
            let i = choose|i: int| 0 <= i < s.len() && s[i] == x;
            assert(c.contains(s[i]));
        }
    }
    vstd::set_lib::lemma_len_subset(s.to_set(), c.to_set());
}

/// The events that can ever be discovered: sources and edge targets.
spec fn candidates(edges: Seq<EventEdgeModel>, sources: Seq<Seq<char>>) -> Seq<Seq<char>> {
    sources + edges.map_values(|e: EventEdgeModel| e.target)
}

fn walk_to(order: &Vec<String>, parent: &Vec<Option<usize>>, k: usize) -> (w: Vec<String>)
    requires
        parent@.len() == order@.len(),
        k < order@.len(),
        forall|i: int| 0 <= i < parent@.len() ==> match #[trigger] parent@[i] {
            Some(j) => j < i,
            None => true,
        },
    ensures
        texts(w@) == chain(parent@, k as int).map_values(|i: int| texts(order@)[i]),
    decreases k,
{
    match parent[k] {
        Some(j) => {
            let mut w = walk_to(order, parent, j);
            let ghost before = texts(w@);
            w.push(copy_text(order[k].as_str()));
            assert(texts(w@) =~= before.push(order@[k as int]@));
            assert(chain(parent@, k as int) =~= chain(parent@, j as int).push(k as int));
            assert(chain(parent@, k as int).map_values(|i: int| texts(order@)[i]) =~= chain(parent@, j as int).map_values(
                |i: int| texts(order@)[i],
            ).push(texts(order@)[k as int]));
            w
        },
        None => {
            let mut w: Vec<String> = Vec::new();
            w.push(copy_text(order[k].as_str()));
            assert(chain(parent@, k as int) =~= seq![k as int]);
            assert(texts(w@) =~= chain(parent@, k as int).map_values(|i: int| texts(order@)[i]));
            w
        },
    }
}

proof fn lemma_closed_reaches(
    edges: Seq<EventEdgeModel>,
    sources: Seq<Seq<char>>,
    forbidden: Seq<Seq<char>>,
    order: Seq<Seq<char>>,
    w: Seq<Seq<char>>,
    cs: Seq<RealizationCoverage>,
    n: int,
)
    requires
        is_walk(edges, w, cs),
        sources.contains(w[0]),
        forall|i: int| 0 <= i < w.len() ==> !forbidden.contains(#[trigger] w[i]),
        forall|s: Seq<char>| sources.contains(s) && !forbidden.contains(s) ==> order.contains(s),
        forall|k: int, t: Seq<char>, c: RealizationCoverage|
            0 <= k < order.len() && #[trigger] has_edge(edges, order[k], t, c) && !forbidden.contains(t) ==> order.contains(t),
        0 <= n < w.len(),
    ensures
        order.contains(w[n]),
    decreases n,
{
    if n == 0 {
    } else {
        lemma_closed_reaches(edges, sources, forbidden, order, w, cs, n - 1);
        let k = choose|k: int| 0 <= k < order.len() && order[k] == w[n - 1];
        assert(has_edge(edges, w[n - 1], w[n], cs[n - 1]));
        assert(has_edge(edges, order[k], w[n], cs[n - 1]));
        assert(!forbidden.contains(w[n]));
    }
}

/// Finds a supported walk from a source event to a target event that touches
/// no forbidden event, breadth first, with the coverage of its weakest step;
/// `None` exactly when no such walk exists.
pub fn supported_path(
    edges: &[ImplementationEventEdge],
    sources: &Vec<String>,
    targets: &Vec<String>,
    forbidden: &Vec<String>,
) -> (r: Option<(Vec<String>, RealizationCoverage)>)
    ensures
        match r {
            Some((p, c)) => exists|cs: Seq<RealizationCoverage>|
                connects(views(edges@), texts(p@), cs, texts(sources@), texts(targets@), texts(forbidden@)) && c == worst(
                    cs,
                ),
            None => !connected(views(edges@), texts(sources@), texts(targets@), texts(forbidden@)),
        },
{
    let ghost ev = views(edges@);
    let ghost sv = texts(sources@);
    let ghost tv = texts(targets@);
    let ghost fv = texts(forbidden@);
    let ghost cand = candidates(ev, sv);
    let mut order: Vec<String> = Vec::new();
    let mut parent: Vec<Option<usize>> = Vec::new();
    let mut via: Vec<RealizationCoverage> = Vec::new();
    let mut cov: Vec<RealizationCoverage> = Vec::new();
    let mut i: usize = 0;
    while i < sources.len()
        invariant
            sv == texts(sources@),
            fv == texts(forbidden@),
            cand == candidates(ev, sv),
            ev == views(edges@),
            i <= sources@.len(),
            search_tree(ev, sv, fv, texts(order@), parent@, via@, cov@),
            texts(order@).no_duplicates(),
            forall|k: int| 0 <= k < order@.len() ==> cand.contains(#[trigger] texts(order@)[k]),
            forall|k: int| 0 <= k < i && !fv.contains(#[trigger] sv[k]) ==> texts(order@).contains(sv[k]),
        decreases sources.len() - i,
    {
        let s = sources[i].as_str();
        assert(sv[i as int] == s@);
        if !texts_contain(forbidden, s) && !texts_contain(&order, s) {
            let ghost before = texts(order@);
            order.push(copy_text(s));
            parent.push(None);
            via.push(RealizationCoverage::Proven);
            cov.push(RealizationCoverage::Proven);
            assert(texts(order@) =~= before.push(s@));
            assert(cand[i as int] == s@);
            assert forall|k: int| 0 <= k <= i && !fv.contains(#[trigger] sv[k]) implies texts(order@).contains(sv[k]) by {
                if k < i {
                    let m = choose|m: int| 0 <= m < before.len() && before[m] == sv[k];
                    assert(texts(order@)[m] == sv[k]);
                } else {
                    assert(texts(order@)[before.len() as int] == sv[k]);
                }
            }
        }
        i = i + 1;
    }
    proof {
        lemma_bounded_distinct(texts(order@), cand);
        assert forall|x: Seq<char>| sv.contains(x) && !fv.contains(x) implies texts(order@).contains(x) by {
            let k = choose|k: int| 0 <= k < sv.len() && sv[k] == x;
            assert(!fv.contains(sv[k]));
        }
    }
    let mut head: usize = 0;
    while head < order.len()
        invariant
            sv == texts(sources@),
            tv == texts(targets@),
            fv == texts(forbidden@),
            cand == candidates(ev, sv),
            ev == views(edges@),
            head <= order@.len(),
            order@.len() <= cand.len(),
            search_tree(ev, sv, fv, texts(order@), parent@, via@, cov@),
            texts(order@).no_duplicates(),
            forall|k: int| 0 <= k < order@.len() ==> cand.contains(#[trigger] texts(order@)[k]),
            forall|x: Seq<char>| sv.contains(x) && !fv.contains(x) ==> texts(order@).contains(x),
            forall|k: int| 0 <= k < head ==> !tv.contains(#[trigger] texts(order@)[k]),
            forall|k: int, t: Seq<char>, c: RealizationCoverage|
                0 <= k < head && #[trigger] has_edge(ev, texts(order@)[k], t, c) && !fv.contains(t) ==> texts(
                    order@,
                ).contains(t),
        decreases cand.len() - head,
    {
        let current = copy_text(order[head].as_str());
        assert(texts(order@)[head as int] == current@);
        if texts_contain(targets, current.as_str()) {
            proof {
                assert forall|x: int| 0 <= x < parent@.len() implies match #[trigger] parent@[x] {
                    Some(j) => j < x,
                    None => true,
                } by {
                    assert(search_tree(ev, sv, fv, texts(order@), parent@, via@, cov@));
                }
                lemma_chain(ev, sv, fv, texts(order@), parent@, via@, cov@, head as int);
            }
            let p = walk_to(&order, &parent, head);
            let c = cov[head];
            proof {
                let cs = chain_coverages(parent@, via@, head as int);
                let ch = chain(parent@, head as int);
                assert(texts(p@).last() == texts(order@)[head as int]);
                assert(connects(ev, texts(p@), cs, sv, tv, fv));
            }
            return Some((p, c));
        }
        let succ = successors(edges, current.as_str());
        let ghost base_len = order@.len();
        let mut m: usize = 0;
        while m < succ.len()
            invariant
                sv == texts(sources@),
                tv == texts(targets@),
                fv == texts(forbidden@),
                cand == candidates(ev, sv),
                ev == views(edges@),
                head < order@.len(),
                texts(order@)[head as int] == current@,
                m <= succ@.len(),
                search_tree(ev, sv, fv, texts(order@), parent@, via@, cov@),
                texts(order@).no_duplicates(),
                forall|k: int| 0 <= k < order@.len() ==> cand.contains(#[trigger] texts(order@)[k]),
                forall|x: Seq<char>| sv.contains(x) && !fv.contains(x) ==> texts(order@).contains(x),
                forall|k: int| 0 <= k < head ==> !tv.contains(#[trigger] texts(order@)[k]),
                forall|k: int, t: Seq<char>, c: RealizationCoverage|
                    0 <= k < head && #[trigger] has_edge(ev, texts(order@)[k], t, c) && !fv.contains(t) ==> texts(
                        order@,
                    ).contains(t),
                forall|t: Seq<char>, c: RealizationCoverage|
                    views(succ@).contains(SuccessorModel { target: t, coverage: c }) <==> has_edge(ev, current@, t, c),
                forall|q: int|
                    0 <= q < m && !fv.contains(#[trigger] views(succ@)[q].target) ==> texts(order@).contains(
                        views(succ@)[q].target,
                    ),
            decreases succ.len() - m,
        {
            let next = succ[m].target.as_str();
            let e = succ[m].coverage;
            assert(views(succ@)[m as int] == succ@[m as int]@);
            if !texts_contain(forbidden, next) && !texts_contain(&order, next) {
                let ghost before = texts(order@);
                let ghost pb = parent@;
                let ghost vb = via@;
                let ghost cb = cov@;
                assert(views(succ@).contains(SuccessorModel { target: next@, coverage: e }));
                assert(has_edge(ev, current@, next@, e));
                let combined_coverage = combine_coverage(cov[head], e);
                order.push(copy_text(next));
                parent.push(Some(head));
                via.push(e);
                cov.push(combined_coverage);
                assert(texts(order@) =~= before.push(next@));
                proof {
                    assert forall|k: int| 0 <= k < order@.len() implies #[trigger] texts(order@)[k] == (if k
                        < before.len() {
                        before[k]
                    } else {
                        next@
                    }) by {}
                    let ei = choose|ei: int|
                        0 <= ei < ev.len() && #[trigger] ev[ei].source == current@ && ev[ei].target == next@
                            && ev[ei].coverage == e;
                    assert(cand[sv.len() + ei] == next@);
                    assert(search_tree(ev, sv, fv, texts(order@), parent@, via@, cov@)) by {
                        assert forall|k: int| 0 <= k < texts(order@).len() implies match #[trigger] parent@[k] {
                            None => sv.contains(texts(order@)[k]) && cov@[k] == RealizationCoverage::Proven,
                            Some(j) => j < k && has_edge(ev, texts(order@)[j as int], texts(order@)[k], via@[k])
                                && cov@[k] == combined(cov@[j as int], via@[k]),
                        } by {
                            if k < before.len() {
                                assert(parent@[k] == pb[k]);
                                assert(via@[k] == vb[k] && cov@[k] == cb[k]);
                                match pb[k] {
                                    Some(j) => {
                                        assert(texts(order@)[j as int] == before[j as int]);
                                    },
                                    None => {},
                                }
                            } else {
                                assert(texts(order@)[head as int] == current@);
                            }
                        }
                    }
                    assert forall|x: Seq<char>| sv.contains(x) && !fv.contains(x) implies texts(order@).contains(x) by {
                        let y = choose|y: int| 0 <= y < before.len() && before[y] == x;
                        assert(texts(order@)[y] == x);
                    }
                    assert forall|k: int, t: Seq<char>, c: RealizationCoverage|
                        0 <= k < head && #[trigger] has_edge(ev, texts(order@)[k], t, c) && !fv.contains(
                            t,
                        ) implies texts(order@).contains(t) by {
                        assert(texts(order@)[k] == before[k]);
                        let y = choose|y: int| 0 <= y < before.len() && before[y] == t;
                        assert(texts(order@)[y] == t);
                    }
                    assert forall|q: int|
                        0 <= q <= m && !fv.contains(#[trigger] views(succ@)[q].target) implies texts(order@).contains(
                        views(succ@)[q].target,
                    ) by {
                        if q < m {
                            let y = choose|y: int| 0 <= y < before.len() && before[y] == views(succ@)[q].target;
                            assert(texts(order@)[y] == views(succ@)[q].target);
                        } else {
                            assert(texts(order@)[before.len() as int] == next@);
                        }
                    }
                    lemma_bounded_distinct(texts(order@), cand);
                }
            } else {
                proof {
                    lemma_bounded_distinct(texts(order@), cand);
                }
            }
            m = m + 1;
        }
        proof {
            assert forall|k: int, t: Seq<char>, c: RealizationCoverage|
                0 <= k <= head && #[trigger] has_edge(ev, texts(order@)[k], t, c) && !fv.contains(t) implies texts(
                order@,
            ).contains(t) by {
                if k == head {
                    assert(views(succ@).contains(SuccessorModel { target: t, coverage: c }));
                    let q = choose|q: int| 0 <= q < views(succ@).len() && views(succ@)[q] == SuccessorModel {
                        target: t,
                        coverage: c,
                    };
                    assert(views(succ@)[q].target == t);
                }
            }
            lemma_bounded_distinct(texts(order@), cand);
        }
        head = head + 1;
    }
    proof {
        if connected(ev, sv, tv, fv) {
            let (w, cs) = choose|w: Seq<Seq<char>>, cs: Seq<RealizationCoverage>| connects(ev, w, cs, sv, tv, fv);
            lemma_closed_reaches(ev, sv, fv, texts(order@), w, cs, w.len() - 1);
            let k = choose|k: int| 0 <= k < order@.len() && texts(order@)[k] == w[w.len() - 1];
            assert(!tv.contains(texts(order@)[k]));
        }
    }
    None
}


// ---------------------------------------------------------------------------
// Canonical JSON.

/// The serialized name of a coverage.
pub open spec fn coverage_name(c: RealizationCoverage) -> Seq<char> {
    match c {
        RealizationCoverage::Proven => "PROVEN"@,
        RealizationCoverage::Partial => "PARTIAL"@,
        RealizationCoverage::Unknown => "UNKNOWN"@,
        RealizationCoverage::Unsupported => "UNSUPPORTED"@,
    }
}

/// Returns the serialized name of a coverage.
pub fn coverage_name_exec(c: RealizationCoverage) -> (r: &'static str)
    ensures
        r@ == coverage_name(c),
{
    match c {
        RealizationCoverage::Proven => "PROVEN",
        RealizationCoverage::Partial => "PARTIAL",
        RealizationCoverage::Unknown => "UNKNOWN",
        RealizationCoverage::Unsupported => "UNSUPPORTED",
    }
}

/// The serialized name of an authority.
pub open spec fn authority_name(a: EventAuthority) -> Seq<char> {
    match a {
        EventAuthority::ProgramSemanticModel => "program_semantic_model"@,
        EventAuthority::StateEffectAnalysis => "state_effect_analysis"@,
        EventAuthority::InformationFlowAnalysis => "information_flow_analysis"@,
        EventAuthority::EnvironmentalAnalysis => "environmental_analysis"@,
    }
}

fn authority_name_exec(a: EventAuthority) -> (r: &'static str)
    ensures
        r@ == authority_name(a),
{
    match a {
        EventAuthority::ProgramSemanticModel => "program_semantic_model",
        EventAuthority::StateEffectAnalysis => "state_effect_analysis",
        EventAuthority::InformationFlowAnalysis => "information_flow_analysis",
        EventAuthority::EnvironmentalAnalysis => "environmental_analysis",
    }
}

/// An optional text: the text, or null.
pub open spec fn optional_text_value(o: Option<Seq<char>>) -> JsonModel {
    match o {
        Some(t) => JsonModel::Text(t),
        None => JsonModel::Null,
    }
}

/// The JSON document of an event: every field, in declaration order.
pub open spec fn event_document(e: EventModel) -> JsonModel {
    JsonModel::Object(
        seq![
            ("id"@, JsonModel::Text(e.id)),
            ("kind"@, JsonModel::Text(e.kind)),
            ("responsible_symbol"@, optional_text_value(e.responsible_symbol)),
            ("module"@, JsonModel::Text(e.module)),
            ("authority"@, JsonModel::Text(authority_name(e.authority))),
            ("provenance"@, JsonModel::Array(text_values(e.provenance))),
            ("coverage"@, JsonModel::Text(coverage_name(e.coverage))),
        ],
    )
}

/// The JSON document of an edge: every field, in declaration order.
pub open spec fn edge_document(e: EventEdgeModel) -> JsonModel {
    JsonModel::Object(
        seq![
            ("source"@, JsonModel::Text(e.source)),
            ("target"@, JsonModel::Text(e.target)),
            ("coverage"@, JsonModel::Text(coverage_name(e.coverage))),
            ("derivation"@, JsonModel::Text(e.derivation)),
        ],
    )
}

impl ImplementationEvent {
    /// The event as a JSON document.
    pub fn to_json(&self) -> (r: Json)
        ensures
            r@ == event_document(self@),
    {
        let symbol = match &self.responsible_symbol {
            Some(t) => text(t.as_str()),
            None => Json::Null,
        };
        let members = vec![
            (String::from_str("id"), text(self.id.as_str())),
            (String::from_str("kind"), text(self.kind.as_str())),
            (String::from_str("responsible_symbol"), symbol),
            (String::from_str("module"), text(self.module.as_str())),
            (String::from_str("authority"), text(authority_name_exec(self.authority))),
            (String::from_str("provenance"), text_array(self.provenance.as_slice())),
            (String::from_str("coverage"), text(coverage_name_exec(self.coverage))),
        ];
        proof {
            lemma_member_models(members@);
            assert(self.provenance@.map_values(|s: String| s@) =~= texts(self.provenance@));
            assert(member_models(members@) =~= seq![
                ("id"@, JsonModel::Text(self@.id)),
                ("kind"@, JsonModel::Text(self@.kind)),
                ("responsible_symbol"@, optional_text_value(self@.responsible_symbol)),
                ("module"@, JsonModel::Text(self@.module)),
                ("authority"@, JsonModel::Text(authority_name(self@.authority))),
                ("provenance"@, JsonModel::Array(text_values(self@.provenance))),
                ("coverage"@, JsonModel::Text(coverage_name(self@.coverage))),
            ]);
        }
        Json::Object(members)
    }
}

impl ImplementationEventEdge {
    /// The edge as a JSON document.
    pub fn to_json(&self) -> (r: Json)
        ensures
            r@ == edge_document(self@),
    {
        let members = vec![
            (String::from_str("source"), text(self.source.as_str())),
            (String::from_str("target"), text(self.target.as_str())),
            (String::from_str("coverage"), text(coverage_name_exec(self.coverage))),
            (String::from_str("derivation"), text(self.derivation.as_str())),
        ];
        proof {
            lemma_member_models(members@);
            assert(member_models(members@) =~= seq![
                ("source"@, JsonModel::Text(self@.source)),
                ("target"@, JsonModel::Text(self@.target)),
                ("coverage"@, JsonModel::Text(coverage_name(self@.coverage))),
                ("derivation"@, JsonModel::Text(self@.derivation)),
            ]);
        }
        Json::Object(members)
    }
}

} // verus!
