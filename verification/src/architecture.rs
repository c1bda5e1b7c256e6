//! Derived architecture dependency and ownership views.
//!
//! Module contracts own functional intent; this module projects their
//! dependency edges and derives physical territory from canonical Module
//! containment.

pub mod contract;
pub mod cycles;
pub mod realization;
pub mod semantic_conformance;

use vstd::prelude::*;

use crate::behavior::graph::adjacency_wf;
use crate::order::{
    canonical_set, canonical_set_exec, canonical_sort, is_canonical, lemma_views_permutation, views,
    CanonicalOrder,
};
use crate::text::{
    concat, copy_text, copy_texts, join, join_texts, lemma_seq_le_reflexive, lemma_seq_le_total, lemma_seq_le_transitive, seq_le,
    sorted_texts, text_eq, texts,
};
use self::cycles::{first_dfs_cycle, acyclic, first_cycle, is_cycle};
use self::realization::{ArchitectureFinding, ArchitectureFindingModel};

verus! {

/// Stable identity of the declared dependency-cycle rule.
pub const ARCH_DEPENDENCY_RULE_ID: &'static str = "ARCH-DEPENDENCY-001";

/// Abstract value of one component.
pub struct ComponentModel {
    pub id: Seq<char>,
    pub title: Seq<char>,
    pub paths: Seq<Seq<char>>,
    pub dependencies: Seq<Seq<char>>,
}

/// One derived Module node with exact direct territory and capability edges.
#[derive(Clone, Debug)]
pub struct ComponentDeclaration {
    id: String,
    title: String,
    paths: Vec<String>,
    depends_on: Vec<String>,
}

impl View for ComponentDeclaration {
    type V = ComponentModel;

    closed spec fn view(&self) -> ComponentModel {
        ComponentModel {
            id: self.id@,
            title: self.title@,
            paths: texts(self.paths@),
            dependencies: texts(self.depends_on@),
        }
    }
}

/// `s` is a sorted rearrangement of `t`.
pub open spec fn sorted_permutation(s: Seq<Seq<char>>, t: Seq<Seq<char>>) -> bool {
    &&& sorted_texts(s)
    &&& s.to_multiset() == t.to_multiset()
}

fn sorted_strings(v: Vec<String>) -> (r: Vec<String>)
    ensures
        sorted_permutation(texts(r@), texts(v@)),
{
    let ghost original = v@;
    let r = canonical_sort(v);
    proof {
        assert(texts(r@) == views(r@));
        assert(texts(original) == views(original));
        lemma_views_permutation(r@, original);
        assert forall|i: int, j: int| 0 <= i < j < texts(r@).len() implies seq_le(#[trigger] texts(r@)[i], #[trigger] texts(r@)[j]) by {
            assert(<String as CanonicalOrder>::ordered(views(r@)[i], views(r@)[j]));
        }
    }
    r
}

impl ComponentDeclaration {
    /// Creates a deterministic component: paths and dependencies are sorted.
    pub fn new(id: String, title: String, paths: Vec<String>, dependencies: Vec<String>) -> (r: Self)
        ensures
            r@.id == id@,
            r@.title == title@,
            sorted_permutation(r@.paths, texts(paths@)),
            sorted_permutation(r@.dependencies, texts(dependencies@)),
    {
        let paths = sorted_strings(paths);
        let depends_on = sorted_strings(dependencies);
        ComponentDeclaration { id, title, paths, depends_on }
    }

    /// Returns the stable Module identity.
    pub fn id(&self) -> (r: &str)
        ensures
            r@ == self@.id,
    {
        self.id.as_str()
    }

    /// Returns the Module display title.
    pub fn title(&self) -> (r: &str)
        ensures
            r@ == self@.title,
    {
        self.title.as_str()
    }

    /// Returns exact observed paths owned by the Module.
    pub fn paths(&self) -> (r: &[String])
        ensures
            texts(r@) == self@.paths,
    {
        self.paths.as_slice()
    }

    /// Returns provider Module identities derived from capability requirements.
    pub fn dependencies(&self) -> (r: &[String])
        ensures
            texts(r@) == self@.dependencies,
    {
        self.depends_on.as_slice()
    }
}

impl CanonicalOrder for ComponentDeclaration {
    open spec fn ordered(a: ComponentModel, b: ComponentModel) -> bool {
        seq_le(a.id, b.id)
    }

    proof fn lemma_ordered_reflexive(a: ComponentModel) {
        lemma_seq_le_reflexive(a.id);
    }

    proof fn lemma_ordered_transitive(a: ComponentModel, b: ComponentModel, c: ComponentModel) {
        lemma_seq_le_transitive(a.id, b.id, c.id);
    }

    proof fn lemma_ordered_total(a: ComponentModel, b: ComponentModel) {
        lemma_seq_le_total(a.id, b.id);
    }

    fn precedes(&self, other: &Self) -> (r: bool) {
        crate::text::text_le(self.id.as_str(), other.id.as_str())
    }
}

/// The component identities.
pub open spec fn component_ids(cs: Seq<ComponentModel>) -> Seq<Seq<char>> {
    cs.map_values(|c: ComponentModel| c.id)
}

/// The distinct component identities in canonical order: the graph's nodes.
pub open spec fn graph_nodes(cs: Seq<ComponentModel>) -> Seq<Seq<char>> {
    canonical_set::<String>(component_ids(cs))
}

/// The position of the last component with identity `id`: the one whose
/// dependencies the graph uses.
pub open spec fn effective_component(cs: Seq<ComponentModel>, id: Seq<char>) -> int {
    choose|i: int| 0 <= i < cs.len() && cs[i].id == id && forall|j: int| i < j < cs.len() ==> cs[j].id != id
}

/// Positions among `nodes` of the first `k` dependencies that are nodes.
pub open spec fn dependency_positions(nodes: Seq<Seq<char>>, deps: Seq<Seq<char>>, k: int) -> Seq<usize>
    decreases k,
{
    if k <= 0 {
        Seq::empty()
    } else {
        dependency_positions(nodes, deps, k - 1) + (if nodes.contains(deps[k - 1]) {
            seq![(choose|p: int| 0 <= p < nodes.len() && nodes[p] == deps[k - 1]) as usize]
        } else {
            Seq::empty()
        })
    }
}

/// The dependency graph of the components over `graph_nodes`.
pub open spec fn dependency_graph(cs: Seq<ComponentModel>) -> Seq<Seq<usize>> {
    let nodes = graph_nodes(cs);
    Seq::new(
        nodes.len(),
        |u: int| {
            let deps = cs[effective_component(cs, nodes[u])].dependencies;
            dependency_positions(nodes, deps, deps.len() as int)
        },
    )
}

/// The identities along a walk.
pub open spec fn walk_names(nodes: Seq<Seq<char>>, c: Seq<int>) -> Seq<Seq<char>> {
    c.map_values(|x: int| nodes[x])
}

/// Abstract value of an architecture view.
pub struct ManifestModel {
    pub components: Seq<ComponentModel>,
    pub dependency_cycles: Seq<Seq<Seq<char>>>,
}

/// Deterministic architecture view derived from contracts and containment.
#[derive(Clone, Debug)]
pub struct ArchitectureManifest {
    components: Vec<ComponentDeclaration>,
    dependency_cycles: Vec<Vec<String>>,
}

impl View for ArchitectureManifest {
    type V = ManifestModel;

    closed spec fn view(&self) -> ManifestModel {
        ManifestModel {
            components: views(self.components@),
            dependency_cycles: self.dependency_cycles@.map_values(|c: Vec<String>| texts(c@)),
        }
    }
}

fn position_text(v: &Vec<String>, x: &str) -> (r: Option<usize>)
    ensures
        r is None ==> !texts(v@).contains(x@),
        r matches Some(p) ==> p < v@.len() && v@[p as int]@ == x@,
{
    let mut i: usize = 0;
    while i < v.len()
        invariant
            i <= v@.len(),
            forall|k: int| 0 <= k < i ==> v@[k]@ != x@,
        decreases v.len() - i,
    {
        if text_eq(v[i].as_str(), x) {
            return Some(i);
        }
        i = i + 1;
    }
    assert forall|k: int| 0 <= k < texts(v@).len() implies texts(v@)[k] != x@ by {
        assert(texts(v@)[k] == v@[k]@);
    }
    None
}

proof fn lemma_strict_positions_unique(s: Seq<Seq<char>>, a: int, b: int)
    requires
        crate::order::is_strictly_canonical::<String>(s),
        0 <= a < s.len(),
        0 <= b < s.len(),
        s[a] == s[b],
    ensures
        a == b,
{
    if a < b {
        assert(s[a] != s[b]);
    } else if b < a {
        assert(s[b] != s[a]);
    }
}

/// Builds the dependency graph of sorted components.
fn build_graph(components: &Vec<ComponentDeclaration>, nodes: &Vec<String>) -> (r: Vec<Vec<usize>>)
    requires
        texts(nodes@) == graph_nodes(views(components@)),
        crate::order::is_strictly_canonical::<String>(texts(nodes@)),
        forall|x: Seq<char>| texts(nodes@).contains(x) <==> component_ids(views(components@)).contains(x),
    ensures
        r@.map_values(|s: Vec<usize>| s@) == dependency_graph(views(components@)),
        adjacency_wf(dependency_graph(views(components@))),
{
    let ghost cs = views(components@);
    let ghost nv = texts(nodes@);
    let mut adj: Vec<Vec<usize>> = Vec::new();
    let mut u: usize = 0;
    while u < nodes.len()
        invariant
            cs == views(components@),
            nv == texts(nodes@),
            nv == graph_nodes(cs),
            crate::order::is_strictly_canonical::<String>(nv),
            forall|x: Seq<char>| nv.contains(x) <==> component_ids(cs).contains(x),
            u <= nodes@.len(),
            adj@.len() == u,
            forall|q: int| 0 <= q < u ==> #[trigger] adj@[q]@ == dependency_graph(cs)[q],
        decreases nodes.len() - u,
    {
        assert(nv[u as int] == nodes@[u as int]@);
        assert(nv.contains(nv[u as int]));
        let ghost e = effective_component(cs, nv[u as int]);
        let mut last: usize = 0;
        let mut found = false;
        let mut i: usize = 0;
        while i < components.len()
            invariant
                cs == views(components@),
                nv == texts(nodes@),
                u < nodes@.len(),
                i <= components@.len(),
                found ==> last < i && cs[last as int].id == nv[u as int] && forall|j: int| last < j < i ==> cs[j].id != nv[u as int],
                !found ==> forall|j: int| 0 <= j < i ==> cs[j].id != nv[u as int],
            decreases components.len() - i,
        {
            assert(cs[i as int] == components@[i as int]@);
            if text_eq(components[i].id.as_str(), nodes[u].as_str()) {
                last = i;
                found = true;
            }
            i = i + 1;
        }
        proof {
            assert(component_ids(cs).contains(nv[u as int]));
            let k = choose|k: int| 0 <= k < component_ids(cs).len() && component_ids(cs)[k] == nv[u as int];
            assert(cs[k].id == nv[u as int]);
            assert(found);
            let c = effective_component(cs, nv[u as int]);
            assert(0 <= c < cs.len() && cs[c].id == nv[u as int] && forall|j: int| c < j < cs.len() ==> cs[j].id != nv[u as int]);
            assert(c == last);
        }
        let deps = &components[last].depends_on;
        let ghost dv = texts(deps@);
        assert(dv == cs[last as int].dependencies);
        let mut row: Vec<usize> = Vec::new();
        let mut t: usize = 0;
        while t < deps.len()
            invariant
                nv == texts(nodes@),
                crate::order::is_strictly_canonical::<String>(nv),
                dv == texts(deps@),
                t <= deps@.len(),
                row@ == dependency_positions(nv, dv, t as int),
            decreases deps.len() - t,
        {
            assert(dv[t as int] == deps@[t as int]@);
            match position_text(nodes, deps[t].as_str()) {
                Some(p) => {
                    proof {
                        assert(nv[p as int] == dv[t as int]);
                        assert(nv.contains(dv[t as int]));
                        let q = choose|q: int| 0 <= q < nv.len() && nv[q] == dv[t as int];
                        lemma_strict_positions_unique(nv, p as int, q);
                    }
                    row.push(p);
                },
                None => {},
            }
            t = t + 1;
        }
        adj.push(row);
        u = u + 1;
    }
    proof {
        let g = dependency_graph(cs);
        assert(adj@.map_values(|s: Vec<usize>| s@) =~= g);
        assert forall|x: int, k: int| 0 <= x < g.len() && 0 <= k < g[x].len() implies #[trigger] g[x][k] < g.len() by {
            let deps = cs[effective_component(cs, nv[x])].dependencies;
            lemma_positions_bound(nv, deps, deps.len() as int);
        }
    }
    adj
}

proof fn lemma_positions_bound(nodes: Seq<Seq<char>>, deps: Seq<Seq<char>>, k: int)
    requires
        0 <= k <= deps.len(),
    ensures
        forall|j: int| 0 <= j < dependency_positions(nodes, deps, k).len() ==> (#[trigger] dependency_positions(nodes, deps, k)[j] as int) < nodes.len(),
    decreases k,
{
    if k > 0 {
        lemma_positions_bound(nodes, deps, k - 1);
        let s = dependency_positions(nodes, deps, k);
        let s0 = dependency_positions(nodes, deps, k - 1);
        assert forall|j: int| 0 <= j < s.len() implies (#[trigger] s[j] as int) < nodes.len() by {
            if j < s0.len() {
                assert(s[j] == s0[j]);
            }
        }
    }
}

fn cycle_names(nodes: &Vec<String>, c: &Vec<usize>) -> (names: Vec<String>)
    requires
        forall|q: int| 0 <= q < c@.len() ==> (#[trigger] c@[q] as int) < nodes@.len(),
    ensures
        texts(names@) == walk_names(texts(nodes@), c@.map_values(|x: usize| x as int)),
{
    let ghost cv = c@.map_values(|x: usize| x as int);
    let ghost nv = texts(nodes@);
    let mut names: Vec<String> = Vec::new();
    let mut k: usize = 0;
    while k < c.len()
        invariant
            nv == texts(nodes@),
            cv == c@.map_values(|x: usize| x as int),
            forall|q: int| 0 <= q < c@.len() ==> (#[trigger] c@[q] as int) < nodes@.len(),
            k <= c@.len(),
            texts(names@) == walk_names(nv, cv).take(k as int),
        decreases c.len() - k,
    {
        let ghost old = names@;
        names.push(copy_text(nodes[c[k]].as_str()));
        assert(texts(names@) =~= texts(old).push(nv[c@[k as int] as int]));
        assert(walk_names(nv, cv).take(k + 1) =~= walk_names(nv, cv).take(k as int).push(nv[c@[k as int] as int]));
        k = k + 1;
    }
    assert(walk_names(nv, cv).take(c@.len() as int) =~= walk_names(nv, cv));
    names
}

impl ArchitectureManifest {
    /// Constructs a deterministic architecture view from components: they are
    /// put in identity order, and the first dependency cycle found by a
    /// depth-first search over identities in order is recorded.
    #[verifier::rlimit(60)]
    pub fn from_components(components: Vec<ComponentDeclaration>) -> (r: Self)
        ensures
            is_canonical::<ComponentDeclaration>(r@.components),
            r@.components.to_multiset() == views(components@).to_multiset(),
            r@.dependency_cycles == match first_dfs_cycle(dependency_graph(r@.components)) {
                Some(c) => seq![walk_names(graph_nodes(r@.components), c)],
                None => Seq::<Seq<Seq<char>>>::empty(),
            },
            r@.dependency_cycles.len() == 0 ==> acyclic(dependency_graph(r@.components)),
            r@.dependency_cycles.len() == 1 ==> exists|c: Seq<int>|
                #[trigger] is_cycle(dependency_graph(r@.components), c) && r@.dependency_cycles[0]
                    == walk_names(graph_nodes(r@.components), c),
            r@.dependency_cycles.len() == 1 ==> forall|a: int, b: int|
                0 <= a < b < r@.dependency_cycles[0].len() - 1 ==> r@.dependency_cycles[0][a]
                    != r@.dependency_cycles[0][b],
    {
        let ghost original = components@;
        let components = canonical_sort(components);
        proof {
            lemma_views_permutation(components@, original);
        }
        let ghost cs = views(components@);
        let mut ids: Vec<String> = Vec::new();
        let mut i: usize = 0;
        while i < components.len()
            invariant
                cs == views(components@),
                i <= components@.len(),
                views(ids@) == component_ids(cs).take(i as int),
            decreases components.len() - i,
        {
            let ghost old = ids@;
            ids.push(copy_text(components[i].id.as_str()));
            assert(views(ids@) =~= views(old).push(cs[i as int].id));
            assert(component_ids(cs).take(i + 1) =~= component_ids(cs).take(i as int).push(cs[i as int].id));
            i = i + 1;
        }
        assert(component_ids(cs).take(components@.len() as int) =~= component_ids(cs));
        let nodes = canonical_set_exec(ids);
        assert(texts(nodes@) == views(nodes@));
        let adj = build_graph(&components, &nodes);
        let mut dependency_cycles: Vec<Vec<String>> = Vec::new();
        match first_cycle(&adj) {
            None => {},
            Some(c) => {
                proof {
                    let g = dependency_graph(cs);
                    assert forall|q: int| 0 <= q < c@.len() implies (#[trigger] c@[q] as int) < nodes@.len() by {
                        let cv = c@.map_values(|x: usize| x as int);
                        assert(cv[q] == c@[q] as int);
                        if q < c@.len() - 1 {
                            assert(crate::behavior::graph::has_edge(g, cv[q], cv[q + 1]));
                        } else {
                            assert(crate::behavior::graph::has_edge(g, cv[q - 1], cv[q]));
                        }
                    }
                }
                let names = cycle_names(&nodes, &c);
                proof {
                    let cv = c@.map_values(|x: usize| x as int);
                    let w = walk_names(texts(nodes@), cv);
                    assert forall|a: int, b: int| 0 <= a < b < w.len() - 1 implies w[a] != w[b] by {
                        assert(c@[a] != c@[b]);
                        assert(w[a] == texts(nodes@)[c@[a] as int] && w[b] == texts(nodes@)[c@[b] as int]);
                        if c@[a] < c@[b] {
                            assert(crate::order::is_strictly_canonical::<String>(texts(nodes@)));
                        } else {
                            assert(crate::order::is_strictly_canonical::<String>(texts(nodes@)));
                        }
                    }
                }
                dependency_cycles.push(names);
            },
        }
        let r = ArchitectureManifest { components, dependency_cycles };
        assert(r@.dependency_cycles.len() == dependency_cycles@.len());
        r
    }

    /// Returns derived architecture components.
    pub fn components(&self) -> (r: &[ComponentDeclaration])
        ensures
            views(r@) == self@.components,
    {
        self.components.as_slice()
    }

    /// Returns dependency cycles recorded for the view.
    pub fn dependency_cycles(&self) -> (r: &[Vec<String>])
        ensures
            r@.map_values(|c: Vec<String>| texts(c@)) == self@.dependency_cycles,
    {
        self.dependency_cycles.as_slice()
    }

    /// Evaluates the dependency-cycle rule: no finding when the view records
    /// no cycle; otherwise one finding whose entities are the first recorded
    /// cycle and whose message spells out its route.
    pub fn evaluate_acyclic_dependencies(&self, standard_edition: &str) -> (r: Option<ArchitectureFinding>)
        ensures
            (self@.dependency_cycles.len() == 0) == (r is None),
            r matches Some(f) ==> f@ == cycle_finding(self@.dependency_cycles[0], standard_edition@),
    {
        if self.dependency_cycles.len() == 0 {
            return None;
        }
        let cycle = &self.dependency_cycles[0];
        assert(texts(cycle@) == self@.dependency_cycles[0]);
        let route = join(cycle.as_slice(), " -> ");
        let head = concat("CCG Module capability dependency graph contains a cycle: ", route.as_str());
        let message = concat(head.as_str(), ".");
        let entities = copy_texts(cycle.as_slice());
        Some(ArchitectureFinding::new(
            copy_text(ARCH_DEPENDENCY_RULE_ID),
            entities,
            None,
            message,
            copy_text(standard_edition),
        ))
    }
}

/// The finding of the dependency-cycle rule for one cycle.
pub open spec fn cycle_finding(cycle: Seq<Seq<char>>, standard_edition: Seq<char>) -> ArchitectureFindingModel {
    ArchitectureFindingModel {
        rule_id: ARCH_DEPENDENCY_RULE_ID@,
        entities: cycle,
        path: None,
        message: "CCG Module capability dependency graph contains a cycle: "@ + join_texts(cycle, " -> "@) + "."@,
        standard_edition,
    }
}

} // verus!
