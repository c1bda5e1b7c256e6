//! Derivation of the canonical implementation-event graph from the semantic
//! models: one entry and one return event per executable symbol, Boolean
//! return refinements, control decisions, loops and call sites lowered from
//! executable bodies, lexical call-order fallbacks, and the events of
//! State/Effect, Information Flow and Environmental Analysis.

use vstd::prelude::*;

use crate::codec::decimal_of;
use crate::order::{
    canonical_set, canonical_set_exec, fields_le, rank_field, rank_field_exec, views,
    CanonicalOrder, TotalOrder,
};
use crate::text::{is_suffix, seq_le, seq_lt};

use crate::behavior::model::optional_view;
use crate::codec::decimal;
use crate::text::{concat, copy_text, ends_with, text_eq, texts};

use super::contract::{event_id, event_id_of};
use super::{EventGraphModel, ImplementationEventModel};
use super::events::{
    EventAuthority, EventEdgeModel, EventModel, EventSubject, ImplementationEvent, ImplementationEventEdge,
    RealizationCoverage,
};

verus! {

// ---------------------------------------------------------------------------
// The semantic models, as far as the derivation reads them.

/// Where a semantic fact was observed.
#[derive(Debug)]
pub struct SourcePosition {
    /// Repository path.
    pub path: String,
    /// One-based line.
    pub line: u32,
    /// One-based column.
    pub column: u32,
}

/// One executable symbol of the program semantic model.
#[derive(Debug)]
pub struct ExecutableSymbol {
    /// Stable executable identity.
    pub id: String,
    /// The Fortress Module that owns the symbol.
    pub fortress_module: String,
    /// The source file of the symbol.
    pub source_path: String,
    /// Where the symbol is declared.
    pub provenance: SourcePosition,
}

/// One occurrence of a call in source.
#[derive(Debug)]
pub struct CallEvidence {
    /// The callee as written.
    pub reference: String,
    /// Where the call occurs.
    pub provenance: SourcePosition,
}

/// One call relation of the program semantic model.
#[derive(Debug)]
pub struct ProgramCall {
    /// Calling executable.
    pub caller: String,
    /// Resolved callee, when resolution succeeded.
    pub callee: Option<String>,
    /// The call resolved to one static callee.
    pub resolved_static: bool,
    /// Every occurrence of the call.
    pub evidence: Vec<CallEvidence>,
}

/// One program expression, as far as evaluation order is concerned.
#[derive(Debug)]
pub enum ProgramExpression {
    /// A call of a path.
    Call { reference: String, arguments: Vec<ProgramExpression> },
    /// A method call.
    MethodCall { receiver: Box<ProgramExpression>, method: String, arguments: Vec<ProgramExpression> },
    /// A tuple.
    Tuple { elements: Vec<ProgramExpression> },
    /// A field projection.
    Field { base: Box<ProgramExpression> },
    /// A pattern test.
    PatternTest { value: Box<ProgramExpression> },
    /// A unary operation.
    Unary { value: Box<ProgramExpression> },
    /// An early-return propagation.
    Try { value: Box<ProgramExpression> },
    /// A borrow.
    Reference { value: Box<ProgramExpression> },
    /// A constructor application.
    Construction { arguments: Vec<ProgramExpression> },
    /// A binary operation.
    Binary { left: Box<ProgramExpression>, right: Box<ProgramExpression> },
    /// A binding read.
    Binding,
    /// A Boolean literal.
    Boolean,
    /// An integer literal.
    Integer,
    /// The unit value.
    Unit,
    /// An enumeration variant.
    Variant,
    /// An exceptional exit.
    Exceptional,
    /// An unsupported expression.
    Unsupported,
}

/// One arm of a match.
#[derive(Debug)]
pub struct ProgramMatchArm {
    /// The arm's guard.
    pub guard: Option<ProgramExpression>,
    /// The arm's body.
    pub body: Vec<ProgramStatement>,
}

/// One program statement.
#[derive(Debug)]
pub enum ProgramStatement {
    /// A binding, with its initializer.
    Let { value: Option<ProgramExpression> },
    /// An assignment.
    Assign { value: ProgramExpression },
    /// An expression statement.
    Expression { value: ProgramExpression },
    /// A return.
    Return { value: Option<ProgramExpression> },
    /// A conditional.
    If {
        condition: ProgramExpression,
        then_branch: Vec<ProgramStatement>,
        else_branch: Vec<ProgramStatement>,
        provenance: SourcePosition,
    },
    /// A match.
    Match { value: ProgramExpression, arms: Vec<ProgramMatchArm>, provenance: SourcePosition },
    /// A `while let` loop.
    WhileLet { value: ProgramExpression, body: Vec<ProgramStatement>, provenance: SourcePosition },
}

/// The body of one executable symbol.
#[derive(Debug)]
pub struct ProgramBody {
    /// The executable.
    pub symbol: String,
    /// Its statements.
    pub statements: Vec<ProgramStatement>,
}

/// The program semantic model: symbols, calls and bodies.
#[derive(Debug)]
pub struct ProgramSemanticModel {
    /// Executable symbols.
    pub symbols: Vec<ExecutableSymbol>,
    /// Call relations.
    pub calls: Vec<ProgramCall>,
    /// Executable bodies.
    pub bodies: Vec<ProgramBody>,
}

/// One summary of Semantic Analysis: its symbol and, when the inferred
/// output domain is Boolean, its values.
#[derive(Debug)]
pub struct SemanticSummary {
    /// Executable symbol.
    pub symbol: String,
    /// The Boolean output values, when the domain is Boolean.
    pub boolean_output: Option<Vec<bool>>,
}

/// One summary of State/Effect Analysis. Receiver states and effects are
/// named as the analysis renders them.
#[derive(Debug)]
pub struct StateEffectSummary {
    /// Executable symbol.
    pub symbol: String,
    /// Receiver state on entry.
    pub input_receiver_state: Option<String>,
    /// Receiver state on return.
    pub output_receiver_state: Option<String>,
    /// Coverage of the state postcondition.
    pub state_postcondition_coverage: RealizationCoverage,
    /// Direct effects.
    pub direct_effects: Vec<String>,
}

/// One declared trusted information-flow transition, its kind named as the
/// analysis renders it.
#[derive(Debug)]
pub struct TrustedTransitionDiagnostic {
    /// Responsible executable symbol.
    pub symbol: String,
    /// Endorsement or declassification.
    pub kind: String,
    /// Information facet.
    pub facet: String,
    /// Source level.
    pub from: String,
    /// Target level.
    pub to: String,
    /// Where the transition is declared.
    pub contract_provenance: String,
}

/// How an environmental outcome is handled.
#[derive(Clone, Copy, Debug, PartialEq, Eq, Structural)]
pub enum HandlingStatus {
    Handled,
    PartiallyHandled,
    Unknown,
    Unhandled,
    Unsupported,
}

/// One admissible outcome of an external operation.
#[derive(Debug)]
pub struct EnvironmentOutcome {
    /// Outcome identity.
    pub id: String,
    /// How the outcome is handled.
    pub handling: HandlingStatus,
    /// Where the outcome is declared.
    pub provenance: String,
    /// The executable that continues after the outcome, if not the boundary's return.
    pub continuation: Option<String>,
}

/// One external operation and its outcomes.
#[derive(Debug)]
pub struct EnvironmentOperation {
    /// Operation identity.
    pub operation: String,
    /// The boundary executable.
    pub boundary: String,
    /// Admissible outcomes.
    pub outcomes: Vec<EnvironmentOutcome>,
}

// ---------------------------------------------------------------------------
// Call sites.

/// Abstract value of one call site.
pub struct SiteModel {
    pub caller: Seq<char>,
    pub callee: Option<Seq<char>>,
    pub resolved_static: bool,
    pub reference: Seq<char>,
    pub path: Seq<char>,
    pub line: u32,
    pub column: u32,
    pub sequence: nat,
}

/// The call sites of one caller and how many have been consumed.
pub struct CallerSitesModel {
    pub caller: Seq<char>,
    pub sites: Seq<SiteModel>,
    pub cursor: nat,
}

/// The state of the derivation: events in order of first derivation,
/// edges in order of derivation, and the call sites of each caller.
pub struct BuildState {
    pub events: Seq<EventModel>,
    pub edges: Seq<EventEdgeModel>,
    pub callers: Seq<CallerSitesModel>,
}

/// The site of one call occurrence, numbered in derivation order.
pub open spec fn site_of(call: ProgramCall, e: CallEvidence, sequence: nat) -> SiteModel {
    SiteModel {
        caller: call.caller@,
        callee: match call.callee {
            Some(c) => Some(c@),
            None => None,
        },
        resolved_static: call.resolved_static,
        reference: e.reference@,
        path: e.provenance.path@,
        line: e.provenance.line,
        column: e.provenance.column,
        sequence,
    }
}

/// The sites of the first occurrences of one call, numbered from `base`.
pub open spec fn evidence_sites(call: ProgramCall, evs: Seq<CallEvidence>, base: nat) -> Seq<SiteModel>
    decreases evs.len(),
{
    if evs.len() == 0 {
        Seq::empty()
    } else {
        evidence_sites(call, evs.drop_last(), base).push(site_of(call, evs.last(), (base + evs.len() - 1) as nat))
    }
}

/// Every call occurrence, numbered in order.
pub open spec fn all_sites(calls: Seq<ProgramCall>) -> Seq<SiteModel>
    decreases calls.len(),
{
    if calls.len() == 0 {
        Seq::empty()
    } else {
        let prev = all_sites(calls.drop_last());
        prev + evidence_sites(calls.last(), calls.last().evidence@, prev.len())
    }
}

/// The position of a caller's entry.
pub open spec fn caller_index(callers: Seq<CallerSitesModel>, caller: Seq<char>) -> Option<int>
    decreases callers.len(),
{
    if callers.len() == 0 {
        None
    } else if callers.last().caller == caller {
        Some(callers.len() - 1)
    } else {
        caller_index(callers.drop_last(), caller)
    }
}

/// Files a site under its caller.
pub open spec fn file_site(callers: Seq<CallerSitesModel>, s: SiteModel) -> Seq<CallerSitesModel> {
    match caller_index(callers, s.caller) {
        Some(c) => callers.update(c, CallerSitesModel { sites: callers[c].sites.push(s), ..callers[c] }),
        None => callers.push(CallerSitesModel { caller: s.caller, sites: seq![s], cursor: 0 }),
    }
}

/// The sites filed by caller, in order of first occurrence.
pub open spec fn filed_sites(sites: Seq<SiteModel>) -> Seq<CallerSitesModel>
    decreases sites.len(),
{
    if sites.len() == 0 {
        Seq::empty()
    } else {
        file_site(filed_sites(sites.drop_last()), sites.last())
    }
}

/// `a` sorts before `b`: by path, line, column and number.
pub open spec fn site_before(a: SiteModel, b: SiteModel) -> bool {
    seq_lt(a.path, b.path) || (a.path == b.path && (a.line < b.line || (a.line == b.line && (a.column < b.column
        || (a.column == b.column && a.sequence < b.sequence)))))
}

/// Inserts a site after every site that does not sort after it.
pub open spec fn insert_site(s: Seq<SiteModel>, x: SiteModel) -> Seq<SiteModel>
    decreases s.len(),
{
    if s.len() == 0 {
        seq![x]
    } else if site_before(x, s.last()) {
        insert_site(s.drop_last(), x).push(s.last())
    } else {
        s.push(x)
    }
}

/// Sites in order of path, line, column and number.
pub open spec fn sort_sites(s: Seq<SiteModel>) -> Seq<SiteModel>
    decreases s.len(),
{
    if s.len() == 0 {
        Seq::empty()
    } else {
        insert_site(sort_sites(s.drop_last()), s.last())
    }
}

/// A caller's sites in source order, none consumed.
pub open spec fn sorted_entry(e: CallerSitesModel) -> CallerSitesModel {
    CallerSitesModel { caller: e.caller, sites: sort_sites(e.sites), cursor: 0 }
}

/// The call-site table of a program: each caller's sites in source order.
pub open spec fn site_table(calls: Seq<ProgramCall>) -> Seq<CallerSitesModel> {
    filed_sites(all_sites(calls)).map_values(|e: CallerSitesModel| sorted_entry(e))
}

/// The written callee `reference` may denote the site's callee.
pub open spec fn reference_matches(site_reference: Seq<char>, reference: Seq<char>) -> bool {
    site_reference == reference || is_suffix("::"@ + reference, site_reference) || is_suffix(
        site_reference,
        reference,
    )
}

/// The first site from `j` on whose reference matches.
pub open spec fn match_from(sites: Seq<SiteModel>, reference: Seq<char>, j: int) -> Option<int>
    decreases sites.len() - j,
{
    if j < 0 || j >= sites.len() {
        None
    } else if reference_matches(sites[j].reference, reference) {
        Some(j)
    } else {
        match_from(sites, reference, j + 1)
    }
}

/// Consumes the next site of `caller` for a call written as `reference`:
/// the first unconsumed site whose reference matches, else the next
/// unconsumed site.
pub open spec fn consume(st: BuildState, caller: Seq<char>, reference: Seq<char>) -> Option<(BuildState, SiteModel)> {
    match caller_index(st.callers, caller) {
        None => None,
        Some(c) => {
            let e = st.callers[c];
            let index = match match_from(e.sites, reference, e.cursor as int) {
                Some(j) => Some(j),
                None => if e.cursor < e.sites.len() {
                    Some(e.cursor as int)
                } else {
                    None
                },
            };
            match index {
                None => None,
                Some(j) => Some(
                    (
                        BuildState {
                            callers: st.callers.update(c, CallerSitesModel { cursor: (j + 1) as nat, ..e }),
                            ..st
                        },
                        e.sites[j],
                    ),
                ),
            }
        },
    }
}

// ---------------------------------------------------------------------------
// Events and edges.

/// The entry event of an executable.
pub open spec fn entry_id(symbol: Seq<char>) -> Seq<char> {
    event_id_of("symbol_entry"@, symbol)
}

/// The return event of an executable.
pub open spec fn return_id(symbol: Seq<char>) -> Seq<char> {
    event_id_of("symbol_return"@, symbol)
}

/// `path:line:column`.
pub open spec fn position_text(path: Seq<char>, line: u32, column: u32) -> Seq<char> {
    path + ":"@ + decimal_of(line as nat) + ":"@ + decimal_of(column as nat)
}

/// An event of `kind` keyed by `key`.
pub open spec fn event_of(
    kind: Seq<char>,
    key: Seq<char>,
    symbol: Seq<char>,
    module: Seq<char>,
    authority: EventAuthority,
    provenance: Seq<Seq<char>>,
    coverage: RealizationCoverage,
) -> EventModel {
    EventModel {
        id: event_id_of(kind, key),
        kind,
        responsible_symbol: Some(symbol),
        module,
        authority,
        provenance,
        coverage,
    }
}

/// Records an event unless one with its identity exists.
pub open spec fn add_event(st: BuildState, e: EventModel) -> BuildState {
    if exists|i: int| 0 <= i < st.events.len() && (#[trigger] st.events[i]).id == e.id {
        st
    } else {
        BuildState { events: st.events.push(e), ..st }
    }
}

/// Records an edge.
pub open spec fn add_edge(
    st: BuildState,
    source: Seq<char>,
    target: Seq<char>,
    coverage: RealizationCoverage,
    derivation: Seq<char>,
) -> BuildState {
    BuildState { edges: st.edges.push(EventEdgeModel { source, target, coverage, derivation }), ..st }
}

/// Records an edge from each source to `target`.
pub open spec fn edges_into(
    st: BuildState,
    sources: Seq<Seq<char>>,
    target: Seq<char>,
    coverage: RealizationCoverage,
    derivation: Seq<char>,
) -> BuildState
    decreases sources.len(),
{
    if sources.len() == 0 {
        st
    } else {
        add_edge(edges_into(st, sources.drop_last(), target, coverage, derivation), sources.last(), target, coverage, derivation)
    }
}

/// The last symbol with an identity, as in a map collected from them.
pub open spec fn symbol_of(syms: Seq<ExecutableSymbol>, id: Seq<char>) -> Option<ExecutableSymbol>
    decreases syms.len(),
{
    if syms.len() == 0 {
        None
    } else if syms.last().id@ == id {
        Some(syms.last())
    } else {
        symbol_of(syms.drop_last(), id)
    }
}

// ---------------------------------------------------------------------------
// Lowering executable bodies.

/// The key of a call site.
pub open spec fn site_key(s: SiteModel) -> Seq<char> {
    s.caller + ":"@ + s.path + ":"@ + decimal_of(s.line as nat) + ":"@ + decimal_of(s.column as nat) + ":"@
        + decimal_of(s.sequence)
}

/// Lowers a call written as `reference` after `inputs`: the next site of
/// the caller becomes a call-site and a call-return event, linked to the
/// callee's entry and return when the callee is a known symbol, directly
/// otherwise.
pub open spec fn lower_call(
    st: BuildState,
    syms: Seq<ExecutableSymbol>,
    caller: Seq<char>,
    module: Seq<char>,
    reference: Seq<char>,
    inputs: Seq<Seq<char>>,
) -> (BuildState, Seq<Seq<char>>) {
    match consume(st, caller, reference) {
        None => (st, inputs),
        Some((st1, site)) => {
            let key = site_key(site);
            let coverage = if site.resolved_static {
                RealizationCoverage::Proven
            } else {
                RealizationCoverage::Partial
            };
            let prov = seq![position_text(site.path, site.line, site.column)];
            let before = event_of("call_site"@, key + ":before"@, caller, module, EventAuthority::ProgramSemanticModel, prov, coverage);
            let after = event_of("call_return"@, key + ":after"@, caller, module, EventAuthority::ProgramSemanticModel, prov, coverage);
            let st2 = add_event(add_event(st1, before), after);
            let st3 = edges_into(st2, inputs, before.id, RealizationCoverage::Proven, "expression_order"@);
            let st4 = match site.callee {
                Some(c) => if symbol_of(syms, c) is Some {
                    add_edge(
                        add_edge(st3, before.id, entry_id(c), RealizationCoverage::Proven, "resolved_static_call"@),
                        return_id(c),
                        after.id,
                        RealizationCoverage::Partial,
                        "context_insensitive_static_return"@,
                    )
                } else {
                    add_edge(st3, before.id, after.id, RealizationCoverage::Partial, "opaque_call_continuation"@)
                },
                None => add_edge(st3, before.id, after.id, RealizationCoverage::Partial, "opaque_call_continuation"@),
            };
            (st4, seq![after.id])
        },
    }
}

/// Lowers an expression evaluated after `inputs`; the result is the events
/// after which evaluation continues.
pub open spec fn lower_expr(
    st: BuildState,
    syms: Seq<ExecutableSymbol>,
    caller: Seq<char>,
    module: Seq<char>,
    e: ProgramExpression,
    inputs: Seq<Seq<char>>,
) -> (BuildState, Seq<Seq<char>>)
    decreases e, 0int,
{
    match e {
        ProgramExpression::Call { reference, arguments } => {
            let (s1, x) = lower_exprs(st, syms, caller, module, arguments@, 0, inputs);
            lower_call(s1, syms, caller, module, reference@, x)
        },
        ProgramExpression::MethodCall { receiver, method, arguments } => {
            let (s1, x) = lower_expr(st, syms, caller, module, *receiver, inputs);
            let (s2, y) = lower_exprs(s1, syms, caller, module, arguments@, 0, x);
            lower_call(s2, syms, caller, module, method@, y)
        },
        ProgramExpression::Tuple { elements } => lower_exprs(st, syms, caller, module, elements@, 0, inputs),
        ProgramExpression::Construction { arguments } => lower_exprs(st, syms, caller, module, arguments@, 0, inputs),
        ProgramExpression::Field { base } => lower_expr(st, syms, caller, module, *base, inputs),
        ProgramExpression::PatternTest { value } => lower_expr(st, syms, caller, module, *value, inputs),
        ProgramExpression::Unary { value } => lower_expr(st, syms, caller, module, *value, inputs),
        ProgramExpression::Try { value } => lower_expr(st, syms, caller, module, *value, inputs),
        ProgramExpression::Reference { value } => lower_expr(st, syms, caller, module, *value, inputs),
        ProgramExpression::Binary { left, right } => {
            let (s1, x) = lower_expr(st, syms, caller, module, *left, inputs);
            lower_expr(s1, syms, caller, module, *right, x)
        },
        _ => (st, inputs),
    }
}

/// Lowers the expressions from the `i`-th on, in order.
pub open spec fn lower_exprs(
    st: BuildState,
    syms: Seq<ExecutableSymbol>,
    caller: Seq<char>,
    module: Seq<char>,
    es: Seq<ProgramExpression>,
    i: int,
    inputs: Seq<Seq<char>>,
) -> (BuildState, Seq<Seq<char>>)
    decreases es, es.len() - i,
{
    if 0 <= i < es.len() {
        let (s1, x) = lower_expr(st, syms, caller, module, es[i], inputs);
        lower_exprs(s1, syms, caller, module, es, i + 1, x)
    } else {
        (st, inputs)
    }
}

/// The events of a set in canonical order, each once.
pub open spec fn event_set(s: Seq<Seq<char>>) -> Seq<Seq<char>> {
    crate::order::canonical_set::<String>(s)
}

/// Lowers a statement entered after `inputs`; the result is the events
/// after which control continues.
pub open spec fn lower_stmt(
    st: BuildState,
    syms: Seq<ExecutableSymbol>,
    caller: Seq<char>,
    module: Seq<char>,
    s: ProgramStatement,
    inputs: Seq<Seq<char>>,
) -> (BuildState, Seq<Seq<char>>)
    decreases s, 0int,
{
    match s {
        ProgramStatement::Let { value } => match value {
            Some(v) => lower_expr(st, syms, caller, module, v, inputs),
            None => (st, inputs),
        },
        ProgramStatement::Assign { value } => lower_expr(st, syms, caller, module, value, inputs),
        ProgramStatement::Expression { value } => lower_expr(st, syms, caller, module, value, inputs),
        ProgramStatement::Return { value } => {
            let (s1, exits) = match value {
                Some(v) => lower_expr(st, syms, caller, module, v, inputs),
                None => (st, inputs),
            };
            (edges_into(s1, exits, return_id(caller), RealizationCoverage::Proven, "explicit_return"@), Seq::empty())
        },
        ProgramStatement::If { condition, then_branch, else_branch, provenance } => {
            let (s1, ce) = lower_expr(st, syms, caller, module, condition, inputs);
            let branch = event_of(
                "control_decision"@,
                caller + ":"@ + position_text(provenance.path@, provenance.line, provenance.column),
                caller,
                module,
                EventAuthority::ProgramSemanticModel,
                seq![provenance.path@],
                RealizationCoverage::Proven,
            );
            let s2 = edges_into(add_event(s1, branch), ce, branch.id, RealizationCoverage::Proven, "if_condition"@);
            let (s3, o1) = lower_block(s2, syms, caller, module, then_branch@, 0, seq![branch.id]);
            let (s4, o2) = lower_block(s3, syms, caller, module, else_branch@, 0, seq![branch.id]);
            (s4, event_set(o1 + o2))
        },
        ProgramStatement::Match { value, arms, provenance } => {
            let (s1, ve) = lower_expr(st, syms, caller, module, value, inputs);
            let decision = event_of(
                "control_decision"@,
                caller + ":"@ + provenance.path@ + ":"@ + decimal_of(provenance.line as nat) + ":match"@,
                caller,
                module,
                EventAuthority::ProgramSemanticModel,
                seq![provenance.path@],
                RealizationCoverage::Proven,
            );
            let s2 = edges_into(add_event(s1, decision), ve, decision.id, RealizationCoverage::Proven, "match_scrutinee"@);
            let (s3, outs) = lower_arms(s2, syms, caller, module, arms@, 0, decision.id);
            (s3, event_set(outs))
        },
        ProgramStatement::WhileLet { value, body, provenance } => {
            let head = event_of(
                "control_loop"@,
                caller + ":"@ + position_text(provenance.path@, provenance.line, provenance.column),
                caller,
                module,
                EventAuthority::ProgramSemanticModel,
                seq![provenance.path@],
                RealizationCoverage::Proven,
            );
            let s1 = edges_into(add_event(st, head), inputs, head.id, RealizationCoverage::Proven, "loop_entry"@);
            let (s2, cond) = lower_expr(s1, syms, caller, module, value, seq![head.id]);
            let (s3, exits) = lower_block(s2, syms, caller, module, body@, 0, cond);
            (edges_into(s3, exits, head.id, RealizationCoverage::Proven, "loop_back_edge"@), cond)
        },
    }
}

/// Lowers the statements from the `i`-th on, in order.
pub open spec fn lower_block(
    st: BuildState,
    syms: Seq<ExecutableSymbol>,
    caller: Seq<char>,
    module: Seq<char>,
    ss: Seq<ProgramStatement>,
    i: int,
    inputs: Seq<Seq<char>>,
) -> (BuildState, Seq<Seq<char>>)
    decreases ss, ss.len() - i,
{
    if 0 <= i < ss.len() {
        let (s1, x) = lower_stmt(st, syms, caller, module, ss[i], inputs);
        lower_block(s1, syms, caller, module, ss, i + 1, x)
    } else {
        (st, inputs)
    }
}

/// Lowers the arms from the `i`-th on after `decision`; the result is the
/// exits of the arms, in order.
pub open spec fn lower_arms(
    st: BuildState,
    syms: Seq<ExecutableSymbol>,
    caller: Seq<char>,
    module: Seq<char>,
    arms: Seq<ProgramMatchArm>,
    i: int,
    decision: Seq<char>,
) -> (BuildState, Seq<Seq<char>>)
    decreases arms, arms.len() - i,
{
    if 0 <= i < arms.len() {
        let (s1, entry) = match arms[i].guard {
            Some(g) => lower_expr(st, syms, caller, module, g, seq![decision]),
            None => (st, seq![decision]),
        };
        let (s2, o) = lower_block(s1, syms, caller, module, arms[i].body@, 0, entry);
        let (s3, rest) = lower_arms(s2, syms, caller, module, arms, i + 1, decision);
        (s3, o + rest)
    } else {
        (st, Seq::empty())
    }
}


// ---------------------------------------------------------------------------
// The derivation, step by step.

/// Entry and return events of the symbols.
pub open spec fn symbol_events(st: BuildState, syms: Seq<ExecutableSymbol>) -> BuildState
    decreases syms.len(),
{
    if syms.len() == 0 {
        st
    } else {
        let s = syms.last();
        let prov = seq![position_text(s.provenance.path@, s.provenance.line, s.provenance.column)];
        let st1 = symbol_events(st, syms.drop_last());
        add_event(
            add_event(st1, event_of("symbol_entry"@, s.id@, s.id@, s.fortress_module@, EventAuthority::ProgramSemanticModel, prov, RealizationCoverage::Proven)),
            event_of("symbol_return"@, s.id@, s.id@, s.fortress_module@, EventAuthority::ProgramSemanticModel, prov, RealizationCoverage::Proven),
        )
    }
}

/// The text of a Boolean.
pub open spec fn bool_text(b: bool) -> Seq<char> {
    if b {
        "true"@
    } else {
        "false"@
    }
}

/// The Boolean return refinements of one symbol.
pub open spec fn boolean_events(st: BuildState, syms: Seq<ExecutableSymbol>, symbol: Seq<char>, values: Seq<bool>) -> BuildState
    decreases values.len(),
{
    if values.len() == 0 {
        st
    } else {
        let st1 = boolean_events(st, syms, symbol, values.drop_last());
        let (module, prov) = match symbol_of(syms, symbol) {
            Some(s) => (s.fortress_module@, seq![s.source_path@]),
            None => (Seq::<char>::empty(), Seq::<Seq<char>>::empty()),
        };
        let e = event_of(
            "symbol_return_boolean"@,
            symbol + ":"@ + bool_text(values.last()),
            symbol,
            module,
            EventAuthority::ProgramSemanticModel,
            prov,
            RealizationCoverage::Proven,
        );
        add_edge(add_event(st1, e), return_id(symbol), e.id, RealizationCoverage::Proven, "boolean_return_domain"@)
    }
}

/// The Boolean return refinements of the semantic summaries.
pub open spec fn semantic_events(st: BuildState, syms: Seq<ExecutableSymbol>, sums: Seq<SemanticSummary>) -> BuildState
    decreases sums.len(),
{
    if sums.len() == 0 {
        st
    } else {
        let st1 = semantic_events(st, syms, sums.drop_last());
        match sums.last().boolean_output {
            Some(values) => boolean_events(st1, syms, sums.last().symbol@, values@),
            None => st1,
        }
    }
}

/// The resolved callees of sites, in order.
pub open spec fn resolved_callees(sites: Seq<SiteModel>) -> Seq<Seq<char>>
    decreases sites.len(),
{
    if sites.len() == 0 {
        Seq::empty()
    } else {
        resolved_callees(sites.drop_last()) + match sites.last().callee {
            Some(c) => seq![c],
            None => Seq::empty(),
        }
    }
}

/// Edges from the return of each resolved callee to the entry of the next.
pub open spec fn sequence_edges(st: BuildState, callees: Seq<Seq<char>>) -> BuildState
    decreases callees.len(),
{
    if callees.len() < 2 {
        st
    } else {
        let n = callees.len();
        add_edge(
            sequence_edges(st, callees.drop_last()),
            return_id(callees[n - 2]),
            entry_id(callees[n - 1]),
            RealizationCoverage::Partial,
            "lexical_call_order_fallback"@,
        )
    }
}

/// The lexical call-order fallback of one caller: its entry precedes its
/// first resolved callee, each callee precedes the next, and the last
/// precedes its return.
pub open spec fn caller_fallback(st: BuildState, caller: Seq<char>, callees: Seq<Seq<char>>) -> BuildState {
    if callees.len() == 0 {
        st
    } else {
        let st1 = add_edge(st, entry_id(caller), entry_id(callees[0]), RealizationCoverage::Partial, "lexical_call_order_fallback"@);
        add_edge(
            sequence_edges(st1, callees),
            return_id(callees.last()),
            return_id(caller),
            RealizationCoverage::Partial,
            "lexical_call_order_fallback"@,
        )
    }
}

/// The lexical call-order fallbacks of the callers.
pub open spec fn fallback_edges(st: BuildState, table: Seq<CallerSitesModel>) -> BuildState
    decreases table.len(),
{
    if table.len() == 0 {
        st
    } else {
        caller_fallback(fallback_edges(st, table.drop_last()), table.last().caller, resolved_callees(table.last().sites))
    }
}

/// The lowering of the bodies of known symbols, each exit returning.
pub open spec fn body_events(st: BuildState, syms: Seq<ExecutableSymbol>, bodies: Seq<ProgramBody>) -> BuildState
    decreases bodies.len(),
{
    if bodies.len() == 0 {
        st
    } else {
        let st1 = body_events(st, syms, bodies.drop_last());
        let b = bodies.last();
        match symbol_of(syms, b.symbol@) {
            None => st1,
            Some(sym) => {
                let (st2, exits) = lower_block(st1, syms, b.symbol@, sym.fortress_module@, b.statements@, 0, seq![entry_id(b.symbol@)]);
                edges_into(st2, exits, return_id(b.symbol@), RealizationCoverage::Proven, "normal_return"@)
            },
        }
    }
}

/// Some body belongs to the symbol.
pub open spec fn has_body(bodies: Seq<ProgramBody>, id: Seq<char>) -> bool {
    exists|k: int| 0 <= k < bodies.len() && (#[trigger] bodies[k]).symbol@ == id
}

/// An opaque return of each symbol without a body.
pub open spec fn opaque_edges(st: BuildState, syms: Seq<ExecutableSymbol>, bodies: Seq<ProgramBody>) -> BuildState
    decreases syms.len(),
{
    if syms.len() == 0 {
        st
    } else {
        let st1 = opaque_edges(st, syms.drop_last(), bodies);
        let id = syms.last().id@;
        if has_body(bodies, id) {
            st1
        } else {
            add_edge(st1, entry_id(id), return_id(id), RealizationCoverage::Partial, "opaque_declaration_return"@)
        }
    }
}

/// An event between a symbol's entry and return.
pub open spec fn bracketed(st: BuildState, symbol: Seq<char>, e: EventModel, into: Seq<char>, out: Seq<char>) -> BuildState {
    add_edge(
        add_edge(add_event(st, e), entry_id(symbol), e.id, RealizationCoverage::Proven, into),
        e.id,
        return_id(symbol),
        RealizationCoverage::Proven,
        out,
    )
}

/// The direct effects of a summary.
pub open spec fn effect_events(st: BuildState, sym: ExecutableSymbol, symbol: Seq<char>, effects: Seq<String>) -> BuildState
    decreases effects.len(),
{
    if effects.len() == 0 {
        st
    } else {
        let e = EventModel {
            id: event_id_of("effect"@, symbol + ":"@ + effects.last()@),
            kind: "effect"@,
            responsible_symbol: Some(symbol),
            module: sym.fortress_module@,
            authority: EventAuthority::StateEffectAnalysis,
            provenance: seq![sym.source_path@],
            coverage: RealizationCoverage::Proven,
        };
        bracketed(effect_events(st, sym, symbol, effects.drop_last()), symbol, e, "direct_effect"@, "effect_completion"@)
    }
}

/// The state transition and effects of one State/Effect summary.
pub open spec fn summary_events(st: BuildState, sym: ExecutableSymbol, s: StateEffectSummary) -> BuildState {
    let symbol = s.symbol@;
    let st1 = match (s.input_receiver_state, s.output_receiver_state) {
        (Some(from), Some(to)) => {
            let e = EventModel {
                id: event_id_of("state_transition"@, symbol + ":"@ + from@ + ":"@ + to@),
                kind: "state_transition"@,
                responsible_symbol: Some(symbol),
                module: sym.fortress_module@,
                authority: EventAuthority::StateEffectAnalysis,
                provenance: seq![sym.source_path@],
                coverage: s.state_postcondition_coverage,
            };
            bracketed(st, symbol, e, "state_summary_input"@, "state_summary_output"@)
        },
        _ => st,
    };
    effect_events(st1, sym, symbol, s.direct_effects@)
}

/// The events of the State/Effect summaries of known symbols.
pub open spec fn state_effect_events(st: BuildState, syms: Seq<ExecutableSymbol>, sums: Seq<StateEffectSummary>) -> BuildState
    decreases sums.len(),
{
    if sums.len() == 0 {
        st
    } else {
        let st1 = state_effect_events(st, syms, sums.drop_last());
        match symbol_of(syms, sums.last().symbol@) {
            None => st1,
            Some(sym) => summary_events(st1, sym, sums.last()),
        }
    }
}

/// The events of the trusted transitions of known symbols.
pub open spec fn information_events(st: BuildState, syms: Seq<ExecutableSymbol>, ds: Seq<TrustedTransitionDiagnostic>) -> BuildState
    decreases ds.len(),
{
    if ds.len() == 0 {
        st
    } else {
        let st1 = information_events(st, syms, ds.drop_last());
        let d = ds.last();
        match symbol_of(syms, d.symbol@) {
            None => st1,
            Some(sym) => {
                let e = EventModel {
                    id: event_id_of(
                        "information_transition"@,
                        d.symbol@ + ":"@ + d.kind@ + ":"@ + d.facet@ + ":"@ + d.from@ + ":"@ + d.to@,
                    ),
                    kind: "information_transition"@,
                    responsible_symbol: Some(d.symbol@),
                    module: sym.fortress_module@,
                    authority: EventAuthority::InformationFlowAnalysis,
                    provenance: seq![d.contract_provenance@],
                    coverage: RealizationCoverage::Proven,
                };
                bracketed(st1, d.symbol@, e, "trusted_transition"@, "trusted_transition_completion"@)
            },
        }
    }
}

/// The coverage of an outcome's handling.
pub open spec fn handling_coverage(h: HandlingStatus) -> RealizationCoverage {
    match h {
        HandlingStatus::Handled => RealizationCoverage::Proven,
        HandlingStatus::PartiallyHandled => RealizationCoverage::Partial,
        HandlingStatus::Unknown => RealizationCoverage::Unknown,
        HandlingStatus::Unhandled => RealizationCoverage::Unknown,
        HandlingStatus::Unsupported => RealizationCoverage::Unsupported,
    }
}

/// The outcome events of one operation at a known boundary.
pub open spec fn outcome_events(st: BuildState, sym: ExecutableSymbol, op: EnvironmentOperation, outs: Seq<EnvironmentOutcome>) -> BuildState
    decreases outs.len(),
{
    if outs.len() == 0 {
        st
    } else {
        let st1 = outcome_events(st, sym, op, outs.drop_last());
        let o = outs.last();
        let coverage = handling_coverage(o.handling);
        let e = EventModel {
            id: event_id_of("environment_outcome"@, op.operation@ + ":"@ + o.id@),
            kind: "environment_outcome"@,
            responsible_symbol: Some(op.boundary@),
            module: sym.fortress_module@,
            authority: EventAuthority::EnvironmentalAnalysis,
            provenance: seq![o.provenance@],
            coverage,
        };
        let target = match o.continuation {
            Some(c) => entry_id(c@),
            None => return_id(op.boundary@),
        };
        add_edge(
            add_edge(add_event(st1, e), entry_id(op.boundary@), e.id, RealizationCoverage::Proven, "admissible_environment_outcome"@),
            e.id,
            target,
            coverage,
            "environment_outcome_continuation"@,
        )
    }
}

/// The outcome events of the operations at known boundaries.
pub open spec fn environment_events(st: BuildState, syms: Seq<ExecutableSymbol>, ops: Seq<EnvironmentOperation>) -> BuildState
    decreases ops.len(),
{
    if ops.len() == 0 {
        st
    } else {
        let st1 = environment_events(st, syms, ops.drop_last());
        match symbol_of(syms, ops.last().boundary@) {
            None => st1,
            Some(sym) => outcome_events(st1, sym, ops.last(), ops.last().outcomes@),
        }
    }
}

/// Every event and edge derived from the semantic models, in derivation
/// order.
pub open spec fn derivation_of(
    psm: ProgramSemanticModel,
    semantic: Seq<SemanticSummary>,
    state_effect: Seq<StateEffectSummary>,
    information_flow: Seq<TrustedTransitionDiagnostic>,
    environmental: Seq<EnvironmentOperation>,
) -> BuildState {
    let syms = psm.symbols@;
    let table = site_table(psm.calls@);
    let st0 = BuildState { events: Seq::empty(), edges: Seq::empty(), callers: table };
    let st1 = semantic_events(symbol_events(st0, syms), syms, semantic);
    let st2 = fallback_edges(st1, table);
    let st3 = opaque_edges(body_events(st2, syms, psm.bodies@), syms, psm.bodies@);
    environment_events(
        information_events(state_effect_events(st3, syms, state_effect), syms, information_flow),
        syms,
        environmental,
    )
}


// ---------------------------------------------------------------------------
// The builder.

struct CallSite {
    caller: String,
    callee: Option<String>,
    resolved_static: bool,
    reference: String,
    path: String,
    line: u32,
    column: u32,
    sequence: usize,
}

impl View for CallSite {
    type V = SiteModel;

    closed spec fn view(&self) -> SiteModel {
        SiteModel {
            caller: self.caller@,
            callee: optional_view(self.callee),
            resolved_static: self.resolved_static,
            reference: self.reference@,
            path: self.path@,
            line: self.line,
            column: self.column,
            sequence: self.sequence as nat,
        }
    }
}

impl CallSite {
    fn duplicate(&self) -> (r: Self)
        ensures
            r@ == self@,
    {
        CallSite {
            caller: copy_text(self.caller.as_str()),
            callee: match &self.callee {
                Some(c) => Some(copy_text(c.as_str())),
                None => None,
            },
            resolved_static: self.resolved_static,
            reference: copy_text(self.reference.as_str()),
            path: copy_text(self.path.as_str()),
            line: self.line,
            column: self.column,
            sequence: self.sequence,
        }
    }
}

struct CallerSites {
    caller: String,
    sites: Vec<CallSite>,
    cursor: usize,
}

impl View for CallerSites {
    type V = CallerSitesModel;

    closed spec fn view(&self) -> CallerSitesModel {
        CallerSitesModel { caller: self.caller@, sites: views(self.sites@), cursor: self.cursor as nat }
    }
}

struct Builder {
    events: Vec<ImplementationEvent>,
    edges: Vec<ImplementationEventEdge>,
    callers: Vec<CallerSites>,
}

impl View for Builder {
    type V = BuildState;

    closed spec fn view(&self) -> BuildState {
        BuildState { events: views(self.events@), edges: views(self.edges@), callers: views(self.callers@) }
    }
}

fn add_event_exec(
    b: &mut Builder,
    kind: &str,
    key: &str,
    symbol: &str,
    module: &str,
    authority: EventAuthority,
    provenance: Vec<String>,
    coverage: RealizationCoverage,
) -> (id: String)
    ensures
        final(b)@ == add_event(old(b)@, event_of(kind@, key@, symbol@, module@, authority, texts(provenance@), coverage)),
        id@ == event_id_of(kind@, key@),
{
    let id = event_id(kind, key);
    let ghost e = event_of(kind@, key@, symbol@, module@, authority, texts(provenance@), coverage);
    let ghost ev = views(b.events@);
    let mut k: usize = 0;
    while k < b.events.len()
        invariant
            k <= b.events@.len(),
            ev == views(b.events@),
            b@ == old(b)@,
            id@ == event_id_of(kind@, key@),
            e == event_of(kind@, key@, symbol@, module@, authority, texts(provenance@), coverage),
            forall|i: int| 0 <= i < k ==> (#[trigger] ev[i]).id != e.id,
        decreases b.events.len() - k,
    {
        assert(ev[k as int] == b.events@[k as int]@);
        if text_eq(b.events[k].id(), id.as_str()) {
            return id;
        }
        k = k + 1;
    }
    let event = ImplementationEvent::new(
        copy_text(id.as_str()),
        EventSubject { kind: copy_text(kind), responsible_symbol: Some(copy_text(symbol)), module: copy_text(module) },
        authority,
        provenance,
        coverage,
    );
    let ghost before = b.events@;
    b.events.push(event);
    proof {
        crate::order::lemma_views_push_seq(before, event);
        assert(views(b.events@) =~= ev.push(e));
    }
    id
}

fn add_edge_exec(b: &mut Builder, source: &str, target: &str, coverage: RealizationCoverage, derivation: &str)
    ensures
        final(b)@ == add_edge(old(b)@, source@, target@, coverage, derivation@),
{
    let e = ImplementationEventEdge::new(copy_text(source), copy_text(target), coverage, copy_text(derivation));
    let ghost before = b.edges@;
    b.edges.push(e);
    proof {
        crate::order::lemma_views_push_seq(before, e);
        assert(views(b.edges@) =~= views(before).push(e@));
    }
}

fn edges_into_exec(b: &mut Builder, sources: &Vec<String>, target: &str, coverage: RealizationCoverage, derivation: &str)
    ensures
        final(b)@ == edges_into(old(b)@, texts(sources@), target@, coverage, derivation@),
{
    let ghost sv = texts(sources@);
    let mut k: usize = 0;
    assert(sv.take(0) =~= Seq::<Seq<char>>::empty());
    while k < sources.len()
        invariant
            k <= sources@.len(),
            sv == texts(sources@),
            b@ == edges_into(old(b)@, sv.take(k as int), target@, coverage, derivation@),
        decreases sources.len() - k,
    {
        assert(sv.take(k + 1).drop_last() =~= sv.take(k as int));
        assert(sv.take(k + 1).last() == sources@[k as int]@);
        add_edge_exec(b, sources[k].as_str(), target, coverage, derivation);
        k = k + 1;
    }
    assert(sv.take(sources@.len() as int) =~= sv);
}

fn position_text_exec(path: &str, line: u32, column: u32) -> (r: String)
    ensures
        r@ == position_text(path@, line, column),
{
    let a = concat(path, ":");
    let l = decimal(line as u64);
    let a = concat(a.as_str(), l.as_str());
    let a = concat(a.as_str(), ":");
    let c = decimal(column as u64);
    concat(a.as_str(), c.as_str())
}

fn caller_position(callers: &Vec<CallerSites>, caller: &str) -> (r: Option<usize>)
    ensures
        match caller_index(views(callers@), caller@) {
            Some(c) => 0 <= c < callers@.len() && (r matches Some(k) && k as int == c),
            None => r is None,
        },
{
    let ghost cv = views(callers@);
    let mut k: usize = callers.len();
    assert(cv.take(k as int) =~= cv);
    while k > 0
        invariant
            k <= callers@.len(),
            cv == views(callers@),
            caller_index(cv, caller@) == caller_index(cv.take(k as int), caller@),
        decreases k,
    {
        assert(cv.take(k as int).last() == callers@[k - 1]@);
        if text_eq(callers[k - 1].caller.as_str(), caller) {
            return Some(k - 1);
        }
        assert(cv.take(k as int).drop_last() =~= cv.take(k - 1));
        k = k - 1;
    }
    None
}

fn reference_matches_exec(site_reference: &str, reference: &str) -> (r: bool)
    ensures
        r == reference_matches(site_reference@, reference@),
{
    let qualified = concat("::", reference);
    text_eq(site_reference, reference) || ends_with(site_reference, qualified.as_str()) || ends_with(
        reference,
        site_reference,
    )
}

fn match_from_exec(sites: &Vec<CallSite>, reference: &str, start: usize) -> (r: Option<usize>)
    ensures
        match match_from(views(sites@), reference@, start as int) {
            Some(j) => 0 <= j < sites@.len() && (r matches Some(k) && k as int == j),
            None => r is None,
        },
{
    let ghost sv = views(sites@);
    let mut j: usize = start;
    while j < sites.len()
        invariant
            start <= j,
            sv == views(sites@),
            match_from(sv, reference@, start as int) == match_from(sv, reference@, j as int),
        decreases sites.len() - j,
    {
        assert(sv[j as int] == sites@[j as int]@);
        if reference_matches_exec(sites[j].reference.as_str(), reference) {
            return Some(j);
        }
        j = j + 1;
    }
    None
}

fn consume_exec(b: &mut Builder, caller: &str, reference: &str) -> (r: Option<CallSite>)
    ensures
        match consume(old(b)@, caller@, reference@) {
            None => r is None && final(b)@ == old(b)@,
            Some((st, site)) => r matches Some(x) && x@ == site && final(b)@ == st,
        },
{
    let pos = caller_position(&b.callers, caller);
    let c = match pos {
        None => {
            return None;
        },
        Some(c) => c,
    };
    let ghost e = b@.callers[c as int];
    assert(e == b.callers@[c as int]@);
    assert(views(b.callers@[c as int].sites@) == e.sites);
    let cursor = b.callers[c].cursor;
    let n = b.callers[c].sites.len();
    assert(n == e.sites.len());
    let found = match_from_exec(&b.callers[c].sites, reference, cursor);
    let index = match found {
        Some(j) => j,
        None => {
            if cursor < n {
                cursor
            } else {
                return None;
            }
        },
    };
    let site = b.callers[c].sites[index].duplicate();
    assert(site@ == e.sites[index as int]);
    let ghost before = b.callers@;
    let mut entry = b.callers.remove(c);
    entry.cursor = index + 1;
    b.callers.insert(c, entry);
    proof {
        assert(views(b.callers@) =~= views(before).update(c as int, CallerSitesModel { cursor: (index + 1) as nat, ..e }));
    }
    Some(site)
}


fn symbol_position(syms: &Vec<ExecutableSymbol>, id: &str) -> (r: Option<usize>)
    ensures
        match symbol_of(syms@, id@) {
            Some(s) => r matches Some(k) && k < syms@.len() && syms@[k as int] == s,
            None => r is None,
        },
{
    let mut k: usize = syms.len();
    assert(syms@.take(k as int) =~= syms@);
    while k > 0
        invariant
            k <= syms@.len(),
            symbol_of(syms@, id@) == symbol_of(syms@.take(k as int), id@),
        decreases k,
    {
        assert(syms@.take(k as int).last() == syms@[k - 1]);
        if text_eq(syms[k - 1].id.as_str(), id) {
            return Some(k - 1);
        }
        assert(syms@.take(k as int).drop_last() =~= syms@.take(k - 1));
        k = k - 1;
    }
    None
}

fn site_key_exec(site: &CallSite) -> (r: String)
    ensures
        r@ == site_key(site@),
{
    let a = concat(site.caller.as_str(), ":");
    let a = concat(a.as_str(), site.path.as_str());
    let a = concat(a.as_str(), ":");
    let n = decimal(site.line as u64);
    let a = concat(a.as_str(), n.as_str());
    let a = concat(a.as_str(), ":");
    let n = decimal(site.column as u64);
    let a = concat(a.as_str(), n.as_str());
    let a = concat(a.as_str(), ":");
    let n = decimal(site.sequence as u64);
    concat(a.as_str(), n.as_str())
}

fn single_text(s: String) -> (r: Vec<String>)
    ensures
        texts(r@) == seq![s@],
{
    let mut r: Vec<String> = Vec::new();
    r.push(s);
    assert(texts(r@) =~= seq![s@]);
    r
}

fn lower_call_exec(
    b: &mut Builder,
    syms: &Vec<ExecutableSymbol>,
    caller: &str,
    module: &str,
    reference: &str,
    inputs: Vec<String>,
) -> (r: Vec<String>)
    ensures
        (final(b)@, texts(r@)) == lower_call(old(b)@, syms@, caller@, module@, reference@, texts(inputs@)),
{
    let site = match consume_exec(b, caller, reference) {
        None => {
            return inputs;
        },
        Some(s) => s,
    };
    let key = site_key_exec(&site);
    let coverage = if site.resolved_static {
        RealizationCoverage::Proven
    } else {
        RealizationCoverage::Partial
    };
    let place = position_text_exec(site.path.as_str(), site.line, site.column);
    let key_before = concat(key.as_str(), ":before");
    let key_after = concat(key.as_str(), ":after");
    let before = add_event_exec(
        b,
        "call_site",
        key_before.as_str(),
        caller,
        module,
        EventAuthority::ProgramSemanticModel,
        single_text(copy_text(place.as_str())),
        coverage,
    );
    let after = add_event_exec(
        b,
        "call_return",
        key_after.as_str(),
        caller,
        module,
        EventAuthority::ProgramSemanticModel,
        single_text(place),
        coverage,
    );
    edges_into_exec(b, &inputs, before.as_str(), RealizationCoverage::Proven, "expression_order");
    let known = match &site.callee {
        Some(c) => symbol_position(syms, c.as_str()).is_some(),
        None => false,
    };
    if known {
        let c = site.callee.unwrap();
        let entry = event_id("symbol_entry", c.as_str());
        let ret = event_id("symbol_return", c.as_str());
        add_edge_exec(b, before.as_str(), entry.as_str(), RealizationCoverage::Proven, "resolved_static_call");
        add_edge_exec(b, ret.as_str(), after.as_str(), RealizationCoverage::Partial, "context_insensitive_static_return");
    } else {
        add_edge_exec(b, before.as_str(), after.as_str(), RealizationCoverage::Partial, "opaque_call_continuation");
    }
    single_text(after)
}

fn lower_expr_exec(
    b: &mut Builder,
    syms: &Vec<ExecutableSymbol>,
    caller: &str,
    module: &str,
    e: &ProgramExpression,
    inputs: Vec<String>,
) -> (r: Vec<String>)
    ensures
        (final(b)@, texts(r@)) == lower_expr(old(b)@, syms@, caller@, module@, *e, texts(inputs@)),
    decreases *e, 0int,
{
    match e {
        ProgramExpression::Call { reference, arguments } => {
            let x = lower_exprs_exec(b, syms, caller, module, arguments, inputs);
            lower_call_exec(b, syms, caller, module, reference.as_str(), x)
        },
        ProgramExpression::MethodCall { receiver, method, arguments } => {
            let x = lower_expr_exec(b, syms, caller, module, &**receiver, inputs);
            let y = lower_exprs_exec(b, syms, caller, module, arguments, x);
            lower_call_exec(b, syms, caller, module, method.as_str(), y)
        },
        ProgramExpression::Tuple { elements } => lower_exprs_exec(b, syms, caller, module, elements, inputs),
        ProgramExpression::Construction { arguments } => lower_exprs_exec(b, syms, caller, module, arguments, inputs),
        ProgramExpression::Field { base } => lower_expr_exec(b, syms, caller, module, &**base, inputs),
        ProgramExpression::PatternTest { value } => lower_expr_exec(b, syms, caller, module, &**value, inputs),
        ProgramExpression::Unary { value } => lower_expr_exec(b, syms, caller, module, &**value, inputs),
        ProgramExpression::Try { value } => lower_expr_exec(b, syms, caller, module, &**value, inputs),
        ProgramExpression::Reference { value } => lower_expr_exec(b, syms, caller, module, &**value, inputs),
        ProgramExpression::Binary { left, right } => {
            let x = lower_expr_exec(b, syms, caller, module, &**left, inputs);
            lower_expr_exec(b, syms, caller, module, &**right, x)
        },
        _ => inputs,
    }
}

fn lower_exprs_exec(
    b: &mut Builder,
    syms: &Vec<ExecutableSymbol>,
    caller: &str,
    module: &str,
    es: &Vec<ProgramExpression>,
    inputs: Vec<String>,
) -> (r: Vec<String>)
    ensures
        (final(b)@, texts(r@)) == lower_exprs(old(b)@, syms@, caller@, module@, es@, 0, texts(inputs@)),
    decreases es@, 1int,
{
    let mut cur = inputs;
    let mut i: usize = 0;
    while i < es.len()
        invariant
            i <= es@.len(),
            lower_exprs(old(b)@, syms@, caller@, module@, es@, 0, texts(inputs@)) == lower_exprs(
                b@,
                syms@,
                caller@,
                module@,
                es@,
                i as int,
                texts(cur@),
            ),
        decreases es.len() - i,
    {
        cur = lower_expr_exec(b, syms, caller, module, &es[i], cur);
        i = i + 1;
    }
    cur
}

fn join_outputs(a: Vec<String>, c: Vec<String>) -> (r: Vec<String>)
    ensures
        texts(r@) == event_set(texts(a@) + texts(c@)),
{
    let mut x = a;
    let mut y = c;
    let ghost ta = texts(x@);
    let ghost tc = texts(y@);
    x.append(&mut y);
    assert(texts(x@) =~= ta + tc);
    let out = crate::order::canonical_set_exec(x);
    assert(views(out@) =~= texts(out@));
    assert(views(x@) =~= texts(x@));
    out
}

fn lower_stmt_exec(
    b: &mut Builder,
    syms: &Vec<ExecutableSymbol>,
    caller: &str,
    module: &str,
    s: &ProgramStatement,
    inputs: Vec<String>,
) -> (r: Vec<String>)
    ensures
        (final(b)@, texts(r@)) == lower_stmt(old(b)@, syms@, caller@, module@, *s, texts(inputs@)),
    decreases *s, 0int,
{
    match s {
        ProgramStatement::Let { value } => match value {
            Some(v) => lower_expr_exec(b, syms, caller, module, v, inputs),
            None => inputs,
        },
        ProgramStatement::Assign { value } => lower_expr_exec(b, syms, caller, module, value, inputs),
        ProgramStatement::Expression { value } => lower_expr_exec(b, syms, caller, module, value, inputs),
        ProgramStatement::Return { value } => {
            let exits = match value {
                Some(v) => lower_expr_exec(b, syms, caller, module, v, inputs),
                None => inputs,
            };
            let ret = event_id("symbol_return", caller);
            edges_into_exec(b, &exits, ret.as_str(), RealizationCoverage::Proven, "explicit_return");
            let out: Vec<String> = Vec::new();
            assert(texts(out@) =~= Seq::<Seq<char>>::empty());
            out
        },
        ProgramStatement::If { condition, then_branch, else_branch, provenance } => {
            let ce = lower_expr_exec(b, syms, caller, module, condition, inputs);
            let place = position_text_exec(provenance.path.as_str(), provenance.line, provenance.column);
            let key = concat(caller, ":");
            let key = concat(key.as_str(), place.as_str());
            let branch = add_event_exec(
                b,
                "control_decision",
                key.as_str(),
                caller,
                module,
                EventAuthority::ProgramSemanticModel,
                single_text(copy_text(provenance.path.as_str())),
                RealizationCoverage::Proven,
            );
            edges_into_exec(b, &ce, branch.as_str(), RealizationCoverage::Proven, "if_condition");
            let o1 = lower_block_exec(b, syms, caller, module, then_branch, single_text(copy_text(branch.as_str())));
            let o2 = lower_block_exec(b, syms, caller, module, else_branch, single_text(branch));
            join_outputs(o1, o2)
        },
        ProgramStatement::Match { value, arms, provenance } => {
            let ve = lower_expr_exec(b, syms, caller, module, value, inputs);
            let key = concat(caller, ":");
            let key = concat(key.as_str(), provenance.path.as_str());
            let key = concat(key.as_str(), ":");
            let n = decimal(provenance.line as u64);
            let key = concat(key.as_str(), n.as_str());
            let key = concat(key.as_str(), ":match");
            let decision = add_event_exec(
                b,
                "control_decision",
                key.as_str(),
                caller,
                module,
                EventAuthority::ProgramSemanticModel,
                single_text(copy_text(provenance.path.as_str())),
                RealizationCoverage::Proven,
            );
            edges_into_exec(b, &ve, decision.as_str(), RealizationCoverage::Proven, "match_scrutinee");
            let outs = lower_arms_exec(b, syms, caller, module, arms, decision.as_str());
            let none: Vec<String> = Vec::new();
            assert(texts(outs@) + texts(none@) =~= texts(outs@));
            join_outputs(outs, none)
        },
        ProgramStatement::WhileLet { value, body, provenance } => {
            let place = position_text_exec(provenance.path.as_str(), provenance.line, provenance.column);
            let key = concat(caller, ":");
            let key = concat(key.as_str(), place.as_str());
            let head = add_event_exec(
                b,
                "control_loop",
                key.as_str(),
                caller,
                module,
                EventAuthority::ProgramSemanticModel,
                single_text(copy_text(provenance.path.as_str())),
                RealizationCoverage::Proven,
            );
            edges_into_exec(b, &inputs, head.as_str(), RealizationCoverage::Proven, "loop_entry");
            let cond = lower_expr_exec(b, syms, caller, module, value, single_text(copy_text(head.as_str())));
            let exits = lower_block_exec(b, syms, caller, module, body, crate::text::copy_texts(cond.as_slice()));
            edges_into_exec(b, &exits, head.as_str(), RealizationCoverage::Proven, "loop_back_edge");
            cond
        },
    }
}

fn lower_block_exec(
    b: &mut Builder,
    syms: &Vec<ExecutableSymbol>,
    caller: &str,
    module: &str,
    ss: &Vec<ProgramStatement>,
    inputs: Vec<String>,
) -> (r: Vec<String>)
    ensures
        (final(b)@, texts(r@)) == lower_block(old(b)@, syms@, caller@, module@, ss@, 0, texts(inputs@)),
    decreases ss@, 1int,
{
    let mut cur = inputs;
    let mut i: usize = 0;
    while i < ss.len()
        invariant
            i <= ss@.len(),
            lower_block(old(b)@, syms@, caller@, module@, ss@, 0, texts(inputs@)) == lower_block(
                b@,
                syms@,
                caller@,
                module@,
                ss@,
                i as int,
                texts(cur@),
            ),
        decreases ss.len() - i,
    {
        cur = lower_stmt_exec(b, syms, caller, module, &ss[i], cur);
        i = i + 1;
    }
    cur
}

fn lower_arms_exec(
    b: &mut Builder,
    syms: &Vec<ExecutableSymbol>,
    caller: &str,
    module: &str,
    arms: &Vec<ProgramMatchArm>,
    decision: &str,
) -> (r: Vec<String>)
    ensures
        (final(b)@, texts(r@)) == lower_arms(old(b)@, syms@, caller@, module@, arms@, 0, decision@),
    decreases arms@, 1int,
{
    let mut outs: Vec<String> = Vec::new();
    let mut i: usize = 0;
    assert(texts(outs@) =~= Seq::<Seq<char>>::empty());
    while i < arms.len()
        invariant
            i <= arms@.len(),
            ({
                let (fs, fo) = lower_arms(old(b)@, syms@, caller@, module@, arms@, 0, decision@);
                let (cs, co) = lower_arms(b@, syms@, caller@, module@, arms@, i as int, decision@);
                fs == cs && fo == texts(outs@) + co
            }),
        decreases arms.len() - i,
    {
        let arm = &arms[i];
        let entry = match &arm.guard {
            Some(g) => lower_expr_exec(b, syms, caller, module, g, single_text(copy_text(decision))),
            None => single_text(copy_text(decision)),
        };
        let o = lower_block_exec(b, syms, caller, module, &arm.body, entry);
        let ghost before = texts(outs@);
        let mut o = o;
        let ghost to = texts(o@);
        outs.append(&mut o);
        assert(texts(outs@) =~= before + to);
        i = i + 1;
    }
    outs
}


// ---------------------------------------------------------------------------
// Building the call-site table.

fn site_from(call: &ProgramCall, e: &CallEvidence, sequence: usize) -> (r: CallSite)
    ensures
        r@ == site_of(*call, *e, sequence as nat),
{
    CallSite {
        caller: copy_text(call.caller.as_str()),
        callee: match &call.callee {
            Some(c) => Some(copy_text(c.as_str())),
            None => None,
        },
        resolved_static: call.resolved_static,
        reference: copy_text(e.reference.as_str()),
        path: copy_text(e.provenance.path.as_str()),
        line: e.provenance.line,
        column: e.provenance.column,
        sequence,
    }
}

fn all_sites_exec(calls: &Vec<ProgramCall>) -> (r: Vec<CallSite>)
    ensures
        views(r@) == all_sites(calls@),
{
    let mut out: Vec<CallSite> = Vec::new();
    let mut i: usize = 0;
    assert(calls@.take(0) =~= Seq::<ProgramCall>::empty());
    while i < calls.len()
        invariant
            i <= calls@.len(),
            views(out@) == all_sites(calls@.take(i as int)),
        decreases calls.len() - i,
    {
        let call = &calls[i];
        let ghost prev = views(out@);
        let ghost evs = call.evidence@;
        let mut j: usize = 0;
        assert(evs.take(0) =~= Seq::<CallEvidence>::empty());
        assert(prev + evidence_sites(*call, evs.take(0), prev.len()) =~= prev);
        while j < call.evidence.len()
            invariant
                j <= evs.len(),
                evs == call.evidence@,
                views(out@) == prev + evidence_sites(*call, evs.take(j as int), prev.len()),
                out@.len() == prev.len() + j,
            decreases call.evidence.len() - j,
        {
            let site = site_from(call, &call.evidence[j], out.len());
            let ghost before = out@;
            out.push(site);
            proof {
                crate::order::lemma_views_push_seq(before, site);
                assert(evs.take(j + 1).drop_last() =~= evs.take(j as int));
                assert(evs.take(j + 1).last() == evs[j as int]);
                assert(views(out@) =~= prev + evidence_sites(*call, evs.take(j + 1), prev.len()));
            }
            j = j + 1;
        }
        proof {
            assert(evs.take(evs.len() as int) =~= evs);
            assert(calls@.take(i + 1).drop_last() =~= calls@.take(i as int));
            assert(calls@.take(i + 1).last() == calls@[i as int]);
        }
        i = i + 1;
    }
    assert(calls@.take(calls@.len() as int) =~= calls@);
    out
}


fn filed_sites_exec(sites: Vec<CallSite>) -> (r: Vec<CallerSites>)
    ensures
        views(r@) == filed_sites(views(sites@)),
{
    let ghost sv = views(sites@);
    let mut table: Vec<CallerSites> = Vec::new();
    let mut k: usize = 0;
    assert(sv.take(0) =~= Seq::<SiteModel>::empty());
    while k < sites.len()
        invariant
            k <= sites@.len(),
            sv == views(sites@),
            views(table@) == filed_sites(sv.take(k as int)),
        decreases sites.len() - k,
    {
        let site = sites[k].duplicate();
        proof {
            assert(sv.take(k + 1).drop_last() =~= sv.take(k as int));
            assert(sv.take(k + 1).last() == sites@[k as int]@);
        }
        let ghost before = views(table@);
        match caller_position(&table, site.caller.as_str()) {
            Some(c) => {
                let mut entry = table.remove(c);
                let ghost old_entry = entry@;
                let ghost sm = site@;
                entry.sites.push(site);
                proof {
                    assert(views(entry.sites@) =~= old_entry.sites.push(sm));
                }
                table.insert(c, entry);
                proof {
                    assert(views(table@) =~= before.update(
                        c as int,
                        CallerSitesModel { sites: before[c as int].sites.push(sm), ..before[c as int] },
                    ));
                }
            },
            None => {
                let ghost sm = site@;
                let caller = copy_text(site.caller.as_str());
                let mut list: Vec<CallSite> = Vec::new();
                list.push(site);
                let entry = CallerSites { caller, sites: list, cursor: 0 };
                assert(views(entry.sites@) =~= seq![sm]);
                table.push(entry);
                proof {
                    assert(views(table@) =~= before.push(CallerSitesModel { caller: sm.caller, sites: seq![sm], cursor: 0 }));
                }
            },
        }
        k = k + 1;
    }
    assert(sv.take(sites@.len() as int) =~= sv);
    table
}

fn site_before_exec(a: &CallSite, b: &CallSite) -> (r: bool)
    ensures
        r == site_before(a@, b@),
{
    crate::text::text_lt(a.path.as_str(), b.path.as_str()) || (text_eq(a.path.as_str(), b.path.as_str()) && (a.line
        < b.line || (a.line == b.line && (a.column < b.column || (a.column == b.column && a.sequence
        < b.sequence)))))
}

proof fn lemma_insert_site(s: Seq<SiteModel>, x: SiteModel, j: int)
    requires
        0 <= j <= s.len(),
        forall|k: int| j <= k < s.len() ==> site_before(x, #[trigger] s[k]),
        j == 0 || !site_before(x, s[j - 1]),
    ensures
        insert_site(s, x) == s.take(j).push(x) + s.skip(j),
    decreases s.len(),
{
    if s.len() == 0 {
        assert(s.take(j).push(x) + s.skip(j) =~= seq![x]);
    } else if j == s.len() {
        assert(s.take(j) =~= s);
        assert(s.skip(j) =~= Seq::<SiteModel>::empty());
        assert(s.take(j).push(x) + s.skip(j) =~= s.push(x));
    } else {
        let t = s.drop_last();
        assert(site_before(x, s[s.len() - 1]));
        assert forall|k: int| j <= k < t.len() implies site_before(x, #[trigger] t[k]) by {
            assert(t[k] == s[k]);
        }
        if j > 0 {
            assert(t[j - 1] == s[j - 1]);
        }
        lemma_insert_site(t, x, j);
        assert(t.take(j).push(x) + t.skip(j) + seq![s.last()] =~= s.take(j).push(x) + s.skip(j));
        assert(insert_site(t, x).push(s.last()) =~= t.take(j).push(x) + t.skip(j) + seq![s.last()]);
    }
}

fn sort_sites_exec(v: Vec<CallSite>) -> (out: Vec<CallSite>)
    ensures
        views(out@) == sort_sites(views(v@)),
{
    let ghost original = views(v@);
    let total = v.len();
    let mut input = v;
    let mut out: Vec<CallSite> = Vec::new();
    let mut i: usize = 0;
    while input.len() > 0
        invariant
            i <= original.len(),
            original.len() == total,
            input@.len() + i == original.len(),
            views(input@) == original.skip(i as int),
            views(out@) == sort_sites(original.take(i as int)),
        decreases input.len(),
    {
        let ghost old_input = input@;
        let x = input.remove(0);
        proof {
            assert(views(old_input)[0] == original.skip(i as int)[0]);
            assert(views(input@) =~= views(old_input).skip(1));
            assert(views(input@) =~= original.skip(i + 1));
            assert(x@ == original[i as int]);
            assert(original.take(i + 1).drop_last() =~= original.take(i as int));
        }
        let mut j = out.len();
        while j > 0 && site_before_exec(&x, &out[j - 1])
            invariant
                j <= out@.len(),
                forall|k: int| j <= k < out@.len() ==> site_before(x@, #[trigger] views(out@)[k]),
            decreases j,
        {
            j = j - 1;
        }
        proof {
            if j > 0 {
                assert(views(out@)[j - 1] == out@[j - 1]@);
            }
            lemma_insert_site(views(out@), x@, j as int);
        }
        let ghost before = views(out@);
        let ghost xv = x@;
        out.insert(j, x);
        proof {
            assert(views(out@) =~= before.take(j as int).push(xv) + before.skip(j as int));
        }
        i = i + 1;
    }
    proof {
        assert(original.take(i as int) =~= original);
    }
    out
}

fn site_table_exec(calls: &Vec<ProgramCall>) -> (r: Vec<CallerSites>)
    ensures
        views(r@) == site_table(calls@),
{
    let filed = filed_sites_exec(all_sites_exec(calls));
    let ghost fv = views(filed@);
    let total = filed.len();
    let mut input = filed;
    let mut out: Vec<CallerSites> = Vec::new();
    let mut i: usize = 0;
    while input.len() > 0
        invariant
            i <= fv.len(),
            fv.len() == total,
            input@.len() + i == fv.len(),
            views(input@) == fv.skip(i as int),
            views(out@) == fv.take(i as int).map_values(|e: CallerSitesModel| sorted_entry(e)),
        decreases input.len(),
    {
        let ghost old_input = input@;
        let e = input.remove(0);
        proof {
            assert(views(old_input)[0] == fv.skip(i as int)[0]);
            assert(views(input@) =~= views(old_input).skip(1));
            assert(views(input@) =~= fv.skip(i + 1));
            assert(e@ == fv[i as int]);
        }
        let ghost em = e@;
        let CallerSites { caller, sites, cursor: _ } = e;
        assert(caller@ == em.caller && views(sites@) == em.sites);
        let sorted = sort_sites_exec(sites);
        let entry = CallerSites { caller, sites: sorted, cursor: 0 };
        assert(entry@ == sorted_entry(fv[i as int]));
        let ghost before = out@;
        out.push(entry);
        proof {
            crate::order::lemma_views_push_seq(before, entry);
            assert(fv.take(i + 1).map_values(|e: CallerSitesModel| sorted_entry(e)) =~= fv.take(i as int).map_values(
                |e: CallerSitesModel| sorted_entry(e),
            ).push(sorted_entry(fv[i as int])));
            assert(views(out@) =~= fv.take(i + 1).map_values(|e: CallerSitesModel| sorted_entry(e)));
        }
        i = i + 1;
    }
    assert(fv.take(i as int) =~= fv);
    out
}


// ---------------------------------------------------------------------------
// The steps.

fn symbol_events_exec(b: &mut Builder, syms: &Vec<ExecutableSymbol>)
    ensures
        final(b)@ == symbol_events(old(b)@, syms@),
        final(b)@.callers == old(b)@.callers,
{
    let mut k: usize = 0;
    assert(syms@.take(0) =~= Seq::<ExecutableSymbol>::empty());
    while k < syms.len()
        invariant
            b@.callers == old(b)@.callers,
            k <= syms@.len(),
            b@ == symbol_events(old(b)@, syms@.take(k as int)),
        decreases syms.len() - k,
    {
        let s = &syms[k];
        proof {
            assert(syms@.take(k + 1).drop_last() =~= syms@.take(k as int));
            assert(syms@.take(k + 1).last() == *s);
        }
        let place = position_text_exec(s.provenance.path.as_str(), s.provenance.line, s.provenance.column);
        let _ = add_event_exec(
            b,
            "symbol_entry",
            s.id.as_str(),
            s.id.as_str(),
            s.fortress_module.as_str(),
            EventAuthority::ProgramSemanticModel,
            single_text(copy_text(place.as_str())),
            RealizationCoverage::Proven,
        );
        let _ = add_event_exec(
            b,
            "symbol_return",
            s.id.as_str(),
            s.id.as_str(),
            s.fortress_module.as_str(),
            EventAuthority::ProgramSemanticModel,
            single_text(place),
            RealizationCoverage::Proven,
        );
        k = k + 1;
    }
    assert(syms@.take(syms@.len() as int) =~= syms@);
}

fn boolean_events_exec(b: &mut Builder, syms: &Vec<ExecutableSymbol>, symbol: &str, values: &Vec<bool>)
    ensures
        final(b)@ == boolean_events(old(b)@, syms@, symbol@, values@),
        final(b)@.callers == old(b)@.callers,
{
    let found = symbol_position(syms, symbol);
    let mut k: usize = 0;
    assert(values@.take(0) =~= Seq::<bool>::empty());
    while k < values.len()
        invariant
            b@.callers == old(b)@.callers,
            k <= values@.len(),
            b@ == boolean_events(old(b)@, syms@, symbol@, values@.take(k as int)),
            match symbol_of(syms@, symbol@) {
                Some(s) => found matches Some(j) && j < syms@.len() && syms@[j as int] == s,
                None => found is None,
            },
        decreases values.len() - k,
    {
        proof {
            assert(values@.take(k + 1).drop_last() =~= values@.take(k as int));
            assert(values@.take(k + 1).last() == values@[k as int]);
        }
        let text = if values[k] {
            "true"
        } else {
            "false"
        };
        let key = concat(symbol, ":");
        let key = concat(key.as_str(), text);
        let (module, prov) = match found {
            Some(j) => (copy_text(syms[j].fortress_module.as_str()), single_text(copy_text(syms[j].source_path.as_str()))),
            None => {
                let none: Vec<String> = Vec::new();
                assert(texts(none@) =~= Seq::<Seq<char>>::empty());
                (String::new(), none)
            },
        };
        let id = add_event_exec(
            b,
            "symbol_return_boolean",
            key.as_str(),
            symbol,
            module.as_str(),
            EventAuthority::ProgramSemanticModel,
            prov,
            RealizationCoverage::Proven,
        );
        let ret = event_id("symbol_return", symbol);
        add_edge_exec(b, ret.as_str(), id.as_str(), RealizationCoverage::Proven, "boolean_return_domain");
        k = k + 1;
    }
    assert(values@.take(values@.len() as int) =~= values@);
}

fn semantic_events_exec(b: &mut Builder, syms: &Vec<ExecutableSymbol>, sums: &Vec<SemanticSummary>)
    ensures
        final(b)@ == semantic_events(old(b)@, syms@, sums@),
        final(b)@.callers == old(b)@.callers,
{
    let mut k: usize = 0;
    assert(sums@.take(0) =~= Seq::<SemanticSummary>::empty());
    while k < sums.len()
        invariant
            b@.callers == old(b)@.callers,
            k <= sums@.len(),
            b@ == semantic_events(old(b)@, syms@, sums@.take(k as int)),
        decreases sums.len() - k,
    {
        proof {
            assert(sums@.take(k + 1).drop_last() =~= sums@.take(k as int));
            assert(sums@.take(k + 1).last() == sums@[k as int]);
        }
        match &sums[k].boolean_output {
            Some(values) => boolean_events_exec(b, syms, sums[k].symbol.as_str(), values),
            None => {},
        }
        k = k + 1;
    }
    assert(sums@.take(sums@.len() as int) =~= sums@);
}

fn resolved_callees_exec(sites: &Vec<CallSite>) -> (r: Vec<String>)
    ensures
        texts(r@) == resolved_callees(views(sites@)),
{
    let ghost sv = views(sites@);
    let mut out: Vec<String> = Vec::new();
    let mut k: usize = 0;
    assert(sv.take(0) =~= Seq::<SiteModel>::empty());
    while k < sites.len()
        invariant
            k <= sites@.len(),
            sv == views(sites@),
            texts(out@) == resolved_callees(sv.take(k as int)),
        decreases sites.len() - k,
    {
        proof {
            assert(sv.take(k + 1).drop_last() =~= sv.take(k as int));
            assert(sv.take(k + 1).last() == sites@[k as int]@);
        }
        let ghost before = texts(out@);
        match &sites[k].callee {
            Some(c) => {
                out.push(copy_text(c.as_str()));
                assert(texts(out@) =~= before + seq![c@]);
            },
            None => {
                assert(texts(out@) =~= before + Seq::<Seq<char>>::empty());
            },
        }
        k = k + 1;
    }
    assert(sv.take(sites@.len() as int) =~= sv);
    out
}

fn caller_fallback_exec(b: &mut Builder, caller: &str, callees: &Vec<String>)
    ensures
        final(b)@ == caller_fallback(old(b)@, caller@, texts(callees@)),
        final(b)@.callers == old(b)@.callers,
{
    let ghost cv = texts(callees@);
    if callees.len() == 0 {
        return;
    }
    let from = event_id("symbol_entry", caller);
    let to = event_id("symbol_entry", callees[0].as_str());
    add_edge_exec(b, from.as_str(), to.as_str(), RealizationCoverage::Partial, "lexical_call_order_fallback");
    let ghost st1 = b@;
    let mut k: usize = 0;
    assert(cv.take(0) =~= Seq::<Seq<char>>::empty());
    while k < callees.len()
        invariant
            k <= callees@.len(),
            cv == texts(callees@),
            b@ == sequence_edges(st1, cv.take(k as int)),
            b@.callers == old(b)@.callers,
        decreases callees.len() - k,
    {
        proof {
            assert(cv.take(k + 1).drop_last() =~= cv.take(k as int));
        }
        if k >= 1 {
            let a = event_id("symbol_return", callees[k - 1].as_str());
            let c = event_id("symbol_entry", callees[k].as_str());
            add_edge_exec(b, a.as_str(), c.as_str(), RealizationCoverage::Partial, "lexical_call_order_fallback");
        }
        k = k + 1;
    }
    assert(cv.take(callees@.len() as int) =~= cv);
    let last = event_id("symbol_return", callees[callees.len() - 1].as_str());
    let back = event_id("symbol_return", caller);
    add_edge_exec(b, last.as_str(), back.as_str(), RealizationCoverage::Partial, "lexical_call_order_fallback");
}

fn fallback_edges_exec(b: &mut Builder)
    ensures
        final(b)@ == fallback_edges(old(b)@, old(b)@.callers),
{
    let ghost table = b@.callers;
    let n = b.callers.len();
    let mut k: usize = 0;
    assert(table.take(0) =~= Seq::<CallerSitesModel>::empty());
    while k < n
        invariant
            k <= n,
            n == table.len(),
            b@.callers == table,
            table == old(b)@.callers,
            b@ == fallback_edges(old(b)@, table.take(k as int)),
        decreases n - k,
    {
        proof {
            assert(table.take(k + 1).drop_last() =~= table.take(k as int));
            assert(table.take(k + 1).last() == b.callers@[k as int]@);
        }
        let callees = resolved_callees_exec(&b.callers[k].sites);
        let caller = copy_text(b.callers[k].caller.as_str());
        caller_fallback_exec(b, caller.as_str(), &callees);
        k = k + 1;
    }
    assert(table.take(n as int) =~= table);
}


fn body_events_exec(b: &mut Builder, syms: &Vec<ExecutableSymbol>, bodies: &Vec<ProgramBody>)
    ensures
        final(b)@ == body_events(old(b)@, syms@, bodies@),
{
    let mut k: usize = 0;
    assert(bodies@.take(0) =~= Seq::<ProgramBody>::empty());
    while k < bodies.len()
        invariant
            k <= bodies@.len(),
            b@ == body_events(old(b)@, syms@, bodies@.take(k as int)),
        decreases bodies.len() - k,
    {
        let body = &bodies[k];
        proof {
            assert(bodies@.take(k + 1).drop_last() =~= bodies@.take(k as int));
            assert(bodies@.take(k + 1).last() == *body);
        }
        match symbol_position(syms, body.symbol.as_str()) {
            None => {},
            Some(j) => {
                let entry = event_id("symbol_entry", body.symbol.as_str());
                let exits = lower_block_exec(
                    b,
                    syms,
                    body.symbol.as_str(),
                    syms[j].fortress_module.as_str(),
                    &body.statements,
                    single_text(entry),
                );
                let ret = event_id("symbol_return", body.symbol.as_str());
                edges_into_exec(b, &exits, ret.as_str(), RealizationCoverage::Proven, "normal_return");
            },
        }
        k = k + 1;
    }
    assert(bodies@.take(bodies@.len() as int) =~= bodies@);
}

fn has_body_exec(bodies: &Vec<ProgramBody>, id: &str) -> (r: bool)
    ensures
        r == has_body(bodies@, id@),
{
    let mut k: usize = 0;
    while k < bodies.len()
        invariant
            k <= bodies@.len(),
            forall|i: int| 0 <= i < k ==> (#[trigger] bodies@[i]).symbol@ != id@,
        decreases bodies.len() - k,
    {
        if text_eq(bodies[k].symbol.as_str(), id) {
            return true;
        }
        k = k + 1;
    }
    false
}

fn opaque_edges_exec(b: &mut Builder, syms: &Vec<ExecutableSymbol>, bodies: &Vec<ProgramBody>)
    ensures
        final(b)@ == opaque_edges(old(b)@, syms@, bodies@),
{
    let mut k: usize = 0;
    assert(syms@.take(0) =~= Seq::<ExecutableSymbol>::empty());
    while k < syms.len()
        invariant
            k <= syms@.len(),
            b@ == opaque_edges(old(b)@, syms@.take(k as int), bodies@),
        decreases syms.len() - k,
    {
        proof {
            assert(syms@.take(k + 1).drop_last() =~= syms@.take(k as int));
            assert(syms@.take(k + 1).last() == syms@[k as int]);
        }
        let id = syms[k].id.as_str();
        if !has_body_exec(bodies, id) {
            let a = event_id("symbol_entry", id);
            let c = event_id("symbol_return", id);
            add_edge_exec(b, a.as_str(), c.as_str(), RealizationCoverage::Partial, "opaque_declaration_return");
        }
        k = k + 1;
    }
    assert(syms@.take(syms@.len() as int) =~= syms@);
}

fn bracketed_exec(
    b: &mut Builder,
    kind: &str,
    key: &str,
    symbol: &str,
    module: &str,
    authority: EventAuthority,
    provenance: Vec<String>,
    coverage: RealizationCoverage,
    into: &str,
    out: &str,
)
    ensures
        final(b)@ == bracketed(
            old(b)@,
            symbol@,
            event_of(kind@, key@, symbol@, module@, authority, texts(provenance@), coverage),
            into@,
            out@,
        ),
{
    let id = add_event_exec(b, kind, key, symbol, module, authority, provenance, coverage);
    let entry = event_id("symbol_entry", symbol);
    let ret = event_id("symbol_return", symbol);
    add_edge_exec(b, entry.as_str(), id.as_str(), RealizationCoverage::Proven, into);
    add_edge_exec(b, id.as_str(), ret.as_str(), RealizationCoverage::Proven, out);
}

fn summary_events_exec(b: &mut Builder, sym: &ExecutableSymbol, s: &StateEffectSummary)
    ensures
        final(b)@ == summary_events(old(b)@, *sym, *s),
{
    let symbol = s.symbol.as_str();
    match (&s.input_receiver_state, &s.output_receiver_state) {
        (Some(from), Some(to)) => {
            let key = concat(symbol, ":");
            let key = concat(key.as_str(), from.as_str());
            let key = concat(key.as_str(), ":");
            let key = concat(key.as_str(), to.as_str());
            bracketed_exec(
                b,
                "state_transition",
                key.as_str(),
                symbol,
                sym.fortress_module.as_str(),
                EventAuthority::StateEffectAnalysis,
                single_text(copy_text(sym.source_path.as_str())),
                s.state_postcondition_coverage,
                "state_summary_input",
                "state_summary_output",
            );
        },
        _ => {},
    }
    let ghost st1 = b@;
    let effects = &s.direct_effects;
    let mut k: usize = 0;
    assert(effects@.take(0) =~= Seq::<String>::empty());
    while k < effects.len()
        invariant
            k <= effects@.len(),
            effects@ == s.direct_effects@,
            b@ == effect_events(st1, *sym, symbol@, effects@.take(k as int)),
        decreases effects.len() - k,
    {
        proof {
            assert(effects@.take(k + 1).drop_last() =~= effects@.take(k as int));
            assert(effects@.take(k + 1).last() == effects@[k as int]);
        }
        let key = concat(symbol, ":");
        let key = concat(key.as_str(), effects[k].as_str());
        bracketed_exec(
            b,
            "effect",
            key.as_str(),
            symbol,
            sym.fortress_module.as_str(),
            EventAuthority::StateEffectAnalysis,
            single_text(copy_text(sym.source_path.as_str())),
            RealizationCoverage::Proven,
            "direct_effect",
            "effect_completion",
        );
        k = k + 1;
    }
    assert(effects@.take(effects@.len() as int) =~= effects@);
}

fn state_effect_events_exec(b: &mut Builder, syms: &Vec<ExecutableSymbol>, sums: &Vec<StateEffectSummary>)
    ensures
        final(b)@ == state_effect_events(old(b)@, syms@, sums@),
{
    let mut k: usize = 0;
    assert(sums@.take(0) =~= Seq::<StateEffectSummary>::empty());
    while k < sums.len()
        invariant
            k <= sums@.len(),
            b@ == state_effect_events(old(b)@, syms@, sums@.take(k as int)),
        decreases sums.len() - k,
    {
        proof {
            assert(sums@.take(k + 1).drop_last() =~= sums@.take(k as int));
            assert(sums@.take(k + 1).last() == sums@[k as int]);
        }
        match symbol_position(syms, sums[k].symbol.as_str()) {
            None => {},
            Some(j) => summary_events_exec(b, &syms[j], &sums[k]),
        }
        k = k + 1;
    }
    assert(sums@.take(sums@.len() as int) =~= sums@);
}

fn information_events_exec(b: &mut Builder, syms: &Vec<ExecutableSymbol>, ds: &Vec<TrustedTransitionDiagnostic>)
    ensures
        final(b)@ == information_events(old(b)@, syms@, ds@),
{
    let mut k: usize = 0;
    assert(ds@.take(0) =~= Seq::<TrustedTransitionDiagnostic>::empty());
    while k < ds.len()
        invariant
            k <= ds@.len(),
            b@ == information_events(old(b)@, syms@, ds@.take(k as int)),
        decreases ds.len() - k,
    {
        let d = &ds[k];
        proof {
            assert(ds@.take(k + 1).drop_last() =~= ds@.take(k as int));
            assert(ds@.take(k + 1).last() == *d);
        }
        match symbol_position(syms, d.symbol.as_str()) {
            None => {},
            Some(j) => {
                let key = concat(d.symbol.as_str(), ":");
                let key = concat(key.as_str(), d.kind.as_str());
                let key = concat(key.as_str(), ":");
                let key = concat(key.as_str(), d.facet.as_str());
                let key = concat(key.as_str(), ":");
                let key = concat(key.as_str(), d.from.as_str());
                let key = concat(key.as_str(), ":");
                let key = concat(key.as_str(), d.to.as_str());
                bracketed_exec(
                    b,
                    "information_transition",
                    key.as_str(),
                    d.symbol.as_str(),
                    syms[j].fortress_module.as_str(),
                    EventAuthority::InformationFlowAnalysis,
                    single_text(copy_text(d.contract_provenance.as_str())),
                    RealizationCoverage::Proven,
                    "trusted_transition",
                    "trusted_transition_completion",
                );
            },
        }
        k = k + 1;
    }
    assert(ds@.take(ds@.len() as int) =~= ds@);
}

fn handling_coverage_exec(h: HandlingStatus) -> (r: RealizationCoverage)
    ensures
        r == handling_coverage(h),
{
    match h {
        HandlingStatus::Handled => RealizationCoverage::Proven,
        HandlingStatus::PartiallyHandled => RealizationCoverage::Partial,
        HandlingStatus::Unknown => RealizationCoverage::Unknown,
        HandlingStatus::Unhandled => RealizationCoverage::Unknown,
        HandlingStatus::Unsupported => RealizationCoverage::Unsupported,
    }
}

fn outcome_events_exec(b: &mut Builder, sym: &ExecutableSymbol, op: &EnvironmentOperation)
    ensures
        final(b)@ == outcome_events(old(b)@, *sym, *op, op.outcomes@),
{
    let outs = &op.outcomes;
    let mut k: usize = 0;
    assert(outs@.take(0) =~= Seq::<EnvironmentOutcome>::empty());
    while k < outs.len()
        invariant
            k <= outs@.len(),
            outs@ == op.outcomes@,
            b@ == outcome_events(old(b)@, *sym, *op, outs@.take(k as int)),
        decreases outs.len() - k,
    {
        let o = &outs[k];
        proof {
            assert(outs@.take(k + 1).drop_last() =~= outs@.take(k as int));
            assert(outs@.take(k + 1).last() == *o);
        }
        let coverage = handling_coverage_exec(o.handling);
        let key = concat(op.operation.as_str(), ":");
        let key = concat(key.as_str(), o.id.as_str());
        let id = add_event_exec(
            b,
            "environment_outcome",
            key.as_str(),
            op.boundary.as_str(),
            sym.fortress_module.as_str(),
            EventAuthority::EnvironmentalAnalysis,
            single_text(copy_text(o.provenance.as_str())),
            coverage,
        );
        let entry = event_id("symbol_entry", op.boundary.as_str());
        add_edge_exec(b, entry.as_str(), id.as_str(), RealizationCoverage::Proven, "admissible_environment_outcome");
        let target = match &o.continuation {
            Some(c) => event_id("symbol_entry", c.as_str()),
            None => event_id("symbol_return", op.boundary.as_str()),
        };
        add_edge_exec(b, id.as_str(), target.as_str(), coverage, "environment_outcome_continuation");
        k = k + 1;
    }
    assert(outs@.take(outs@.len() as int) =~= outs@);
}

fn environment_events_exec(b: &mut Builder, syms: &Vec<ExecutableSymbol>, ops: &Vec<EnvironmentOperation>)
    ensures
        final(b)@ == environment_events(old(b)@, syms@, ops@),
{
    let mut k: usize = 0;
    assert(ops@.take(0) =~= Seq::<EnvironmentOperation>::empty());
    while k < ops.len()
        invariant
            k <= ops@.len(),
            b@ == environment_events(old(b)@, syms@, ops@.take(k as int)),
        decreases ops.len() - k,
    {
        proof {
            assert(ops@.take(k + 1).drop_last() =~= ops@.take(k as int));
            assert(ops@.take(k + 1).last() == ops@[k as int]);
        }
        match symbol_position(syms, ops[k].boundary.as_str()) {
            None => {},
            Some(j) => outcome_events_exec(b, &syms[j], &ops[k]),
        }
        k = k + 1;
    }
    assert(ops@.take(ops@.len() as int) =~= ops@);
}


// ---------------------------------------------------------------------------
// Canonical order of events and edges.

/// The ordered fields of an edge: source, target, coverage and derivation.
pub open spec fn edge_fields(e: EventEdgeModel) -> Seq<Seq<char>> {
    seq![e.source, e.target, rank_field(super::events::coverage_rank(e.coverage)), e.derivation]
}

impl CanonicalOrder for ImplementationEventEdge {
    /// By source, target, coverage and derivation.
    open spec fn ordered(a: EventEdgeModel, b: EventEdgeModel) -> bool {
        fields_le(edge_fields(a), edge_fields(b))
    }

    proof fn lemma_ordered_reflexive(a: EventEdgeModel) {
        crate::order::lemma_fields_le_reflexive(edge_fields(a));
    }

    proof fn lemma_ordered_transitive(a: EventEdgeModel, b: EventEdgeModel, c: EventEdgeModel) {
        crate::order::lemma_fields_le_transitive(edge_fields(a), edge_fields(b), edge_fields(c));
    }

    proof fn lemma_ordered_total(a: EventEdgeModel, b: EventEdgeModel) {
        crate::order::lemma_fields_le_total(edge_fields(a), edge_fields(b));
    }

    fn precedes(&self, other: &Self) -> (r: bool) {
        let a = edge_fields_exec(self);
        let b = edge_fields_exec(other);
        crate::order::fields_le_exec(&a, &b)
    }
}

impl TotalOrder for ImplementationEventEdge {
    proof fn lemma_ordered_antisymmetric(a: EventEdgeModel, b: EventEdgeModel) {
        crate::order::lemma_fields_le_antisymmetric(edge_fields(a), edge_fields(b));
        assert(edge_fields(a)[0] == a.source && edge_fields(b)[0] == b.source);
        assert(edge_fields(a)[1] == a.target && edge_fields(b)[1] == b.target);
        assert(edge_fields(a)[2] == edge_fields(b)[2]);
        assert(edge_fields(a)[2].len() == super::events::coverage_rank(a.coverage));
        assert(edge_fields(a)[3] == a.derivation && edge_fields(b)[3] == b.derivation);
    }
}

fn coverage_rank_exec(c: RealizationCoverage) -> (r: u8)
    ensures
        r as nat == super::events::coverage_rank(c),
{
    match c {
        RealizationCoverage::Proven => 0,
        RealizationCoverage::Partial => 1,
        RealizationCoverage::Unknown => 2,
        RealizationCoverage::Unsupported => 3,
    }
}

fn edge_fields_exec(e: &ImplementationEventEdge) -> (r: Vec<Vec<char>>)
    ensures
        r@.map_values(|f: Vec<char>| f@) == edge_fields(e@),
{
    let mut r: Vec<Vec<char>> = Vec::new();
    r.push(crate::text::chars_of(e.source()));
    r.push(crate::text::chars_of(e.target()));
    r.push(rank_field_exec(coverage_rank_exec(e.coverage())));
    r.push(crate::text::chars_of(e.derivation()));
    assert(r@.map_values(|f: Vec<char>| f@) =~= edge_fields(e@));
    r
}


/// `a` sorts before `b`: by identity.
pub open spec fn event_before(a: EventModel, b: EventModel) -> bool {
    seq_lt(a.id, b.id)
}

/// Inserts an event after every event that does not sort after it.
pub open spec fn insert_event(s: Seq<EventModel>, x: EventModel) -> Seq<EventModel>
    decreases s.len(),
{
    if s.len() == 0 {
        seq![x]
    } else if event_before(x, s.last()) {
        insert_event(s.drop_last(), x).push(s.last())
    } else {
        s.push(x)
    }
}

/// Events in order of identity.
pub open spec fn sort_events(s: Seq<EventModel>) -> Seq<EventModel>
    decreases s.len(),
{
    if s.len() == 0 {
        Seq::empty()
    } else {
        insert_event(sort_events(s.drop_last()), s.last())
    }
}

/// The implementation-event graph of the semantic models: the derived
/// events, each identity once with its first derivation, in order of
/// identity, and the derived edges, each once, in canonical order.
pub open spec fn implementation_events_of(
    psm: ProgramSemanticModel,
    semantic: Seq<SemanticSummary>,
    state_effect: Seq<StateEffectSummary>,
    information_flow: Seq<TrustedTransitionDiagnostic>,
    environmental: Seq<EnvironmentOperation>,
) -> EventGraphModel {
    let d = derivation_of(psm, semantic, state_effect, information_flow, environmental);
    EventGraphModel { events: sort_events(d.events), edges: canonical_set::<ImplementationEventEdge>(d.edges) }
}

proof fn lemma_insert_event(s: Seq<EventModel>, x: EventModel, j: int)
    requires
        0 <= j <= s.len(),
        forall|k: int| j <= k < s.len() ==> event_before(x, #[trigger] s[k]),
        j == 0 || !event_before(x, s[j - 1]),
    ensures
        insert_event(s, x) == s.take(j).push(x) + s.skip(j),
    decreases s.len(),
{
    if s.len() == 0 {
        assert(s.take(j).push(x) + s.skip(j) =~= seq![x]);
    } else if j == s.len() {
        assert(s.take(j) =~= s);
        assert(s.skip(j) =~= Seq::<EventModel>::empty());
        assert(s.take(j).push(x) + s.skip(j) =~= s.push(x));
    } else {
        let t = s.drop_last();
        assert(event_before(x, s[s.len() - 1]));
        assert forall|k: int| j <= k < t.len() implies event_before(x, #[trigger] t[k]) by {
            assert(t[k] == s[k]);
        }
        if j > 0 {
            assert(t[j - 1] == s[j - 1]);
        }
        lemma_insert_event(t, x, j);
        assert(t.take(j).push(x) + t.skip(j) + seq![s.last()] =~= s.take(j).push(x) + s.skip(j));
        assert(insert_event(t, x).push(s.last()) =~= t.take(j).push(x) + t.skip(j) + seq![s.last()]);
    }
}

fn sort_events_exec(v: Vec<ImplementationEvent>) -> (out: Vec<ImplementationEvent>)
    ensures
        views(out@) == sort_events(views(v@)),
{
    let ghost original = views(v@);
    let total = v.len();
    let mut input = v;
    let mut out: Vec<ImplementationEvent> = Vec::new();
    let mut i: usize = 0;
    while input.len() > 0
        invariant
            i <= original.len(),
            original.len() == total,
            input@.len() + i == original.len(),
            views(input@) == original.skip(i as int),
            views(out@) == sort_events(original.take(i as int)),
        decreases input.len(),
    {
        let ghost old_input = input@;
        let x = input.remove(0);
        proof {
            assert(views(old_input)[0] == original.skip(i as int)[0]);
            assert(views(input@) =~= views(old_input).skip(1));
            assert(views(input@) =~= original.skip(i + 1));
            assert(x@ == original[i as int]);
            assert(original.take(i + 1).drop_last() =~= original.take(i as int));
        }
        let mut j = out.len();
        while j > 0 && crate::text::text_lt(x.id(), out[j - 1].id())
            invariant
                j <= out@.len(),
                forall|k: int| j <= k < out@.len() ==> event_before(x@, #[trigger] views(out@)[k]),
            decreases j,
        {
            j = j - 1;
        }
        proof {
            if j > 0 {
                assert(views(out@)[j - 1] == out@[j - 1]@);
            }
            lemma_insert_event(views(out@), x@, j as int);
        }
        let ghost before = views(out@);
        let ghost xv = x@;
        out.insert(j, x);
        proof {
            assert(views(out@) =~= before.take(j as int).push(xv) + before.skip(j as int));
        }
        i = i + 1;
    }
    proof {
        assert(original.take(i as int) =~= original);
    }
    out
}

// ---------------------------------------------------------------------------
// The derivation.

/// Derives one canonical implementation-event graph from existing semantic
/// models.
pub fn derive_implementation_events(
    psm: &ProgramSemanticModel,
    semantic: &Vec<SemanticSummary>,
    state_effect: &Vec<StateEffectSummary>,
    information_flow: &Vec<TrustedTransitionDiagnostic>,
    environmental: &Vec<EnvironmentOperation>,
) -> (r: ImplementationEventModel)
    ensures
        r@ == implementation_events_of(*psm, semantic@, state_effect@, information_flow@, environmental@),
{
    let syms = &psm.symbols;
    let table = site_table_exec(&psm.calls);
    let mut b = Builder { events: Vec::new(), edges: Vec::new(), callers: table };
    proof {
        assert(views(b.events@) =~= Seq::<EventModel>::empty());
        assert(views(b.edges@) =~= Seq::<EventEdgeModel>::empty());
    }
    symbol_events_exec(&mut b, syms);
    semantic_events_exec(&mut b, syms, semantic);
    fallback_edges_exec(&mut b);
    body_events_exec(&mut b, syms, &psm.bodies);
    opaque_edges_exec(&mut b, syms, &psm.bodies);
    state_effect_events_exec(&mut b, syms, state_effect);
    information_events_exec(&mut b, syms, information_flow);
    environment_events_exec(&mut b, syms, environmental);
    let ghost fin = b@;
    assert(fin == derivation_of(*psm, semantic@, state_effect@, information_flow@, environmental@));
    let Builder { events, edges, callers: _ } = b;
    let events = sort_events_exec(events);
    let edges = canonical_set_exec(edges);
    ImplementationEventModel::new(events, edges)
}

} // verus!
