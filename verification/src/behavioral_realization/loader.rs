//! Loading the distributed Behavior Realization Contract authority: every
//! contract document is validated against the Intended BFG and the
//! canonical semantic facts, and the set is bound to one digest.

use vstd::prelude::*;
use vstd::utf8::encode_utf8;

use crate::codec::{decimal, decimal_of, sha256, sha256_identity_of};
use crate::order::views;
use crate::behavior::compile::{FlowModel, IntendedFeatureFlow};
use crate::behavior::model::{BfgNode, NodeModel};
use crate::order::{
    group_views, groups_le, groups_le_exec, lemma_groups_le_antisymmetric, lemma_groups_le_reflexive, rank_field,
    rank_field_exec, single, single_exec, texts_exec,
};
use crate::text::{concat, copy_text, seq_lt, text_eq, text_lt, texts};

use crate::behavior::bfg::IntendedBehavioralFlowGraph;
use crate::order::{canonical_set, canonical_set_exec, canonical_sort, is_canonical, lemma_views_permutation, CanonicalOrder};
use crate::text::{lemma_seq_le_antisymmetric, lemma_seq_le_reflexive, lemma_seq_le_total, lemma_seq_le_transitive, seq_le, text_le};
use super::contract::{
    ContractsModel, ResolvedBehaviorRealizationContracts,
    BEHAVIOR_REALIZATION_CONTRACT_SCHEMA, BEHAVIOR_REALIZATION_CONTRACT_SCHEMA_VERSION, AnchorModel, BehaviorAnchor, BindingOrigin, ResolvedCheckpointRealization, ResolvedModel};

verus! {

// ---------------------------------------------------------------------------
// Sources.

/// Abstract value of one contract source.
pub struct SourceModel {
    pub module_id: Seq<char>,
    pub path: Seq<char>,
    pub source: Seq<char>,
}

/// One snapshot-bound distributed realization-contract document.
#[derive(Debug)]
pub struct BehaviorRealizationContractSource {
    module_id: String,
    path: String,
    source: String,
}

impl View for BehaviorRealizationContractSource {
    type V = SourceModel;

    closed spec fn view(&self) -> SourceModel {
        SourceModel { module_id: self.module_id@, path: self.path@, source: self.source@ }
    }
}

impl BehaviorRealizationContractSource {
    /// Creates a contract source owned by its deepest physical Fortress Module.
    pub fn new(module_id: String, path: String, source: String) -> (r: Self)
        ensures
            r@ == (SourceModel { module_id: module_id@, path: path@, source: source@ }),
    {
        BehaviorRealizationContractSource { module_id, path, source }
    }

    /// Returns the owning Module.
    pub fn module_id(&self) -> (r: &str)
        ensures
            r@ == self@.module_id,
    {
        self.module_id.as_str()
    }

    /// Returns the document path.
    pub fn path(&self) -> (r: &str)
        ensures
            r@ == self@.path,
    {
        self.path.as_str()
    }

    /// Returns the document text.
    pub fn source(&self) -> (r: &str)
        ensures
            r@ == self@.source,
    {
        self.source.as_str()
    }
}

/// `a` sorts before `b`: by Module, then path, then text.
pub open spec fn source_before(a: SourceModel, b: SourceModel) -> bool {
    seq_lt(a.module_id, b.module_id) || (a.module_id == b.module_id && (seq_lt(a.path, b.path) || (a.path
        == b.path && seq_lt(a.source, b.source))))
}

fn source_before_exec(a: &BehaviorRealizationContractSource, b: &BehaviorRealizationContractSource) -> (r: bool)
    ensures
        r == source_before(a@, b@),
{
    text_lt(a.module_id.as_str(), b.module_id.as_str()) || (text_eq(a.module_id.as_str(), b.module_id.as_str()) && (
    text_lt(a.path.as_str(), b.path.as_str()) || (text_eq(a.path.as_str(), b.path.as_str()) && text_lt(
        a.source.as_str(),
        b.source.as_str(),
    ))))
}

/// The hashed material of the sources: each path, a zero byte, its Module,
/// a zero byte, its text and a `0xff` byte.
pub open spec fn distributed_material(sources: Seq<SourceModel>) -> Seq<u8>
    decreases sources.len(),
{
    if sources.len() == 0 {
        Seq::empty()
    } else {
        let s = sources.last();
        distributed_material(sources.drop_last()) + encode_utf8(s.path) + seq![0u8] + encode_utf8(s.module_id) + seq![
            0u8,
        ] + encode_utf8(s.source) + seq![0xffu8]
    }
}

fn push_text_bytes(out: &mut Vec<u8>, text: &str)
    ensures
        final(out)@ == old(out)@ + encode_utf8(text@),
{
    let bytes = text.as_bytes();
    let ghost start = out@;
    let mut i: usize = 0;
    while i < bytes.len()
        invariant
            i <= bytes@.len(),
            bytes@ == encode_utf8(text@),
            out@ == start + bytes@.take(i as int),
        decreases bytes.len() - i,
    {
        out.push(bytes[i]);
        assert(bytes@.take(i + 1) =~= bytes@.take(i as int).push(bytes@[i as int]));
        i = i + 1;
    }
    assert(bytes@.take(bytes@.len() as int) =~= bytes@);
}

/// The digest of the distributed authority, over the sources in the order
/// given.
pub fn distributed_contract_digest(sources: &[BehaviorRealizationContractSource]) -> (r: String)
    ensures
        r@ == sha256_identity_of(distributed_material(views(sources@))),
{
    let ghost sv = views(sources@);
    let mut material: Vec<u8> = Vec::new();
    let mut k: usize = 0;
    while k < sources.len()
        invariant
            sv == views(sources@),
            k <= sv.len(),
            material@ == distributed_material(sv.take(k as int)),
        decreases sources.len() - k,
    {
        let s = &sources[k];
        let ghost before = material@;
        push_text_bytes(&mut material, s.path.as_str());
        material.push(0u8);
        push_text_bytes(&mut material, s.module_id.as_str());
        material.push(0u8);
        push_text_bytes(&mut material, s.source.as_str());
        material.push(0xffu8);
        proof {
            assert(sv.take(k + 1).drop_last() =~= sv.take(k as int));
            assert(sv.take(k + 1).last() == s@);
            assert(material@ =~= distributed_material(sv.take(k + 1)));
        }
        k = k + 1;
    }
    assert(sv.take(sv.len() as int) =~= sv);
    sha256(material.as_slice())
}

// ---------------------------------------------------------------------------
// Documents and the semantic facts anchors are checked against.

/// One authored checkpoint with its alternative anchors.
#[derive(Debug)]
pub struct CheckpointContract {
    /// Intended BFG checkpoint identity.
    pub checkpoint: String,
    /// Alternative exact semantic anchors.
    pub anchors: Vec<BehaviorAnchor>,
}

/// One opted-in Feature with its checkpoints.
#[derive(Debug)]
pub struct FeatureContract {
    /// Feature identity.
    pub feature: String,
    /// Authored checkpoints.
    pub checkpoints: Vec<CheckpointContract>,
}

/// One typed contract document.
#[derive(Debug)]
pub struct ContractDocument {
    /// Schema identity.
    pub schema: String,
    /// Schema version.
    pub schema_version: u16,
    /// Opted-in Features.
    pub features: Vec<FeatureContract>,
}

/// A decoded document together with its canonical JSON rendering.
#[derive(Debug)]
pub struct DecodedContract {
    /// The typed document.
    pub document: ContractDocument,
    /// The document rendered as canonical pretty JSON with one trailing newline.
    pub canonical: String,
}

/// One source with the outcome of decoding its text: the decoded document,
/// or the decoder's diagnostic.
#[derive(Debug)]
pub struct ParsedContractSource {
    /// The source.
    pub source: BehaviorRealizationContractSource,
    /// The decoded document, or the diagnostic.
    pub parsed: Result<DecodedContract, String>,
}

/// Abstract value of one authored checkpoint.
pub struct CheckpointContractModel {
    pub checkpoint: Seq<char>,
    pub anchors: Seq<AnchorModel>,
}

impl View for CheckpointContract {
    type V = CheckpointContractModel;

    open spec fn view(&self) -> CheckpointContractModel {
        CheckpointContractModel { checkpoint: self.checkpoint@, anchors: views(self.anchors@) }
    }
}

/// Abstract value of one opted-in Feature.
pub struct FeatureContractModel {
    pub feature: Seq<char>,
    pub checkpoints: Seq<CheckpointContractModel>,
}

impl View for FeatureContract {
    type V = FeatureContractModel;

    open spec fn view(&self) -> FeatureContractModel {
        FeatureContractModel { feature: self.feature@, checkpoints: views(self.checkpoints@) }
    }
}

/// Abstract value of one contract document.
pub struct DocumentModel {
    pub schema: Seq<char>,
    pub schema_version: u16,
    pub features: Seq<FeatureContractModel>,
}

impl View for ContractDocument {
    type V = DocumentModel;

    open spec fn view(&self) -> DocumentModel {
        DocumentModel { schema: self.schema@, schema_version: self.schema_version, features: views(self.features@) }
    }
}

/// Abstract value of one source with its decoding outcome: the document
/// and its canonical rendering, or the decoder's diagnostic.
pub struct ParsedModel {
    pub source: SourceModel,
    pub parsed: Result<(DocumentModel, Seq<char>), Seq<char>>,
}

impl View for ParsedContractSource {
    type V = ParsedModel;

    open spec fn view(&self) -> ParsedModel {
        ParsedModel {
            source: self.source@,
            parsed: match &self.parsed {
                Ok(d) => Ok((d.document@, d.canonical@)),
                Err(e) => Err(e@),
            },
        }
    }
}

/// A receiver-state classification of State/Effect Analysis.
#[derive(Debug)]
pub enum TypestateClassification {
    /// Exactly one state.
    Exact(String),
    /// One of several states, in canonical order.
    Possible(Vec<String>),
    /// Any other classification.
    Other,
}

/// The State/Effect facts of one executable symbol.
#[derive(Debug)]
pub struct EffectSummaryFacts {
    /// Executable symbol.
    pub symbol: String,
    /// Names of the transitive effects.
    pub transitive_effects: Vec<String>,
    /// Receiver state on entry.
    pub input_receiver_state: Option<TypestateClassification>,
    /// Receiver state on return.
    pub output_receiver_state: Option<TypestateClassification>,
}

/// One declared trusted information-flow transition.
#[derive(Debug)]
pub struct TrustedTransitionFact {
    /// Endorsement or declassification, by name.
    pub kind: String,
    /// Responsible executable symbol.
    pub symbol: String,
    /// Information facet.
    pub facet: String,
    /// Source level.
    pub from: String,
    /// Target level.
    pub to: String,
}

/// One external operation with its admissible outcomes.
#[derive(Debug)]
pub struct EnvironmentOperationFacts {
    /// External operation identity.
    pub operation: String,
    /// Admissible outcome identities.
    pub outcomes: Vec<String>,
}

/// The canonical semantic facts anchors must be established by.
#[derive(Debug)]
pub struct AnchorAuthority {
    /// Executable symbols with their Fortress Module.
    pub symbols: Vec<(String, String)>,
    /// Nominal type identities.
    pub nominal_types: Vec<String>,
    /// Module identities with their repository paths.
    pub module_paths: Vec<(String, String)>,
    /// State/Effect summaries.
    pub summaries: Vec<EffectSummaryFacts>,
    /// Declared trusted information-flow transitions.
    pub transitions: Vec<TrustedTransitionFact>,
    /// External operations.
    pub operations: Vec<EnvironmentOperationFacts>,
}

/// The value paired with `key`, the last pairing winning as in a map
/// collected from the pairs.
pub open spec fn lookup(pairs: Seq<(String, String)>, key: Seq<char>) -> Option<Seq<char>>
    decreases pairs.len(),
{
    if pairs.len() == 0 {
        None
    } else if pairs.last().0@ == key {
        Some(pairs.last().1@)
    } else {
        lookup(pairs.drop_last(), key)
    }
}

fn lookup_exec(pairs: &Vec<(String, String)>, key: &str) -> (r: Option<String>)
    ensures
        match lookup(pairs@, key@) {
            Some(v) => r matches Some(x) && x@ == v,
            None => r is None,
        },
{
    let mut k: usize = pairs.len();
    assert(pairs@.take(k as int) =~= pairs@);
    while k > 0
        invariant
            k <= pairs@.len(),
            lookup(pairs@, key@) == lookup(pairs@.take(k as int), key@),
        decreases k,
    {
        assert(pairs@.take(k as int).last() == pairs@[k - 1]);
        if text_eq(pairs[k - 1].0.as_str(), key) {
            return Some(copy_text(pairs[k - 1].1.as_str()));
        }
        assert(pairs@.take(k as int).drop_last() =~= pairs@.take(k - 1));
        k = k - 1;
    }
    None
}

/// `candidate` lies in the subtree of Module `owner`: both have paths, and
/// the owner is the root, or the candidate's path is the owner's path or
/// below it.
pub open spec fn module_in_subtree(paths: Seq<(String, String)>, owner: Seq<char>, candidate: Seq<char>) -> bool {
    match (lookup(paths, owner), lookup(paths, candidate)) {
        (Some(o), Some(c)) => o.len() == 0 || c == o || crate::text::is_prefix(o + "/"@, c),
        _ => false,
    }
}

fn module_in_subtree_exec(paths: &Vec<(String, String)>, owner: &str, candidate: &str) -> (r: bool)
    ensures
        r == module_in_subtree(paths@, owner@, candidate@),
{
    let o = match lookup_exec(paths, owner) {
        Some(o) => o,
        None => {
            return false;
        },
    };
    let c = match lookup_exec(paths, candidate) {
        Some(c) => c,
        None => {
            return false;
        },
    };
    proof {
        reveal_strlit("/");
    }
    let below = concat(o.as_str(), "/");
    o.as_str().unicode_len() == 0 || text_eq(c.as_str(), o.as_str()) || crate::text::starts_with(c.as_str(), below.as_str())
}

// ---------------------------------------------------------------------------
// Errors.

/// Behavior Realization Contract validation failure.
#[derive(Debug, PartialEq, Eq)]
pub enum BehaviorRealizationContractError {
    /// JSON syntax or typed decoding failed.
    InvalidJson {
        /// Source document path.
        path: String,
        /// Decoder diagnostic.
        detail: String,
    },
    /// Schema identity or version is unsupported.
    UnsupportedSchema(String),
    /// Input text is not canonical JSON.
    NonCanonical(String),
    /// Feature identity does not exist in the Intended BFG.
    UnknownFeature(String),
    /// Checkpoint does not belong to the declared Feature.
    UnknownCheckpoint {
        /// Declared Feature.
        feature: String,
        /// Unknown or foreign checkpoint.
        checkpoint: String,
    },
    /// A Feature or checkpoint was authored more than once.
    DuplicateIdentity(String),
    /// Opt-in omitted at least one Intended checkpoint.
    MissingCheckpoint {
        /// Opted-in Feature.
        feature: String,
        /// Omitted Intended BFG checkpoint.
        checkpoint: String,
    },
    /// A checkpoint has no semantic realization alternative.
    EmptyAnchors(String),
    /// Arrays are not sorted and unique.
    NonCanonicalOrder(String),
    /// The contract's Module is outside the Feature-owner subtree.
    ForeignContractOwner {
        /// Feature whose ownership boundary is enforced.
        feature: String,
        /// Foreign declaring Module.
        module: String,
    },
    /// A symbol anchor is absent from the program model.
    UnknownSymbol(String),
    /// A symbol lies outside the Feature-owner subtree.
    ForeignSymbol {
        /// Feature whose ownership boundary is enforced.
        feature: String,
        /// Foreign executable symbol.
        symbol: String,
    },
    /// A nominal type anchor is absent from the program model.
    UnknownNominalType(String),
    /// A state transition has no nonempty canonical state sets.
    InvalidStateTransition(String),
    /// A requested effect is not established by State/Effect Analysis.
    UnknownEffect {
        /// Responsible executable symbol.
        symbol: String,
        /// Effect not established by canonical analysis.
        effect: String,
    },
    /// A requested state transition is not established by State/Effect Analysis.
    UnknownStateTransition(String),
    /// A requested security transition is not established by Information Flow.
    UnknownInformationTransition(String),
    /// A requested environmental outcome is absent.
    UnknownEnvironmentOutcome {
        /// External operation identity.
        operation: String,
        /// Missing outcome identity.
        outcome: String,
    },
}

/// Abstract value of a contract error.
pub enum ContractErrorModel {
    InvalidJson { path: Seq<char>, detail: Seq<char> },
    UnsupportedSchema(Seq<char>),
    NonCanonical(Seq<char>),
    UnknownFeature(Seq<char>),
    UnknownCheckpoint { feature: Seq<char>, checkpoint: Seq<char> },
    DuplicateIdentity(Seq<char>),
    MissingCheckpoint { feature: Seq<char>, checkpoint: Seq<char> },
    EmptyAnchors(Seq<char>),
    NonCanonicalOrder(Seq<char>),
    ForeignContractOwner { feature: Seq<char>, module: Seq<char> },
    UnknownSymbol(Seq<char>),
    ForeignSymbol { feature: Seq<char>, symbol: Seq<char> },
    UnknownNominalType(Seq<char>),
    InvalidStateTransition(Seq<char>),
    UnknownEffect { symbol: Seq<char>, effect: Seq<char> },
    UnknownStateTransition(Seq<char>),
    UnknownInformationTransition(Seq<char>),
    UnknownEnvironmentOutcome { operation: Seq<char>, outcome: Seq<char> },
}

impl View for BehaviorRealizationContractError {
    type V = ContractErrorModel;

    open spec fn view(&self) -> ContractErrorModel {
        match self {
            BehaviorRealizationContractError::InvalidJson { path, detail } => ContractErrorModel::InvalidJson {
                path: path@,
                detail: detail@,
            },
            BehaviorRealizationContractError::UnsupportedSchema(v) => ContractErrorModel::UnsupportedSchema(v@),
            BehaviorRealizationContractError::NonCanonical(v) => ContractErrorModel::NonCanonical(v@),
            BehaviorRealizationContractError::UnknownFeature(v) => ContractErrorModel::UnknownFeature(v@),
            BehaviorRealizationContractError::UnknownCheckpoint { feature, checkpoint } =>
                ContractErrorModel::UnknownCheckpoint { feature: feature@, checkpoint: checkpoint@ },
            BehaviorRealizationContractError::DuplicateIdentity(v) => ContractErrorModel::DuplicateIdentity(v@),
            BehaviorRealizationContractError::MissingCheckpoint { feature, checkpoint } =>
                ContractErrorModel::MissingCheckpoint { feature: feature@, checkpoint: checkpoint@ },
            BehaviorRealizationContractError::EmptyAnchors(v) => ContractErrorModel::EmptyAnchors(v@),
            BehaviorRealizationContractError::NonCanonicalOrder(v) => ContractErrorModel::NonCanonicalOrder(v@),
            BehaviorRealizationContractError::ForeignContractOwner { feature, module } =>
                ContractErrorModel::ForeignContractOwner { feature: feature@, module: module@ },
            BehaviorRealizationContractError::UnknownSymbol(v) => ContractErrorModel::UnknownSymbol(v@),
            BehaviorRealizationContractError::ForeignSymbol { feature, symbol } => ContractErrorModel::ForeignSymbol {
                feature: feature@,
                symbol: symbol@,
            },
            BehaviorRealizationContractError::UnknownNominalType(v) => ContractErrorModel::UnknownNominalType(v@),
            BehaviorRealizationContractError::InvalidStateTransition(v) => ContractErrorModel::InvalidStateTransition(
                v@,
            ),
            BehaviorRealizationContractError::UnknownEffect { symbol, effect } => ContractErrorModel::UnknownEffect {
                symbol: symbol@,
                effect: effect@,
            },
            BehaviorRealizationContractError::UnknownStateTransition(v) => ContractErrorModel::UnknownStateTransition(
                v@,
            ),
            BehaviorRealizationContractError::UnknownInformationTransition(v) =>
                ContractErrorModel::UnknownInformationTransition(v@),
            BehaviorRealizationContractError::UnknownEnvironmentOutcome { operation, outcome } =>
                ContractErrorModel::UnknownEnvironmentOutcome { operation: operation@, outcome: outcome@ },
        }
    }
}

// ---------------------------------------------------------------------------
// Anchors.

/// The first State/Effect summary of a symbol.
pub open spec fn summary_of(sums: Seq<EffectSummaryFacts>, symbol: Seq<char>) -> Option<EffectSummaryFacts>
    decreases sums.len(),
{
    if sums.len() == 0 {
        None
    } else if sums[0].symbol@ == symbol {
        Some(sums[0])
    } else {
        summary_of(sums.drop_first(), symbol)
    }
}

/// A classification admits exactly the expected states.
pub open spec fn classification_contains(c: Option<TypestateClassification>, expected: Seq<Seq<char>>) -> bool {
    match c {
        Some(TypestateClassification::Exact(state)) => expected.len() == 1 && expected[0] == state@,
        Some(TypestateClassification::Possible(states)) => texts(states@) == expected,
        _ => false,
    }
}

/// Some declared trusted transition matches exactly.
pub open spec fn transition_declared(
    ts: Seq<TrustedTransitionFact>,
    kind: Seq<char>,
    symbol: Seq<char>,
    facet: Seq<char>,
    from: Seq<char>,
    to: Seq<char>,
) -> bool {
    exists|k: int|
        0 <= k < ts.len() && (#[trigger] ts[k]).kind@ == kind && ts[k].symbol@ == symbol && ts[k].facet@ == facet
            && ts[k].from@ == from && ts[k].to@ == to
}

/// Some external operation admits the outcome.
pub open spec fn outcome_admitted(ops: Seq<EnvironmentOperationFacts>, operation: Seq<char>, outcome: Seq<char>) -> bool {
    exists|k: int|
        0 <= k < ops.len() && (#[trigger] ops[k]).operation@ == operation && texts(ops[k].outcomes@).contains(outcome)
}

/// Why an anchor of a Feature owned by `owner` is refused, if it is: its
/// symbol is unknown or outside the owner's subtree; or what it claims is
/// not established by its canonical semantic authority.
pub open spec fn anchor_issue(auth: AnchorAuthority, feature: Seq<char>, owner: Seq<char>, a: AnchorModel) -> Option<
    ContractErrorModel,
> {
    let symbol_issue = match super::contract::anchor_symbol(a) {
        Some(sym) => match lookup(auth.symbols@, sym) {
            None => Some(ContractErrorModel::UnknownSymbol(sym)),
            Some(m) => if !module_in_subtree(auth.module_paths@, owner, m) {
                Some(ContractErrorModel::ForeignSymbol { feature, symbol: sym })
            } else {
                None
            },
        },
        None => None,
    };
    if symbol_issue is Some {
        symbol_issue
    } else {
        match a {
            AnchorModel::StateTransition { nominal_type, symbol, from_states, to_states } => if !texts(
                auth.nominal_types@,
            ).contains(nominal_type) {
                Some(ContractErrorModel::UnknownNominalType(nominal_type))
            } else if from_states.len() == 0 || to_states.len() == 0 || !crate::text::strictly_sorted(from_states)
                || !crate::text::strictly_sorted(to_states) {
                Some(ContractErrorModel::InvalidStateTransition(symbol))
            } else if !(summary_of(auth.summaries@, symbol) matches Some(s) && classification_contains(
                s.input_receiver_state,
                from_states,
            ) && classification_contains(s.output_receiver_state, to_states)) {
                Some(ContractErrorModel::UnknownStateTransition(symbol))
            } else {
                None
            },
            AnchorModel::Effect { effect, symbol } => if !(summary_of(auth.summaries@, symbol) matches Some(s) && texts(
                s.transitive_effects@,
            ).contains(effect)) {
                Some(ContractErrorModel::UnknownEffect { symbol, effect })
            } else {
                None
            },
            AnchorModel::InformationTransition { transition, symbol, facet, from, to } => if !transition_declared(
                auth.transitions@,
                transition,
                symbol,
                facet,
                from,
                to,
            ) {
                Some(ContractErrorModel::UnknownInformationTransition(symbol))
            } else {
                None
            },
            AnchorModel::EnvironmentOutcome { operation, outcome } => if !outcome_admitted(
                auth.operations@,
                operation,
                outcome,
            ) {
                Some(ContractErrorModel::UnknownEnvironmentOutcome { operation, outcome })
            } else {
                None
            },
            _ => None,
        }
    }
}

fn summary_position(sums: &Vec<EffectSummaryFacts>, symbol: &str) -> (r: Option<usize>)
    ensures
        match summary_of(sums@, symbol@) {
            Some(s) => r matches Some(k) && k < sums@.len() && sums@[k as int] == s,
            None => r is None,
        },
{
    let mut k: usize = 0;
    assert(sums@.skip(0) =~= sums@);
    while k < sums.len()
        invariant
            k <= sums@.len(),
            summary_of(sums@, symbol@) == summary_of(sums@.skip(k as int), symbol@),
        decreases sums.len() - k,
    {
        assert(sums@.skip(k as int)[0] == sums@[k as int]);
        if text_eq(sums[k].symbol.as_str(), symbol) {
            return Some(k);
        }
        assert(sums@.skip(k as int).drop_first() =~= sums@.skip(k + 1));
        k = k + 1;
    }
    None
}

fn classification_contains_exec(c: &Option<TypestateClassification>, expected: &Vec<String>) -> (r: bool)
    ensures
        r == classification_contains(*c, texts(expected@)),
{
    match c {
        Some(TypestateClassification::Exact(state)) => {
            if expected.len() != 1 {
                return false;
            }
            text_eq(expected[0].as_str(), state.as_str())
        },
        Some(TypestateClassification::Possible(states)) => crate::affected::same_texts(states.as_slice(), expected.as_slice()),
        _ => false,
    }
}

fn contains_text(values: &Vec<String>, x: &str) -> (r: bool)
    ensures
        r == texts(values@).contains(x@),
{
    crate::text::texts_contain(values, x)
}

/// Why an anchor is refused, if it is.
#[verifier::loop_isolation(false)]
fn anchor_issue_exec(auth: &AnchorAuthority, feature: &str, owner: &str, a: &BehaviorAnchor) -> (r: Option<
    BehaviorRealizationContractError,
>)
    ensures
        match anchor_issue(*auth, feature@, owner@, a@) {
            Some(e) => r matches Some(x) && x@ == e,
            None => r is None,
        },
{
    match a.symbol() {
        Some(sym) => match lookup_exec(&auth.symbols, sym) {
            None => {
                return Some(BehaviorRealizationContractError::UnknownSymbol(copy_text(sym)));
            },
            Some(m) => {
                if !module_in_subtree_exec(&auth.module_paths, owner, m.as_str()) {
                    return Some(
                        BehaviorRealizationContractError::ForeignSymbol {
                            feature: copy_text(feature),
                            symbol: copy_text(sym),
                        },
                    );
                }
            },
        },
        None => {},
    }
    match a {
        BehaviorAnchor::StateTransition { nominal_type, symbol, from_states, to_states } => {
            if !contains_text(&auth.nominal_types, nominal_type.as_str()) {
                return Some(BehaviorRealizationContractError::UnknownNominalType(copy_text(nominal_type.as_str())));
            }
            if from_states.len() == 0 || to_states.len() == 0 || !crate::text::is_strictly_sorted(from_states)
                || !crate::text::is_strictly_sorted(to_states) {
                return Some(BehaviorRealizationContractError::InvalidStateTransition(copy_text(symbol.as_str())));
            }
            let established = match summary_position(&auth.summaries, symbol.as_str()) {
                Some(k) => classification_contains_exec(&auth.summaries[k].input_receiver_state, from_states)
                    && classification_contains_exec(&auth.summaries[k].output_receiver_state, to_states),
                None => false,
            };
            if !established {
                return Some(BehaviorRealizationContractError::UnknownStateTransition(copy_text(symbol.as_str())));
            }
            None
        },
        BehaviorAnchor::Effect { effect, symbol } => {
            let established = match summary_position(&auth.summaries, symbol.as_str()) {
                Some(k) => contains_text(&auth.summaries[k].transitive_effects, effect.as_str()),
                None => false,
            };
            if !established {
                return Some(
                    BehaviorRealizationContractError::UnknownEffect {
                        symbol: copy_text(symbol.as_str()),
                        effect: copy_text(effect.as_str()),
                    },
                );
            }
            None
        },
        BehaviorAnchor::InformationTransition { transition, symbol, facet, from, to } => {
            let mut k: usize = 0;
            while k < auth.transitions.len()
                invariant
                    k <= auth.transitions@.len(),
                    forall|j: int|
                        0 <= j < k ==> !((#[trigger] auth.transitions@[j]).kind@ == transition@
                            && auth.transitions@[j].symbol@ == symbol@ && auth.transitions@[j].facet@ == facet@
                            && auth.transitions@[j].from@ == from@ && auth.transitions@[j].to@ == to@),
                decreases auth.transitions.len() - k,
            {
                let t = &auth.transitions[k];
                if text_eq(t.kind.as_str(), transition.as_str()) && text_eq(t.symbol.as_str(), symbol.as_str())
                    && text_eq(t.facet.as_str(), facet.as_str()) && text_eq(t.from.as_str(), from.as_str())
                    && text_eq(t.to.as_str(), to.as_str()) {
                    assert(auth.transitions@[k as int] == *t);
                    return None;
                }
                k = k + 1;
            }
            Some(BehaviorRealizationContractError::UnknownInformationTransition(copy_text(symbol.as_str())))
        },
        BehaviorAnchor::EnvironmentOutcome { operation, outcome } => {
            let mut k: usize = 0;
            while k < auth.operations.len()
                invariant
                    k <= auth.operations@.len(),
                    forall|j: int|
                        0 <= j < k ==> !((#[trigger] auth.operations@[j]).operation@ == operation@ && texts(
                            auth.operations@[j].outcomes@,
                        ).contains(outcome@)),
                decreases auth.operations.len() - k,
            {
                let o = &auth.operations[k];
                if text_eq(o.operation.as_str(), operation.as_str()) && contains_text(&o.outcomes, outcome.as_str()) {
                    assert(auth.operations@[k as int] == *o);
                    return None;
                }
                k = k + 1;
            }
            Some(
                BehaviorRealizationContractError::UnknownEnvironmentOutcome {
                    operation: copy_text(operation.as_str()),
                    outcome: copy_text(outcome.as_str()),
                },
            )
        },
        _ => None,
    }
}


// ---------------------------------------------------------------------------
// Canonical order of anchors: by kind, then field by field, state lists
// compared as lists.

/// Field encoding of an optional Boolean refinement: absent, `false`, `true`.
pub open spec fn boolean_field(b: Option<bool>) -> Seq<char> {
    match b {
        None => Seq::empty(),
        Some(false) => seq!['a'],
        Some(true) => seq!['b'],
    }
}

/// The ordered fields of an anchor.
pub open spec fn anchor_groups(a: AnchorModel) -> Seq<Seq<Seq<char>>> {
    match a {
        AnchorModel::SymbolEntry { symbol } => seq![single(rank_field(0)), single(symbol)],
        AnchorModel::SymbolReturn { symbol, boolean } => seq![
            single(rank_field(1)),
            single(symbol),
            single(boolean_field(boolean)),
        ],
        AnchorModel::StateTransition { nominal_type, symbol, from_states, to_states } => seq![
            single(rank_field(2)),
            single(nominal_type),
            single(symbol),
            from_states,
            to_states,
        ],
        AnchorModel::Effect { effect, symbol } => seq![single(rank_field(3)), single(effect), single(symbol)],
        AnchorModel::InformationTransition { transition, symbol, facet, from, to } => seq![
            single(rank_field(4)),
            single(transition),
            single(symbol),
            single(facet),
            single(from),
            single(to),
        ],
        AnchorModel::EnvironmentOutcome { operation, outcome } => seq![
            single(rank_field(5)),
            single(operation),
            single(outcome),
        ],
    }
}

/// `a` strictly precedes `b`.
pub open spec fn anchor_lt(a: AnchorModel, b: AnchorModel) -> bool {
    groups_le(anchor_groups(a), anchor_groups(b)) && anchor_groups(a) != anchor_groups(b)
}

/// Every adjacent pair of anchors is strictly increasing.
pub open spec fn anchors_strictly_sorted(s: Seq<AnchorModel>) -> bool {
    forall|i: int| 0 <= i < s.len() - 1 ==> anchor_lt(#[trigger] s[i], s[i + 1])
}

fn text_field(s: &str) -> (r: Vec<Vec<char>>)
    ensures
        r@.map_values(|c: Vec<char>| c@) == single(s@),
{
    single_exec(s)
}

fn rank_group(k: u8) -> (r: Vec<Vec<char>>)
    ensures
        r@.map_values(|c: Vec<char>| c@) == single(rank_field(k as nat)),
{
    let mut r: Vec<Vec<char>> = Vec::new();
    r.push(rank_field_exec(k));
    assert(r@.map_values(|c: Vec<char>| c@) =~= single(rank_field(k as nat)));
    r
}

fn boolean_group(b: Option<bool>) -> (r: Vec<Vec<char>>)
    ensures
        r@.map_values(|c: Vec<char>| c@) == single(boolean_field(b)),
{
    let mut f: Vec<char> = Vec::new();
    match b {
        None => {},
        Some(false) => f.push('a'),
        Some(true) => f.push('b'),
    }
    assert(f@ =~= boolean_field(b));
    let mut r: Vec<Vec<char>> = Vec::new();
    r.push(f);
    assert(r@.map_values(|c: Vec<char>| c@) =~= single(boolean_field(b)));
    r
}

fn anchor_groups_exec(a: &BehaviorAnchor) -> (r: Vec<Vec<Vec<char>>>)
    ensures
        group_views(r@) == anchor_groups(a@),
{
    let mut r: Vec<Vec<Vec<char>>> = Vec::new();
    match a {
        BehaviorAnchor::SymbolEntry { symbol } => {
            r.push(rank_group(0));
            r.push(text_field(symbol.as_str()));
        },
        BehaviorAnchor::SymbolReturn { symbol, boolean } => {
            r.push(rank_group(1));
            r.push(text_field(symbol.as_str()));
            r.push(boolean_group(*boolean));
        },
        BehaviorAnchor::StateTransition { nominal_type, symbol, from_states, to_states } => {
            r.push(rank_group(2));
            r.push(text_field(nominal_type.as_str()));
            r.push(text_field(symbol.as_str()));
            r.push(texts_exec(from_states.as_slice()));
            r.push(texts_exec(to_states.as_slice()));
        },
        BehaviorAnchor::Effect { effect, symbol } => {
            r.push(rank_group(3));
            r.push(text_field(effect.as_str()));
            r.push(text_field(symbol.as_str()));
        },
        BehaviorAnchor::InformationTransition { transition, symbol, facet, from, to } => {
            r.push(rank_group(4));
            r.push(text_field(transition.as_str()));
            r.push(text_field(symbol.as_str()));
            r.push(text_field(facet.as_str()));
            r.push(text_field(from.as_str()));
            r.push(text_field(to.as_str()));
        },
        BehaviorAnchor::EnvironmentOutcome { operation, outcome } => {
            r.push(rank_group(5));
            r.push(text_field(operation.as_str()));
            r.push(text_field(outcome.as_str()));
        },
    }
    assert(group_views(r@) =~= anchor_groups(a@));
    r
}

fn anchor_lt_exec(a: &BehaviorAnchor, b: &BehaviorAnchor) -> (r: bool)
    ensures
        r == anchor_lt(a@, b@),
{
    let x = anchor_groups_exec(a);
    let y = anchor_groups_exec(b);
    let le = groups_le_exec(&x, &y);
    let ge = groups_le_exec(&y, &x);
    proof {
        if le && ge {
            lemma_groups_le_antisymmetric(group_views(x@), group_views(y@));
        }
        if anchor_groups(a@) == anchor_groups(b@) {
            lemma_groups_le_reflexive(anchor_groups(a@));
        }
    }
    le && !ge
}

fn anchors_sorted_exec(anchors: &Vec<BehaviorAnchor>) -> (r: bool)
    ensures
        r == anchors_strictly_sorted(views(anchors@)),
{
    let ghost s = views(anchors@);
    let mut i: usize = 0;
    while anchors.len() > 0 && i < anchors.len() - 1
        invariant
            i <= anchors.len(),
            s == views(anchors@),
            forall|k: int| 0 <= k < i && k < s.len() - 1 ==> anchor_lt(#[trigger] s[k], s[k + 1]),
        decreases anchors.len() - i,
    {
        if !anchor_lt_exec(&anchors[i], &anchors[i + 1]) {
            assert(s[i as int] == anchors@[i as int]@ && s[i + 1] == anchors@[i + 1]@);
            return false;
        }
        assert(s[i as int] == anchors@[i as int]@ && s[i + 1] == anchors@[i + 1]@);
        i = i + 1;
    }
    true
}

// ---------------------------------------------------------------------------
// Identities and lookups.

/// The Feature identities of a document.
pub open spec fn feature_ids(fs: Seq<FeatureContractModel>) -> Seq<Seq<char>> {
    fs.map_values(|f: FeatureContractModel| f.feature)
}

/// The checkpoint identities of a Feature contract.
pub open spec fn checkpoint_ids(cs: Seq<CheckpointContractModel>) -> Seq<Seq<char>> {
    cs.map_values(|c: CheckpointContractModel| c.checkpoint)
}

fn feature_ids_exec(fs: &Vec<FeatureContract>) -> (r: Vec<String>)
    ensures
        texts(r@) == feature_ids(views(fs@)),
{
    let mut r: Vec<String> = Vec::new();
    let mut i: usize = 0;
    while i < fs.len()
        invariant
            i <= fs@.len(),
            texts(r@) == feature_ids(views(fs@)).take(i as int),
        decreases fs.len() - i,
    {
        let ghost before = r@;
        r.push(copy_text(fs[i].feature.as_str()));
        assert(texts(r@) =~= texts(before).push(fs@[i as int].feature@));
        assert(feature_ids(views(fs@)).take(i + 1) =~= feature_ids(views(fs@)).take(i as int).push(
            fs@[i as int].feature@,
        ));
        i = i + 1;
    }
    assert(feature_ids(views(fs@)).take(fs@.len() as int) =~= feature_ids(views(fs@)));
    r
}

fn checkpoint_ids_exec(cs: &Vec<CheckpointContract>) -> (r: Vec<String>)
    ensures
        texts(r@) == checkpoint_ids(views(cs@)),
{
    let mut r: Vec<String> = Vec::new();
    let mut i: usize = 0;
    while i < cs.len()
        invariant
            i <= cs@.len(),
            texts(r@) == checkpoint_ids(views(cs@)).take(i as int),
        decreases cs.len() - i,
    {
        let ghost before = r@;
        r.push(copy_text(cs[i].checkpoint.as_str()));
        assert(texts(r@) =~= texts(before).push(cs@[i as int].checkpoint@));
        assert(checkpoint_ids(views(cs@)).take(i + 1) =~= checkpoint_ids(views(cs@)).take(i as int).push(
            cs@[i as int].checkpoint@,
        ));
        i = i + 1;
    }
    assert(checkpoint_ids(views(cs@)).take(cs@.len() as int) =~= checkpoint_ids(views(cs@)));
    r
}

/// The flow of a Feature: the last flow with that identity.
pub open spec fn flow_of(flows: Seq<FlowModel>, feature: Seq<char>) -> Option<FlowModel>
    decreases flows.len(),
{
    if flows.len() == 0 {
        None
    } else if flows.last().feature == feature {
        Some(flows.last())
    } else {
        flow_of(flows.drop_last(), feature)
    }
}

fn flow_position(flows: &[IntendedFeatureFlow], feature: &str) -> (r: Option<usize>)
    ensures
        match flow_of(views(flows@), feature@) {
            Some(f) => r matches Some(k) && k < flows@.len() && flows@[k as int]@ == f,
            None => r is None,
        },
{
    let ghost fv = views(flows@);
    let mut k: usize = flows.len();
    assert(fv.take(k as int) =~= fv);
    while k > 0
        invariant
            k <= flows@.len(),
            fv == views(flows@),
            flow_of(fv, feature@) == flow_of(fv.take(k as int), feature@),
        decreases k,
    {
        assert(fv.take(k as int).last() == flows@[k - 1]@);
        if text_eq(flows[k - 1].feature(), feature) {
            return Some(k - 1);
        }
        assert(fv.take(k as int).drop_last() =~= fv.take(k - 1));
        k = k - 1;
    }
    None
}

/// The node checkpoints of a flow.
pub open spec fn node_checkpoints(nodes: Seq<NodeModel>) -> Seq<Seq<char>> {
    nodes.map_values(|n: NodeModel| n.checkpoint)
}

/// The least node checkpoint that the authored checkpoints omit.
pub open spec fn least_missing(nodes: Seq<Seq<char>>, authored: Seq<Seq<char>>) -> Option<Seq<char>>
    decreases nodes.len(),
{
    if nodes.len() == 0 {
        None
    } else {
        let prev = least_missing(nodes.drop_last(), authored);
        let c = nodes.last();
        if !authored.contains(c) && (prev matches Some(p) ==> seq_lt(c, p)) {
            Some(c)
        } else {
            prev
        }
    }
}

fn least_missing_exec(nodes: &[BfgNode], authored: &Vec<String>) -> (r: Option<String>)
    ensures
        match least_missing(node_checkpoints(views(nodes@)), texts(authored@)) {
            Some(c) => r matches Some(x) && x@ == c,
            None => r is None,
        },
{
    let ghost nc = node_checkpoints(views(nodes@));
    let mut best: Option<String> = None;
    let mut k: usize = 0;
    while k < nodes.len()
        invariant
            k <= nodes@.len(),
            nc == node_checkpoints(views(nodes@)),
            match least_missing(nc.take(k as int), texts(authored@)) {
                Some(c) => best matches Some(x) && x@ == c,
                None => best is None,
            },
        decreases nodes.len() - k,
    {
        let c = nodes[k].checkpoint();
        assert(nc.take(k + 1).drop_last() =~= nc.take(k as int));
        assert(nc.take(k + 1).last() == c@);
        if !contains_text(authored, c) {
            let better = match &best {
                Some(p) => text_lt(c, p.as_str()),
                None => true,
            };
            if better {
                best = Some(copy_text(c));
            }
        }
        k = k + 1;
    }
    assert(nc.take(nodes@.len() as int) =~= nc);
    best
}


// ---------------------------------------------------------------------------
// Validation, one level at a time. Each level either refuses the input with
// the first violation in document order, or extends the accumulated state.

/// What has been accepted so far: the opted-in Features, the checkpoint
/// identities, and the bindings, each in the order accepted.
pub struct LoadState {
    pub features: Seq<Seq<char>>,
    pub checkpoint_ids: Seq<Seq<char>>,
    pub bindings: Seq<ResolvedModel>,
}

struct Accumulator {
    features: Vec<String>,
    checkpoint_ids: Vec<String>,
    bindings: Vec<ResolvedCheckpointRealization>,
}

impl View for Accumulator {
    type V = LoadState;

    closed spec fn view(&self) -> LoadState {
        LoadState {
            features: texts(self.features@),
            checkpoint_ids: texts(self.checkpoint_ids@),
            bindings: views(self.bindings@),
        }
    }
}

/// Where the checkpoints of the `fi`-th Feature of a document stand.
pub open spec fn checkpoints_location(path: Seq<char>, fi: nat) -> Seq<char> {
    path + "/features/"@ + decimal_of(fi) + "/checkpoints"@
}

/// Where the anchors of a checkpoint stand.
pub open spec fn anchors_location(path: Seq<char>, fi: nat, ci: nat) -> Seq<char> {
    checkpoints_location(path, fi) + "/"@ + decimal_of(ci) + "/anchors"@
}

/// The JSON pointer of a checkpoint entry within its document.
pub open spec fn checkpoint_pointer(fi: nat, ci: nat) -> Seq<char> {
    "/features/"@ + decimal_of(fi) + "/checkpoints/"@ + decimal_of(ci)
}

fn checkpoints_location_exec(path: &str, fi: usize) -> (r: String)
    ensures
        r@ == checkpoints_location(path@, fi as nat),
{
    let a = concat(path, "/features/");
    let n = decimal(fi as u64);
    let b = concat(a.as_str(), n.as_str());
    concat(b.as_str(), "/checkpoints")
}

fn anchors_location_exec(path: &str, fi: usize, ci: usize) -> (r: String)
    ensures
        r@ == anchors_location(path@, fi as nat, ci as nat),
{
    let a = checkpoints_location_exec(path, fi);
    let b = concat(a.as_str(), "/");
    let n = decimal(ci as u64);
    let c = concat(b.as_str(), n.as_str());
    concat(c.as_str(), "/anchors")
}

fn checkpoint_pointer_exec(fi: usize, ci: usize) -> (r: String)
    ensures
        r@ == checkpoint_pointer(fi as nat, ci as nat),
{
    let n = decimal(fi as u64);
    let a = concat("/features/", n.as_str());
    let b = concat(a.as_str(), "/checkpoints/");
    let m = decimal(ci as u64);
    concat(b.as_str(), m.as_str())
}

/// The first refused anchor's refusal, in anchor order.
pub open spec fn first_anchor_issue(auth: AnchorAuthority, feature: Seq<char>, owner: Seq<char>, anchors: Seq<AnchorModel>) -> Option<ContractErrorModel>
    decreases anchors.len(),
{
    if anchors.len() == 0 {
        None
    } else {
        match first_anchor_issue(auth, feature, owner, anchors.drop_last()) {
            Some(e) => Some(e),
            None => anchor_issue(auth, feature, owner, anchors.last()),
        }
    }
}

fn first_anchor_issue_exec(auth: &AnchorAuthority, feature: &str, owner: &str, anchors: &Vec<BehaviorAnchor>) -> (r: Option<BehaviorRealizationContractError>)
    ensures
        match first_anchor_issue(*auth, feature@, owner@, views(anchors@)) {
            Some(e) => r matches Some(x) && x@ == e,
            None => r is None,
        },
{
    let ghost av = views(anchors@);
    let mut k: usize = 0;
    while k < anchors.len()
        invariant
            k <= anchors@.len(),
            av == views(anchors@),
            first_anchor_issue(*auth, feature@, owner@, av.take(k as int)) is None,
        decreases anchors.len() - k,
    {
        assert(av.take(k + 1).drop_last() =~= av.take(k as int));
        assert(av.take(k + 1).last() == anchors@[k as int]@);
        let issue = anchor_issue_exec(auth, feature, owner, &anchors[k]);
        if issue.is_some() {
            proof {
                lemma_first_issue_prefix(*auth, feature@, owner@, av, k + 1);
            }
            return issue;
        }
        k = k + 1;
    }
    assert(av.take(anchors@.len() as int) =~= av);
    None
}

proof fn lemma_first_issue_prefix(auth: AnchorAuthority, feature: Seq<char>, owner: Seq<char>, s: Seq<AnchorModel>, k: int)
    requires
        0 <= k <= s.len(),
        first_anchor_issue(auth, feature, owner, s.take(k)) is Some,
    ensures
        first_anchor_issue(auth, feature, owner, s) == first_anchor_issue(auth, feature, owner, s.take(k)),
    decreases s.len() - k,
{
    if k < s.len() {
        assert(s.take(k + 1).drop_last() =~= s.take(k));
        lemma_first_issue_prefix(auth, feature, owner, s, k + 1);
    } else {
        assert(s.take(k) =~= s);
    }
}

/// Accepting one authored checkpoint of the `fi`-th Feature of a source, as
/// its `ci`-th entry: it must be a node of the Feature's flow, new, with
/// anchors, in canonical order, each established.
pub open spec fn checkpoint_step(
    auth: AnchorAuthority,
    nodes: Seq<Seq<char>>,
    owner: Seq<char>,
    src: SourceModel,
    feature: Seq<char>,
    fi: nat,
    ci: nat,
    cp: CheckpointContractModel,
    st: LoadState,
) -> Result<LoadState, ContractErrorModel> {
    if !nodes.contains(cp.checkpoint) {
        Err(ContractErrorModel::UnknownCheckpoint { feature, checkpoint: cp.checkpoint })
    } else if st.checkpoint_ids.contains(cp.checkpoint) {
        Err(ContractErrorModel::DuplicateIdentity(cp.checkpoint))
    } else if cp.anchors.len() == 0 {
        Err(ContractErrorModel::EmptyAnchors(cp.checkpoint))
    } else if !anchors_strictly_sorted(cp.anchors) {
        Err(ContractErrorModel::NonCanonicalOrder(anchors_location(src.path, fi, ci)))
    } else {
        match first_anchor_issue(auth, feature, owner, cp.anchors) {
            Some(e) => Err(e),
            None => Ok(
                LoadState {
                    features: st.features,
                    checkpoint_ids: st.checkpoint_ids.push(cp.checkpoint),
                    bindings: st.bindings.push(
                        ResolvedModel {
                            feature,
                            checkpoint: cp.checkpoint,
                            declaring_module: src.module_id,
                            source_path: src.path,
                            pointer: checkpoint_pointer(fi, ci),
                            anchors: cp.anchors,
                        },
                    ),
                },
            ),
        }
    }
}

fn copy_anchors(anchors: &Vec<BehaviorAnchor>) -> (r: Vec<BehaviorAnchor>)
    ensures
        views(r@) == views(anchors@),
{
    let mut r: Vec<BehaviorAnchor> = Vec::new();
    let mut i: usize = 0;
    while i < anchors.len()
        invariant
            i <= anchors@.len(),
            views(r@) == views(anchors@).take(i as int),
        decreases anchors.len() - i,
    {
        let ghost before = r@;
        r.push(anchors[i].duplicate());
        assert(views(r@) =~= views(before).push(anchors@[i as int]@));
        assert(views(anchors@).take(i + 1) =~= views(anchors@).take(i as int).push(anchors@[i as int]@));
        i = i + 1;
    }
    assert(views(anchors@).take(anchors@.len() as int) =~= views(anchors@));
    r
}

#[verifier::rlimit(40)]
fn checkpoint_step_exec(
    auth: &AnchorAuthority,
    nodes: &Vec<String>,
    owner: &str,
    src: &BehaviorRealizationContractSource,
    feature: &str,
    fi: usize,
    ci: usize,
    cp: &CheckpointContract,
    st: &mut Accumulator,
) -> (r: Result<(), BehaviorRealizationContractError>)
    ensures
        match checkpoint_step(*auth, texts(nodes@), owner@, src@, feature@, fi as nat, ci as nat, cp@, old(st)@) {
            Ok(s2) => r is Ok && final(st)@ == s2,
            Err(e) => r matches Err(x) && x@ == e,
        },
{
    let c = cp.checkpoint.as_str();
    if !contains_text(nodes, c) {
        return Err(
            BehaviorRealizationContractError::UnknownCheckpoint { feature: copy_text(feature), checkpoint: copy_text(c) },
        );
    }
    if contains_text(&st.checkpoint_ids, c) {
        return Err(BehaviorRealizationContractError::DuplicateIdentity(copy_text(c)));
    }
    if cp.anchors.len() == 0 {
        return Err(BehaviorRealizationContractError::EmptyAnchors(copy_text(c)));
    }
    if !anchors_sorted_exec(&cp.anchors) {
        return Err(BehaviorRealizationContractError::NonCanonicalOrder(anchors_location_exec(src.path(), fi, ci)));
    }
    match first_anchor_issue_exec(auth, feature, owner, &cp.anchors) {
        Some(e) => Err(e),
        None => {
            let ghost before = st@;
            st.checkpoint_ids.push(copy_text(c));
            let b = ResolvedCheckpointRealization::new(
                copy_text(feature),
                copy_text(c),
                BindingOrigin {
                    declaring_module: copy_text(src.module_id()),
                    source_path: copy_text(src.path()),
                    pointer: checkpoint_pointer_exec(fi, ci),
                },
                copy_anchors(&cp.anchors),
            );
            let ghost bm = b@;
            st.bindings.push(b);
            proof {
                assert(texts(st.checkpoint_ids@) =~= before.checkpoint_ids.push(c@));
                assert(views(st.bindings@) =~= before.bindings.push(bm));
            }
            Ok(())
        },
    }
}


/// Accepting the authored checkpoints of a Feature, in order.
pub open spec fn checkpoints_fold(
    auth: AnchorAuthority,
    nodes: Seq<Seq<char>>,
    owner: Seq<char>,
    src: SourceModel,
    feature: Seq<char>,
    fi: nat,
    cps: Seq<CheckpointContractModel>,
    st: LoadState,
) -> Result<LoadState, ContractErrorModel>
    decreases cps.len(),
{
    if cps.len() == 0 {
        Ok(st)
    } else {
        match checkpoints_fold(auth, nodes, owner, src, feature, fi, cps.drop_last(), st) {
            Err(e) => Err(e),
            Ok(s2) => checkpoint_step(auth, nodes, owner, src, feature, fi, (cps.len() - 1) as nat, cps.last(), s2),
        }
    }
}

proof fn lemma_checkpoints_fold_err(
    auth: AnchorAuthority,
    nodes: Seq<Seq<char>>,
    owner: Seq<char>,
    src: SourceModel,
    feature: Seq<char>,
    fi: nat,
    cps: Seq<CheckpointContractModel>,
    st: LoadState,
    k: int,
)
    requires
        0 <= k <= cps.len(),
        checkpoints_fold(auth, nodes, owner, src, feature, fi, cps.take(k), st) is Err,
    ensures
        checkpoints_fold(auth, nodes, owner, src, feature, fi, cps, st) == checkpoints_fold(
            auth,
            nodes,
            owner,
            src,
            feature,
            fi,
            cps.take(k),
            st,
        ),
    decreases cps.len() - k,
{
    if k < cps.len() {
        assert(cps.take(k + 1).drop_last() =~= cps.take(k));
        lemma_checkpoints_fold_err(auth, nodes, owner, src, feature, fi, cps, st, k + 1);
    } else {
        assert(cps.take(k) =~= cps);
    }
}

#[verifier::rlimit(40)]
fn checkpoints_fold_exec(
    auth: &AnchorAuthority,
    nodes: &Vec<String>,
    owner: &str,
    src: &BehaviorRealizationContractSource,
    feature: &str,
    fi: usize,
    cps: &Vec<CheckpointContract>,
    st: &mut Accumulator,
) -> (r: Result<(), BehaviorRealizationContractError>)
    ensures
        match checkpoints_fold(*auth, texts(nodes@), owner@, src@, feature@, fi as nat, views(cps@), old(st)@) {
            Ok(s2) => r is Ok && final(st)@ == s2,
            Err(e) => r matches Err(x) && x@ == e,
        },
{
    let ghost cv = views(cps@);
    let ghost st0 = st@;
    let mut ci: usize = 0;
    assert(cv.take(0) =~= Seq::<CheckpointContractModel>::empty());
    while ci < cps.len()
        invariant
            ci <= cps@.len(),
            cv == views(cps@),
            st0 == old(st)@,
            checkpoints_fold(*auth, texts(nodes@), owner@, src@, feature@, fi as nat, cv.take(ci as int), st0) == Ok::<
                LoadState,
                ContractErrorModel,
            >(st@),
        decreases cps.len() - ci,
    {
        assert(cv.take(ci + 1).drop_last() =~= cv.take(ci as int));
        assert(cv.take(ci + 1).last() == cps@[ci as int]@);
        let ghost pre = st@;
        let r = checkpoint_step_exec(auth, nodes, owner, src, feature, fi, ci, &cps[ci], st);
        if r.is_err() {
            proof {
                assert(checkpoints_fold(*auth, texts(nodes@), owner@, src@, feature@, fi as nat, cv.take(ci + 1), st0)
                    == checkpoint_step(*auth, texts(nodes@), owner@, src@, feature@, fi as nat, ci as nat, cps@[ci as int]@, pre));
                lemma_checkpoints_fold_err(*auth, texts(nodes@), owner@, src@, feature@, fi as nat, cv, st0, ci + 1);
            }
            return r;
        }
        ci = ci + 1;
    }
    assert(cv.take(cps@.len() as int) =~= cv);
    Ok(())
}

fn node_ids_exec(nodes: &[BfgNode]) -> (r: Vec<String>)
    ensures
        texts(r@) == node_checkpoints(views(nodes@)),
{
    let ghost nc = node_checkpoints(views(nodes@));
    let mut r: Vec<String> = Vec::new();
    let mut i: usize = 0;
    while i < nodes.len()
        invariant
            i <= nodes@.len(),
            nc == node_checkpoints(views(nodes@)),
            texts(r@) == nc.take(i as int),
        decreases nodes.len() - i,
    {
        let ghost before = r@;
        let c = nodes[i].checkpoint();
        r.push(copy_text(c));
        assert(texts(r@) =~= texts(before).push(c@));
        assert(nc.take(i + 1) =~= nc.take(i as int).push(c@));
        i = i + 1;
    }
    assert(nc.take(nodes@.len() as int) =~= nc);
    r
}

/// Accepting the `fi`-th Feature of a source: it must have a flow, be new,
/// be declared within its owner's subtree, list its checkpoints in strict
/// order, have each accepted, and omit none of its flow's checkpoints.
pub open spec fn feature_step(
    auth: AnchorAuthority,
    flows: Seq<FlowModel>,
    src: SourceModel,
    fi: nat,
    f: FeatureContractModel,
    st: LoadState,
) -> Result<LoadState, ContractErrorModel> {
    match flow_of(flows, f.feature) {
        None => Err(ContractErrorModel::UnknownFeature(f.feature)),
        Some(flow) => if st.features.contains(f.feature) {
            Err(ContractErrorModel::DuplicateIdentity(f.feature))
        } else if !module_in_subtree(auth.module_paths@, flow.owner, src.module_id) {
            Err(ContractErrorModel::ForeignContractOwner { feature: f.feature, module: src.module_id })
        } else if !crate::text::strictly_sorted(checkpoint_ids(f.checkpoints)) {
            Err(ContractErrorModel::NonCanonicalOrder(checkpoints_location(src.path, fi)))
        } else {
            let st1 = LoadState { features: st.features.push(f.feature), ..st };
            match checkpoints_fold(auth, node_checkpoints(flow.nodes), flow.owner, src, f.feature, fi, f.checkpoints, st1) {
                Err(e) => Err(e),
                Ok(s2) => match least_missing(node_checkpoints(flow.nodes), checkpoint_ids(f.checkpoints)) {
                    Some(c) => Err(ContractErrorModel::MissingCheckpoint { feature: f.feature, checkpoint: c }),
                    None => Ok(s2),
                },
            }
        },
    }
}

#[verifier::rlimit(40)]
fn feature_step_exec(
    auth: &AnchorAuthority,
    flows: &[IntendedFeatureFlow],
    src: &BehaviorRealizationContractSource,
    fi: usize,
    f: &FeatureContract,
    st: &mut Accumulator,
) -> (r: Result<(), BehaviorRealizationContractError>)
    ensures
        match feature_step(*auth, views(flows@), src@, fi as nat, f@, old(st)@) {
            Ok(s2) => r is Ok && final(st)@ == s2,
            Err(e) => r matches Err(x) && x@ == e,
        },
{
    let feature = f.feature.as_str();
    let k = match flow_position(flows, feature) {
        None => {
            return Err(BehaviorRealizationContractError::UnknownFeature(copy_text(feature)));
        },
        Some(k) => k,
    };
    let flow = &flows[k];
    if contains_text(&st.features, feature) {
        return Err(BehaviorRealizationContractError::DuplicateIdentity(copy_text(feature)));
    }
    if !module_in_subtree_exec(&auth.module_paths, flow.owner(), src.module_id()) {
        return Err(
            BehaviorRealizationContractError::ForeignContractOwner {
                feature: copy_text(feature),
                module: copy_text(src.module_id()),
            },
        );
    }
    let ids = checkpoint_ids_exec(&f.checkpoints);
    if !crate::text::is_strictly_sorted(&ids) {
        return Err(BehaviorRealizationContractError::NonCanonicalOrder(checkpoints_location_exec(src.path(), fi)));
    }
    let ghost before = st@;
    st.features.push(copy_text(feature));
    assert(texts(st.features@) =~= before.features.push(feature@));
    let nodes = node_ids_exec(flow.nodes());
    let r = checkpoints_fold_exec(auth, &nodes, flow.owner(), src, feature, fi, &f.checkpoints, st);
    if r.is_err() {
        return r;
    }
    match least_missing_exec(flow.nodes(), &ids) {
        Some(c) => Err(BehaviorRealizationContractError::MissingCheckpoint { feature: copy_text(feature), checkpoint: c }),
        None => Ok(()),
    }
}


/// Accepting the Features of a source, in order.
pub open spec fn features_fold(
    auth: AnchorAuthority,
    flows: Seq<FlowModel>,
    src: SourceModel,
    fs: Seq<FeatureContractModel>,
    st: LoadState,
) -> Result<LoadState, ContractErrorModel>
    decreases fs.len(),
{
    if fs.len() == 0 {
        Ok(st)
    } else {
        match features_fold(auth, flows, src, fs.drop_last(), st) {
            Err(e) => Err(e),
            Ok(s2) => feature_step(auth, flows, src, (fs.len() - 1) as nat, fs.last(), s2),
        }
    }
}

proof fn lemma_features_fold_err(
    auth: AnchorAuthority,
    flows: Seq<FlowModel>,
    src: SourceModel,
    fs: Seq<FeatureContractModel>,
    st: LoadState,
    k: int,
)
    requires
        0 <= k <= fs.len(),
        features_fold(auth, flows, src, fs.take(k), st) is Err,
    ensures
        features_fold(auth, flows, src, fs, st) == features_fold(auth, flows, src, fs.take(k), st),
    decreases fs.len() - k,
{
    if k < fs.len() {
        assert(fs.take(k + 1).drop_last() =~= fs.take(k));
        lemma_features_fold_err(auth, flows, src, fs, st, k + 1);
    } else {
        assert(fs.take(k) =~= fs);
    }
}

#[verifier::rlimit(40)]
fn features_fold_exec(
    auth: &AnchorAuthority,
    flows: &[IntendedFeatureFlow],
    src: &BehaviorRealizationContractSource,
    fs: &Vec<FeatureContract>,
    st: &mut Accumulator,
) -> (r: Result<(), BehaviorRealizationContractError>)
    ensures
        match features_fold(*auth, views(flows@), src@, views(fs@), old(st)@) {
            Ok(s2) => r is Ok && final(st)@ == s2,
            Err(e) => r matches Err(x) && x@ == e,
        },
{
    let ghost fv = views(fs@);
    let ghost st0 = st@;
    let mut fi: usize = 0;
    assert(fv.take(0) =~= Seq::<FeatureContractModel>::empty());
    while fi < fs.len()
        invariant
            fi <= fs@.len(),
            fv == views(fs@),
            st0 == old(st)@,
            features_fold(*auth, views(flows@), src@, fv.take(fi as int), st0) == Ok::<LoadState, ContractErrorModel>(
                st@,
            ),
        decreases fs.len() - fi,
    {
        assert(fv.take(fi + 1).drop_last() =~= fv.take(fi as int));
        assert(fv.take(fi + 1).last() == fs@[fi as int]@);
        let ghost pre = st@;
        let r = feature_step_exec(auth, flows, src, fi, &fs[fi], st);
        if r.is_err() {
            proof {
                assert(features_fold(*auth, views(flows@), src@, fv.take(fi + 1), st0) == feature_step(
                    *auth,
                    views(flows@),
                    src@,
                    fi as nat,
                    fs@[fi as int]@,
                    pre,
                ));
                lemma_features_fold_err(*auth, views(flows@), src@, fv, st0, fi + 1);
            }
            return r;
        }
        fi = fi + 1;
    }
    assert(fv.take(fs@.len() as int) =~= fv);
    Ok(())
}

/// Accepting one source: it must have decoded, under the supported schema,
/// be canonical text, list its Features in strict order, and have each
/// Feature accepted.
pub open spec fn source_step(auth: AnchorAuthority, flows: Seq<FlowModel>, p: ParsedModel, st: LoadState) -> Result<
    LoadState,
    ContractErrorModel,
> {
    match p.parsed {
        Err(detail) => Err(ContractErrorModel::InvalidJson { path: p.source.path, detail }),
        Ok((doc, canonical)) => if doc.schema != BEHAVIOR_REALIZATION_CONTRACT_SCHEMA@ || doc.schema_version
            != BEHAVIOR_REALIZATION_CONTRACT_SCHEMA_VERSION {
            Err(ContractErrorModel::UnsupportedSchema(p.source.path))
        } else if canonical != p.source.source {
            Err(ContractErrorModel::NonCanonical(p.source.path))
        } else if !crate::text::strictly_sorted(feature_ids(doc.features)) {
            Err(ContractErrorModel::NonCanonicalOrder(p.source.path + "/features"@))
        } else {
            features_fold(auth, flows, p.source, doc.features, st)
        },
    }
}

fn source_step_exec(
    auth: &AnchorAuthority,
    flows: &[IntendedFeatureFlow],
    p: &ParsedContractSource,
    st: &mut Accumulator,
) -> (r: Result<(), BehaviorRealizationContractError>)
    ensures
        match source_step(*auth, views(flows@), p@, old(st)@) {
            Ok(s2) => r is Ok && final(st)@ == s2,
            Err(e) => r matches Err(x) && x@ == e,
        },
{
    let src = &p.source;
    match &p.parsed {
        Err(detail) => Err(
            BehaviorRealizationContractError::InvalidJson {
                path: copy_text(src.path()),
                detail: copy_text(detail.as_str()),
            },
        ),
        Ok(decoded) => {
            let doc = &decoded.document;
            if !text_eq(doc.schema.as_str(), BEHAVIOR_REALIZATION_CONTRACT_SCHEMA) || doc.schema_version
                != BEHAVIOR_REALIZATION_CONTRACT_SCHEMA_VERSION {
                return Err(BehaviorRealizationContractError::UnsupportedSchema(copy_text(src.path())));
            }
            if !text_eq(decoded.canonical.as_str(), src.source()) {
                return Err(BehaviorRealizationContractError::NonCanonical(copy_text(src.path())));
            }
            let ids = feature_ids_exec(&doc.features);
            if !crate::text::is_strictly_sorted(&ids) {
                return Err(BehaviorRealizationContractError::NonCanonicalOrder(concat(src.path(), "/features")));
            }
            features_fold_exec(auth, flows, src, &doc.features, st)
        },
    }
}

/// Accepting the sources, in order.
pub open spec fn sources_fold(auth: AnchorAuthority, flows: Seq<FlowModel>, ps: Seq<ParsedModel>, st: LoadState) -> Result<
    LoadState,
    ContractErrorModel,
>
    decreases ps.len(),
{
    if ps.len() == 0 {
        Ok(st)
    } else {
        match sources_fold(auth, flows, ps.drop_last(), st) {
            Err(e) => Err(e),
            Ok(s2) => source_step(auth, flows, ps.last(), s2),
        }
    }
}

proof fn lemma_sources_fold_err(auth: AnchorAuthority, flows: Seq<FlowModel>, ps: Seq<ParsedModel>, st: LoadState, k: int)
    requires
        0 <= k <= ps.len(),
        sources_fold(auth, flows, ps.take(k), st) is Err,
    ensures
        sources_fold(auth, flows, ps, st) == sources_fold(auth, flows, ps.take(k), st),
    decreases ps.len() - k,
{
    if k < ps.len() {
        assert(ps.take(k + 1).drop_last() =~= ps.take(k));
        lemma_sources_fold_err(auth, flows, ps, st, k + 1);
    } else {
        assert(ps.take(k) =~= ps);
    }
}

#[verifier::rlimit(40)]
fn sources_fold_exec(
    auth: &AnchorAuthority,
    flows: &[IntendedFeatureFlow],
    ps: &Vec<ParsedContractSource>,
    st: &mut Accumulator,
) -> (r: Result<(), BehaviorRealizationContractError>)
    ensures
        match sources_fold(*auth, views(flows@), views(ps@), old(st)@) {
            Ok(s2) => r is Ok && final(st)@ == s2,
            Err(e) => r matches Err(x) && x@ == e,
        },
{
    let ghost pv = views(ps@);
    let ghost st0 = st@;
    let mut k: usize = 0;
    assert(pv.take(0) =~= Seq::<ParsedModel>::empty());
    while k < ps.len()
        invariant
            k <= ps@.len(),
            pv == views(ps@),
            st0 == old(st)@,
            sources_fold(*auth, views(flows@), pv.take(k as int), st0) == Ok::<LoadState, ContractErrorModel>(st@),
        decreases ps.len() - k,
    {
        assert(pv.take(k + 1).drop_last() =~= pv.take(k as int));
        assert(pv.take(k + 1).last() == ps@[k as int]@);
        let ghost pre = st@;
        let r = source_step_exec(auth, flows, &ps[k], st);
        if r.is_err() {
            proof {
                assert(sources_fold(*auth, views(flows@), pv.take(k + 1), st0) == source_step(
                    *auth,
                    views(flows@),
                    ps@[k as int]@,
                    pre,
                ));
                lemma_sources_fold_err(*auth, views(flows@), pv, st0, k + 1);
            }
            return r;
        }
        k = k + 1;
    }
    assert(pv.take(ps@.len() as int) =~= pv);
    Ok(())
}


// ---------------------------------------------------------------------------
// Ordering the sources, and the resolved set.

/// Inserts a source after every source that does not sort after it.
pub open spec fn insert_source(s: Seq<ParsedModel>, x: ParsedModel) -> Seq<ParsedModel>
    decreases s.len(),
{
    if s.len() == 0 {
        seq![x]
    } else if source_before(x.source, s.last().source) {
        insert_source(s.drop_last(), x).push(s.last())
    } else {
        s.push(x)
    }
}

/// The sources ordered by Module, path and text, equal sources keeping
/// their order.
pub open spec fn sort_sources(s: Seq<ParsedModel>) -> Seq<ParsedModel>
    decreases s.len(),
{
    if s.len() == 0 {
        Seq::empty()
    } else {
        insert_source(sort_sources(s.drop_last()), s.last())
    }
}

proof fn lemma_insert_source(s: Seq<ParsedModel>, x: ParsedModel, j: int)
    requires
        0 <= j <= s.len(),
        forall|k: int| j <= k < s.len() ==> source_before(x.source, #[trigger] s[k].source),
        j == 0 || !source_before(x.source, s[j - 1].source),
    ensures
        insert_source(s, x) == s.take(j).push(x) + s.skip(j),
    decreases s.len(),
{
    if s.len() == 0 {
        assert(s.take(j).push(x) + s.skip(j) =~= seq![x]);
    } else if j == s.len() {
        assert(s.take(j) =~= s);
        assert(s.skip(j) =~= Seq::<ParsedModel>::empty());
        assert(s.take(j).push(x) + s.skip(j) =~= s.push(x));
    } else {
        let t = s.drop_last();
        assert(source_before(x.source, s[s.len() - 1].source));
        assert forall|k: int| j <= k < t.len() implies source_before(x.source, #[trigger] t[k].source) by {
            assert(t[k] == s[k]);
        }
        if j > 0 {
            assert(t[j - 1] == s[j - 1]);
        }
        lemma_insert_source(t, x, j);
        assert(t.take(j).push(x) + t.skip(j) + seq![s.last()] =~= s.take(j).push(x) + s.skip(j));
        assert(insert_source(t, x).push(s.last()) =~= t.take(j).push(x) + t.skip(j) + seq![s.last()]);
    }
}

fn sort_sources_exec(v: Vec<ParsedContractSource>) -> (out: Vec<ParsedContractSource>)
    ensures
        views(out@) == sort_sources(views(v@)),
{
    let ghost original = views(v@);
    let total = v.len();
    let mut input = v;
    let mut out: Vec<ParsedContractSource> = Vec::new();
    let mut i: usize = 0;
    while input.len() > 0
        invariant
            i <= original.len(),
            original.len() == total,
            input@.len() + i == original.len(),
            views(input@) == original.skip(i as int),
            views(out@) == sort_sources(original.take(i as int)),
        decreases input.len(),
    {
        let ghost old_input = input@;
        let x = input.remove(0);
        proof {
            assert(views(old_input)[0] == original.skip(i as int)[0]);
            assert(views(input@) =~= views(old_input).skip(1));
            assert(views(input@) =~= original.skip(i + 1));
            assert(x@ == original[i as int]);
            assert(original.take(i + 1).drop_last() =~= original.take(i as int));
        }
        let mut j = out.len();
        while j > 0 && source_before_exec(&x.source, &out[j - 1].source)
            invariant
                j <= out@.len(),
                forall|k: int| j <= k < out@.len() ==> source_before(x@.source, #[trigger] views(out@)[k].source),
            decreases j,
        {
            j = j - 1;
        }
        proof {
            if j > 0 {
                assert(views(out@)[j - 1] == out@[j - 1]@);
            }
            lemma_insert_source(views(out@), x@, j as int);
        }
        let ghost before = views(out@);
        let ghost xv = x@;
        out.insert(j, x);
        proof {
            assert(views(out@) =~= before.take(j as int).push(xv) + before.skip(j as int));
        }
        i = i + 1;
    }
    proof {
        assert(original.take(i as int) =~= original);
    }
    out
}

/// The source of each parsed source.
pub open spec fn source_models(ps: Seq<ParsedModel>) -> Seq<SourceModel> {
    ps.map_values(|p: ParsedModel| p.source)
}

fn copy_sources(ps: &Vec<ParsedContractSource>) -> (r: Vec<BehaviorRealizationContractSource>)
    ensures
        views(r@) == source_models(views(ps@)),
{
    let ghost sm = source_models(views(ps@));
    let mut r: Vec<BehaviorRealizationContractSource> = Vec::new();
    let mut i: usize = 0;
    while i < ps.len()
        invariant
            i <= ps@.len(),
            sm == source_models(views(ps@)),
            views(r@) == sm.take(i as int),
        decreases ps.len() - i,
    {
        let s = &ps[i].source;
        let c = BehaviorRealizationContractSource::new(
            copy_text(s.module_id()),
            copy_text(s.path()),
            copy_text(s.source()),
        );
        let ghost before = r@;
        r.push(c);
        assert(views(r@) =~= views(before).push(c@));
        assert(sm.take(i + 1) =~= sm.take(i as int).push(ps@[i as int]@.source));
        i = i + 1;
    }
    assert(sm.take(ps@.len() as int) =~= sm);
    r
}

impl CanonicalOrder for ResolvedCheckpointRealization {
    /// By Feature, then checkpoint.
    open spec fn ordered(a: ResolvedModel, b: ResolvedModel) -> bool {
        seq_lt(a.feature, b.feature) || (a.feature == b.feature && seq_le(a.checkpoint, b.checkpoint))
    }

    proof fn lemma_ordered_reflexive(a: ResolvedModel) {
        lemma_seq_le_reflexive(a.checkpoint);
    }

    proof fn lemma_ordered_transitive(a: ResolvedModel, b: ResolvedModel, c: ResolvedModel) {
        if a.feature == b.feature && b.feature == c.feature {
            lemma_seq_le_transitive(a.checkpoint, b.checkpoint, c.checkpoint);
        } else {
            lemma_seq_le_reflexive(a.feature);
            lemma_seq_le_reflexive(b.feature);
            lemma_seq_le_transitive(a.feature, b.feature, c.feature);
            if a.feature == c.feature {
                lemma_seq_le_antisymmetric(a.feature, b.feature);
            }
        }
    }

    proof fn lemma_ordered_total(a: ResolvedModel, b: ResolvedModel) {
        lemma_seq_le_total(a.feature, b.feature);
        lemma_seq_le_total(a.checkpoint, b.checkpoint);
    }

    fn precedes(&self, other: &Self) -> (r: bool) {
        text_lt(self.feature(), other.feature()) || (text_eq(self.feature(), other.feature()) && text_le(
            self.checkpoint(),
            other.checkpoint(),
        ))
    }
}

/// The state before any source is accepted.
pub open spec fn initial_load_state() -> LoadState {
    LoadState { features: Seq::empty(), checkpoint_ids: Seq::empty(), bindings: Seq::empty() }
}

/// `c` is the contract set resolved from the accepted state `st` of the
/// ordered sources: the opted-in Features in canonical order without
/// repetition, the bindings ordered by Feature and checkpoint, and the
/// digest of the ordered sources.
pub open spec fn resolved_from(st: LoadState, ordered: Seq<ParsedModel>, c: ContractsModel) -> bool {
    &&& c.features == canonical_set::<String>(st.features)
    &&& is_canonical::<ResolvedCheckpointRealization>(c.checkpoints)
    &&& c.checkpoints.to_multiset() == st.bindings.to_multiset()
    &&& c.digest == sha256_identity_of(distributed_material(source_models(ordered)))
}

// ---------------------------------------------------------------------------
// What a resolved set covers.

/// Some binding is for the checkpoint.
pub open spec fn has_binding(bs: Seq<ResolvedModel>, cp: Seq<char>) -> bool {
    exists|j: int| 0 <= j < bs.len() && (#[trigger] bs[j]).checkpoint == cp
}

/// Every accepted Feature has a flow each of whose nodes has a binding.
pub open spec fn features_covered(flows: Seq<FlowModel>, st: LoadState) -> bool {
    forall|i: int|
        0 <= i < st.features.len() ==> (flow_of(flows, #[trigger] st.features[i]) matches Some(flow) && forall|k: int|
            0 <= k < flow.nodes.len() ==> has_binding(st.bindings, #[trigger] flow.nodes[k].checkpoint))
}

/// `b` extends `a`: it keeps every accepted Feature and binding.
pub open spec fn extends(a: LoadState, b: LoadState) -> bool {
    &&& a.features.len() <= b.features.len()
    &&& forall|i: int| 0 <= i < a.features.len() ==> #[trigger] b.features[i] == a.features[i]
    &&& a.bindings.len() <= b.bindings.len()
    &&& forall|i: int| 0 <= i < a.bindings.len() ==> #[trigger] b.bindings[i] == a.bindings[i]
}

proof fn lemma_extends_covered(flows: Seq<FlowModel>, a: LoadState, b: LoadState, n: int)
    requires
        extends(a, b),
        0 <= n <= a.features.len(),
        forall|i: int|
            0 <= i < n ==> (flow_of(flows, #[trigger] a.features[i]) matches Some(flow) && forall|k: int|
                0 <= k < flow.nodes.len() ==> has_binding(a.bindings, #[trigger] flow.nodes[k].checkpoint)),
    ensures
        forall|i: int|
            0 <= i < n ==> (flow_of(flows, #[trigger] b.features[i]) matches Some(flow) && forall|k: int|
                0 <= k < flow.nodes.len() ==> has_binding(b.bindings, #[trigger] flow.nodes[k].checkpoint)),
{
    assert forall|i: int| 0 <= i < n implies (flow_of(flows, #[trigger] b.features[i]) matches Some(flow) && forall|k: int|
        0 <= k < flow.nodes.len() ==> has_binding(b.bindings, #[trigger] flow.nodes[k].checkpoint)) by {
        assert(b.features[i] == a.features[i]);
        let flow = flow_of(flows, a.features[i])->0;
        assert forall|k: int| 0 <= k < flow.nodes.len() implies has_binding(b.bindings, #[trigger] flow.nodes[k].checkpoint) by {
            assert(has_binding(a.bindings, flow.nodes[k].checkpoint));
            let j = choose|j: int| 0 <= j < a.bindings.len() && (#[trigger] a.bindings[j]).checkpoint == flow.nodes[k].checkpoint;
            assert(b.bindings[j] == a.bindings[j]);
        }
    }
}

proof fn lemma_least_missing_none(nodes: Seq<Seq<char>>, authored: Seq<Seq<char>>)
    requires
        least_missing(nodes, authored) is None,
    ensures
        forall|k: int| 0 <= k < nodes.len() ==> authored.contains(#[trigger] nodes[k]),
    decreases nodes.len(),
{
    if nodes.len() > 0 {
        lemma_least_missing_none(nodes.drop_last(), authored);
        assert forall|k: int| 0 <= k < nodes.len() implies authored.contains(#[trigger] nodes[k]) by {
            if k < nodes.len() - 1 {
                assert(nodes.drop_last()[k] == nodes[k]);
            }
        }
    }
}

proof fn lemma_checkpoints_fold_ok(
    auth: AnchorAuthority,
    nodes: Seq<Seq<char>>,
    owner: Seq<char>,
    src: SourceModel,
    feature: Seq<char>,
    fi: nat,
    cps: Seq<CheckpointContractModel>,
    st: LoadState,
)
    requires
        checkpoints_fold(auth, nodes, owner, src, feature, fi, cps, st) is Ok,
    ensures
        ({
            let s2 = checkpoints_fold(auth, nodes, owner, src, feature, fi, cps, st)->Ok_0;
            &&& s2.features == st.features
            &&& extends(st, s2)
            &&& forall|k: int| 0 <= k < cps.len() ==> has_binding(s2.bindings, #[trigger] cps[k].checkpoint)
        }),
    decreases cps.len(),
{
    if cps.len() > 0 {
        lemma_checkpoints_fold_ok(auth, nodes, owner, src, feature, fi, cps.drop_last(), st);
        let s1 = checkpoints_fold(auth, nodes, owner, src, feature, fi, cps.drop_last(), st)->Ok_0;
        let s2 = checkpoints_fold(auth, nodes, owner, src, feature, fi, cps, st)->Ok_0;
        let n = s1.bindings.len();
        assert(s2.bindings[n as int].checkpoint == cps.last().checkpoint);
        assert forall|k: int| 0 <= k < cps.len() implies has_binding(s2.bindings, #[trigger] cps[k].checkpoint) by {
            if k < cps.len() - 1 {
                assert(cps.drop_last()[k] == cps[k]);
                assert(has_binding(s1.bindings, cps[k].checkpoint));
                let j = choose|j: int| 0 <= j < s1.bindings.len() && (#[trigger] s1.bindings[j]).checkpoint == cps[k].checkpoint;
                assert(s2.bindings[j] == s1.bindings[j]);
            } else {
                assert(s2.bindings[n as int].checkpoint == cps[k].checkpoint);
            }
        }
    }
}

proof fn lemma_feature_step_ok(auth: AnchorAuthority, flows: Seq<FlowModel>, src: SourceModel, fi: nat, f: FeatureContractModel, st: LoadState)
    requires
        feature_step(auth, flows, src, fi, f, st) is Ok,
        features_covered(flows, st),
    ensures
        extends(st, feature_step(auth, flows, src, fi, f, st)->Ok_0),
        features_covered(flows, feature_step(auth, flows, src, fi, f, st)->Ok_0),
{
    let flow = flow_of(flows, f.feature)->0;
    let st1 = LoadState { features: st.features.push(f.feature), ..st };
    let nodes = node_checkpoints(flow.nodes);
    lemma_checkpoints_fold_ok(auth, nodes, flow.owner, src, f.feature, fi, f.checkpoints, st1);
    let s2 = feature_step(auth, flows, src, fi, f, st)->Ok_0;
    lemma_least_missing_none(nodes, checkpoint_ids(f.checkpoints));
    lemma_extends_covered(flows, st, s2, st.features.len() as int);
    assert forall|k: int| 0 <= k < flow.nodes.len() implies has_binding(s2.bindings, #[trigger] flow.nodes[k].checkpoint) by {
        assert(nodes[k] == flow.nodes[k].checkpoint);
        assert(checkpoint_ids(f.checkpoints).contains(nodes[k]));
        let c = choose|c: int| 0 <= c < checkpoint_ids(f.checkpoints).len() && checkpoint_ids(f.checkpoints)[c] == nodes[k];
        assert(f.checkpoints[c].checkpoint == nodes[k]);
    }
    assert(s2.features[st.features.len() as int] == f.feature);
}

proof fn lemma_features_fold_ok(auth: AnchorAuthority, flows: Seq<FlowModel>, src: SourceModel, fs: Seq<FeatureContractModel>, st: LoadState)
    requires
        features_fold(auth, flows, src, fs, st) is Ok,
        features_covered(flows, st),
    ensures
        extends(st, features_fold(auth, flows, src, fs, st)->Ok_0),
        features_covered(flows, features_fold(auth, flows, src, fs, st)->Ok_0),
    decreases fs.len(),
{
    if fs.len() > 0 {
        lemma_features_fold_ok(auth, flows, src, fs.drop_last(), st);
        let s1 = features_fold(auth, flows, src, fs.drop_last(), st)->Ok_0;
        lemma_feature_step_ok(auth, flows, src, (fs.len() - 1) as nat, fs.last(), s1);
    }
}

proof fn lemma_sources_fold_ok(auth: AnchorAuthority, flows: Seq<FlowModel>, ps: Seq<ParsedModel>, st: LoadState)
    requires
        sources_fold(auth, flows, ps, st) is Ok,
        features_covered(flows, st),
    ensures
        features_covered(flows, sources_fold(auth, flows, ps, st)->Ok_0),
    decreases ps.len(),
{
    if ps.len() > 0 {
        lemma_sources_fold_ok(auth, flows, ps.drop_last(), st);
        let s1 = sources_fold(auth, flows, ps.drop_last(), st)->Ok_0;
        match ps.last().parsed {
            Ok((doc, _)) => {
                if source_step(auth, flows, ps.last(), s1) is Ok {
                    lemma_features_fold_ok(auth, flows, ps.last().source, doc.features, s1);
                }
            },
            Err(_) => {},
        }
    }
}

/// The Features of the flows are distinct, and so are the node checkpoints
/// of each flow.
pub open spec fn flows_distinct(flows: Seq<FlowModel>) -> bool {
    &&& forall|i: int, j: int| 0 <= i < j < flows.len() ==> (#[trigger] flows[i]).feature != (#[trigger] flows[j]).feature
    &&& forall|i: int, a: int, b: int|
        0 <= i < flows.len() && 0 <= a < flows[i].nodes.len() && 0 <= b < flows[i].nodes.len() && a != b
            ==> (#[trigger] flows[i].nodes[a]).checkpoint != (#[trigger] flows[i].nodes[b]).checkpoint
}

proof fn lemma_opted_member(flows: Seq<FlowModel>, fs: Seq<Seq<char>>, k: int)
    requires
        0 <= k < super::opted_flows(flows, fs).len(),
    ensures
        exists|i: int| 0 <= i < flows.len() && flows[i] == super::opted_flows(flows, fs)[k],
        fs.contains(super::opted_flows(flows, fs)[k].feature),
    decreases flows.len(),
{
    let prev = super::opted_flows(flows.drop_last(), fs);
    if k < prev.len() {
        lemma_opted_member(flows.drop_last(), fs, k);
        let i = choose|i: int| 0 <= i < flows.drop_last().len() && flows.drop_last()[i] == prev[k];
        assert(flows[i] == flows.drop_last()[i]);
    } else {
        assert(super::opted_flows(flows, fs)[k] == flows.last());
        assert(flows[flows.len() - 1] == flows.last());
    }
}

proof fn lemma_flow_of_distinct(flows: Seq<FlowModel>, i: int)
    requires
        0 <= i < flows.len(),
        forall|a: int, b: int| 0 <= a < b < flows.len() ==> (#[trigger] flows[a]).feature != (#[trigger] flows[b]).feature,
    ensures
        flow_of(flows, flows[i].feature) == Some(flows[i]),
    decreases flows.len(),
{
    if i < flows.len() - 1 {
        let t = flows.drop_last();
        assert(flows[i] != flows.last() || flows[i].feature != flows.last().feature) by {
            assert(flows[i].feature != flows[flows.len() - 1].feature);
        }
        assert(flows[i].feature != flows[flows.len() - 1].feature);
        assert forall|a: int, b: int| 0 <= a < b < t.len() implies (#[trigger] t[a]).feature != (#[trigger] t[b]).feature by {
            assert(t[a] == flows[a] && t[b] == flows[b]);
        }
        lemma_flow_of_distinct(t, i);
        assert(t[i] == flows[i]);
    }
}

proof fn lemma_binding_for_some(bs: Seq<ResolvedModel>, cp: Seq<char>)
    requires
        has_binding(bs, cp),
    ensures
        super::binding_for(bs, cp) is Some,
    decreases bs.len(),
{
    if bs.last().checkpoint != cp {
        let j = choose|j: int| 0 <= j < bs.len() && (#[trigger] bs[j]).checkpoint == cp;
        assert(bs.drop_last()[j] == bs[j]);
        lemma_binding_for_some(bs.drop_last(), cp);
    }
}

/// A resolved contract set covers every opted-in flow of an Intended BFG
/// whose Features and node checkpoints are distinct: each node of an
/// opted-in flow has a binding.
pub proof fn lemma_resolved_contracts_cover(
    auth: AnchorAuthority,
    flows: Seq<FlowModel>,
    ordered: Seq<ParsedModel>,
    st: LoadState,
    c: ContractsModel,
)
    requires
        flows_distinct(flows),
        sources_fold(auth, flows, ordered, initial_load_state()) == Ok::<LoadState, ContractErrorModel>(st),
        resolved_from(st, ordered, c),
    ensures
        super::contracts_cover(flows, c),
{
    broadcast use vstd::seq_lib::group_to_multiset_ensures;

    lemma_sources_fold_ok(auth, flows, ordered, initial_load_state());
    crate::order::lemma_canonical_set::<String>(st.features);
    let opted = super::opted_flows(flows, c.features);
    assert forall|k: int| 0 <= k < opted.len() implies super::realizable(#[trigger] opted[k], c.checkpoints) by {
        lemma_opted_member(flows, c.features, k);
        let i = choose|i: int| 0 <= i < flows.len() && flows[i] == opted[k];
        let g = flows[i];
        assert(c.features.contains(g.feature));
        assert(st.features.contains(g.feature));
        let fi = choose|fi: int| 0 <= fi < st.features.len() && st.features[fi] == g.feature;
        lemma_flow_of_distinct(flows, i);
        assert(flow_of(flows, st.features[fi]) == Some(g));
        assert forall|n: int| 0 <= n < g.nodes.len() implies (#[trigger] super::binding_for(c.checkpoints, g.nodes[n].checkpoint)) is Some by {
            assert(has_binding(st.bindings, g.nodes[n].checkpoint));
            let j = choose|j: int| 0 <= j < st.bindings.len() && (#[trigger] st.bindings[j]).checkpoint == g.nodes[n].checkpoint;
            assert(st.bindings.contains(st.bindings[j]));
            assert(st.bindings.to_multiset().count(st.bindings[j]) > 0);
            assert(c.checkpoints.contains(st.bindings[j]));
            let m = choose|m: int| 0 <= m < c.checkpoints.len() && c.checkpoints[m] == st.bindings[j];
            assert(has_binding(c.checkpoints, g.nodes[n].checkpoint));
            lemma_binding_for_some(c.checkpoints, g.nodes[n].checkpoint);
        }
        assert forall|a: int, b: int|
            0 <= a < g.nodes.len() && 0 <= b < g.nodes.len() && a != b implies #[trigger] g.nodes[a].checkpoint
            != #[trigger] g.nodes[b].checkpoint by {
            assert(flows[i].nodes[a] == g.nodes[a] && flows[i].nodes[b] == g.nodes[b]);
        }
    }
}

/// Loads and validates the complete distributed realization authority.
/// The sources are taken in order of Module, path and text; the first
/// violation in that order refuses the whole set: an undecodable or
/// noncanonical document, an unsupported schema, unsorted or repeated
/// identities, an unknown, foreign or partial Feature opt-in, an unknown or
/// missing checkpoint, and an anchor that its canonical semantic authority
/// does not establish.
pub fn resolve_behavior_realization_contracts(
    intended: &IntendedBehavioralFlowGraph,
    authority: &AnchorAuthority,
    sources: Vec<ParsedContractSource>,
) -> (r: Result<ResolvedBehaviorRealizationContracts, BehaviorRealizationContractError>)
    ensures
        match sources_fold(*authority, intended@.flows, sort_sources(views(sources@)), initial_load_state()) {
            Err(e) => r matches Err(x) && x@ == e,
            Ok(st) => r matches Ok(c) && resolved_from(st, sort_sources(views(sources@)), c@) && (flows_distinct(
                intended@.flows,
            ) ==> super::contracts_cover(intended@.flows, c@)),
        },
{
    let ordered = sort_sources_exec(sources);
    let mut st = Accumulator { features: Vec::new(), checkpoint_ids: Vec::new(), bindings: Vec::new() };
    proof {
        assert(st@.features =~= Seq::<Seq<char>>::empty());
        assert(st@.checkpoint_ids =~= Seq::<Seq<char>>::empty());
        assert(st@.bindings =~= Seq::<ResolvedModel>::empty());
    }
    let flows = intended.flows();
    let outcome = sources_fold_exec(authority, flows, &ordered, &mut st);
    match outcome {
        Err(e) => Err(e),
        Ok(()) => {
            let ghost accepted = st@;
            let Accumulator { features, checkpoint_ids: _, bindings } = st;
            let ghost bv = bindings@;
            let ghost fv = texts(features@);
            let features = canonical_set_exec(features);
            let checkpoints = canonical_sort(bindings);
            proof {
                lemma_views_permutation(checkpoints@, bv);
                assert(views(features@) == texts(features@));
            }
            let copies = copy_sources(&ordered);
            let digest = distributed_contract_digest(copies.as_slice());
            let resolved = ResolvedBehaviorRealizationContracts::new(features, checkpoints, digest);
            proof {
                if flows_distinct(intended@.flows) {
                    lemma_resolved_contracts_cover(
                        *authority,
                        intended@.flows,
                        views(ordered@),
                        accepted,
                        resolved@,
                    );
                }
            }
            Ok(resolved)
        },
    }
}

} // verus!
