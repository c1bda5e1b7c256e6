//! Behavior Realization Contract authority: implementation anchors of
//! Intended BFG checkpoints and their event identities.

use vstd::prelude::*;
use vstd::utf8::encode_utf8;

use crate::codec::{debug_quoted, debug_text, sha256_identity_of, sha256_text};
use crate::order::views;
use crate::text::{concat, copy_text, copy_texts, join, join_texts, text_eq, texts};

verus! {

/// Canonical Behavior Realization Contract schema identity.
pub const BEHAVIOR_REALIZATION_CONTRACT_SCHEMA: &'static str = "urn:fortress:schema:v1:behavior-realization-contracts";

/// Canonical Behavior Realization Contract schema version.
pub const BEHAVIOR_REALIZATION_CONTRACT_SCHEMA_VERSION: u16 = 1;

/// Abstract value of one anchor.
pub enum AnchorModel {
    SymbolEntry { symbol: Seq<char> },
    SymbolReturn { symbol: Seq<char>, boolean: Option<bool> },
    StateTransition {
        nominal_type: Seq<char>,
        symbol: Seq<char>,
        from_states: Seq<Seq<char>>,
        to_states: Seq<Seq<char>>,
    },
    Effect { effect: Seq<char>, symbol: Seq<char> },
    InformationTransition {
        transition: Seq<char>,
        symbol: Seq<char>,
        facet: Seq<char>,
        from: Seq<char>,
        to: Seq<char>,
    },
    EnvironmentOutcome { operation: Seq<char>, outcome: Seq<char> },
}

/// Closed implementation anchor vocabulary for checkpoint realization.
/// Effects and information-flow transitions are named as their analyses
/// render them.
#[derive(Debug)]
pub enum BehaviorAnchor {
    /// Execution enters one exact governed symbol.
    SymbolEntry {
        /// Stable executable identity.
        symbol: String,
    },
    /// Execution returns normally from one exact governed symbol.
    SymbolReturn {
        /// Stable executable identity.
        symbol: String,
        /// Optional exact Boolean outcome refinement.
        boolean: Option<bool>,
    },
    /// One exact supported nominal receiver-state transition.
    StateTransition {
        /// Stable nominal type identity.
        nominal_type: String,
        /// Exact responsible executable symbol.
        symbol: String,
        /// Sorted admitted source states.
        from_states: Vec<String>,
        /// Sorted resulting states.
        to_states: Vec<String>,
    },
    /// One supported effect associated with an exact executable symbol.
    Effect {
        /// Effect name.
        effect: String,
        /// Exact responsible executable symbol.
        symbol: String,
    },
    /// One exact declared information-flow trusted transition.
    InformationTransition {
        /// Endorsement or declassification.
        transition: String,
        /// Exact responsible executable symbol.
        symbol: String,
        /// Project-defined information facet.
        facet: String,
        /// Declared source level.
        from: String,
        /// Declared target level.
        to: String,
    },
    /// One exact admissible Environmental Semantics outcome.
    EnvironmentOutcome {
        /// Project-defined external operation identity.
        operation: String,
        /// Project-defined outcome identity.
        outcome: String,
    },
}

impl View for BehaviorAnchor {
    type V = AnchorModel;

    open spec fn view(&self) -> AnchorModel {
        match self {
            BehaviorAnchor::SymbolEntry { symbol } => AnchorModel::SymbolEntry { symbol: symbol@ },
            BehaviorAnchor::SymbolReturn { symbol, boolean } => AnchorModel::SymbolReturn {
                symbol: symbol@,
                boolean: *boolean,
            },
            BehaviorAnchor::StateTransition { nominal_type, symbol, from_states, to_states } => AnchorModel::StateTransition {
                nominal_type: nominal_type@,
                symbol: symbol@,
                from_states: texts(from_states@),
                to_states: texts(to_states@),
            },
            BehaviorAnchor::Effect { effect, symbol } => AnchorModel::Effect { effect: effect@, symbol: symbol@ },
            BehaviorAnchor::InformationTransition { transition, symbol, facet, from, to } => AnchorModel::InformationTransition {
                transition: transition@,
                symbol: symbol@,
                facet: facet@,
                from: from@,
                to: to@,
            },
            BehaviorAnchor::EnvironmentOutcome { operation, outcome } => AnchorModel::EnvironmentOutcome {
                operation: operation@,
                outcome: outcome@,
            },
        }
    }
}

/// The stable kind of an anchor.
pub open spec fn anchor_kind(a: AnchorModel) -> Seq<char> {
    match a {
        AnchorModel::SymbolEntry { .. } => "symbol_entry"@,
        AnchorModel::SymbolReturn { .. } => "symbol_return"@,
        AnchorModel::StateTransition { .. } => "state_transition"@,
        AnchorModel::Effect { .. } => "effect"@,
        AnchorModel::InformationTransition { .. } => "information_transition"@,
        AnchorModel::EnvironmentOutcome { .. } => "environment_outcome"@,
    }
}

/// The responsible symbol of a symbol-bound anchor.
pub open spec fn anchor_symbol(a: AnchorModel) -> Option<Seq<char>> {
    match a {
        AnchorModel::SymbolEntry { symbol } => Some(symbol),
        AnchorModel::SymbolReturn { symbol, .. } => Some(symbol),
        AnchorModel::StateTransition { symbol, .. } => Some(symbol),
        AnchorModel::Effect { symbol, .. } => Some(symbol),
        AnchorModel::InformationTransition { symbol, .. } => Some(symbol),
        AnchorModel::EnvironmentOutcome { .. } => None,
    }
}

impl BehaviorAnchor {
    /// Returns the stable anchor kind used in event identities.
    pub fn kind(&self) -> (r: &'static str)
        ensures
            r@ == anchor_kind(self@),
    {
        match self {
            BehaviorAnchor::SymbolEntry { .. } => "symbol_entry",
            BehaviorAnchor::SymbolReturn { .. } => "symbol_return",
            BehaviorAnchor::StateTransition { .. } => "state_transition",
            BehaviorAnchor::Effect { .. } => "effect",
            BehaviorAnchor::InformationTransition { .. } => "information_transition",
            BehaviorAnchor::EnvironmentOutcome { .. } => "environment_outcome",
        }
    }

    /// Returns a responsible symbol when the anchor is symbol-bound.
    pub fn symbol(&self) -> (r: Option<&str>)
        ensures
            match r {
                Some(t) => anchor_symbol(self@) == Some(t@),
                None => anchor_symbol(self@) is None,
            },
    {
        match self {
            BehaviorAnchor::SymbolEntry { symbol } => Some(symbol.as_str()),
            BehaviorAnchor::SymbolReturn { symbol, .. } => Some(symbol.as_str()),
            BehaviorAnchor::StateTransition { symbol, .. } => Some(symbol.as_str()),
            BehaviorAnchor::Effect { symbol, .. } => Some(symbol.as_str()),
            BehaviorAnchor::InformationTransition { symbol, .. } => Some(symbol.as_str()),
            BehaviorAnchor::EnvironmentOutcome { .. } => None,
        }
    }

    /// Copies this anchor.
    pub fn duplicate(&self) -> (r: Self)
        ensures
            r@ == self@,
    {
        match self {
            BehaviorAnchor::SymbolEntry { symbol } => BehaviorAnchor::SymbolEntry { symbol: copy_text(symbol.as_str()) },
            BehaviorAnchor::SymbolReturn { symbol, boolean } => BehaviorAnchor::SymbolReturn {
                symbol: copy_text(symbol.as_str()),
                boolean: *boolean,
            },
            BehaviorAnchor::StateTransition { nominal_type, symbol, from_states, to_states } => BehaviorAnchor::StateTransition {
                nominal_type: copy_text(nominal_type.as_str()),
                symbol: copy_text(symbol.as_str()),
                from_states: copy_texts(from_states.as_slice()),
                to_states: copy_texts(to_states.as_slice()),
            },
            BehaviorAnchor::Effect { effect, symbol } => BehaviorAnchor::Effect {
                effect: copy_text(effect.as_str()),
                symbol: copy_text(symbol.as_str()),
            },
            BehaviorAnchor::InformationTransition { transition, symbol, facet, from, to } => BehaviorAnchor::InformationTransition {
                transition: copy_text(transition.as_str()),
                symbol: copy_text(symbol.as_str()),
                facet: copy_text(facet.as_str()),
                from: copy_text(from.as_str()),
                to: copy_text(to.as_str()),
            },
            BehaviorAnchor::EnvironmentOutcome { operation, outcome } => BehaviorAnchor::EnvironmentOutcome {
                operation: copy_text(operation.as_str()),
                outcome: copy_text(outcome.as_str()),
            },
        }
    }
}

/// Abstract value of one resolved checkpoint binding.
pub struct ResolvedModel {
    pub feature: Seq<char>,
    pub checkpoint: Seq<char>,
    pub declaring_module: Seq<char>,
    pub source_path: Seq<char>,
    pub pointer: Seq<char>,
    pub anchors: Seq<AnchorModel>,
}

/// One validated checkpoint binding with complete authored provenance.
#[derive(Debug)]
pub struct ResolvedCheckpointRealization {
    feature: String,
    checkpoint: String,
    declaring_module: String,
    source_path: String,
    pointer: String,
    anchors: Vec<BehaviorAnchor>,
}

impl View for ResolvedCheckpointRealization {
    type V = ResolvedModel;

    closed spec fn view(&self) -> ResolvedModel {
        ResolvedModel {
            feature: self.feature@,
            checkpoint: self.checkpoint@,
            declaring_module: self.declaring_module@,
            source_path: self.source_path@,
            pointer: self.pointer@,
            anchors: views(self.anchors@),
        }
    }
}

/// Where a binding was authored: the declaring Module, the source document
/// path and the JSON pointer of the checkpoint entry.
pub struct BindingOrigin {
    /// The declaring Module.
    pub declaring_module: String,
    /// The source document path.
    pub source_path: String,
    /// The canonical JSON pointer.
    pub pointer: String,
}

impl ResolvedCheckpointRealization {
    /// Records one binding.
    pub fn new(feature: String, checkpoint: String, origin: BindingOrigin, anchors: Vec<BehaviorAnchor>) -> (r: Self)
        ensures
            r@ == (ResolvedModel {
                feature: feature@,
                checkpoint: checkpoint@,
                declaring_module: origin.declaring_module@,
                source_path: origin.source_path@,
                pointer: origin.pointer@,
                anchors: views(anchors@),
            }),
    {
        ResolvedCheckpointRealization {
            feature,
            checkpoint,
            declaring_module: origin.declaring_module,
            source_path: origin.source_path,
            pointer: origin.pointer,
            anchors,
        }
    }

    /// Returns the Feature identity.
    pub fn feature(&self) -> (r: &str)
        ensures
            r@ == self@.feature,
    {
        self.feature.as_str()
    }

    /// Returns the Intended BFG checkpoint identity.
    pub fn checkpoint(&self) -> (r: &str)
        ensures
            r@ == self@.checkpoint,
    {
        self.checkpoint.as_str()
    }

    /// Returns alternative exact semantic anchors.
    pub fn anchors(&self) -> (r: &[BehaviorAnchor])
        ensures
            views(r@) == self@.anchors,
    {
        self.anchors.as_slice()
    }

    /// Returns the declaring Module.
    pub fn declaring_module(&self) -> (r: &str)
        ensures
            r@ == self@.declaring_module,
    {
        self.declaring_module.as_str()
    }

    /// Returns the source document path.
    pub fn source_path(&self) -> (r: &str)
        ensures
            r@ == self@.source_path,
    {
        self.source_path.as_str()
    }

    /// Returns the canonical JSON pointer.
    pub fn pointer(&self) -> (r: &str)
        ensures
            r@ == self@.pointer,
    {
        self.pointer.as_str()
    }
}

// ---------------------------------------------------------------------------
// Event identities of anchors.

/// The content-addressed identity of an event of `kind` keyed by `key`.
pub open spec fn event_id_of(kind: Seq<char>, key: Seq<char>) -> Seq<char> {
    "event:"@ + kind + ":"@ + sha256_identity_of(encode_utf8(kind + ":"@ + key))
}

/// Computes `event_id_of`.
pub fn event_id(kind: &str, key: &str) -> (r: String)
    ensures
        r@ == event_id_of(kind@, key@),
{
    let material = concat(kind, ":");
    let material = concat(material.as_str(), key);
    let digest = sha256_text(material.as_str());
    let out = concat("event:", kind);
    let out = concat(out.as_str(), ":");
    concat(out.as_str(), digest.as_str())
}

/// The rendering of the typestate classification of a state set: one state
/// is exact, any other set is a set of possibilities.
pub open spec fn classification_text(states: Seq<Seq<char>>) -> Seq<char> {
    if states.len() == 1 {
        "Exact { state: "@ + debug_quoted(states[0]) + " }"@
    } else {
        "Possible { states: ["@ + join_texts(states.map_values(|s: Seq<char>| debug_quoted(s)), ", "@) + "] }"@
    }
}

fn classification_text_exec(states: &Vec<String>) -> (r: String)
    ensures
        r@ == classification_text(texts(states@)),
{
    if states.len() == 1 {
        let quoted = debug_text(states[0].as_str());
        let out = concat("Exact { state: ", quoted.as_str());
        concat(out.as_str(), " }")
    } else {
        let mut quoted: Vec<String> = Vec::new();
        let mut i: usize = 0;
        while i < states.len()
            invariant
                i <= states@.len(),
                texts(quoted@) == texts(states@).take(i as int).map_values(|s: Seq<char>| debug_quoted(s)),
            decreases states.len() - i,
        {
            let ghost before = texts(quoted@);
            quoted.push(debug_text(states[i].as_str()));
            assert(texts(quoted@) =~= before.push(debug_quoted(states@[i as int]@)));
            assert(texts(states@).take(i + 1).map_values(|s: Seq<char>| debug_quoted(s)) =~= texts(states@).take(
                i as int,
            ).map_values(|s: Seq<char>| debug_quoted(s)).push(debug_quoted(states@[i as int]@)));
            i = i + 1;
        }
        assert(texts(states@).take(states@.len() as int) =~= texts(states@));
        let inner = join(quoted.as_slice(), ", ");
        let out = concat("Possible { states: [", inner.as_str());
        concat(out.as_str(), "] }")
    }
}

/// Abstract value of one Boolean output domain.
pub struct DomainModel {
    pub symbol: Seq<char>,
    pub values: Seq<bool>,
}

/// The Boolean values an executable symbol is inferred to return.
#[derive(Debug)]
pub struct BooleanDomain {
    symbol: String,
    values: Vec<bool>,
}

impl View for BooleanDomain {
    type V = DomainModel;

    closed spec fn view(&self) -> DomainModel {
        DomainModel { symbol: self.symbol@, values: self.values@ }
    }
}

impl BooleanDomain {
    /// Records one Boolean output domain.
    pub fn new(symbol: String, values: Vec<bool>) -> (r: Self)
        ensures
            r@ == (DomainModel { symbol: symbol@, values: values@ }),
    {
        BooleanDomain { symbol, values }
    }
}

/// The Boolean output domain of a symbol: that of its last entry.
pub open spec fn boolean_domain(domains: Seq<DomainModel>, symbol: Seq<char>) -> Option<Seq<bool>>
    decreases domains.len(),
{
    if domains.len() == 0 {
        None
    } else if domains.last().symbol == symbol {
        Some(domains.last().values)
    } else {
        boolean_domain(domains.drop_last(), symbol)
    }
}

fn boolean_domain_exec<'a>(domains: &'a [BooleanDomain], symbol: &str) -> (r: Option<&'a Vec<bool>>)
    ensures
        match r {
            Some(v) => boolean_domain(views(domains@), symbol@) == Some(v@),
            None => boolean_domain(views(domains@), symbol@) is None,
        },
{
    let ghost dv = views(domains@);
    let mut i: usize = domains.len();
    assert(dv.take(i as int) =~= dv);
    while i > 0
        invariant
            dv == views(domains@),
            i <= domains@.len(),
            boolean_domain(dv, symbol@) == boolean_domain(dv.take(i as int), symbol@),
        decreases i,
    {
        i = i - 1;
        assert(dv.take(i + 1).drop_last() =~= dv.take(i as int));
        assert(dv.take(i + 1).last() == domains@[i as int]@);
        if text_eq(domains[i].symbol.as_str(), symbol) {
            return Some(&domains[i].values);
        }
    }
    None
}

/// The implementation event an anchor denotes, if it resolves: a Boolean
/// return refinement resolves only when the symbol's inferred Boolean
/// domain admits the value.
pub open spec fn anchor_event(a: AnchorModel, domains: Seq<DomainModel>) -> Option<Seq<char>> {
    match a {
        AnchorModel::SymbolEntry { symbol } => Some(event_id_of("symbol_entry"@, symbol)),
        AnchorModel::SymbolReturn { symbol, boolean } => match boolean {
            Some(expected) => match boolean_domain(domains, symbol) {
                Some(values) => if values.contains(expected) {
                    Some(
                        event_id_of(
                            "symbol_return_boolean"@,
                            symbol + ":"@ + if expected {
                                "true"@
                            } else {
                                "false"@
                            },
                        ),
                    )
                } else {
                    None
                },
                None => None,
            },
            None => Some(event_id_of("symbol_return"@, symbol)),
        },
        AnchorModel::StateTransition { symbol, from_states, to_states, .. } => Some(
            event_id_of(
                "state_transition"@,
                symbol + ":"@ + classification_text(from_states) + ":"@ + classification_text(to_states),
            ),
        ),
        AnchorModel::Effect { effect, symbol } => Some(event_id_of("effect"@, symbol + ":"@ + effect)),
        AnchorModel::InformationTransition { transition, symbol, facet, from, to } => Some(
            event_id_of(
                "information_transition"@,
                symbol + ":"@ + transition + ":"@ + facet + ":"@ + from + ":"@ + to,
            ),
        ),
        AnchorModel::EnvironmentOutcome { operation, outcome } => Some(
            event_id_of("environment_outcome"@, operation + ":"@ + outcome),
        ),
    }
}

fn bool_contains(values: &Vec<bool>, b: bool) -> (r: bool)
    ensures
        r == values@.contains(b),
{
    let mut i: usize = 0;
    while i < values.len()
        invariant
            i <= values@.len(),
            forall|k: int| 0 <= k < i ==> values@[k] != b,
        decreases values.len() - i,
    {
        if values[i] == b {
            assert(values@[i as int] == b);
            return true;
        }
        i = i + 1;
    }
    false
}

/// Resolves the implementation event an anchor denotes.
pub fn resolve_anchor_event(anchor: &BehaviorAnchor, domains: &[BooleanDomain]) -> (r: Option<String>)
    ensures
        match r {
            Some(t) => anchor_event(anchor@, views(domains@)) == Some(t@),
            None => anchor_event(anchor@, views(domains@)) is None,
        },
{
    match anchor {
        BehaviorAnchor::SymbolEntry { symbol } => Some(event_id("symbol_entry", symbol.as_str())),
        BehaviorAnchor::SymbolReturn { symbol, boolean } => match boolean {
            Some(expected) => match boolean_domain_exec(domains, symbol.as_str()) {
                Some(values) => {
                    if bool_contains(values, *expected) {
                        let key = concat(symbol.as_str(), ":");
                        let key = concat(key.as_str(), if *expected {
                            "true"
                        } else {
                            "false"
                        });
                        Some(event_id("symbol_return_boolean", key.as_str()))
                    } else {
                        None
                    }
                },
                None => None,
            },
            None => Some(event_id("symbol_return", symbol.as_str())),
        },
        BehaviorAnchor::StateTransition { symbol, from_states, to_states, .. } => {
            let key = concat(symbol.as_str(), ":");
            let key = concat(key.as_str(), classification_text_exec(from_states).as_str());
            let key = concat(key.as_str(), ":");
            let key = concat(key.as_str(), classification_text_exec(to_states).as_str());
            Some(event_id("state_transition", key.as_str()))
        },
        BehaviorAnchor::Effect { effect, symbol } => {
            let key = concat(symbol.as_str(), ":");
            let key = concat(key.as_str(), effect.as_str());
            Some(event_id("effect", key.as_str()))
        },
        BehaviorAnchor::InformationTransition { transition, symbol, facet, from, to } => {
            let key = concat(symbol.as_str(), ":");
            let key = concat(key.as_str(), transition.as_str());
            let key = concat(key.as_str(), ":");
            let key = concat(key.as_str(), facet.as_str());
            let key = concat(key.as_str(), ":");
            let key = concat(key.as_str(), from.as_str());
            let key = concat(key.as_str(), ":");
            let key = concat(key.as_str(), to.as_str());
            Some(event_id("information_transition", key.as_str()))
        },
        BehaviorAnchor::EnvironmentOutcome { operation, outcome } => {
            let key = concat(operation.as_str(), ":");
            let key = concat(key.as_str(), outcome.as_str());
            Some(event_id("environment_outcome", key.as_str()))
        },
    }
}

/// Abstract value of the resolved contract set.
pub struct ContractsModel {
    pub features: Seq<Seq<char>>,
    pub checkpoints: Seq<ResolvedModel>,
    pub digest: Seq<char>,
}

/// Canonical validated distributed Behavior Realization Contract set: the
/// opted-in Features, every checkpoint binding, and the digest of the
/// distributed authority.
#[derive(Debug)]
pub struct ResolvedBehaviorRealizationContracts {
    features: Vec<String>,
    checkpoints: Vec<ResolvedCheckpointRealization>,
    digest: String,
}

impl View for ResolvedBehaviorRealizationContracts {
    type V = ContractsModel;

    closed spec fn view(&self) -> ContractsModel {
        ContractsModel { features: texts(self.features@), checkpoints: views(self.checkpoints@), digest: self.digest@ }
    }
}

impl ResolvedBehaviorRealizationContracts {
    /// Records a resolved contract set.
    pub fn new(features: Vec<String>, checkpoints: Vec<ResolvedCheckpointRealization>, digest: String) -> (r: Self)
        ensures
            r@ == (ContractsModel { features: texts(features@), checkpoints: views(checkpoints@), digest: digest@ }),
    {
        ResolvedBehaviorRealizationContracts { features, checkpoints, digest }
    }

    /// Returns opted-in Features in stable order.
    pub fn features(&self) -> (r: &[String])
        ensures
            texts(r@) == self@.features,
    {
        self.features.as_slice()
    }

    /// Returns all complete checkpoint bindings.
    pub fn checkpoints(&self) -> (r: &[ResolvedCheckpointRealization])
        ensures
            views(r@) == self@.checkpoints,
    {
        self.checkpoints.as_slice()
    }

    /// Returns the deterministic distributed-authority digest.
    pub fn digest(&self) -> (r: &str)
        ensures
            r@ == self@.digest,
    {
        self.digest.as_str()
    }
}

} // verus!
