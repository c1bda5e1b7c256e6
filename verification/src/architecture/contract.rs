//! Typed machine authority for one canonical Fortress Module.
//!
//! Filesystem containment owns parentage, children, and direct elemental
//! membership. This contract owns only stable Module identity and explicitly
//! typed outbound architectural relationships.

use vstd::prelude::*;

use crate::order::views;
use crate::text::{blank, copy_text, is_blank, is_trimmed, seq_le, text_eq, text_le, trimmed};

verus! {

/// Current supported Module contract schema family.
pub const MODULE_CONTRACT_SCHEMA_VERSION: u16 = 1;

/// Currently enforceable outbound Module relationship types.
#[derive(Clone, Copy, Debug, PartialEq, Eq, Structural)]
pub enum ModuleRelationshipType {
    /// The source Module requires behavior or facts owned by the target.
    DependsOn,
    /// The source Module provides verification evidence for the target.
    Verifies,
}

/// The canonical serialized spelling of a relationship type.
pub open spec fn relationship_type_name(t: ModuleRelationshipType) -> Seq<char> {
    match t {
        ModuleRelationshipType::DependsOn => "depends_on"@,
        ModuleRelationshipType::Verifies => "verifies"@,
    }
}

/// The canonical rank of a relationship type.
pub open spec fn relationship_type_rank(t: ModuleRelationshipType) -> nat {
    match t {
        ModuleRelationshipType::DependsOn => 0,
        ModuleRelationshipType::Verifies => 1,
    }
}

impl ModuleRelationshipType {
    /// Returns the canonical serialized spelling.
    pub fn as_str(self) -> (r: &'static str)
        ensures
            r@ == relationship_type_name(self),
    {
        match self {
            ModuleRelationshipType::DependsOn => "depends_on",
            ModuleRelationshipType::Verifies => "verifies",
        }
    }

    fn rank(self) -> (r: u8)
        ensures
            r == relationship_type_rank(self),
    {
        match self {
            ModuleRelationshipType::DependsOn => 0,
            ModuleRelationshipType::Verifies => 1,
        }
    }
}

/// Abstract value of one relationship group.
pub struct RelationshipModel {
    pub target: Seq<char>,
    pub types: Seq<ModuleRelationshipType>,
}

/// One target-grouped outbound architectural relationship.
#[derive(Clone, Debug)]
pub struct ModuleRelationship {
    target: String,
    types: Vec<ModuleRelationshipType>,
}

impl View for ModuleRelationship {
    type V = RelationshipModel;

    closed spec fn view(&self) -> RelationshipModel {
        RelationshipModel { target: self.target@, types: self.types@ }
    }
}

impl ModuleRelationship {
    /// Creates one relationship group as authored.
    pub fn new(target: String, types: Vec<ModuleRelationshipType>) -> (r: Self)
        ensures
            r@ == (RelationshipModel { target: target@, types: types@ }),
    {
        ModuleRelationship { target, types }
    }

    /// Returns the stable target Module identity.
    pub fn target(&self) -> (r: &str)
        ensures
            r@ == self@.target,
    {
        self.target.as_str()
    }

    /// Returns the relationship types for the target.
    pub fn types(&self) -> (r: &[ModuleRelationshipType])
        ensures
            r@ == self@.types,
    {
        self.types.as_slice()
    }
}

/// Abstract value of one Module contract.
pub struct ContractModel {
    pub schema: Seq<char>,
    pub schema_version: u16,
    pub id: Seq<char>,
    pub display_name: Seq<char>,
    pub relationships: Seq<RelationshipModel>,
}

/// A Module contract as authored; `validate` decides whether it is canonical.
#[derive(Clone, Debug)]
pub struct ModuleContract {
    schema: String,
    schema_version: u16,
    id: String,
    display_name: String,
    relationships: Vec<ModuleRelationship>,
}

impl View for ModuleContract {
    type V = ContractModel;

    closed spec fn view(&self) -> ContractModel {
        ContractModel {
            schema: self.schema@,
            schema_version: self.schema_version,
            id: self.id@,
            display_name: self.display_name@,
            relationships: views(self.relationships@),
        }
    }
}

/// Explains a violated Module contract invariant.
#[derive(Clone, Debug, PartialEq, Eq)]
pub enum ModuleContractModelError {
    /// The schema family is unsupported.
    UnsupportedSchemaVersion(u16),
    /// A required field is empty.
    EmptyField(String),
    /// The stable Module identity is invalid.
    InvalidIdentity,
    /// The display name is empty or has surrounding whitespace.
    InvalidDisplayName,
    /// A relationship target identity is invalid.
    InvalidRelationshipTarget {
        /// Invalid target value.
        target: String,
    },
    /// A Module relates to itself.
    SelfRelationship(String),
    /// A target has no typed relationship.
    EmptyRelationshipTypes(String),
    /// A target appears more than once instead of grouping its types.
    DuplicateRelationshipTarget(String),
    /// Target groups are not in stable identity order.
    NoncanonicalRelationshipOrder,
    /// Relationship types are duplicated or not canonically ordered.
    NoncanonicalRelationshipTypes(String),
}

/// Abstract value of a contract violation.
pub enum ContractErrorModel {
    UnsupportedSchemaVersion(u16),
    EmptyField(Seq<char>),
    InvalidIdentity,
    InvalidDisplayName,
    InvalidRelationshipTarget(Seq<char>),
    SelfRelationship(Seq<char>),
    EmptyRelationshipTypes(Seq<char>),
    DuplicateRelationshipTarget(Seq<char>),
    NoncanonicalRelationshipOrder,
    NoncanonicalRelationshipTypes(Seq<char>),
}

impl View for ModuleContractModelError {
    type V = ContractErrorModel;

    open spec fn view(&self) -> ContractErrorModel {
        match self {
            ModuleContractModelError::UnsupportedSchemaVersion(v) => ContractErrorModel::UnsupportedSchemaVersion(*v),
            ModuleContractModelError::EmptyField(f) => ContractErrorModel::EmptyField(f@),
            ModuleContractModelError::InvalidIdentity => ContractErrorModel::InvalidIdentity,
            ModuleContractModelError::InvalidDisplayName => ContractErrorModel::InvalidDisplayName,
            ModuleContractModelError::InvalidRelationshipTarget { target } => ContractErrorModel::InvalidRelationshipTarget(target@),
            ModuleContractModelError::SelfRelationship(t) => ContractErrorModel::SelfRelationship(t@),
            ModuleContractModelError::EmptyRelationshipTypes(t) => ContractErrorModel::EmptyRelationshipTypes(t@),
            ModuleContractModelError::DuplicateRelationshipTarget(t) => ContractErrorModel::DuplicateRelationshipTarget(t@),
            ModuleContractModelError::NoncanonicalRelationshipOrder => ContractErrorModel::NoncanonicalRelationshipOrder,
            ModuleContractModelError::NoncanonicalRelationshipTypes(t) => ContractErrorModel::NoncanonicalRelationshipTypes(t@),
        }
    }
}

/// Relationship types are strictly increasing in canonical order.
pub open spec fn types_canonical(types: Seq<ModuleRelationshipType>) -> bool {
    forall|i: int| 0 <= i < types.len() - 1 ==> relationship_type_rank(#[trigger] types[i]) < relationship_type_rank(types[i + 1])
}

/// The verdict on relationships from position `k` on, given the previous
/// target; `target_valid[k]` is the stable-identity verdict on target `k`.
pub open spec fn relationships_verdict(
    id: Seq<char>,
    rs: Seq<RelationshipModel>,
    target_valid: Seq<bool>,
    k: int,
    previous: Option<Seq<char>>,
) -> Option<ContractErrorModel>
    decreases rs.len() - k,
{
    if k < 0 || k >= rs.len() {
        None
    } else {
        let r = rs[k];
        if !target_valid[k] {
            Some(ContractErrorModel::InvalidRelationshipTarget(r.target))
        } else if r.target == id {
            Some(ContractErrorModel::SelfRelationship(r.target))
        } else if r.types.len() == 0 {
            Some(ContractErrorModel::EmptyRelationshipTypes(r.target))
        } else if previous is Some && seq_le(r.target, previous->0) {
            if previous == Some(r.target) {
                Some(ContractErrorModel::DuplicateRelationshipTarget(r.target))
            } else {
                Some(ContractErrorModel::NoncanonicalRelationshipOrder)
            }
        } else if !types_canonical(r.types) {
            Some(ContractErrorModel::NoncanonicalRelationshipTypes(r.target))
        } else {
            relationships_verdict(id, rs, target_valid, k + 1, Some(r.target))
        }
    }
}

/// The first violation of a contract, or none. `id_valid` and
/// `target_valid` are the stable-identity verdicts on its identity and on
/// each relationship target.
pub open spec fn contract_verdict(c: ContractModel, id_valid: bool, target_valid: Seq<bool>) -> Option<ContractErrorModel> {
    if is_blank(c.schema) {
        Some(ContractErrorModel::EmptyField("$schema"@))
    } else if c.schema_version != MODULE_CONTRACT_SCHEMA_VERSION {
        Some(ContractErrorModel::UnsupportedSchemaVersion(c.schema_version))
    } else if !id_valid {
        Some(ContractErrorModel::InvalidIdentity)
    } else if is_blank(c.display_name) || !is_trimmed(c.display_name) {
        Some(ContractErrorModel::InvalidDisplayName)
    } else {
        relationships_verdict(c.id, c.relationships, target_valid, 0, None)
    }
}

/// Every relationship is individually acceptable: its target is a valid
/// identity other than the contract's own, and it has canonically ordered,
/// non-empty types.
pub open spec fn relationships_acceptable(id: Seq<char>, rs: Seq<RelationshipModel>, target_valid: Seq<bool>) -> bool {
    forall|k: int|
        0 <= k < rs.len() ==> #[trigger] target_valid[k] && rs[k].target != id && rs[k].types.len() > 0
            && types_canonical(rs[k].types)
}

/// Targets strictly increase from each relationship to the next.
pub open spec fn targets_ascending(rs: Seq<RelationshipModel>) -> bool {
    forall|k: int| 0 < k < rs.len() ==> crate::text::seq_lt(#[trigger] rs[k - 1].target, rs[k].target)
}

proof fn lemma_ascending_relationships_accepted(
    id: Seq<char>,
    rs: Seq<RelationshipModel>,
    target_valid: Seq<bool>,
    k: int,
)
    requires
        0 <= k <= rs.len(),
        target_valid.len() == rs.len(),
        relationships_acceptable(id, rs, target_valid),
        targets_ascending(rs),
    ensures
        relationships_verdict(id, rs, target_valid, k, if k == 0 { None } else { Some(rs[k - 1].target) }) is None,
    decreases rs.len() - k,
{
    if k < rs.len() {
        assert(target_valid[k] && rs[k].target != id && rs[k].types.len() > 0 && types_canonical(rs[k].types));
        if k > 0 {
            assert(crate::text::seq_lt(rs[k - 1].target, rs[k].target));
            if seq_le(rs[k].target, rs[k - 1].target) {
                crate::text::lemma_seq_le_antisymmetric(rs[k].target, rs[k - 1].target);
            }
        }
        lemma_ascending_relationships_accepted(id, rs, target_valid, k + 1);
    }
}

/// A contract whose header is valid, whose relationships are individually
/// acceptable, and whose targets strictly increase, validates.
pub proof fn lemma_ascending_contract_validates(c: ContractModel, id_valid: bool, target_valid: Seq<bool>)
    requires
        !is_blank(c.schema),
        c.schema_version == MODULE_CONTRACT_SCHEMA_VERSION,
        id_valid,
        !is_blank(c.display_name),
        is_trimmed(c.display_name),
        target_valid.len() == c.relationships.len(),
        relationships_acceptable(c.id, c.relationships, target_valid),
        targets_ascending(c.relationships),
    ensures
        contract_verdict(c, id_valid, target_valid) is None,
{
    lemma_ascending_relationships_accepted(c.id, c.relationships, target_valid, 0);
}

proof fn lemma_accepted_relationships_are_ascending(
    id: Seq<char>,
    rs: Seq<RelationshipModel>,
    target_valid: Seq<bool>,
    k: int,
)
    requires
        0 <= k <= rs.len(),
        target_valid.len() == rs.len(),
        relationships_verdict(id, rs, target_valid, k, if k == 0 { None } else { Some(rs[k - 1].target) }) is None,
    ensures
        forall|j: int|
            k <= j < rs.len() ==> #[trigger] target_valid[j] && rs[j].target != id && rs[j].types.len() > 0
                && types_canonical(rs[j].types),
        forall|j: int| k <= j < rs.len() && 0 < j ==> crate::text::seq_lt(#[trigger] rs[j - 1].target, rs[j].target),
    decreases rs.len() - k,
{
    if k < rs.len() {
        lemma_accepted_relationships_are_ascending(id, rs, target_valid, k + 1);
        if k > 0 {
            crate::text::lemma_seq_le_total(rs[k].target, rs[k - 1].target);
        }
        assert(target_valid[k] && rs[k].target != id && rs[k].types.len() > 0 && types_canonical(rs[k].types));
        assert forall|j: int|
            k <= j < rs.len() implies #[trigger] target_valid[j] && rs[j].target != id && rs[j].types.len() > 0
                && types_canonical(rs[j].types) by {
            if j > k {
                assert(target_valid[j]);
            }
        }
        assert forall|j: int| k <= j < rs.len() && 0 < j implies crate::text::seq_lt(
            #[trigger] rs[j - 1].target,
            rs[j].target,
        ) by {
            if j == k {
                assert(!seq_le(rs[k].target, rs[k - 1].target));
            }
        }
    }
}

/// A contract validates only when its header is valid, every relationship
/// is individually acceptable, and its targets strictly increase.
pub proof fn lemma_valid_contract_is_ascending(c: ContractModel, id_valid: bool, target_valid: Seq<bool>)
    requires
        target_valid.len() == c.relationships.len(),
        contract_verdict(c, id_valid, target_valid) is None,
    ensures
        !is_blank(c.schema),
        c.schema_version == MODULE_CONTRACT_SCHEMA_VERSION,
        id_valid,
        !is_blank(c.display_name),
        is_trimmed(c.display_name),
        relationships_acceptable(c.id, c.relationships, target_valid),
        targets_ascending(c.relationships),
{
    lemma_accepted_relationships_are_ascending(c.id, c.relationships, target_valid, 0);
}

proof fn lemma_order_error_has_descent(
    id: Seq<char>,
    rs: Seq<RelationshipModel>,
    target_valid: Seq<bool>,
    k: int,
)
    requires
        0 <= k,
        target_valid.len() == rs.len(),
        relationships_verdict(id, rs, target_valid, k, if k == 0 { None } else { Some(rs[k - 1].target) })
            == Some(ContractErrorModel::NoncanonicalRelationshipOrder),
    ensures
        exists|j: int| 0 < j < rs.len() && crate::text::seq_lt(#[trigger] rs[j].target, rs[j - 1].target),
    decreases rs.len() - k,
{
    if k < rs.len() {
        let r = rs[k];
        if k > 0 && seq_le(r.target, rs[k - 1].target) && rs[k - 1].target != r.target {
            assert(crate::text::seq_lt(rs[k].target, rs[k - 1].target));
        } else {
            lemma_order_error_has_descent(id, rs, target_valid, k + 1);
        }
    }
}

proof fn lemma_duplicate_error_has_repeat(
    id: Seq<char>,
    rs: Seq<RelationshipModel>,
    target_valid: Seq<bool>,
    k: int,
    t: Seq<char>,
)
    requires
        0 <= k,
        target_valid.len() == rs.len(),
        relationships_verdict(id, rs, target_valid, k, if k == 0 { None } else { Some(rs[k - 1].target) })
            == Some(ContractErrorModel::DuplicateRelationshipTarget(t)),
    ensures
        exists|j: int| 0 < j < rs.len() && #[trigger] rs[j].target == t && rs[j - 1].target == t,
    decreases rs.len() - k,
{
    if k < rs.len() {
        let r = rs[k];
        if k > 0 && seq_le(r.target, rs[k - 1].target) && rs[k - 1].target == r.target && target_valid[k]
            && r.target != id && r.types.len() > 0 {
            assert(rs[k].target == t && rs[k - 1].target == t);
        } else {
            lemma_duplicate_error_has_repeat(id, rs, target_valid, k + 1, t);
        }
    }
}

/// A contract is refused for relationship order only when some target is
/// strictly less than the one before it, and for a duplicate target only
/// when that target directly follows itself.
pub proof fn lemma_order_errors_have_witnesses(c: ContractModel, id_valid: bool, target_valid: Seq<bool>)
    requires
        target_valid.len() == c.relationships.len(),
    ensures
        contract_verdict(c, id_valid, target_valid) == Some(ContractErrorModel::NoncanonicalRelationshipOrder)
            ==> exists|j: int|
            0 < j < c.relationships.len() && crate::text::seq_lt(
                #[trigger] c.relationships[j].target,
                c.relationships[j - 1].target,
            ),
        forall|t: Seq<char>|
            contract_verdict(c, id_valid, target_valid) == Some(ContractErrorModel::DuplicateRelationshipTarget(t))
                ==> exists|j: int|
                0 < j < c.relationships.len() && #[trigger] c.relationships[j].target == t
                    && c.relationships[j - 1].target == t,
{
    let rs = c.relationships;
    if contract_verdict(c, id_valid, target_valid) == Some(ContractErrorModel::NoncanonicalRelationshipOrder) {
        lemma_order_error_has_descent(c.id, rs, target_valid, 0);
    }
    assert forall|t: Seq<char>|
        contract_verdict(c, id_valid, target_valid) == Some(ContractErrorModel::DuplicateRelationshipTarget(t))
            implies exists|j: int|
            0 < j < rs.len() && #[trigger] rs[j].target == t && rs[j - 1].target == t by {
        lemma_duplicate_error_has_repeat(c.id, rs, target_valid, 0, t);
    }
}

fn types_are_canonical(types: &[ModuleRelationshipType]) -> (r: bool)
    ensures
        r == types_canonical(types@),
{
    if types.len() < 2 {
        return true;
    }
    let mut i: usize = 0;
    while i + 1 < types.len()
        invariant
            types@.len() >= 2,
            i + 1 <= types@.len(),
            forall|k: int| 0 <= k < i ==> relationship_type_rank(#[trigger] types@[k]) < relationship_type_rank(types@[k + 1]),
        decreases types.len() - i,
    {
        if types[i].rank() >= types[i + 1].rank() {
            return false;
        }
        i = i + 1;
    }
    true
}

impl ModuleContract {
    /// Creates a contract as authored, before validation.
    pub fn new(
        schema: String,
        schema_version: u16,
        id: String,
        display_name: String,
        relationships: Vec<ModuleRelationship>,
    ) -> (r: Self)
        ensures
            r@ == (ContractModel {
                schema: schema@,
                schema_version,
                id: id@,
                display_name: display_name@,
                relationships: views(relationships@),
            }),
    {
        ModuleContract { schema, schema_version, id, display_name, relationships }
    }

    /// Validates canonical identity, display name, and relationship ordering,
    /// and returns the first deterministic violation. `id_valid` and
    /// `target_valid` are the stable-identity verdicts on the contract
    /// identity and on each relationship target, in order.
    #[verifier::rlimit(40)]
    pub fn validate(&self, id_valid: bool, target_valid: &[bool]) -> (r: Result<(), ModuleContractModelError>)
        requires
            target_valid@.len() == self@.relationships.len(),
        ensures
            match (r, contract_verdict(self@, id_valid, target_valid@)) {
                (Ok(()), None) => true,
                (Err(e), Some(m)) => e@ == m,
                _ => false,
            },
    {
        if blank(self.schema.as_str()) {
            return Err(ModuleContractModelError::EmptyField(copy_text("$schema")));
        }
        if self.schema_version != MODULE_CONTRACT_SCHEMA_VERSION {
            return Err(ModuleContractModelError::UnsupportedSchemaVersion(self.schema_version));
        }
        if !id_valid {
            return Err(ModuleContractModelError::InvalidIdentity);
        }
        if blank(self.display_name.as_str()) || !trimmed(self.display_name.as_str()) {
            return Err(ModuleContractModelError::InvalidDisplayName);
        }
        let ghost rs = views(self.relationships@);
        let mut previous: Option<&str> = None;
        let mut k: usize = 0;
        while k < self.relationships.len()
            invariant
                rs == views(self.relationships@),
                target_valid@.len() == rs.len(),
                k <= rs.len(),
                contract_verdict(self@, id_valid, target_valid@) == relationships_verdict(
                    self@.id,
                    rs,
                    target_valid@,
                    k as int,
                    match previous {
                        Some(p) => Some(p@),
                        None => None,
                    },
                ),
            decreases self.relationships.len() - k,
        {
            let r = &self.relationships[k];
            assert(rs[k as int] == r@);
            if !target_valid[k] {
                return Err(ModuleContractModelError::InvalidRelationshipTarget { target: copy_text(r.target.as_str()) });
            }
            if text_eq(r.target.as_str(), self.id.as_str()) {
                return Err(ModuleContractModelError::SelfRelationship(copy_text(r.target.as_str())));
            }
            if r.types.len() == 0 {
                return Err(ModuleContractModelError::EmptyRelationshipTypes(copy_text(r.target.as_str())));
            }
            match previous {
                Some(p) => {
                    if text_le(r.target.as_str(), p) {
                        if text_eq(p, r.target.as_str()) {
                            return Err(ModuleContractModelError::DuplicateRelationshipTarget(copy_text(r.target.as_str())));
                        } else {
                            return Err(ModuleContractModelError::NoncanonicalRelationshipOrder);
                        }
                    }
                },
                None => {},
            }
            if !types_are_canonical(r.types.as_slice()) {
                return Err(ModuleContractModelError::NoncanonicalRelationshipTypes(copy_text(r.target.as_str())));
            }
            previous = Some(r.target.as_str());
            k = k + 1;
        }
        Ok(())
    }

    /// Returns the stable Module identity.
    pub fn id(&self) -> (r: &str)
        ensures
            r@ == self@.id,
    {
        self.id.as_str()
    }

    /// Returns the canonical human display name.
    pub fn display_name(&self) -> (r: &str)
        ensures
            r@ == self@.display_name,
    {
        self.display_name.as_str()
    }

    /// Returns outbound relationships in authored order.
    pub fn relationships(&self) -> (r: &[ModuleRelationship])
        ensures
            views(r@) == self@.relationships,
    {
        self.relationships.as_slice()
    }
}

} // verus!
