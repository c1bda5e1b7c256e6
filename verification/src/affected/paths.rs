//! Authority classification and canonical path/digest validation.

use vstd::prelude::*;

use crate::text::{
    chars_of, ends_with, contains_text, has_infix, hex_digit, is_hex_digit, is_suffix, text_eq,
    starts_with, is_prefix,
};

verus! {

/// Stable category of one authoritative repository input.
#[derive(Clone, Copy, Debug, PartialEq, Eq, Structural)]
pub enum AuthorityInputKind {
    /// Governed or observed source implementation.
    Source,
    /// Cargo manifest or lock authority.
    CargoAuthority,
    /// Project configuration, including logical path bindings.
    ProjectConfiguration,
    /// Canonical Module Contract authority.
    ModuleContract,
    /// Distributed Function Contract authority.
    FunctionContract,
    /// Authored finding baseline and exception authority.
    FindingGovernance,
    /// Standard rule, schema, manifest, or profile authority.
    StandardAuthority,
    /// Canonical source responsibility documentation.
    SourceResponsibility,
    /// State Contract authority.
    StateContract,
    /// Information-flow policy authority.
    InformationFlowPolicy,
    /// Environment Contract authority.
    EnvironmentContract,
    /// Behavioral Realization Contract authority.
    BehavioralRealizationContract,
    /// Other observed repository input with no narrower understood class.
    RepositoryInput,
}

/// The spelling of an authority class in human reports.
pub open spec fn authority_name(k: AuthorityInputKind) -> Seq<char> {
    match k {
        AuthorityInputKind::Source => "Source"@,
        AuthorityInputKind::CargoAuthority => "CargoAuthority"@,
        AuthorityInputKind::ProjectConfiguration => "ProjectConfiguration"@,
        AuthorityInputKind::ModuleContract => "ModuleContract"@,
        AuthorityInputKind::FunctionContract => "FunctionContract"@,
        AuthorityInputKind::FindingGovernance => "FindingGovernance"@,
        AuthorityInputKind::StandardAuthority => "StandardAuthority"@,
        AuthorityInputKind::SourceResponsibility => "SourceResponsibility"@,
        AuthorityInputKind::StateContract => "StateContract"@,
        AuthorityInputKind::InformationFlowPolicy => "InformationFlowPolicy"@,
        AuthorityInputKind::EnvironmentContract => "EnvironmentContract"@,
        AuthorityInputKind::BehavioralRealizationContract => "BehavioralRealizationContract"@,
        AuthorityInputKind::RepositoryInput => "RepositoryInput"@,
    }
}

impl AuthorityInputKind {
    /// Declaration rank, which is the canonical order of kinds.
    pub open spec fn spec_rank(self) -> nat {
        match self {
            AuthorityInputKind::Source => 0,
            AuthorityInputKind::CargoAuthority => 1,
            AuthorityInputKind::ProjectConfiguration => 2,
            AuthorityInputKind::ModuleContract => 3,
            AuthorityInputKind::FunctionContract => 4,
            AuthorityInputKind::FindingGovernance => 5,
            AuthorityInputKind::StandardAuthority => 6,
            AuthorityInputKind::SourceResponsibility => 7,
            AuthorityInputKind::StateContract => 8,
            AuthorityInputKind::InformationFlowPolicy => 9,
            AuthorityInputKind::EnvironmentContract => 10,
            AuthorityInputKind::BehavioralRealizationContract => 11,
            AuthorityInputKind::RepositoryInput => 12,
        }
    }

    /// Executable declaration rank.
    pub fn rank(self) -> (r: u8)
        ensures
            r as nat == self.spec_rank(),
    {
        match self {
            AuthorityInputKind::Source => 0,
            AuthorityInputKind::CargoAuthority => 1,
            AuthorityInputKind::ProjectConfiguration => 2,
            AuthorityInputKind::ModuleContract => 3,
            AuthorityInputKind::FunctionContract => 4,
            AuthorityInputKind::FindingGovernance => 5,
            AuthorityInputKind::StandardAuthority => 6,
            AuthorityInputKind::SourceResponsibility => 7,
            AuthorityInputKind::StateContract => 8,
            AuthorityInputKind::InformationFlowPolicy => 9,
            AuthorityInputKind::EnvironmentContract => 10,
            AuthorityInputKind::BehavioralRealizationContract => 11,
            AuthorityInputKind::RepositoryInput => 12,
        }
    }

    /// Stable identity spelling used in human reports.
    pub fn name(self) -> (r: &'static str)
        ensures
            r@ == authority_name(self),
    {
        match self {
            AuthorityInputKind::Source => "Source",
            AuthorityInputKind::CargoAuthority => "CargoAuthority",
            AuthorityInputKind::ProjectConfiguration => "ProjectConfiguration",
            AuthorityInputKind::ModuleContract => "ModuleContract",
            AuthorityInputKind::FunctionContract => "FunctionContract",
            AuthorityInputKind::FindingGovernance => "FindingGovernance",
            AuthorityInputKind::StandardAuthority => "StandardAuthority",
            AuthorityInputKind::SourceResponsibility => "SourceResponsibility",
            AuthorityInputKind::StateContract => "StateContract",
            AuthorityInputKind::InformationFlowPolicy => "InformationFlowPolicy",
            AuthorityInputKind::EnvironmentContract => "EnvironmentContract",
            AuthorityInputKind::BehavioralRealizationContract => "BehavioralRealizationContract",
            AuthorityInputKind::RepositoryInput => "RepositoryInput",
        }
    }
}

/// Ranks are distinct for distinct kinds.
pub proof fn lemma_authority_rank_injective(a: AuthorityInputKind, b: AuthorityInputKind)
    ensures
        a.spec_rank() == b.spec_rank() ==> a == b,
{
}

/// `s[end-1]` closes a `.` path segment.
pub open spec fn is_current_dir_segment(s: Seq<char>, end: int) -> bool {
    end >= 1 && s[end - 1] == '.' && (end == 1 || s[end - 2] == '/')
}

/// Start of the segment that ends at `end`.
pub open spec fn segment_start(s: Seq<char>, end: int) -> int
    decreases end,
{
    if end <= 0 || s[end - 1] == '/' {
        end
    } else {
        segment_start(s, end - 1)
    }
}

/// Range of the final normal path component inside `s.take(end)`, the way
/// `Path::file_name` resolves it: trailing separators and `.` segments are
/// skipped, and a final `..` has no file name.
pub open spec fn file_name_range(s: Seq<char>, end: int) -> Option<(int, int)>
    decreases end,
{
    if end <= 0 {
        None
    } else if s[end - 1] == '/' {
        file_name_range(s, end - 1)
    } else if is_current_dir_segment(s, end) {
        file_name_range(s, end - 1)
    } else if segment_start(s, end) == end - 2 && s[end - 1] == '.' && s[end - 2] == '.' {
        None
    } else {
        Some((segment_start(s, end), end))
    }
}

/// Index of the last `.` in `s[start..end]`.
pub open spec fn last_dot(s: Seq<char>, start: int, end: int) -> Option<int>
    decreases end - start,
{
    if end <= start {
        None
    } else if s[end - 1] == '.' {
        Some(end - 1)
    } else {
        last_dot(s, start, end - 1)
    }
}

/// Extension of the final path component (`Path::extension`).
pub open spec fn path_extension(s: Seq<char>) -> Option<Seq<char>> {
    match file_name_range(s, s.len() as int) {
        None => None,
        Some((start, end)) => match last_dot(s, start, end) {
            None => None,
            Some(dot) => if dot == start {
                None
            } else {
                Some(s.subrange(dot + 1, end))
            },
        },
    }
}

/// `e` spells `rs` or `py`, ignoring ASCII case.
pub open spec fn is_source_extension(e: Seq<char>) -> bool {
    e.len() == 2 && (((e[0] == 'r' || e[0] == 'R') && (e[1] == 's' || e[1] == 'S')) || ((e[0]
        == 'p' || e[0] == 'P') && (e[1] == 'y' || e[1] == 'Y')))
}

/// `path` is `name` or ends with `/name`.
pub open spec fn names_file(path: Seq<char>, name: Seq<char>) -> bool {
    path == name || is_suffix(seq!['/'] + name, path)
}

/// The authority classification of one repository-relative path.
pub open spec fn authority_of(p: Seq<char>) -> AuthorityInputKind {
    if p == "data/project.json"@ {
        AuthorityInputKind::ProjectConfiguration
    } else if p == "data/finding_governance.json"@ {
        AuthorityInputKind::FindingGovernance
    } else if p == "contract.json"@ || is_suffix("/contract.json"@, p) {
        AuthorityInputKind::ModuleContract
    } else if p == "data/function_contracts.json"@ || is_suffix(
        "/data/function_contracts.json"@,
        p,
    ) {
        AuthorityInputKind::FunctionContract
    } else if p == "data/state_contracts.json"@ || is_suffix("/data/state_contracts.json"@, p) {
        AuthorityInputKind::StateContract
    } else if p == "data/information_flow_policy.json"@ || is_suffix(
        "/data/information_flow_policy.json"@,
        p,
    ) {
        AuthorityInputKind::InformationFlowPolicy
    } else if p == "data/environment_contracts.json"@ || is_suffix(
        "/data/environment_contracts.json"@,
        p,
    ) {
        AuthorityInputKind::EnvironmentContract
    } else if p == "data/behavior_realization_contracts.json"@ || is_suffix(
        "/data/behavior_realization_contracts.json"@,
        p,
    ) {
        AuthorityInputKind::BehavioralRealizationContract
    } else if is_suffix("/docs/code_docs.md"@, p) || p == "docs/code_docs.md"@ {
        AuthorityInputKind::SourceResponsibility
    } else if p == "Cargo.toml"@ || is_suffix("/Cargo.toml"@, p) || p == "Cargo.lock"@
        || is_suffix("/Cargo.lock"@, p) {
        AuthorityInputKind::CargoAuthority
    } else if (match path_extension(p) {
        Some(e) => is_source_extension(e),
        None => false,
    }) {
        AuthorityInputKind::Source
    } else if has_infix("/standard_registry/data/"@, p) || is_suffix("_rule.json"@, p)
        || is_suffix("_schema_v1.json"@, p) || is_suffix("_schema_v2.json"@, p) || is_suffix(
        "_schema_v3.json"@,
        p,
    ) {
        AuthorityInputKind::StandardAuthority
    } else {
        AuthorityInputKind::RepositoryInput
    }
}

proof fn lemma_suffix_char(name: Seq<char>, p: Seq<char>, k: int)
    requires
        is_suffix(name, p),
        0 <= k < name.len(),
    ensures
        p[p.len() - name.len() + k] == name[k],
{
    assert(p.subrange(p.len() - name.len(), p.len() as int)[k] == p[p.len() - name.len() + k]);
}

/// A path naming the project configuration `data/project.json` is classified `ProjectConfiguration`.
pub proof fn lemma_project_configuration_path_is_classified(p: Seq<char>)
    requires
        p == "data/project.json"@,
    ensures
        authority_of(p) == AuthorityInputKind::ProjectConfiguration,
{
    reveal_strlit("data/project.json");
}

/// A path naming the finding governance `data/finding_governance.json` is classified `FindingGovernance`.
pub proof fn lemma_finding_governance_path_is_classified(p: Seq<char>)
    requires
        p == "data/finding_governance.json"@,
    ensures
        authority_of(p) == AuthorityInputKind::FindingGovernance,
{
    reveal_strlit("data/finding_governance.json");
    reveal_strlit("data/project.json");
    if p == "data/finding_governance.json"@ && p == "data/project.json"@ {
    }
}

/// A path naming a Module contract `contract.json`, at the root or in any directory, is classified `ModuleContract`.
pub proof fn lemma_module_contract_path_is_classified(p: Seq<char>)
    requires
        p == "contract.json"@ || is_suffix("/contract.json"@, p),
    ensures
        authority_of(p) == AuthorityInputKind::ModuleContract,
{
    reveal_strlit("/contract.json");
    reveal_strlit("contract.json");
    reveal_strlit("data/finding_governance.json");
    reveal_strlit("data/project.json");
    if p == "contract.json"@ && p == "data/project.json"@ {
    }
    if p == "contract.json"@ && p == "data/finding_governance.json"@ {
    }
    if is_suffix("/contract.json"@, p) && p == "data/project.json"@ {
        lemma_suffix_char("/contract.json"@, p, 0);
        assert(p[3] == "data/project.json"@[3]);
    }
    if is_suffix("/contract.json"@, p) && p == "data/finding_governance.json"@ {
        lemma_suffix_char("/contract.json"@, p, 0);
        assert(p[14] == "data/finding_governance.json"@[14]);
    }
}

/// A path naming the function contracts `data/function_contracts.json` of any Module is classified `FunctionContract`.
pub proof fn lemma_function_contract_path_is_classified(p: Seq<char>)
    requires
        p == "data/function_contracts.json"@ || is_suffix("/data/function_contracts.json"@, p),
    ensures
        authority_of(p) == AuthorityInputKind::FunctionContract,
{
    reveal_strlit("/contract.json");
    reveal_strlit("/data/function_contracts.json");
    reveal_strlit("contract.json");
    reveal_strlit("data/finding_governance.json");
    reveal_strlit("data/function_contracts.json");
    reveal_strlit("data/project.json");
    if p == "data/function_contracts.json"@ && p == "data/project.json"@ {
    }
    if p == "data/function_contracts.json"@ && p == "data/finding_governance.json"@ {
        assert(p[6] == "data/function_contracts.json"@[6]);
    }
    if p == "data/function_contracts.json"@ && p == "contract.json"@ {
    }
    if p == "data/function_contracts.json"@ && is_suffix("/contract.json"@, p) {
        lemma_suffix_char("/contract.json"@, p, 0);
        assert(p[14] == "data/function_contracts.json"@[14]);
    }
    if is_suffix("/data/function_contracts.json"@, p) && p == "data/project.json"@ {
    }
    if is_suffix("/data/function_contracts.json"@, p) && p == "data/finding_governance.json"@ {
    }
    if is_suffix("/data/function_contracts.json"@, p) && p == "contract.json"@ {
    }
    if is_suffix("/data/function_contracts.json"@, p) && is_suffix("/contract.json"@, p) {
        lemma_suffix_char("/contract.json"@, p, 0);
        lemma_suffix_char("/data/function_contracts.json"@, p, 15);
    }
}

/// A path naming the state contracts `data/state_contracts.json` of any Module is classified `StateContract`.
pub proof fn lemma_state_contract_path_is_classified(p: Seq<char>)
    requires
        p == "data/state_contracts.json"@ || is_suffix("/data/state_contracts.json"@, p),
    ensures
        authority_of(p) == AuthorityInputKind::StateContract,
{
    reveal_strlit("/contract.json");
    reveal_strlit("/data/function_contracts.json");
    reveal_strlit("/data/state_contracts.json");
    reveal_strlit("contract.json");
    reveal_strlit("data/finding_governance.json");
    reveal_strlit("data/function_contracts.json");
    reveal_strlit("data/project.json");
    reveal_strlit("data/state_contracts.json");
    if p == "data/state_contracts.json"@ && p == "data/project.json"@ {
    }
    if p == "data/state_contracts.json"@ && p == "data/finding_governance.json"@ {
    }
    if p == "data/state_contracts.json"@ && p == "contract.json"@ {
    }
    if p == "data/state_contracts.json"@ && is_suffix("/contract.json"@, p) {
        lemma_suffix_char("/contract.json"@, p, 0);
        assert(p[11] == "data/state_contracts.json"@[11]);
    }
    if p == "data/state_contracts.json"@ && p == "data/function_contracts.json"@ {
    }
    if p == "data/state_contracts.json"@ && is_suffix("/data/function_contracts.json"@, p) {
    }
    if is_suffix("/data/state_contracts.json"@, p) && p == "data/project.json"@ {
    }
    if is_suffix("/data/state_contracts.json"@, p) && p == "data/finding_governance.json"@ {
        lemma_suffix_char("/data/state_contracts.json"@, p, 0);
        assert(p[2] == "data/finding_governance.json"@[2]);
    }
    if is_suffix("/data/state_contracts.json"@, p) && p == "contract.json"@ {
    }
    if is_suffix("/data/state_contracts.json"@, p) && is_suffix("/contract.json"@, p) {
        lemma_suffix_char("/contract.json"@, p, 0);
        lemma_suffix_char("/data/state_contracts.json"@, p, 12);
    }
    if is_suffix("/data/state_contracts.json"@, p) && p == "data/function_contracts.json"@ {
        lemma_suffix_char("/data/state_contracts.json"@, p, 0);
        assert(p[2] == "data/function_contracts.json"@[2]);
    }
    if is_suffix("/data/state_contracts.json"@, p) && is_suffix("/data/function_contracts.json"@, p) {
        lemma_suffix_char("/data/state_contracts.json"@, p, 0);
        lemma_suffix_char("/data/function_contracts.json"@, p, 3);
    }
}

/// A path naming the information-flow policy `data/information_flow_policy.json` of any Module is classified `InformationFlowPolicy`.
pub proof fn lemma_information_flow_policy_path_is_classified(p: Seq<char>)
    requires
        p == "data/information_flow_policy.json"@ || is_suffix("/data/information_flow_policy.json"@, p),
    ensures
        authority_of(p) == AuthorityInputKind::InformationFlowPolicy,
{
    reveal_strlit("/contract.json");
    reveal_strlit("/data/function_contracts.json");
    reveal_strlit("/data/information_flow_policy.json");
    reveal_strlit("/data/state_contracts.json");
    reveal_strlit("contract.json");
    reveal_strlit("data/finding_governance.json");
    reveal_strlit("data/function_contracts.json");
    reveal_strlit("data/information_flow_policy.json");
    reveal_strlit("data/project.json");
    reveal_strlit("data/state_contracts.json");
    if p == "data/information_flow_policy.json"@ && p == "data/project.json"@ {
    }
    if p == "data/information_flow_policy.json"@ && p == "data/finding_governance.json"@ {
    }
    if p == "data/information_flow_policy.json"@ && p == "contract.json"@ {
    }
    if p == "data/information_flow_policy.json"@ && is_suffix("/contract.json"@, p) {
        lemma_suffix_char("/contract.json"@, p, 0);
        assert(p[19] == "data/information_flow_policy.json"@[19]);
    }
    if p == "data/information_flow_policy.json"@ && p == "data/function_contracts.json"@ {
    }
    if p == "data/information_flow_policy.json"@ && is_suffix("/data/function_contracts.json"@, p) {
        lemma_suffix_char("/data/function_contracts.json"@, p, 1);
        assert(p[5] == "data/information_flow_policy.json"@[5]);
    }
    if p == "data/information_flow_policy.json"@ && p == "data/state_contracts.json"@ {
    }
    if p == "data/information_flow_policy.json"@ && is_suffix("/data/state_contracts.json"@, p) {
        lemma_suffix_char("/data/state_contracts.json"@, p, 0);
        assert(p[7] == "data/information_flow_policy.json"@[7]);
    }
    if is_suffix("/data/information_flow_policy.json"@, p) && p == "data/project.json"@ {
    }
    if is_suffix("/data/information_flow_policy.json"@, p) && p == "data/finding_governance.json"@ {
    }
    if is_suffix("/data/information_flow_policy.json"@, p) && p == "contract.json"@ {
    }
    if is_suffix("/data/information_flow_policy.json"@, p) && is_suffix("/contract.json"@, p) {
        lemma_suffix_char("/contract.json"@, p, 0);
        lemma_suffix_char("/data/information_flow_policy.json"@, p, 20);
    }
    if is_suffix("/data/information_flow_policy.json"@, p) && p == "data/function_contracts.json"@ {
    }
    if is_suffix("/data/information_flow_policy.json"@, p) && is_suffix("/data/function_contracts.json"@, p) {
        lemma_suffix_char("/data/function_contracts.json"@, p, 1);
        lemma_suffix_char("/data/information_flow_policy.json"@, p, 6);
    }
    if is_suffix("/data/information_flow_policy.json"@, p) && p == "data/state_contracts.json"@ {
    }
    if is_suffix("/data/information_flow_policy.json"@, p) && is_suffix("/data/state_contracts.json"@, p) {
        lemma_suffix_char("/data/state_contracts.json"@, p, 0);
        lemma_suffix_char("/data/information_flow_policy.json"@, p, 8);
    }
}

/// A path naming the environment contracts `data/environment_contracts.json` of any Module is classified `EnvironmentContract`.
pub proof fn lemma_environment_contract_path_is_classified(p: Seq<char>)
    requires
        p == "data/environment_contracts.json"@ || is_suffix("/data/environment_contracts.json"@, p),
    ensures
        authority_of(p) == AuthorityInputKind::EnvironmentContract,
{
    reveal_strlit("/contract.json");
    reveal_strlit("/data/environment_contracts.json");
    reveal_strlit("/data/function_contracts.json");
    reveal_strlit("/data/information_flow_policy.json");
    reveal_strlit("/data/state_contracts.json");
    reveal_strlit("contract.json");
    reveal_strlit("data/environment_contracts.json");
    reveal_strlit("data/finding_governance.json");
    reveal_strlit("data/function_contracts.json");
    reveal_strlit("data/information_flow_policy.json");
    reveal_strlit("data/project.json");
    reveal_strlit("data/state_contracts.json");
    if p == "data/environment_contracts.json"@ && p == "data/project.json"@ {
    }
    if p == "data/environment_contracts.json"@ && p == "data/finding_governance.json"@ {
    }
    if p == "data/environment_contracts.json"@ && p == "contract.json"@ {
    }
    if p == "data/environment_contracts.json"@ && is_suffix("/contract.json"@, p) {
        lemma_suffix_char("/contract.json"@, p, 0);
        assert(p[17] == "data/environment_contracts.json"@[17]);
    }
    if p == "data/environment_contracts.json"@ && p == "data/function_contracts.json"@ {
    }
    if p == "data/environment_contracts.json"@ && is_suffix("/data/function_contracts.json"@, p) {
        lemma_suffix_char("/data/function_contracts.json"@, p, 0);
        assert(p[2] == "data/environment_contracts.json"@[2]);
    }
    if p == "data/environment_contracts.json"@ && p == "data/state_contracts.json"@ {
    }
    if p == "data/environment_contracts.json"@ && is_suffix("/data/state_contracts.json"@, p) {
        lemma_suffix_char("/data/state_contracts.json"@, p, 0);
        assert(p[5] == "data/environment_contracts.json"@[5]);
    }
    if p == "data/environment_contracts.json"@ && p == "data/information_flow_policy.json"@ {
    }
    if p == "data/environment_contracts.json"@ && is_suffix("/data/information_flow_policy.json"@, p) {
    }
    if is_suffix("/data/environment_contracts.json"@, p) && p == "data/project.json"@ {
    }
    if is_suffix("/data/environment_contracts.json"@, p) && p == "data/finding_governance.json"@ {
    }
    if is_suffix("/data/environment_contracts.json"@, p) && p == "contract.json"@ {
    }
    if is_suffix("/data/environment_contracts.json"@, p) && is_suffix("/contract.json"@, p) {
        lemma_suffix_char("/contract.json"@, p, 0);
        lemma_suffix_char("/data/environment_contracts.json"@, p, 18);
    }
    if is_suffix("/data/environment_contracts.json"@, p) && p == "data/function_contracts.json"@ {
    }
    if is_suffix("/data/environment_contracts.json"@, p) && is_suffix("/data/function_contracts.json"@, p) {
        lemma_suffix_char("/data/function_contracts.json"@, p, 0);
        lemma_suffix_char("/data/environment_contracts.json"@, p, 3);
    }
    if is_suffix("/data/environment_contracts.json"@, p) && p == "data/state_contracts.json"@ {
    }
    if is_suffix("/data/environment_contracts.json"@, p) && is_suffix("/data/state_contracts.json"@, p) {
        lemma_suffix_char("/data/state_contracts.json"@, p, 0);
        lemma_suffix_char("/data/environment_contracts.json"@, p, 6);
    }
    if is_suffix("/data/environment_contracts.json"@, p) && p == "data/information_flow_policy.json"@ {
        lemma_suffix_char("/data/environment_contracts.json"@, p, 0);
        assert(p[1] == "data/information_flow_policy.json"@[1]);
    }
    if is_suffix("/data/environment_contracts.json"@, p) && is_suffix("/data/information_flow_policy.json"@, p) {
        lemma_suffix_char("/data/environment_contracts.json"@, p, 0);
        lemma_suffix_char("/data/information_flow_policy.json"@, p, 2);
    }
}

/// A path naming the realization contracts `data/behavior_realization_contracts.json` of any Module is classified `BehavioralRealizationContract`.
pub proof fn lemma_behavior_realization_contract_path_is_classified(p: Seq<char>)
    requires
        p == "data/behavior_realization_contracts.json"@ || is_suffix("/data/behavior_realization_contracts.json"@, p),
    ensures
        authority_of(p) == AuthorityInputKind::BehavioralRealizationContract,
{
    reveal_strlit("/contract.json");
    reveal_strlit("/data/behavior_realization_contracts.json");
    reveal_strlit("/data/environment_contracts.json");
    reveal_strlit("/data/function_contracts.json");
    reveal_strlit("/data/information_flow_policy.json");
    reveal_strlit("/data/state_contracts.json");
    reveal_strlit("contract.json");
    reveal_strlit("data/behavior_realization_contracts.json");
    reveal_strlit("data/environment_contracts.json");
    reveal_strlit("data/finding_governance.json");
    reveal_strlit("data/function_contracts.json");
    reveal_strlit("data/information_flow_policy.json");
    reveal_strlit("data/project.json");
    reveal_strlit("data/state_contracts.json");
    if p == "data/behavior_realization_contracts.json"@ && p == "data/project.json"@ {
    }
    if p == "data/behavior_realization_contracts.json"@ && p == "data/finding_governance.json"@ {
    }
    if p == "data/behavior_realization_contracts.json"@ && p == "contract.json"@ {
    }
    if p == "data/behavior_realization_contracts.json"@ && is_suffix("/contract.json"@, p) {
        lemma_suffix_char("/contract.json"@, p, 0);
        assert(p[26] == "data/behavior_realization_contracts.json"@[26]);
    }
    if p == "data/behavior_realization_contracts.json"@ && p == "data/function_contracts.json"@ {
    }
    if p == "data/behavior_realization_contracts.json"@ && is_suffix("/data/function_contracts.json"@, p) {
        lemma_suffix_char("/data/function_contracts.json"@, p, 0);
        assert(p[11] == "data/behavior_realization_contracts.json"@[11]);
    }
    if p == "data/behavior_realization_contracts.json"@ && p == "data/state_contracts.json"@ {
    }
    if p == "data/behavior_realization_contracts.json"@ && is_suffix("/data/state_contracts.json"@, p) {
        lemma_suffix_char("/data/state_contracts.json"@, p, 0);
        assert(p[14] == "data/behavior_realization_contracts.json"@[14]);
    }
    if p == "data/behavior_realization_contracts.json"@ && p == "data/information_flow_policy.json"@ {
    }
    if p == "data/behavior_realization_contracts.json"@ && is_suffix("/data/information_flow_policy.json"@, p) {
        lemma_suffix_char("/data/information_flow_policy.json"@, p, 0);
        assert(p[6] == "data/behavior_realization_contracts.json"@[6]);
    }
    if p == "data/behavior_realization_contracts.json"@ && p == "data/environment_contracts.json"@ {
    }
    if p == "data/behavior_realization_contracts.json"@ && is_suffix("/data/environment_contracts.json"@, p) {
        lemma_suffix_char("/data/environment_contracts.json"@, p, 0);
        assert(p[8] == "data/behavior_realization_contracts.json"@[8]);
    }
    if is_suffix("/data/behavior_realization_contracts.json"@, p) && p == "data/project.json"@ {
    }
    if is_suffix("/data/behavior_realization_contracts.json"@, p) && p == "data/finding_governance.json"@ {
    }
    if is_suffix("/data/behavior_realization_contracts.json"@, p) && p == "contract.json"@ {
    }
    if is_suffix("/data/behavior_realization_contracts.json"@, p) && is_suffix("/contract.json"@, p) {
        lemma_suffix_char("/contract.json"@, p, 0);
        lemma_suffix_char("/data/behavior_realization_contracts.json"@, p, 27);
    }
    if is_suffix("/data/behavior_realization_contracts.json"@, p) && p == "data/function_contracts.json"@ {
    }
    if is_suffix("/data/behavior_realization_contracts.json"@, p) && is_suffix("/data/function_contracts.json"@, p) {
        lemma_suffix_char("/data/function_contracts.json"@, p, 0);
        lemma_suffix_char("/data/behavior_realization_contracts.json"@, p, 12);
    }
    if is_suffix("/data/behavior_realization_contracts.json"@, p) && p == "data/state_contracts.json"@ {
    }
    if is_suffix("/data/behavior_realization_contracts.json"@, p) && is_suffix("/data/state_contracts.json"@, p) {
        lemma_suffix_char("/data/state_contracts.json"@, p, 0);
        lemma_suffix_char("/data/behavior_realization_contracts.json"@, p, 15);
    }
    if is_suffix("/data/behavior_realization_contracts.json"@, p) && p == "data/information_flow_policy.json"@ {
    }
    if is_suffix("/data/behavior_realization_contracts.json"@, p) && is_suffix("/data/information_flow_policy.json"@, p) {
        lemma_suffix_char("/data/information_flow_policy.json"@, p, 0);
        lemma_suffix_char("/data/behavior_realization_contracts.json"@, p, 7);
    }
    if is_suffix("/data/behavior_realization_contracts.json"@, p) && p == "data/environment_contracts.json"@ {
    }
    if is_suffix("/data/behavior_realization_contracts.json"@, p) && is_suffix("/data/environment_contracts.json"@, p) {
        lemma_suffix_char("/data/environment_contracts.json"@, p, 0);
        lemma_suffix_char("/data/behavior_realization_contracts.json"@, p, 9);
    }
}

/// A path naming the source responsibility `docs/code_docs.md` of any Module is classified `SourceResponsibility`.
pub proof fn lemma_source_responsibility_path_is_classified(p: Seq<char>)
    requires
        is_suffix("/docs/code_docs.md"@, p) || p == "docs/code_docs.md"@,
    ensures
        authority_of(p) == AuthorityInputKind::SourceResponsibility,
{
    reveal_strlit("/contract.json");
    reveal_strlit("/data/behavior_realization_contracts.json");
    reveal_strlit("/data/environment_contracts.json");
    reveal_strlit("/data/function_contracts.json");
    reveal_strlit("/data/information_flow_policy.json");
    reveal_strlit("/data/state_contracts.json");
    reveal_strlit("/docs/code_docs.md");
    reveal_strlit("contract.json");
    reveal_strlit("data/behavior_realization_contracts.json");
    reveal_strlit("data/environment_contracts.json");
    reveal_strlit("data/finding_governance.json");
    reveal_strlit("data/function_contracts.json");
    reveal_strlit("data/information_flow_policy.json");
    reveal_strlit("data/project.json");
    reveal_strlit("data/state_contracts.json");
    reveal_strlit("docs/code_docs.md");
    if is_suffix("/docs/code_docs.md"@, p) && p == "data/project.json"@ {
    }
    if is_suffix("/docs/code_docs.md"@, p) && p == "data/finding_governance.json"@ {
        lemma_suffix_char("/docs/code_docs.md"@, p, 0);
        assert(p[10] == "data/finding_governance.json"@[10]);
    }
    if is_suffix("/docs/code_docs.md"@, p) && p == "contract.json"@ {
    }
    if is_suffix("/docs/code_docs.md"@, p) && is_suffix("/contract.json"@, p) {
        lemma_suffix_char("/contract.json"@, p, 0);
        lemma_suffix_char("/docs/code_docs.md"@, p, 4);
    }
    if is_suffix("/docs/code_docs.md"@, p) && p == "data/function_contracts.json"@ {
        lemma_suffix_char("/docs/code_docs.md"@, p, 0);
        assert(p[10] == "data/function_contracts.json"@[10]);
    }
    if is_suffix("/docs/code_docs.md"@, p) && is_suffix("/data/function_contracts.json"@, p) {
        lemma_suffix_char("/docs/code_docs.md"@, p, 0);
        lemma_suffix_char("/data/function_contracts.json"@, p, 11);
    }
    if is_suffix("/docs/code_docs.md"@, p) && p == "data/state_contracts.json"@ {
        lemma_suffix_char("/docs/code_docs.md"@, p, 0);
        assert(p[7] == "data/state_contracts.json"@[7]);
    }
    if is_suffix("/docs/code_docs.md"@, p) && is_suffix("/data/state_contracts.json"@, p) {
        lemma_suffix_char("/docs/code_docs.md"@, p, 0);
        lemma_suffix_char("/data/state_contracts.json"@, p, 8);
    }
    if is_suffix("/docs/code_docs.md"@, p) && p == "data/information_flow_policy.json"@ {
        lemma_suffix_char("/docs/code_docs.md"@, p, 0);
        assert(p[15] == "data/information_flow_policy.json"@[15]);
    }
    if is_suffix("/docs/code_docs.md"@, p) && is_suffix("/data/information_flow_policy.json"@, p) {
        lemma_suffix_char("/docs/code_docs.md"@, p, 0);
        lemma_suffix_char("/data/information_flow_policy.json"@, p, 16);
    }
    if is_suffix("/docs/code_docs.md"@, p) && p == "data/environment_contracts.json"@ {
        lemma_suffix_char("/docs/code_docs.md"@, p, 0);
        assert(p[13] == "data/environment_contracts.json"@[13]);
    }
    if is_suffix("/docs/code_docs.md"@, p) && is_suffix("/data/environment_contracts.json"@, p) {
        lemma_suffix_char("/docs/code_docs.md"@, p, 0);
        lemma_suffix_char("/data/environment_contracts.json"@, p, 14);
    }
    if is_suffix("/docs/code_docs.md"@, p) && p == "data/behavior_realization_contracts.json"@ {
        lemma_suffix_char("/docs/code_docs.md"@, p, 0);
        assert(p[22] == "data/behavior_realization_contracts.json"@[22]);
    }
    if is_suffix("/docs/code_docs.md"@, p) && is_suffix("/data/behavior_realization_contracts.json"@, p) {
        lemma_suffix_char("/docs/code_docs.md"@, p, 0);
        lemma_suffix_char("/data/behavior_realization_contracts.json"@, p, 23);
    }
    if p == "docs/code_docs.md"@ && p == "data/project.json"@ {
        assert(p[1] == "docs/code_docs.md"@[1]);
    }
    if p == "docs/code_docs.md"@ && p == "data/finding_governance.json"@ {
    }
    if p == "docs/code_docs.md"@ && p == "contract.json"@ {
    }
    if p == "docs/code_docs.md"@ && is_suffix("/contract.json"@, p) {
        lemma_suffix_char("/contract.json"@, p, 0);
        assert(p[3] == "docs/code_docs.md"@[3]);
    }
    if p == "docs/code_docs.md"@ && p == "data/function_contracts.json"@ {
    }
    if p == "docs/code_docs.md"@ && is_suffix("/data/function_contracts.json"@, p) {
    }
    if p == "docs/code_docs.md"@ && p == "data/state_contracts.json"@ {
    }
    if p == "docs/code_docs.md"@ && is_suffix("/data/state_contracts.json"@, p) {
    }
    if p == "docs/code_docs.md"@ && p == "data/information_flow_policy.json"@ {
    }
    if p == "docs/code_docs.md"@ && is_suffix("/data/information_flow_policy.json"@, p) {
    }
    if p == "docs/code_docs.md"@ && p == "data/environment_contracts.json"@ {
    }
    if p == "docs/code_docs.md"@ && is_suffix("/data/environment_contracts.json"@, p) {
    }
    if p == "docs/code_docs.md"@ && p == "data/behavior_realization_contracts.json"@ {
    }
    if p == "docs/code_docs.md"@ && is_suffix("/data/behavior_realization_contracts.json"@, p) {
    }
}

proof fn lemma_ends_like(name: Seq<char>, p: Seq<char>)
    requires
        name.len() > 0,
        p == name || is_suffix(name, p),
    ensures
        p.len() > 0,
        p[p.len() - 1] == name[name.len() - 1],
{
    if p != name {
        assert(p.subrange(p.len() - name.len(), p.len() as int)[name.len() - 1] == p[p.len() - 1]);
    }
}

/// A Cargo manifest or lock file — `Cargo.toml` or `Cargo.lock`, at the root
/// or in any directory — is Cargo authority.
pub proof fn lemma_cargo_files_are_cargo_authority(p: Seq<char>)
    requires
        p == "Cargo.toml"@ || is_suffix("/Cargo.toml"@, p) || p == "Cargo.lock"@ || is_suffix("/Cargo.lock"@, p),
    ensures
        authority_of(p) == AuthorityInputKind::CargoAuthority,
{
    reveal_strlit("data/project.json");
    reveal_strlit("data/finding_governance.json");
    reveal_strlit("contract.json");
    reveal_strlit("/contract.json");
    reveal_strlit("data/function_contracts.json");
    reveal_strlit("/data/function_contracts.json");
    reveal_strlit("data/state_contracts.json");
    reveal_strlit("/data/state_contracts.json");
    reveal_strlit("data/information_flow_policy.json");
    reveal_strlit("/data/information_flow_policy.json");
    reveal_strlit("data/environment_contracts.json");
    reveal_strlit("/data/environment_contracts.json");
    reveal_strlit("data/behavior_realization_contracts.json");
    reveal_strlit("/data/behavior_realization_contracts.json");
    reveal_strlit("/docs/code_docs.md");
    reveal_strlit("docs/code_docs.md");
    reveal_strlit("Cargo.toml");
    reveal_strlit("/Cargo.toml");
    reveal_strlit("Cargo.lock");
    reveal_strlit("/Cargo.lock");
    if p == "Cargo.toml"@ || is_suffix("/Cargo.toml"@, p) {
        if p == "Cargo.toml"@ {
            lemma_ends_like("Cargo.toml"@, p);
        } else {
            lemma_ends_like("/Cargo.toml"@, p);
        }
        assert(p[p.len() - 1] == 'l');
    } else {
        if p == "Cargo.lock"@ {
            lemma_ends_like("Cargo.lock"@, p);
        } else {
            lemma_ends_like("/Cargo.lock"@, p);
        }
        assert(p[p.len() - 1] == 'k');
    }
    if p == "data/project.json"@ || is_suffix("data/project.json"@, p) {
        lemma_ends_like("data/project.json"@, p);
    }
    if p == "data/finding_governance.json"@ || is_suffix("data/finding_governance.json"@, p) {
        lemma_ends_like("data/finding_governance.json"@, p);
    }
    if p == "contract.json"@ || is_suffix("contract.json"@, p) {
        lemma_ends_like("contract.json"@, p);
    }
    if p == "/contract.json"@ || is_suffix("/contract.json"@, p) {
        lemma_ends_like("/contract.json"@, p);
    }
    if p == "data/function_contracts.json"@ || is_suffix("data/function_contracts.json"@, p) {
        lemma_ends_like("data/function_contracts.json"@, p);
    }
    if p == "/data/function_contracts.json"@ || is_suffix("/data/function_contracts.json"@, p) {
        lemma_ends_like("/data/function_contracts.json"@, p);
    }
    if p == "data/state_contracts.json"@ || is_suffix("data/state_contracts.json"@, p) {
        lemma_ends_like("data/state_contracts.json"@, p);
    }
    if p == "/data/state_contracts.json"@ || is_suffix("/data/state_contracts.json"@, p) {
        lemma_ends_like("/data/state_contracts.json"@, p);
    }
    if p == "data/information_flow_policy.json"@ || is_suffix("data/information_flow_policy.json"@, p) {
        lemma_ends_like("data/information_flow_policy.json"@, p);
    }
    if p == "/data/information_flow_policy.json"@ || is_suffix("/data/information_flow_policy.json"@, p) {
        lemma_ends_like("/data/information_flow_policy.json"@, p);
    }
    if p == "data/environment_contracts.json"@ || is_suffix("data/environment_contracts.json"@, p) {
        lemma_ends_like("data/environment_contracts.json"@, p);
    }
    if p == "/data/environment_contracts.json"@ || is_suffix("/data/environment_contracts.json"@, p) {
        lemma_ends_like("/data/environment_contracts.json"@, p);
    }
    if p == "data/behavior_realization_contracts.json"@ || is_suffix("data/behavior_realization_contracts.json"@, p) {
        lemma_ends_like("data/behavior_realization_contracts.json"@, p);
    }
    if p == "/data/behavior_realization_contracts.json"@ || is_suffix("/data/behavior_realization_contracts.json"@, p) {
        lemma_ends_like("/data/behavior_realization_contracts.json"@, p);
    }
    if p == "/docs/code_docs.md"@ || is_suffix("/docs/code_docs.md"@, p) {
        lemma_ends_like("/docs/code_docs.md"@, p);
    }
    if p == "docs/code_docs.md"@ || is_suffix("docs/code_docs.md"@, p) {
        lemma_ends_like("docs/code_docs.md"@, p);
    }
}

proof fn lemma_segment_start_before(p: Seq<char>, a: int, end: int)
    requires
        0 <= a <= end <= p.len(),
        forall|i: int| a <= i < end ==> p[i] != '/',
    ensures
        segment_start(p, end) <= a,
    decreases end,
{
    if end > a {
        lemma_segment_start_before(p, a, end - 1);
    } else {
        lemma_segment_start_bounded(p, end);
    }
}

proof fn lemma_segment_start_bounded(p: Seq<char>, end: int)
    requires
        0 <= end <= p.len(),
    ensures
        segment_start(p, end) <= end,
    decreases end,
{
    if end > 0 && p[end - 1] != '/' {
        lemma_segment_start_bounded(p, end - 1);
    }
}

/// The extension of a path whose final component ends in `.json` is not a
/// source extension.
proof fn lemma_json_extension(p: Seq<char>)
    requires
        p.len() >= 5,
        p[p.len() - 5] == '.' && p[p.len() - 4] == 'j' && p[p.len() - 3] == 's' && p[p.len() - 2] == 'o'
            && p[p.len() - 1] == 'n',
    ensures
        !(match path_extension(p) {
            Some(e) => is_source_extension(e),
            None => false,
        }),
{
    let n = p.len() as int;
    lemma_segment_start_before(p, n - 4, n);
    let st = segment_start(p, n);
    assert(file_name_range(p, n) == Some((st, n)));
    assert(last_dot(p, st, n) == last_dot(p, st, n - 1));
    assert(last_dot(p, st, n - 1) == last_dot(p, st, n - 2));
    assert(last_dot(p, st, n - 2) == last_dot(p, st, n - 3));
    assert(last_dot(p, st, n - 3) == last_dot(p, st, n - 4));
    if st <= n - 5 {
        assert(last_dot(p, st, n - 4) == Some(n - 5));
    } else {
        assert(last_dot(p, st, n - 4) == None::<int>);
    }
}

/// A path whose final component is a name followed by `.rs` or `.py` (in
/// any letter case), and which names none of the authority files, is
/// source.
pub proof fn lemma_source_path_is_classified(p: Seq<char>)
    requires
        p.len() >= 4,
        p[p.len() - 4] != '/',
        p[p.len() - 3] == '.',
        is_source_extension(p.subrange(p.len() - 2, p.len() as int)),
    ensures
        authority_of(p) == AuthorityInputKind::Source,
{
    let n = p.len() as int;
    let e = p.subrange(n - 2, n);
    assert(e[0] == p[n - 2] && e[1] == p[n - 1]);
    lemma_segment_start_before(p, n - 4, n);
    let st = segment_start(p, n);
    assert(file_name_range(p, n) == Some((st, n)));
    assert(last_dot(p, st, n) == last_dot(p, st, n - 1));
    assert(last_dot(p, st, n - 1) == last_dot(p, st, n - 2));
    assert(last_dot(p, st, n - 2) == Some(n - 3));
    assert(path_extension(p) == Some(e));
    lemma_not_named(p);
}

proof fn lemma_not_named(p: Seq<char>)
    requires
        p.len() > 0,
        p[p.len() - 1] == 's' || p[p.len() - 1] == 'S' || p[p.len() - 1] == 'y' || p[p.len() - 1] == 'Y',
    ensures
        !(p == "data/project.json"@),
        !(p == "data/finding_governance.json"@),
        !(p == "contract.json"@),
        !(is_suffix("/contract.json"@, p)),
        !(p == "data/function_contracts.json"@),
        !(is_suffix("/data/function_contracts.json"@, p)),
        !(p == "data/state_contracts.json"@),
        !(is_suffix("/data/state_contracts.json"@, p)),
        !(p == "data/information_flow_policy.json"@),
        !(is_suffix("/data/information_flow_policy.json"@, p)),
        !(p == "data/environment_contracts.json"@),
        !(is_suffix("/data/environment_contracts.json"@, p)),
        !(p == "data/behavior_realization_contracts.json"@),
        !(is_suffix("/data/behavior_realization_contracts.json"@, p)),
        !(is_suffix("/docs/code_docs.md"@, p)),
        !(p == "docs/code_docs.md"@),
        !(p == "Cargo.toml"@),
        !(is_suffix("/Cargo.toml"@, p)),
        !(p == "Cargo.lock"@),
        !(is_suffix("/Cargo.lock"@, p)),
{
    reveal_strlit("/Cargo.lock");
    reveal_strlit("/Cargo.toml");
    reveal_strlit("/contract.json");
    reveal_strlit("/data/behavior_realization_contracts.json");
    reveal_strlit("/data/environment_contracts.json");
    reveal_strlit("/data/function_contracts.json");
    reveal_strlit("/data/information_flow_policy.json");
    reveal_strlit("/data/state_contracts.json");
    reveal_strlit("/docs/code_docs.md");
    reveal_strlit("Cargo.lock");
    reveal_strlit("Cargo.toml");
    reveal_strlit("contract.json");
    reveal_strlit("data/behavior_realization_contracts.json");
    reveal_strlit("data/environment_contracts.json");
    reveal_strlit("data/finding_governance.json");
    reveal_strlit("data/function_contracts.json");
    reveal_strlit("data/information_flow_policy.json");
    reveal_strlit("data/project.json");
    reveal_strlit("data/state_contracts.json");
    reveal_strlit("docs/code_docs.md");
    if p == "data/project.json"@ {
        lemma_ends_like("data/project.json"@, p);
    }
    if p == "data/finding_governance.json"@ {
        lemma_ends_like("data/finding_governance.json"@, p);
    }
    if p == "contract.json"@ {
        lemma_ends_like("contract.json"@, p);
    }
    if is_suffix("/contract.json"@, p) {
        lemma_ends_like("/contract.json"@, p);
    }
    if p == "data/function_contracts.json"@ {
        lemma_ends_like("data/function_contracts.json"@, p);
    }
    if is_suffix("/data/function_contracts.json"@, p) {
        lemma_ends_like("/data/function_contracts.json"@, p);
    }
    if p == "data/state_contracts.json"@ {
        lemma_ends_like("data/state_contracts.json"@, p);
    }
    if is_suffix("/data/state_contracts.json"@, p) {
        lemma_ends_like("/data/state_contracts.json"@, p);
    }
    if p == "data/information_flow_policy.json"@ {
        lemma_ends_like("data/information_flow_policy.json"@, p);
    }
    if is_suffix("/data/information_flow_policy.json"@, p) {
        lemma_ends_like("/data/information_flow_policy.json"@, p);
    }
    if p == "data/environment_contracts.json"@ {
        lemma_ends_like("data/environment_contracts.json"@, p);
    }
    if is_suffix("/data/environment_contracts.json"@, p) {
        lemma_ends_like("/data/environment_contracts.json"@, p);
    }
    if p == "data/behavior_realization_contracts.json"@ {
        lemma_ends_like("data/behavior_realization_contracts.json"@, p);
    }
    if is_suffix("/data/behavior_realization_contracts.json"@, p) {
        lemma_ends_like("/data/behavior_realization_contracts.json"@, p);
    }
    if is_suffix("/docs/code_docs.md"@, p) {
        lemma_ends_like("/docs/code_docs.md"@, p);
    }
    if p == "docs/code_docs.md"@ {
        lemma_ends_like("docs/code_docs.md"@, p);
    }
    if p == "Cargo.toml"@ {
        lemma_ends_like("Cargo.toml"@, p);
    }
    if is_suffix("/Cargo.toml"@, p) {
        lemma_ends_like("/Cargo.toml"@, p);
    }
    if p == "Cargo.lock"@ {
        lemma_ends_like("Cargo.lock"@, p);
    }
    if is_suffix("/Cargo.lock"@, p) {
        lemma_ends_like("/Cargo.lock"@, p);
    }
}

/// A path ending in the suffix of a standard rule or schema document is
/// standard authority.
pub proof fn lemma_standard_suffix_rule_json(p: Seq<char>)
    requires
        is_suffix("_rule.json"@, p),
    ensures
        authority_of(p) == AuthorityInputKind::StandardAuthority,
{
    reveal_strlit("/Cargo.lock");
    reveal_strlit("/Cargo.toml");
    reveal_strlit("/contract.json");
    reveal_strlit("/data/behavior_realization_contracts.json");
    reveal_strlit("/data/environment_contracts.json");
    reveal_strlit("/data/function_contracts.json");
    reveal_strlit("/data/information_flow_policy.json");
    reveal_strlit("/data/state_contracts.json");
    reveal_strlit("/docs/code_docs.md");
    reveal_strlit("Cargo.lock");
    reveal_strlit("Cargo.toml");
    reveal_strlit("contract.json");
    reveal_strlit("data/behavior_realization_contracts.json");
    reveal_strlit("data/environment_contracts.json");
    reveal_strlit("data/finding_governance.json");
    reveal_strlit("data/function_contracts.json");
    reveal_strlit("data/information_flow_policy.json");
    reveal_strlit("data/project.json");
    reveal_strlit("data/state_contracts.json");
    reveal_strlit("docs/code_docs.md");
    reveal_strlit("_rule.json");
    if is_suffix("_rule.json"@, p) && p == "data/project.json"@ {
        lemma_suffix_char("_rule.json"@, p, 0);
        assert(p[7] == "data/project.json"@[7]);
    }
    if is_suffix("_rule.json"@, p) && p == "data/finding_governance.json"@ {
        lemma_suffix_char("_rule.json"@, p, 0);
        assert(p[18] == "data/finding_governance.json"@[18]);
    }
    if is_suffix("_rule.json"@, p) && p == "contract.json"@ {
        lemma_suffix_char("_rule.json"@, p, 0);
        assert(p[3] == "contract.json"@[3]);
    }
    if is_suffix("_rule.json"@, p) && is_suffix("/contract.json"@, p) {
        lemma_suffix_char("_rule.json"@, p, 0);
        lemma_suffix_char("/contract.json"@, p, 4);
    }
    if is_suffix("_rule.json"@, p) && p == "data/function_contracts.json"@ {
        lemma_suffix_char("_rule.json"@, p, 0);
        assert(p[18] == "data/function_contracts.json"@[18]);
    }
    if is_suffix("_rule.json"@, p) && is_suffix("/data/function_contracts.json"@, p) {
        lemma_suffix_char("_rule.json"@, p, 0);
        lemma_suffix_char("/data/function_contracts.json"@, p, 19);
    }
    if is_suffix("_rule.json"@, p) && p == "data/state_contracts.json"@ {
        lemma_suffix_char("_rule.json"@, p, 0);
        assert(p[15] == "data/state_contracts.json"@[15]);
    }
    if is_suffix("_rule.json"@, p) && is_suffix("/data/state_contracts.json"@, p) {
        lemma_suffix_char("_rule.json"@, p, 0);
        lemma_suffix_char("/data/state_contracts.json"@, p, 16);
    }
    if is_suffix("_rule.json"@, p) && p == "data/information_flow_policy.json"@ {
        lemma_suffix_char("_rule.json"@, p, 0);
        assert(p[23] == "data/information_flow_policy.json"@[23]);
    }
    if is_suffix("_rule.json"@, p) && is_suffix("/data/information_flow_policy.json"@, p) {
        lemma_suffix_char("_rule.json"@, p, 0);
        lemma_suffix_char("/data/information_flow_policy.json"@, p, 24);
    }
    if is_suffix("_rule.json"@, p) && p == "data/environment_contracts.json"@ {
        lemma_suffix_char("_rule.json"@, p, 0);
        assert(p[21] == "data/environment_contracts.json"@[21]);
    }
    if is_suffix("_rule.json"@, p) && is_suffix("/data/environment_contracts.json"@, p) {
        lemma_suffix_char("_rule.json"@, p, 0);
        lemma_suffix_char("/data/environment_contracts.json"@, p, 22);
    }
    if is_suffix("_rule.json"@, p) && p == "data/behavior_realization_contracts.json"@ {
        lemma_suffix_char("_rule.json"@, p, 0);
        assert(p[30] == "data/behavior_realization_contracts.json"@[30]);
    }
    if is_suffix("_rule.json"@, p) && is_suffix("/data/behavior_realization_contracts.json"@, p) {
        lemma_suffix_char("_rule.json"@, p, 0);
        lemma_suffix_char("/data/behavior_realization_contracts.json"@, p, 31);
    }
    if is_suffix("_rule.json"@, p) && is_suffix("/docs/code_docs.md"@, p) {
        lemma_suffix_char("_rule.json"@, p, 0);
        lemma_suffix_char("/docs/code_docs.md"@, p, 8);
    }
    if is_suffix("_rule.json"@, p) && p == "docs/code_docs.md"@ {
        lemma_suffix_char("_rule.json"@, p, 0);
        assert(p[7] == "docs/code_docs.md"@[7]);
    }
    if is_suffix("_rule.json"@, p) && p == "Cargo.toml"@ {
        lemma_suffix_char("_rule.json"@, p, 0);
        assert(p[0] == "Cargo.toml"@[0]);
    }
    if is_suffix("_rule.json"@, p) && is_suffix("/Cargo.toml"@, p) {
        lemma_suffix_char("_rule.json"@, p, 0);
        lemma_suffix_char("/Cargo.toml"@, p, 1);
    }
    if is_suffix("_rule.json"@, p) && p == "Cargo.lock"@ {
        lemma_suffix_char("_rule.json"@, p, 0);
        assert(p[0] == "Cargo.lock"@[0]);
    }
    if is_suffix("_rule.json"@, p) && is_suffix("/Cargo.lock"@, p) {
        lemma_suffix_char("_rule.json"@, p, 0);
        lemma_suffix_char("/Cargo.lock"@, p, 1);
    }
    lemma_suffix_char("_rule.json"@, p, 5);
    lemma_suffix_char("_rule.json"@, p, 6);
    lemma_suffix_char("_rule.json"@, p, 7);
    lemma_suffix_char("_rule.json"@, p, 8);
    lemma_suffix_char("_rule.json"@, p, 9);
    lemma_json_extension(p);
}

/// A path ending in the suffix of a standard rule or schema document is
/// standard authority.
pub proof fn lemma_standard_suffix_schema_v1_json(p: Seq<char>)
    requires
        is_suffix("_schema_v1.json"@, p),
    ensures
        authority_of(p) == AuthorityInputKind::StandardAuthority,
{
    reveal_strlit("/Cargo.lock");
    reveal_strlit("/Cargo.toml");
    reveal_strlit("/contract.json");
    reveal_strlit("/data/behavior_realization_contracts.json");
    reveal_strlit("/data/environment_contracts.json");
    reveal_strlit("/data/function_contracts.json");
    reveal_strlit("/data/information_flow_policy.json");
    reveal_strlit("/data/state_contracts.json");
    reveal_strlit("/docs/code_docs.md");
    reveal_strlit("Cargo.lock");
    reveal_strlit("Cargo.toml");
    reveal_strlit("contract.json");
    reveal_strlit("data/behavior_realization_contracts.json");
    reveal_strlit("data/environment_contracts.json");
    reveal_strlit("data/finding_governance.json");
    reveal_strlit("data/function_contracts.json");
    reveal_strlit("data/information_flow_policy.json");
    reveal_strlit("data/project.json");
    reveal_strlit("data/state_contracts.json");
    reveal_strlit("docs/code_docs.md");
    reveal_strlit("_schema_v1.json");
    if is_suffix("_schema_v1.json"@, p) && p == "data/project.json"@ {
        lemma_suffix_char("_schema_v1.json"@, p, 0);
        assert(p[2] == "data/project.json"@[2]);
    }
    if is_suffix("_schema_v1.json"@, p) && p == "data/finding_governance.json"@ {
        lemma_suffix_char("_schema_v1.json"@, p, 0);
        assert(p[13] == "data/finding_governance.json"@[13]);
    }
    if is_suffix("_schema_v1.json"@, p) && p == "contract.json"@ {
    }
    if is_suffix("_schema_v1.json"@, p) && is_suffix("/contract.json"@, p) {
        lemma_suffix_char("/contract.json"@, p, 0);
        lemma_suffix_char("_schema_v1.json"@, p, 1);
    }
    if is_suffix("_schema_v1.json"@, p) && p == "data/function_contracts.json"@ {
        lemma_suffix_char("_schema_v1.json"@, p, 1);
        assert(p[14] == "data/function_contracts.json"@[14]);
    }
    if is_suffix("_schema_v1.json"@, p) && is_suffix("/data/function_contracts.json"@, p) {
        lemma_suffix_char("_schema_v1.json"@, p, 1);
        lemma_suffix_char("/data/function_contracts.json"@, p, 15);
    }
    if is_suffix("_schema_v1.json"@, p) && p == "data/state_contracts.json"@ {
        lemma_suffix_char("_schema_v1.json"@, p, 1);
        assert(p[11] == "data/state_contracts.json"@[11]);
    }
    if is_suffix("_schema_v1.json"@, p) && is_suffix("/data/state_contracts.json"@, p) {
        lemma_suffix_char("_schema_v1.json"@, p, 1);
        lemma_suffix_char("/data/state_contracts.json"@, p, 12);
    }
    if is_suffix("_schema_v1.json"@, p) && p == "data/information_flow_policy.json"@ {
        lemma_suffix_char("_schema_v1.json"@, p, 0);
        assert(p[18] == "data/information_flow_policy.json"@[18]);
    }
    if is_suffix("_schema_v1.json"@, p) && is_suffix("/data/information_flow_policy.json"@, p) {
        lemma_suffix_char("_schema_v1.json"@, p, 0);
        lemma_suffix_char("/data/information_flow_policy.json"@, p, 19);
    }
    if is_suffix("_schema_v1.json"@, p) && p == "data/environment_contracts.json"@ {
        lemma_suffix_char("_schema_v1.json"@, p, 1);
        assert(p[17] == "data/environment_contracts.json"@[17]);
    }
    if is_suffix("_schema_v1.json"@, p) && is_suffix("/data/environment_contracts.json"@, p) {
        lemma_suffix_char("_schema_v1.json"@, p, 1);
        lemma_suffix_char("/data/environment_contracts.json"@, p, 18);
    }
    if is_suffix("_schema_v1.json"@, p) && p == "data/behavior_realization_contracts.json"@ {
        lemma_suffix_char("_schema_v1.json"@, p, 1);
        assert(p[26] == "data/behavior_realization_contracts.json"@[26]);
    }
    if is_suffix("_schema_v1.json"@, p) && is_suffix("/data/behavior_realization_contracts.json"@, p) {
        lemma_suffix_char("_schema_v1.json"@, p, 1);
        lemma_suffix_char("/data/behavior_realization_contracts.json"@, p, 27);
    }
    if is_suffix("_schema_v1.json"@, p) && is_suffix("/docs/code_docs.md"@, p) {
        lemma_suffix_char("_schema_v1.json"@, p, 0);
        lemma_suffix_char("/docs/code_docs.md"@, p, 3);
    }
    if is_suffix("_schema_v1.json"@, p) && p == "docs/code_docs.md"@ {
        lemma_suffix_char("_schema_v1.json"@, p, 0);
        assert(p[2] == "docs/code_docs.md"@[2]);
    }
    if is_suffix("_schema_v1.json"@, p) && p == "Cargo.toml"@ {
    }
    if is_suffix("_schema_v1.json"@, p) && is_suffix("/Cargo.toml"@, p) {
        lemma_suffix_char("/Cargo.toml"@, p, 0);
        lemma_suffix_char("_schema_v1.json"@, p, 4);
    }
    if is_suffix("_schema_v1.json"@, p) && p == "Cargo.lock"@ {
    }
    if is_suffix("_schema_v1.json"@, p) && is_suffix("/Cargo.lock"@, p) {
        lemma_suffix_char("/Cargo.lock"@, p, 0);
        lemma_suffix_char("_schema_v1.json"@, p, 4);
    }
    lemma_suffix_char("_schema_v1.json"@, p, 10);
    lemma_suffix_char("_schema_v1.json"@, p, 11);
    lemma_suffix_char("_schema_v1.json"@, p, 12);
    lemma_suffix_char("_schema_v1.json"@, p, 13);
    lemma_suffix_char("_schema_v1.json"@, p, 14);
    lemma_json_extension(p);
}

/// A path ending in the suffix of a standard rule or schema document is
/// standard authority.
pub proof fn lemma_standard_suffix_schema_v2_json(p: Seq<char>)
    requires
        is_suffix("_schema_v2.json"@, p),
    ensures
        authority_of(p) == AuthorityInputKind::StandardAuthority,
{
    reveal_strlit("/Cargo.lock");
    reveal_strlit("/Cargo.toml");
    reveal_strlit("/contract.json");
    reveal_strlit("/data/behavior_realization_contracts.json");
    reveal_strlit("/data/environment_contracts.json");
    reveal_strlit("/data/function_contracts.json");
    reveal_strlit("/data/information_flow_policy.json");
    reveal_strlit("/data/state_contracts.json");
    reveal_strlit("/docs/code_docs.md");
    reveal_strlit("Cargo.lock");
    reveal_strlit("Cargo.toml");
    reveal_strlit("contract.json");
    reveal_strlit("data/behavior_realization_contracts.json");
    reveal_strlit("data/environment_contracts.json");
    reveal_strlit("data/finding_governance.json");
    reveal_strlit("data/function_contracts.json");
    reveal_strlit("data/information_flow_policy.json");
    reveal_strlit("data/project.json");
    reveal_strlit("data/state_contracts.json");
    reveal_strlit("docs/code_docs.md");
    reveal_strlit("_schema_v2.json");
    if is_suffix("_schema_v2.json"@, p) && p == "data/project.json"@ {
        lemma_suffix_char("_schema_v2.json"@, p, 0);
        assert(p[2] == "data/project.json"@[2]);
    }
    if is_suffix("_schema_v2.json"@, p) && p == "data/finding_governance.json"@ {
        lemma_suffix_char("_schema_v2.json"@, p, 0);
        assert(p[13] == "data/finding_governance.json"@[13]);
    }
    if is_suffix("_schema_v2.json"@, p) && p == "contract.json"@ {
    }
    if is_suffix("_schema_v2.json"@, p) && is_suffix("/contract.json"@, p) {
        lemma_suffix_char("/contract.json"@, p, 0);
        lemma_suffix_char("_schema_v2.json"@, p, 1);
    }
    if is_suffix("_schema_v2.json"@, p) && p == "data/function_contracts.json"@ {
        lemma_suffix_char("_schema_v2.json"@, p, 1);
        assert(p[14] == "data/function_contracts.json"@[14]);
    }
    if is_suffix("_schema_v2.json"@, p) && is_suffix("/data/function_contracts.json"@, p) {
        lemma_suffix_char("_schema_v2.json"@, p, 1);
        lemma_suffix_char("/data/function_contracts.json"@, p, 15);
    }
    if is_suffix("_schema_v2.json"@, p) && p == "data/state_contracts.json"@ {
        lemma_suffix_char("_schema_v2.json"@, p, 1);
        assert(p[11] == "data/state_contracts.json"@[11]);
    }
    if is_suffix("_schema_v2.json"@, p) && is_suffix("/data/state_contracts.json"@, p) {
        lemma_suffix_char("_schema_v2.json"@, p, 1);
        lemma_suffix_char("/data/state_contracts.json"@, p, 12);
    }
    if is_suffix("_schema_v2.json"@, p) && p == "data/information_flow_policy.json"@ {
        lemma_suffix_char("_schema_v2.json"@, p, 0);
        assert(p[18] == "data/information_flow_policy.json"@[18]);
    }
    if is_suffix("_schema_v2.json"@, p) && is_suffix("/data/information_flow_policy.json"@, p) {
        lemma_suffix_char("_schema_v2.json"@, p, 0);
        lemma_suffix_char("/data/information_flow_policy.json"@, p, 19);
    }
    if is_suffix("_schema_v2.json"@, p) && p == "data/environment_contracts.json"@ {
        lemma_suffix_char("_schema_v2.json"@, p, 1);
        assert(p[17] == "data/environment_contracts.json"@[17]);
    }
    if is_suffix("_schema_v2.json"@, p) && is_suffix("/data/environment_contracts.json"@, p) {
        lemma_suffix_char("_schema_v2.json"@, p, 1);
        lemma_suffix_char("/data/environment_contracts.json"@, p, 18);
    }
    if is_suffix("_schema_v2.json"@, p) && p == "data/behavior_realization_contracts.json"@ {
        lemma_suffix_char("_schema_v2.json"@, p, 1);
        assert(p[26] == "data/behavior_realization_contracts.json"@[26]);
    }
    if is_suffix("_schema_v2.json"@, p) && is_suffix("/data/behavior_realization_contracts.json"@, p) {
        lemma_suffix_char("_schema_v2.json"@, p, 1);
        lemma_suffix_char("/data/behavior_realization_contracts.json"@, p, 27);
    }
    if is_suffix("_schema_v2.json"@, p) && is_suffix("/docs/code_docs.md"@, p) {
        lemma_suffix_char("_schema_v2.json"@, p, 0);
        lemma_suffix_char("/docs/code_docs.md"@, p, 3);
    }
    if is_suffix("_schema_v2.json"@, p) && p == "docs/code_docs.md"@ {
        lemma_suffix_char("_schema_v2.json"@, p, 0);
        assert(p[2] == "docs/code_docs.md"@[2]);
    }
    if is_suffix("_schema_v2.json"@, p) && p == "Cargo.toml"@ {
    }
    if is_suffix("_schema_v2.json"@, p) && is_suffix("/Cargo.toml"@, p) {
        lemma_suffix_char("/Cargo.toml"@, p, 0);
        lemma_suffix_char("_schema_v2.json"@, p, 4);
    }
    if is_suffix("_schema_v2.json"@, p) && p == "Cargo.lock"@ {
    }
    if is_suffix("_schema_v2.json"@, p) && is_suffix("/Cargo.lock"@, p) {
        lemma_suffix_char("/Cargo.lock"@, p, 0);
        lemma_suffix_char("_schema_v2.json"@, p, 4);
    }
    lemma_suffix_char("_schema_v2.json"@, p, 10);
    lemma_suffix_char("_schema_v2.json"@, p, 11);
    lemma_suffix_char("_schema_v2.json"@, p, 12);
    lemma_suffix_char("_schema_v2.json"@, p, 13);
    lemma_suffix_char("_schema_v2.json"@, p, 14);
    lemma_json_extension(p);
}

/// A path ending in the suffix of a standard rule or schema document is
/// standard authority.
pub proof fn lemma_standard_suffix_schema_v3_json(p: Seq<char>)
    requires
        is_suffix("_schema_v3.json"@, p),
    ensures
        authority_of(p) == AuthorityInputKind::StandardAuthority,
{
    reveal_strlit("/Cargo.lock");
    reveal_strlit("/Cargo.toml");
    reveal_strlit("/contract.json");
    reveal_strlit("/data/behavior_realization_contracts.json");
    reveal_strlit("/data/environment_contracts.json");
    reveal_strlit("/data/function_contracts.json");
    reveal_strlit("/data/information_flow_policy.json");
    reveal_strlit("/data/state_contracts.json");
    reveal_strlit("/docs/code_docs.md");
    reveal_strlit("Cargo.lock");
    reveal_strlit("Cargo.toml");
    reveal_strlit("contract.json");
    reveal_strlit("data/behavior_realization_contracts.json");
    reveal_strlit("data/environment_contracts.json");
    reveal_strlit("data/finding_governance.json");
    reveal_strlit("data/function_contracts.json");
    reveal_strlit("data/information_flow_policy.json");
    reveal_strlit("data/project.json");
    reveal_strlit("data/state_contracts.json");
    reveal_strlit("docs/code_docs.md");
    reveal_strlit("_schema_v3.json");
    if is_suffix("_schema_v3.json"@, p) && p == "data/project.json"@ {
        lemma_suffix_char("_schema_v3.json"@, p, 0);
        assert(p[2] == "data/project.json"@[2]);
    }
    if is_suffix("_schema_v3.json"@, p) && p == "data/finding_governance.json"@ {
        lemma_suffix_char("_schema_v3.json"@, p, 0);
        assert(p[13] == "data/finding_governance.json"@[13]);
    }
    if is_suffix("_schema_v3.json"@, p) && p == "contract.json"@ {
    }
    if is_suffix("_schema_v3.json"@, p) && is_suffix("/contract.json"@, p) {
        lemma_suffix_char("/contract.json"@, p, 0);
        lemma_suffix_char("_schema_v3.json"@, p, 1);
    }
    if is_suffix("_schema_v3.json"@, p) && p == "data/function_contracts.json"@ {
        lemma_suffix_char("_schema_v3.json"@, p, 1);
        assert(p[14] == "data/function_contracts.json"@[14]);
    }
    if is_suffix("_schema_v3.json"@, p) && is_suffix("/data/function_contracts.json"@, p) {
        lemma_suffix_char("_schema_v3.json"@, p, 1);
        lemma_suffix_char("/data/function_contracts.json"@, p, 15);
    }
    if is_suffix("_schema_v3.json"@, p) && p == "data/state_contracts.json"@ {
        lemma_suffix_char("_schema_v3.json"@, p, 1);
        assert(p[11] == "data/state_contracts.json"@[11]);
    }
    if is_suffix("_schema_v3.json"@, p) && is_suffix("/data/state_contracts.json"@, p) {
        lemma_suffix_char("_schema_v3.json"@, p, 1);
        lemma_suffix_char("/data/state_contracts.json"@, p, 12);
    }
    if is_suffix("_schema_v3.json"@, p) && p == "data/information_flow_policy.json"@ {
        lemma_suffix_char("_schema_v3.json"@, p, 0);
        assert(p[18] == "data/information_flow_policy.json"@[18]);
    }
    if is_suffix("_schema_v3.json"@, p) && is_suffix("/data/information_flow_policy.json"@, p) {
        lemma_suffix_char("_schema_v3.json"@, p, 0);
        lemma_suffix_char("/data/information_flow_policy.json"@, p, 19);
    }
    if is_suffix("_schema_v3.json"@, p) && p == "data/environment_contracts.json"@ {
        lemma_suffix_char("_schema_v3.json"@, p, 1);
        assert(p[17] == "data/environment_contracts.json"@[17]);
    }
    if is_suffix("_schema_v3.json"@, p) && is_suffix("/data/environment_contracts.json"@, p) {
        lemma_suffix_char("_schema_v3.json"@, p, 1);
        lemma_suffix_char("/data/environment_contracts.json"@, p, 18);
    }
    if is_suffix("_schema_v3.json"@, p) && p == "data/behavior_realization_contracts.json"@ {
        lemma_suffix_char("_schema_v3.json"@, p, 1);
        assert(p[26] == "data/behavior_realization_contracts.json"@[26]);
    }
    if is_suffix("_schema_v3.json"@, p) && is_suffix("/data/behavior_realization_contracts.json"@, p) {
        lemma_suffix_char("_schema_v3.json"@, p, 1);
        lemma_suffix_char("/data/behavior_realization_contracts.json"@, p, 27);
    }
    if is_suffix("_schema_v3.json"@, p) && is_suffix("/docs/code_docs.md"@, p) {
        lemma_suffix_char("_schema_v3.json"@, p, 0);
        lemma_suffix_char("/docs/code_docs.md"@, p, 3);
    }
    if is_suffix("_schema_v3.json"@, p) && p == "docs/code_docs.md"@ {
        lemma_suffix_char("_schema_v3.json"@, p, 0);
        assert(p[2] == "docs/code_docs.md"@[2]);
    }
    if is_suffix("_schema_v3.json"@, p) && p == "Cargo.toml"@ {
    }
    if is_suffix("_schema_v3.json"@, p) && is_suffix("/Cargo.toml"@, p) {
        lemma_suffix_char("/Cargo.toml"@, p, 0);
        lemma_suffix_char("_schema_v3.json"@, p, 4);
    }
    if is_suffix("_schema_v3.json"@, p) && p == "Cargo.lock"@ {
    }
    if is_suffix("_schema_v3.json"@, p) && is_suffix("/Cargo.lock"@, p) {
        lemma_suffix_char("/Cargo.lock"@, p, 0);
        lemma_suffix_char("_schema_v3.json"@, p, 4);
    }
    lemma_suffix_char("_schema_v3.json"@, p, 10);
    lemma_suffix_char("_schema_v3.json"@, p, 11);
    lemma_suffix_char("_schema_v3.json"@, p, 12);
    lemma_suffix_char("_schema_v3.json"@, p, 13);
    lemma_suffix_char("_schema_v3.json"@, p, 14);
    lemma_json_extension(p);
}

fn segment_start_of(x: &Vec<char>, end: usize) -> (r: usize)
    requires
        end <= x.len(),
    ensures
        r as int == segment_start(x@, end as int),
        r <= end,
{
    let mut i = end;
    while i > 0 && x[i - 1] != '/'
        invariant
            i <= end <= x.len(),
            segment_start(x@, i as int) == segment_start(x@, end as int),
        decreases i,
    {
        i = i - 1;
    }
    i
}

fn file_name_range_of(x: &Vec<char>, end: usize) -> (r: Option<(usize, usize)>)
    requires
        end <= x.len(),
    ensures
        match r {
            None => file_name_range(x@, end as int) is None,
            Some((a, b)) => file_name_range(x@, end as int) == Some((a as int, b as int)) && a <= b
                <= end,
        },
    decreases end,
{
    if end == 0 {
        None
    } else if x[end - 1] == '/' {
        file_name_range_of(x, end - 1)
    } else if x[end - 1] == '.' && (end == 1 || x[end - 2] == '/') {
        file_name_range_of(x, end - 1)
    } else {
        let start = segment_start_of(x, end);
        if end >= 2 && start == end - 2 && x[end - 1] == '.' && x[end - 2] == '.' {
            None
        } else {
            Some((start, end))
        }
    }
}

fn last_dot_of(x: &Vec<char>, start: usize, end: usize) -> (r: Option<usize>)
    requires
        start <= end <= x.len(),
    ensures
        match r {
            None => last_dot(x@, start as int, end as int) is None,
            Some(d) => last_dot(x@, start as int, end as int) == Some(d as int) && start <= d
                < end,
        },
{
    let mut i = end;
    while i > start && x[i - 1] != '.'
        invariant
            start <= i <= end <= x.len(),
            last_dot(x@, start as int, i as int) == last_dot(x@, start as int, end as int),
        decreases i,
    {
        i = i - 1;
    }
    if i > start {
        Some(i - 1)
    } else {
        None
    }
}

fn has_source_extension(path: &str) -> (r: bool)
    ensures
        r == (match path_extension(path@) {
            Some(e) => is_source_extension(e),
            None => false,
        }),
{
    let x = chars_of(path);
    match file_name_range_of(&x, x.len()) {
        None => false,
        Some((start, end)) => match last_dot_of(&x, start, end) {
            None => false,
            Some(dot) => {
                if dot == start {
                    false
                } else {
                    let ghost e = x@.subrange(dot + 1, end as int);
                    if end - dot != 3 {
                        false
                    } else {
                        let a = x[dot + 1];
                        let b = x[dot + 2];
                        assert(e[0] == a && e[1] == b);
                        ((a == 'r' || a == 'R') && (b == 's' || b == 'S')) || ((a == 'p' || a
                            == 'P') && (b == 'y' || b == 'Y'))
                    }
                }
            },
        },
    }
}

fn names_file_exec(path: &str, exact: &str, suffix: &str) -> (r: bool)
    ensures
        r == (path@ == exact@ || is_suffix(suffix@, path@)),
{
    text_eq(path, exact) || ends_with(path, suffix)
}

/// Classifies one canonical repository-relative input without inferring intent.
pub fn classify_authority_path(path: &str) -> (kind: AuthorityInputKind)
    ensures
        kind == authority_of(path@),
{
    if text_eq(path, "data/project.json") {
        AuthorityInputKind::ProjectConfiguration
    } else if text_eq(path, "data/finding_governance.json") {
        AuthorityInputKind::FindingGovernance
    } else if names_file_exec(path, "contract.json", "/contract.json") {
        AuthorityInputKind::ModuleContract
    } else if names_file_exec(
        path,
        "data/function_contracts.json",
        "/data/function_contracts.json",
    ) {
        AuthorityInputKind::FunctionContract
    } else if names_file_exec(path, "data/state_contracts.json", "/data/state_contracts.json") {
        AuthorityInputKind::StateContract
    } else if names_file_exec(
        path,
        "data/information_flow_policy.json",
        "/data/information_flow_policy.json",
    ) {
        AuthorityInputKind::InformationFlowPolicy
    } else if names_file_exec(
        path,
        "data/environment_contracts.json",
        "/data/environment_contracts.json",
    ) {
        AuthorityInputKind::EnvironmentContract
    } else if names_file_exec(
        path,
        "data/behavior_realization_contracts.json",
        "/data/behavior_realization_contracts.json",
    ) {
        AuthorityInputKind::BehavioralRealizationContract
    } else if ends_with(path, "/docs/code_docs.md") || text_eq(path, "docs/code_docs.md") {
        AuthorityInputKind::SourceResponsibility
    } else if names_file_exec(path, "Cargo.toml", "/Cargo.toml") || names_file_exec(
        path,
        "Cargo.lock",
        "/Cargo.lock",
    ) {
        AuthorityInputKind::CargoAuthority
    } else if has_source_extension(path) {
        AuthorityInputKind::Source
    } else if contains_text(path, "/standard_registry/data/") || ends_with(path, "_rule.json")
        || ends_with(path, "_schema_v1.json") || ends_with(path, "_schema_v2.json") || ends_with(
        path,
        "_schema_v3.json",
    ) {
        AuthorityInputKind::StandardAuthority
    } else {
        AuthorityInputKind::RepositoryInput
    }
}

/// A canonical repository-relative path: non-empty, `/`-separated, without
/// backslashes, without a leading separator, and without empty, `.`, or `..`
/// segments.
pub open spec fn is_canonical_relative_path(p: Seq<char>) -> bool {
    &&& p.len() > 0
    &&& !p.contains('\\')
    &&& p[0] != '/'
    &&& p[p.len() - 1] != '/'
    &&& forall|i: int| 0 <= i < p.len() - 1 ==> !(#[trigger] p[i] == '/' && p[i + 1] == '/')
    &&& forall|i: int|
        0 <= i < p.len() ==> !(#[trigger] p[i] == '.' && (i == 0 || p[i - 1] == '/') && (i + 1
            == p.len() || p[i + 1] == '/'))
    &&& forall|i: int|
        0 <= i < p.len() - 1 ==> !(#[trigger] p[i] == '.' && p[i + 1] == '.' && (i == 0 || p[i
            - 1] == '/') && (i + 2 == p.len() || p[i + 2] == '/'))
}

/// Decides `is_canonical_relative_path`.
pub fn canonical_relative_path(path: &str) -> (r: bool)
    ensures
        r == is_canonical_relative_path(path@),
{
    let x = chars_of(path);
    let n = x.len();
    if n == 0 || x[0] == '/' || x[n - 1] == '/' {
        return false;
    }
    let mut i: usize = 0;
    while i < n
        invariant
            0 < n == x.len(),
            x@ == path@,
            i <= n,
            forall|k: int| 0 <= k < i ==> x@[k] != '\\',
            forall|k: int| 0 <= k < i && k < n - 1 ==> !(#[trigger] x@[k] == '/' && x@[k + 1] == '/'),
            forall|k: int|
                0 <= k < i ==> !(#[trigger] x@[k] == '.' && (k == 0 || x@[k - 1] == '/') && (k + 1
                    == n || x@[k + 1] == '/')),
            forall|k: int|
                0 <= k < i && k < n - 1 ==> !(#[trigger] x@[k] == '.' && x@[k + 1] == '.' && (k
                    == 0 || x@[k - 1] == '/') && (k + 2 == n || x@[k + 2] == '/')),
        decreases n - i,
    {
        let c = x[i];
        if c == '\\' {
            assert(path@[i as int] == '\\');
            return false;
        }
        if c == '/' && i + 1 < n && x[i + 1] == '/' {
            return false;
        }
        let starts_segment = i == 0 || x[i - 1] == '/';
        if c == '.' && starts_segment && (i + 1 == n || x[i + 1] == '/') {
            return false;
        }
        if c == '.' && starts_segment && i + 1 < n && x[i + 1] == '.' && (i + 2 == n || x[i + 2]
            == '/') {
            return false;
        }
        i = i + 1;
    }
    true
}

/// `sha256:` followed by exactly 64 hexadecimal digits.
pub open spec fn is_sha256_identity(d: Seq<char>) -> bool {
    &&& is_prefix("sha256:"@, d)
    &&& d.len() == "sha256:"@.len() + 64
    &&& forall|i: int| "sha256:"@.len() <= i < d.len() ==> is_hex_digit(#[trigger] d[i])
}

/// Decides `is_sha256_identity`.
pub fn sha256_identity(digest: &str) -> (r: bool)
    ensures
        r == is_sha256_identity(digest@),
{
    if !starts_with(digest, "sha256:") {
        return false;
    }
    let x = chars_of(digest);
    let p = chars_of("sha256:");
    if x.len() < p.len() || x.len() - p.len() != 64 {
        return false;
    }
    let mut i = p.len();
    while i < x.len()
        invariant
            p.len() <= i <= x.len(),
            x@ == digest@,
            p@ == "sha256:"@,
            forall|k: int| p.len() <= k < i ==> is_hex_digit(#[trigger] x@[k]),
        decreases x.len() - i,
    {
        if !hex_digit(x[i]) {
            return false;
        }
        i = i + 1;
    }
    true
}

} // verus!
