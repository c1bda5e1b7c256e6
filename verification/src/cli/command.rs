//! Provider-independent Fortress command registry.
//!
//! Command metadata is core operational data. Parsing process arguments and
//! rendering terminal output remain responsibilities of the dispatcher.

use vstd::prelude::*;

use crate::text::text_eq;

verus! {

/// Abstract value of one command descriptor.
pub struct DescriptorModel {
    pub id: Seq<char>,
    pub name: Seq<char>,
    pub aliases: Seq<Seq<char>>,
    pub description: Seq<char>,
    pub usage: Seq<char>,
}

/// Discoverable metadata for one registered Fortress command.
#[derive(Clone, Debug)]
pub struct CommandDescriptor {
    id: &'static str,
    name: &'static str,
    aliases: Vec<&'static str>,
    description: &'static str,
    usage: &'static str,
}

/// The character views of a sequence of static texts.
pub open spec fn static_texts(v: Seq<&'static str>) -> Seq<Seq<char>> {
    v.map_values(|s: &'static str| s@)
}

impl View for CommandDescriptor {
    type V = DescriptorModel;

    closed spec fn view(&self) -> DescriptorModel {
        DescriptorModel {
            id: self.id@,
            name: self.name@,
            aliases: static_texts(self.aliases@),
            description: self.description@,
            usage: self.usage@,
        }
    }
}

/// `value` is the canonical name or a registered alias of the command.
pub open spec fn descriptor_matches(d: DescriptorModel, value: Seq<char>) -> bool {
    d.name == value || d.aliases.contains(value)
}

impl CommandDescriptor {
    /// Returns the stable command contract identity.
    pub fn id(&self) -> (r: &'static str)
        ensures
            r@ == self@.id,
    {
        self.id
    }

    /// Returns the canonical command name.
    pub fn name(&self) -> (r: &'static str)
        ensures
            r@ == self@.name,
    {
        self.name
    }

    /// Returns supported aliases, including flag-form entrypoints.
    pub fn aliases(&self) -> (r: &[&'static str])
        ensures
            static_texts(r@) == self@.aliases,
    {
        self.aliases.as_slice()
    }

    /// Returns the human-readable command purpose.
    pub fn description(&self) -> (r: &'static str)
        ensures
            r@ == self@.description,
    {
        self.description
    }

    /// Returns the canonical human-readable invocation.
    pub fn usage(&self) -> (r: &'static str)
        ensures
            r@ == self@.usage,
    {
        self.usage
    }

    fn matches(&self, value: &str) -> (r: bool)
        ensures
            r == descriptor_matches(self@, value@),
    {
        if text_eq(self.name, value) {
            return true;
        }
        let mut i: usize = 0;
        while i < self.aliases.len()
            invariant
                i <= self.aliases@.len(),
                forall|k: int| 0 <= k < i ==> self.aliases@[k]@ != value@,
            decreases self.aliases.len() - i,
        {
            if text_eq(self.aliases[i], value) {
                assert(static_texts(self.aliases@)[i as int] == value@);
                return true;
            }
            i = i + 1;
        }
        assert(!static_texts(self.aliases@).contains(value@)) by {
            if static_texts(self.aliases@).contains(value@) {
                let k = choose|k: int|
                    0 <= k < static_texts(self.aliases@).len() && static_texts(self.aliases@)[k]
                        == value@;
                assert(self.aliases@[k]@ == value@);
            }
        }
        false
    }
}

/// The help command.
pub open spec fn help_descriptor() -> DescriptorModel {
    DescriptorModel {
        id: "CMD-CORE-HELP"@,
        name: "help"@,
        aliases: seq!["-h"@, "--help"@],
        description: "List available commands or explain one registered command."@,
        usage: "fortress help [command]"@,
    }
}

/// The version command.
pub open spec fn version_descriptor() -> DescriptorModel {
    DescriptorModel {
        id: "CMD-CORE-VERSION"@,
        name: "version"@,
        aliases: seq!["-V"@, "--version"@],
        description: "Print the Fortress CLI implementation version."@,
        usage: "fortress --version"@,
    }
}

/// The snapshot audit command.
pub open spec fn audit_descriptor() -> DescriptorModel {
    DescriptorModel {
        id: "CMD-SNAPSHOT-AUDIT"@,
        name: "audit"@,
        aliases: Seq::empty(),
        description: "Build and evaluate a stabilized repository snapshot."@,
        usage: "fortress audit [path] [--format human|json]"@,
    }
}

/// The Contract Coherency Graph command.
pub open spec fn ccg_descriptor() -> DescriptorModel {
    DescriptorModel {
        id: "CMD-CONTRACT-CCG"@,
        name: "ccg"@,
        aliases: Seq::empty(),
        description: "Compile and render the deterministic Contract Coherency Graph."@,
        usage: "fortress ccg [path] [--format json] [--output path]"@,
    }
}

/// The Intended Behavioral Flow Graph command.
pub open spec fn bfg_descriptor() -> DescriptorModel {
    DescriptorModel {
        id: "CMD-BEHAVIOR-BFG"@,
        name: "bfg"@,
        aliases: Seq::empty(),
        description: "Compile and render the deterministic Intended Behavioral Flow Graph."@,
        usage: "fortress bfg [path] [--format json] [--output path]"@,
    }
}

/// The commands genuinely implemented by this build, in discovery order.
pub open spec fn builtin_commands() -> Seq<DescriptorModel> {
    seq![help_descriptor(), version_descriptor(), audit_descriptor(), ccg_descriptor(), bfg_descriptor()]
}

/// The first command, in discovery order, matched by `value`.
pub open spec fn find_command(commands: Seq<DescriptorModel>, value: Seq<char>) -> Option<DescriptorModel>
    decreases commands.len(),
{
    if commands.len() == 0 {
        None
    } else if descriptor_matches(commands[0], value) {
        Some(commands[0])
    } else {
        find_command(commands.drop_first(), value)
    }
}

/// Read-only registry for the commands genuinely implemented by this build.
#[derive(Clone, Debug)]
pub struct CommandRegistry {
    commands: Vec<CommandDescriptor>,
}

impl View for CommandRegistry {
    type V = Seq<DescriptorModel>;

    closed spec fn view(&self) -> Seq<DescriptorModel> {
        crate::order::views(self.commands@)
    }
}

fn descriptor(
    id: &'static str,
    name: &'static str,
    aliases: Vec<&'static str>,
    description: &'static str,
    usage: &'static str,
) -> (r: CommandDescriptor)
    ensures
        r@ == (DescriptorModel {
            id: id@,
            name: name@,
            aliases: static_texts(aliases@),
            description: description@,
            usage: usage@,
        }),
{
    CommandDescriptor { id, name, aliases, description, usage }
}

impl CommandRegistry {
    /// Returns the registry of currently implemented built-in commands.
    pub fn builtin() -> (r: Self)
        ensures
            r@ == builtin_commands(),
    {
        let mut commands: Vec<CommandDescriptor> = Vec::new();
        let mut help_aliases: Vec<&'static str> = Vec::new();
        help_aliases.push("-h");
        help_aliases.push("--help");
        assert(static_texts(help_aliases@) =~= seq!["-h"@, "--help"@]);
        commands.push(
            descriptor(
                "CMD-CORE-HELP",
                "help",
                help_aliases,
                "List available commands or explain one registered command.",
                "fortress help [command]",
            ),
        );
        let mut version_aliases: Vec<&'static str> = Vec::new();
        version_aliases.push("-V");
        version_aliases.push("--version");
        assert(static_texts(version_aliases@) =~= seq!["-V"@, "--version"@]);
        commands.push(
            descriptor(
                "CMD-CORE-VERSION",
                "version",
                version_aliases,
                "Print the Fortress CLI implementation version.",
                "fortress --version",
            ),
        );
        let no_aliases: Vec<&'static str> = Vec::new();
        assert(static_texts(no_aliases@) =~= Seq::<Seq<char>>::empty());
        commands.push(
            descriptor(
                "CMD-SNAPSHOT-AUDIT",
                "audit",
                no_aliases,
                "Build and evaluate a stabilized repository snapshot.",
                "fortress audit [path] [--format human|json]",
            ),
        );
        let no_aliases: Vec<&'static str> = Vec::new();
        assert(static_texts(no_aliases@) =~= Seq::<Seq<char>>::empty());
        commands.push(
            descriptor(
                "CMD-CONTRACT-CCG",
                "ccg",
                no_aliases,
                "Compile and render the deterministic Contract Coherency Graph.",
                "fortress ccg [path] [--format json] [--output path]",
            ),
        );
        let no_aliases: Vec<&'static str> = Vec::new();
        assert(static_texts(no_aliases@) =~= Seq::<Seq<char>>::empty());
        commands.push(
            descriptor(
                "CMD-BEHAVIOR-BFG",
                "bfg",
                no_aliases,
                "Compile and render the deterministic Intended Behavioral Flow Graph.",
                "fortress bfg [path] [--format json] [--output path]",
            ),
        );
        let r = CommandRegistry { commands };
        assert(r@ =~= builtin_commands());
        r
    }

    /// Returns the commands in canonical discovery order.
    pub fn commands(&self) -> (r: &[CommandDescriptor])
        ensures
            crate::order::views(r@) == self@,
    {
        self.commands.as_slice()
    }

    /// Resolves a canonical command name or registered alias.
    pub fn find(&self, value: &str) -> (r: Option<&CommandDescriptor>)
        ensures
            match r {
                None => find_command(self@, value@) is None,
                Some(d) => find_command(self@, value@) == Some(d@),
            },
    {
        let ghost all = self@;
        assert(all.skip(0) =~= all);
        let mut i: usize = 0;
        while i < self.commands.len()
            invariant
                all == self@,
                i <= self.commands@.len(),
                find_command(all, value@) == find_command(all.skip(i as int), value@),
            decreases self.commands.len() - i,
        {
            let ghost rest = all.skip(i as int);
            assert(rest[0] == self.commands@[i as int]@);
            assert(rest.drop_first() =~= all.skip(i + 1));
            if self.commands[i].matches(value) {
                return Some(&self.commands[i]);
            }
            i = i + 1;
        }
        assert(all.skip(i as int).len() == 0);
        None
    }
}


/// Why a command registry is not safe for discovery.
#[derive(Clone, Debug, PartialEq, Eq)]
pub enum CommandRegistryError {
    /// A command contract ID failed stable identity validation.
    InvalidIdentity(&'static str),
    /// A stable identity did not use the `CMD` namespace.
    NonCommandIdentity(&'static str),
    /// A command had no canonical name.
    EmptyName(&'static str),
    /// A canonical name or alias was already registered.
    DuplicateDiscoveryKey(&'static str),
}

/// Abstract value of a registry error.
pub enum RegistryErrorModel {
    InvalidIdentity(Seq<char>),
    NonCommandIdentity(Seq<char>),
    EmptyName(Seq<char>),
    DuplicateDiscoveryKey(Seq<char>),
}

impl View for CommandRegistryError {
    type V = RegistryErrorModel;

    open spec fn view(&self) -> RegistryErrorModel {
        match self {
            CommandRegistryError::InvalidIdentity(v) => RegistryErrorModel::InvalidIdentity(v@),
            CommandRegistryError::NonCommandIdentity(v) => RegistryErrorModel::NonCommandIdentity(v@),
            CommandRegistryError::EmptyName(v) => RegistryErrorModel::EmptyName(v@),
            CommandRegistryError::DuplicateDiscoveryKey(v) => RegistryErrorModel::DuplicateDiscoveryKey(v@),
        }
    }
}

/// The stable-identity namespace of the `i`-th command, when its identity
/// parsed.
pub open spec fn namespace_verdict(namespaces: Seq<Option<String>>, i: int) -> Option<Seq<char>> {
    if 0 <= i < namespaces.len() {
        match namespaces[i] {
            Some(n) => Some(n@),
            None => None,
        }
    } else {
        None
    }
}

/// The discovery keys of a command: its name, then its aliases.
pub open spec fn discovery_keys(d: DescriptorModel) -> Seq<Seq<char>> {
    seq![d.name] + d.aliases
}

/// The first key, in order, that an earlier command already answers to.
pub open spec fn first_taken_key(keys: Seq<Seq<char>>, earlier: Seq<DescriptorModel>) -> Option<Seq<char>>
    decreases keys.len(),
{
    if keys.len() == 0 {
        None
    } else if exists|e: int| 0 <= e < earlier.len() && descriptor_matches(#[trigger] earlier[e], keys[0]) {
        Some(keys[0])
    } else {
        first_taken_key(keys.drop_first(), earlier)
    }
}

/// Why the `i`-th command is refused, if it is.
pub open spec fn command_violation(cmds: Seq<DescriptorModel>, namespaces: Seq<Option<String>>, i: int) -> Option<
    RegistryErrorModel,
> {
    let d = cmds[i];
    match namespace_verdict(namespaces, i) {
        None => Some(RegistryErrorModel::InvalidIdentity(d.id)),
        Some(n) => if n != "CMD"@ {
            Some(RegistryErrorModel::NonCommandIdentity(d.id))
        } else if d.name.len() == 0 {
            Some(RegistryErrorModel::EmptyName(d.id))
        } else {
            match first_taken_key(discovery_keys(d), cmds.take(i)) {
                Some(k) => Some(RegistryErrorModel::DuplicateDiscoveryKey(k)),
                None => None,
            }
        },
    }
}

/// The first violation among the first `n` commands, in registry order.
pub open spec fn registry_violation(cmds: Seq<DescriptorModel>, namespaces: Seq<Option<String>>, n: int) -> Option<
    RegistryErrorModel,
>
    decreases n,
{
    if n <= 0 {
        None
    } else {
        match registry_violation(cmds, namespaces, n - 1) {
            Some(e) => Some(e),
            None => command_violation(cmds, namespaces, n - 1),
        }
    }
}

impl CommandRegistry {
    fn key_taken(&self, key: &'static str, i: usize) -> (r: bool)
        requires
            i <= self@.len(),
        ensures
            r == exists|e: int| 0 <= e < self@.take(i as int).len() && descriptor_matches(
                #[trigger] self@.take(i as int)[e],
                key@,
            ),
    {
        let ghost earlier = self@.take(i as int);
        let mut e: usize = 0;
        while e < i
            invariant
                i <= self@.len(),
                earlier == self@.take(i as int),
                e <= i,
                forall|k: int| 0 <= k < e ==> !descriptor_matches(#[trigger] earlier[k], key@),
            decreases i - e,
        {
            assert(earlier[e as int] == self.commands@[e as int]@);
            if self.commands[e].matches(key) {
                return true;
            }
            e = e + 1;
        }
        false
    }

    fn first_taken_key_exec(&self, i: usize) -> (r: Option<&'static str>)
        requires
            i < self@.len(),
        ensures
            match first_taken_key(discovery_keys(self@[i as int]), self@.take(i as int)) {
                Some(k) => r matches Some(x) && x@ == k,
                None => r is None,
            },
    {
        let d = &self.commands[i];
        let ghost keys = discovery_keys(self@[i as int]);
        let ghost earlier = self@.take(i as int);
        assert(self@[i as int] == d@);
        if self.key_taken(d.name, i) {
            return Some(d.name);
        }
        assert(keys.drop_first() =~= d@.aliases);
        let mut k: usize = 0;
        assert(d@.aliases.skip(0) =~= d@.aliases);
        while k < d.aliases.len()
            invariant
                i < self@.len(),
                d@ == self@[i as int],
                keys == discovery_keys(d@),
                earlier == self@.take(i as int),
                k <= d@.aliases.len(),
                first_taken_key(keys, earlier) == first_taken_key(d@.aliases.skip(k as int), earlier),
            decreases d.aliases.len() - k,
        {
            let a = d.aliases[k];
            assert(d@.aliases.skip(k as int)[0] == a@);
            if self.key_taken(a, i) {
                return Some(a);
            }
            assert(d@.aliases.skip(k as int).drop_first() =~= d@.aliases.skip(k + 1));
            k = k + 1;
        }
        None
    }

    /// Validates command identities and discovery keys. `namespaces` holds,
    /// for each command in registry order, the namespace of its stable
    /// identity, or `None` where the identity is not a stable identity. The
    /// first violation in registry order is reported: an invalid identity,
    /// one outside the `CMD` namespace, an empty name, or a name or alias
    /// that an earlier command answers to.
    pub fn validate(&self, namespaces: &[Option<String>]) -> (r: Result<(), CommandRegistryError>)
        ensures
            match registry_violation(self@, namespaces@, self@.len() as int) {
                Some(e) => r matches Err(x) && x@ == e,
                None => r is Ok,
            },
    {
        let mut i: usize = 0;
        while i < self.commands.len()
            invariant
                i <= self@.len(),
                registry_violation(self@, namespaces@, i as int) is None,
            decreases self.commands.len() - i,
        {
            let d = &self.commands[i];
            assert(self@[i as int] == d@);
            let verdict: Option<&str> = if i < namespaces.len() {
                match &namespaces[i] {
                    Some(n) => Some(n.as_str()),
                    None => None,
                }
            } else {
                None
            };
            let issue = match verdict {
                None => Some(CommandRegistryError::InvalidIdentity(d.id)),
                Some(n) => {
                    if !text_eq(n, "CMD") {
                        Some(CommandRegistryError::NonCommandIdentity(d.id))
                    } else if crate::text::chars_of(d.name).len() == 0 {
                        Some(CommandRegistryError::EmptyName(d.id))
                    } else {
                        match self.first_taken_key_exec(i) {
                            Some(k) => Some(CommandRegistryError::DuplicateDiscoveryKey(k)),
                            None => None,
                        }
                    }
                },
            };
            assert(issue matches Some(x) ==> command_violation(self@, namespaces@, i as int) == Some(x@));
            assert(issue is None ==> command_violation(self@, namespaces@, i as int) is None);
            if let Some(e) = issue {
                proof {
                    lemma_registry_violation_stays(self@, namespaces@, i as int + 1, self@.len() as int);
                }
                return Err(e);
            }
            i = i + 1;
        }
        Ok(())
    }
}

proof fn lemma_registry_violation_stays(cmds: Seq<DescriptorModel>, namespaces: Seq<Option<String>>, k: int, n: int)
    requires
        0 <= k <= n,
        registry_violation(cmds, namespaces, k) is Some,
    ensures
        registry_violation(cmds, namespaces, n) == registry_violation(cmds, namespaces, k),
    decreases n - k,
{
    if k < n {
        lemma_registry_violation_stays(cmds, namespaces, k, n - 1);
    }
}

} // verus!
