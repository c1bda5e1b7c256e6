//! Argument dispatch and terminal rendering for the Fortress command line.
//!
//! Empty input renders top-level help. Unsupported operations are never
//! treated as success. Commands whose work touches the repository are handed
//! back, fully parsed, to the process that performs the I/O.

pub mod command;

use vstd::prelude::*;

use crate::text::{concat, copy_text, is_prefix, starts_with, strip_prefix_or_self, text_eq};
use self::command::{
    builtin_commands, find_command, static_texts, CommandDescriptor, CommandRegistry,
    DescriptorModel,
};

verus! {

/// Successful process exit status.
pub const EXIT_SUCCESS: u8 = 0;
/// Governed violation exit status.
pub const EXIT_VIOLATION: u8 = 1;
/// Usage, configuration, or operational failure exit status.
pub const EXIT_USAGE: u8 = 2;
/// The implementation version reported by `fortress --version`.
pub const CLI_VERSION: &'static str = "0.1.0";

/// Output rendering requested for a snapshot audit.
#[derive(Clone, Copy, Debug, PartialEq, Eq, Structural)]
pub enum AuditFormat {
    /// Human-readable report.
    Human,
    /// Canonical JSON report.
    Json,
}

/// What one invocation amounts to: finished text and status, or repository
/// work to perform with its parsed arguments.
#[derive(Debug)]
pub enum Invocation {
    /// Dispatch finished with an exit status and the text for each stream.
    Finished { status: u8, stdout: String, stderr: String },
    /// Audit the repository at `root`.
    Audit { root: String, format: AuditFormat },
    /// Compile the Contract Coherency Graph of `root`.
    Ccg { root: String, output: Option<String> },
    /// Compile the Intended Behavioral Flow Graph of `root`.
    Bfg { root: String, output: Option<String> },
}

/// Abstract value of one invocation.
pub enum InvocationModel {
    Finished { status: u8, stdout: Seq<char>, stderr: Seq<char> },
    Audit { root: Seq<char>, format: AuditFormat },
    Ccg { root: Seq<char>, output: Option<Seq<char>> },
    Bfg { root: Seq<char>, output: Option<Seq<char>> },
}

/// The view of an optional text.
pub open spec fn optional_text(o: Option<String>) -> Option<Seq<char>> {
    match o {
        Some(s) => Some(s@),
        None => None,
    }
}

impl View for Invocation {
    type V = InvocationModel;

    open spec fn view(&self) -> InvocationModel {
        match self {
            Invocation::Finished { status, stdout, stderr } => InvocationModel::Finished {
                status: *status,
                stdout: stdout@,
                stderr: stderr@,
            },
            Invocation::Audit { root, format } => InvocationModel::Audit { root: root@, format: *format },
            Invocation::Ccg { root, output } => InvocationModel::Ccg { root: root@, output: optional_text(*output) },
            Invocation::Bfg { root, output } => InvocationModel::Bfg { root: root@, output: optional_text(*output) },
        }
    }
}

/// `s` followed by spaces up to `width` characters.
pub open spec fn pad_right(s: Seq<char>, width: nat) -> Seq<char> {
    if s.len() >= width {
        s
    } else {
        s + Seq::new((width - s.len()) as nat, |i: int| ' ')
    }
}

/// One command line of the top-level help.
pub open spec fn command_line(d: DescriptorModel) -> Seq<char> {
    "    "@ + pad_right(d.name, 10) + " "@ + d.description + "\n"@
}

/// The command lines of the top-level help, in discovery order.
pub open spec fn command_lines(commands: Seq<DescriptorModel>) -> Seq<char>
    decreases commands.len(),
{
    if commands.len() == 0 {
        Seq::empty()
    } else {
        command_lines(commands.drop_last()) + command_line(commands.last())
    }
}

/// The complete top-level help text.
pub open spec fn top_level_help(commands: Seq<DescriptorModel>) -> Seq<char> {
    "Fortress "@ + CLI_VERSION@ + "\n"@
        + "Engineering control plane for coherent, auditable software systems.\n"@ + "\n"@
        + "USAGE:\n"@ + "    fortress <command>\n"@ + "    fortress --version\n"@ + "\n"@
        + "IMPLEMENTED COMMANDS:\n"@ + command_lines(commands) + "\n"@
        + "Only listed commands are implemented. No certification claim is made.\n"@
}

/// The aliases joined by a comma and a space.
pub open spec fn joined_aliases(aliases: Seq<Seq<char>>) -> Seq<char>
    decreases aliases.len(),
{
    if aliases.len() == 0 {
        Seq::empty()
    } else if aliases.len() == 1 {
        aliases[0]
    } else {
        joined_aliases(aliases.drop_last()) + ", "@ + aliases.last()
    }
}

/// The help text of one command.
pub open spec fn command_help(d: DescriptorModel) -> Seq<char> {
    d.name + " \u{2014} "@ + d.description + "\n"@ + "\n"@ + "USAGE:\n"@ + "    "@ + d.usage + "\n"@ + (
    if d.aliases.len() == 0 {
        Seq::empty()
    } else {
        "\n"@ + "ALIASES:\n"@ + "    "@ + joined_aliases(d.aliases) + "\n"@
    })
}

/// The audit usage message.
pub open spec fn audit_usage() -> Seq<char> {
    "usage: fortress audit [path] [--format human|json]"@
}

/// Interprets an audit format value.
pub open spec fn audit_format_of(value: Seq<char>) -> Result<AuditFormat, Seq<char>> {
    if value == "human"@ {
        Ok(AuditFormat::Human)
    } else if value == "json"@ {
        Ok(AuditFormat::Json)
    } else {
        Err("audit format must be `human` or `json`"@)
    }
}

/// `arg` is an option: it starts with `-`.
pub open spec fn is_option(arg: Seq<char>) -> bool {
    arg.len() > 0 && arg[0] == '-'
}

/// Audit arguments from position `i` on, given what was parsed before it.
pub open spec fn parse_audit_from(
    args: Seq<Seq<char>>,
    i: int,
    root: Option<Seq<char>>,
    format: AuditFormat,
) -> Result<(Seq<char>, AuditFormat), Seq<char>>
    decreases args.len() - i,
{
    if i < 0 || i >= args.len() {
        Ok((
            match root {
                Some(r) => r,
                None => "."@,
            },
            format,
        ))
    } else if args[i] == "--format"@ {
        if i + 1 >= args.len() {
            Err(audit_usage())
        } else {
            match audit_format_of(args[i + 1]) {
                Err(m) => Err(m),
                Ok(f) => parse_audit_from(args, i + 2, root, f),
            }
        }
    } else if is_prefix("--format="@, args[i]) {
        match audit_format_of(args[i].skip("--format="@.len() as int)) {
            Err(m) => Err(m),
            Ok(f) => parse_audit_from(args, i + 1, root, f),
        }
    } else if is_option(args[i]) || root is Some {
        Err(audit_usage())
    } else {
        parse_audit_from(args, i + 1, Some(args[i]), format)
    }
}

/// `arg` selects an audit format: `--format` or `--format=<value>`.
pub open spec fn is_format_option(arg: Seq<char>) -> bool {
    arg == "--format"@ || is_prefix("--format="@, arg)
}

proof fn lemma_format_values_are_not_options()
    ensures
        audit_format_of("--format"@) is Err,
        forall|a: Seq<char>| is_prefix("--format="@, a) ==> #[trigger] audit_format_of(a) is Err,
        "--format"@ != "--format=json"@,
        "--format"@ != "--format=human"@,
        is_prefix("--format="@, "--format=json"@),
        is_prefix("--format="@, "--format=human"@),
        "--format=json"@.skip("--format="@.len() as int) == "json"@,
        "--format=human"@.skip("--format="@.len() as int) == "human"@,
{
    reveal_strlit("--format");
    reveal_strlit("--format=");
    reveal_strlit("--format=json");
    reveal_strlit("--format=human");
    reveal_strlit("human");
    reveal_strlit("json");
    assert("--format=json"@.subrange(0, 9) =~= "--format="@);
    assert("--format=human"@.subrange(0, 9) =~= "--format="@);
    assert("--format=json"@.skip(9) =~= "json"@);
    assert("--format=human"@.skip(9) =~= "human"@);
    assert("--format"@.len() == 8);
    assert("--format=json"@.len() == 13);
    assert("--format=human"@.len() == 14);
}

proof fn lemma_format_tail(args: Seq<Seq<char>>, m: int, root: Option<Seq<char>>, format: AuditFormat)
    requires
        0 <= m,
        forall|j: int| m <= j < args.len() ==> !is_format_option(#[trigger] args[j]),
    ensures
        parse_audit_from(args, m, root, format) matches Ok((_, f)) ==> f == format,
    decreases args.len() - m,
{
    if m < args.len() {
        assert(!is_format_option(args[m]));
        if !(is_option(args[m]) || root is Some) {
            lemma_format_tail(args, m + 1, Some(args[m]), format);
        }
    }
}

proof fn lemma_format_option_reached(
    args: Seq<Seq<char>>,
    k: int,
    root: Option<Seq<char>>,
    format: AuditFormat,
    i: int,
    v: AuditFormat,
)
    requires
        0 <= k <= i < args.len(),
        is_format_option(args[i]),
        forall|j: int| i < j < args.len() ==> !is_format_option(#[trigger] args[j]),
        args[i] == "--format"@ ==> i + 1 < args.len() && audit_format_of(args[i + 1]) == Ok::<AuditFormat, Seq<char>>(v),
        args[i] != "--format"@ ==> audit_format_of(args[i].skip("--format="@.len() as int)) == Ok::<
            AuditFormat,
            Seq<char>,
        >(v),
    ensures
        parse_audit_from(args, k, root, format) matches Ok((_, f)) ==> f == v,
    decreases i - k,
{
    lemma_format_values_are_not_options();
    if k == i {
        if args[i] == "--format"@ {
            assert forall|j: int| i + 2 <= j < args.len() implies !is_format_option(#[trigger] args[j]) by {}
            lemma_format_tail(args, i + 2, root, v);
        } else {
            lemma_format_tail(args, i + 1, root, v);
        }
    } else if args[k] == "--format"@ {
        if k + 1 < args.len() {
            match audit_format_of(args[k + 1]) {
                Ok(f2) => {
                    assert(k + 1 != i);
                    lemma_format_option_reached(args, k + 2, root, f2, i, v);
                },
                Err(_) => {},
            }
        }
    } else if is_prefix("--format="@, args[k]) {
        match audit_format_of(args[k].skip("--format="@.len() as int)) {
            Ok(f2) => {
                lemma_format_option_reached(args, k + 1, root, f2, i, v);
            },
            Err(_) => {},
        }
    } else if !(is_option(args[k]) || root is Some) {
        lemma_format_option_reached(args, k + 1, Some(args[k]), format, i, v);
    }
}

/// The audit format is the one named by the last format option: after
/// `--format json` or `--format=json` it is JSON, after `--format human` or
/// `--format=human` it is human, when no format option follows; and with no
/// format option at all it is human.
pub proof fn lemma_audit_format_follows_last_option(args: Seq<Seq<char>>, i: int)
    requires
        0 <= i < args.len(),
        forall|j: int| i < j < args.len() ==> !is_format_option(#[trigger] args[j]),
    ensures
        parse_audit_from(args, 0, None, AuditFormat::Human) matches Ok((_, f)) ==> {
            &&& (args[i] == "--format"@ && i + 1 < args.len() && args[i + 1] == "json"@) ==> f == AuditFormat::Json
            &&& (args[i] == "--format"@ && i + 1 < args.len() && args[i + 1] == "human"@) ==> f == AuditFormat::Human
            &&& args[i] == "--format=json"@ ==> f == AuditFormat::Json
            &&& args[i] == "--format=human"@ ==> f == AuditFormat::Human
        },
{
    lemma_format_values_are_not_options();
    reveal_strlit("human");
    reveal_strlit("json");
    if args[i] == "--format"@ && i + 1 < args.len() && args[i + 1] == "json"@ {
        lemma_format_option_reached(args, 0, None, AuditFormat::Human, i, AuditFormat::Json);
    }
    if args[i] == "--format"@ && i + 1 < args.len() && args[i + 1] == "human"@ {
        lemma_format_option_reached(args, 0, None, AuditFormat::Human, i, AuditFormat::Human);
    }
    if args[i] == "--format=json"@ {
        lemma_format_option_reached(args, 0, None, AuditFormat::Human, i, AuditFormat::Json);
    }
    if args[i] == "--format=human"@ {
        lemma_format_option_reached(args, 0, None, AuditFormat::Human, i, AuditFormat::Human);
    }
}

/// Without format options, the audit arguments are at most one path that is
/// not an option: no argument audits `.`, one path audits that path, and
/// anything else is refused with the usage message.
pub proof fn lemma_audit_path_without_format(args: Seq<Seq<char>>)
    requires
        forall|j: int| 0 <= j < args.len() ==> !is_format_option(#[trigger] args[j]),
    ensures
        parse_audit_from(args, 0, None, AuditFormat::Human) == if args.len() == 0 {
            Ok::<(Seq<char>, AuditFormat), Seq<char>>(("."@, AuditFormat::Human))
        } else if args.len() == 1 && !is_option(args[0]) {
            Ok((args[0], AuditFormat::Human))
        } else {
            Err(audit_usage())
        },
{
    if args.len() > 0 {
        assert(!is_format_option(args[0]));
        if !is_option(args[0]) {
            let next = parse_audit_from(args, 1, Some(args[0]), AuditFormat::Human);
            assert(parse_audit_from(args, 0, None, AuditFormat::Human) == next);
            if args.len() > 1 {
                assert(!is_format_option(args[1]));
                assert(next == Err::<(Seq<char>, AuditFormat), Seq<char>>(audit_usage()));
            } else {
                assert(next == Ok::<(Seq<char>, AuditFormat), Seq<char>>((args[0], AuditFormat::Human)));
            }
        }
    }
}

/// Without any format option the audit format is human.
pub proof fn lemma_audit_format_defaults_to_human(args: Seq<Seq<char>>)
    requires
        forall|j: int| 0 <= j < args.len() ==> !is_format_option(#[trigger] args[j]),
    ensures
        parse_audit_from(args, 0, None, AuditFormat::Human) matches Ok((_, f)) ==> f == AuditFormat::Human,
{
    lemma_format_tail(args, 0, None, AuditFormat::Human);
}

/// The usage message of a graph command (`ccg` or `bfg`).
pub open spec fn graph_usage(name: Seq<char>) -> Seq<char> {
    "usage: fortress "@ + name + " [path] [--format json] [--output path]"@
}

/// Graph-command arguments from position `i` on.
pub open spec fn parse_graph_from(
    args: Seq<Seq<char>>,
    i: int,
    usage: Seq<char>,
    format_error: Seq<char>,
    root: Option<Seq<char>>,
    output: Option<Seq<char>>,
) -> Result<(Seq<char>, Option<Seq<char>>), Seq<char>>
    decreases args.len() - i,
{
    if i < 0 || i >= args.len() {
        Ok((
            match root {
                Some(r) => r,
                None => "."@,
            },
            output,
        ))
    } else if args[i] == "--format"@ {
        if i + 1 >= args.len() || args[i + 1] != "json"@ {
            Err(usage)
        } else {
            parse_graph_from(args, i + 2, usage, format_error, root, output)
        }
    } else if is_prefix("--format="@, args[i]) {
        if args[i].skip("--format="@.len() as int) != "json"@ {
            Err(format_error)
        } else {
            parse_graph_from(args, i + 1, usage, format_error, root, output)
        }
    } else if args[i] == "--output"@ {
        if i + 1 >= args.len() || output is Some {
            Err(usage)
        } else {
            parse_graph_from(args, i + 2, usage, format_error, root, Some(args[i + 1]))
        }
    } else if is_option(args[i]) || root is Some {
        Err(usage)
    } else {
        parse_graph_from(args, i + 1, usage, format_error, Some(args[i]), output)
    }
}

/// Finished with a status, standard output and standard error.
pub open spec fn finished(status: u8, stdout: Seq<char>, stderr: Seq<char>) -> InvocationModel {
    InvocationModel::Finished { status, stdout, stderr }
}

/// What the command line `args` (after the executable name) amounts to.
pub open spec fn dispatch(args: Seq<Seq<char>>) -> InvocationModel {
    let commands = builtin_commands();
    if args.len() == 0 {
        finished(EXIT_SUCCESS, top_level_help(commands), Seq::empty())
    } else {
        match find_command(commands, args[0]) {
            None => finished(
                EXIT_USAGE,
                Seq::empty(),
                "unsupported command `"@ + args[0] + "`; run `fortress help` to list implemented commands\n"@,
            ),
            Some(command) => {
                let rest = args.drop_first();
                if command.id == "CMD-CORE-HELP"@ {
                    if rest.len() == 0 {
                        finished(EXIT_SUCCESS, top_level_help(commands), Seq::empty())
                    } else if rest.len() == 1 {
                        match find_command(commands, rest[0]) {
                            Some(c) => finished(EXIT_SUCCESS, command_help(c), Seq::empty()),
                            None => finished(
                                EXIT_USAGE,
                                Seq::empty(),
                                "no implemented command named `"@ + rest[0] + "`\n"@,
                            ),
                        }
                    } else {
                        finished(EXIT_USAGE, Seq::empty(), "usage: fortress help [command]\n"@)
                    }
                } else if command.id == "CMD-CORE-VERSION"@ {
                    if rest.len() == 0 {
                        finished(EXIT_SUCCESS, "fortress "@ + CLI_VERSION@ + "\n"@, Seq::empty())
                    } else {
                        finished(EXIT_USAGE, Seq::empty(), "usage: fortress --version\n"@)
                    }
                } else if command.id == "CMD-SNAPSHOT-AUDIT"@ {
                    match parse_audit_from(rest, 0, None, AuditFormat::Human) {
                        Err(m) => finished(EXIT_USAGE, Seq::empty(), m + "\n"@),
                        Ok((root, format)) => InvocationModel::Audit { root, format },
                    }
                } else if command.id == "CMD-CONTRACT-CCG"@ {
                    match parse_graph_from(
                        rest,
                        0,
                        graph_usage("ccg"@),
                        "CCG format must be `json`"@,
                        None,
                        None,
                    ) {
                        Err(m) => finished(EXIT_USAGE, Seq::empty(), m + "\n"@),
                        Ok((root, output)) => InvocationModel::Ccg { root, output },
                    }
                } else if command.id == "CMD-BEHAVIOR-BFG"@ {
                    match parse_graph_from(
                        rest,
                        0,
                        graph_usage("bfg"@),
                        "BFG format must be `json`"@,
                        None,
                        None,
                    ) {
                        Err(m) => finished(EXIT_USAGE, Seq::empty(), m + "\n"@),
                        Ok((root, output)) => InvocationModel::Bfg { root, output },
                    }
                } else {
                    finished(
                        EXIT_USAGE,
                        Seq::empty(),
                        "registered command `"@ + command.id + "` has no CLI executor\n"@,
                    )
                }
            },
        }
    }
}

fn pad_right_exec(s: &str, width: usize) -> (r: String)
    ensures
        r@ == pad_right(s@, width as nat),
{
    let mut out = copy_text(s);
    let n = crate::text::chars_of(s).len();
    if n >= width {
        return out;
    }
    let mut k: usize = n;
    while k < width
        invariant
            n == s@.len(),
            n <= k <= width,
            out@ == s@ + Seq::new((k - n) as nat, |i: int| ' '),
        decreases width - k,
    {
        let ghost before = out@;
        crate::text::push_char(&mut out, ' ');
        assert(out@ =~= s@ + Seq::new((k + 1 - n) as nat, |i: int| ' '));
        k = k + 1;
    }
    out
}

fn render_top_level_help(registry: &CommandRegistry) -> (r: String)
    ensures
        r@ == top_level_help(registry@),
{
    let out = concat("Fortress ", CLI_VERSION);
    let out = concat(out.as_str(), "\n");
    let out = concat(out.as_str(), "Engineering control plane for coherent, auditable software systems.\n");
    let out = concat(out.as_str(), "\n");
    let out = concat(out.as_str(), "USAGE:\n");
    let out = concat(out.as_str(), "    fortress <command>\n");
    let out = concat(out.as_str(), "    fortress --version\n");
    let out = concat(out.as_str(), "\n");
    let out = concat(out.as_str(), "IMPLEMENTED COMMANDS:\n");
    let ghost head = out@;
    let commands = registry.commands();
    let ghost cs = crate::order::views(commands@);
    let mut lines = String::new();
    let mut i: usize = 0;
    while i < commands.len()
        invariant
            cs == crate::order::views(commands@),
            i <= commands@.len(),
            lines@ == command_lines(cs.take(i as int)),
        decreases commands.len() - i,
    {
        assert(cs.take(i + 1).drop_last() =~= cs.take(i as int));
        assert(cs.take(i + 1).last() == commands@[i as int]@);
        let line = concat("    ", pad_right_exec(commands[i].name(), 10).as_str());
        let line = concat(line.as_str(), " ");
        let line = concat(line.as_str(), commands[i].description());
        let line = concat(line.as_str(), "\n");
        lines = concat(lines.as_str(), line.as_str());
        i = i + 1;
    }
    assert(cs.take(commands@.len() as int) =~= cs);
    let out = concat(out.as_str(), lines.as_str());
    let out = concat(out.as_str(), "\n");
    concat(out.as_str(), "Only listed commands are implemented. No certification claim is made.\n")
}

fn render_command_help(command: &CommandDescriptor) -> (r: String)
    ensures
        r@ == command_help(command@),
{
    let out = concat(command.name(), " \u{2014} ");
    let out = concat(out.as_str(), command.description());
    let out = concat(out.as_str(), "\n");
    let out = concat(out.as_str(), "\n");
    let out = concat(out.as_str(), "USAGE:\n");
    let out = concat(out.as_str(), "    ");
    let out = concat(out.as_str(), command.usage());
    let out = concat(out.as_str(), "\n");
    let aliases = command.aliases();
    if aliases.len() == 0 {
        assert(command@.aliases.len() == 0);
        assert(out@ + Seq::<char>::empty() =~= out@);
        return out;
    }
    let ghost av = static_texts(aliases@);
    let mut joined = copy_text(aliases[0]);
    let mut i: usize = 1;
    assert(av.take(1) =~= seq![av[0]]);
    while i < aliases.len()
        invariant
            av == static_texts(aliases@),
            1 <= i <= aliases@.len(),
            joined@ == joined_aliases(av.take(i as int)),
        decreases aliases.len() - i,
    {
        assert(av.take(i + 1).drop_last() =~= av.take(i as int));
        assert(av.take(i + 1).last() == aliases@[i as int]@);
        let next = concat(joined.as_str(), ", ");
        joined = concat(next.as_str(), aliases[i]);
        i = i + 1;
    }
    assert(av.take(aliases@.len() as int) =~= av);
    let out = concat(out.as_str(), "\n");
    let out = concat(out.as_str(), "ALIASES:\n");
    let out = concat(out.as_str(), "    ");
    let out = concat(out.as_str(), joined.as_str());
    concat(out.as_str(), "\n")
}

fn finish(status: u8, stdout: String, stderr: String) -> (r: Invocation)
    ensures
        r@ == finished(status, stdout@, stderr@),
{
    Invocation::Finished { status, stdout, stderr }
}

fn parse_audit_format(value: &str) -> (r: Result<AuditFormat, String>)
    ensures
        match (r, audit_format_of(value@)) {
            (Ok(a), Ok(b)) => a == b,
            (Err(a), Err(b)) => a@ == b,
            _ => false,
        },
{
    if text_eq(value, "human") {
        Ok(AuditFormat::Human)
    } else if text_eq(value, "json") {
        Ok(AuditFormat::Json)
    } else {
        Err(copy_text("audit format must be `human` or `json`"))
    }
}

fn option_argument(arg: &str) -> (r: bool)
    ensures
        r == is_option(arg@),
{
    let chars = crate::text::chars_of(arg);
    chars.len() > 0 && chars[0] == '-'
}

/// Parses audit arguments: an optional path and an optional format.
pub fn parse_audit_arguments(args: &[String]) -> (r: Result<(String, AuditFormat), String>)
    ensures
        match (r, parse_audit_from(crate::text::texts(args@), 0, None, AuditFormat::Human)) {
            (Ok((root, f)), Ok((root2, f2))) => root@ == root2 && f == f2,
            (Err(m), Err(m2)) => m@ == m2,
            _ => false,
        },
{
    let ghost a = crate::text::texts(args@);
    let mut root: Option<String> = None;
    let mut format = AuditFormat::Human;
    let mut i: usize = 0;
    while i < args.len()
        invariant
            a == crate::text::texts(args@),
            i <= args@.len(),
            parse_audit_from(a, 0, None, AuditFormat::Human) == parse_audit_from(
                a,
                i as int,
                optional_text(root),
                format,
            ),
        decreases args.len() - i,
    {
        let arg = args[i].as_str();
        assert(a[i as int] == arg@);
        if text_eq(arg, "--format") {
            if i + 1 >= args.len() {
                return Err(copy_text("usage: fortress audit [path] [--format human|json]"));
            }
            assert(a[i + 1] == args@[i + 1]@);
            match parse_audit_format(args[i + 1].as_str()) {
                Err(m) => {
                    return Err(m);
                },
                Ok(f) => {
                    format = f;
                },
            }
            i = i + 2;
        } else if starts_with(arg, "--format=") {
            let value = strip_prefix_or_self(arg, "--format=");
            match parse_audit_format(value.as_str()) {
                Err(m) => {
                    return Err(m);
                },
                Ok(f) => {
                    format = f;
                },
            }
            i = i + 1;
        } else if option_argument(arg) || root.is_some() {
            return Err(copy_text("usage: fortress audit [path] [--format human|json]"));
        } else {
            root = Some(copy_text(arg));
            i = i + 1;
        }
    }
    let root = match root {
        Some(r) => r,
        None => copy_text("."),
    };
    Ok((root, format))
}

/// Parses graph-command arguments: an optional path, `--format json`, and an
/// optional output path.
pub fn parse_graph_arguments(args: &[String], usage: &str, format_error: &str) -> (r: Result<
    (String, Option<String>),
    String,
>)
    ensures
        match (r, parse_graph_from(crate::text::texts(args@), 0, usage@, format_error@, None, None)) {
            (Ok((root, o)), Ok((root2, o2))) => root@ == root2 && optional_text(o) == o2,
            (Err(m), Err(m2)) => m@ == m2,
            _ => false,
        },
{
    let ghost a = crate::text::texts(args@);
    let mut root: Option<String> = None;
    let mut output: Option<String> = None;
    let mut i: usize = 0;
    while i < args.len()
        invariant
            a == crate::text::texts(args@),
            i <= args@.len(),
            parse_graph_from(a, 0, usage@, format_error@, None, None) == parse_graph_from(
                a,
                i as int,
                usage@,
                format_error@,
                optional_text(root),
                optional_text(output),
            ),
        decreases args.len() - i,
    {
        let arg = args[i].as_str();
        assert(a[i as int] == arg@);
        if text_eq(arg, "--format") {
            if i + 1 >= args.len() {
                return Err(copy_text(usage));
            }
            assert(a[i + 1] == args@[i + 1]@);
            if !text_eq(args[i + 1].as_str(), "json") {
                return Err(copy_text(usage));
            }
            i = i + 2;
        } else if starts_with(arg, "--format=") {
            let value = strip_prefix_or_self(arg, "--format=");
            if !text_eq(value.as_str(), "json") {
                return Err(copy_text(format_error));
            }
            i = i + 1;
        } else if text_eq(arg, "--output") {
            if i + 1 >= args.len() || output.is_some() {
                return Err(copy_text(usage));
            }
            assert(a[i + 1] == args@[i + 1]@);
            output = Some(copy_text(args[i + 1].as_str()));
            i = i + 2;
        } else if option_argument(arg) || root.is_some() {
            return Err(copy_text(usage));
        } else {
            root = Some(copy_text(arg));
            i = i + 1;
        }
    }
    let root = match root {
        Some(r) => r,
        None => copy_text("."),
    };
    Ok((root, output))
}

/// Dispatches one command line (the arguments after the executable name).
pub fn run(arguments: Vec<String>) -> (r: Invocation)
    ensures
        r@ == dispatch(crate::text::texts(arguments@)),
{
    let ghost a = crate::text::texts(arguments@);
    let registry = CommandRegistry::builtin();
    if arguments.len() == 0 {
        return finish(EXIT_SUCCESS, render_top_level_help(&registry), String::new());
    }
    assert(a[0] == arguments@[0]@);
    let first = arguments[0].as_str();
    let command = match registry.find(first) {
        Some(c) => c,
        None => {
            let message = concat("unsupported command `", first);
            let message = concat(
                message.as_str(),
                "`; run `fortress help` to list implemented commands\n",
            );
            return finish(EXIT_USAGE, String::new(), message);
        },
    };
    let rest = vstd::slice::slice_subrange(arguments.as_slice(), 1, arguments.len());
    assert(crate::text::texts(rest@) =~= a.drop_first());
    let id = command.id();
    if text_eq(id, "CMD-CORE-HELP") {
        if rest.len() == 0 {
            finish(EXIT_SUCCESS, render_top_level_help(&registry), String::new())
        } else if rest.len() == 1 {
            assert(a.drop_first()[0] == rest@[0]@);
            match registry.find(rest[0].as_str()) {
                Some(c) => finish(EXIT_SUCCESS, render_command_help(c), String::new()),
                None => {
                    let message = concat("no implemented command named `", rest[0].as_str());
                    finish(EXIT_USAGE, String::new(), concat(message.as_str(), "`\n"))
                },
            }
        } else {
            finish(EXIT_USAGE, String::new(), copy_text("usage: fortress help [command]\n"))
        }
    } else if text_eq(id, "CMD-CORE-VERSION") {
        if rest.len() == 0 {
            let line = concat("fortress ", CLI_VERSION);
            finish(EXIT_SUCCESS, concat(line.as_str(), "\n"), String::new())
        } else {
            finish(EXIT_USAGE, String::new(), copy_text("usage: fortress --version\n"))
        }
    } else if text_eq(id, "CMD-SNAPSHOT-AUDIT") {
        match parse_audit_arguments(rest) {
            Err(m) => finish(EXIT_USAGE, String::new(), concat(m.as_str(), "\n")),
            Ok((root, format)) => Invocation::Audit { root, format },
        }
    } else if text_eq(id, "CMD-CONTRACT-CCG") {
        let usage = concat("usage: fortress ", "ccg");
        let usage = concat(usage.as_str(), " [path] [--format json] [--output path]");
        match parse_graph_arguments(rest, usage.as_str(), "CCG format must be `json`") {
            Err(m) => finish(EXIT_USAGE, String::new(), concat(m.as_str(), "\n")),
            Ok((root, output)) => Invocation::Ccg { root, output },
        }
    } else if text_eq(id, "CMD-BEHAVIOR-BFG") {
        let usage = concat("usage: fortress ", "bfg");
        let usage = concat(usage.as_str(), " [path] [--format json] [--output path]");
        match parse_graph_arguments(rest, usage.as_str(), "BFG format must be `json`") {
            Err(m) => finish(EXIT_USAGE, String::new(), concat(m.as_str(), "\n")),
            Ok((root, output)) => Invocation::Bfg { root, output },
        }
    } else {
        let message = concat("registered command `", id);
        finish(EXIT_USAGE, String::new(), concat(message.as_str(), "` has no CLI executor\n"))
    }
}

} // verus!
