//! Command-line dispatch evidence: exit status and the text of each stream.

use fortress::cli::command::{CommandDescriptor, CommandRegistry, CommandRegistryError};
use fortress::cli::{run as dispatch, AuditFormat, Invocation, EXIT_SUCCESS, EXIT_USAGE};

struct Output {
    status: u8,
    stdout: String,
    stderr: String,
}

fn run(arguments: &[&str]) -> Output {
    let arguments = arguments.iter().map(|value| (*value).to_owned()).collect();
    match dispatch(arguments) {
        Invocation::Finished { status, stdout, stderr } => Output { status, stdout, stderr },
        other => panic!("expected a finished invocation, got {other:?}"),
    }
}

#[test]
fn version_flag_reports_implementation_identity() {
    let output = run(&["--version"]);
    assert_eq!(output.status, EXIT_SUCCESS);
    assert_eq!(output.stdout, "fortress 0.1.0\n");
    assert!(output.stderr.is_empty());
}

#[test]
fn help_discovers_only_implemented_commands() {
    let output = run(&["help"]);
    let stdout = output.stdout;
    assert_eq!(output.status, EXIT_SUCCESS);
    assert!(stdout.contains("help"));
    assert!(stdout.contains("version"));
    assert!(stdout.lines().any(|line| line.trim_start().starts_with("audit ")));
    assert!(!stdout.lines().any(|line| line.trim_start().starts_with("certify ")));
}

#[test]
fn unsupported_certification_command_fails() {
    let output = run(&["certify"]);
    assert_eq!(output.status, 2);
    assert!(output.stdout.is_empty());
    assert!(output.stderr.contains("unsupported command `certify`"));
}

#[test]
fn version_rejects_extra_arguments() {
    let output = run(&["--version", "unexpected"]);
    assert_eq!(output.status, 2);
    assert!(output.stderr.contains("usage: fortress --version"));
}

#[test]
fn audit_rejects_unsupported_options() {
    let output = run(&["audit", "--format", "xml"]);
    assert_eq!(output.status, 2);
    assert!(output.stderr.contains("human` or `json"));
}

#[test]
fn ccg_rejects_unsupported_formats() {
    let output = run(&["ccg", "--format", "dot"]);
    assert_eq!(output.status, 2);
    assert!(output.stderr.contains("--format json"));
}

#[test]
fn aliases_resolve_to_registered_descriptors() {
    let registry = CommandRegistry::builtin();
    assert_eq!(registry.find("--version").map(CommandDescriptor::id), Some("CMD-CORE-VERSION"));
}

#[test]
fn unimplemented_operation_is_absent() {
    assert!(CommandRegistry::builtin().find("certify").is_none());
}

#[test]
fn no_arguments_render_help() {
    let output = run(&[]);
    assert_eq!(output.status, EXIT_SUCCESS);
    assert!(output.stdout.contains("IMPLEMENTED COMMANDS"));
    assert!(output.stderr.is_empty());
}

#[test]
fn unknown_command_is_non_success() {
    let output = run(&["certify"]);
    assert_eq!(output.status, EXIT_USAGE);
    assert!(output.stdout.is_empty());
    assert!(output.stderr.contains("unsupported command `certify`"));
}

#[test]
fn top_level_help_pads_command_names() {
    let output = run(&["--help"]);
    assert!(output
        .stdout
        .contains("    audit      Build and evaluate a stabilized repository snapshot.\n"));
    assert!(output.stdout.starts_with("Fortress 0.1.0\n"));
    assert!(output
        .stdout
        .ends_with("Only listed commands are implemented. No certification claim is made.\n"));
}

#[test]
fn command_help_lists_aliases() {
    let output = run(&["help", "version"]);
    assert_eq!(output.status, EXIT_SUCCESS);
    assert_eq!(
        output.stdout,
        "version \u{2014} Print the Fortress CLI implementation version.\n\nUSAGE:\n    fortress --version\n\nALIASES:\n    -V, --version\n"
    );
}

#[test]
fn help_for_unknown_command_is_usage_failure() {
    let output = run(&["help", "certify"]);
    assert_eq!(output.status, EXIT_USAGE);
    assert_eq!(output.stderr, "no implemented command named `certify`\n");
    let output = run(&["help", "a", "b"]);
    assert_eq!(output.stderr, "usage: fortress help [command]\n");
}

#[test]
fn audit_arguments_are_handed_over_parsed() {
    match dispatch(vec!["audit".to_owned(), "repo".to_owned(), "--format=json".to_owned()]) {
        Invocation::Audit { root, format } => {
            assert_eq!(root, "repo");
            assert_eq!(format, AuditFormat::Json);
        }
        other => panic!("unexpected {other:?}"),
    }
    match dispatch(vec!["audit".to_owned()]) {
        Invocation::Audit { root, format } => {
            assert_eq!(root, ".");
            assert_eq!(format, AuditFormat::Human);
        }
        other => panic!("unexpected {other:?}"),
    }
}

#[test]
fn graph_arguments_reject_repeated_output() {
    let output = run(&["bfg", "--output", "a", "--output", "b"]);
    assert_eq!(output.status, EXIT_USAGE);
    assert_eq!(output.stderr, "usage: fortress bfg [path] [--format json] [--output path]\n");
    let output = run(&["ccg", "--format=dot"]);
    assert_eq!(output.stderr, "CCG format must be `json`\n");
    match dispatch(vec!["ccg".to_owned(), "--output".to_owned(), "out.json".to_owned()]) {
        Invocation::Ccg { root, output } => {
            assert_eq!(root, ".");
            assert_eq!(output.as_deref(), Some("out.json"));
        }
        other => panic!("unexpected {other:?}"),
    }
}

fn command_namespaces(registry: &CommandRegistry) -> Vec<Option<String>> {
    registry
        .commands()
        .iter()
        .map(|c| c.id().split('-').next().map(str::to_string))
        .collect()
}

#[test]
fn builtin_registry_is_valid() {
    let registry = CommandRegistry::builtin();
    assert!(registry.validate(&command_namespaces(&registry)).is_ok());
}

#[test]
fn registry_refuses_an_identity_outside_the_command_namespace() {
    let registry = CommandRegistry::builtin();
    let mut namespaces = command_namespaces(&registry);
    namespaces[1] = Some("AF".to_string());
    assert_eq!(registry.validate(&namespaces), Err(CommandRegistryError::NonCommandIdentity("CMD-CORE-VERSION")));
}

#[test]
fn registry_refuses_an_invalid_identity_first() {
    let registry = CommandRegistry::builtin();
    let mut namespaces = command_namespaces(&registry);
    namespaces[0] = None;
    namespaces[1] = Some("AF".to_string());
    assert_eq!(registry.validate(&namespaces), Err(CommandRegistryError::InvalidIdentity("CMD-CORE-HELP")));
}
