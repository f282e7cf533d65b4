use qnap::cli::{error_kind_and_code, ErrorKind};
use qnap::schema::cli_schema;

#[test]
fn schema_has_required_top_level_fields() {
    let schema = cli_schema();
    assert_eq!(schema.clispec, "0.2", "clispec field must be '0.2'");
    assert_eq!(schema.name, "qnap", "name field must be 'qnap'");
    assert!(!schema.commands.is_empty(), "commands must be a non-empty array");
    assert!(!schema.errors.is_empty(), "errors must be a non-empty array");
}

#[test]
fn all_commands_have_mutating_field() {
    let schema = cli_schema();
    let mutating: Vec<&str> =
        schema.commands.iter().filter(|c| c.mutating).map(|c| c.name.as_str()).collect();
    assert_eq!(
        mutating,
        vec!["login", "files mkdir", "files rm", "files mv", "files cp", "files upload"]
    );
    assert_eq!(schema.commands.len(), 19);
}

#[test]
fn all_error_kinds_have_exit_codes() {
    let schema = cli_schema();
    for kind in [
        ErrorKind::Network,
        ErrorKind::Auth,
        ErrorKind::PermissionDenied,
        ErrorKind::NotFound,
        ErrorKind::General,
    ] {
        assert!(
            schema.errors.iter().any(|e| e.kind == kind.name() && e.exit_code == kind.exit_code()),
            "error kind '{}' is missing",
            kind.name()
        );
    }
    assert!(schema.errors.iter().any(|e| e.kind == "confirmation_required" && e.exit_code == 2));
}

#[test]
fn conflict_error_kind_is_not_declared() {
    let schema = cli_schema();
    assert!(!schema.errors.iter().any(|e| e.kind == "conflict"));
}

#[test]
fn global_args_include_output_flag() {
    let schema = cli_schema();
    assert!(schema.global_args.iter().any(|a| a.name == "--output"), "global_args must include '--output'");
    let output = &schema.global_args[0];
    assert_eq!(output.choices, vec!["auto", "text", "json"]);
}

#[test]
fn list_commands_have_pagination_args() {
    let schema = cli_schema();
    for name in ["shares", "files ls"] {
        let cmd = schema.commands.iter().find(|c| c.name == name).unwrap();
        assert!(cmd.args.iter().any(|a| a.name == "--limit"), "command '{}' must have a --limit arg", name);
        assert!(cmd.args.iter().any(|a| a.name == "--offset"), "command '{}' must have an --offset arg", name);
    }
}

#[test]
fn reported_errors_are_declared_in_schema() {
    let schema = cli_schema();
    for msg in ["failed to reach NAS: x", "authentication failed (errorValue=-1)", "path not found: /x", "permission denied: /x", "boom"] {
        let (kind, code) = error_kind_and_code(msg);
        assert!(schema.errors.iter().any(|e| e.kind == kind && e.exit_code == code), "{} not declared", kind);
    }
}
