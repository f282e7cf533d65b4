//! The machine-readable description of the command line: global arguments,
//! commands with their arguments and outputs, and the error kinds with
//! their exit codes.
use vstd::prelude::*;

use crate::cli::{
    confirmation_exit_code, confirmation_kind, error_kind_of, kind_exit_code, kind_name, ErrorKind,
};

verus! {

broadcast use vstd::string::group_string_axioms;

/// The default value of an argument.
#[derive(Debug)]
pub enum ArgDefault {
    Text(String),
    Integer(u64),
    Flag(bool),
}

/// One argument of a command, or a global one.
#[derive(Debug)]
pub struct SchemaArg {
    pub name: String,
    pub arg_type: String,
    /// Whether the argument must be given, where the description says.
    pub required: Option<bool>,
    pub default: Option<ArgDefault>,
    /// The values the argument accepts, when it is a choice; else empty.
    pub choices: Vec<String>,
    pub description: String,
}

/// One field of a command's JSON output.
#[derive(Debug)]
pub struct OutputField {
    pub name: String,
    pub field_type: String,
    pub description: Option<String>,
}

/// One command: what it does, whether it changes anything on the NAS,
/// what it takes and what it prints.
#[derive(Debug)]
pub struct SchemaCommand {
    pub name: String,
    pub description: String,
    pub mutating: bool,
    pub args: Vec<SchemaArg>,
    pub output_fields: Vec<OutputField>,
}

/// One kind of error the command line reports, with its exit code.
#[derive(Debug)]
pub struct SchemaError {
    pub kind: String,
    pub exit_code: i32,
    pub retryable: bool,
    pub description: String,
}

/// The description of the whole command line.
#[derive(Debug)]
pub struct CliSchema {
    pub clispec: String,
    pub name: String,
    pub description: String,
    pub global_args: Vec<SchemaArg>,
    pub commands: Vec<SchemaCommand>,
    pub errors: Vec<SchemaError>,
}

/// `args` has one named `name`.
pub open spec fn has_arg(args: Seq<SchemaArg>, name: Seq<char>) -> bool {
    exists|j: int| 0 <= j < args.len() && #[trigger] args[j].name@ == name
}

/// The kinds and exit codes of an error table.
pub open spec fn error_kinds_of(errors: Seq<SchemaError>) -> Seq<(Seq<char>, i32)> {
    errors.map_values(|e: SchemaError| (e.kind@, e.exit_code))
}

/// The names of arguments.
pub open spec fn arg_names(args: Seq<SchemaArg>) -> Seq<Seq<char>> {
    args.map_values(|a: SchemaArg| a.name@)
}

/// The names of commands, each with whether it changes anything on the NAS.
pub open spec fn command_flags(commands: Seq<SchemaCommand>) -> Seq<(Seq<char>, bool)> {
    commands.map_values(|c: SchemaCommand| (c.name@, c.mutating))
}

/// The error table has a `confirmation_required` entry with exit code 2.
pub open spec fn declares_confirmation(errors: Seq<SchemaError>) -> bool {
    exists|i: int|
        0 <= i < errors.len() && #[trigger] errors[i].kind@ == "confirmation_required"@
            && errors[i].exit_code == 2
}

/// No entry of the error table has the kind `conflict`.
pub open spec fn never_conflict(errors: Seq<SchemaError>) -> bool {
    forall|i: int| 0 <= i < errors.len() ==> #[trigger] errors[i].kind@ != "conflict"@
}

/// A command named `name` takes `--limit` and `--offset`.
pub open spec fn pages(commands: Seq<SchemaCommand>, name: Seq<char>) -> bool {
    exists|i: int|
        0 <= i < commands.len() && #[trigger] commands[i].name@ == name && has_arg(
            commands[i].args@,
            "--limit"@,
        ) && has_arg(commands[i].args@, "--offset"@)
}

/// The error table has an entry for `k` with its name and exit code.
pub open spec fn declares_kind(errors: Seq<SchemaError>, k: ErrorKind) -> bool {
    exists|i: int|
        0 <= i < errors.len() && #[trigger] errors[i].kind@ == kind_name(k) && errors[i].exit_code
            == kind_exit_code(k)
}

/// An argument.
fn arg(
    name: &str,
    arg_type: &str,
    required: Option<bool>,
    default: Option<ArgDefault>,
    choices: Vec<String>,
    description: &str,
) -> (res: SchemaArg)
    ensures
        res.name@ == name@,
        res.arg_type@ == arg_type@,
        res.required == required,
        res.default == default,
        res.choices == choices,
        res.description@ == description@,
{
    SchemaArg {
        name: String::from_str(name),
        arg_type: String::from_str(arg_type),
        required,
        default,
        choices,
        description: String::from_str(description),
    }
}

/// An output field.
fn field(name: &str, field_type: &str, description: Option<&str>) -> (res: OutputField)
    ensures
        res.name@ == name@,
        res.field_type@ == field_type@,
        res.description.deep_view() == match description {
            Some(d) => Some(d@),
            None => None,
        },
{
    OutputField {
        name: String::from_str(name),
        field_type: String::from_str(field_type),
        description: match description {
            Some(d) => Some(String::from_str(d)),
            None => None,
        },
    }
}

/// A command.
fn command(
    name: &str,
    description: &str,
    mutating: bool,
    args: Vec<SchemaArg>,
    output_fields: Vec<OutputField>,
) -> (res: SchemaCommand)
    ensures
        res.name@ == name@,
        res.description@ == description@,
        res.mutating == mutating,
        res.args == args,
        res.output_fields == output_fields,
{
    SchemaCommand {
        name: String::from_str(name),
        description: String::from_str(description),
        mutating,
        args,
        output_fields,
    }
}

/// An entry of the error table.
fn error_entry(kind: &str, exit_code: i32, retryable: bool, description: &str) -> (res: SchemaError)
    ensures
        res.kind@ == kind@,
        res.exit_code == exit_code,
        res.retryable == retryable,
        res.description@ == description@,
{
    SchemaError { kind: String::from_str(kind), exit_code, retryable, description: String::from_str(description) }
}

/// The entry of the error table for a kind of failure.
fn kind_entry(k: ErrorKind, retryable: bool, description: &str) -> (res: SchemaError)
    ensures
        res.kind@ == kind_name(k),
        res.exit_code == kind_exit_code(k),
        res.retryable == retryable,
        res.description@ == description@,
{
    error_entry(k.name(), k.exit_code(), retryable, description)
}

/// The kinds and exit codes of the error table, in order.
pub open spec fn error_table() -> Seq<(Seq<char>, i32)> {
    seq![
        (kind_name(ErrorKind::Auth), kind_exit_code(ErrorKind::Auth)),
        (kind_name(ErrorKind::NotFound), kind_exit_code(ErrorKind::NotFound)),
        (kind_name(ErrorKind::PermissionDenied), kind_exit_code(ErrorKind::PermissionDenied)),
        (kind_name(ErrorKind::Network), kind_exit_code(ErrorKind::Network)),
        ("confirmation_required"@, 2i32),
        (kind_name(ErrorKind::General), kind_exit_code(ErrorKind::General)),
    ]
}

/// The error table.
fn errors() -> (res: Vec<SchemaError>)
    ensures
        error_kinds_of(res@) == error_table(),
        forall|k: ErrorKind| #[trigger] declares_kind(res@, k),
        declares_confirmation(res@),
        never_conflict(res@),
{
    let mut errs: Vec<SchemaError> = Vec::new();
    errs.push(kind_entry(ErrorKind::Auth, false, "Authentication failed or credentials are invalid."));
    errs.push(kind_entry(ErrorKind::NotFound, false, "The requested resource does not exist on the NAS."));
    errs.push(kind_entry(ErrorKind::PermissionDenied, false, "The authenticated user lacks access to the resource."));
    errs.push(kind_entry(ErrorKind::Network, true, "Failed to reach the NAS. Check host and network connectivity."));
    errs.push(error_entry(
        confirmation_kind(),
        confirmation_exit_code(),
        false,
        "A destructive operation requires --yes confirmation when not in a TTY.",
    ));
    errs.push(kind_entry(ErrorKind::General, false, "Unexpected error."));
    proof {
        assert(error_kinds_of(errs@) =~= error_table());
    }
    proof {
        let ev = error_kinds_of(errs@);
        assert(ev == error_table());
        assert(ev.len() == 6);
        assert(errs@.len() == 6);
        assert(ev[0] == (errs@[0].kind@, errs@[0].exit_code));
        assert(ev[1] == (errs@[1].kind@, errs@[1].exit_code));
        assert(ev[2] == (errs@[2].kind@, errs@[2].exit_code));
        assert(ev[3] == (errs@[3].kind@, errs@[3].exit_code));
        assert(ev[4] == (errs@[4].kind@, errs@[4].exit_code));
        assert(ev[5] == (errs@[5].kind@, errs@[5].exit_code));
        assert forall|k: ErrorKind| #[trigger] declares_kind(errs@, k) by {
            match k {
                ErrorKind::Auth => assert(errs@[0].kind@ == kind_name(k)),
                ErrorKind::NotFound => assert(errs@[1].kind@ == kind_name(k)),
                ErrorKind::PermissionDenied => assert(errs@[2].kind@ == kind_name(k)),
                ErrorKind::Network => assert(errs@[3].kind@ == kind_name(k)),
                ErrorKind::General => assert(errs@[5].kind@ == kind_name(k)),
            }
        }
        reveal_strlit("conflict");
        reveal_strlit("auth");
        reveal_strlit("not_found");
        reveal_strlit("permission_denied");
        reveal_strlit("network_error");
        reveal_strlit("confirmation_required");
        reveal_strlit("general");
        assert forall|i: int| 0 <= i < errs.len() implies #[trigger] errs@[i].kind@ != "conflict"@ by {
            assert("conflict"@.len() == 8);
            if i == 0 {
                assert(errs@[0].kind@ == "auth"@);
                assert("auth"@.len() == 4);
            } else if i == 1 {
                assert(errs@[1].kind@ == "not_found"@);
            } else if i == 2 {
                assert(errs@[2].kind@ == "permission_denied"@);
            } else if i == 3 {
                assert(errs@[3].kind@ == "network_error"@);
            } else if i == 4 {
                assert(errs@[4].kind@ == "confirmation_required"@);
            } else {
                assert(errs@[5].kind@ == "general"@);
            }
        }
        assert(errs@[4].kind@ == "confirmation_required"@ && errs@[4].exit_code == 2);
    }
    errs
}

/// The arguments every command takes.
fn global_args() -> (res: Vec<SchemaArg>)
    ensures
        arg_names(res@) == seq!["--output"@, "--host"@, "--username"@, "--insecure"@, "--password-stdin"@],
        has_arg(res@, "--output"@),
{
    let mut args: Vec<SchemaArg> = Vec::new();
    let mut choices: Vec<String> = Vec::new();
    choices.push(String::from_str("auto"));
    choices.push(String::from_str("text"));
    choices.push(String::from_str("json"));
    args.push(arg("--output", "string", None, Some(ArgDefault::Text(String::from_str("auto"))), choices, "Output format. auto detects TTY and emits JSON when piped."));
    args.push(arg("--host", "string", Some(false), None, Vec::new(), "Override the NAS host for this command (always HTTPS)."));
    args.push(arg("--username", "string", Some(false), None, Vec::new(), "Override the NAS username for this command."));
    args.push(arg("--insecure", "boolean", Some(false), Some(ArgDefault::Flag(false)), Vec::new(), "Skip TLS certificate verification for this command."));
    args.push(arg("--password-stdin", "boolean", Some(false), Some(ArgDefault::Flag(false)), Vec::new(), "Read the password from stdin instead of the saved credentials file."));
    proof {
        assert(arg_names(args@) =~= seq!["--output"@, "--host"@, "--username"@, "--insecure"@, "--password-stdin"@]);
        assert(arg_names(args@)[0] == "--output"@);
        assert(args@[0].name@ == "--output"@);
    }
    args
}

/// The `login` command.
fn command_login() -> (res: SchemaCommand)
    ensures
        res.name@ == "login"@,
        res.mutating == true,
{
    let args: Vec<SchemaArg> = Vec::new();
    let fields: Vec<OutputField> = Vec::new();
    command("login", "Verify credentials against the NAS and save them.", true, args, fields)
}

/// The `info` command.
fn command_info() -> (res: SchemaCommand)
    ensures
        res.name@ == "info"@,
        res.mutating == false,
{
    let args: Vec<SchemaArg> = Vec::new();
    let mut fields: Vec<OutputField> = Vec::new();
    fields.push(field("model", "string | null", None));
    fields.push(field("hostname", "string | null", None));
    fields.push(field("serial", "string | null", None));
    fields.push(field("firmware", "string | null", None));
    fields.push(field("build", "string | null", None));
    fields.push(field("timezone", "string | null", None));
    fields.push(field("uptime", "object | null", Some("Fields: display, days, hours, minutes, seconds, total_seconds.")));
    command("info", "Show static system information (model, firmware, hostname, uptime).", false, args, fields)
}

/// The `status` command.
fn command_status() -> (res: SchemaCommand)
    ensures
        res.name@ == "status"@,
        res.mutating == false,
{
    let args: Vec<SchemaArg> = Vec::new();
    let mut fields: Vec<OutputField> = Vec::new();
    fields.push(field("cpu_usage_pct", "number | null", None));
    fields.push(field("mem_total_mb", "integer | null", None));
    fields.push(field("mem_used_mb", "integer | null", None));
    fields.push(field("mem_free_mb", "integer | null", None));
    fields.push(field("temp_c", "number | null", None));
    fields.push(field("uptime", "object | null", Some("Fields: display, days, hours, minutes, seconds, total_seconds.")));
    command("status", "Show live system resource usage (CPU, RAM, temperature).", false, args, fields)
}

/// The `volumes` command.
fn command_volumes() -> (res: SchemaCommand)
    ensures
        res.name@ == "volumes"@,
        res.mutating == false,
{
    let args: Vec<SchemaArg> = Vec::new();
    let mut fields: Vec<OutputField> = Vec::new();
    fields.push(field("volumes", "array", Some("Array of volume objects with fields: label, status, status_code, pool_id, volume_type.")));
    fields.push(field("disks", "array", Some("Array of disk objects with fields: slot, model, kind, temp_c.")));
    command("volumes", "List storage volumes and installed disks.", false, args, fields)
}

/// The `shares` command.
fn command_shares() -> (res: SchemaCommand)
    ensures
        res.name@ == "shares"@,
        res.mutating == false,
        arg_names(res.args@) == seq!["--limit"@, "--offset"@, "--fields"@],
{
    let mut args: Vec<SchemaArg> = Vec::new();
    args.push(arg("--limit", "integer", Some(false), Some(ArgDefault::Integer(100)), Vec::new(), "Maximum number of shares to return."));
    args.push(arg("--offset", "integer", Some(false), Some(ArgDefault::Integer(0)), Vec::new(), "Number of shares to skip."));
    args.push(arg("--fields", "string", Some(false), None, Vec::new(), "Comma-separated list of fields to include in JSON output."));
    let mut fields: Vec<OutputField> = Vec::new();
    fields.push(field("items", "array", Some("Array of share objects: name, path, items_count.")));
    fields.push(field("total", "integer", None));
    fields.push(field("limit", "integer", None));
    fields.push(field("offset", "integer", None));
    proof {
        assert(arg_names(args@) =~= seq!["--limit"@, "--offset"@, "--fields"@]);
    }
    command("shares", "List NAS shared folders.", false, args, fields)
}

/// The `network` command.
fn command_network() -> (res: SchemaCommand)
    ensures
        res.name@ == "network"@,
        res.mutating == false,
{
    let args: Vec<SchemaArg> = Vec::new();
    let mut fields: Vec<OutputField> = Vec::new();
    fields.push(field("adapters", "array", Some("Array of NIC objects: name, display_name, ip, mask, mac, status, speed_mbps, mode, rx_packets, tx_packets, err_packets.")));
    fields.push(field("dns", "array", Some("List of DNS server addresses.")));
    command("network", "Show network adapter information.", false, args, fields)
}

/// The `config` command.
fn command_config() -> (res: SchemaCommand)
    ensures
        res.name@ == "config"@,
        res.mutating == false,
{
    let args: Vec<SchemaArg> = Vec::new();
    let mut fields: Vec<OutputField> = Vec::new();
    fields.push(field("host", "string | null", None));
    fields.push(field("username", "string | null", None));
    fields.push(field("tls_verify", "boolean", None));
    fields.push(field("config_file", "string", None));
    fields.push(field("credentials_file", "string", None));
    command("config", "Show current saved configuration.", false, args, fields)
}

/// The `dump` command.
fn command_dump() -> (res: SchemaCommand)
    ensures
        res.name@ == "dump"@,
        res.mutating == false,
        arg_names(res.args@) == seq!["dir"@],
{
    let mut args: Vec<SchemaArg> = Vec::new();
    args.push(arg("dir", "string", Some(false), Some(ArgDefault::Text(String::from_str("./qnap-dump"))), Vec::new(), "Directory to write response files into."));
    let fields: Vec<OutputField> = Vec::new();
    proof {
        assert(arg_names(args@) =~= seq!["dir"@]);
    }
    command("dump", "Save raw API responses for debugging and compatibility reporting.", false, args, fields)
}

/// The `schema` command.
fn command_schema() -> (res: SchemaCommand)
    ensures
        res.name@ == "schema"@,
        res.mutating == false,
{
    let args: Vec<SchemaArg> = Vec::new();
    let fields: Vec<OutputField> = Vec::new();
    command("schema", "Print command schema for agent use. Conforms to clispec v0.2.", false, args, fields)
}

/// The `completions` command.
fn command_completions() -> (res: SchemaCommand)
    ensures
        res.name@ == "completions"@,
        res.mutating == false,
        arg_names(res.args@) == seq!["shell"@],
{
    let mut args: Vec<SchemaArg> = Vec::new();
    let mut choices: Vec<String> = Vec::new();
    choices.push(String::from_str("bash"));
    choices.push(String::from_str("fish"));
    choices.push(String::from_str("zsh"));
    choices.push(String::from_str("powershell"));
    choices.push(String::from_str("elvish"));
    args.push(arg("shell", "string", Some(true), None, choices, "Shell to generate completions for."));
    let fields: Vec<OutputField> = Vec::new();
    proof {
        assert(arg_names(args@) =~= seq!["shell"@]);
    }
    command("completions", "Generate shell completion script.", false, args, fields)
}

/// The `files ls` command.
fn command_files_ls() -> (res: SchemaCommand)
    ensures
        res.name@ == "files ls"@,
        res.mutating == false,
        arg_names(res.args@) == seq!["path"@, "--all"@, "--recursive"@, "--limit"@, "--offset"@, "--fields"@],
{
    let mut args: Vec<SchemaArg> = Vec::new();
    args.push(arg("path", "string", Some(true), None, Vec::new(), "Remote path, e.g. /Public or /Backups/photos."));
    args.push(arg("--all", "boolean", Some(false), Some(ArgDefault::Flag(false)), Vec::new(), "Paginate until all results are returned."));
    args.push(arg("--recursive", "boolean", Some(false), Some(ArgDefault::Flag(false)), Vec::new(), "Recursively list all files in subdirectories."));
    args.push(arg("--limit", "integer", Some(false), Some(ArgDefault::Integer(100)), Vec::new(), "Maximum number of items to return."));
    args.push(arg("--offset", "integer", Some(false), Some(ArgDefault::Integer(0)), Vec::new(), "Number of items to skip."));
    args.push(arg("--fields", "string", Some(false), None, Vec::new(), "Comma-separated list of fields to include in JSON output."));
    let mut fields: Vec<OutputField> = Vec::new();
    fields.push(field("items", "array", Some("Array of file objects: entry_type, name, size_bytes, modified, modified_epoch.")));
    fields.push(field("total", "integer", None));
    fields.push(field("limit", "integer", None));
    fields.push(field("offset", "integer", None));
    proof {
        assert(arg_names(args@) =~= seq!["path"@, "--all"@, "--recursive"@, "--limit"@, "--offset"@, "--fields"@]);
    }
    command("files ls", "List files and directories at PATH on the NAS.", false, args, fields)
}

/// The `files stat` command.
fn command_files_stat() -> (res: SchemaCommand)
    ensures
        res.name@ == "files stat"@,
        res.mutating == false,
        arg_names(res.args@) == seq!["path"@],
{
    let mut args: Vec<SchemaArg> = Vec::new();
    args.push(arg("path", "string", Some(true), None, Vec::new(), "Remote path."));
    let mut fields: Vec<OutputField> = Vec::new();
    fields.push(field("path", "string", None));
    fields.push(field("name", "string | null", None));
    fields.push(field("entry_type", "string | null", None));
    fields.push(field("size_bytes", "integer | null", None));
    fields.push(field("modified", "string | null", None));
    fields.push(field("modified_epoch", "integer | null", None));
    fields.push(field("owner", "string | null", None));
    fields.push(field("group", "string | null", None));
    fields.push(field("permissions", "string | null", None));
    fields.push(field("exists", "boolean | null", None));
    fields.push(field("is_link", "boolean | null", None));
    fields.push(field("raw", "object", None));
    proof {
        assert(arg_names(args@) =~= seq!["path"@]);
    }
    command("files stat", "Show normalized metadata for a file or directory.", false, args, fields)
}

/// The `files mkdir` command.
fn command_files_mkdir() -> (res: SchemaCommand)
    ensures
        res.name@ == "files mkdir"@,
        res.mutating == true,
        arg_names(res.args@) == seq!["path"@, "--yes"@],
{
    let mut args: Vec<SchemaArg> = Vec::new();
    args.push(arg("path", "string", Some(true), None, Vec::new(), "Remote path to create, e.g. /Public/newdir."));
    args.push(arg("--yes", "boolean", Some(false), Some(ArgDefault::Flag(false)), Vec::new(), "Confirm the operation without prompting (required when not in a TTY)."));
    let fields: Vec<OutputField> = Vec::new();
    proof {
        assert(arg_names(args@) =~= seq!["path"@, "--yes"@]);
    }
    command("files mkdir", "Create a directory on the NAS.", true, args, fields)
}

/// The `files rm` command.
fn command_files_rm() -> (res: SchemaCommand)
    ensures
        res.name@ == "files rm"@,
        res.mutating == true,
        arg_names(res.args@) == seq!["paths"@, "--yes"@],
{
    let mut args: Vec<SchemaArg> = Vec::new();
    args.push(arg("paths", "string[]", Some(true), None, Vec::new(), "Remote paths to delete."));
    args.push(arg("--yes", "boolean", Some(false), Some(ArgDefault::Flag(false)), Vec::new(), "Confirm the operation without prompting (required when not in a TTY)."));
    let fields: Vec<OutputField> = Vec::new();
    proof {
        assert(arg_names(args@) =~= seq!["paths"@, "--yes"@]);
    }
    command("files rm", "Delete one or more files or directories from the NAS.", true, args, fields)
}

/// The `files mv` command.
fn command_files_mv() -> (res: SchemaCommand)
    ensures
        res.name@ == "files mv"@,
        res.mutating == true,
        arg_names(res.args@) == seq!["src"@, "dst"@, "--yes"@],
{
    let mut args: Vec<SchemaArg> = Vec::new();
    args.push(arg("src", "string", Some(true), None, Vec::new(), "Source remote path."));
    args.push(arg("dst", "string", Some(true), None, Vec::new(), "Destination remote path."));
    args.push(arg("--yes", "boolean", Some(false), Some(ArgDefault::Flag(false)), Vec::new(), "Confirm the operation without prompting (required when not in a TTY)."));
    let fields: Vec<OutputField> = Vec::new();
    proof {
        assert(arg_names(args@) =~= seq!["src"@, "dst"@, "--yes"@]);
    }
    command("files mv", "Move or rename a file or directory on the NAS.", true, args, fields)
}

/// The `files cp` command.
fn command_files_cp() -> (res: SchemaCommand)
    ensures
        res.name@ == "files cp"@,
        res.mutating == true,
        arg_names(res.args@) == seq!["src"@, "dst"@, "--overwrite"@, "--yes"@],
{
    let mut args: Vec<SchemaArg> = Vec::new();
    args.push(arg("src", "string", Some(true), None, Vec::new(), "Source remote path."));
    args.push(arg("dst", "string", Some(true), None, Vec::new(), "Destination remote path."));
    args.push(arg("--overwrite", "boolean", Some(false), Some(ArgDefault::Flag(false)), Vec::new(), "Overwrite if destination exists."));
    args.push(arg("--yes", "boolean", Some(false), Some(ArgDefault::Flag(false)), Vec::new(), "Confirm the operation without prompting (required when not in a TTY)."));
    let fields: Vec<OutputField> = Vec::new();
    proof {
        assert(arg_names(args@) =~= seq!["src"@, "dst"@, "--overwrite"@, "--yes"@]);
    }
    command("files cp", "Copy a file or directory on the NAS.", true, args, fields)
}

/// The `files upload` command.
fn command_files_upload() -> (res: SchemaCommand)
    ensures
        res.name@ == "files upload"@,
        res.mutating == true,
        arg_names(res.args@) == seq!["local"@, "remote_dir"@, "--overwrite"@, "--recursive"@, "--yes"@],
{
    let mut args: Vec<SchemaArg> = Vec::new();
    args.push(arg("local", "string", Some(true), None, Vec::new(), "Local file or directory to upload."));
    args.push(arg("remote_dir", "string", Some(true), None, Vec::new(), "Remote directory to upload into, e.g. /Public."));
    args.push(arg("--overwrite", "boolean", Some(false), Some(ArgDefault::Flag(false)), Vec::new(), "Overwrite if file already exists."));
    args.push(arg("--recursive", "boolean", Some(false), Some(ArgDefault::Flag(false)), Vec::new(), "Recursively upload a directory and its contents."));
    args.push(arg("--yes", "boolean", Some(false), Some(ArgDefault::Flag(false)), Vec::new(), "Confirm the operation without prompting (required when not in a TTY)."));
    let fields: Vec<OutputField> = Vec::new();
    proof {
        assert(arg_names(args@) =~= seq!["local"@, "remote_dir"@, "--overwrite"@, "--recursive"@, "--yes"@]);
    }
    command("files upload", "Upload a local file or directory to the NAS.", true, args, fields)
}

/// The `files download` command.
fn command_files_download() -> (res: SchemaCommand)
    ensures
        res.name@ == "files download"@,
        res.mutating == false,
        arg_names(res.args@) == seq!["remote"@, "local"@, "--recursive"@],
{
    let mut args: Vec<SchemaArg> = Vec::new();
    args.push(arg("remote", "string", Some(true), None, Vec::new(), "Remote file or directory path, e.g. /Public/photos."));
    args.push(arg("local", "string", Some(false), None, Vec::new(), "Local path to save to (defaults to name in current directory)."));
    args.push(arg("--recursive", "boolean", Some(false), Some(ArgDefault::Flag(false)), Vec::new(), "Recursively download a directory and its contents."));
    let fields: Vec<OutputField> = Vec::new();
    proof {
        assert(arg_names(args@) =~= seq!["remote"@, "local"@, "--recursive"@]);
    }
    command("files download", "Download a file or directory from the NAS.", false, args, fields)
}

/// The `files find` command.
fn command_files_find() -> (res: SchemaCommand)
    ensures
        res.name@ == "files find"@,
        res.mutating == false,
        arg_names(res.args@) == seq!["path"@, "pattern"@],
{
    let mut args: Vec<SchemaArg> = Vec::new();
    args.push(arg("path", "string", Some(true), None, Vec::new(), "Remote path to search under, e.g. /Public."));
    args.push(arg("pattern", "string", Some(true), None, Vec::new(), "Glob pattern to match filenames, e.g. *.txt or backup*."));
    let mut fields: Vec<OutputField> = Vec::new();
    fields.push(field("path", "string", None));
    fields.push(field("entry_type", "string", None));
    fields.push(field("size_bytes", "integer | null", None));
    fields.push(field("modified", "string | null", None));
    proof {
        assert(arg_names(args@) =~= seq!["path"@, "pattern"@]);
    }
    command("files find", "Search for files matching a glob pattern on the NAS.", false, args, fields)
}

/// The commands, in the order the description lists them.
fn commands() -> (res: Vec<SchemaCommand>)
    ensures
        command_flags(res@) == seq![("login"@, true), ("info"@, false), ("status"@, false), ("volumes"@, false), ("shares"@, false), ("network"@, false), ("config"@, false), ("dump"@, false), ("schema"@, false), ("completions"@, false), ("files ls"@, false), ("files stat"@, false), ("files mkdir"@, true), ("files rm"@, true), ("files mv"@, true), ("files cp"@, true), ("files upload"@, true), ("files download"@, false), ("files find"@, false)],
        pages(res@, "shares"@),
        pages(res@, "files ls"@),
{
    let mut cmds: Vec<SchemaCommand> = Vec::new();
    cmds.push(command_login());
    cmds.push(command_info());
    cmds.push(command_status());
    cmds.push(command_volumes());
    cmds.push(command_shares());
    cmds.push(command_network());
    cmds.push(command_config());
    cmds.push(command_dump());
    cmds.push(command_schema());
    cmds.push(command_completions());
    cmds.push(command_files_ls());
    cmds.push(command_files_stat());
    cmds.push(command_files_mkdir());
    cmds.push(command_files_rm());
    cmds.push(command_files_mv());
    cmds.push(command_files_cp());
    cmds.push(command_files_upload());
    cmds.push(command_files_download());
    cmds.push(command_files_find());
    proof {
        assert(command_flags(cmds@) =~= seq![("login"@, true), ("info"@, false), ("status"@, false), ("volumes"@, false), ("shares"@, false), ("network"@, false), ("config"@, false), ("dump"@, false), ("schema"@, false), ("completions"@, false), ("files ls"@, false), ("files stat"@, false), ("files mkdir"@, true), ("files rm"@, true), ("files mv"@, true), ("files cp"@, true), ("files upload"@, true), ("files download"@, false), ("files find"@, false)]);
        assert(command_flags(cmds@)[4].0 == "shares"@);
        assert(arg_names(cmds@[4].args@).len() == 3);
        assert(arg_names(cmds@[4].args@)[0] == "--limit"@);
        assert(cmds@[4].args@[0].name@ == "--limit"@);
        assert(arg_names(cmds@[4].args@)[1] == "--offset"@);
        assert(cmds@[4].args@[1].name@ == "--offset"@);
        assert(command_flags(cmds@)[10].0 == "files ls"@);
        assert(arg_names(cmds@[10].args@).len() == 6);
        assert(arg_names(cmds@[10].args@)[3] == "--limit"@);
        assert(cmds@[10].args@[3].name@ == "--limit"@);
        assert(arg_names(cmds@[10].args@)[4] == "--offset"@);
        assert(cmds@[10].args@[4].name@ == "--offset"@);
        assert(command_flags(cmds@).len() == 19);
        assert(command_flags(cmds@)[4].0 == "shares"@);
        assert(command_flags(cmds@)[10].0 == "files ls"@);
        assert(cmds@[4].name@ == "shares"@);
        assert(cmds@[10].name@ == "files ls"@);
    }
    cmds
}

/// The description of the command line, for agents and scripts.
pub fn cli_schema() -> (res: CliSchema)
    ensures
        command_flags(res.commands@) == seq![("login"@, true), ("info"@, false), ("status"@, false), ("volumes"@, false), ("shares"@, false), ("network"@, false), ("config"@, false), ("dump"@, false), ("schema"@, false), ("completions"@, false), ("files ls"@, false), ("files stat"@, false), ("files mkdir"@, true), ("files rm"@, true), ("files mv"@, true), ("files cp"@, true), ("files upload"@, true), ("files download"@, false), ("files find"@, false)],
        res.clispec@ == "0.2"@,
        res.name@ == "qnap"@,
        error_kinds_of(res.errors@) == error_table(),
        forall|k: ErrorKind| #[trigger] declares_kind(res.errors@, k),
        declares_confirmation(res.errors@),
        never_conflict(res.errors@),
        has_arg(res.global_args@, "--output"@),
        pages(res.commands@, "shares"@),
        pages(res.commands@, "files ls"@),
{
    let global = global_args();
    let cmds = commands();
    let errs = errors();
    CliSchema {
        clispec: String::from_str("0.2"),
        name: String::from_str("qnap"),
        description: String::from_str("CLI for QNAP NAS management."),
        global_args: global,
        commands: cmds,
        errors: errs,
    }
}

/// Every kind and exit code that an error is reported under is declared in
/// the error table of the description.
pub proof fn law_reported_errors_are_declared(msg: Seq<char>)
    ensures
        error_table().contains((kind_name(error_kind_of(msg)), kind_exit_code(error_kind_of(msg)))),
{
    let k = error_kind_of(msg);
    let t = error_table();
    match k {
        ErrorKind::Auth => assert(t[0] == (kind_name(k), kind_exit_code(k))),
        ErrorKind::NotFound => assert(t[1] == (kind_name(k), kind_exit_code(k))),
        ErrorKind::PermissionDenied => assert(t[2] == (kind_name(k), kind_exit_code(k))),
        ErrorKind::Network => assert(t[3] == (kind_name(k), kind_exit_code(k))),
        ErrorKind::General => assert(t[5] == (kind_name(k), kind_exit_code(k))),
    }
}

} // verus!
