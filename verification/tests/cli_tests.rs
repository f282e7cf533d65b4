use qnap::cli::{
    clean_parse_error, confirmation_exit_code, confirmation_kind, confirmation_refusal, default_download_name, effective_format,
    error_kind_and_code, field_wanted, kv_lines, paginate, parse_field_list, strip_ansi,
    wants_json, ErrorKind, OutputFormat,
};

#[test]
fn error_kind_network_error() {
    let (kind, code) = error_kind_and_code("failed to reach NAS: error sending request");
    assert_eq!(kind, "network_error");
    assert_eq!(code, 5);
}

#[test]
fn error_kind_permission_denied() {
    let (kind, code) = error_kind_and_code("rm: permission denied: /Public/locked");
    assert_eq!(kind, "permission_denied");
    assert_eq!(code, 3);
}

#[test]
fn error_kind_not_found() {
    let (kind, code) = error_kind_and_code("path not found: /Public/missing.txt");
    assert_eq!(kind, "not_found");
    assert_eq!(code, 2);
}

#[test]
fn error_kind_general() {
    let (kind, code) = error_kind_and_code("something unexpected happened");
    assert_eq!(kind, "general");
    assert_eq!(code, 1);
}

#[test]
fn error_kind_auth_and_precedence() {
    assert_eq!(error_kind_and_code("authentication failed (errorValue=6)"), ("auth", 4));
    assert_eq!(error_kind_and_code("Invalid login"), ("auth", 4));
    assert_eq!(error_kind_and_code("error sending request: not found"), ("network_error", 5));
    assert_eq!(error_kind_and_code("authPassed missing: permission denied"), ("auth", 4));
    assert_eq!(ErrorKind::NotFound.exit_code(), 2);
}

#[test]
fn output_format_rules() {
    assert_eq!(effective_format(true, OutputFormat::Text), OutputFormat::Json);
    assert_eq!(effective_format(false, OutputFormat::Auto), OutputFormat::Auto);
    assert!(wants_json(OutputFormat::Auto, false));
    assert!(!wants_json(OutputFormat::Auto, true));
    assert!(!wants_json(OutputFormat::Text, false));
    assert!(wants_json(OutputFormat::Json, true));
}

#[test]
fn confirmation_rules() {
    assert_eq!(confirmation_refusal("files rm", true, false), None);
    assert_eq!(confirmation_refusal("files rm", false, true), None);
    assert_eq!(
        confirmation_refusal("files rm", false, false),
        Some("files rm requires confirmation".to_string())
    );
}

#[test]
fn strip_ansi_sequences() {
    assert_eq!(strip_ansi("\x1b[1m\x1b[31merror:\x1b[0m bad"), "error: bad");
    assert_eq!(strip_ansi("plain text"), "plain text");
    assert_eq!(strip_ansi("a\x1b[31"), "a");
    assert_eq!(clean_parse_error("  \x1b[31merror\x1b[0m \n"), "error");
}

#[test]
fn download_names() {
    assert_eq!(default_download_name("/Public/photos/"), "photos");
    assert_eq!(default_download_name("/Public/a.txt"), "a.txt");
    assert_eq!(default_download_name("plain"), "plain");
    assert_eq!(default_download_name("///"), "");
}

#[test]
fn kv_lines_align_keys() {
    let pairs = vec![
        ("model".to_string(), "TS-228A".to_string()),
        ("serial".to_string(), "Q1".to_string()),
        ("fw".to_string(), "5.2".to_string()),
    ];
    assert_eq!(
        kv_lines(&pairs),
        vec!["  model   TS-228A".to_string(), "  serial  Q1".to_string(), "  fw      5.2".to_string()]
    );
    assert!(kv_lines(&Vec::new()).is_empty());
}

#[test]
fn hidden_json_flag_sets_effective_format_to_json() {
    assert_eq!(effective_format(true, OutputFormat::Auto), OutputFormat::Json);
}

#[test]
fn field_list_is_split_trimmed_and_filtered() {
    assert_eq!(parse_field_list(" id , name,,size "), vec!["id", "name", "size"]);
    assert!(parse_field_list("").is_empty());
    assert!(parse_field_list(" , ").is_empty());
}

#[test]
fn field_selection_keeps_named_keys() {
    let wanted = parse_field_list("id,name");
    assert!(field_wanted(&wanted, "id"));
    assert!(field_wanted(&wanted, "name"));
    assert!(!field_wanted(&wanted, "size"));
    assert!(field_wanted(&Vec::new(), "anything"));
}

#[test]
fn paginate_takes_the_requested_window() {
    let items: Vec<u32> = (0..10).collect();
    assert_eq!(paginate(items.clone(), 3, 2), vec![2, 3, 4]);
    assert_eq!(paginate(items.clone(), 5, 8), vec![8, 9]);
    assert!(paginate(items.clone(), 5, 20).is_empty());
    assert!(paginate(items, 0, 0).is_empty());
}

#[test]
fn confirmation_is_reported_with_its_own_kind() {
    assert_eq!(confirmation_kind(), "confirmation_required");
    assert_eq!(confirmation_exit_code(), 2);
}

#[test]
fn kv_width_counts_key_bytes() {
    let pairs = vec![("é".to_string(), "x".to_string()), ("ab".to_string(), "y".to_string())];
    assert_eq!(kv_lines(&pairs), vec!["  é   x".to_string(), "  ab  y".to_string()]);
    assert_eq!(kv_lines(&vec![("é".to_string(), "x".to_string())]), vec!["  é   x".to_string()]);
}
