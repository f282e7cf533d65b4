use qnap::config::{Config, ConfigError};
use qnap::session::{check_login_response, login_form, login_form_encoded, send_error_message_for, LoginError, Session};

fn auth_response(passed: &str, sid: &str, error: &str) -> String {
    format!(
        "<QDocRoot><authPassed><![CDATA[{}]]></authPassed><authSid><![CDATA[{}]]></authSid><errorValue><![CDATA[{}]]></errorValue></QDocRoot>",
        passed, sid, error
    )
}

fn session() -> Session {
    let config = Config {
        host: Some("nas.local".to_string()),
        username: Some("admin".to_string()),
        password: None,
        insecure: Some(false),
    };
    Session::new(&config).unwrap()
}

#[test]
fn test_login_success() {
    let mut s = session();
    let sid = s.record_login(&auth_response("1", "abc123def456", "")).unwrap();
    assert_eq!(sid, "abc123def456");
    assert_eq!(s.sid.as_deref(), Some("abc123def456"));
}

#[test]
fn test_login_wrong_password() {
    let mut s = session();
    let err = s.record_login(&auth_response("0", "", "6")).unwrap_err();
    assert!(err.message().contains("authentication failed"), "unexpected error: {}", err.message());
    assert!(err.message().contains("errorValue=6"));
    match s.record_login(&auth_response("0", "", "6")) {
        Err(LoginError::AuthFailed { error_value }) => assert_eq!(error_value, "6"),
        _ => panic!("expected an authentication failure"),
    }
    assert_eq!(s.sid, None);
}

#[test]
fn test_login_missing_sid_in_response() {
    let mut s = session();
    let err = s.record_login("<QDocRoot><authPassed>1</authPassed></QDocRoot>").unwrap_err();
    assert!(err.message().contains("no authSid"), "unexpected error: {}", err.message());
    match check_login_response("<QDocRoot><authPassed>1</authPassed></QDocRoot>") {
        Err(LoginError::MissingSid { excerpt }) => {
            assert_eq!(excerpt, "<QDocRoot><authPassed>1</authPassed></QDocRoot>")
        }
        _ => panic!("expected a missing session id"),
    }
    let long = format!("<authPassed>1</authPassed>{}", "x".repeat(2000));
    match check_login_response(&long) {
        Err(LoginError::MissingSid { excerpt }) => assert_eq!(excerpt.len(), 1000),
        _ => panic!("expected a missing session id"),
    }
}

#[test]
fn missing_sid_excerpt_is_cut_at_a_char_boundary() {
    // 1001 bytes; byte 1000 falls inside the two-byte final character.
    let body = format!("<authPassed>1</authPassed>{}\u{e9}", "a".repeat(973));
    assert_eq!(body.len(), 1001);
    let err = check_login_response(&body).unwrap_err();
    assert!(err.message().contains("no authSid"));
    match err {
        LoginError::MissingSid { excerpt } => {
            assert_eq!(excerpt.len(), 999);
            assert_eq!(excerpt, body[..999]);
        }
        _ => panic!("expected a missing session id"),
    }
    let wide = format!("<authPassed>1</authPassed>{}", "\u{e9}".repeat(1000));
    match check_login_response(&wide) {
        Err(LoginError::MissingSid { excerpt }) => assert_eq!(excerpt.len(), 1000),
        _ => panic!("expected a missing session id"),
    }
}

#[test]
fn login_answer_without_passed_field() {
    match check_login_response("<QDocRoot/>") {
        Err(LoginError::AuthFailed { error_value }) => assert_eq!(error_value, ""),
        _ => panic!("expected an authentication failure"),
    }
}

#[test]
fn test_login_sends_base64_encoded_password() {
    let form = login_form("admin", "my-secret");
    assert_eq!(
        form,
        vec![
            ("user".to_string(), "admin".to_string()),
            ("pwd".to_string(), "bXktc2VjcmV0".to_string()),
            ("serviceKey".to_string(), "1".to_string()),
            ("client_app".to_string(), "qnap-cli".to_string()),
        ]
    );
    assert_eq!(login_form("a", "correct-password")[1].1, "Y29ycmVjdC1wYXNzd29yZA==");
    assert_eq!(login_form_encoded("u", "p")[1].1, "p");
}

#[test]
fn test_get_cgi_appends_sid() {
    let mut s = session();
    let params = vec![("subfunc".to_string(), "sysinfo".to_string())];
    assert_eq!(s.query(&params).last().unwrap(), &("sid".to_string(), String::new()));
    s.record_login(&auth_response("1", "test-sid-123", "")).unwrap();
    let q = s.query(&params);
    assert_eq!(
        q,
        vec![
            ("subfunc".to_string(), "sysinfo".to_string()),
            ("sid".to_string(), "test-sid-123".to_string()),
        ]
    );
    assert_eq!(
        s.url("/cgi-bin/management/manaRequest.cgi"),
        "https://nas.local/cgi-bin/management/manaRequest.cgi"
    );
    assert_eq!(s.login_url(), "https://nas.local/cgi-bin/authLogin.cgi");
}

#[test]
fn last_granted_sid_is_sent_after_a_series_of_logins() {
    let mut s = session();
    let params = vec![("func".to_string(), "get_tree".to_string())];
    assert!(s.record_login(&auth_response("0", "", "-1")).is_err());
    assert_eq!(s.query(&params)[1].1, "");
    s.record_login(&auth_response("1", "first", "")).unwrap();
    s.record_login(&auth_response("1", "second", "")).unwrap();
    assert!(s.record_login(&auth_response("0", "third", "-2")).is_err());
    assert!(s.record_login("<authPassed>1</authPassed>").is_err());
    assert_eq!(
        s.query(&params),
        vec![("func".to_string(), "get_tree".to_string()), ("sid".to_string(), "second".to_string())]
    );
    assert_eq!(s.base_url, "https://nas.local");
}

#[test]
fn session_needs_host() {
    let config = Config { host: None, username: None, password: None, insecure: None };
    assert!(matches!(Session::new(&config), Err(ConfigError::MissingHost)));
}

#[test]
fn login_error_messages() {
    let e = check_login_response(&auth_response("0", "", "6")).unwrap_err();
    assert_eq!(e.message(), "authentication failed (errorValue=6)");
    assert!(e.message().contains("authentication failed"));
    let e = check_login_response("<authPassed>1</authPassed>").unwrap_err();
    assert_eq!(
        e.message(),
        "login succeeded but no authSid in response\n\nRaw response:\n<authPassed>1</authPassed>"
    );
}

#[test]
fn send_error_messages() {
    assert_eq!(
        send_error_message_for("invalid peer certificate: UnknownIssuer"),
        "TLS certificate error — retry with `--insecure` to skip verification\n  (invalid peer certificate: UnknownIssuer)"
    );
    assert_eq!(send_error_message_for("connection refused"), "failed to reach NAS: connection refused");
}
