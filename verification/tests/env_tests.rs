use qnap::config::{apply_environment, apply_runtime_overrides, parse_insecure_flag, Config, ConfigError, HostError};
use qnap::text::{parse_trimmed_u64, push_decimal};

fn saved() -> Config {
    Config {
        host: Some("https://saved".to_string()),
        username: Some("saved-user".to_string()),
        password: Some("saved-pw".to_string()),
        insecure: Some(false),
    }
}

#[test]
fn environment_overrides_files() {
    let c = apply_environment(
        saved(),
        Some("nas.local".to_string()),
        Some("admin".to_string()),
        Some("secret".to_string()),
        Some("yes".to_string()),
    )
    .unwrap();
    assert_eq!(c.host.as_deref(), Some("https://nas.local"));
    assert_eq!(c.username.as_deref(), Some("admin"));
    assert_eq!(c.password.as_deref(), Some("secret"));
    assert_eq!(c.insecure, Some(true));
}

#[test]
fn empty_environment_keeps_files() {
    let c = apply_environment(saved(), Some(String::new()), Some(String::new()), None, Some("maybe".to_string()))
        .unwrap();
    assert_eq!(c.host.as_deref(), Some("https://saved"));
    assert_eq!(c.username.as_deref(), Some("saved-user"));
    assert_eq!(c.password.as_deref(), Some("saved-pw"));
    assert_eq!(c.insecure, Some(false));
}

#[test]
fn environment_host_must_be_https() {
    assert!(matches!(
        apply_environment(saved(), Some("http://nas".to_string()), None, None, None),
        Err(ConfigError::InvalidHost(HostError::PlainHttp))
    ));
}

#[test]
fn command_line_host_wins() {
    let c = apply_environment(saved(), Some("env.local".to_string()), None, None, None).unwrap();
    let c = apply_runtime_overrides(c, Some("cli.local"), None, false, false).unwrap();
    assert_eq!(c.host.as_deref(), Some("https://cli.local"));
}

#[test]
fn overrides_settle_after_one_application() {
    let once = apply_runtime_overrides(saved(), Some(" nas/ "), Some(" bob "), false, true).unwrap();
    let twice = apply_runtime_overrides(once.clone(), Some(" nas/ "), Some(" bob "), false, true).unwrap();
    assert_eq!(once.host, twice.host);
    assert_eq!(once.username, twice.username);
    assert_eq!(once.password, twice.password);
    assert_eq!(once.insecure, twice.insecure);
}

#[test]
fn insecure_flag_values() {
    for t in ["1", "true", "yes", " yes "] {
        assert_eq!(parse_insecure_flag(t), Some(true));
    }
    for t in ["0", "false", "no"] {
        assert_eq!(parse_insecure_flag(t), Some(false));
    }
    assert_eq!(parse_insecure_flag("TRUE"), None);
    assert_eq!(parse_insecure_flag(""), None);
}

#[test]
fn decimal_roundtrip() {
    for n in [0u64, 7, 10, 12345, u64::MAX] {
        let mut s = String::new();
        push_decimal(&mut s, n);
        assert_eq!(s, n.to_string());
        assert_eq!(parse_trimmed_u64(&s), Some(n));
    }
}
