use qnap::config::{
    apply_runtime_overrides, base_url, check_password, check_username, config_pairs, login_inputs,
    login_prompts, normalize_host_input, Config, ConfigError, HostError, Prompt,
};

fn config(host: Option<&str>, user: Option<&str>, pwd: Option<&str>, insecure: Option<bool>) -> Config {
    Config {
        host: host.map(|s| s.to_string()),
        username: user.map(|s| s.to_string()),
        password: pwd.map(|s| s.to_string()),
        insecure,
    }
}

#[test]
fn test_normalize_host_input_accepts_ip() {
    assert_eq!(normalize_host_input("192.168.1.50").unwrap(), "https://192.168.1.50");
}

#[test]
fn test_normalize_host_input_accepts_https_url() {
    assert_eq!(normalize_host_input("https://nas.local").unwrap(), "https://nas.local");
}

#[test]
fn test_normalize_host_input_trims_whitespace() {
    assert_eq!(normalize_host_input("  nas.local  ").unwrap(), "https://nas.local");
}

#[test]
fn test_normalize_host_input_accepts_host_with_port() {
    assert_eq!(normalize_host_input("nas.local:8080").unwrap(), "https://nas.local:8080");
}

#[test]
fn test_normalize_host_input_rejects_http() {
    assert!(normalize_host_input("http://nas.local").is_err());
}

#[test]
fn test_normalize_host_input_rejects_empty() {
    assert!(normalize_host_input("").is_err());
}

#[test]
fn normalize_host_input_errors_and_details() {
    assert_eq!(normalize_host_input("   "), Err(HostError::Empty));
    assert_eq!(normalize_host_input("https://"), Err(HostError::Empty));
    assert_eq!(normalize_host_input("HTTP://nas"), Err(HostError::PlainHttp));
    assert_eq!(normalize_host_input("ftp://nas"), Err(HostError::UnsupportedScheme));
    assert_eq!(normalize_host_input("HTTPS://nas.local:8443/").unwrap(), "https://nas.local:8443");
    assert_eq!(normalize_host_input("nas.local// ").unwrap(), "https://nas.local");
}

#[test]
fn normalize_host_input_is_idempotent() {
    for input in ["nas.local", " https://nas.local:8443/ ", "10.0.0.2"] {
        let once = normalize_host_input(input).unwrap();
        assert_eq!(normalize_host_input(&once).unwrap(), once);
        assert_eq!(base_url(&once), once);
    }
}

#[test]
fn base_url_matches_client_rules() {
    assert_eq!(base_url("nas.local/"), "https://nas.local");
    assert_eq!(base_url("https://nas.local//"), "https://nas.local");
    assert_eq!(base_url("http://127.0.0.1:8080"), "http://127.0.0.1:8080");
    assert_eq!(base_url("httpbox.local"), "https://httpbox.local");
    assert_eq!(base_url("httpbox.local/"), "https://httpbox.local");
}

#[test]
fn config_getters() {
    let c = config(Some("h"), None, Some("p"), None);
    assert_eq!(c.host(), Ok("h"));
    assert_eq!(c.username(), Err(ConfigError::MissingUsername));
    assert_eq!(c.password(), Ok("p"));
    assert!(!c.insecure());
    assert_eq!(config(None, None, None, Some(true)).host(), Err(ConfigError::MissingHost));
    assert_eq!(config(None, None, None, Some(true)).password(), Err(ConfigError::MissingPassword));
    assert!(config(None, None, None, Some(true)).insecure());
    let d = Config::default();
    assert!(d.host.is_none() && d.username.is_none() && d.password.is_none() && d.insecure.is_none());
}

#[test]
fn config_error_messages() {
    assert_eq!(ConfigError::MissingHost.message(), "no host configured — run `qnap login` first");
    assert_eq!(ConfigError::EmptyUsername.message(), "username must not be empty");
    assert_eq!(ConfigError::InvalidHost(HostError::Empty).message(), "host must not be empty");
}

#[test]
fn overrides_apply_in_order() {
    let c = config(Some("https://old"), Some("old"), Some("pw"), Some(true));
    let c = apply_runtime_overrides(c, Some("nas.local"), Some("  admin "), false, true).unwrap();
    assert_eq!(c.host.as_deref(), Some("https://nas.local"));
    assert_eq!(c.username.as_deref(), Some("admin"));
    assert_eq!(c.password.as_deref(), Some("pw"));
    assert_eq!(c.insecure, Some(false));
    let c = apply_runtime_overrides(c, None, None, true, true).unwrap();
    assert_eq!(c.insecure, Some(true));
    let c = apply_runtime_overrides(c, None, None, false, false).unwrap();
    assert_eq!(c.insecure, Some(true));
}

#[test]
fn overrides_refuse_bad_values() {
    let c = config(None, None, None, None);
    assert!(matches!(
        apply_runtime_overrides(c, Some("http://nas"), None, false, false),
        Err(ConfigError::InvalidHost(HostError::PlainHttp))
    ));
    let c = config(None, None, None, None);
    assert!(matches!(
        apply_runtime_overrides(c, None, Some("   "), false, false),
        Err(ConfigError::EmptyUsername)
    ));
}

#[test]
fn username_and_password_checks() {
    assert_eq!(check_username(" bob ").unwrap(), "bob");
    assert_eq!(check_username(" "), Err(ConfigError::EmptyUsername));
    assert_eq!(check_password("s".to_string()).unwrap(), "s");
    assert_eq!(check_password(String::new()), Err(ConfigError::EmptyPassword));
}

#[test]
fn login_inputs_order_of_errors() {
    assert!(matches!(login_inputs(&config(None, None, None, None), None), Err(ConfigError::MissingHost)));
    assert!(matches!(
        login_inputs(&config(Some("nas"), None, None, None), None),
        Err(ConfigError::MissingPassword)
    ));
    assert!(matches!(
        login_inputs(&config(Some("nas"), None, None, None), Some("pw")),
        Err(ConfigError::MissingUsername)
    ));
    let li = login_inputs(&config(Some("nas/"), Some("admin"), Some("saved"), None), Some("given")).unwrap();
    assert_eq!(li.base_url, "https://nas");
    assert_eq!(li.username, "admin");
    assert_eq!(li.password, "given");
    let li = login_inputs(&config(Some("nas"), Some("admin"), Some("saved"), None), None).unwrap();
    assert_eq!(li.password, "saved");
}

#[test]
fn login_prompts_plan() {
    let p = login_prompts(&config(None, Some("admin"), None, None), false);
    assert!(matches!(p.host, Prompt::Ask { initial: None }));
    assert!(matches!(p.username, Prompt::Ask { initial: Some(ref u) } if u == "admin"));
    assert!(p.ask_tls);
    let p = login_prompts(&config(Some("https://nas"), Some("admin"), None, Some(false)), true);
    assert!(matches!(p.host, Prompt::Keep));
    assert!(matches!(p.username, Prompt::Keep));
    assert!(!p.ask_tls);
}

#[test]
fn config_pairs_table() {
    let pairs = config_pairs(&config(None, Some("admin"), None, Some(true)), "/c.toml", "/k.toml");
    assert_eq!(
        pairs,
        vec![
            ("host".to_string(), "(not set)".to_string()),
            ("username".to_string(), "admin".to_string()),
            ("tls_verify".to_string(), "false".to_string()),
            ("config_file".to_string(), "/c.toml".to_string()),
            ("credentials_file".to_string(), "/k.toml".to_string()),
        ]
    );
}
