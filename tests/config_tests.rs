use pgvpd::config::{apply_config_file, parse_pool_mode, Config, PoolMode};

#[test]
fn parse_basic_config_file() {
    let mut config = Config::default();
    apply_config_file(
        &mut config,
        r#"
port = 7777
upstream_host = db.example.com
upstream_port = 5433
log_level = debug
"#,
    );
    assert_eq!(config.listen_port, 7777);
    assert_eq!(config.upstream_host, "db.example.com");
    assert_eq!(config.upstream_port, 5433);
    assert_eq!(config.log_level, "debug");
}

#[test]
fn parse_quoted_values() {
    let mut config = Config::default();
    apply_config_file(
        &mut config,
        r#"
upstream_host = "db.example.com"
pool_password = 'my secret'
"#,
    );
    assert_eq!(config.upstream_host, "db.example.com");
    assert_eq!(config.pool_password, Some("my secret".into()));
}

#[test]
fn comments_and_blank_lines_ignored() {
    let mut config = Config::default();
    apply_config_file(
        &mut config,
        r#"
# This is a comment
port = 9999

  # Another comment
upstream_port = 5433
"#,
    );
    assert_eq!(config.listen_port, 9999);
    assert_eq!(config.upstream_port, 5433);
}

#[test]
fn unknown_keys_ignored() {
    let mut config = Config::default();
    apply_config_file(&mut config, "unknown_key = some_value\nport = 8888\n");
    assert_eq!(config.listen_port, 8888);
}

#[test]
fn lines_without_equals_ignored() {
    let mut config = Config::default();
    apply_config_file(&mut config, "no equals sign here\nport = 8888\n");
    assert_eq!(config.listen_port, 8888);
}

#[test]
fn csv_context_variables() {
    let mut config = Config::default();
    apply_config_file(&mut config, "context_variables = app.tenant_id, app.user_id, app.role\n");
    assert_eq!(config.context_variables, vec!["app.tenant_id", "app.user_id", "app.role"]);
}

#[test]
fn pool_mode_parsing() {
    let mut config = Config::default();
    apply_config_file(&mut config, "pool_mode = session\n");
    assert_eq!(config.pool_mode, PoolMode::Session);

    let mut config = Config::default();
    apply_config_file(&mut config, "pool_mode = none\n");
    assert_eq!(config.pool_mode, PoolMode::Off);

    let mut config = Config::default();
    apply_config_file(&mut config, "pool_mode = garbage\n");
    assert_eq!(config.pool_mode, PoolMode::Off);
}

#[test]
fn tls_config_from_file() {
    let mut config = Config::default();
    apply_config_file(&mut config, "tls_port = 6433\ntls_cert = /path/to/cert.pem\ntls_key = /path/to/key.pem\n");
    assert_eq!(config.tls_port, Some(6433));
    assert_eq!(config.tls_cert, Some("/path/to/cert.pem".into()));
    assert_eq!(config.tls_key, Some("/path/to/key.pem".into()));
}

#[test]
fn upstream_tls_booleans() {
    let mut config = Config::default();
    apply_config_file(&mut config, "upstream_tls = true\n");
    assert!(config.upstream_tls);

    let mut config = Config::default();
    apply_config_file(&mut config, "upstream_tls = yes\n");
    assert!(config.upstream_tls);

    let mut config = Config::default();
    apply_config_file(&mut config, "upstream_tls = 1\n");
    assert!(config.upstream_tls);

    let mut config = Config::default();
    apply_config_file(&mut config, "upstream_tls = false\n");
    assert!(!config.upstream_tls);

    let mut config = Config::default();
    apply_config_file(&mut config, "upstream_tls_verify = false\n");
    assert!(!config.upstream_tls_verify);

    let mut config = Config::default();
    apply_config_file(&mut config, "upstream_tls_verify = no\n");
    assert!(!config.upstream_tls_verify);
}

#[test]
fn tenant_lists_from_file() {
    let mut config = Config::default();
    apply_config_file(&mut config, "tenant_allow = alpha, beta, gamma\n");
    assert_eq!(config.tenant_allow, Some(vec!["alpha".into(), "beta".into(), "gamma".into()]));

    let mut config = Config::default();
    apply_config_file(&mut config, "tenant_deny = bad_tenant\n");
    assert_eq!(config.tenant_deny, Some(vec!["bad_tenant".into()]));
}

#[test]
fn all_numeric_fields_parse() {
    let mut config = Config::default();
    apply_config_file(
        &mut config,
        r#"
pool_size = 50
pool_idle_timeout = 600
pool_checkout_timeout = 10
handshake_timeout = 60
tenant_max_connections = 100
tenant_rate_limit = 50
tenant_query_timeout = 30
"#,
    );
    assert_eq!(config.pool_size, 50);
    assert_eq!(config.pool_idle_timeout, 600);
    assert_eq!(config.pool_checkout_timeout, 10);
    assert_eq!(config.handshake_timeout_secs, 60);
    assert_eq!(config.tenant_max_connections, Some(100));
    assert_eq!(config.tenant_rate_limit, Some(50));
    assert_eq!(config.tenant_query_timeout, Some(30));
}

#[test]
fn invalid_numeric_values_are_ignored() {
    let mut config = Config::default();
    apply_config_file(&mut config, "port = not_a_number\n");
    assert_eq!(config.listen_port, 6432);
}

#[test]
fn out_of_range_port_is_ignored() {
    let mut config = Config::default();
    apply_config_file(&mut config, "port = 70000\nupstream_port = +5433\n");
    assert_eq!(config.listen_port, 6432);
    assert_eq!(config.upstream_port, 5433);
}

#[test]
fn key_aliases() {
    let mut config = Config::default();
    apply_config_file(&mut config, "listen_port = 7777\n");
    assert_eq!(config.listen_port, 7777);

    let mut config = Config::default();
    apply_config_file(&mut config, "host = 0.0.0.0\n");
    assert_eq!(config.listen_host, "0.0.0.0");

    let mut config = Config::default();
    apply_config_file(&mut config, "separator = +\n");
    assert_eq!(config.tenant_separator, "+");

    let mut config = Config::default();
    apply_config_file(&mut config, "superuser = admin, root\n");
    assert_eq!(config.superuser_bypass, vec!["admin", "root"]);
}

#[test]
fn validate_default_config_passes() {
    let config = Config::default();
    assert!(config.validate().is_ok());
}

#[test]
fn validate_tls_port_without_cert_fails() {
    let mut config = Config::default();
    config.tls_port = Some(6433);
    assert!(config.validate().is_err());
    assert!(config.validate().unwrap_err().contains("tls_cert"));
}

#[test]
fn validate_tls_port_with_cert_and_key_passes() {
    let mut config = Config::default();
    config.tls_port = Some(6433);
    config.tls_cert = Some("/tmp/cert.pem".into());
    config.tls_key = Some("/tmp/key.pem".into());
    assert!(config.validate().is_ok());
}

#[test]
fn validate_zero_handshake_timeout_fails() {
    let mut config = Config::default();
    config.handshake_timeout_secs = 0;
    assert!(config.validate().is_err());
    assert!(config.validate().unwrap_err().contains("handshake_timeout"));
}

#[test]
fn validate_session_pool_without_password_fails() {
    let mut config = Config::default();
    config.pool_mode = PoolMode::Session;
    config.upstream_password = Some("pass".into());
    assert!(config.validate().is_err());
    assert!(config.validate().unwrap_err().contains("pool_password"));
}

#[test]
fn validate_session_pool_without_upstream_password_fails() {
    let mut config = Config::default();
    config.pool_mode = PoolMode::Session;
    config.pool_password = Some("pass".into());
    assert!(config.validate().is_err());
    assert!(config.validate().unwrap_err().contains("upstream_password"));
}

#[test]
fn validate_session_pool_with_zero_pool_size_fails() {
    let mut config = Config::default();
    config.pool_mode = PoolMode::Session;
    config.pool_password = Some("pass".into());
    config.upstream_password = Some("pass".into());
    config.pool_size = 0;
    assert!(config.validate().is_err());
    assert!(config.validate().unwrap_err().contains("pool_size"));
}

#[test]
fn validate_session_pool_fully_configured_passes() {
    let mut config = Config::default();
    config.pool_mode = PoolMode::Session;
    config.pool_password = Some("pass".into());
    config.upstream_password = Some("pass".into());
    assert!(config.validate().is_ok());
}

#[test]
fn validate_resolvers_file_not_found_fails() {
    let mut config = Config::default();
    config.resolvers = Some("/nonexistent/path/resolvers.toml".into());
    assert!(config.validate().is_err());
    assert!(config.validate().unwrap_err().contains("resolvers file not found"));
}

#[test]
fn validate_with_found_resolvers_passes() {
    let mut config = Config::default();
    config.resolvers = Some("/some/resolvers.toml".into());
    assert!(config.validate_with(true).is_ok());
    assert_eq!(
        config.validate_with(false).unwrap_err(),
        "resolvers file not found: /some/resolvers.toml"
    );
}

#[test]
fn validate_both_allow_and_deny_fails() {
    let mut config = Config::default();
    config.tenant_allow = Some(vec!["a".into()]);
    config.tenant_deny = Some(vec!["b".into()]);
    assert!(config.validate().is_err());
    assert!(config.validate().unwrap_err().contains("cannot both be set"));
}

#[test]
fn has_tenant_limits_detection() {
    let config = Config::default();
    assert!(!config.has_tenant_limits());

    let mut config = Config::default();
    config.tenant_allow = Some(vec!["a".into()]);
    assert!(config.has_tenant_limits());

    let mut config = Config::default();
    config.tenant_deny = Some(vec!["b".into()]);
    assert!(config.has_tenant_limits());

    let mut config = Config::default();
    config.tenant_max_connections = Some(10);
    assert!(config.has_tenant_limits());

    let mut config = Config::default();
    config.tenant_rate_limit = Some(5);
    assert!(config.has_tenant_limits());
}

#[test]
fn pool_mode_case_insensitive() {
    assert_eq!(parse_pool_mode("Session"), PoolMode::Session);
    assert_eq!(parse_pool_mode("SESSION"), PoolMode::Session);
    assert_eq!(parse_pool_mode("  session  "), PoolMode::Session);
    assert_eq!(parse_pool_mode("none"), PoolMode::Off);
    assert_eq!(parse_pool_mode("anything_else"), PoolMode::Off);
}

#[test]
fn pool_mode_display() {
    assert_eq!(PoolMode::Off.name(), "none");
    assert_eq!(PoolMode::Session.name(), "session");
}

#[test]
fn later_setting_overrides_file_value() {
    let mut config = Config::default();
    apply_config_file(&mut config, "port = 7777\n");
    assert_eq!(config.listen_port, 7777);
    config.apply_setting(pgvpd::config::Setting::ListenPort, "8888");
    assert_eq!(config.listen_port, 8888);
}

#[test]
fn tenant_allow_setting_splits_on_commas() {
    let mut config = Config::default();
    config.apply_setting(pgvpd::config::Setting::TenantAllow, "t1,t2,t3");
    assert_eq!(config.tenant_allow, Some(vec!["t1".into(), "t2".into(), "t3".into()]));
}

#[test]
fn command_line_flags_override() {
    let mut config = Config::default();
    apply_config_file(&mut config, "port = 7777\ncontext = a.b\n");
    let cli = pgvpd::config::Cli {
        config: "pgvpd.conf".to_string(),
        port: Some(9000),
        listen_host: None,
        upstream_host: Some("db".to_string()),
        upstream_port: None,
        separator: None,
        context: Some("x.y, z.w".to_string()),
        value_separator: None,
        superuser: None,
        log_level: None,
        tls_port: None,
        tls_cert: None,
        tls_key: None,
        upstream_tls: true,
        upstream_tls_verify: None,
        upstream_tls_ca: None,
        handshake_timeout: None,
        pool_mode: Some("Session".to_string()),
        pool_size: None,
        pool_password: None,
        upstream_password: None,
        pool_idle_timeout: None,
        pool_checkout_timeout: None,
        resolvers: None,
        admin_port: None,
        set_role: None,
        tenant_allow: None,
        tenant_deny: Some("bad".to_string()),
        tenant_max_connections: None,
        tenant_rate_limit: Some(5),
        tenant_query_timeout: None,
    };
    let config = config.apply_cli(cli);
    assert_eq!(config.listen_port, 9000);
    assert_eq!(config.upstream_host, "db");
    assert_eq!(config.context_variables, vec!["x.y", "z.w"]);
    assert!(config.upstream_tls);
    assert_eq!(config.pool_mode, PoolMode::Session);
    assert_eq!(config.tenant_deny, Some(vec!["bad".to_string()]));
    assert_eq!(config.tenant_rate_limit, Some(5));
    assert_eq!(config.upstream_port, 5432);
}
