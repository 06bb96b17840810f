use pgvpd::config::Config;
use pgvpd::tenant::{TenantRegistry, TenantRejection};

fn make_config(allow: Option<Vec<&str>>, deny: Option<Vec<&str>>, max_conn: Option<u32>, rate: Option<u32>) -> Config {
    let mut config = Config::default();
    config.tenant_allow = allow.map(|v| v.into_iter().map(String::from).collect());
    config.tenant_deny = deny.map(|v| v.into_iter().map(String::from).collect());
    config.tenant_max_connections = max_conn;
    config.tenant_rate_limit = rate;
    config
}

#[test]
fn test_deny_list_blocks() {
    let reg = TenantRegistry::new(&make_config(None, Some(vec!["bad"]), None, None));
    assert!(reg.check_access("bad").is_err());
    assert!(reg.check_access("good").is_ok());
}

#[test]
fn test_allow_list_blocks_unlisted() {
    let reg = TenantRegistry::new(&make_config(Some(vec!["alpha", "beta"]), None, None, None));
    assert!(reg.check_access("alpha").is_ok());
    assert!(reg.check_access("beta").is_ok());
    assert_eq!(reg.check_access("gamma"), Err(TenantRejection::NotAllowed));
}

#[test]
fn test_no_lists_allows_all() {
    let reg = TenantRegistry::new(&make_config(None, None, None, None));
    assert!(reg.check_access("anything").is_ok());
}

#[test]
fn test_connection_limit() {
    let mut reg = TenantRegistry::new(&make_config(None, None, Some(2), None));
    let g1 = reg.acquire("t1", 0);
    assert!(g1.is_ok());
    let g2 = reg.acquire("t1", 0);
    assert!(g2.is_ok());
    let g3 = reg.acquire("t1", 0);
    assert_eq!(g3.err(), Some(TenantRejection::ConnectionLimit));
    let g4 = reg.acquire("t2", 0);
    assert!(g4.is_ok());
    assert_eq!(reg.active_connections("t1"), 2);
    reg.release(g1.unwrap());
    assert_eq!(reg.active_connections("t1"), 1);
    let g5 = reg.acquire("t1", 0);
    assert!(g5.is_ok());
}

#[test]
fn test_rate_limit() {
    let mut reg = TenantRegistry::new(&make_config(None, None, None, Some(3)));
    let _g1 = reg.acquire("t1", 100).unwrap();
    let _g2 = reg.acquire("t1", 200).unwrap();
    let _g3 = reg.acquire("t1", 300).unwrap();
    let g4 = reg.acquire("t1", 400);
    assert_eq!(g4.err(), Some(TenantRejection::RateLimit));
    // A second later the window restarts.
    assert!(reg.acquire("t1", 1100).is_ok());
}

#[test]
fn rate_limit_zero_admits_nobody() {
    let mut reg = TenantRegistry::new(&make_config(None, None, None, Some(0)));
    assert!(reg.acquire("t1", 0).is_err());
    assert!(reg.acquire("t1", 5000).is_err());
}
