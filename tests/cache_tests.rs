use pgvpd::session::ResolverCache;
use pgvpd::text::TextMap;
use pgvpd::metrics::Metrics;

#[test]
fn cache_hit_until_expiry() {
    let mut cache = ResolverCache::new();
    let mut row = TextMap::new();
    row.insert("org_id".to_string(), "o1".to_string());
    cache.store("A".to_string(), 42, Some(row), 1000);
    match cache.lookup("A", 42, 999) {
        Some(Some(r)) => assert_eq!(r.get("org_id").unwrap(), "o1"),
        _ => panic!("expected a live hit"),
    }
    assert!(cache.lookup("A", 42, 1000).is_none());
    assert!(cache.lookup("A", 43, 0).is_none());
    cache.store("B".to_string(), 1, None, 5000);
    assert!(matches!(cache.lookup("B", 1, 10), Some(None)));
    assert_eq!(cache.evict_expired(2000), 1);
    assert_eq!(cache.len(), 1);
}

#[test]
fn metrics_counters() {
    let m = Metrics::new(vec!["a".to_string(), "b".to_string()]);
    assert_eq!(m.resolver_executions.len(), 2);
    assert_eq!(Metrics::inc(&m.pool_creates), 0);
    assert_eq!(Metrics::inc(&m.pool_creates), 1);
    Metrics::dec(&m.connections_active);
    assert_eq!(m.connections_active.load(std::sync::atomic::Ordering::Relaxed), 0);
}

#[test]
fn metric_lines() {
    let mut out = String::from("# x\n");
    pgvpd::metrics::push_metric(&mut out, "pgvpd_connections_total", "", 42);
    pgvpd::metrics::push_metric(&mut out, "pgvpd_pool_connections_idle", "database=\"d\",role=\"r\"", 0);
    assert_eq!(
        out,
        "# x\npgvpd_connections_total 42\npgvpd_pool_connections_idle{database=\"d\",role=\"r\"} 0\n"
    );
}

#[test]
fn metrics_decrement_stops_at_zero() {
    let m = Metrics::new(vec![]);
    Metrics::inc(&m.connections_active);
    Metrics::dec(&m.connections_active);
    Metrics::dec(&m.connections_active);
    assert_eq!(m.connections_active.load(std::sync::atomic::Ordering::Relaxed), 0);
    assert_eq!(pgvpd::metrics::one_less(0), None);
    assert_eq!(pgvpd::metrics::one_less(5), Some(4));
}
