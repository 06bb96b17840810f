use pgvpd::pool::{Checkout, HandshakeTail, PoolKey, PoolState};
use pgvpd::session::pooled_greeting_bytes;

fn key(db: &str, role: &str) -> PoolKey {
    PoolKey { database: db.to_string(), role: role.to_string() }
}

#[test]
fn checkout_creates_until_full() {
    let mut pool: PoolState<u32> = PoolState::new(2);
    let k = key("db", "r");
    assert!(matches!(pool.begin_checkout(&k, 0), Checkout::Create));
    assert!(matches!(pool.begin_checkout(&k, 0), Checkout::Create));
    assert!(matches!(pool.begin_checkout(&k, 0), Checkout::Full));
    let snap = pool.snapshot();
    assert_eq!(snap.len(), 1);
    assert_eq!(snap[0].2, 2);
    assert_eq!(snap[0].3, 0);
}

#[test]
fn checkin_then_reuse() {
    let mut pool: PoolState<u32> = PoolState::new(2);
    let k = key("analytics", "r");
    assert!(matches!(pool.begin_checkout(&k, 0), Checkout::Create));
    pool.create_succeeded(&k, HandshakeTail { param_statuses: vec![], backend_key_data: vec![] });
    assert!(pool.checkin(&k, 7, 10));
    match pool.begin_checkout(&k, 20) {
        Checkout::Reuse(s) => assert_eq!(s, 7),
        _ => panic!("expected reuse"),
    }
    let snap = pool.snapshot();
    assert_eq!(snap[0].2, 1);
}

#[test]
fn failed_create_gives_the_place_back() {
    let mut pool: PoolState<u32> = PoolState::new(1);
    let k = key("db", "r");
    assert!(matches!(pool.begin_checkout(&k, 0), Checkout::Create));
    pool.discard(&k);
    assert!(matches!(pool.begin_checkout(&k, 0), Checkout::Create));
}

#[test]
fn checkin_without_checkout_is_refused() {
    let mut pool: PoolState<u32> = PoolState::new(1);
    let k = key("db", "r");
    assert!(!pool.checkin(&k, 1, 0));
    assert_eq!(pool.snapshot().len(), 0);
}

#[test]
fn buckets_are_separate() {
    let mut pool: PoolState<u32> = PoolState::new(1);
    assert!(matches!(pool.begin_checkout(&key("a", "r"), 0), Checkout::Create));
    assert!(matches!(pool.begin_checkout(&key("b", "r"), 0), Checkout::Create));
    assert!(matches!(pool.begin_checkout(&key("a", "s"), 0), Checkout::Create));
}

#[test]
fn reaper_drops_stale_idle_sessions_and_empty_buckets() {
    let mut pool: PoolState<u32> = PoolState::new(2);
    let k = key("db", "r");
    assert!(matches!(pool.begin_checkout(&k, 0), Checkout::Create));
    assert!(matches!(pool.begin_checkout(&k, 0), Checkout::Create));
    assert!(pool.checkin(&k, 1, 1000));
    assert!(pool.checkin(&k, 2, 5000));
    assert_eq!(pool.reap(6000, 3000), 1);
    let snap = pool.snapshot();
    assert_eq!(snap[0].2, 1);
    assert_eq!(snap[0].3, 1);
    assert_eq!(pool.reap(100000, 3000), 1);
    assert_eq!(pool.snapshot().len(), 0);
}

#[test]
fn handshake_tail_is_kept_once() {
    let mut pool: PoolState<u32> = PoolState::new(2);
    let k = key("db", "r");
    assert!(matches!(pool.begin_checkout(&k, 0), Checkout::Create));
    pool.create_succeeded(&k, HandshakeTail { param_statuses: vec![vec![b'S', 0, 0, 0, 4]], backend_key_data: vec![b'K'] });
    assert!(matches!(pool.begin_checkout(&k, 0), Checkout::Create));
    pool.create_succeeded(&k, HandshakeTail { param_statuses: vec![], backend_key_data: vec![b'X'] });
    let tail = pool.tail_of(&k).unwrap();
    assert_eq!(tail.backend_key_data, vec![b'K']);
    let greeting = pooled_greeting_bytes(tail);
    assert_eq!(greeting, vec![b'S', 0, 0, 0, 4, b'K', b'Z', 0, 0, 0, 5, b'I']);
}

#[test]
fn discard_gives_back_a_checked_out_place_only() {
    let mut pool: PoolState<u32> = PoolState::new(1);
    let k = key("db", "r");
    pool.discard(&k);
    assert_eq!(pool.snapshot().len(), 0);
    assert!(matches!(pool.begin_checkout(&k, 0), Checkout::Create));
    assert!(matches!(pool.begin_checkout(&k, 0), Checkout::Full));
    pool.discard(&k);
    assert_eq!(pool.snapshot()[0].2, 0);
    pool.discard(&k);
    assert_eq!(pool.snapshot()[0].2, 0);
    assert!(matches!(pool.begin_checkout(&k, 0), Checkout::Create));
}

#[test]
fn idle_sessions_are_reused_oldest_first() {
    let mut pool: PoolState<u32> = PoolState::new(3);
    let k = key("db", "r");
    for _ in 0..3 {
        assert!(matches!(pool.begin_checkout(&k, 0), Checkout::Create));
    }
    assert!(pool.checkin(&k, 10, 1));
    assert!(pool.checkin(&k, 20, 2));
    assert!(matches!(pool.begin_checkout(&k, 3), Checkout::Reuse(10)));
    assert!(matches!(pool.begin_checkout(&k, 3), Checkout::Reuse(20)));
    assert!(pool.tail_of(&k).is_none());
}

#[test]
fn failed_reset_drops_the_session() {
    let mut pool: PoolState<u32> = PoolState::new(2);
    let k = key("db", "r");
    assert!(matches!(pool.begin_checkout(&k, 0), Checkout::Create));
    assert!(matches!(pool.begin_checkout(&k, 0), Checkout::Create));
    assert!(!pool.return_session(&k, 1, false, 5));
    assert!(pool.return_session(&k, 2, true, 5));
    let snap = pool.snapshot();
    assert_eq!(snap[0].2, 1);
    assert_eq!(snap[0].3, 1);
    assert!(matches!(pool.begin_checkout(&k, 6), Checkout::Reuse(2)));
}
