use pgvpd::session::{handshake_start, handshake_step, resolve_step, FatalCode, HandshakeAction, HandshakeEvent, HandshakePhase, ResolveAction, ResolveEvent, ResolveState, ResolverCache};
use pgvpd::codec::{build_startup_message, try_read_backend_message, try_read_startup, StartupType};
use pgvpd::config::Config;
use pgvpd::resolver::{substitute_params, validate_resolvers, ResolverDef};
use pgvpd::session::{
    apply_query_result, batch_step, build_injection_sql, build_static_context, classify_client_frame,
    parse_tenant_identity, publish_skipped, resolver_inputs, startup_decision, BatchStep, ClientFrame,
    ContextMap, IdentityError, QueryReply, ReplyStep, ResolveError, ResolverInputs, StartupDecision,
};
use pgvpd::text::TextMap;

fn startup(user: &str, database: Option<&str>) -> TextMap {
    let mut p = TextMap::new();
    p.insert("user".to_string(), user.to_string());
    if let Some(d) = database {
        p.insert("database".to_string(), d.to_string());
    }
    p
}

fn config(vars: &[&str]) -> Config {
    let mut c = Config::default();
    c.context_variables = vars.iter().map(|s| s.to_string()).collect();
    c
}

fn tenant(p: &TextMap, c: &Config) -> (String, Vec<String>, String) {
    match startup_decision(p, c) {
        StartupDecision::Tenant { identity, database } => (identity.role, identity.values, database),
        _ => panic!("expected a tenant session"),
    }
}

#[test]
fn scenario_happy_path_single_context() {
    let c = config(&["app.tenant_id"]);
    let p = startup("reports.tenant_42", Some("analytics"));
    let (role, values, database) = tenant(&p, &c);
    assert_eq!(role, "reports");
    assert_eq!(values, vec!["tenant_42"]);
    assert_eq!(database, "analytics");

    let mut upstream = startup("reports.tenant_42", Some("analytics"));
    upstream.insert("user".to_string(), role.clone());
    let mut bytes = build_startup_message(&upstream);
    match try_read_startup(&mut bytes) {
        Some(StartupType::Startup(m)) => {
            assert_eq!(m.params.get("user").unwrap(), "reports");
            assert_eq!(m.params.get("database").unwrap(), "analytics");
        }
        _ => panic!("expected a startup message"),
    }

    let ctx = build_static_context(&c.context_variables, &values);
    assert_eq!(build_injection_sql(&ctx, &role).unwrap(), "SET app.tenant_id = 'tenant_42'; SET ROLE \"reports\";");
}

#[test]
fn scenario_multiple_context_values() {
    let c = config(&["app.tenant_id", "app.region"]);
    let (role, values, database) = tenant(&startup("svc.acme:eu", None), &c);
    assert_eq!(database, "default");
    let ctx = build_static_context(&c.context_variables, &values);
    assert_eq!(
        build_injection_sql(&ctx, &role).unwrap(),
        "SET app.tenant_id = 'acme'; SET app.region = 'eu'; SET ROLE \"svc\";"
    );
}

#[test]
fn scenario_malformed_identity() {
    let c = config(&["app.tenant_id"]);
    assert!(matches!(
        startup_decision(&startup("no_separator_here", None), &c),
        StartupDecision::Malformed(IdentityError::MissingSeparator)
    ));
}

#[test]
fn scenario_superuser_bypass() {
    let c = config(&["app.tenant_id"]);
    assert!(matches!(startup_decision(&startup("postgres", None), &c), StartupDecision::Bypass));
    assert!(matches!(startup_decision(&startup("", None), &c), StartupDecision::MissingUser));
    assert!(matches!(startup_decision(&TextMap::new(), &c), StartupDecision::MissingUser));
}

#[test]
fn identity_errors() {
    assert!(matches!(parse_tenant_identity(".t", ".", ":", 1), Err(IdentityError::EmptyPart)));
    assert!(matches!(parse_tenant_identity("r.", ".", ":", 1), Err(IdentityError::EmptyPart)));
    assert!(matches!(parse_tenant_identity("r.a:b:c", ".", ":", 2), Err(IdentityError::WrongCount)));
    assert!(matches!(parse_tenant_identity("r.a:", ".", ":", 2), Err(IdentityError::EmptyValue)));
    let t = parse_tenant_identity("r.a.b", ".", ":", 1).unwrap();
    assert_eq!(t.role, "r");
    assert_eq!(t.values, vec!["a.b"]);
    let t = parse_tenant_identity("svc::t1::eu", "::", "-", 1).unwrap();
    assert_eq!(t.role, "svc");
    assert_eq!(t.values, vec!["t1::eu"]);
}

#[test]
fn injection_rejects_bad_role_and_writes_absent_values() {
    let mut ctx = ContextMap::new();
    ctx.set("app.x".to_string(), None);
    ctx.set("app.y".to_string(), Some("it's".to_string()));
    assert_eq!(build_injection_sql(&ctx, "r").unwrap(), "SET app.x = ''; SET app.y = 'it''s'; SET ROLE \"r\";");
    assert!(build_injection_sql(&ctx, "bad role").is_err());
}

fn def(name: &str, query: &str, params: &[&str], inject: &[(&str, &str)], deps: &[&str], required: bool) -> ResolverDef {
    ResolverDef {
        name: name.to_string(),
        query: query.to_string(),
        params: params.iter().map(|s| s.to_string()).collect(),
        inject: inject.iter().map(|(a, b)| (a.to_string(), b.to_string())).collect(),
        required,
        depends_on: deps.iter().map(|s| s.to_string()).collect(),
        cache_ttl: 0,
    }
}

fn row(cells: &[(&str, &str)]) -> TextMap {
    let mut t = TextMap::new();
    for (k, v) in cells {
        t.insert(k.to_string(), v.to_string());
    }
    t
}

#[test]
fn scenario_resolver_chain() {
    let defs = vec![
        def("B", "SELECT region FROM orgs WHERE org = $1", &["app.org_id"], &[("app.region", "region")], &["A"], false),
        def("A", "SELECT org_id FROM tenants WHERE tenant = $1", &["app.tenant_id"], &[("app.org_id", "org_id")], &[], false),
    ];
    let sorted = validate_resolvers(defs).unwrap();
    assert_eq!(sorted[0].name, "A");
    assert_eq!(sorted[1].name, "B");

    let c = config(&["app.tenant_id"]);
    let (role, values, _) = tenant(&startup("svc.t1", None), &c);
    let mut ctx = build_static_context(&c.context_variables, &values);

    let inputs = match resolver_inputs(&sorted[0], &ctx) {
        ResolverInputs::Ready(v) => v,
        _ => panic!("A should run"),
    };
    assert_eq!(substitute_params(&sorted[0].query, &inputs), "SELECT org_id FROM tenants WHERE tenant = 't1'");
    apply_query_result(&sorted[0], &mut ctx, Some(&row(&[("org_id", "o9")]))).unwrap();

    let inputs = match resolver_inputs(&sorted[1], &ctx) {
        ResolverInputs::Ready(v) => v,
        _ => panic!("B should run"),
    };
    assert_eq!(substitute_params(&sorted[1].query, &inputs), "SELECT region FROM orgs WHERE org = 'o9'");
    apply_query_result(&sorted[1], &mut ctx, Some(&row(&[("region", "eu")]))).unwrap();

    assert_eq!(
        build_injection_sql(&ctx, &role).unwrap(),
        "SET app.tenant_id = 't1'; SET app.org_id = 'o9'; SET app.region = 'eu'; SET ROLE \"svc\";"
    );
}

#[test]
fn scenario_required_resolver_empty() {
    let d = def("A", "SELECT 1", &[], &[("app.org_id", "org_id")], &[], true);
    let mut ctx = ContextMap::new();
    assert!(matches!(apply_query_result(&d, &mut ctx, None), Err(ResolveError::RequiredEmpty(_))));
    assert_eq!(ctx.len(), 0);
    let optional = def("A", "SELECT 1", &[], &[("app.org_id", "org_id")], &[], false);
    apply_query_result(&optional, &mut ctx, None).unwrap();
    assert_eq!(ctx.get("app.org_id"), Some(None));
}

#[test]
fn resolver_inputs_unknown_and_absent() {
    let d = def("A", "SELECT $1", &["app.missing"], &[("app.out", "c")], &[], false);
    let ctx = ContextMap::new();
    assert!(matches!(resolver_inputs(&d, &ctx), ResolverInputs::UnknownParam(n) if n == "app.missing"));

    let mut ctx = ContextMap::new();
    ctx.set("app.in".to_string(), None);
    let d = def("A", "SELECT $1", &["app.in"], &[("app.out", "c")], &[], false);
    assert!(matches!(resolver_inputs(&d, &ctx), ResolverInputs::Skip));
    publish_skipped(&d, &mut ctx);
    assert_eq!(ctx.get("app.out"), Some(None));
}

fn message(t: u8, payload: &[u8]) -> pgvpd::codec::BackendMessage {
    let mut buf = vec![t];
    buf.extend_from_slice(&((4 + payload.len()) as i32).to_be_bytes());
    buf.extend_from_slice(payload);
    try_read_backend_message(&mut buf).unwrap()
}

#[test]
fn query_reply_keeps_first_row() {
    let mut desc = 1i16.to_be_bytes().to_vec();
    desc.extend_from_slice(b"org_id\0");
    desc.extend_from_slice(&[0u8; 18]);
    let mut row1 = 1i16.to_be_bytes().to_vec();
    row1.extend_from_slice(&2i32.to_be_bytes());
    row1.extend_from_slice(b"o1");
    let mut row2 = 1i16.to_be_bytes().to_vec();
    row2.extend_from_slice(&2i32.to_be_bytes());
    row2.extend_from_slice(b"o2");
    let mut reply = QueryReply::new();
    assert!(matches!(reply.on_message(&message(b'T', &desc)), ReplyStep::Continue));
    assert!(matches!(reply.on_message(&message(b'D', &row1)), ReplyStep::Continue));
    assert!(matches!(reply.on_message(&message(b'D', &row2)), ReplyStep::Continue));
    assert!(matches!(reply.on_message(&message(b'C', b"SELECT 2\0")), ReplyStep::Continue));
    match reply.on_message(&message(b'Z', b"I")) {
        ReplyStep::Done(Some(r)) => assert_eq!(r.get("org_id").unwrap(), "o1"),
        _ => panic!("expected a row"),
    }
}

#[test]
fn query_reply_error_waits_for_ready() {
    let mut reply = QueryReply::new();
    assert!(matches!(reply.on_message(&message(b'E', b"Mboom\0\0")), ReplyStep::Continue));
    match reply.on_message(&message(b'Z', b"I")) {
        ReplyStep::Failed(e) => assert_eq!(e, "boom"),
        _ => panic!("expected failure"),
    }
}

#[test]
fn client_frames() {
    assert_eq!(classify_client_frame(&[b'Q', 0, 0]), ClientFrame::Incomplete);
    assert_eq!(classify_client_frame(&[b'Q', 0, 0, 0, 9, b'S']), ClientFrame::Incomplete);
    assert_eq!(classify_client_frame(&[b'X', 0, 0, 0, 4]), ClientFrame::Terminate(5));
    assert_eq!(classify_client_frame(&[b'Q', 0, 0, 0, 5, 0, b'Q']), ClientFrame::Forward(6));
    assert_eq!(classify_client_frame(&[b'Q', 0, 0, 0, 1, 0]), ClientFrame::Malformed);
}

#[test]
fn batch_steps() {
    assert_eq!(batch_step(&message(b'E', b"\0")), BatchStep::Failed);
    assert_eq!(batch_step(&message(b'Z', b"I")), BatchStep::Done);
    assert_eq!(batch_step(&message(b'S', b"a\0b\0")), BatchStep::Forward);
    assert_eq!(batch_step(&message(b'C', b"SET\0")), BatchStep::Continue);
}

#[test]
fn one_context_value_is_still_split() {
    assert!(matches!(parse_tenant_identity("r.t1:x", ".", ":", 1), Err(IdentityError::WrongCount)));
    let c = config(&["app.tenant_id"]);
    assert!(matches!(
        startup_decision(&startup("svc.t1:x", None), &c),
        StartupDecision::Malformed(IdentityError::WrongCount)
    ));
}

fn reply_bytes(t: u8, payload: &[u8]) -> Vec<u8> {
    let mut buf = vec![t];
    buf.extend_from_slice(&((4 + payload.len()) as i32).to_be_bytes());
    buf.extend_from_slice(payload);
    buf
}

fn one_row_reply(column: &str, value: &str) -> Vec<pgvpd::codec::BackendMessage> {
    let mut desc = 1i16.to_be_bytes().to_vec();
    desc.extend_from_slice(column.as_bytes());
    desc.push(0);
    desc.extend_from_slice(&[0u8; 18]);
    let mut row = 1i16.to_be_bytes().to_vec();
    row.extend_from_slice(&(value.len() as i32).to_be_bytes());
    row.extend_from_slice(value.as_bytes());
    let mut out = Vec::new();
    for (t, p) in [(b'T', desc), (b'D', row), (b'C', b"SELECT 1\0".to_vec()), (b'Z', b"I".to_vec())] {
        let mut b = reply_bytes(t, &p);
        out.push(try_read_backend_message(&mut b).unwrap());
    }
    out
}

#[test]
fn resolve_step_runs_a_chain_and_caches() {
    let mut a = def("A", "SELECT org_id FROM t WHERE tenant = $1", &["app.tenant_id"], &[("app.org_id", "org_id")], &[], false);
    a.cache_ttl = 60;
    let b = def("B", "SELECT region FROM o WHERE org = $1", &["app.org_id"], &[("app.region", "region")], &["A"], false);
    let defs = vec![a, b];
    let mut cache = ResolverCache::new();
    let c = config(&["app.tenant_id"]);
    let (_, values, _) = tenant(&startup("svc.t1", None), &c);
    let mut st = ResolveState { next: 0, context: build_static_context(&c.context_variables, &values), awaiting: None };

    match resolve_step(&defs, &mut cache, &mut st, ResolveEvent::Advance, 1000) {
        ResolveAction::SendQuery(sql) => assert_eq!(sql, "SELECT org_id FROM t WHERE tenant = 't1'"),
        _ => panic!("expected A's query"),
    }
    let mut last = None;
    for m in one_row_reply("org_id", "o9") {
        last = Some(resolve_step(&defs, &mut cache, &mut st, ResolveEvent::Reply(m), 1000));
    }
    assert!(matches!(last, Some(ResolveAction::Next)));
    assert_eq!(cache.len(), 1);
    match resolve_step(&defs, &mut cache, &mut st, ResolveEvent::Advance, 1000) {
        ResolveAction::SendQuery(sql) => assert_eq!(sql, "SELECT region FROM o WHERE org = 'o9'"),
        _ => panic!("expected B's query"),
    }
    for m in one_row_reply("region", "eu") {
        last = Some(resolve_step(&defs, &mut cache, &mut st, ResolveEvent::Reply(m), 1000));
    }
    assert!(matches!(last, Some(ResolveAction::Next)));
    assert!(matches!(resolve_step(&defs, &mut cache, &mut st, ResolveEvent::Advance, 1000), ResolveAction::Done));
    assert_eq!(
        build_injection_sql(&st.context, "svc").unwrap(),
        "SET app.tenant_id = 't1'; SET app.org_id = 'o9'; SET app.region = 'eu'; SET ROLE \"svc\";"
    );

    // A second session within the TTL takes A from the cache.
    let mut st2 = ResolveState { next: 0, context: build_static_context(&c.context_variables, &values), awaiting: None };
    assert!(matches!(resolve_step(&defs, &mut cache, &mut st2, ResolveEvent::Advance, 2000), ResolveAction::Next));
    assert_eq!(st2.context.get("app.org_id"), Some(Some("o9".to_string())));
    // After the TTL it queries again.
    let mut st3 = ResolveState { next: 0, context: build_static_context(&c.context_variables, &values), awaiting: None };
    assert!(matches!(resolve_step(&defs, &mut cache, &mut st3, ResolveEvent::Advance, 61000), ResolveAction::SendQuery(_)));
}

#[test]
fn resolve_step_required_empty_fails() {
    let defs = vec![def("A", "SELECT 1", &[], &[("app.x", "x")], &[], true)];
    let mut cache = ResolverCache::new();
    let mut st = ResolveState { next: 0, context: ContextMap::new(), awaiting: None };
    assert!(matches!(resolve_step(&defs, &mut cache, &mut st, ResolveEvent::Advance, 0), ResolveAction::SendQuery(_)));
    let mut z = reply_bytes(b'Z', b"I");
    let m = try_read_backend_message(&mut z).unwrap();
    assert!(matches!(
        resolve_step(&defs, &mut cache, &mut st, ResolveEvent::Reply(m), 0),
        ResolveAction::Fail(ResolveError::RequiredEmpty(_))
    ));
}

#[test]
fn handshake_steps_pooled_failures_discard() {
    let st = handshake_start(true);
    let (_, a) = handshake_step(st, &HandshakeEvent::ClientPassword(false));
    assert_eq!(a, HandshakeAction::Fatal { code: FatalCode::AuthFailed, discard: false });
    let (st, a) = handshake_step(st, &HandshakeEvent::ClientPassword(true));
    assert_eq!(a, HandshakeAction::Checkout);
    let (_, a) = handshake_step(st, &HandshakeEvent::CheckedOut(false));
    assert_eq!(a, HandshakeAction::Fatal { code: FatalCode::PoolExhausted, discard: false });
    let (st, a) = handshake_step(st, &HandshakeEvent::CheckedOut(true));
    assert_eq!(a, HandshakeAction::SendReset);
    assert!(st.checked_out);
    let (_, a) = handshake_step(st, &HandshakeEvent::Upstream(message(b'E', b"\0")));
    assert_eq!(a, HandshakeAction::Fatal { code: FatalCode::Internal, discard: true });
    let (st, a) = handshake_step(st, &HandshakeEvent::Upstream(message(b'Z', b"I")));
    assert_eq!(a, HandshakeAction::Resolve);
    let (_, a) = handshake_step(st, &HandshakeEvent::Resolved(false));
    assert_eq!(a, HandshakeAction::Fatal { code: FatalCode::Internal, discard: true });
    let (_, a) = handshake_step(st, &HandshakeEvent::TimedOut);
    assert_eq!(a, HandshakeAction::Fatal { code: FatalCode::Timeout, discard: true });
    let (st, a) = handshake_step(st, &HandshakeEvent::Resolved(true));
    assert_eq!(a, HandshakeAction::SendInjection);
    let (_, a) = handshake_step(st, &HandshakeEvent::Upstream(message(b'E', b"\0")));
    assert_eq!(a, HandshakeAction::ForwardAndClose { discard: true });
    let (st, a) = handshake_step(st, &HandshakeEvent::Upstream(message(b'Z', b"I")));
    assert_eq!(a, HandshakeAction::Complete);
    assert_eq!(st.phase, HandshakePhase::Ready);
    assert_eq!(FatalCode::PoolExhausted.sqlstate(), "53300");
    assert_eq!(FatalCode::AuthFailed.sqlstate(), "28P01");
}

#[test]
fn handshake_steps_passthrough_relay() {
    let st = handshake_start(false);
    let (st, a) = handshake_step(st, &HandshakeEvent::Upstream(message(b'R', &5u32.to_be_bytes())));
    assert_eq!(a, HandshakeAction::ForwardAndRelayReply);
    let (st, a) = handshake_step(st, &HandshakeEvent::Upstream(message(b'R', &0u32.to_be_bytes())));
    assert_eq!(a, HandshakeAction::Forward);
    let (st, a) = handshake_step(st, &HandshakeEvent::Upstream(message(b'S', b"a\0b\0")));
    assert_eq!(a, HandshakeAction::Forward);
    let (_, a) = handshake_step(st, &HandshakeEvent::Upstream(message(b'Z', b"I")));
    assert_eq!(a, HandshakeAction::HoldReadyAndResolve);
    let (_, a) = handshake_step(handshake_start(false), &HandshakeEvent::Upstream(message(b'E', b"\0")));
    assert_eq!(a, HandshakeAction::ForwardAndClose { discard: false });
}
