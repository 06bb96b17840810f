use pgvpd::resolver::{
    resolver_defs, ResolverFile, ResolverToml, make_cache_key, parse_data_row, parse_row_description, substitute_params, topological_sort,
    validate_resolvers, LoadError, ResolverDef,
};

fn make_def(name: &str, deps: &[&str]) -> ResolverDef {
    ResolverDef {
        name: name.to_string(),
        query: String::new(),
        params: vec![],
        inject: vec![],
        required: false,
        depends_on: deps.iter().map(|s| s.to_string()).collect(),
        cache_ttl: 0,
    }
}

#[test]
fn test_topological_sort_simple_chain() {
    let defs = vec![make_def("c", &["b"]), make_def("a", &[]), make_def("b", &["a"])];
    let sorted = topological_sort(defs).unwrap();
    let names: Vec<&str> = sorted.iter().map(|d| d.name.as_str()).collect();
    assert_eq!(names, vec!["a", "b", "c"]);
}

#[test]
fn test_topological_sort_cycle_detected() {
    let defs = vec![make_def("a", &["b"]), make_def("b", &["a"])];
    assert!(topological_sort(defs).is_err());
}

#[test]
fn test_topological_sort_no_deps() {
    let defs = vec![make_def("x", &[]), make_def("y", &[])];
    let sorted = topological_sort(defs).unwrap();
    assert_eq!(sorted.len(), 2);
}

#[test]
fn topological_sort_self_cycle_detected() {
    let defs = vec![make_def("a", &[]), make_def("b", &["b"])];
    assert!(topological_sort(defs).is_err());
}

#[test]
fn topological_sort_diamond_puts_dependencies_first() {
    let defs = vec![
        make_def("d", &["b", "c"]),
        make_def("c", &["a"]),
        make_def("b", &["a"]),
        make_def("a", &[]),
    ];
    let sorted = topological_sort(defs).unwrap();
    let pos = |n: &str| sorted.iter().position(|d| d.name == n).unwrap();
    assert!(pos("a") < pos("b"));
    assert!(pos("a") < pos("c"));
    assert!(pos("b") < pos("d"));
    assert!(pos("c") < pos("d"));
}

#[test]
fn validate_resolvers_errors() {
    assert_eq!(validate_resolvers(vec![]).err(), Some(LoadError::Empty));
    assert_eq!(validate_resolvers(vec![make_def("a", &[]), make_def("a", &[])]).err(), Some(LoadError::DuplicateName));
    assert_eq!(validate_resolvers(vec![make_def("a", &["zz"])]).err(), Some(LoadError::UnknownDependency));
    let many: Vec<ResolverDef> = (0..11).map(|i| make_def(&format!("r{i}"), &[])).collect();
    assert_eq!(validate_resolvers(many).err(), Some(LoadError::TooMany));
    assert_eq!(validate_resolvers(vec![make_def("a", &["b"]), make_def("b", &["a"])]).err(), Some(LoadError::Cycle));
    let ok = validate_resolvers(vec![make_def("b", &["a"]), make_def("a", &[])]).unwrap();
    assert_eq!(ok[0].name, "a");
    assert_eq!(ok[1].name, "b");
}

#[test]
fn test_substitute_params() {
    let sql = "SELECT * FROM t WHERE a = $1 AND b = $2";
    let vals = vec![Some("hello".to_string()), Some("world".to_string())];
    let result = substitute_params(sql, &vals);
    assert_eq!(result, "SELECT * FROM t WHERE a = 'hello' AND b = 'world'");
}

#[test]
fn test_substitute_params_with_quotes() {
    let sql = "SELECT * FROM t WHERE a = $1";
    let vals = vec![Some("it's".to_string())];
    let result = substitute_params(sql, &vals);
    assert_eq!(result, "SELECT * FROM t WHERE a = 'it''s'");
}

#[test]
fn test_substitute_params_array_literal() {
    let sql = "SELECT * FROM t WHERE a = ANY($1::uuid[])";
    let vals = vec![Some("{abc,def}".to_string())];
    let result = substitute_params(sql, &vals);
    assert_eq!(result, "SELECT * FROM t WHERE a = ANY('{abc,def}'::uuid[])");
}

#[test]
fn substitute_params_ten_and_one() {
    let mut vals: Vec<Option<String>> = (1..=10).map(|i| Some(format!("v{i}"))).collect();
    vals[4] = None;
    let result = substitute_params("$10 $1 $5", &vals);
    assert_eq!(result, "'v10' 'v1' NULL");
}

#[test]
fn make_cache_key_keeps_name_and_depends_on_inputs() {
    let a = make_cache_key("org", &[Some("t1".to_string())]);
    let b = make_cache_key("org", &[Some("t1".to_string())]);
    let c = make_cache_key("org", &[Some("t2".to_string())]);
    assert_eq!(a.0, "org");
    assert_eq!(a, b);
    assert_ne!(a.1, c.1);
}

#[test]
fn test_parse_row_description() {
    let mut payload = Vec::new();
    payload.extend_from_slice(&1i16.to_be_bytes());
    payload.extend_from_slice(b"org_id\0");
    payload.extend_from_slice(&[0u8; 18]);
    let names = parse_row_description(&payload);
    assert_eq!(names, vec!["org_id"]);
}

#[test]
fn test_parse_row_description_multiple() {
    let mut payload = Vec::new();
    payload.extend_from_slice(&2i16.to_be_bytes());
    payload.extend_from_slice(b"org_id\0");
    payload.extend_from_slice(&[0u8; 18]);
    payload.extend_from_slice(b"role\0");
    payload.extend_from_slice(&[0u8; 18]);
    let names = parse_row_description(&payload);
    assert_eq!(names, vec!["org_id", "role"]);
}

#[test]
fn test_parse_data_row() {
    let mut payload = Vec::new();
    payload.extend_from_slice(&1i16.to_be_bytes());
    payload.extend_from_slice(&3i32.to_be_bytes());
    payload.extend_from_slice(b"abc");
    let cols = vec!["org_id".to_string()];
    let row = parse_data_row(&payload, &cols);
    assert_eq!(row.get("org_id").unwrap(), "abc");
}

#[test]
fn test_parse_data_row_null() {
    let mut payload = Vec::new();
    payload.extend_from_slice(&1i16.to_be_bytes());
    payload.extend_from_slice(&(-1i32).to_be_bytes());
    let cols = vec!["org_id".to_string()];
    let row = parse_data_row(&payload, &cols);
    assert!(row.get("org_id").is_none());
}

#[test]
fn test_parse_data_row_multiple() {
    let mut payload = Vec::new();
    payload.extend_from_slice(&2i16.to_be_bytes());
    payload.extend_from_slice(&5i32.to_be_bytes());
    payload.extend_from_slice(b"org-1");
    payload.extend_from_slice(&5i32.to_be_bytes());
    payload.extend_from_slice(b"admin");
    let cols = vec!["org_id".to_string(), "role".to_string()];
    let row = parse_data_row(&payload, &cols);
    assert_eq!(row.get("org_id").unwrap(), "org-1");
    assert_eq!(row.get("role").unwrap(), "admin");
}

#[test]
fn resolver_file_blocks_become_definitions_in_order() {
    let block = |name: &str, ttl: u64| ResolverToml {
        name: name.to_string(),
        query: format!("SELECT {name}"),
        params: vec!["app.tenant_id".to_string()],
        inject: vec![("app.x".to_string(), "x".to_string())],
        required: true,
        depends_on: vec![],
        cache_ttl: ttl,
    };
    let defs = resolver_defs(ResolverFile { resolver: vec![block("a", 0), block("b", 30)] });
    assert_eq!(defs.len(), 2);
    assert_eq!(defs[0].name, "a");
    assert_eq!(defs[1].query, "SELECT b");
    assert_eq!(defs[1].cache_ttl, 30);
    assert!(defs[0].required);
    assert_eq!(defs[0].inject, vec![("app.x".to_string(), "x".to_string())]);
}
