use render_service::dispatch::{not_found_reply, plan, settle, Outcome, Plan, INTERNAL_ERROR, NOT_FOUND};
use render_service::params::ParameterMap;
use render_service::pattern::{is_valid_pattern, shape_of, PatternError};
use render_service::table::RouteTable;

fn param(params: &ParameterMap, key: &str) -> Option<String> {
    params.get(key)
}

#[test]
fn valid_patterns_are_accepted() {
    assert!(is_valid_pattern("/"));
    assert!(is_valid_pattern("/users/:id"));
    assert!(is_valid_pattern("/users/"));
    assert!(is_valid_pattern("/users/:user_id/repos/:id"));
}

#[test]
fn malformed_patterns_are_refused() {
    assert!(!is_valid_pattern(""));
    assert!(!is_valid_pattern("users"));
    assert!(!is_valid_pattern("/a//b"));
    assert!(!is_valid_pattern("/:"));
    assert!(!is_valid_pattern("/users/:/x"));
    assert!(!is_valid_pattern("/a:b"));
    assert!(!is_valid_pattern("/*any"));
    assert!(!is_valid_pattern("/caf\u{e9}"));
}

#[test]
fn shape_erases_parameter_names() {
    assert_eq!(shape_of("/users/:id/repos"), "/users/:/repos".chars().collect::<Vec<char>>());
    assert_eq!(shape_of("/users/:id"), shape_of("/users/:name"));
    assert_ne!(shape_of("/users/:id"), shape_of("/users/:id/"));
}

#[test]
fn register_refuses_malformed_pattern() {
    let mut table: RouteTable<&str> = RouteTable::new();
    assert_eq!(table.register("no-slash", "a"), Err(PatternError::Malformed));
    assert_eq!(table.register("/x//y", "a"), Err(PatternError::Malformed));
    assert_eq!(table.len(), 0);
    assert!(table.lookup("/x").is_none());
}

#[test]
fn root_route_and_missing_path() {
    let mut table: RouteTable<&str> = RouteTable::new();
    assert_eq!(table.register("/", "A"), Ok(0));
    match plan(&table, "/") {
        Plan::Invoke { slot, params } => {
            assert_eq!(*table.endpoint(slot), "A");
            assert_eq!(params.len(), 0);
        }
        Plan::NotFound => panic!("the root route did not match"),
    }
    assert!(matches!(plan(&table, "/missing"), Plan::NotFound));
    let reply = not_found_reply(None);
    assert_eq!(reply.status, 404);
    assert_eq!(reply.body, "Not Found");
}

#[test]
fn parameter_is_bound_to_segment() {
    let mut table: RouteTable<&str> = RouteTable::new();
    assert_eq!(table.register("/users/:id", "B"), Ok(0));
    let (slot, params) = table.lookup("/users/42").unwrap();
    assert_eq!(*table.endpoint(slot), "B");
    assert_eq!(params.len(), 1);
    assert_eq!(param(&params, "id"), Some("42".to_string()));
    assert_eq!(param(&params, "name"), None);
}

#[test]
fn two_parameters_are_bound_in_order() {
    let mut table: RouteTable<u32> = RouteTable::new();
    assert_eq!(table.register("/users/:user_id/repos/:id", 3), Ok(0));
    let (slot, params) = table.lookup("/users/7/repos/99").unwrap();
    assert_eq!(*table.endpoint(slot), 3);
    assert_eq!(params.len(), 2);
    assert_eq!(param(&params, "user_id"), Some("7".to_string()));
    assert_eq!(param(&params, "id"), Some("99".to_string()));
}

#[test]
fn literal_segment_takes_precedence() {
    let mut table: RouteTable<&str> = RouteTable::new();
    assert_eq!(table.register("/users/:id", "param"), Ok(0));
    assert_eq!(table.register("/users/new", "literal"), Ok(1));
    let (slot, params) = table.lookup("/users/new").unwrap();
    assert_eq!(*table.endpoint(slot), "literal");
    assert_eq!(params.len(), 0);
    let (slot, params) = table.lookup("/users/5").unwrap();
    assert_eq!(*table.endpoint(slot), "param");
    assert_eq!(param(&params, "id"), Some("5".to_string()));
}

#[test]
fn trailing_slash_is_a_distinct_path() {
    let mut table: RouteTable<&str> = RouteTable::new();
    assert_eq!(table.register("/users", "plain"), Ok(0));
    assert!(table.lookup("/users").is_some());
    assert!(table.lookup("/users/").is_none());
    assert_eq!(table.register("/users/", "slashed"), Ok(1));
    let (slot, _) = table.lookup("/users/").unwrap();
    assert_eq!(*table.endpoint(slot), "slashed");
}

#[test]
fn reregistering_a_shape_replaces_the_endpoint() {
    let mut table: RouteTable<&str> = RouteTable::new();
    assert_eq!(table.register("/", "root"), Ok(0));
    assert_eq!(table.register("/users/:id", "first"), Ok(1));
    assert_eq!(table.register("/users/:name", "second"), Ok(1));
    assert_eq!(table.len(), 2);
    assert_eq!(table.pattern(1), "/users/:name");
    let (slot, params) = table.lookup("/users/7").unwrap();
    assert_eq!(slot, 1);
    assert_eq!(*table.endpoint(slot), "second");
    assert_eq!(param(&params, "name"), Some("7".to_string()));
    assert_eq!(table.register("/users/:name", "third"), Ok(1));
    assert_eq!(table.len(), 2);
    assert_eq!(*table.endpoint(1), "third");
}

#[test]
fn unmatched_path_never_succeeds() {
    let mut table: RouteTable<&str> = RouteTable::new();
    assert!(matches!(plan(&table, "/"), Plan::NotFound));
    assert_eq!(table.register("/a/:x", "a"), Ok(0));
    assert!(matches!(plan(&table, "/b"), Plan::NotFound));
    assert!(matches!(plan(&table, "/a"), Plan::NotFound));
    assert!(matches!(plan(&table, ""), Plan::NotFound));
    let reply = not_found_reply(Some("<h1>gone</h1>".to_string()));
    assert_eq!(reply.status, NOT_FOUND);
    assert_eq!(reply.body, "<h1>gone</h1>");
    assert!(!(200..300).contains(&reply.status));
}

#[test]
fn fault_becomes_internal_error_and_service_goes_on() {
    let mut table: RouteTable<&str> = RouteTable::new();
    assert_eq!(table.register("/boom", "boom"), Ok(0));
    assert_eq!(table.register("/ok", "ok"), Ok(1));
    assert!(matches!(plan(&table, "/boom"), Plan::Invoke { slot: 0, .. }));
    match settle::<String>(Outcome::Faulted) {
        Err(reply) => {
            assert_eq!(reply.status, INTERNAL_ERROR);
            assert_eq!(reply.status, 500);
            assert_eq!(reply.body, "Internal Server Error");
        }
        Ok(_) => panic!("a fault was passed on"),
    }
    match plan(&table, "/ok") {
        Plan::Invoke { slot, .. } => assert_eq!(*table.endpoint(slot), "ok"),
        Plan::NotFound => panic!("the service stopped serving"),
    }
    match settle(Outcome::Completed("fine".to_string())) {
        Ok(resp) => assert_eq!(resp, "fine"),
        Err(_) => panic!("a response was replaced"),
    }
}

#[test]
fn parameter_map_insert_overrides_in_place() {
    let mut m = ParameterMap::new();
    assert_eq!(m.len(), 0);
    m.insert("a".to_string(), "1".to_string());
    m.insert("b".to_string(), "2".to_string());
    m.insert("a".to_string(), "3".to_string());
    assert_eq!(m.len(), 2);
    assert_eq!(m.get("a"), Some("3".to_string()));
    assert_eq!(m.get("b"), Some("2".to_string()));
    assert_eq!(m.get("c"), None);
}

#[test]
fn parameter_map_from_pairs_keeps_last_value() {
    let pairs = vec![
        ("id".to_string(), "1".to_string()),
        ("id".to_string(), "2".to_string()),
        ("page".to_string(), "4".to_string()),
    ];
    let m = ParameterMap::from_pairs(pairs);
    assert_eq!(m.len(), 2);
    assert_eq!(m.get("id"), Some("2".to_string()));
    assert_eq!(m.get("page"), Some("4".to_string()));
}

#[test]
fn parameter_map_pairs_keep_order() {
    let mut m = ParameterMap::new();
    m.insert("z".to_string(), "1".to_string());
    m.insert("a".to_string(), "2".to_string());
    m.insert("z".to_string(), "3".to_string());
    assert_eq!(m.pairs(), vec![("z".to_string(), "3".to_string()), ("a".to_string(), "2".to_string())]);
}
