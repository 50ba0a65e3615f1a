use node_discovery::node_types::RegisterNode;
use node_discovery::registry::Registry;

fn mk_node(uid: &str, node_type: &str, api_root: &str) -> RegisterNode {
    let mut n = RegisterNode::new();
    n.uid = uid.to_string();
    n.node_type = node_type.to_string();
    n.api_root = api_root.to_string();
    n.service_lookup_uid = "lk-1".to_string();
    n.create_time = "2020-01-01T00:00:00".to_string();
    n
}

#[test]
fn query_response_feeds_round_robin_selection() {
    // Query response with two workers: two type-based selections walk
    // them in sort order, deterministically.
    let mut reg = Registry::new();
    let response = vec![
        mk_node("a", "worker", "10.0.0.1:9000"),
        mk_node("b", "worker", "10.0.0.2:9000"),
    ];
    reg.replace_all(&response);
    assert_eq!(reg.select("", "worker").as_deref(), Some("10.0.0.1:9000"));
    assert_eq!(reg.select("", "worker").as_deref(), Some("10.0.0.2:9000"));
    assert_eq!(reg.select("", "worker").as_deref(), Some("10.0.0.1:9000"));
}

#[test]
fn empty_response_clears_previous_registry() {
    let mut reg = Registry::new();
    let response = vec![
        mk_node("a", "worker", "10.0.0.1:9000"),
        mk_node("b", "store", "10.0.0.2:9000"),
    ];
    reg.replace_all(&response);
    assert!(reg.select("", "worker").is_some());

    reg.replace_all(&vec![]);
    assert!(reg.select("", "worker").is_none());
    assert!(reg.select("", "store").is_none());
    assert!(reg.select("a", "").is_none());
    assert!(reg.select("a", "worker").is_none());
}

#[test]
fn uid_match_takes_precedence_over_type_rotation() {
    let mut reg = Registry::new();
    let response = vec![
        mk_node("a", "worker", "10.0.0.1:9000"),
        mk_node("b", "worker", "10.0.0.2:9000"),
        mk_node("c", "worker", "10.0.0.3:9000"),
    ];
    reg.replace_all(&response);
    // The uid-pinned route answers the same address every time, even
    // though the worker pool holds other nodes.
    assert_eq!(reg.select("b", "").as_deref(), Some("10.0.0.2:9000"));
    assert_eq!(reg.select("b", "").as_deref(), Some("10.0.0.2:9000"));
    assert_eq!(reg.select("b", "worker").as_deref(), Some("10.0.0.2:9000"));
    // ... and it does not move the pool's cursor.
    assert_eq!(reg.select("", "worker").as_deref(), Some("10.0.0.1:9000"));
}

#[test]
fn unknown_uid_falls_back_to_type() {
    let mut reg = Registry::new();
    let response = vec![mk_node("a", "worker", "10.0.0.1:9000")];
    reg.replace_all(&response);
    assert_eq!(reg.select("nope", "worker").as_deref(), Some("10.0.0.1:9000"));
    assert!(reg.select("nope", "store").is_none());
}

#[test]
fn replace_all_twice_is_observably_identical() {
    let response = vec![
        mk_node("a", "worker", "10.0.0.1:9000"),
        mk_node("b", "worker", "10.0.0.2:9000"),
        mk_node("c", "store", "10.0.0.3:9000"),
    ];
    let mut once = Registry::new();
    once.replace_all(&response);
    let mut twice = Registry::new();
    twice.replace_all(&response);
    twice.replace_all(&response);
    for _ in 0..4 {
        assert_eq!(once.select("", "worker"), twice.select("", "worker"));
        assert_eq!(once.select("", "store"), twice.select("", "store"));
        assert_eq!(once.select("a", ""), twice.select("a", ""));
        assert_eq!(once.select("c", ""), twice.select("c", ""));
    }
}

#[test]
fn refresh_keeps_cursor_for_existing_type() {
    let mut reg = Registry::new();
    let response = vec![
        mk_node("a", "worker", "10.0.0.1:9000"),
        mk_node("b", "worker", "10.0.0.2:9000"),
    ];
    reg.replace_all(&response);
    assert_eq!(reg.select("", "worker").as_deref(), Some("10.0.0.1:9000"));
    // A refresh with the same membership does not restart rotation.
    reg.replace_all(&response);
    assert_eq!(reg.select("", "worker").as_deref(), Some("10.0.0.2:9000"));
}

#[test]
fn later_duplicate_uid_overwrites_earlier() {
    let mut reg = Registry::new();
    let response = vec![
        mk_node("a", "worker", "10.0.0.1:9000"),
        mk_node("a", "worker", "10.0.0.9:9000"),
    ];
    reg.replace_all(&response);
    assert_eq!(reg.select("a", "").as_deref(), Some("10.0.0.9:9000"));
}

#[test]
fn types_are_partitioned_into_their_own_pools() {
    let mut reg = Registry::new();
    let response = vec![
        mk_node("w1", "worker", "10.0.0.1:9000"),
        mk_node("s1", "store", "10.0.1.1:9000"),
        mk_node("w2", "worker", "10.0.0.2:9000"),
        mk_node("s2", "store", "10.0.1.2:9000"),
    ];
    reg.replace_all(&response);
    assert_eq!(reg.select("", "store").as_deref(), Some("10.0.1.1:9000"));
    assert_eq!(reg.select("", "worker").as_deref(), Some("10.0.0.1:9000"));
    assert_eq!(reg.select("", "store").as_deref(), Some("10.0.1.2:9000"));
    assert_eq!(reg.select("", "worker").as_deref(), Some("10.0.0.2:9000"));
}

#[test]
fn lookup_by_uid_and_type_agree_with_select() {
    let mut reg = Registry::new();
    let response = vec![mk_node("a", "worker", "10.0.0.1:9000")];
    reg.replace_all(&response);
    assert_eq!(reg.lookup_by_uid("a").as_deref(), Some("10.0.0.1:9000"));
    assert!(reg.lookup_by_uid("b").is_none());
    assert_eq!(reg.lookup_by_type("worker").as_deref(), Some("10.0.0.1:9000"));
    assert!(reg.lookup_by_type("store").is_none());
}

#[test]
fn empty_registry_selects_nothing() {
    let mut reg = Registry::new();
    assert!(reg.select("", "worker").is_none());
    assert!(reg.select("a", "").is_none());
    assert!(reg.lookup_by_uid("a").is_none());
    assert!(reg.lookup_by_type("worker").is_none());
}
