use node_discovery::node_types::RegisterNode;
use node_discovery::rr_pool::RegisterNodeRR;

fn mk_node(uid: &str, node_type: &str, api_root: &str) -> RegisterNode {
    let mut n = RegisterNode::new();
    n.uid = uid.to_string();
    n.node_type = node_type.to_string();
    n.api_root = api_root.to_string();
    n.service_lookup_uid = "lk-1".to_string();
    n.create_time = "2020-01-01T00:00:00".to_string();
    n
}

#[test]
fn rotation_is_strict_over_many_calls() {
    let mut pool = RegisterNodeRR::new();
    let nodes = vec![
        mk_node("b", "worker", "10.0.0.2:9000"),
        mk_node("a", "worker", "10.0.0.1:9000"),
        mk_node("c", "worker", "10.0.0.3:9000"),
    ];
    pool.update(&nodes);
    // Sorted by uid, the rotation is a, b, c, a, b, c, a ... whatever
    // the number of calls.
    let expect = ["a", "b", "c", "a", "b", "c", "a", "b"];
    for e in expect.iter() {
        let got = pool.get().expect("non-empty pool must hand out a node");
        assert_eq!(got.uid, *e);
    }
}

#[test]
fn rotation_order_uses_full_sort_key() {
    let mut pool = RegisterNodeRR::new();
    // Same uid and type: the api-root breaks the tie.
    let nodes = vec![
        mk_node("a", "worker", "10.0.0.9:9000"),
        mk_node("a", "worker", "10.0.0.1:9000"),
    ];
    pool.update(&nodes);
    assert_eq!(pool.get().unwrap().api_root, "10.0.0.1:9000");
    assert_eq!(pool.get().unwrap().api_root, "10.0.0.9:9000");
    assert_eq!(pool.get().unwrap().api_root, "10.0.0.1:9000");
}

#[test]
fn empty_pool_returns_absent() {
    let mut pool = RegisterNodeRR::new();
    assert!(pool.get().is_none());
    pool.update(&vec![]);
    assert!(pool.get().is_none());
}

#[test]
fn empty_update_then_refill_restarts_from_first() {
    let mut pool = RegisterNodeRR::new();
    let first = vec![
        mk_node("a", "worker", "10.0.0.1:9000"),
        mk_node("b", "worker", "10.0.0.2:9000"),
    ];
    pool.update(&first);
    assert_eq!(pool.get().unwrap().uid, "a");
    assert_eq!(pool.get().unwrap().uid, "b");

    pool.update(&vec![]);
    assert!(pool.get().is_none());

    let second = vec![
        mk_node("e", "worker", "10.0.0.5:9000"),
        mk_node("d", "worker", "10.0.0.4:9000"),
        mk_node("f", "worker", "10.0.0.6:9000"),
    ];
    pool.update(&second);
    // Rotation resumes from entry 0 of the new sorted contents.
    assert_eq!(pool.get().unwrap().uid, "d");
    assert_eq!(pool.get().unwrap().uid, "e");
    assert_eq!(pool.get().unwrap().uid, "f");
    assert_eq!(pool.get().unwrap().uid, "d");
}

#[test]
fn update_keeps_cursor_in_place() {
    let mut pool = RegisterNodeRR::new();
    let nodes = vec![
        mk_node("a", "worker", "10.0.0.1:9000"),
        mk_node("b", "worker", "10.0.0.2:9000"),
        mk_node("c", "worker", "10.0.0.3:9000"),
    ];
    pool.update(&nodes);
    assert_eq!(pool.get().unwrap().uid, "a");
    // A refresh with the same membership does not move the cursor.
    pool.update(&nodes);
    assert_eq!(pool.get().unwrap().uid, "b");
}

#[test]
fn erase_removes_all_entries_with_uid() {
    let mut pool = RegisterNodeRR::new();
    let nodes = vec![
        mk_node("a", "worker", "10.0.0.1:9000"),
        mk_node("b", "worker", "10.0.0.2:9000"),
        mk_node("b", "worker", "10.0.0.3:9000"),
        mk_node("c", "worker", "10.0.0.4:9000"),
    ];
    pool.update(&nodes);
    pool.erase("b".to_string());
    assert_eq!(pool.get().unwrap().uid, "a");
    assert_eq!(pool.get().unwrap().uid, "c");
    assert_eq!(pool.get().unwrap().uid, "a");
}

#[test]
fn erase_missing_uid_changes_nothing() {
    let mut pool = RegisterNodeRR::new();
    let nodes = vec![
        mk_node("a", "worker", "10.0.0.1:9000"),
        mk_node("b", "worker", "10.0.0.2:9000"),
    ];
    pool.update(&nodes);
    pool.erase("zz".to_string());
    assert_eq!(pool.get().unwrap().uid, "a");
    assert_eq!(pool.get().unwrap().uid, "b");
}
