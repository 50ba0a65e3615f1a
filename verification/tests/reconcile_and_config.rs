use node_discovery::config::{ExampleConfig, Redis, EtcdEndPoint, NodeLookup, u16_to_string};
use node_discovery::node_types::{clone_node, RegisterNode, ServiceNode};
use node_discovery::reconcile::{
    build_query_request, build_register_request, http_success, registration_step, wrap_http_url,
    FanOut, RegAction, RegPhase, PATH_HTTP_DEREGISTER, PATH_HTTP_NODE_QUERY, PATH_HTTP_REGISTER,
};
use node_discovery::app_status::AppStatus;
use node_discovery::session::SessionIdGen;
use node_discovery::trigger::RefreshTrigger;

#[test]
fn url_wrapping_is_exact() {
    assert_eq!(
        wrap_http_url("lookup-1.example:8443", PATH_HTTP_REGISTER),
        "https://lookup-1.example:8443/lookup/api/v1/register"
    );
    assert_eq!(
        wrap_http_url("h", PATH_HTTP_DEREGISTER),
        "https://h/lookup/api/v1/deregister"
    );
    assert_eq!(wrap_http_url("h", PATH_HTTP_NODE_QUERY), "https://h/lookup/api/v1/query");
}

#[test]
fn register_request_carries_http_scheme_only() {
    let r = build_register_request("http", "10.0.0.1:9000", "worker", "uid-1");
    assert_eq!(r.uid, "uid-1");
    assert_eq!(r.node_type, "worker");
    assert_eq!(r.api_root, "10.0.0.1:9000");
    assert_eq!(r.scheme, "http");

    let r = build_register_request("", "10.0.0.1:9000", "worker", "uid-1");
    assert_eq!(r.scheme, "");

    let r = build_register_request("https", "10.0.0.1:9000", "worker", "uid-1");
    assert_eq!(r.scheme, "");
}

#[test]
fn query_request_excludes_lookup_type_only() {
    let q = build_query_request("uid-1");
    assert_eq!(q.from_uid, "uid-1");
    assert!(q.uid_filter.exclude.is_empty());
    assert!(q.uid_filter.included.is_empty());
    assert!(q.type_filter.included.is_empty());
    assert_eq!(q.type_filter.exclude, vec!["lookup".to_string()]);
}

#[test]
fn success_is_status_200_alone() {
    assert!(http_success(200));
    assert!(!http_success(201));
    assert!(!http_success(500));
    assert!(!http_success(0));
}

#[test]
fn fan_out_takes_first_success() {
    // First replica answers 500, the second 200: the pass succeeds
    // at the second replica.
    let mut f = FanOut::new(2);
    assert_eq!(f.current(), Some(0));
    f.observe(500);
    assert_eq!(f.current(), Some(1));
    f.observe(200);
    assert_eq!(f.current(), None);
    assert!(f.done);
    assert!(f.succeeded);
    assert_eq!(f.next, 1);
}

#[test]
fn fan_out_stops_at_first_success_without_trying_more() {
    let mut f = FanOut::new(3);
    f.observe(200);
    assert!(f.done && f.succeeded);
    assert_eq!(f.next, 0);
}

#[test]
fn fan_out_fails_after_all_replicas() {
    let mut f = FanOut::new(2);
    f.observe(500);
    f.observe(503);
    assert!(f.done);
    assert!(!f.succeeded);
    assert_eq!(f.current(), None);
}

#[test]
fn fan_out_with_no_replicas_fails_immediately() {
    let f = FanOut::new(0);
    assert!(f.done);
    assert!(!f.succeeded);
    assert_eq!(f.current(), None);
}

#[test]
fn exit_flag_causes_exactly_one_deregistration() {
    // Drive the loop's state machine: two normal cycles, then the
    // exit flag is observed. One deregistration follows, then
    // nothing.
    let exits = [false, false, true, true, true, true];
    let mut phase = RegPhase::Registering;
    let mut actions = Vec::new();
    for e in exits.iter() {
        let (next, action) = registration_step(phase, *e);
        phase = next;
        actions.push(action);
    }
    assert_eq!(
        actions,
        vec![
            RegAction::Reconcile,
            RegAction::Reconcile,
            RegAction::Idle,
            RegAction::Deregister,
            RegAction::Idle,
            RegAction::Idle,
        ]
    );
    assert_eq!(phase, RegPhase::Stopped);
    assert_eq!(actions.iter().filter(|a| **a == RegAction::Deregister).count(), 1);
}

#[test]
fn refresh_trigger_coalesces_notifications() {
    let mut t = RefreshTrigger::new();
    assert!(!t.take());
    t.notify();
    t.notify();
    t.notify();
    assert!(t.take());
    assert!(!t.take());
}

#[test]
fn port_numbers_render_in_decimal() {
    assert_eq!(u16_to_string(0), "0");
    assert_eq!(u16_to_string(7), "7");
    assert_eq!(u16_to_string(80), "80");
    assert_eq!(u16_to_string(6379), "6379");
    assert_eq!(u16_to_string(65535), "65535");
}

#[test]
fn config_builds_connection_strings() {
    let mut cfg = ExampleConfig::new();
    cfg.redis.push(Redis { host: "r1.example".to_string(), port: 6379 });
    cfg.redis.push(Redis { host: "r2.example".to_string(), port: 7000 });
    cfg.etcd_endpoints.push(EtcdEndPoint { host: "e1.example:2379".to_string() });
    cfg.node_lookup_nodes.push(NodeLookup { host: "l1.example:8443".to_string() });
    cfg.node_lookup_nodes.push(NodeLookup { host: "l2.example:8443".to_string() });

    assert_eq!(
        cfg.get_redis_config(),
        vec!["redis://r1.example:6379".to_string(), "redis://r2.example:7000".to_string()]
    );
    assert_eq!(cfg.get_etcd_endpoints(), vec!["http://e1.example:2379".to_string()]);
    assert_eq!(
        cfg.get_node_lookup_nodes(),
        vec!["l1.example:8443".to_string(), "l2.example:8443".to_string()]
    );
}

#[test]
fn config_esl_info_is_the_three_fields() {
    let mut cfg = ExampleConfig::new();
    cfg.esl_inbound_addr = "10.0.0.5:8021".to_string();
    cfg.esl_inbound_password = "SECRET-REDACTED".to_string();
    cfg.esl_inbound_gw = "gw0".to_string();
    let (addr, pass, gw) = cfg.get_esl_inbound_info();
    assert_eq!(addr, "10.0.0.5:8021");
    assert_eq!(pass, "SECRET-REDACTED");
    assert_eq!(gw, "gw0");
}

#[test]
fn session_ids_step_the_low_half() {
    let mut g = SessionIdGen::new();
    let a = g.next();
    let b = g.next();
    let c = g.next();
    assert_eq!(a >> 32, b >> 32);
    assert_eq!(b >> 32, c >> 32);
    assert_eq!(b - a, 1);
    assert_eq!(c - b, 1);
    // The high half stays within 31 bits.
    assert!(a >> 63 == 0);
}

#[test]
fn node_validity_requires_uid_type_and_address() {
    let mut n = RegisterNode::new();
    assert!(!clone_node(&n).valid());
    n.uid = "a".to_string();
    n.node_type = "worker".to_string();
    assert!(!clone_node(&n).valid());
    n.api_root = "10.0.0.1:9000".to_string();
    assert!(n.valid());

    let mut s = ServiceNode::new();
    s.uid = "a".to_string();
    s.node_type = "worker".to_string();
    assert!(!s.valid());
}

#[test]
fn app_status_labels_are_lowercase() {
    assert_eq!(AppStatus::INIT.label(), "init");
    assert_eq!(AppStatus::RUNNING.label(), "running");
    assert_eq!(AppStatus::EXITING("15".to_string()).label(), "exiting");
    assert_eq!(AppStatus::EXITED.label(), "exited");
    assert_eq!(AppStatus::default(), AppStatus::INIT);
    assert_eq!(AppStatus::EXITING("15".to_string()).clone(), AppStatus::EXITING("15".to_string()));
}
