use komodo_terminal::entities::{
    CachedServerStatus, ManagerStatus, NodeDescription, NodeSpec, NodeStatus,
    PeripheryInformation, Server, ServerConfig, ServerState, SwarmNode, SwarmNodeListItem,
    SystemInformation, TaskState,
};
use komodo_terminal::error::TerminalError;
use komodo_terminal::swarm_terminal::{
    check_swarm_task_running_gate, identities_match, match_server_to_node_identities,
    no_server_match_error, node_identity_candidates_from_inspect,
    node_identity_candidates_from_list_item, normalize_host_candidate,
    normalize_host_candidate_with, push_unique_candidate, require_node_candidates,
    server_identity_candidates,
};

fn server_named(name: &str, address: &str) -> Server {
    Server {
        id: format!("id-{name}"),
        name: name.to_string(),
        config: ServerConfig { address: address.to_string(), external_address: String::new() },
    }
}

#[test]
fn normalize_strips_url_and_port() {
    assert_eq!(
        normalize_host_candidate("https://worker-1.example:8120"),
        Some("worker-1.example".into())
    );
    assert_eq!(normalize_host_candidate("10.0.0.5:2377"), Some("10.0.0.5".into()));
    assert_eq!(normalize_host_candidate("worker-1"), Some("worker-1".into()));
}

#[test]
fn identities_exact_and_short_vs_fqdn() {
    assert!(identities_match("Node1", "node1"));
    assert!(identities_match("node1", "node1.cluster.local"));
    assert!(identities_match("node1.cluster.local", "node1"));
    assert!(!identities_match("node1", "node2"));
}

#[test]
fn name_exact_match() {
    let server = server_named("worker-1", "http://127.0.0.1:8120");
    let servers = vec![(server.clone(), server_identity_candidates(&server, None))];
    let node = vec!["worker-1".to_string()];
    let matched = match_server_to_node_identities(&servers, &node);
    assert_eq!(matched.unwrap().id, server.id);
}

#[test]
fn host_name_exact_via_candidates() {
    let server = server_named("my-server", "http://127.0.0.1:8120");
    let mut cands = server_identity_candidates(&server, None);
    push_unique_candidate(&mut cands, Some("prod-worker.local"));
    let servers = vec![(server.clone(), cands)];
    let node = vec!["prod-worker.local".to_string()];
    assert!(match_server_to_node_identities(&servers, &node).is_some());
}

#[test]
fn short_vs_fqdn_match() {
    let server = server_named("node1", "http://127.0.0.1:8120");
    let servers = vec![(server.clone(), server_identity_candidates(&server, None))];
    let node = vec!["node1.cluster.local".to_string()];
    assert!(match_server_to_node_identities(&servers, &node).is_some());
}

#[test]
fn address_host_match() {
    let server = server_named("s1", "https://worker-a.internal:8120/path");
    let servers = vec![(server.clone(), server_identity_candidates(&server, None))];
    let node = vec!["worker-a.internal".to_string()];
    assert!(match_server_to_node_identities(&servers, &node).is_some());
}

#[test]
fn no_match_error_lists_candidates() {
    let err = no_server_match_error(&["node-x".into(), "10.1.1.1".into()]);
    let msg = err.message();
    assert!(msg.contains("node-x"));
    assert!(msg.contains("10.1.1.1"));
}

#[test]
fn running_gate() {
    check_swarm_task_running_gate("t1", Some(TaskState::RUNNING), Some("abc"), true).unwrap();
    assert!(
        check_swarm_task_running_gate("t1", Some(TaskState::SHUTDOWN), Some("abc"), true).is_err()
    );
    assert!(check_swarm_task_running_gate("t1", Some(TaskState::RUNNING), None, true).is_err());
    check_swarm_task_running_gate("t1", Some(TaskState::SHUTDOWN), None, false).unwrap();
}

#[test]
fn running_gate_errors_and_messages() {
    match check_swarm_task_running_gate("t1", Some(TaskState::SHUTDOWN), Some("abc"), true) {
        Err(e) => {
            assert_eq!(e.message(), "Swarm task t1 is not running (state: Some(SHUTDOWN))");
        }
        Ok(()) => panic!("expected a refusal"),
    }
    match check_swarm_task_running_gate("t2", None, Some("abc"), true) {
        Err(e) => assert_eq!(e.message(), "Swarm task t2 is not running (state: None)"),
        Ok(()) => panic!("expected a refusal"),
    }
    match check_swarm_task_running_gate("t3", Some(TaskState::RUNNING), Some(""), true) {
        Err(e) => assert_eq!(e.message(), "Swarm task t3 has no container ID"),
        Ok(()) => panic!("expected a refusal"),
    }
}

#[test]
fn normalize_forms() {
    assert_eq!(normalize_host_candidate("   "), None);
    assert_eq!(normalize_host_candidate(""), None);
    assert_eq!(normalize_host_candidate("  worker-2  "), Some("worker-2".into()));
    assert_eq!(normalize_host_candidate("[::1]:8080"), Some("::1".into()));
    assert_eq!(normalize_host_candidate("[fe80::1]"), Some("fe80::1".into()));
    assert_eq!(normalize_host_candidate("worker-3:8120"), Some("worker-3".into()));
    assert_eq!(normalize_host_candidate("host:"), Some("host".into()));
    assert_eq!(normalize_host_candidate("host:abc"), Some("host:abc".into()));
    assert_eq!(normalize_host_candidate("http://10.0.0.7:8120/x"), Some("10.0.0.7".into()));
}

#[test]
fn raw_ipv6_address_is_kept_whole() {
    assert_eq!(normalize_host_candidate("2001:db8::1"), Some("2001:db8::1".into()));
    assert_eq!(normalize_host_candidate("fe80::1:22"), Some("fe80::1:22".into()));
    assert_eq!(normalize_host_candidate_with("2001:db8::1", None), Some("2001:db8::1".into()));
}

#[test]
fn distinct_addresses_do_not_match() {
    assert!(!identities_match("10.0.0.5", "10.1.1.1"));
    assert!(!identities_match("10.0.0.5", "10.0.0.6"));
    assert!(identities_match("10.0.0.5", "10.0.0.5"));
    assert!(identities_match("node1", "node1.cluster.local"));
}

#[test]
fn normalize_given_parsed_host() {
    // the URL host wins when it is not blank
    assert_eq!(
        normalize_host_candidate_with(" anything:1 ", Some(" parsed.host ")),
        Some("parsed.host".into())
    );
    // a blank URL host falls through to the host:port split
    assert_eq!(normalize_host_candidate_with("node:99", Some("  ")), Some("node".into()));
    assert_eq!(normalize_host_candidate_with("node:99", None), Some("node".into()));
    assert_eq!(normalize_host_candidate_with("  ", Some("x")), None);
    assert_eq!(normalize_host_candidate_with("[]:5", None), Some("[]:5".into()));
}

#[test]
fn identities_blank_never_match() {
    assert!(!identities_match("", "node1"));
    assert!(!identities_match("node1", "   "));
    assert!(identities_match(" node1 ", "NODE1"));
    assert!(!identities_match("node1.a", "node1.b"));
    assert!(!identities_match("node10", "node1.cluster"));
}

#[test]
fn identities_match_is_symmetric_on_examples() {
    let pairs = [("a.b", "a"), ("A", "a.c"), ("x", "y"), ("web.prod", "WEB"), ("", "a")];
    for (a, b) in pairs {
        assert_eq!(identities_match(a, b), identities_match(b, a));
    }
}

#[test]
fn push_unique_skips_duplicates_ignoring_case() {
    let mut out = Vec::new();
    push_unique_candidate(&mut out, Some("Worker-1"));
    push_unique_candidate(&mut out, Some("worker-1"));
    push_unique_candidate(&mut out, None);
    push_unique_candidate(&mut out, Some("   "));
    push_unique_candidate(&mut out, Some("https://WORKER-1:8120"));
    push_unique_candidate(&mut out, Some("10.0.0.1:2377"));
    assert_eq!(out, vec!["Worker-1".to_string(), "10.0.0.1".to_string()]);
    let before = out.clone();
    push_unique_candidate(&mut out, Some("10.0.0.1"));
    assert_eq!(out, before);
}

#[test]
fn list_item_candidates() {
    let node = SwarmNodeListItem {
        id: Some("n1".into()),
        hostname: Some("node1.local".into()),
        name: Some("NODE1.local".into()),
        manager_addr: Some("10.0.0.2:2377".into()),
    };
    assert_eq!(
        node_identity_candidates_from_list_item(&node),
        vec!["node1.local".to_string(), "10.0.0.2".to_string()]
    );
}

#[test]
fn inspect_candidates() {
    let node = SwarmNode {
        description: Some(NodeDescription { hostname: Some("worker-9".into()) }),
        node_spec: Some(NodeSpec { name: None }),
        status: Some(NodeStatus { addr: Some("10.0.0.9".into()) }),
        manager_status: Some(ManagerStatus { addr: Some("10.0.0.9:2377".into()) }),
    };
    assert_eq!(
        node_identity_candidates_from_inspect(&node),
        vec!["worker-9".to_string(), "10.0.0.9".to_string()]
    );
    let empty =
        SwarmNode { description: None, node_spec: None, status: None, manager_status: None };
    assert!(node_identity_candidates_from_inspect(&empty).is_empty());
}

#[test]
fn server_candidates_with_status() {
    let mut server = server_named("alpha", "https://alpha.example:8120");
    server.config.external_address = "alpha-ext.example".into();
    let status = CachedServerStatus {
        state: ServerState::Healthy,
        system_info: Some(SystemInformation { host_name: Some("alpha-host".into()) }),
        periphery_info: Some(PeripheryInformation {
            public_ip: Some("203.0.113.5".into()),
            container_terminals_disabled: false,
        }),
    };
    assert_eq!(
        server_identity_candidates(&server, Some(&status)),
        vec![
            "alpha".to_string(),
            "alpha.example".to_string(),
            "alpha-ext.example".to_string(),
            "alpha-host".to_string(),
            "203.0.113.5".to_string()
        ]
    );
}

#[test]
fn match_returns_first_matching_server() {
    let a = server_named("a", "http://10.0.0.1:8120");
    let b = server_named("worker", "http://10.0.0.2:8120");
    let c = server_named("worker.cluster", "http://10.0.0.3:8120");
    let servers = vec![
        (a.clone(), server_identity_candidates(&a, None)),
        (b.clone(), server_identity_candidates(&b, None)),
        (c.clone(), server_identity_candidates(&c, None)),
    ];
    let node = vec!["WORKER".to_string()];
    assert_eq!(match_server_to_node_identities(&servers, &node).unwrap().id, "id-worker");
    // an address matches only itself, not another address with the same first label
    let node = vec!["10.0.0.3".to_string()];
    assert_eq!(match_server_to_node_identities(&servers, &node).unwrap().id, "id-worker.cluster");
    let node = vec!["worker.cluster".to_string()];
    assert_eq!(match_server_to_node_identities(&servers, &node).unwrap().id, "id-worker");
    let none = vec!["other".to_string()];
    assert!(match_server_to_node_identities(&servers, &none).is_none());
}

#[test]
fn no_match_error_without_candidates() {
    let err = no_server_match_error(&[]);
    assert_eq!(
        err.message(),
        "No Komodo Server matches Swarm node identity candidates [(none)]. Add the node as a Server with Periphery installed, matching Server name, system hostname, address host, or public IP."
    );
    let err = no_server_match_error(&["a".into(), "b".into()]);
    assert!(err.message().contains("[a, b]"));
}

#[test]
fn require_node_candidates_refuses_empty() {
    assert_eq!(require_node_candidates("n1", vec!["x".into()]).unwrap(), vec!["x".to_string()]);
    match require_node_candidates("n1", vec![]) {
        Err(e) => {
            assert!(matches!(e, TerminalError::NodeWithoutCandidates { .. }));
            assert_eq!(e.message(), "Swarm node n1 has no hostname / name / address to match");
        }
        Ok(_) => panic!("expected a refusal"),
    }
}
