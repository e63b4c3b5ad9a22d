use komodo_terminal::entities::{
    Deployment, Server, ServerConfig, Stack, StackServiceStatus, Swarm, SwarmTaskListItem,
    Terminal, TerminalSortBy, TerminalTarget,
};
use komodo_terminal::gather::{
    add_missing_servers, list_plan, relabel_server_terminals, server_missing,
    sort_dedup_terminals, stack_listing, stack_swarm_service_ids, stack_tasks_to_query, ListPlan,
    StackListing,
};
use komodo_terminal::listing::{
    compare_targets, contains_text, filter_terminals_by_terms, page_terminals, select_terminals,
    size_order_key, sort_terminals,
};

fn term(name: &str, target: TerminalTarget, command: &str, size: f64, created: i64) -> Terminal {
    Terminal {
        name: name.to_string(),
        target,
        target_name: None,
        command: command.to_string(),
        stored_size_kb_bits: size.to_bits(),
        created_at: created,
    }
}

fn server_target(s: &str) -> TerminalTarget {
    TerminalTarget::Server { server: Some(s.to_string()) }
}

fn names(ts: &[Terminal]) -> Vec<String> {
    ts.iter().map(|t| t.name.clone()).collect()
}

fn server(name: &str) -> Server {
    Server {
        id: format!("id-{name}"),
        name: name.to_string(),
        config: ServerConfig { address: String::new(), external_address: String::new() },
    }
}

#[test]
fn sort_by_name_ascending_and_descending() {
    let ts = vec![
        term("b", server_target("s"), "", 0.0, 0),
        term("a", server_target("s"), "", 0.0, 0),
        term("c", server_target("s"), "", 0.0, 0),
    ];
    assert_eq!(names(&sort_terminals(ts.clone(), TerminalSortBy::Name, false)), ["a", "b", "c"]);
    assert_eq!(names(&sort_terminals(ts, TerminalSortBy::Name, true)), ["c", "b", "a"]);
}

#[test]
fn sort_ties_keep_order_and_fall_back_to_name() {
    let ts = vec![
        term("x", server_target("s"), "sh", 0.0, 5),
        term("a", server_target("s"), "sh", 0.0, 5),
        term("x", TerminalTarget::Deployment { deployment: "d".into() }, "zsh", 0.0, 1),
    ];
    // created: 1 first, then the two with 5 by name
    let sorted = sort_terminals(ts.clone(), TerminalSortBy::Created, false);
    assert_eq!(names(&sorted), ["x", "a", "x"]);
    assert_eq!(sorted[0].created_at, 1);
    // command: "sh" ties broken by name; identical keys keep their order
    let ts2 = vec![
        term("same", server_target("first"), "sh", 0.0, 0),
        term("same", server_target("second"), "sh", 0.0, 0),
    ];
    let sorted = sort_terminals(ts2, TerminalSortBy::Command, true);
    assert_eq!(sorted[0].target, server_target("first"));
    assert_eq!(sorted[1].target, server_target("second"));
}

#[test]
fn sort_by_size_uses_total_order() {
    let ts = vec![
        term("big", server_target("s"), "", 10.5, 0),
        term("neg", server_target("s"), "", -3.0, 0),
        term("zero", server_target("s"), "", 0.0, 0),
        term("small", server_target("s"), "", 0.25, 0),
    ];
    assert_eq!(
        names(&sort_terminals(ts, TerminalSortBy::Size, false)),
        ["neg", "zero", "small", "big"]
    );
    assert!(size_order_key((-0.0f64).to_bits()) < size_order_key(0.0f64.to_bits()));
    assert!(size_order_key(1.0f64.to_bits()) < size_order_key(f64::INFINITY.to_bits()));
}

#[test]
fn sort_by_target_follows_variant_then_fields() {
    let ts = vec![
        term("t1", TerminalTarget::SwarmTask { swarm: "a".into(), task: "b".into() }, "", 0.0, 0),
        term("t2", TerminalTarget::Container { server: "s".into(), container: "c".into() }, "", 0.0, 0),
        term("t3", TerminalTarget::Server { server: None }, "", 0.0, 0),
        term("t4", server_target("a"), "", 0.0, 0),
    ];
    assert_eq!(
        names(&sort_terminals(ts, TerminalSortBy::Target, false)),
        ["t3", "t4", "t2", "t1"]
    );
    assert!(compare_targets(&server_target("a"), &server_target("b")) < 0);
    assert_eq!(compare_targets(&server_target("a"), &server_target("a")), 0);
    assert!(
        compare_targets(
            &TerminalTarget::Deployment { deployment: "z".into() },
            &TerminalTarget::Stack { stack: "a".into(), service: None, task: None }
        ) > 0
    );
}

#[test]
fn terms_filter_ignores_case() {
    let ts = vec![
        term("Node-One", server_target("s"), "", 0.0, 0),
        term("other", server_target("s"), "", 0.0, 0),
        term("one-node", server_target("s"), "", 0.0, 0),
    ];
    let kept = filter_terminals_by_terms(ts.clone(), &["NODE".to_string(), "one".to_string()]);
    assert_eq!(names(&kept), ["Node-One", "one-node"]);
    assert_eq!(filter_terminals_by_terms(ts.clone(), &[]).len(), 3);
    assert!(filter_terminals_by_terms(ts, &["zzz".to_string()]).is_empty());
    assert!(contains_text("abcdef", "cde"));
    assert!(contains_text("abc", ""));
    assert!(!contains_text("ab", "abc"));
}

#[test]
fn paging_skips_and_limits() {
    let ts: Vec<Terminal> =
        (0..5).map(|i| term(&format!("t{i}"), server_target("s"), "", 0.0, 0)).collect();
    assert_eq!(names(&page_terminals(ts.clone(), 2, 0)), ["t0", "t1"]);
    assert_eq!(names(&page_terminals(ts.clone(), 2, 2)), ["t4"]);
    assert_eq!(page_terminals(ts.clone(), 2, 3).len(), 0);
    assert_eq!(page_terminals(ts.clone(), 0, 7).len(), 5);
    assert_eq!(page_terminals(ts, u64::MAX, u64::MAX).len(), 0);
}

#[test]
fn selection_filters_sorts_then_pages() {
    let ts = vec![
        term("web-b", server_target("s"), "", 0.0, 0),
        term("db", server_target("s"), "", 0.0, 0),
        term("web-a", server_target("s"), "", 0.0, 0),
        term("WEB-c", server_target("s"), "", 0.0, 0),
    ];
    let shown = select_terminals(ts, &["web".to_string()], TerminalSortBy::Name, true, 2, 0);
    assert_eq!(names(&shown), ["web-b", "web-a"]);
}

#[test]
fn list_plans() {
    assert!(matches!(list_plan(None), Ok(ListPlan::AllForUser)));
    match list_plan(Some(TerminalTarget::Server { server: None })) {
        Err(e) => {
            assert!(e.is_bad_request());
            assert_eq!(e.message(), "Must provide 'target.params.server'");
        }
        other => panic!("unexpected {other:?}"),
    }
    match list_plan(Some(TerminalTarget::Container { server: "s1".into(), container: "c".into() })) {
        Ok(ListPlan::Server { server, target }) => {
            assert_eq!(server, "s1");
            assert_eq!(target, TerminalTarget::Container { server: "s1".into(), container: "c".into() });
        }
        other => panic!("unexpected {other:?}"),
    }
    match list_plan(Some(TerminalTarget::Deployment { deployment: "d1".into() })) {
        Ok(ListPlan::Deployment { deployment, .. }) => assert_eq!(deployment, "d1"),
        other => panic!("unexpected {other:?}"),
    }
    match list_plan(Some(TerminalTarget::Stack {
        stack: "st".into(),
        service: Some("web".into()),
        task: None,
    })) {
        Ok(ListPlan::Stack { stack, service, task }) => {
            assert_eq!(stack, "st");
            assert_eq!(service.as_deref(), Some("web"));
            assert_eq!(task, None);
        }
        other => panic!("unexpected {other:?}"),
    }
}

#[test]
fn relabel_by_permission_and_resource() {
    let ts = vec![
        term("srv", TerminalTarget::Server { server: Some("id-s".into()) }, "", 0.0, 0),
        term("ctr", TerminalTarget::Container { server: "id-s".into(), container: "c".into() }, "", 0.0, 0),
        term(
            "stk",
            TerminalTarget::Stack { stack: "st-1".into(), service: Some("web".into()), task: None },
            "",
            0.0,
            0,
        ),
        term("dep", TerminalTarget::Deployment { deployment: "dep-9".into() }, "", 0.0, 0),
        term("swt", TerminalTarget::SwarmTask { swarm: "sw-1".into(), task: "t".into() }, "", 0.0, 0),
    ];
    let stacks = vec![Stack {
        id: "st-1".into(),
        name: "shop".into(),
        server_id: "id-s".into(),
        swarm_id: String::new(),
    }];
    let deployments: Vec<Deployment> = vec![];
    let swarms = vec![Swarm { id: "sw-1".into(), name: "prod".into() }];
    let shown = relabel_server_terminals(
        &ts,
        &"id-s".to_string(),
        &"server-s".to_string(),
        true,
        &stacks,
        &deployments,
        &swarms,
        true,
    );
    assert_eq!(names(&shown), ["srv", "ctr", "stk", "swt"]);
    assert_eq!(shown[0].target, TerminalTarget::Server { server: Some("server-s".into()) });
    assert_eq!(shown[0].target_name.as_deref(), Some("server-s"));
    assert_eq!(
        shown[2].target,
        TerminalTarget::Stack { stack: "shop".into(), service: Some("web".into()), task: None }
    );
    assert_eq!(shown[3].target_name.as_deref(), Some("prod"));
    let shown = relabel_server_terminals(
        &ts,
        &"id-s".to_string(),
        &"server-s".to_string(),
        false,
        &stacks,
        &deployments,
        &swarms,
        false,
    );
    assert_eq!(names(&shown), ["stk", "swt"]);
    assert_eq!(shown[1].target, TerminalTarget::SwarmTask { swarm: "sw-1".into(), task: "t".into() });
}

#[test]
fn missing_servers_are_added_once() {
    let mut servers = vec![(server("a"), true)];
    assert!(!server_missing(&servers, "id-a"));
    assert!(!server_missing(&servers, ""));
    assert!(server_missing(&servers, "id-b"));
    add_missing_servers(&mut servers, vec![server("a"), server("b"), server("b"), server("c")]);
    let ids: Vec<(String, bool)> = servers.iter().map(|(s, p)| (s.id.clone(), *p)).collect();
    assert_eq!(
        ids,
        vec![
            ("id-a".to_string(), true),
            ("id-b".to_string(), false),
            ("id-c".to_string(), false)
        ]
    );
}

#[test]
fn stack_service_ids_and_tasks() {
    let services = vec![
        StackServiceStatus { service: "web".into(), container_name: None, swarm_service_id: Some("svc-w".into()) },
        StackServiceStatus { service: "db".into(), container_name: None, swarm_service_id: Some("svc-d".into()) },
        StackServiceStatus { service: "web".into(), container_name: None, swarm_service_id: Some("svc-w".into()) },
        StackServiceStatus { service: "cache".into(), container_name: None, swarm_service_id: None },
    ];
    assert_eq!(stack_swarm_service_ids(&services, None), vec!["svc-w".to_string(), "svc-d".to_string()]);
    assert_eq!(stack_swarm_service_ids(&services, Some("db")), vec!["svc-d".to_string()]);
    assert!(stack_swarm_service_ids(&services, Some("cache")).is_empty());

    let item = |id: Option<&str>, svc: Option<&str>, node: Option<&str>| SwarmTaskListItem {
        id: id.map(|s| s.to_string()),
        service_id: svc.map(|s| s.to_string()),
        node_id: node.map(|s| s.to_string()),
    };
    let tasks = vec![
        item(Some("t1"), Some("svc-w"), Some("n1")),
        item(Some("t2"), Some("svc-w"), Some("n1")),
        item(Some("t3"), Some("svc-x"), Some("n2")),
        item(None, Some("svc-w"), Some("n3")),
        item(Some("t5"), Some("svc-d"), Some("n2")),
        item(Some("t6"), Some("svc-d"), None),
        item(Some("t7"), Some("svc-w"), None),
    ];
    let ids = vec!["svc-w".to_string(), "svc-d".to_string()];
    assert_eq!(
        stack_tasks_to_query(&tasks, &ids),
        vec!["t1".to_string(), "t5".to_string(), "t6".to_string()]
    );
}

#[test]
fn no_service_ids_ask_no_task() {
    let tasks = vec![SwarmTaskListItem {
        id: Some("t1".into()),
        service_id: Some("svc-w".into()),
        node_id: Some("n1".into()),
    }];
    assert!(stack_tasks_to_query(&tasks, &[]).is_empty());
}

#[test]
fn gathered_stack_terminals_sorted_and_deduplicated() {
    let st = TerminalTarget::Stack { stack: "s".into(), service: None, task: None };
    let ts = vec![
        term("b", st.clone(), "", 0.0, 0),
        term("a", st.clone(), "", 0.0, 0),
        term("b", st.clone(), "", 0.0, 0),
        term("a", server_target("x"), "", 0.0, 0),
    ];
    let out = sort_dedup_terminals(ts);
    assert_eq!(names(&out), ["a", "a", "b"]);
    assert_eq!(out[0].target, st);
    assert_eq!(out[1].target, server_target("x"));
}

#[test]
fn stack_listing_places() {
    let plain = Stack { id: "st".into(), name: "web".into(), server_id: "s1".into(), swarm_id: String::new() };
    match stack_listing(&plain, Some("t1")) {
        StackListing::OnServer { server_id } => assert_eq!(server_id, "s1"),
        other => panic!("unexpected {other:?}"),
    }
    let swarmed = Stack { id: "st".into(), name: "web".into(), server_id: String::new(), swarm_id: "sw".into() };
    match stack_listing(&swarmed, Some("t1")) {
        StackListing::OnTaskNode { swarm_id, task } => {
            assert_eq!(swarm_id, "sw");
            assert_eq!(task, "t1");
        }
        other => panic!("unexpected {other:?}"),
    }
    match stack_listing(&swarmed, None) {
        StackListing::OnServiceNodes { swarm_id } => assert_eq!(swarm_id, "sw"),
        other => panic!("unexpected {other:?}"),
    }
}
