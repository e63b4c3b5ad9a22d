use komodo_terminal::entities::{
    CachedServerStatus, ContainerTerminalMode, InitTerminal, PeripheryInformation, Server,
    ServerConfig, ServerState, StackServiceStatus, SwarmNodeListItem, SwarmTask,
    TaskContainerStatus, TaskState, TaskStatus, TerminalRecreateMode, TerminalTarget,
};
use komodo_terminal::error::TerminalError;
use komodo_terminal::terminal::{
    cached_node_candidates, check_task_server, container_create_request,
    container_terminal_request, default_container_terminal_name, default_server_terminal_name,
    find_server_for_node_identities, setup_plan, stack_service_container, swarm_task_placement,
    ContainerTerminalRequest, SetupPlan,
};

fn server(name: &str, address: &str) -> Server {
    Server {
        id: format!("id-{name}"),
        name: name.to_string(),
        config: ServerConfig { address: address.to_string(), external_address: String::new() },
    }
}

fn init(command: Option<&str>, mode: Option<ContainerTerminalMode>) -> InitTerminal {
    InitTerminal {
        command: command.map(|c| c.to_string()),
        recreate: TerminalRecreateMode::DifferentCommand,
        mode,
    }
}

fn task(
    id: Option<&str>,
    node: Option<&str>,
    state: Option<TaskState>,
    container: Option<&str>,
) -> SwarmTask {
    SwarmTask {
        id: id.map(|s| s.to_string()),
        node_id: node.map(|s| s.to_string()),
        status: Some(TaskStatus {
            state,
            container_status: Some(TaskContainerStatus {
                container_id: container.map(|s| s.to_string()),
            }),
        }),
    }
}

#[test]
fn container_terminal_names() {
    assert_eq!(default_container_terminal_name(Some("mine".into()), "web", None), "mine");
    assert_eq!(default_container_terminal_name(None, "web", None), "web");
    let i = init(Some("bash"), None);
    assert_eq!(default_container_terminal_name(None, "web", Some(&i)), "bash");
    let i = init(None, None);
    assert_eq!(default_container_terminal_name(None, "web", Some(&i)), "exec");
    let i = init(None, Some(ContainerTerminalMode::Attach));
    assert_eq!(default_container_terminal_name(None, "web", Some(&i)), "attach");
}

#[test]
fn server_terminal_names() {
    assert_eq!(default_server_terminal_name(Some("t".into()), None), "t");
    assert_eq!(default_server_terminal_name(None, None), "term");
    let i = init(Some("htop"), None);
    assert_eq!(default_server_terminal_name(None, Some(&i)), "htop");
    let i = init(None, Some(ContainerTerminalMode::Attach));
    assert_eq!(default_server_terminal_name(None, Some(&i)), "term");
}

#[test]
fn setup_plans_and_missing_params() {
    match setup_plan(TerminalTarget::Server { server: Some("s1".into()) }) {
        Ok(SetupPlan::Server { server }) => assert_eq!(server, "s1"),
        other => panic!("unexpected {other:?}"),
    }
    match setup_plan(TerminalTarget::Server { server: None }) {
        Err(e) => assert_eq!(e.message(), "Missing 'target.params.server'"),
        other => panic!("unexpected {other:?}"),
    }
    match setup_plan(TerminalTarget::Stack { stack: "st".into(), service: None, task: None }) {
        Err(e) => assert_eq!(e.message(), "Missing 'target.params.service'"),
        other => panic!("unexpected {other:?}"),
    }
    match setup_plan(TerminalTarget::Stack {
        stack: "st".into(),
        service: Some("db".into()),
        task: None,
    }) {
        Ok(SetupPlan::StackService { stack, service }) => {
            assert_eq!(stack, "st");
            assert_eq!(service, "db");
        }
        other => panic!("unexpected {other:?}"),
    }
    match setup_plan(TerminalTarget::SwarmTask { swarm: "sw".into(), task: "t".into() }) {
        Ok(SetupPlan::SwarmTask { swarm, task }) => assert_eq!((swarm, task), ("sw".into(), "t".into())),
        other => panic!("unexpected {other:?}"),
    }
}

#[test]
fn container_requests_by_mode() {
    let target = TerminalTarget::Container { server: "s".into(), container: "c".into() };
    let create = container_create_request(&"term1".to_string(), &target, init(Some("sh"), None));
    assert_eq!(create.name.as_deref(), Some("term1"));
    assert_eq!(create.command.as_deref(), Some("sh"));
    match container_terminal_request(create, "c".into()) {
        ContainerTerminalRequest::Exec { name, container, command, .. } => {
            assert_eq!(name.as_deref(), Some("term1"));
            assert_eq!(container, "c");
            assert_eq!(command.as_deref(), Some("sh"));
        }
        other => panic!("unexpected {other:?}"),
    }
    let create = container_create_request(
        &"term2".to_string(),
        &target,
        init(None, Some(ContainerTerminalMode::Attach)),
    );
    match container_terminal_request(create, "c".into()) {
        ContainerTerminalRequest::Attach { name, container, .. } => {
            assert_eq!(name.as_deref(), Some("term2"));
            assert_eq!(container, "c");
        }
        other => panic!("unexpected {other:?}"),
    }
}

#[test]
fn stack_service_containers() {
    let services = vec![
        StackServiceStatus {
            service: "web".into(),
            container_name: Some("stack-web-1".into()),
            swarm_service_id: None,
        },
        StackServiceStatus { service: "db".into(), container_name: None, swarm_service_id: None },
    ];
    assert_eq!(stack_service_container(&services, "web").unwrap(), "stack-web-1");
    match stack_service_container(&services, "db") {
        Err(e) => assert_eq!(e.message(), "Did not find container for Stack service db"),
        other => panic!("unexpected {other:?}"),
    }
    match stack_service_container(&services, "cache") {
        Err(e) => assert_eq!(e.message(), "Did not find Stack service matching cache"),
        other => panic!("unexpected {other:?}"),
    }
}

#[test]
fn task_placements() {
    let p = swarm_task_placement(&task(Some("t1"), Some("n1"), Some(TaskState::RUNNING), Some("c1")), true)
        .unwrap();
    assert_eq!((p.task_id.as_str(), p.node_id.as_str(), p.container.as_str()), ("t1", "n1", "c1"));
    let p = swarm_task_placement(&task(Some("t1"), Some("n1"), Some(TaskState::COMPLETE), None), false)
        .unwrap();
    assert_eq!(p.container, "");
    match swarm_task_placement(&task(None, Some("n1"), None, None), false) {
        Err(e) => assert_eq!(e.message(), "Swarm task inspect missing task ID"),
        other => panic!("unexpected {other:?}"),
    }
    match swarm_task_placement(&task(Some("t1"), None, None, None), false) {
        Err(e) => assert_eq!(e.message(), "Swarm task has no assigned node"),
        other => panic!("unexpected {other:?}"),
    }
    match swarm_task_placement(&task(Some("t1"), Some("n"), Some(TaskState::FAILED), Some("c")), true) {
        Err(TerminalError::TaskNotRunning { task_id, state }) => {
            assert_eq!(task_id, "t1");
            assert_eq!(state, Some(TaskState::FAILED));
        }
        other => panic!("unexpected {other:?}"),
    }
}

#[test]
fn task_server_checks() {
    let s = server("w1", "http://w1:8120");
    assert!(check_task_server(&s, None).is_ok());
    let healthy = CachedServerStatus { state: ServerState::Healthy, system_info: None, periphery_info: None };
    assert!(check_task_server(&s, Some(&healthy)).is_ok());
    let down = CachedServerStatus { state: ServerState::NotOk, system_info: None, periphery_info: None };
    match check_task_server(&s, Some(&down)) {
        Err(e) => assert_eq!(e.message(), "Server w1 (id-w1) hosting Swarm task is not connected"),
        other => panic!("unexpected {other:?}"),
    }
    let disabled = CachedServerStatus {
        state: ServerState::Healthy,
        system_info: None,
        periphery_info: Some(PeripheryInformation {
            public_ip: None,
            container_terminals_disabled: true,
        }),
    };
    match check_task_server(&s, Some(&disabled)) {
        Err(e) => assert_eq!(e.message(), "Container terminals are disabled on Server w1 (id-w1)"),
        other => panic!("unexpected {other:?}"),
    }
}

#[test]
fn node_candidates_from_cache() {
    let nodes = vec![
        SwarmNodeListItem { id: Some("a".into()), hostname: None, name: None, manager_addr: None },
        SwarmNodeListItem {
            id: Some("b".into()),
            hostname: Some("node-b".into()),
            name: None,
            manager_addr: None,
        },
    ];
    assert!(cached_node_candidates(&nodes, "z").is_none());
    assert_eq!(cached_node_candidates(&nodes, "b").unwrap().unwrap(), vec!["node-b".to_string()]);
    match cached_node_candidates(&nodes, "a") {
        Some(Err(e)) => assert_eq!(e.message(), "Swarm node a has no hostname / name / address to match"),
        other => panic!("unexpected {other:?}"),
    }
}

#[test]
fn find_server_by_node_identity() {
    let servers = vec![
        (server("alpha", "http://alpha.internal:8120"), None),
        (
            server("beta", "http://10.1.0.2:8120"),
            Some(CachedServerStatus {
                state: ServerState::Healthy,
                system_info: None,
                periphery_info: Some(PeripheryInformation {
                    public_ip: Some("198.51.100.7".into()),
                    container_terminals_disabled: false,
                }),
            }),
        ),
    ];
    let found = find_server_for_node_identities(&servers, &["198.51.100.7".to_string()]).unwrap();
    assert_eq!(found.id, "id-beta");
    let found = find_server_for_node_identities(&servers, &["ALPHA.internal".to_string()]).unwrap();
    assert_eq!(found.id, "id-alpha");
    match find_server_for_node_identities(&servers, &["gamma".to_string()]) {
        Err(e) => assert!(e.message().contains("[gamma]")),
        other => panic!("unexpected {other:?}"),
    }
}
