use komodo_terminal::entities::{
    CachedServerStatus, NodeDescription, Server, ServerConfig, ServerState, SwarmNode,
    SwarmNodeListItem, SwarmTask, TaskContainerStatus, TaskState, TaskStatus,
};
use komodo_terminal::error::TerminalError;
use komodo_terminal::task_resolution::{Resolution, ResolutionAction, ResolutionEvent};

fn server(name: &str, address: &str) -> Server {
    Server {
        id: format!("id-{name}"),
        name: name.to_string(),
        config: ServerConfig { address: address.to_string(), external_address: String::new() },
    }
}

fn running_task(container: Option<&str>) -> SwarmTask {
    SwarmTask {
        id: Some("t1".into()),
        node_id: Some("n1".into()),
        status: Some(TaskStatus {
            state: Some(TaskState::RUNNING),
            container_status: Some(TaskContainerStatus {
                container_id: container.map(|c| c.to_string()),
            }),
        }),
    }
}

fn step(state: Resolution, event: ResolutionEvent) -> (Resolution, ResolutionAction) {
    assert!(state.waits_for(&event));
    state.step(event)
}

#[test]
fn resolution_through_cached_node() {
    let (state, action) = Resolution::begin(true);
    assert!(matches!(action, ResolutionAction::InspectTask));
    let (state, action) =
        step(state, ResolutionEvent::TaskInspected { task: running_task(Some("c9")) });
    assert!(matches!(action, ResolutionAction::ReadCachedNodes));
    let nodes = vec![SwarmNodeListItem {
        id: Some("n1".into()),
        hostname: Some("worker-1.example.com".into()),
        name: None,
        manager_addr: None,
    }];
    let (state, action) = step(state, ResolutionEvent::NodesRead { nodes });
    assert!(matches!(action, ResolutionAction::ListServers));
    let servers =
        vec![(server("a", "http://other:8120"), None), (server("w", "https://worker-1:8120"), None)];
    let (state, action) = step(state, ResolutionEvent::ServersListed { servers });
    match &action {
        ResolutionAction::ReadServerStatus { server_id } => assert_eq!(server_id, "id-w"),
        other => panic!("unexpected {other:?}"),
    }
    let status =
        Some(CachedServerStatus { state: ServerState::Healthy, system_info: None, periphery_info: None });
    let (state, action) = step(state, ResolutionEvent::StatusRead { status });
    assert!(matches!(state, Resolution::Done));
    match action {
        ResolutionAction::Connect { server, task_id, container } => {
            assert_eq!(server.id, "id-w");
            assert_eq!(task_id, "t1");
            assert_eq!(container, "c9");
        }
        other => panic!("unexpected {other:?}"),
    }
}

#[test]
fn resolution_inspects_uncached_node() {
    let (state, _) = Resolution::begin(false);
    let (state, _) = step(state, ResolutionEvent::TaskInspected { task: running_task(None) });
    let (state, action) = step(state, ResolutionEvent::NodesRead { nodes: Vec::new() });
    match &action {
        ResolutionAction::InspectNode { node_id } => assert_eq!(node_id, "n1"),
        other => panic!("unexpected {other:?}"),
    }
    let node = SwarmNode {
        description: Some(NodeDescription { hostname: Some("box".into()) }),
        node_spec: None,
        status: None,
        manager_status: None,
    };
    let (state, action) = step(state, ResolutionEvent::NodeInspected { node });
    assert!(matches!(action, ResolutionAction::ListServers));
    let (state, action) = step(
        state,
        ResolutionEvent::ServersListed { servers: vec![(server("box", "http://box:8120"), None)] },
    );
    assert!(matches!(action, ResolutionAction::ReadServerStatus { .. }));
    let (_, action) = step(state, ResolutionEvent::StatusRead { status: None });
    match action {
        ResolutionAction::Connect { container, .. } => assert_eq!(container, ""),
        other => panic!("unexpected {other:?}"),
    }
}

#[test]
fn resolution_refusals() {
    let (state, _) = Resolution::begin(true);
    match step(state, ResolutionEvent::TaskInspected { task: running_task(None) }) {
        (Resolution::Done, ResolutionAction::Refuse { error }) => {
            assert_eq!(error.message(), "Swarm task t1 has no container ID")
        }
        other => panic!("unexpected {other:?}"),
    }

    let (state, _) = Resolution::begin(false);
    let (state, _) = step(state, ResolutionEvent::TaskInspected { task: running_task(None) });
    let nodes =
        vec![SwarmNodeListItem { id: Some("n1".into()), hostname: None, name: None, manager_addr: None }];
    match step(state, ResolutionEvent::NodesRead { nodes }) {
        (Resolution::Done, ResolutionAction::Refuse { error }) => {
            assert!(matches!(error, TerminalError::NodeWithoutCandidates { .. }))
        }
        other => panic!("unexpected {other:?}"),
    }

    let (state, _) = Resolution::begin(false);
    let (state, _) = step(state, ResolutionEvent::TaskInspected { task: running_task(None) });
    let nodes = vec![SwarmNodeListItem {
        id: Some("n1".into()),
        hostname: Some("lonely".into()),
        name: None,
        manager_addr: None,
    }];
    let (state, _) = step(state, ResolutionEvent::NodesRead { nodes });
    match step(state, ResolutionEvent::ServersListed { servers: vec![(server("x", "http://x"), None)] }) {
        (Resolution::Done, ResolutionAction::Refuse { error }) => {
            assert!(error.message().contains("[lonely]"))
        }
        other => panic!("unexpected {other:?}"),
    }

    let (state, _) = Resolution::begin(false);
    let (state, _) = step(state, ResolutionEvent::TaskInspected { task: running_task(None) });
    let nodes = vec![SwarmNodeListItem {
        id: Some("n1".into()),
        hostname: Some("x".into()),
        name: None,
        manager_addr: None,
    }];
    let (state, _) = step(state, ResolutionEvent::NodesRead { nodes });
    let (state, _) =
        step(state, ResolutionEvent::ServersListed { servers: vec![(server("x", "http://x"), None)] });
    let down =
        Some(CachedServerStatus { state: ServerState::NotOk, system_info: None, periphery_info: None });
    match step(state, ResolutionEvent::StatusRead { status: down }) {
        (Resolution::Done, ResolutionAction::Refuse { error }) => {
            assert_eq!(error.message(), "Server x (id-x) hosting Swarm task is not connected")
        }
        other => panic!("unexpected {other:?}"),
    }
}

#[test]
fn resolution_waits_only_for_its_answer() {
    let (state, _) = Resolution::begin(true);
    assert!(!state.waits_for(&ResolutionEvent::NodesRead { nodes: Vec::new() }));
    assert!(!Resolution::Done.waits_for(&ResolutionEvent::StatusRead { status: None }));
}
