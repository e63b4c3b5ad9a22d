//! Resolving a Swarm task to the Server whose Periphery agent hosts its
//! container. The resolution alternates reads from the cluster and the
//! caches with decisions; the decisions are a state machine here, and the
//! caller performs each requested read and hands back what it found.
use vstd::prelude::*;
use crate::entities::{CachedServerStatus, Server, SwarmNode, SwarmNodeListItem, SwarmTask};
use crate::error::TerminalError;
use crate::swarm_terminal::{
    collect_candidates, inspect_raws, list_item_raws, node_identity_candidates_from_inspect,
    require_node_candidates,
};
use crate::terminal::{
    cached_node_candidates, cached_node_index, check_task_server, find_server_for_node_identities,
    matching_server_index, placement_found, placement_refused, swarm_task_placement,
    task_server_refusal, TaskPlacement,
};
use crate::text::views;

verus! {

/// Where a task resolution stands: which answer it waits for.
#[derive(Debug)]
pub enum Resolution {
    /// Waits for the inspected task.
    AwaitTask { require_running: bool },
    /// Waits for the cached node list of the Swarm.
    AwaitNodes { placement: TaskPlacement },
    /// Waits for the inspected node (it was not in the cache).
    AwaitNode { placement: TaskPlacement },
    /// Waits for the registered Servers with their cached statuses.
    AwaitServers { placement: TaskPlacement, candidates: Vec<String> },
    /// Waits for the cached status of the chosen Server.
    AwaitStatus { placement: TaskPlacement, server: Server },
    /// The resolution is over.
    Done,
}

/// What the caller found, in answer to the last action.
#[derive(Debug)]
pub enum ResolutionEvent {
    TaskInspected { task: SwarmTask },
    NodesRead { nodes: Vec<SwarmNodeListItem> },
    NodeInspected { node: SwarmNode },
    ServersListed { servers: Vec<(Server, Option<CachedServerStatus>)> },
    StatusRead { status: Option<CachedServerStatus> },
}

/// What the caller is to do next.
#[derive(Debug)]
pub enum ResolutionAction {
    /// Inspect the task through a Swarm manager.
    InspectTask,
    /// Read the Swarm's cached node list.
    ReadCachedNodes,
    /// Inspect the node through a Swarm manager.
    InspectNode { node_id: String },
    /// List the registered Servers with their cached statuses.
    ListServers,
    /// Read the cached status of the Server.
    ReadServerStatus { server_id: String },
    /// Connect to the Server's Periphery agent; the task runs there.
    Connect { server: Server, task_id: String, container: String },
    /// Give up with this error.
    Refuse { error: TerminalError },
}

/// The state waits for this kind of event.
pub open spec fn waits_for(state: Resolution, event: ResolutionEvent) -> bool {
    match state {
        Resolution::AwaitTask { .. } => event is TaskInspected,
        Resolution::AwaitNodes { .. } => event is NodesRead,
        Resolution::AwaitNode { .. } => event is NodeInspected,
        Resolution::AwaitServers { .. } => event is ServersListed,
        Resolution::AwaitStatus { .. } => event is StatusRead,
        Resolution::Done => false,
    }
}

/// With the node's identity candidates `cands` in hand: list the Servers
/// when there are some, else refuse the node.
pub open spec fn node_answered(
    placement: TaskPlacement,
    cands: Seq<Seq<char>>,
    next: Resolution,
    action: ResolutionAction,
) -> bool {
    if cands.len() > 0 {
        &&& action is ListServers
        &&& match next {
            Resolution::AwaitServers { placement: p, candidates } => p == placement && views(
                candidates@,
            ) == cands,
            _ => false,
        }
    } else {
        &&& next is Done
        &&& match action {
            ResolutionAction::Refuse { error: TerminalError::NodeWithoutCandidates { node_id } } =>
                node_id@ == placement.node_id@,
            _ => false,
        }
    }
}

/// One step of the resolution: from `state`, on `event`, to `next`,
/// asking for `action`.
pub open spec fn resolves_to(
    state: Resolution,
    event: ResolutionEvent,
    next: Resolution,
    action: ResolutionAction,
) -> bool {
    match state {
        Resolution::AwaitTask { require_running } => match event {
            ResolutionEvent::TaskInspected { task } => match action {
                ResolutionAction::ReadCachedNodes => match next {
                    Resolution::AwaitNodes { placement } => placement_found(
                        task,
                        require_running,
                        placement,
                    ),
                    _ => false,
                },
                ResolutionAction::Refuse { error } => next is Done && placement_refused(
                    task,
                    require_running,
                    error,
                ),
                _ => false,
            },
            _ => false,
        },
        Resolution::AwaitNodes { placement } => match event {
            ResolutionEvent::NodesRead { nodes } => {
                let k = cached_node_index(nodes@, placement.node_id@);
                if k == nodes@.len() {
                    &&& next == (Resolution::AwaitNode { placement })
                    &&& match action {
                        ResolutionAction::InspectNode { node_id } => node_id == placement.node_id,
                        _ => false,
                    }
                } else {
                    node_answered(
                        placement,
                        collect_candidates(list_item_raws(nodes@[k])),
                        next,
                        action,
                    )
                }
            },
            _ => false,
        },
        Resolution::AwaitNode { placement } => match event {
            ResolutionEvent::NodeInspected { node } => node_answered(
                placement,
                collect_candidates(inspect_raws(node)),
                next,
                action,
            ),
            _ => false,
        },
        Resolution::AwaitServers { placement, candidates } => match event {
            ResolutionEvent::ServersListed { servers } => {
                let k = matching_server_index(servers@, candidates@);
                if k < servers@.len() {
                    &&& next == (Resolution::AwaitStatus { placement, server: servers@[k].0 })
                    &&& match action {
                        ResolutionAction::ReadServerStatus { server_id } => server_id
                            == servers@[k].0.id,
                        _ => false,
                    }
                } else {
                    &&& next is Done
                    &&& match action {
                        ResolutionAction::Refuse {
                            error: TerminalError::NoServerMatch { candidates: c },
                        } => c@ == candidates@,
                        _ => false,
                    }
                }
            },
            _ => false,
        },
        Resolution::AwaitStatus { placement, server } => match event {
            ResolutionEvent::StatusRead { status } => {
                &&& next is Done
                &&& match task_server_refusal(server, status) {
                    Some(e) => action == (ResolutionAction::Refuse { error: e }),
                    None => action == (ResolutionAction::Connect {
                        server,
                        task_id: placement.task_id,
                        container: placement.container,
                    }),
                }
            },
            _ => false,
        },
        Resolution::Done => false,
    }
}

/// The placement that the resolution carries, once the task is placed.
pub open spec fn placement_of(state: Resolution) -> Option<TaskPlacement> {
    match state {
        Resolution::AwaitNodes { placement } => Some(placement),
        Resolution::AwaitNode { placement } => Some(placement),
        Resolution::AwaitServers { placement, .. } => Some(placement),
        Resolution::AwaitStatus { placement, .. } => Some(placement),
        _ => None,
    }
}

/// How many answers the resolution may still wait for, at most.
pub open spec fn answers_left(state: Resolution) -> nat {
    match state {
        Resolution::AwaitTask { .. } => 5,
        Resolution::AwaitNodes { .. } => 4,
        Resolution::AwaitNode { .. } => 3,
        Resolution::AwaitServers { .. } => 2,
        Resolution::AwaitStatus { .. } => 1,
        Resolution::Done => 0,
    }
}

/// What holds of every state of a resolution begun with `require_running`:
/// the flag is kept, and once placed, a task that must run has a container.
pub open spec fn resolution_sound(state: Resolution, require_running: bool) -> bool {
    match state {
        Resolution::AwaitTask { require_running: r } => r == require_running,
        Resolution::Done => true,
        _ => match placement_of(state) {
            Some(p) => require_running ==> p.container@.len() > 0,
            None => false,
        },
    }
}

impl Resolution {
    /// The first step: wait for the inspected task, and ask for it.
    pub fn begin(require_running: bool) -> (r: (Resolution, ResolutionAction))
        ensures
            r.0 == (Resolution::AwaitTask { require_running }),
            r.1 is InspectTask,
    {
        (Resolution::AwaitTask { require_running }, ResolutionAction::InspectTask)
    }

    /// The resolution waits for `event`'s kind of answer.
    pub fn waits_for(&self, event: &ResolutionEvent) -> (r: bool)
        ensures
            r == waits_for(*self, *event),
    {
        match self {
            Resolution::AwaitTask { .. } => matches!(event, ResolutionEvent::TaskInspected { .. }),
            Resolution::AwaitNodes { .. } => matches!(event, ResolutionEvent::NodesRead { .. }),
            Resolution::AwaitNode { .. } => matches!(event, ResolutionEvent::NodeInspected { .. }),
            Resolution::AwaitServers { .. } => matches!(
                event,
                ResolutionEvent::ServersListed { .. }
            ),
            Resolution::AwaitStatus { .. } => matches!(event, ResolutionEvent::StatusRead { .. }),
            Resolution::Done => false,
        }
    }

    /// One step: take the answer the resolution waits for, decide, and say
    /// what to do next.
    pub fn step(self, event: ResolutionEvent) -> (r: (Resolution, ResolutionAction))
        requires
            waits_for(self, event),
        ensures
            resolves_to(self, event, r.0, r.1),
    {
        match (self, event) {
            (Resolution::AwaitTask { require_running }, ResolutionEvent::TaskInspected { task }) => {
                match swarm_task_placement(&task, require_running) {
                    Ok(placement) => (
                        Resolution::AwaitNodes { placement },
                        ResolutionAction::ReadCachedNodes,
                    ),
                    Err(error) => (Resolution::Done, ResolutionAction::Refuse { error }),
                }
            },
            (Resolution::AwaitNodes { placement }, ResolutionEvent::NodesRead { nodes }) => {
                match cached_node_candidates(nodes.as_slice(), placement.node_id.as_str()) {
                    None => {
                        let node_id = placement.node_id.clone();
                        (Resolution::AwaitNode { placement }, ResolutionAction::InspectNode { node_id })
                    },
                    Some(answer) => Self::after_candidates(placement, answer),
                }
            },
            (Resolution::AwaitNode { placement }, ResolutionEvent::NodeInspected { node }) => {
                let cands = node_identity_candidates_from_inspect(&node);
                let answer = require_node_candidates(placement.node_id.as_str(), cands);
                Self::after_candidates(placement, answer)
            },
            (
                Resolution::AwaitServers { placement, candidates },
                ResolutionEvent::ServersListed { servers },
            ) => match find_server_for_node_identities(servers.as_slice(), candidates.as_slice()) {
                Ok(server) => {
                    let server_id = server.id.clone();
                    (
                        Resolution::AwaitStatus { placement, server },
                        ResolutionAction::ReadServerStatus { server_id },
                    )
                },
                Err(error) => (Resolution::Done, ResolutionAction::Refuse { error }),
            },
            (Resolution::AwaitStatus { placement, server }, ResolutionEvent::StatusRead { status }) => {
                match check_task_server(&server, status.as_ref()) {
                    Ok(()) => (
                        Resolution::Done,
                        ResolutionAction::Connect {
                            server,
                            task_id: placement.task_id,
                            container: placement.container,
                        },
                    ),
                    Err(error) => (Resolution::Done, ResolutionAction::Refuse { error }),
                }
            },
            // `waits_for` rules out every other pairing.
            (state, _) => (state, ResolutionAction::InspectTask),
        }
    }

    /// With the node's candidates (or the refusal of a node without any):
    /// list the Servers, or refuse.
    fn after_candidates(placement: TaskPlacement, answer: Result<Vec<String>, TerminalError>) -> (r: (
        Resolution,
        ResolutionAction,
    ))
        ensures
            match answer {
                Ok(c) => r.1 is ListServers && r.0 == (Resolution::AwaitServers {
                    placement,
                    candidates: c,
                }),
                Err(e) => r.0 is Done && r.1 == (ResolutionAction::Refuse { error: e }),
            },
    {
        match answer {
            Ok(candidates) => (Resolution::AwaitServers { placement, candidates }, ResolutionAction::ListServers),
            Err(error) => (Resolution::Done, ResolutionAction::Refuse { error }),
        }
    }
}

} // verus!
