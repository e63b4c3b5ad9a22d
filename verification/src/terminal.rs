//! Terminal setup and Swarm task resolution: the decisions that come between
//! the permission checks and the requests to Periphery agents.
use vstd::prelude::*;
use vstd::string::*;
use crate::entities::{
    CachedServerStatus, ContainerTerminalMode, CreateTerminal, InitTerminal,
    Server, ServerState, StackServiceStatus, SwarmNodeListItem, SwarmTask, TaskState,
    TerminalRecreateMode, TerminalTarget,
};
use crate::error::TerminalError;
use crate::swarm_terminal::{
    any_identity_match, check_swarm_task_running_gate, collect_candidates, entry_matches,
    list_item_raws,
    match_server_to_node_identities, no_server_match_error, node_identity_candidates_from_list_item,
    require_node_candidates, server_identity_candidates, server_raws,
};
use crate::text::{first_where, lemma_first_where, opt_view, str_eq, views};

verus! {

/// The name that `AsRef<str>` gives a container terminal mode.
pub open spec fn mode_name(m: ContainerTerminalMode) -> Seq<char> {
    match m {
        ContainerTerminalMode::Exec => "exec"@,
        ContainerTerminalMode::Attach => "attach"@,
    }
}

/// The mode in force: the given one, else `Exec`.
pub open spec fn mode_or_default(m: Option<ContainerTerminalMode>) -> ContainerTerminalMode {
    match m {
        Some(mode) => mode,
        None => ContainerTerminalMode::Exec,
    }
}

/// The name of a container terminal: the given name; else the init
/// command; else the name of the init mode; else the container's name.
pub open spec fn container_terminal_name(
    terminal: Option<Seq<char>>,
    container: Seq<char>,
    init: Option<InitTerminal>,
) -> Seq<char> {
    match terminal {
        Some(t) => t,
        None => match init {
            Some(i) => match i.command {
                Some(c) => c@,
                None => mode_name(mode_or_default(i.mode)),
            },
            None => container,
        },
    }
}

/// The name of a Server terminal: the given name; else the init command;
/// else `term`.
pub open spec fn server_terminal_name(terminal: Option<Seq<char>>, init: Option<InitTerminal>) -> Seq<
    char,
> {
    match terminal {
        Some(t) => t,
        None => match init {
            Some(i) => match i.command {
                Some(c) => c@,
                None => "term"@,
            },
            None => "term"@,
        },
    }
}

/// What a terminal setup request resolves: which resource, by id or name,
/// hosts the terminal.
#[derive(Debug)]
pub enum SetupPlan {
    Server { server: String },
    Container { server: String, container: String },
    StackService { stack: String, service: String },
    Deployment { deployment: String },
    SwarmTask { swarm: String, task: String },
}

/// The request that creates a container terminal on a Periphery agent.
#[derive(Debug)]
pub enum ContainerTerminalRequest {
    /// Run a new process in the container.
    Exec {
        name: Option<String>,
        target: TerminalTarget,
        container: String,
        command: Option<String>,
        recreate: TerminalRecreateMode,
    },
    /// Attach to the container's own process.
    Attach {
        name: Option<String>,
        target: TerminalTarget,
        container: String,
        recreate: TerminalRecreateMode,
    },
}

/// Where a Swarm task runs: its id, its node, and its container (empty when
/// it has none).
#[derive(Debug)]
pub struct TaskPlacement {
    pub task_id: String,
    pub node_id: String,
    pub container: String,
}

/// The container id that an inspected task reports, if any.
pub open spec fn task_container_id(t: SwarmTask) -> Option<Seq<char>> {
    match t.status {
        Some(s) => match s.container_status {
            Some(c) => opt_view(c.container_id),
            None => None,
        },
        None => None,
    }
}

/// The state that an inspected task reports, if any.
pub open spec fn task_state(t: SwarmTask) -> Option<TaskState> {
    match t.status {
        Some(s) => s.state,
        None => None,
    }
}

/// The task must run and have a container (when that is required).
pub open spec fn task_gate_passes(t: SwarmTask, require_running: bool) -> bool {
    require_running ==> task_state(t) == Some(TaskState::RUNNING) && match task_container_id(t) {
        Some(c) => c.len() > 0,
        None => false,
    }
}

/// Setup target to plan: a Server target needs its server and a Stack
/// target its service.
pub fn setup_plan(target: TerminalTarget) -> (r: Result<SetupPlan, TerminalError>)
    ensures
        match target {
            TerminalTarget::Server { server: Some(s) } => r == Ok::<SetupPlan, TerminalError>(
                SetupPlan::Server { server: s },
            ),
            TerminalTarget::Server { server: None } => r == Err::<SetupPlan, TerminalError>(
                TerminalError::MissingServerParam,
            ),
            TerminalTarget::Container { server, container } => r == Ok::<
                SetupPlan,
                TerminalError,
            >(SetupPlan::Container { server, container }),
            TerminalTarget::Stack { stack, service: Some(s), .. } => r == Ok::<
                SetupPlan,
                TerminalError,
            >(SetupPlan::StackService { stack, service: s }),
            TerminalTarget::Stack { service: None, .. } => r == Err::<SetupPlan, TerminalError>(
                TerminalError::MissingServiceParam,
            ),
            TerminalTarget::Deployment { deployment } => r == Ok::<SetupPlan, TerminalError>(
                SetupPlan::Deployment { deployment },
            ),
            TerminalTarget::SwarmTask { swarm, task } => r == Ok::<SetupPlan, TerminalError>(
                SetupPlan::SwarmTask { swarm, task },
            ),
        },
{
    match target {
        TerminalTarget::Server { server } => match server {
            Some(s) => Ok(SetupPlan::Server { server: s }),
            None => Err(TerminalError::MissingServerParam),
        },
        TerminalTarget::Container { server, container } => Ok(
            SetupPlan::Container { server, container },
        ),
        TerminalTarget::Stack { stack, service, .. } => match service {
            Some(s) => Ok(SetupPlan::StackService { stack, service: s }),
            None => Err(TerminalError::MissingServiceParam),
        },
        TerminalTarget::Deployment { deployment } => Ok(SetupPlan::Deployment { deployment }),
        TerminalTarget::SwarmTask { swarm, task } => Ok(SetupPlan::SwarmTask { swarm, task }),
    }
}

/// The name of a Server terminal.
pub fn default_server_terminal_name(terminal: Option<String>, init: Option<&InitTerminal>) -> (r:
    String)
    ensures
        terminal matches Some(t) ==> r == t,
        r@ == server_terminal_name(
            opt_view(terminal),
            match init {
                Some(i) => Some(*i),
                None => None,
            },
        ),
{
    match terminal {
        Some(t) => t,
        None => match init {
            Some(i) => match &i.command {
                Some(c) => c.clone(),
                None => "term".to_owned(),
            },
            None => "term".to_owned(),
        },
    }
}

/// The name of a container terminal.
pub fn default_container_terminal_name(
    terminal: Option<String>,
    container: &str,
    init: Option<&InitTerminal>,
) -> (r: String)
    ensures
        terminal matches Some(t) ==> r == t,
        r@ == container_terminal_name(
            opt_view(terminal),
            container@,
            match init {
                Some(i) => Some(*i),
                None => None,
            },
        ),
{
    match terminal {
        Some(t) => t,
        None => match init {
            Some(i) => match &i.command {
                Some(c) => c.clone(),
                None => {
                    let mode = match i.mode {
                        Some(m) => m,
                        None => ContainerTerminalMode::Exec,
                    };
                    match mode {
                        ContainerTerminalMode::Exec => "exec".to_owned(),
                        ContainerTerminalMode::Attach => "attach".to_owned(),
                    }
                },
            },
            None => container.to_owned(),
        },
    }
}

/// The request that creates a container terminal named `terminal` on
/// `target`, started as `init` says.
pub fn container_create_request(terminal: &String, target: &TerminalTarget, init: InitTerminal) -> (r:
    CreateTerminal)
    ensures
        r == (CreateTerminal {
            name: Some(*terminal),
            target: *target,
            command: init.command,
            mode: init.mode,
            recreate: init.recreate,
        }),
{
    CreateTerminal {
        name: Some(terminal.clone()),
        target: target.clone(),
        command: init.command,
        mode: init.mode,
        recreate: init.recreate,
    }
}

/// The Periphery request for a container terminal: `Attach` mode attaches,
/// `Exec` (the default) runs the command.
pub fn container_terminal_request(create: CreateTerminal, container: String) -> (r:
    ContainerTerminalRequest)
    ensures
        match mode_or_default(create.mode) {
            ContainerTerminalMode::Exec => r == (ContainerTerminalRequest::Exec {
                name: create.name,
                target: create.target,
                container,
                command: create.command,
                recreate: create.recreate,
            }),
            ContainerTerminalMode::Attach => r == (ContainerTerminalRequest::Attach {
                name: create.name,
                target: create.target,
                container,
                recreate: create.recreate,
            }),
        },
{
    let CreateTerminal { name, target, command, mode, recreate } = create;
    let mode = match mode {
        Some(m) => m,
        None => ContainerTerminalMode::Exec,
    };
    match mode {
        ContainerTerminalMode::Exec => ContainerTerminalRequest::Exec {
            name,
            target,
            container,
            command,
            recreate,
        },
        ContainerTerminalMode::Attach => ContainerTerminalRequest::Attach {
            name,
            target,
            container,
            recreate,
        },
    }
}

/// The container of the Stack service named `service`: the first service of
/// that name must exist and have a container.
pub fn stack_service_container(services: &[StackServiceStatus], service: &str) -> (r: Result<
    String,
    TerminalError,
>)
    ensures
        match r {
            Ok(c) => exists|k: int|
                0 <= k < services@.len() && #[trigger] services@[k].service@ == service@ && (forall|
                    m: int,
                | 0 <= m < k ==> (#[trigger] services@[m]).service@ != service@)
                    && opt_view(services@[k].container_name) == Some(c@),
            Err(TerminalError::StackServiceNotFound { service: s }) => s@ == service@ && forall|
                k: int,
            | 0 <= k < services@.len() ==> (#[trigger] services@[k]).service@ != service@,
            Err(TerminalError::StackServiceWithoutContainer { service: s }) => s@ == service@
                && exists|k: int|
                0 <= k < services@.len() && #[trigger] services@[k].service@ == service@ && (forall|
                    m: int,
                | 0 <= m < k ==> (#[trigger] services@[m]).service@ != service@)
                    && services@[k].container_name is None,
            _ => false,
        },
{
    let mut k: usize = 0;
    while k < services.len()
        invariant
            k <= services@.len(),
            forall|m: int| 0 <= m < k ==> (#[trigger] services@[m]).service@ != service@,
        decreases services@.len() - k,
    {
        if str_eq(services[k].service.as_str(), service) {
            return match &services[k].container_name {
                Some(name) => Ok(name.clone()),
                None => Err(TerminalError::StackServiceWithoutContainer { service: service.to_owned() }),
            };
        }
        k = k + 1;
    }
    Err(TerminalError::StackServiceNotFound { service: service.to_owned() })
}

/// The container of an inspected task, or the empty string.
pub open spec fn container_or_empty(t: SwarmTask) -> Seq<char> {
    match task_container_id(t) {
        Some(c) => c,
        None => Seq::empty(),
    }
}

/// `p` is where the inspected task runs: its id, its node, its container.
pub open spec fn placement_found(t: SwarmTask, require_running: bool, p: TaskPlacement) -> bool {
    &&& opt_view(t.id) == Some(p.task_id@)
    &&& opt_view(t.node_id) == Some(p.node_id@)
    &&& task_gate_passes(t, require_running)
    &&& p.container@ == container_or_empty(t)
}

/// `e` is why the inspected task cannot be placed: it has no id; else no
/// node; else (when it must run) it does not run, or has no container.
pub open spec fn placement_refused(t: SwarmTask, require_running: bool, e: TerminalError) -> bool {
    match e {
        TerminalError::TaskWithoutId => t.id is None,
        TerminalError::TaskWithoutNode => t.id is Some && t.node_id is None,
        TerminalError::TaskNotRunning { task_id, state } => opt_view(t.id) == Some(task_id@)
            && t.node_id is Some && require_running && state == task_state(t) && state != Some(
            TaskState::RUNNING,
        ),
        TerminalError::TaskWithoutContainer { task_id } => opt_view(t.id) == Some(task_id@)
            && t.node_id is Some && require_running && task_state(t) == Some(TaskState::RUNNING)
            && !task_gate_passes(t, require_running),
        _ => false,
    }
}

/// Where an inspected Swarm task runs. The task must carry an id and a
/// node; when `require_running`, it must run and have a container.
pub fn swarm_task_placement(inspected: &SwarmTask, require_running: bool) -> (r: Result<
    TaskPlacement,
    TerminalError,
>)
    ensures
        match r {
            Ok(p) => placement_found(*inspected, require_running, p),
            Err(e) => placement_refused(*inspected, require_running, e),
        },
{
    let task_id = match &inspected.id {
        Some(id) => id.clone(),
        None => {
            return Err(TerminalError::TaskWithoutId);
        },
    };
    let node_id = match &inspected.node_id {
        Some(n) => n.clone(),
        None => {
            return Err(TerminalError::TaskWithoutNode);
        },
    };
    let container_id: Option<&str> = match &inspected.status {
        Some(s) => match &s.container_status {
            Some(c) => match &c.container_id {
                Some(id) => Some(id.as_str()),
                None => None,
            },
            None => None,
        },
        None => None,
    };
    let state = match &inspected.status {
        Some(s) => s.state,
        None => None,
    };
    match check_swarm_task_running_gate(task_id.as_str(), state, container_id, require_running) {
        Ok(()) => {},
        Err(e) => {
            return Err(e);
        },
    }
    let container = match container_id {
        Some(c) => c.to_owned(),
        None => String::new(),
    };
    Ok(TaskPlacement { task_id, node_id, container })
}

/// Why the Server may not host a terminal for a Swarm task, if it may not:
/// with a known status, it must be connected and allow container terminals.
pub open spec fn task_server_refusal(server: Server, status: Option<CachedServerStatus>) -> Option<
    TerminalError,
> {
    match status {
        None => None,
        Some(st) => if st.state != ServerState::Healthy {
            Some(TerminalError::ServerNotConnected { name: server.name, id: server.id })
        } else if match st.periphery_info {
            Some(i) => i.container_terminals_disabled,
            None => false,
        } {
            Some(TerminalError::ContainerTerminalsDisabled { name: server.name, id: server.id })
        } else {
            None
        },
    }
}

/// The Server may host a terminal for a Swarm task: when its status is
/// known, it must be connected and allow container terminals.
pub fn check_task_server(server: &Server, status: Option<&CachedServerStatus>) -> (r: Result<
    (),
    TerminalError,
>)
    ensures
        r == match task_server_refusal(
            *server,
            match status {
                Some(s) => Some(*s),
                None => None,
            },
        ) {
            Some(e) => Err::<(), TerminalError>(e),
            None => Ok(()),
        },
{
    match status {
        None => Ok(()),
        Some(st) => {
            if st.state != ServerState::Healthy {
                return Err(
                    TerminalError::ServerNotConnected {
                        name: server.name.clone(),
                        id: server.id.clone(),
                    },
                );
            }
            let disabled = match &st.periphery_info {
                Some(i) => i.container_terminals_disabled,
                None => false,
            };
            if disabled {
                return Err(
                    TerminalError::ContainerTerminalsDisabled {
                        name: server.name.clone(),
                        id: server.id.clone(),
                    },
                );
            }
            Ok(())
        },
    }
}

/// Position of the first listed node with the id, or the list's length.
pub open spec fn cached_node_index(nodes: Seq<SwarmNodeListItem>, node_id: Seq<char>) -> int {
    first_where(nodes, |n: SwarmNodeListItem| opt_view(n.id) == Some(node_id))
}

/// `res` answers a node's candidates `cands`: them, when there are some;
/// else the refusal for a node with none.
pub open spec fn candidates_answer(
    cands: Seq<Seq<char>>,
    node_id: Seq<char>,
    res: Result<Vec<String>, TerminalError>,
) -> bool {
    match res {
        Ok(c) => views(c@) == cands && cands.len() > 0,
        Err(TerminalError::NodeWithoutCandidates { node_id: n }) => n@ == node_id && cands.len()
            == 0,
        _ => false,
    }
}

/// The identity candidates of a node found in the cached node list: `None`
/// when the list has no node with that id (the node is then inspected);
/// else the candidates of the first such node, or the refusal when it has
/// none.
pub fn cached_node_candidates(nodes: &[SwarmNodeListItem], node_id: &str) -> (r: Option<
    Result<Vec<String>, TerminalError>,
>)
    ensures
        match r {
            None => cached_node_index(nodes@, node_id@) == nodes@.len(),
            Some(res) => cached_node_index(nodes@, node_id@) < nodes@.len() && candidates_answer(
                collect_candidates(list_item_raws(nodes@[cached_node_index(nodes@, node_id@)])),
                node_id@,
                res,
            ),
        },
{
    let ghost p = |n: SwarmNodeListItem| opt_view(n.id) == Some(node_id@);
    let mut k: usize = 0;
    while k < nodes.len()
        invariant
            k <= nodes@.len(),
            p == (|n: SwarmNodeListItem| opt_view(n.id) == Some(node_id@)),
            forall|m: int| 0 <= m < k ==> !p(#[trigger] nodes@[m]),
        decreases nodes@.len() - k,
    {
        let is_node = match &nodes[k].id {
            Some(id) => str_eq(id.as_str(), node_id),
            None => false,
        };
        if is_node {
            proof {
                lemma_first_where(nodes@, p, k as int);
            }
            let cands = node_identity_candidates_from_list_item(&nodes[k]);
            let res = require_node_candidates(node_id, cands);
            return Some(res);
        }
        k = k + 1;
    }
    proof {
        lemma_first_where(nodes@, p, k as int);
    }
    None
}

/// The Server (with its cached status) has an identity candidate that
/// matches one of the node's.
pub open spec fn matches_entry(
    entry: (Server, Option<CachedServerStatus>),
    node_candidates: Seq<String>,
) -> bool {
    any_identity_match(collect_candidates(server_raws(entry.0, entry.1)), views(node_candidates))
}

/// Position of the first Server that matches the node, or the list's length.
pub open spec fn matching_server_index(
    servers: Seq<(Server, Option<CachedServerStatus>)>,
    node_candidates: Seq<String>,
) -> int {
    first_where(servers, |e: (Server, Option<CachedServerStatus>)| matches_entry(e, node_candidates))
}

/// The first Server whose identity candidates match one of the node's, or
/// the refusal that lists the node's candidates.
pub fn find_server_for_node_identities(
    servers: &[(Server, Option<CachedServerStatus>)],
    node_candidates: &[String],
) -> (r: Result<Server, TerminalError>)
    ensures
        ({
            let k = matching_server_index(servers@, node_candidates@);
            if k < servers@.len() {
                r == Ok::<Server, TerminalError>(servers@[k].0)
            } else {
                match r {
                    Err(TerminalError::NoServerMatch { candidates }) => candidates@
                        == node_candidates@,
                    _ => false,
                }
            }
        }),
{
    let ghost p = |e: (Server, Option<CachedServerStatus>)| matches_entry(e, node_candidates@);
    let mut with_cands: Vec<(Server, Vec<String>)> = Vec::new();
    let mut i: usize = 0;
    while i < servers.len()
        invariant
            i <= servers@.len(),
            with_cands@.len() == i,
            forall|k: int|
                0 <= k < i ==> (#[trigger] with_cands@[k]).0 == servers@[k].0 && views(
                    with_cands@[k].1@,
                ) == collect_candidates(server_raws(servers@[k].0, servers@[k].1)),
        decreases servers@.len() - i,
    {
        let status: Option<&CachedServerStatus> = match &servers[i].1 {
            Some(s) => Some(s),
            None => None,
        };
        let cands = server_identity_candidates(&servers[i].0, status);
        with_cands.push((servers[i].0.clone(), cands));
        i = i + 1;
    }
    match match_server_to_node_identities(with_cands.as_slice(), node_candidates) {
        Some(s) => {
            proof {
                let k = choose|k: int|
                    0 <= k < with_cands@.len() && #[trigger] entry_matches(
                        with_cands@[k],
                        views(node_candidates@),
                    ) && (forall|m: int|
                        0 <= m < k ==> !entry_matches(
                            #[trigger] with_cands@[m],
                            views(node_candidates@),
                        )) && s == with_cands@[k].0;
                assert(p(servers@[k]));
                assert forall|m: int| 0 <= m < k implies !p(#[trigger] servers@[m]) by {
                    assert(!entry_matches(with_cands@[m], views(node_candidates@)));
                }
                lemma_first_where(servers@, p, k);
            }
            Ok(s)
        },
        None => {
            proof {
                assert forall|k: int| 0 <= k < servers@.len() implies !p(#[trigger] servers@[k]) by {
                    assert(!entry_matches(with_cands@[k], views(node_candidates@)));
                }
                lemma_first_where(servers@, p, servers@.len() as int);
            }
            Err(no_server_match_error(node_candidates))
        },
    }
}

} // verus!
