//! The records that terminal resolution reads: Servers and their cached
//! status, Swarm nodes and tasks, terminals and their targets. Each holds, as
//! plain values, the fields that the logic of this crate looks at.
use vstd::prelude::*;

verus! {

/// Clones an optional string, keeping its value.
pub fn clone_opt_string(o: &Option<String>) -> (r: Option<String>)
    ensures
        r == *o,
{
    match o {
        Some(s) => Some(s.clone()),
        None => None,
    }
}

/// State of a Swarm task, as Docker reports it.
#[allow(non_camel_case_types)]
#[derive(Clone, Copy, Debug, PartialEq, Eq, Structural)]
pub enum TaskState {
    NEW,
    ALLOCATED,
    PENDING,
    ASSIGNED,
    ACCEPTED,
    PREPARING,
    READY,
    STARTING,
    RUNNING,
    COMPLETE,
    SHUTDOWN,
    FAILED,
    REJECTED,
    REMOVE,
    ORPHANED,
}

/// Connection state of a Server; `Healthy` is the state in which its
/// Periphery agent answers.
#[derive(Clone, Copy, Debug, PartialEq, Eq, Structural)]
pub enum ServerState {
    Healthy,
    NotOk,
    Disabled,
}

/// Where a Server's Periphery agent is reached.
#[derive(Debug)]
pub struct ServerConfig {
    pub address: String,
    pub external_address: String,
}

/// A Server registered with the core.
#[derive(Debug)]
pub struct Server {
    pub id: String,
    pub name: String,
    pub config: ServerConfig,
}

impl Clone for ServerConfig {
    fn clone(&self) -> (r: Self)
        ensures
            r == *self,
    {
        ServerConfig { address: self.address.clone(), external_address: self.external_address.clone() }
    }
}

impl Clone for Server {
    fn clone(&self) -> (r: Self)
        ensures
            r == *self,
    {
        Server { id: self.id.clone(), name: self.name.clone(), config: self.config.clone() }
    }
}

/// System information reported by a Server.
#[derive(Debug)]
pub struct SystemInformation {
    pub host_name: Option<String>,
}

/// Information about a Server's Periphery agent.
#[derive(Debug)]
pub struct PeripheryInformation {
    pub public_ip: Option<String>,
    pub container_terminals_disabled: bool,
}

/// The cached status of a Server.
#[derive(Debug)]
pub struct CachedServerStatus {
    pub state: ServerState,
    pub system_info: Option<SystemInformation>,
    pub periphery_info: Option<PeripheryInformation>,
}

/// A Swarm node as it appears in the cached node list.
#[derive(Debug)]
pub struct SwarmNodeListItem {
    pub id: Option<String>,
    pub hostname: Option<String>,
    pub name: Option<String>,
    pub manager_addr: Option<String>,
}

/// Description part of an inspected Swarm node.
#[derive(Debug)]
pub struct NodeDescription {
    pub hostname: Option<String>,
}

/// Spec part of an inspected Swarm node.
#[derive(Debug)]
pub struct NodeSpec {
    pub name: Option<String>,
}

/// Status part of an inspected Swarm node.
#[derive(Debug)]
pub struct NodeStatus {
    pub addr: Option<String>,
}

/// Manager status part of an inspected Swarm node.
#[derive(Debug)]
pub struct ManagerStatus {
    pub addr: Option<String>,
}

/// An inspected Swarm node.
#[derive(Debug)]
pub struct SwarmNode {
    pub description: Option<NodeDescription>,
    pub node_spec: Option<NodeSpec>,
    pub status: Option<NodeStatus>,
    pub manager_status: Option<ManagerStatus>,
}

/// Container part of an inspected Swarm task's status.
#[derive(Debug)]
pub struct TaskContainerStatus {
    pub container_id: Option<String>,
}

/// Status of an inspected Swarm task.
#[derive(Debug)]
pub struct TaskStatus {
    pub state: Option<TaskState>,
    pub container_status: Option<TaskContainerStatus>,
}

/// An inspected Swarm task.
#[derive(Debug)]
pub struct SwarmTask {
    pub id: Option<String>,
    pub node_id: Option<String>,
    pub status: Option<TaskStatus>,
}

/// A Swarm task as it appears in the cached task list.
#[derive(Debug)]
pub struct SwarmTaskListItem {
    pub id: Option<String>,
    pub service_id: Option<String>,
    pub node_id: Option<String>,
}

/// What a terminal is attached to. With a name lookup a target may carry
/// names in place of ids.
#[derive(Debug, PartialEq, Eq)]
#[allow(inconsistent_fields)]
pub enum TerminalTarget {
    Server { server: Option<String> },
    Container { server: String, container: String },
    Stack { stack: String, service: Option<String>, task: Option<String> },
    Deployment { deployment: String },
    SwarmTask { swarm: String, task: String },
}

impl Clone for TerminalTarget {
    fn clone(&self) -> (r: Self)
        ensures
            r == *self,
    {
        match self {
            TerminalTarget::Server { server } => TerminalTarget::Server {
                server: clone_opt_string(server),
            },
            TerminalTarget::Container { server, container } => TerminalTarget::Container {
                server: server.clone(),
                container: container.clone(),
            },
            TerminalTarget::Stack { stack, service, task } => TerminalTarget::Stack {
                stack: stack.clone(),
                service: clone_opt_string(service),
                task: clone_opt_string(task),
            },
            TerminalTarget::Deployment { deployment } => TerminalTarget::Deployment {
                deployment: deployment.clone(),
            },
            TerminalTarget::SwarmTask { swarm, task } => TerminalTarget::SwarmTask {
                swarm: swarm.clone(),
                task: task.clone(),
            },
        }
    }
}

/// A terminal as a Periphery agent reports it.
#[derive(Debug)]
pub struct Terminal {
    pub name: String,
    pub target: TerminalTarget,
    pub target_name: Option<String>,
    pub command: String,
    /// The stored size in KB, held as the bit pattern of the `f64` that
    /// the agent reports (`f64::to_bits`); sizes are ordered by it.
    pub stored_size_kb_bits: u64,
    pub created_at: i64,
}

impl Clone for Terminal {
    fn clone(&self) -> (r: Self)
        ensures
            r == *self,
    {
        Terminal {
            name: self.name.clone(),
            target: self.target.clone(),
            target_name: clone_opt_string(&self.target_name),
            command: self.command.clone(),
            stored_size_kb_bits: self.stored_size_kb_bits,
            created_at: self.created_at,
        }
    }
}

/// The key by which a terminal list is ordered.
#[derive(Clone, Copy, Debug, PartialEq, Eq, Structural)]
pub enum TerminalSortBy {
    Name,
    Target,
    Command,
    Size,
    Created,
}

/// How a container terminal reaches the container: a new process, or the
/// container's own.
#[derive(Clone, Copy, Debug, PartialEq, Eq, Structural)]
pub enum ContainerTerminalMode {
    Exec,
    Attach,
}

/// When an existing terminal of the same name is replaced.
#[derive(Clone, Copy, Debug, PartialEq, Eq, Structural)]
pub enum TerminalRecreateMode {
    Never,
    Always,
    DifferentCommand,
}

/// What to start a terminal with, when it is to be created.
#[derive(Debug)]
pub struct InitTerminal {
    pub command: Option<String>,
    pub recreate: TerminalRecreateMode,
    pub mode: Option<ContainerTerminalMode>,
}

/// A request to create a container terminal.
#[derive(Debug)]
pub struct CreateTerminal {
    pub name: Option<String>,
    pub target: TerminalTarget,
    pub command: Option<String>,
    pub mode: Option<ContainerTerminalMode>,
    pub recreate: TerminalRecreateMode,
}

/// A Stack, as far as terminal listing reads it.
#[derive(Debug)]
pub struct Stack {
    pub id: String,
    pub name: String,
    pub server_id: String,
    pub swarm_id: String,
}

/// A Deployment, as far as terminal listing reads it.
#[derive(Debug)]
pub struct Deployment {
    pub id: String,
    pub name: String,
    pub server_id: String,
}

/// A Swarm, as far as terminal listing reads it.
#[derive(Debug)]
pub struct Swarm {
    pub id: String,
    pub name: String,
}

/// The state of one service of a Stack: its name, its container (by
/// name) and, on a Swarm, the id of its Swarm service.
#[derive(Debug)]
pub struct StackServiceStatus {
    pub service: String,
    pub container_name: Option<String>,
    pub swarm_service_id: Option<String>,
}

} // verus!
