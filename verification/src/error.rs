//! Why a terminal request is refused, and the message that says so.
use vstd::prelude::*;
use vstd::string::*;
use crate::entities::TaskState;

verus! {

/// Why resolving, creating or listing a terminal was refused.
#[derive(Debug)]
pub enum TerminalError {
    /// The Swarm task must be running and is not.
    TaskNotRunning { task_id: String, state: Option<TaskState> },
    /// The running Swarm task reports no container.
    TaskWithoutContainer { task_id: String },
    /// The inspected Swarm task carries no id.
    TaskWithoutId,
    /// The Swarm task is not assigned to a node.
    TaskWithoutNode,
    /// No Server matches the identity candidates of a Swarm node.
    NoServerMatch { candidates: Vec<String> },
    /// A Swarm node offers nothing to match a Server by.
    NodeWithoutCandidates { node_id: String },
    /// The Server hosting a Swarm task is not connected.
    ServerNotConnected { name: String, id: String },
    /// Container terminals are turned off on the Server.
    ContainerTerminalsDisabled { name: String, id: String },
    /// A Server target was given without its server (terminal setup).
    MissingServerParam,
    /// A Stack target was given without its service (terminal setup).
    MissingServiceParam,
    /// A Server target was given without its server (terminal listing); a bad request.
    ServerParamRequired,
    /// The Stack has no service by the given name.
    StackServiceNotFound { service: String },
    /// The Stack service has no container.
    StackServiceWithoutContainer { service: String },
    /// There is no cached status for the Stack.
    StackStatusUnavailable,
}

/// The name that `Debug` prints for a task state.
pub open spec fn task_state_name(s: TaskState) -> Seq<char> {
    match s {
        TaskState::NEW => "NEW"@,
        TaskState::ALLOCATED => "ALLOCATED"@,
        TaskState::PENDING => "PENDING"@,
        TaskState::ASSIGNED => "ASSIGNED"@,
        TaskState::ACCEPTED => "ACCEPTED"@,
        TaskState::PREPARING => "PREPARING"@,
        TaskState::READY => "READY"@,
        TaskState::STARTING => "STARTING"@,
        TaskState::RUNNING => "RUNNING"@,
        TaskState::COMPLETE => "COMPLETE"@,
        TaskState::SHUTDOWN => "SHUTDOWN"@,
        TaskState::FAILED => "FAILED"@,
        TaskState::REJECTED => "REJECTED"@,
        TaskState::REMOVE => "REMOVE"@,
        TaskState::ORPHANED => "ORPHANED"@,
    }
}

/// What `Debug` prints for an optional task state.
pub open spec fn task_state_debug(s: Option<TaskState>) -> Seq<char> {
    match s {
        Some(st) => "Some("@ + task_state_name(st) + ")"@,
        None => "None"@,
    }
}

/// The items of `list`, with `sep` between each two.
pub open spec fn join(list: Seq<Seq<char>>, sep: Seq<char>) -> Seq<char>
    decreases list.len(),
{
    if list.len() == 0 {
        Seq::empty()
    } else if list.len() == 1 {
        list[0]
    } else {
        join(list.drop_last(), sep) + sep + list.last()
    }
}

/// How the candidates of a node are listed in a message.
pub open spec fn listed_candidates(candidates: Seq<Seq<char>>) -> Seq<char> {
    if candidates.len() == 0 {
        "(none)"@
    } else {
        join(candidates, ", "@)
    }
}

/// The message that a refusal carries.
pub open spec fn error_message(e: TerminalError) -> Seq<char> {
    match e {
        TerminalError::TaskNotRunning { task_id, state } => "Swarm task "@ + task_id@
            + " is not running (state: "@ + task_state_debug(state) + ")"@,
        TerminalError::TaskWithoutContainer { task_id } => "Swarm task "@ + task_id@
            + " has no container ID"@,
        TerminalError::TaskWithoutId => "Swarm task inspect missing task ID"@,
        TerminalError::TaskWithoutNode => "Swarm task has no assigned node"@,
        TerminalError::NoServerMatch { candidates } =>
            "No Komodo Server matches Swarm node identity candidates ["@
            + listed_candidates(candidates@.map_values(|s: String| s@))
            + "]. Add the node as a Server with Periphery installed, matching Server name, system hostname, address host, or public IP."@,
        TerminalError::NodeWithoutCandidates { node_id } => "Swarm node "@ + node_id@
            + " has no hostname / name / address to match"@,
        TerminalError::ServerNotConnected { name, id } => "Server "@ + name@ + " ("@ + id@
            + ") hosting Swarm task is not connected"@,
        TerminalError::ContainerTerminalsDisabled { name, id } =>
            "Container terminals are disabled on Server "@ + name@ + " ("@ + id@ + ")"@,
        TerminalError::MissingServerParam => "Missing 'target.params.server'"@,
        TerminalError::MissingServiceParam => "Missing 'target.params.service'"@,
        TerminalError::ServerParamRequired => "Must provide 'target.params.server'"@,
        TerminalError::StackServiceNotFound { service } =>
            "Did not find Stack service matching "@ + service@,
        TerminalError::StackServiceWithoutContainer { service } =>
            "Did not find container for Stack service "@ + service@,
        TerminalError::StackStatusUnavailable => "Could not get Stack status"@,
    }
}

/// Whether the refusal is a bad request by the caller (rather than a
/// failure to resolve what the request names).
pub open spec fn is_bad_request(e: TerminalError) -> bool {
    e is ServerParamRequired
}

fn task_state_str(s: TaskState) -> (r: &'static str)
    ensures
        r@ == task_state_name(s),
{
    match s {
        TaskState::NEW => "NEW",
        TaskState::ALLOCATED => "ALLOCATED",
        TaskState::PENDING => "PENDING",
        TaskState::ASSIGNED => "ASSIGNED",
        TaskState::ACCEPTED => "ACCEPTED",
        TaskState::PREPARING => "PREPARING",
        TaskState::READY => "READY",
        TaskState::STARTING => "STARTING",
        TaskState::RUNNING => "RUNNING",
        TaskState::COMPLETE => "COMPLETE",
        TaskState::SHUTDOWN => "SHUTDOWN",
        TaskState::FAILED => "FAILED",
        TaskState::REJECTED => "REJECTED",
        TaskState::REMOVE => "REMOVE",
        TaskState::ORPHANED => "ORPHANED",
    }
}

/// Appends the items of `list` to `out`, with `sep` between each two.
pub fn append_joined(out: &mut String, list: &[String], sep: &str)
    ensures
        final(out)@ == old(out)@ + join(list@.map_values(|s: String| s@), sep@),
{
    let ghost start = out@;
    let ghost all = list@.map_values(|s: String| s@);
    let n = list.len();
    let mut i: usize = 0;
    while i < n
        invariant
            n == list@.len(),
            all == list@.map_values(|s: String| s@),
            i <= n,
            out@ == start + join(all.take(i as int), sep@),
        decreases n - i,
    {
        let ghost before = out@;
        if i > 0 {
            out.append(sep);
        }
        out.append(list[i].as_str());
        proof {
            let t = all.take(i + 1);
            assert(t.drop_last() =~= all.take(i as int));
            assert(t.last() == list@[i as int]@);
            if i == 0 {
                assert(join(t, sep@) == t[0]);
                assert(join(all.take(0), sep@) =~= Seq::<char>::empty());
                assert(out@ =~= start + join(t, sep@));
            } else {
                assert(out@ =~= start + join(t, sep@));
            }
        }
        i = i + 1;
    }
    assert(all.take(n as int) =~= all);
}

impl TerminalError {
    /// The message that this refusal carries.
    pub fn message(&self) -> (r: String)
        ensures
            r@ == error_message(*self),
    {
        let mut m = String::new();
        match self {
            TerminalError::TaskNotRunning { task_id, state } => {
                m.append("Swarm task ");
                m.append(task_id.as_str());
                m.append(" is not running (state: ");
                match state {
                    Some(st) => {
                        m.append("Some(");
                        m.append(task_state_str(*st));
                        m.append(")");
                    },
                    None => {
                        m.append("None");
                    },
                }
                m.append(")");
            },
            TerminalError::TaskWithoutContainer { task_id } => {
                m.append("Swarm task ");
                m.append(task_id.as_str());
                m.append(" has no container ID");
            },
            TerminalError::TaskWithoutId => {
                m.append("Swarm task inspect missing task ID");
            },
            TerminalError::TaskWithoutNode => {
                m.append("Swarm task has no assigned node");
            },
            TerminalError::NoServerMatch { candidates } => {
                m.append("No Komodo Server matches Swarm node identity candidates [");
                if candidates.len() == 0 {
                    m.append("(none)");
                } else {
                    append_joined(&mut m, candidates.as_slice(), ", ");
                }
                m.append(
                    "]. Add the node as a Server with Periphery installed, matching Server name, system hostname, address host, or public IP.",
                );
            },
            TerminalError::NodeWithoutCandidates { node_id } => {
                m.append("Swarm node ");
                m.append(node_id.as_str());
                m.append(" has no hostname / name / address to match");
            },
            TerminalError::ServerNotConnected { name, id } => {
                m.append("Server ");
                m.append(name.as_str());
                m.append(" (");
                m.append(id.as_str());
                m.append(") hosting Swarm task is not connected");
            },
            TerminalError::ContainerTerminalsDisabled { name, id } => {
                m.append("Container terminals are disabled on Server ");
                m.append(name.as_str());
                m.append(" (");
                m.append(id.as_str());
                m.append(")");
            },
            TerminalError::MissingServerParam => {
                m.append("Missing 'target.params.server'");
            },
            TerminalError::MissingServiceParam => {
                m.append("Missing 'target.params.service'");
            },
            TerminalError::ServerParamRequired => {
                m.append("Must provide 'target.params.server'");
            },
            TerminalError::StackServiceNotFound { service } => {
                m.append("Did not find Stack service matching ");
                m.append(service.as_str());
            },
            TerminalError::StackServiceWithoutContainer { service } => {
                m.append("Did not find container for Stack service ");
                m.append(service.as_str());
            },
            TerminalError::StackStatusUnavailable => {
                m.append("Could not get Stack status");
            },
        }
        proof {
            assert(m@ =~= error_message(*self));
        }
        m
    }

    /// Whether this refusal is a bad request by the caller.
    pub fn is_bad_request(&self) -> (r: bool)
        ensures
            r == is_bad_request(*self),
    {
        match self {
            TerminalError::ServerParamRequired => true,
            _ => false,
        }
    }
}

} // verus!
