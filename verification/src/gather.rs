//! Gathering terminals for a listing: which agents to ask for a target,
//! which Servers to ask for all of a user's terminals, how their answers are
//! relabeled and filtered by permission, and which Swarm tasks of a Stack to
//! ask through.
use vstd::prelude::*;
use vstd::string::*;
use crate::entities::{
    clone_opt_string, Deployment, Server, Stack, StackServiceStatus, Swarm, SwarmTaskListItem,
    Terminal, TerminalSortBy, TerminalTarget,
};
use crate::error::TerminalError;
use crate::listing::{compare_targets, sort_terminals, sorted_by, target_key};
use crate::order::lemma_key_order;
use crate::text::{first_where, lemma_first_where, opt_view, str_eq, views};

verus! {

/// How a listing request is answered.
#[derive(Debug)]
#[allow(inconsistent_fields)]
pub enum ListPlan {
    /// All terminals that the user may see, on every Server concerned.
    AllForUser,
    /// The terminals on one Server (by id or name), filtered by the target.
    Server { server: String, target: TerminalTarget },
    /// The terminals of a Deployment, on its Server, filtered by the target.
    Deployment { deployment: String, target: TerminalTarget },
    /// The terminals of a Stack (a service of it, or a Swarm task of it).
    Stack { stack: String, service: Option<String>, task: Option<String> },
    /// The terminals of a Swarm task, on the node that hosts it.
    SwarmTask { swarm: String, task: String },
}

/// How to answer a listing request for `target`: a Server target must name
/// its server.
pub fn list_plan(target: Option<TerminalTarget>) -> (r: Result<ListPlan, TerminalError>)
    ensures
        match target {
            None => r == Ok::<ListPlan, TerminalError>(ListPlan::AllForUser),
            Some(t) => match t {
                TerminalTarget::Server { server: None } => r == Err::<ListPlan, TerminalError>(
                    TerminalError::ServerParamRequired,
                ),
                TerminalTarget::Server { server: Some(s) } => r == Ok::<ListPlan, TerminalError>(
                    ListPlan::Server { server: s, target: t },
                ),
                TerminalTarget::Container { server, .. } => r == Ok::<ListPlan, TerminalError>(
                    ListPlan::Server { server, target: t },
                ),
                TerminalTarget::Stack { stack, service, task } => r == Ok::<
                    ListPlan,
                    TerminalError,
                >(ListPlan::Stack { stack, service, task }),
                TerminalTarget::Deployment { deployment } => r == Ok::<ListPlan, TerminalError>(
                    ListPlan::Deployment { deployment, target: t },
                ),
                TerminalTarget::SwarmTask { swarm, task } => r == Ok::<ListPlan, TerminalError>(
                    ListPlan::SwarmTask { swarm, task },
                ),
            },
        },
{
    match target {
        None => Ok(ListPlan::AllForUser),
        Some(TerminalTarget::Server { server: None }) => Err(TerminalError::ServerParamRequired),
        Some(TerminalTarget::Server { server: Some(server) }) => {
            let target = TerminalTarget::Server { server: Some(server.clone()) };
            Ok(ListPlan::Server { server, target })
        },
        Some(TerminalTarget::Container { server, container }) => {
            let target = TerminalTarget::Container { server: server.clone(), container };
            Ok(ListPlan::Server { server, target })
        },
        Some(TerminalTarget::Stack { stack, service, task }) => Ok(
            ListPlan::Stack { stack, service, task },
        ),
        Some(TerminalTarget::Deployment { deployment }) => {
            let target = TerminalTarget::Deployment { deployment: deployment.clone() };
            Ok(ListPlan::Deployment { deployment, target })
        },
        Some(TerminalTarget::SwarmTask { swarm, task }) => Ok(ListPlan::SwarmTask { swarm, task }),
    }
}

/// The label of a resource in a target: its name or its id.
pub open spec fn label(use_names: bool, name: String, id: String) -> String {
    if use_names {
        name
    } else {
        id
    }
}

/// `t` with a new target and target name.
pub open spec fn retarget(t: Terminal, target: TerminalTarget, target_name: String) -> Terminal {
    Terminal {
        name: t.name,
        target,
        target_name: Some(target_name),
        command: t.command,
        stored_size_kb_bits: t.stored_size_kb_bits,
        created_at: t.created_at,
    }
}

/// Where a listed terminal, found on Server `server_id` / `server_name`,
/// is shown, if at all. Server and Container terminals are shown when the
/// user has permission on the Server; Stack, Deployment and SwarmTask
/// terminals when the resource is among those the user may see. The
/// target then names the resource by name or id, and the target name is
/// the resource's name.
pub open spec fn relabel(
    t: Terminal,
    server_id: String,
    server_name: String,
    server_permission: bool,
    stacks: Seq<Stack>,
    deployments: Seq<Deployment>,
    swarms: Seq<Swarm>,
    use_names: bool,
) -> Option<Terminal> {
    match t.target {
        TerminalTarget::Server { .. } => if server_permission {
            Some(
                retarget(
                    t,
                    TerminalTarget::Server { server: Some(label(use_names, server_name, server_id)) },
                    server_name,
                ),
            )
        } else {
            None
        },
        TerminalTarget::Container { container, .. } => if server_permission {
            Some(
                retarget(
                    t,
                    TerminalTarget::Container {
                        server: label(use_names, server_name, server_id),
                        container,
                    },
                    server_name,
                ),
            )
        } else {
            None
        },
        TerminalTarget::Stack { stack, service, task } => {
            let k = first_where(stacks, |s: Stack| s.id@ == stack@);
            if k < stacks.len() {
                Some(
                    retarget(
                        t,
                        TerminalTarget::Stack {
                            stack: label(use_names, stacks[k].name, stacks[k].id),
                            service,
                            task,
                        },
                        stacks[k].name,
                    ),
                )
            } else {
                None
            }
        },
        TerminalTarget::Deployment { deployment } => {
            let k = first_where(deployments, |d: Deployment| d.id@ == deployment@);
            if k < deployments.len() {
                Some(
                    retarget(
                        t,
                        TerminalTarget::Deployment {
                            deployment: label(use_names, deployments[k].name, deployments[k].id),
                        },
                        deployments[k].name,
                    ),
                )
            } else {
                None
            }
        },
        TerminalTarget::SwarmTask { swarm, task } => {
            let k = first_where(swarms, |s: Swarm| s.id@ == swarm@);
            if k < swarms.len() {
                Some(
                    retarget(
                        t,
                        TerminalTarget::SwarmTask {
                            swarm: label(use_names, swarms[k].name, swarms[k].id),
                            task,
                        },
                        swarms[k].name,
                    ),
                )
            } else {
                None
            }
        },
    }
}

/// The terminals found on one Server that are shown, relabeled, in order.
pub open spec fn relabel_all(
    terminals: Seq<Terminal>,
    server_id: String,
    server_name: String,
    server_permission: bool,
    stacks: Seq<Stack>,
    deployments: Seq<Deployment>,
    swarms: Seq<Swarm>,
    use_names: bool,
) -> Seq<Terminal> {
    terminals.filter_map(
        |t: Terminal|
            relabel(
                t,
                server_id,
                server_name,
                server_permission,
                stacks,
                deployments,
                swarms,
                use_names,
            ),
    )
}

fn pick_label(use_names: bool, name: &String, id: &String) -> (r: String)
    ensures
        r == label(use_names, *name, *id),
{
    if use_names {
        name.clone()
    } else {
        id.clone()
    }
}

fn retarget_exec(t: &Terminal, target: TerminalTarget, target_name: &String) -> (r: Terminal)
    ensures
        r == retarget(*t, target, *target_name),
{
    Terminal {
        name: t.name.clone(),
        target,
        target_name: Some(target_name.clone()),
        command: t.command.clone(),
        stored_size_kb_bits: t.stored_size_kb_bits,
        created_at: t.created_at,
    }
}

fn find_stack(stacks: &[Stack], id: &String) -> (r: usize)
    ensures
        r == first_where(stacks@, |s: Stack| s.id@ == id@),
{
    let mut k: usize = 0;
    while k < stacks.len() && !str_eq(stacks[k].id.as_str(), id.as_str())
        invariant
            k <= stacks@.len(),
            forall|j: int| 0 <= j < k ==> (#[trigger] stacks@[j]).id@ != id@,
        decreases stacks@.len() - k,
    {
        k = k + 1;
    }
    proof {
        lemma_first_where(stacks@, |s: Stack| s.id@ == id@, k as int);
    }
    k
}

fn find_deployment(deployments: &[Deployment], id: &String) -> (r: usize)
    ensures
        r == first_where(deployments@, |d: Deployment| d.id@ == id@),
{
    let mut k: usize = 0;
    while k < deployments.len() && !str_eq(deployments[k].id.as_str(), id.as_str())
        invariant
            k <= deployments@.len(),
            forall|j: int| 0 <= j < k ==> (#[trigger] deployments@[j]).id@ != id@,
        decreases deployments@.len() - k,
    {
        k = k + 1;
    }
    proof {
        lemma_first_where(deployments@, |d: Deployment| d.id@ == id@, k as int);
    }
    k
}

fn find_swarm(swarms: &[Swarm], id: &String) -> (r: usize)
    ensures
        r == first_where(swarms@, |s: Swarm| s.id@ == id@),
{
    let mut k: usize = 0;
    while k < swarms.len() && !str_eq(swarms[k].id.as_str(), id.as_str())
        invariant
            k <= swarms@.len(),
            forall|j: int| 0 <= j < k ==> (#[trigger] swarms@[j]).id@ != id@,
        decreases swarms@.len() - k,
    {
        k = k + 1;
    }
    proof {
        lemma_first_where(swarms@, |s: Swarm| s.id@ == id@, k as int);
    }
    k
}

/// `relabel`, computed for one terminal.
pub fn relabel_terminal(
    t: &Terminal,
    server_id: &String,
    server_name: &String,
    server_permission: bool,
    stacks: &[Stack],
    deployments: &[Deployment],
    swarms: &[Swarm],
    use_names: bool,
) -> (r: Option<Terminal>)
    ensures
        r == relabel(
            *t,
            *server_id,
            *server_name,
            server_permission,
            stacks@,
            deployments@,
            swarms@,
            use_names,
        ),
{
    match &t.target {
        TerminalTarget::Server { .. } => {
            if server_permission {
                let target = TerminalTarget::Server {
                    server: Some(pick_label(use_names, server_name, server_id)),
                };
                Some(retarget_exec(t, target, server_name))
            } else {
                None
            }
        },
        TerminalTarget::Container { container, .. } => {
            if server_permission {
                let target = TerminalTarget::Container {
                    server: pick_label(use_names, server_name, server_id),
                    container: container.clone(),
                };
                Some(retarget_exec(t, target, server_name))
            } else {
                None
            }
        },
        TerminalTarget::Stack { stack, service, task } => {
            let k = find_stack(stacks, stack);
            if k < stacks.len() {
                let target = TerminalTarget::Stack {
                    stack: pick_label(use_names, &stacks[k].name, &stacks[k].id),
                    service: clone_opt_string(service),
                    task: clone_opt_string(task),
                };
                Some(retarget_exec(t, target, &stacks[k].name))
            } else {
                None
            }
        },
        TerminalTarget::Deployment { deployment } => {
            let k = find_deployment(deployments, deployment);
            if k < deployments.len() {
                let target = TerminalTarget::Deployment {
                    deployment: pick_label(use_names, &deployments[k].name, &deployments[k].id),
                };
                Some(retarget_exec(t, target, &deployments[k].name))
            } else {
                None
            }
        },
        TerminalTarget::SwarmTask { swarm, task } => {
            let k = find_swarm(swarms, swarm);
            if k < swarms.len() {
                let target = TerminalTarget::SwarmTask {
                    swarm: pick_label(use_names, &swarms[k].name, &swarms[k].id),
                    task: task.clone(),
                };
                Some(retarget_exec(t, target, &swarms[k].name))
            } else {
                None
            }
        },
    }
}

/// The terminals found on one Server that the user may see, relabeled, in
/// their order.
pub fn relabel_server_terminals(
    terminals: &[Terminal],
    server_id: &String,
    server_name: &String,
    server_permission: bool,
    stacks: &[Stack],
    deployments: &[Deployment],
    swarms: &[Swarm],
    use_names: bool,
) -> (r: Vec<Terminal>)
    ensures
        r@ == relabel_all(
            terminals@,
            *server_id,
            *server_name,
            server_permission,
            stacks@,
            deployments@,
            swarms@,
            use_names,
        ),
{
    let ghost f = |t: Terminal|
        relabel(
            t,
            *server_id,
            *server_name,
            server_permission,
            stacks@,
            deployments@,
            swarms@,
            use_names,
        );
    let mut out: Vec<Terminal> = Vec::new();
    let mut i: usize = 0;
    while i < terminals.len()
        invariant
            i <= terminals@.len(),
            out@ == terminals@.take(i as int).filter_map(f),
            f == (|t: Terminal|
                relabel(
                    t,
                    *server_id,
                    *server_name,
                    server_permission,
                    stacks@,
                    deployments@,
                    swarms@,
                    use_names,
                )),
        decreases terminals@.len() - i,
    {
        let r = relabel_terminal(
            &terminals[i],
            server_id,
            server_name,
            server_permission,
            stacks,
            deployments,
            swarms,
            use_names,
        );
        proof {
            let t = terminals@.take(i + 1);
            assert(t.drop_last() =~= terminals@.take(i as int));
            assert(t.last() == terminals@[i as int]);
        }
        match r {
            Some(x) => {
                out.push(x);
                assert(out@ =~= terminals@.take(i as int).filter_map(f) + seq![x]);
            },
            None => {},
        }
        i = i + 1;
    }
    assert(terminals@.take(terminals@.len() as int) =~= terminals@);
    out
}

/// No Server of `servers` has the id.
pub open spec fn lacks_server(servers: Seq<(Server, bool)>, id: Seq<char>) -> bool {
    forall|k: int| 0 <= k < servers.len() ==> (#[trigger] servers[k]).0.id@ != id
}

/// A resource on Server `server_id` needs that Server fetched: the id is
/// set and no gathered Server has it.
pub fn server_missing(servers: &[(Server, bool)], server_id: &str) -> (r: bool)
    ensures
        r == (server_id@.len() > 0 && lacks_server(servers@, server_id@)),
{
    if server_id.unicode_len() == 0 {
        return false;
    }
    let mut k: usize = 0;
    while k < servers.len()
        invariant
            k <= servers@.len(),
            forall|j: int| 0 <= j < k ==> (#[trigger] servers@[j]).0.id@ != server_id@,
        decreases servers@.len() - k,
    {
        if str_eq(servers[k].0.id.as_str(), server_id) {
            return false;
        }
        k = k + 1;
    }
    true
}

/// `servers` after offering it each Server in turn: one is added (without
/// permission) unless a Server of that id is already there.
pub open spec fn with_missing(servers: Seq<(Server, bool)>, more: Seq<Server>) -> Seq<(Server, bool)>
    decreases more.len(),
{
    if more.len() == 0 {
        servers
    } else {
        let before = with_missing(servers, more.drop_last());
        if lacks_server(before, more.last().id@) {
            before.push((more.last(), false))
        } else {
            before
        }
    }
}

/// Adds each Server of `more` (without permission) that is not yet among
/// `servers`, by id.
pub fn add_missing_servers(servers: &mut Vec<(Server, bool)>, more: Vec<Server>)
    ensures
        final(servers)@ == with_missing(old(servers)@, more@),
{
    let ghost start = servers@;
    let mut i: usize = 0;
    while i < more.len()
        invariant
            i <= more@.len(),
            servers@ == with_missing(start, more@.take(i as int)),
        decreases more@.len() - i,
    {
        let missing = {
            let mut k: usize = 0;
            let mut found = false;
            while k < servers.len() && !found
                invariant
                    i < more@.len(),
                    k <= servers@.len(),
                    found ==> !lacks_server(servers@, more@[i as int].id@),
                    !found ==> forall|j: int|
                        0 <= j < k ==> (#[trigger] servers@[j]).0.id@ != more@[i as int].id@,
                decreases servers@.len() - k + (if found { 0int } else { 1int }),
            {
                if str_eq(servers[k].0.id.as_str(), more[i].id.as_str()) {
                    found = true;
                    assert(servers@[k as int].0.id@ == more@[i as int].id@);
                } else {
                    k = k + 1;
                }
            }
            !found
        };
        proof {
            let t = more@.take(i + 1);
            assert(t.drop_last() =~= more@.take(i as int));
            assert(t.last() == more@[i as int]);
        }
        if missing {
            servers.push((more[i].clone(), false));
        }
        i = i + 1;
    }
    assert(more@.take(more@.len() as int) =~= more@);
}

/// Where a Stack's terminals are asked for.
#[derive(Debug)]
pub enum StackListing {
    /// The Stack is not on a Swarm: ask its Server.
    OnServer { server_id: String },
    /// A Swarm task is named: ask only the node that hosts it.
    OnTaskNode { swarm_id: String, task: String },
    /// Ask the nodes running tasks of the Stack's Swarm services.
    OnServiceNodes { swarm_id: String },
}

/// Where to ask for the terminals of `stack` (of its task `task`, when one
/// is named): its Server when it is not on a Swarm; else the node of the
/// named task; else the nodes of its Swarm services.
pub fn stack_listing(stack: &Stack, task: Option<&str>) -> (r: StackListing)
    ensures
        stack.swarm_id@.len() == 0 ==> r == (StackListing::OnServer { server_id: stack.server_id }),
        stack.swarm_id@.len() > 0 ==> match task {
            Some(t) => match r {
                StackListing::OnTaskNode { swarm_id, task: named } => swarm_id == stack.swarm_id
                    && named@ == t@,
                _ => false,
            },
            None => r == (StackListing::OnServiceNodes { swarm_id: stack.swarm_id }),
        },
{
    if stack.swarm_id.as_str().unicode_len() == 0 {
        return StackListing::OnServer { server_id: stack.server_id.clone() };
    }
    match task {
        Some(t) => StackListing::OnTaskNode { swarm_id: stack.swarm_id.clone(), task: t.to_owned() },
        None => StackListing::OnServiceNodes { swarm_id: stack.swarm_id.clone() },
    }
}

/// The Swarm service ids of a Stack's services (those of the given name,
/// when one is given), each once.
pub fn stack_swarm_service_ids(services: &[StackServiceStatus], service: Option<&str>) -> (r: Vec<
    String,
>)
    ensures
        forall|a: int, b: int| 0 <= a < b < r@.len() ==> (#[trigger] r@[a])@ != (#[trigger] r@[b])@,
        forall|x: Seq<char>|
            #![trigger views(r@).contains(x)]
            views(r@).contains(x) <==> exists|k: int|
                0 <= k < services@.len() && wanted_service(services@[k], service)
                    && opt_view(#[trigger] services@[k].swarm_service_id) == Some(x),
{
    let mut out: Vec<String> = Vec::new();
    let mut k: usize = 0;
    while k < services.len()
        invariant
            k <= services@.len(),
            forall|a: int, b: int|
                0 <= a < b < out@.len() ==> (#[trigger] out@[a])@ != (#[trigger] out@[b])@,
            forall|x: Seq<char>|
                #![trigger views(out@).contains(x)]
                views(out@).contains(x) <==> exists|j: int|
                    0 <= j < k && wanted_service(services@[j], service) && opt_view(
                        #[trigger] services@[j].swarm_service_id,
                    ) == Some(x),
        decreases services@.len() - k,
    {
        let wanted = match service {
            Some(want) => str_eq(services[k].service.as_str(), want),
            None => true,
        };
        let ghost before = out@;
        if wanted {
            if let Some(id) = &services[k].swarm_service_id {
                if !contains_string(out.as_slice(), id.as_str()) {
                    out.push(id.clone());
                    proof {
                        assert(views(out@) =~= views(before).push(id@));
                        assert forall|a: int| 0 <= a < before.len() implies before[a]@ != id@ by {
                            assert(views(before)[a] == before[a]@);
                        }
                    }
                }
            }
        }
        proof {
            assert forall|x: Seq<char>|
                #![trigger views(out@).contains(x)]
                views(out@).contains(x) <==> exists|q: int|
                    0 <= q < k + 1 && wanted_service(services@[q], service) && opt_view(
                        #[trigger] services@[q].swarm_service_id,
                    ) == Some(x) by {
                if views(before).contains(x) {
                    let p = choose|p: int| 0 <= p < views(before).len() && views(before)[p] == x;
                    assert(views(out@)[p] == x);
                    let q = choose|q: int|
                        0 <= q < k && wanted_service(services@[q], service) && opt_view(
                            #[trigger] services@[q].swarm_service_id,
                        ) == Some(x);
                } else if views(out@).contains(x) {
                    let p = choose|p: int| 0 <= p < views(out@).len() && views(out@)[p] == x;
                    if p < views(before).len() {
                        assert(views(before)[p] == x);
                    }
                    assert(opt_view(services@[k as int].swarm_service_id) == Some(x));
                } else if wanted_service(services@[k as int], service) && opt_view(
                    services@[k as int].swarm_service_id,
                ) == Some(x) {
                    assert(views(out@)[views(before).len() as int] == x);
                }
            }
        }
        k = k + 1;
    }
    out
}

/// The service is wanted: no name was given, or it has that name.
pub open spec fn wanted_service(s: StackServiceStatus, service: Option<&str>) -> bool {
    match service {
        Some(want) => s.service@ == want@,
        None => true,
    }
}

/// The nodes already asked, and the tasks to ask through, after walking
/// `tasks`: a task is taken when it belongs to one of the Swarm services,
/// has an id, and runs on a node (an absent node counts as the empty one)
/// not yet taken.
pub open spec fn task_walk(tasks: Seq<SwarmTaskListItem>, service_ids: Seq<Seq<char>>) -> (
    Set<Seq<char>>,
    Seq<Seq<char>>,
)
    decreases tasks.len(),
{
    if tasks.len() == 0 {
        (Set::empty(), Seq::empty())
    } else {
        let (seen, out) = task_walk(tasks.drop_last(), service_ids);
        let t = tasks.last();
        match (t.service_id, t.id) {
            (Some(sid), Some(tid)) => if service_ids.contains(sid@) {
                let node = match t.node_id {
                    Some(n) => n@,
                    None => Seq::empty(),
                };
                if seen.contains(node) {
                    (seen, out)
                } else {
                    (seen.insert(node), out.push(tid@))
                }
            } else {
                (seen, out)
            },
            _ => (seen, out),
        }
    }
}

fn contains_string(list: &[String], x: &str) -> (r: bool)
    ensures
        r == views(list@).contains(x@),
{
    let mut k: usize = 0;
    while k < list.len()
        invariant
            k <= list@.len(),
            forall|j: int| 0 <= j < k ==> (#[trigger] list@[j])@ != x@,
        decreases list@.len() - k,
    {
        if str_eq(list[k].as_str(), x) {
            assert(views(list@)[k as int] == x@);
            return true;
        }
        k = k + 1;
    }
    false
}

/// The tasks of a Swarm Stack to ask for terminals: one per node, among the
/// tasks of the Stack's Swarm services.
pub fn stack_tasks_to_query(tasks: &[SwarmTaskListItem], service_ids: &[String]) -> (r: Vec<String>)
    ensures
        views(r@) == task_walk(tasks@, views(service_ids@)).1,
{
    let ghost ids = views(service_ids@);
    let mut seen: Vec<String> = Vec::new();
    let mut out: Vec<String> = Vec::new();
    let mut i: usize = 0;
    while i < tasks.len()
        invariant
            i <= tasks@.len(),
            ids == views(service_ids@),
            views(seen@).to_set() == task_walk(tasks@.take(i as int), ids).0,
            views(out@) == task_walk(tasks@.take(i as int), ids).1,
        decreases tasks@.len() - i,
    {
        proof {
            let t = tasks@.take(i + 1);
            assert(t.drop_last() =~= tasks@.take(i as int));
            assert(t.last() == tasks@[i as int]);
        }
        let t = &tasks[i];
        match (&t.service_id, &t.id) {
            (Some(sid), Some(tid)) => {
                if contains_string(service_ids, sid.as_str()) {
                    let node: String = match &t.node_id {
                        Some(n) => n.clone(),
                        None => String::new(),
                    };
                    if !contains_string(seen.as_slice(), node.as_str()) {
                        let ghost before = seen@;
                        seen.push(node);
                        out.push(tid.clone());
                        proof {
                            assert(views(seen@) =~= views(before).push(node@));
                            assert(views(before) + seq![node@] =~= views(seen@));
                            Seq::lemma_to_set_insert_commutes(views(before), node@);
                            assert(views(out@) =~= task_walk(tasks@.take(i as int), ids).1.push(
                                tid@,
                            ));
                        }
                    }
                }
            },
            _ => {},
        }
        i = i + 1;
    }
    assert(tasks@.take(tasks@.len() as int) =~= tasks@);
    out
}

/// Two listed terminals are duplicates: same name and same target.
pub open spec fn duplicates(a: Terminal, b: Terminal) -> bool {
    a.name@ == b.name@ && target_key(a.target) == target_key(b.target)
}

/// `s` without the items that duplicate the last item kept before them.
pub open spec fn dedup_kept(s: Seq<Terminal>) -> Seq<Terminal>
    decreases s.len(),
{
    if s.len() == 0 {
        s
    } else {
        let d = dedup_kept(s.drop_last());
        if d.len() > 0 && duplicates(s.last(), d.last()) {
            d
        } else {
            d.push(s.last())
        }
    }
}

/// The terminals of a Swarm Stack gathered from its nodes: sorted by name
/// (stably), then without duplicates of the terminal kept before.
pub fn sort_dedup_terminals(terminals: Vec<Terminal>) -> (r: Vec<Terminal>)
    ensures
        exists|sorted: Seq<Terminal>|
            sorted_by(terminals@, TerminalSortBy::Name, false, sorted) && r@ == dedup_kept(sorted),
{
    let sorted = sort_terminals(terminals, TerminalSortBy::Name, false);
    let mut out: Vec<Terminal> = Vec::new();
    let mut i: usize = 0;
    while i < sorted.len()
        invariant
            i <= sorted@.len(),
            out@ == dedup_kept(sorted@.take(i as int)),
        decreases sorted@.len() - i,
    {
        proof {
            let t = sorted@.take(i + 1);
            assert(t.drop_last() =~= sorted@.take(i as int));
            assert(t.last() == sorted@[i as int]);
        }
        let dup = if out.len() > 0 {
            let last = out.len() - 1;
            let same_name = str_eq(sorted[i].name.as_str(), out[last].name.as_str());
            let same_target = compare_targets(&sorted[i].target, &out[last].target) == 0;
            proof {
                lemma_key_order(
                    target_key(sorted@[i as int].target),
                    target_key(out@[last as int].target),
                    target_key(out@[last as int].target),
                );
            }
            same_name && same_target
        } else {
            false
        };
        if !dup {
            out.push(sorted[i].clone());
        }
        i = i + 1;
    }
    assert(sorted@.take(sorted@.len() as int) =~= sorted@);
    out
}

} // verus!
