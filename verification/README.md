# komodo_terminal

Terminal handling for a container management core, verified with Verus:
where a terminal lives (a Server, a container, a Stack service, a
Deployment or a Swarm task), how a Swarm task is traced to the Server whose
Periphery agent hosts it, and how terminal listings are gathered, filtered,
ordered and paged.

## Layout

- `src/` — the verified library.
  - `text.rs`: trimming, ASCII case folding and searching, over `Seq<char>`.
  - `entities.rs`: the data the logic reads (Servers, Swarm nodes and tasks,
    terminals and their targets).
  - `error.rs`: the refusals, with their exact messages.
  - `swarm_terminal.rs`: normalising host candidates and matching Swarm
    nodes to Servers by identity.
  - `terminal.rs`: terminal setup plans and names, Periphery requests, task
    placement and Server checks.
  - `task_resolution.rs`: the state machine that resolves a Swarm task to
    its Server, one read at a time.
  - `order.rs`, `listing.rs`: the listing order (a total order on sort
    keys), term filtering, stable sorting and paging.
  - `gather.rs`: what to ask for a listing, relabeling by permission, the
    Swarm tasks to ask through, and de-duplication.
  - `laws.rs`: properties that span several operations.
- `tests/` — tests of the library on concrete values.
- `app/` — the asynchronous side: permission checks, cache reads and
  requests to Periphery agents, which run the library's decisions.

`url` is called from the library (host parsing) through one trusted
wrapper; `str::to_lowercase` through another.
