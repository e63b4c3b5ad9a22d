//! Swarm task terminal resolve helpers: matching a Swarm node to a Server by
//! identity (names, hostnames, addresses, public IPs).
use vstd::prelude::*;
use vstd::string::*;
use crate::entities::{
    CachedServerStatus, Server, SwarmNode, SwarmNodeListItem, TaskState,
};
use crate::error::TerminalError;
use crate::text::{
    all_ascii_digits, all_digits, contains_char, eq_ignore_ascii_case, eq_ignore_case, find_char,
    index_of, last_index_of, lemma_index_of_bounds, lemma_last_index_of_bounds, opt_str_view,
    opt_view, rfind_char, short_host, short_hostname, trim, trim_str, views,
};

verus! {

/// The host that `url::Url::parse` finds in `input` (read with `host_str`),
/// or `None` where `input` is no absolute URL or the URL has no host.
pub uninterp spec fn url_host(input: Seq<char>) -> Option<Seq<char>>;

/// Calls `url::Url::parse` on `input` and reads `host_str` of the result.
/// Claims only that the outcome is `url_host` of the input: the same input
/// gives the same host, as the parser is a pure function of its input.
#[verifier::external_body]
fn parsed_url_host(input: &str) -> (r: Option<String>)
    ensures
        opt_view(r) == url_host(input@),
{
    match url::Url::parse(input) {
        Ok(url) => match url.host_str() {
            Some(host) => Some(host.to_string()),
            None => None,
        },
        Err(_) => None,
    }
}

/// The host of `host:port`, split at the last `:`, where the host is not
/// empty and holds no `]` and no other `:`, and the port is all ASCII
/// digits. An input with more than one `:` (a raw IPv6 address, say) has
/// no host here: it is left whole.
pub open spec fn host_before_port(t: Seq<char>) -> Option<Seq<char>> {
    let k = last_index_of(t, ':');
    if k > 0 && !t.take(k).contains(']') && !t.take(k).contains(':') && all_ascii_digits(
        t.skip(k + 1),
    ) {
        Some(t.take(k))
    } else {
        None
    }
}

/// The host of `[host]...`, where it is not empty.
pub open spec fn bracketed_host(t: Seq<char>) -> Option<Seq<char>> {
    let e = index_of(t, ']');
    if t.len() > 0 && t[0] == '[' && e < t.len() && e > 1 {
        Some(t.subrange(1, e))
    } else {
        None
    }
}

/// The normal form of a raw host candidate, given the host that URL parsing
/// found in its trimmed form: `None` for a blank candidate; else the URL host
/// (trimmed) where there is a non-blank one; else the host of `host:port`;
/// else the host of `[host]`; else the trimmed candidate.
pub open spec fn normalize_with(raw: Seq<char>, parsed: Option<Seq<char>>) -> Option<Seq<char>> {
    let t = trim(raw);
    if t.len() == 0 {
        None
    } else if parsed is Some && trim(parsed->0).len() > 0 {
        Some(trim(parsed->0))
    } else if host_before_port(t) is Some {
        host_before_port(t)
    } else if bracketed_host(t) is Some {
        bracketed_host(t)
    } else {
        Some(t)
    }
}

/// The normal form of a raw host candidate.
pub open spec fn normalize(raw: Seq<char>) -> Option<Seq<char>> {
    normalize_with(raw, url_host(trim(raw)))
}

/// Two identities match: both are non-blank after trimming, and they are
/// equal ignoring ASCII case, or the short name (before the first `.`) of
/// one equals the other. Two short names alone do not make a match: `10.0.0.5`
/// does not match `10.1.1.1`.
pub open spec fn same_identity(a: Seq<char>, b: Seq<char>) -> bool {
    let a = trim(a);
    let b = trim(b);
    &&& a.len() > 0
    &&& b.len() > 0
    &&& {
        ||| eq_ignore_case(a, b)
        ||| eq_ignore_case(short_host(a), b)
        ||| eq_ignore_case(short_host(b), a)
    }
}

/// The candidate that a raw value contributes: its normal form.
pub open spec fn candidate_of(raw: Option<Seq<char>>) -> Option<Seq<char>> {
    match raw {
        Some(r) => normalize(r),
        None => None,
    }
}

/// `out` already holds `n`, ignoring ASCII case.
pub open spec fn holds_ignoring_case(out: Seq<Seq<char>>, n: Seq<char>) -> bool {
    exists|i: int| 0 <= i < out.len() && eq_ignore_case(#[trigger] out[i], n)
}

/// `out` after offering it the raw value: the normal form is appended unless
/// it is absent or `out` already holds it ignoring ASCII case.
pub open spec fn with_candidate(out: Seq<Seq<char>>, raw: Option<Seq<char>>) -> Seq<Seq<char>> {
    match candidate_of(raw) {
        None => out,
        Some(n) => if holds_ignoring_case(out, n) {
            out
        } else {
            out.push(n)
        },
    }
}

/// The candidates gathered by offering each raw value in turn to an empty list.
pub open spec fn collect_candidates(raws: Seq<Option<Seq<char>>>) -> Seq<Seq<char>>
    decreases raws.len(),
{
    if raws.len() == 0 {
        Seq::empty()
    } else {
        with_candidate(collect_candidates(raws.drop_last()), raws.last())
    }
}

/// The raw identities of a listed Swarm node: hostname, name, manager address.
pub open spec fn list_item_raws(node: SwarmNodeListItem) -> Seq<Option<Seq<char>>> {
    seq![opt_view(node.hostname), opt_view(node.name), opt_view(node.manager_addr)]
}

/// The raw identities of an inspected Swarm node: description hostname,
/// spec name, status address, manager status address.
pub open spec fn inspect_raws(node: SwarmNode) -> Seq<Option<Seq<char>>> {
    seq![
        match node.description {
            Some(d) => opt_view(d.hostname),
            None => None,
        },
        match node.node_spec {
            Some(s) => opt_view(s.name),
            None => None,
        },
        match node.status {
            Some(s) => opt_view(s.addr),
            None => None,
        },
        match node.manager_status {
            Some(s) => opt_view(s.addr),
            None => None,
        },
    ]
}

/// The raw identities of a Server: name, address, external address (when
/// set), and from its status the system host name and the public IP.
pub open spec fn server_raws(server: Server, status: Option<CachedServerStatus>) -> Seq<
    Option<Seq<char>>,
> {
    seq![
        Some(server.name@),
        Some(server.config.address@),
        if server.config.external_address@.len() > 0 {
            Some(server.config.external_address@)
        } else {
            None
        },
        match status {
            Some(st) => match st.system_info {
                Some(info) => opt_view(info.host_name),
                None => None,
            },
            None => None,
        },
        match status {
            Some(st) => match st.periphery_info {
                Some(info) => opt_view(info.public_ip),
                None => None,
            },
            None => None,
        },
    ]
}

/// Some identity of a Server matches some identity of a node.
pub open spec fn any_identity_match(server_cands: Seq<Seq<char>>, node_cands: Seq<Seq<char>>) -> bool {
    exists|i: int, j: int|
        0 <= i < server_cands.len() && 0 <= j < node_cands.len() && #[trigger] same_identity(
            server_cands[i],
            #[trigger] node_cands[j],
        )
}

/// The Server entry (with its candidates) matches the node candidates.
pub open spec fn entry_matches(entry: (Server, Vec<String>), node_cands: Seq<Seq<char>>) -> bool {
    any_identity_match(views(entry.1@), node_cands)
}

/// Validate task is runnable for create/connect when `require_running`.
pub fn check_swarm_task_running_gate(
    task_id: &str,
    state: Option<TaskState>,
    container_id: Option<&str>,
    require_running: bool,
) -> (r: Result<(), TerminalError>)
    ensures
        !require_running ==> r is Ok,
        require_running && state != Some(TaskState::RUNNING) ==> match r {
            Err(TerminalError::TaskNotRunning { task_id: t, state: s }) => t@ == task_id@ && s
                == state,
            _ => false,
        },
        require_running && state == Some(TaskState::RUNNING) ==> match container_id {
            Some(id) if id@.len() > 0 => r is Ok,
            _ => match r {
                Err(TerminalError::TaskWithoutContainer { task_id: t }) => t@ == task_id@,
                _ => false,
            },
        },
{
    if !require_running {
        return Ok(());
    }
    let running = match state {
        Some(TaskState::RUNNING) => true,
        _ => false,
    };
    if !running {
        return Err(TerminalError::TaskNotRunning { task_id: task_id.to_owned(), state });
    }
    let has_container = match container_id {
        Some(id) => id.unicode_len() > 0,
        None => false,
    };
    if !has_container {
        return Err(TerminalError::TaskWithoutContainer { task_id: task_id.to_owned() });
    }
    Ok(())
}

/// The normal form of a raw host candidate, given `url_host`: the host that
/// URL parsing found in the trimmed candidate.
pub fn normalize_host_candidate_with(raw: &str, url_host: Option<&str>) -> (r: Option<String>)
    ensures
        opt_view(r) == normalize_with(raw@, opt_str_view(url_host)),
{
    let t = trim_str(raw);
    let n = t.unicode_len();
    if n == 0 {
        return None;
    }
    match url_host {
        Some(h) => {
            let h = trim_str(h);
            if h.unicode_len() > 0 {
                return Some(h.to_owned());
            }
        },
        None => {},
    }
    proof {
        lemma_last_index_of_bounds(t@, ':');
        lemma_index_of_bounds(t@, ']');
    }
    match rfind_char(t, ':') {
        Some(k) => {
            if k > 0 {
                let host = t.substring_char(0, k);
                let port = t.substring_char(k + 1, n);
                assert(host@ =~= t@.take(k as int));
                assert(port@ =~= t@.skip(k + 1));
                if !contains_char(host, ']') && !contains_char(host, ':') && all_digits(port) {
                    return Some(host.to_owned());
                }
            }
        },
        None => {},
    }
    if t.get_char(0) == '[' {
        let e = find_char(t, ']');
        if e < n && e > 1 {
            let host = t.substring_char(1, e);
            return Some(host.to_owned());
        }
    }
    Some(t.to_owned())
}

/// Strip host:port → host; also accept raw IPs / hostnames.
pub fn normalize_host_candidate(raw: &str) -> (r: Option<String>)
    ensures
        opt_view(r) == normalize(raw@),
{
    let t = trim_str(raw);
    if t.unicode_len() == 0 {
        return None;
    }
    let parsed = parsed_url_host(t);
    let host: Option<&str> = match &parsed {
        Some(h) => Some(h.as_str()),
        None => None,
    };
    normalize_host_candidate_with(raw, host)
}

/// Exact ignore-case, then short-name (before first `.`) either direction.
pub fn identities_match(a: &str, b: &str) -> (r: bool)
    ensures
        r == same_identity(a@, b@),
{
    let a = trim_str(a);
    let b = trim_str(b);
    if a.unicode_len() == 0 || b.unicode_len() == 0 {
        return false;
    }
    if eq_ignore_ascii_case(a, b) {
        return true;
    }
    let a_short = short_hostname(a);
    let b_short = short_hostname(b);
    eq_ignore_ascii_case(a_short, b) || eq_ignore_ascii_case(b_short, a)
}

/// Appends the normal form of `raw` to `out`, unless `raw` is absent or
/// blank, or `out` already holds it ignoring ASCII case.
pub fn push_unique_candidate(out: &mut Vec<String>, raw: Option<&str>)
    ensures
        views(final(out)@) == with_candidate(views(old(out)@), opt_str_view(raw)),
{
    let given = match raw {
        Some(r) => r,
        None => {
            return ;
        },
    };
    let norm = match normalize_host_candidate(given) {
        Some(n) => n,
        None => {
            return ;
        },
    };
    let ghost before = views(out@);
    assert(candidate_of(opt_str_view(raw)) == Some(norm@));
    let mut i: usize = 0;
    while i < out.len()
        invariant
            i <= out@.len(),
            views(out@) == before,
            before == views(old(out)@),
            candidate_of(opt_str_view(raw)) == Some(norm@),
            forall|k: int| 0 <= k < i ==> !eq_ignore_case(#[trigger] before[k], norm@),
        decreases out@.len() - i,
    {
        if eq_ignore_ascii_case(out[i].as_str(), norm.as_str()) {
            assert(eq_ignore_case(before[i as int], norm@));
            assert(holds_ignoring_case(before, norm@));
            return ;
        }
        i = i + 1;
    }
    out.push(norm);
    assert(views(out@) =~= before.push(norm@));
}

/// Turns an optional owned string into an optional slice of it.
pub fn opt_as_str(o: &Option<String>) -> (r: Option<&str>)
    ensures
        opt_str_view(r) == opt_view(*o),
{
    match o {
        Some(s) => Some(s.as_str()),
        None => None,
    }
}

proof fn lemma_collect_three(a: Option<Seq<char>>, b: Option<Seq<char>>, c: Option<Seq<char>>)
    ensures
        collect_candidates(seq![a, b, c]) == with_candidate(
            with_candidate(with_candidate(Seq::empty(), a), b),
            c,
        ),
{
    let s1 = seq![a];
    let s2 = seq![a, b];
    let s3 = seq![a, b, c];
    assert(s1.drop_last() =~= Seq::<Option<Seq<char>>>::empty());
    assert(collect_candidates(Seq::<Option<Seq<char>>>::empty()) == Seq::<Seq<char>>::empty());
    assert(collect_candidates(s1) == with_candidate(Seq::empty(), a));
    assert(s2.drop_last() =~= s1);
    assert(collect_candidates(s2) == with_candidate(collect_candidates(s1), b));
    assert(s3.drop_last() =~= s2);
    assert(collect_candidates(s3) == with_candidate(collect_candidates(s2), c));
}

proof fn lemma_collect_four(
    a: Option<Seq<char>>,
    b: Option<Seq<char>>,
    c: Option<Seq<char>>,
    d: Option<Seq<char>>,
)
    ensures
        collect_candidates(seq![a, b, c, d]) == with_candidate(
            collect_candidates(seq![a, b, c]),
            d,
        ),
{
    assert(seq![a, b, c, d].drop_last() =~= seq![a, b, c]);
}

proof fn lemma_collect_five(
    a: Option<Seq<char>>,
    b: Option<Seq<char>>,
    c: Option<Seq<char>>,
    d: Option<Seq<char>>,
    e: Option<Seq<char>>,
)
    ensures
        collect_candidates(seq![a, b, c, d, e]) == with_candidate(
            collect_candidates(seq![a, b, c, d]),
            e,
        ),
{
    assert(seq![a, b, c, d, e].drop_last() =~= seq![a, b, c, d]);
}

/// Identity candidates of a node from the cached node list.
pub fn node_identity_candidates_from_list_item(node: &SwarmNodeListItem) -> (r: Vec<String>)
    ensures
        views(r@) == collect_candidates(list_item_raws(*node)),
{
    let mut out: Vec<String> = Vec::new();
    assert(views(out@) =~= Seq::<Seq<char>>::empty());
    push_unique_candidate(&mut out, opt_as_str(&node.hostname));
    push_unique_candidate(&mut out, opt_as_str(&node.name));
    push_unique_candidate(&mut out, opt_as_str(&node.manager_addr));
    proof {
        lemma_collect_three(
            opt_view(node.hostname),
            opt_view(node.name),
            opt_view(node.manager_addr),
        );
    }
    out
}

/// Identity candidates of an inspected node.
pub fn node_identity_candidates_from_inspect(node: &SwarmNode) -> (r: Vec<String>)
    ensures
        views(r@) == collect_candidates(inspect_raws(*node)),
{
    let mut out: Vec<String> = Vec::new();
    assert(views(out@) =~= Seq::<Seq<char>>::empty());
    let hostname: Option<&str> = match &node.description {
        Some(d) => opt_as_str(&d.hostname),
        None => None,
    };
    push_unique_candidate(&mut out, hostname);
    let name: Option<&str> = match &node.node_spec {
        Some(s) => opt_as_str(&s.name),
        None => None,
    };
    push_unique_candidate(&mut out, name);
    let addr: Option<&str> = match &node.status {
        Some(s) => opt_as_str(&s.addr),
        None => None,
    };
    push_unique_candidate(&mut out, addr);
    let manager_addr: Option<&str> = match &node.manager_status {
        Some(s) => opt_as_str(&s.addr),
        None => None,
    };
    push_unique_candidate(&mut out, manager_addr);
    proof {
        let raws = inspect_raws(*node);
        lemma_collect_three(raws[0], raws[1], raws[2]);
        lemma_collect_four(raws[0], raws[1], raws[2], raws[3]);
        assert(raws =~= seq![raws[0], raws[1], raws[2], raws[3]]);
    }
    out
}

/// Identity candidates of a Server, from its record and cached status.
pub fn server_identity_candidates(server: &Server, status: Option<&CachedServerStatus>) -> (r: Vec<
    String,
>)
    ensures
        views(r@) == collect_candidates(
            server_raws(
                *server,
                match status {
                    Some(s) => Some(*s),
                    None => None,
                },
            ),
        ),
{
    let ghost st = match status {
        Some(s) => Some(*s),
        None => None,
    };
    let ghost raws = server_raws(*server, st);
    let mut out: Vec<String> = Vec::new();
    assert(views(out@) =~= Seq::<Seq<char>>::empty());
    push_unique_candidate(&mut out, Some(server.name.as_str()));
    push_unique_candidate(&mut out, Some(server.config.address.as_str()));
    if server.config.external_address.as_str().unicode_len() > 0 {
        push_unique_candidate(&mut out, Some(server.config.external_address.as_str()));
    }
    assert(views(out@) == collect_candidates(seq![raws[0], raws[1], raws[2]])) by {
        lemma_collect_three(raws[0], raws[1], raws[2]);
    }
    match status {
        Some(status) => {
            match &status.system_info {
                Some(info) => match &info.host_name {
                    Some(host_name) => {
                        push_unique_candidate(&mut out, Some(host_name.as_str()));
                    },
                    None => {},
                },
                None => {},
            }
            proof {
                lemma_collect_four(raws[0], raws[1], raws[2], raws[3]);
            }
            match &status.periphery_info {
                Some(info) => match &info.public_ip {
                    Some(ip) => {
                        push_unique_candidate(&mut out, Some(ip.as_str()));
                    },
                    None => {},
                },
                None => {},
            }
        },
        None => {
            proof {
                lemma_collect_four(raws[0], raws[1], raws[2], raws[3]);
            }
        },
    }
    proof {
        lemma_collect_five(raws[0], raws[1], raws[2], raws[3], raws[4]);
        assert(raws =~= seq![raws[0], raws[1], raws[2], raws[3], raws[4]]);
    }
    out
}

/// First Server whose identity candidates match any node candidate.
pub fn match_server_to_node_identities(
    servers: &[(Server, Vec<String>)],
    node_candidates: &[String],
) -> (r: Option<Server>)
    ensures
        match r {
            Some(s) => exists|k: int|
                0 <= k < servers@.len() && #[trigger] entry_matches(
                    servers@[k],
                    views(node_candidates@),
                ) && (forall|m: int|
                    0 <= m < k ==> !entry_matches(
                        #[trigger] servers@[m],
                        views(node_candidates@),
                    )) && s == servers@[k].0,
            None => forall|k: int|
                0 <= k < servers@.len() ==> !entry_matches(
                    #[trigger] servers@[k],
                    views(node_candidates@),
                ),
        },
{
    let ghost nodes = views(node_candidates@);
    let mut k: usize = 0;
    while k < servers.len()
        invariant
            k <= servers@.len(),
            nodes == views(node_candidates@),
            forall|m: int| 0 <= m < k ==> !entry_matches(#[trigger] servers@[m], nodes),
        decreases servers@.len() - k,
    {
        let server_cands = &servers[k].1;
        let ghost sc = views(server_cands@);
        let mut i: usize = 0;
        while i < server_cands.len()
            invariant
                k < servers@.len(),
                server_cands == servers@[k as int].1,
                forall|m: int| 0 <= m < k ==> !entry_matches(#[trigger] servers@[m], nodes),
                i <= server_cands@.len(),
                sc == views(server_cands@),
                nodes == views(node_candidates@),
                forall|a: int, b: int|
                    0 <= a < i && 0 <= b < nodes.len() ==> !#[trigger] same_identity(
                        sc[a],
                        #[trigger] nodes[b],
                    ),
            decreases server_cands@.len() - i,
        {
            let mut j: usize = 0;
            while j < node_candidates.len()
                invariant
                    k < servers@.len(),
                    server_cands == servers@[k as int].1,
                    forall|m: int| 0 <= m < k ==> !entry_matches(#[trigger] servers@[m], nodes),
                    i < server_cands@.len(),
                    j <= node_candidates@.len(),
                    sc == views(server_cands@),
                    nodes == views(node_candidates@),
                    forall|b: int| 0 <= b < j ==> !#[trigger] same_identity(sc[i as int], nodes[b]),
                decreases node_candidates@.len() - j,
            {
                if identities_match(server_cands[i].as_str(), node_candidates[j].as_str()) {
                    assert(same_identity(sc[i as int], nodes[j as int]));
                    assert(entry_matches(servers@[k as int], nodes));
                    let found = servers[k].0.clone();
                    assert(found == servers@[k as int].0);
                    return Some(found);
                }
                j = j + 1;
            }
            i = i + 1;
        }
        assert(!entry_matches(servers@[k as int], nodes));
        k = k + 1;
    }
    None
}

/// The refusal for a node that no Server matches; it lists the node's candidates.
pub fn no_server_match_error(node_candidates: &[String]) -> (r: TerminalError)
    ensures
        match r {
            TerminalError::NoServerMatch { candidates } => candidates@ == node_candidates@,
            _ => false,
        },
{
    let mut candidates: Vec<String> = Vec::new();
    let mut i: usize = 0;
    while i < node_candidates.len()
        invariant
            i <= node_candidates@.len(),
            candidates@ == node_candidates@.take(i as int),
        decreases node_candidates@.len() - i,
    {
        candidates.push(node_candidates[i].clone());
        assert(node_candidates@.take(i + 1) =~= node_candidates@.take(i as int).push(
            node_candidates@[i as int],
        ));
        i = i + 1;
    }
    assert(node_candidates@.take(node_candidates@.len() as int) =~= node_candidates@);
    TerminalError::NoServerMatch { candidates }
}

/// The node's candidates, or the refusal for a node with none.
pub fn require_node_candidates(node_id: &str, candidates: Vec<String>) -> (r: Result<
    Vec<String>,
    TerminalError,
>)
    ensures
        candidates@.len() > 0 ==> r == Ok::<Vec<String>, TerminalError>(candidates),
        candidates@.len() == 0 ==> match r {
            Err(TerminalError::NodeWithoutCandidates { node_id: n }) => n@ == node_id@,
            _ => false,
        },
{
    if candidates.len() == 0 {
        return Err(TerminalError::NodeWithoutCandidates { node_id: node_id.to_owned() });
    }
    Ok(candidates)
}

} // verus!
