//! Properties that hold across the operations of this crate.
use vstd::prelude::*;
use crate::entities::{
    CachedServerStatus, ContainerTerminalMode, Deployment, InitTerminal, Server, Stack, Swarm,
    SwarmNode, SwarmNodeListItem, SwarmTaskListItem, Terminal, TerminalSortBy, TerminalTarget,
};
use crate::error::{error_message, join, listed_candidates, TerminalError};
use crate::gather::{dedup_kept, duplicates, relabel, relabel_all, task_walk};
use crate::listing::{
    arranged, direction, filter_by_terms, is_arrangement, lowercase, name_has_terms, page_skip, page_take,
    paged, precedes, sort_key, sorted_by,
};
use crate::order::{key_order, lemma_key_order};
use crate::swarm_terminal::{
    candidate_of, collect_candidates, holds_ignoring_case, inspect_raws, list_item_raws, normalize,
    normalize_with, same_identity, server_raws, url_host, with_candidate,
};
use crate::task_resolution::{
    answers_left, placement_of, resolution_sound, resolves_to, Resolution, ResolutionAction,
    ResolutionEvent,
};
use crate::terminal::{container_terminal_name, server_terminal_name, TaskPlacement};
use crate::text::{
    first_where, lemma_first_where, ascii_fold, eq_ignore_case, has_substring, index_of, last_index_of, lemma_index_of_bounds,
    lemma_last_index_of_bounds, short_host, trim,
};

verus! {

/// No two items are equal ignoring ASCII case.
pub open spec fn distinct_ignoring_case(s: Seq<Seq<char>>) -> bool {
    forall|i: int, j: int|
        0 <= i < j < s.len() ==> !eq_ignore_case(#[trigger] s[i], #[trigger] s[j])
}

/// Every item is non-empty.
pub open spec fn all_non_empty(s: Seq<Seq<char>>) -> bool {
    forall|i: int| 0 <= i < s.len() ==> (#[trigger] s[i]).len() > 0
}

/// ASCII case-insensitive equality is an equivalence relation.
pub proof fn law_eq_ignore_case_is_equivalence(a: Seq<char>, b: Seq<char>, c: Seq<char>)
    ensures
        eq_ignore_case(a, a),
        eq_ignore_case(a, b) ==> eq_ignore_case(b, a),
        eq_ignore_case(a, b) && eq_ignore_case(b, c) ==> eq_ignore_case(a, c),
{
}

/// Identity matching goes either way: `a` matches `b` exactly when `b`
/// matches `a`.
pub proof fn law_identities_match_symmetric(a: Seq<char>, b: Seq<char>)
    ensures
        same_identity(a, b) == same_identity(b, a),
{
}

/// A non-blank identity matches itself, and a blank one matches nothing.
pub proof fn law_identities_match_reflexive_unless_blank(a: Seq<char>, b: Seq<char>)
    ensures
        trim(a).len() > 0 ==> same_identity(a, a),
        trim(a).len() == 0 ==> !same_identity(a, b) && !same_identity(b, a),
{
}

/// A host name matches its fully qualified form and the other way round:
/// the short name (before the first `.`) of one equal, ignoring case, to
/// the other is a match.
pub proof fn law_short_name_matches_fqdn(a: Seq<char>, b: Seq<char>)
    requires
        trim(a).len() > 0,
        trim(b).len() > 0,
        eq_ignore_case(short_host(trim(b)), trim(a)),
    ensures
        same_identity(a, b),
        same_identity(b, a),
{
}

/// A short name (before the first `.`) never equals, ignoring case, a
/// name that holds a `.`.
proof fn lemma_short_host_not_dotted(a: Seq<char>, b: Seq<char>)
    requires
        b.contains('.'),
    ensures
        !eq_ignore_case(short_host(a), b),
{
    lemma_index_of_bounds(a, '.');
    if eq_ignore_case(short_host(a), b) {
        let j = choose|j: int| 0 <= j < b.len() && b[j] == '.';
        let u = a[j] as u32;
        assert(ascii_fold(short_host(a)[j]) == ascii_fold(b[j]));
        if 65 <= u <= 90 {
            assert(((u + 32) as u32) == u + 32);
        }
        // `a[j]` folds to `.`, so it is `.`, which the short name cannot hold
        vstd::utf8::char_u32_cast(a[j], u);
        vstd::utf8::char_u32_cast('.', 46);
    }
}

/// Two dotted names (two IPv4 addresses, two fully qualified host names)
/// match only when they are equal ignoring ASCII case: sharing the part
/// before the first `.` is not enough.
pub proof fn law_dotted_names_match_only_whole(a: Seq<char>, b: Seq<char>)
    requires
        trim(a).contains('.'),
        trim(b).contains('.'),
    ensures
        same_identity(a, b) <==> eq_ignore_case(trim(a), trim(b)),
{
    lemma_short_host_not_dotted(trim(a), trim(b));
    lemma_short_host_not_dotted(trim(b), trim(a));
}

proof fn lemma_fold_keeps_class(c1: char, c2: char)
    requires
        ascii_fold(c1) == ascii_fold(c2),
    ensures
        crate::text::is_ws(c1) == crate::text::is_ws(c2),
        (c1 == '.') == (c2 == '.'),
{
    if ascii_fold(c1) == c1 as u32 && ascii_fold(c2) == c2 as u32 {
        assert(c1 as u32 == c2 as u32);
        assert(c1 == c2);
    }
}

proof fn lemma_trim_start_ignoring_case(s1: Seq<char>, s2: Seq<char>)
    requires
        eq_ignore_case(s1, s2),
    ensures
        eq_ignore_case(crate::text::trim_start(s1), crate::text::trim_start(s2)),
    decreases s1.len(),
{
    if s1.len() > 0 {
        lemma_fold_keeps_class(s1[0], s2[0]);
        if crate::text::is_ws(s1[0]) {
            assert forall|i: int| 0 <= i < s1.drop_first().len() implies #[trigger] ascii_fold(
                s1.drop_first()[i],
            ) == ascii_fold(s2.drop_first()[i]) by {
                assert(ascii_fold(s1[i + 1]) == ascii_fold(s2[i + 1]));
            }
            lemma_trim_start_ignoring_case(s1.drop_first(), s2.drop_first());
        }
    }
}

proof fn lemma_trim_end_ignoring_case(s1: Seq<char>, s2: Seq<char>)
    requires
        eq_ignore_case(s1, s2),
    ensures
        eq_ignore_case(crate::text::trim_end(s1), crate::text::trim_end(s2)),
    decreases s1.len(),
{
    if s1.len() > 0 {
        lemma_fold_keeps_class(s1.last(), s2.last());
        if crate::text::is_ws(s1.last()) {
            assert forall|i: int| 0 <= i < s1.drop_last().len() implies #[trigger] ascii_fold(
                s1.drop_last()[i],
            ) == ascii_fold(s2.drop_last()[i]) by {
                assert(ascii_fold(s1[i]) == ascii_fold(s2[i]));
            }
            lemma_trim_end_ignoring_case(s1.drop_last(), s2.drop_last());
        }
    }
}

proof fn lemma_short_host_ignoring_case(s1: Seq<char>, s2: Seq<char>)
    requires
        eq_ignore_case(s1, s2),
    ensures
        eq_ignore_case(short_host(s1), short_host(s2)),
{
    crate::text::lemma_index_of_bounds(s1, '.');
    crate::text::lemma_index_of_bounds(s2, '.');
    let k = crate::text::index_of(s1, '.');
    assert forall|j: int| 0 <= j < k implies s2[j] != '.' by {
        assert(ascii_fold(s1[j]) == ascii_fold(s2[j]));
        lemma_fold_keeps_class(s1[j], s2[j]);
    }
    if k < s1.len() {
        assert(ascii_fold(s1[k]) == ascii_fold(s2[k]));
        lemma_fold_keeps_class(s1[k], s2[k]);
    }
    crate::text::lemma_index_of(s2, '.', k);
    assert forall|i: int| 0 <= i < short_host(s1).len() implies #[trigger] ascii_fold(
        short_host(s1)[i],
    ) == ascii_fold(short_host(s2)[i]) by {
        assert(ascii_fold(s1[i]) == ascii_fold(s2[i]));
    }
}

/// Identity matching ignores ASCII case: an identity that differs from
/// another only in ASCII case matches the same identities.
pub proof fn law_identities_match_ignores_ascii_case(a1: Seq<char>, a2: Seq<char>, b: Seq<char>)
    requires
        eq_ignore_case(a1, a2),
    ensures
        same_identity(a1, b) == same_identity(a2, b),
        same_identity(b, a1) == same_identity(b, a2),
{
    lemma_trim_start_ignoring_case(a1, a2);
    lemma_trim_end_ignoring_case(crate::text::trim_start(a1), crate::text::trim_start(a2));
    let t1 = trim(a1);
    let t2 = trim(a2);
    let tb = trim(b);
    lemma_short_host_ignoring_case(t1, t2);
    law_eq_ignore_case_is_equivalence(t1, t2, tb);
    law_eq_ignore_case_is_equivalence(t2, t1, tb);
    law_eq_ignore_case_is_equivalence(short_host(t1), short_host(t2), tb);
    law_eq_ignore_case_is_equivalence(short_host(t2), short_host(t1), tb);
    law_eq_ignore_case_is_equivalence(short_host(tb), t1, t2);
    law_eq_ignore_case_is_equivalence(short_host(tb), t2, t1);
    law_eq_ignore_case_is_equivalence(short_host(t1), short_host(t2), short_host(tb));
    law_eq_ignore_case_is_equivalence(short_host(t2), short_host(t1), short_host(tb));
    law_identities_match_symmetric(a1, b);
    law_identities_match_symmetric(a2, b);
}

/// A raw host candidate has a normal form exactly when it is not blank, and
/// the normal form is never empty, whatever URL parsing finds in it.
pub proof fn law_normal_form_present_iff_not_blank(raw: Seq<char>, parsed: Option<Seq<char>>)
    ensures
        normalize_with(raw, parsed) is Some <==> trim(raw).len() > 0,
        normalize_with(raw, parsed) matches Some(n) ==> n.len() > 0,
        normalize(raw) is Some <==> trim(raw).len() > 0,
        normalize(raw) matches Some(n) ==> n.len() > 0,
{
    lemma_last_index_of_bounds(trim(raw), ':');
    lemma_index_of_bounds(trim(raw), ']');
}

/// A raw candidate with more than one `:` and no leading `[` (a raw IPv6
/// address) is kept whole, trimmed, when URL parsing finds no host in it:
/// it is never split as `host:port`.
pub proof fn law_raw_ipv6_kept_whole(raw: Seq<char>, parsed: Option<Seq<char>>)
    requires
        trim(raw).len() > 0,
        index_of(trim(raw), ':') < last_index_of(trim(raw), ':'),
        trim(raw)[0] != '[',
        parsed matches Some(p) ==> trim(p).len() == 0,
    ensures
        normalize_with(raw, parsed) == Some(trim(raw)),
{
    let t = trim(raw);
    lemma_last_index_of_bounds(t, ':');
    lemma_index_of_bounds(t, ':');
    let k = last_index_of(t, ':');
    let i = index_of(t, ':');
    assert(t.take(k)[i] == ':');
}

/// Offering a candidate keeps what the list held, in place; afterwards the
/// list holds the candidate's normal form (ignoring case); and a list
/// without duplicates (ignoring case) or empty items stays so.
pub proof fn law_offer_candidate(out: Seq<Seq<char>>, raw: Option<Seq<char>>)
    ensures
        with_candidate(out, raw).len() >= out.len(),
        with_candidate(out, raw).subrange(0, out.len() as int) == out,
        candidate_of(raw) matches Some(n) ==> holds_ignoring_case(with_candidate(out, raw), n),
        distinct_ignoring_case(out) ==> distinct_ignoring_case(with_candidate(out, raw)),
        all_non_empty(out) ==> all_non_empty(with_candidate(out, raw)),
{
    let r = with_candidate(out, raw);
    assert(r.subrange(0, out.len() as int) =~= out);
    match candidate_of(raw) {
        Some(n) => {
            law_normal_form_present_iff_not_blank(raw->0, crate::swarm_terminal::url_host(trim(raw->0)));
            if !holds_ignoring_case(out, n) {
                assert(r[out.len() as int] == n);
                assert(holds_ignoring_case(r, n));
                if distinct_ignoring_case(out) {
                    assert forall|i: int, j: int| 0 <= i < j < r.len() implies !eq_ignore_case(
                        #[trigger] r[i],
                        #[trigger] r[j],
                    ) by {
                        if j == out.len() {
                            assert(r[i] == out[i]);
                            if eq_ignore_case(r[i], r[j]) {
                                assert(eq_ignore_case(out[i], n));
                            }
                        } else {
                            assert(r[i] == out[i] && r[j] == out[j]);
                        }
                    }
                }
            }
        },
        None => {},
    }
}

/// Offering the same candidate twice is the same as offering it once.
pub proof fn law_offer_candidate_idempotent(out: Seq<Seq<char>>, raw: Option<Seq<char>>)
    ensures
        with_candidate(with_candidate(out, raw), raw) == with_candidate(out, raw),
{
    law_offer_candidate(out, raw);
    match candidate_of(raw) {
        Some(n) => {
            law_eq_ignore_case_is_equivalence(n, n, n);
        },
        None => {},
    }
}

/// The identity candidates gathered from any raw values hold no duplicates
/// (ignoring case) and no empty items.
pub proof fn law_candidates_distinct_and_non_empty(raws: Seq<Option<Seq<char>>>)
    ensures
        distinct_ignoring_case(collect_candidates(raws)),
        all_non_empty(collect_candidates(raws)),
    decreases raws.len(),
{
    if raws.len() > 0 {
        law_candidates_distinct_and_non_empty(raws.drop_last());
        law_offer_candidate(collect_candidates(raws.drop_last()), raws.last());
    }
}

proof fn lemma_join_holds_items(list: Seq<Seq<char>>, sep: Seq<char>, i: int)
    requires
        0 <= i < list.len(),
    ensures
        has_substring(join(list, sep), list[i]),
    decreases list.len(),
{
    let j = join(list, sep);
    if list.len() == 1 {
        assert(j == list[0]);
        assert(j.subrange(0, 0 + list[0].len() as int) =~= list[0]);
        assert(has_substring(j, list[i]));
    } else if i == list.len() - 1 {
        let p = join(list.drop_last(), sep) + sep;
        assert(j == join(list.drop_last(), sep) + sep + list.last());
        assert(j =~= p + list.last());
        let k = p.len() as int;
        assert(j.subrange(k, k + list[i].len()) =~= list[i]);
        assert(has_substring(j, list[i]));
    } else {
        assert(j == join(list.drop_last(), sep) + sep + list.last());
        lemma_join_holds_items(list.drop_last(), sep, i);
        let prefix = join(list.drop_last(), sep);
        let k = choose|k: int|
            0 <= k <= prefix.len() - list[i].len() && #[trigger] prefix.subrange(
                k,
                k + list[i].len(),
            ) == list.drop_last()[i];
        assert(j.subrange(k, k + list[i].len()) =~= prefix.subrange(k, k + list[i].len()));
        assert(list.drop_last()[i] == list[i]);
        assert(has_substring(j, list[i]));
    }
}

/// The refusal for a node that no Server matches names every one of the
/// node's identity candidates in its message.
pub proof fn law_no_match_message_lists_candidates(candidates: Vec<String>, i: int)
    requires
        0 <= i < candidates@.len(),
    ensures
        has_substring(
            error_message(TerminalError::NoServerMatch { candidates }),
            candidates@[i]@,
        ),
{
    let list = candidates@.map_values(|s: String| s@);
    assert(list[i] == candidates@[i]@);
    lemma_join_holds_items(list, ", "@, i);
    let listed = listed_candidates(list);
    let head = "No Komodo Server matches Swarm node identity candidates ["@;
    let msg = error_message(TerminalError::NoServerMatch { candidates });
    let k = choose|k: int|
        0 <= k <= listed.len() - list[i].len() && #[trigger] listed.subrange(
            k,
            k + list[i].len(),
        ) == list[i];
    assert(msg.subrange(head.len() + k, head.len() + k + list[i].len()) =~= listed.subrange(
        k,
        k + list[i].len(),
    ));
}

/// A sorted listing keeps every terminal, adds none, and comes out in
/// order: each terminal is at most the next in the chosen direction.
pub proof fn law_sorted_listing(
    items: Seq<Terminal>,
    by: TerminalSortBy,
    desc: bool,
    r: Seq<Terminal>,
)
    requires
        sorted_by(items, by, desc, r),
    ensures
        r.len() == items.len(),
        forall|i: int| 0 <= i < items.len() ==> r.contains(#[trigger] items[i]),
        forall|a: int| 0 <= a < r.len() ==> items.contains(#[trigger] r[a]),
        forall|a: int, b: int|
            0 <= a < b < r.len() ==> (if desc {
                key_order(sort_key(#[trigger] r[b], by), sort_key(#[trigger] r[a], by))
            } else {
                key_order(sort_key(r[a], by), sort_key(r[b], by))
            }) <= 0,
{
    let order = choose|order: Seq<usize>| is_arrangement(items, by, desc, order) && r == arranged(items, order);
    assert forall|i: int| 0 <= i < items.len() implies r.contains(#[trigger] items[i]) by {
        assert(order.contains(i as usize));
        let a = choose|a: int| 0 <= a < order.len() && order[a] == i as usize;
        assert(r[a] == items[i]);
    }
    assert forall|a: int| 0 <= a < r.len() implies items.contains(#[trigger] r[a]) by {
        assert(order[a] < items.len());
        assert(r[a] == items[order[a] as int]);
    }
    assert forall|a: int, b: int| 0 <= a < b < r.len() implies (if desc {
        key_order(sort_key(#[trigger] r[b], by), sort_key(#[trigger] r[a], by))
    } else {
        key_order(sort_key(r[a], by), sort_key(r[b], by))
    }) <= 0 by {
        assert(precedes(items, by, desc, order[a] as int, order[b] as int));
        assert(r[a] == items[order[a] as int]);
        assert(r[b] == items[order[b] as int]);
    }
}

/// Terminals that tie on the sort key keep the order they were gathered in.
pub proof fn law_sort_is_stable(
    items: Seq<Terminal>,
    by: TerminalSortBy,
    desc: bool,
    r: Seq<Terminal>,
    i: int,
    j: int,
)
    requires
        sorted_by(items, by, desc, r),
        0 <= i < j < items.len(),
        sort_key(items[i], by) == sort_key(items[j], by),
    ensures
        exists|a: int, b: int| 0 <= a < b < r.len() && r[a] == items[i] && r[b] == items[j],
{
    let order = choose|order: Seq<usize>| is_arrangement(items, by, desc, order) && r == arranged(items, order);
    assert(order.contains(i as usize));
    assert(order.contains(j as usize));
    let a = choose|a: int| 0 <= a < order.len() && order[a] == i as usize;
    let b = choose|b: int| 0 <= b < order.len() && order[b] == j as usize;
    lemma_key_order(sort_key(items[i], by), sort_key(items[j], by), sort_key(items[j], by));
    if b < a {
        assert(precedes(items, by, desc, order[b] as int, order[a] as int));
    }
    assert(a != b);
    assert(r[a] == items[i] && r[b] == items[j]);
}

/// A page never shows more than `limit` terminals (when `limit` is set),
/// and shows terminals of the sorted listing, in its order, from the first
/// position of the page on.
pub proof fn law_page_bounds<T>(s: Seq<T>, limit: u64, page: u64)
    ensures
        limit > 0 ==> paged(s, page_skip(limit, page), page_take(limit)).len() <= limit,
        paged(s, page_skip(limit, page), page_take(limit)).len() <= s.len(),
        page_skip(limit, page) < s.len() ==> forall|i: int|
            0 <= i < paged(s, page_skip(limit, page), page_take(limit)).len() ==> #[trigger] paged(
                s,
                page_skip(limit, page),
                page_take(limit),
            )[i] == s[page_skip(limit, page) + i],
{
}

/// Every terminal that a listing shows has a name that holds every term
/// (both lower-cased).
pub proof fn law_listing_matches_terms(
    items: Seq<Terminal>,
    terms: Seq<Seq<char>>,
    by: TerminalSortBy,
    desc: bool,
    sorted: Seq<Terminal>,
    limit: u64,
    page: u64,
)
    requires
        sorted_by(filter_by_terms(items, terms), by, desc, sorted),
    ensures
        forall|i: int|
            0 <= i < paged(sorted, page_skip(limit, page), page_take(limit)).len()
                ==> name_has_terms(
                #[trigger] paged(sorted, page_skip(limit, page), page_take(limit))[i],
                terms,
            ),
{
    let f = filter_by_terms(items, terms);
    let pred = |t: Terminal| name_has_terms(t, terms);
    law_sorted_listing(f, by, desc, sorted);
    let p = paged(sorted, page_skip(limit, page), page_take(limit));
    assert forall|i: int| 0 <= i < p.len() implies name_has_terms(#[trigger] p[i], terms) by {
        let start = if page_skip(limit, page) < sorted.len() {
            page_skip(limit, page)
        } else {
            sorted.len() as int
        };
        assert(p[i] == sorted[start + i]);
        assert(f.contains(sorted[start + i]));
        let k = choose|k: int| 0 <= k < f.len() && f[k] == sorted[start + i];
        items.lemma_filter_pred(pred, k);
    }
}

/// Without permission on the Server, none of its Server or Container
/// terminals are shown; every terminal shown carries a target name.
pub proof fn law_relabel_respects_permission(
    terminals: Seq<Terminal>,
    server_id: String,
    server_name: String,
    server_permission: bool,
    stacks: Seq<Stack>,
    deployments: Seq<Deployment>,
    swarms: Seq<Swarm>,
    use_names: bool,
)
    ensures
        forall|i: int|
            0 <= i < relabel_all(
                terminals,
                server_id,
                server_name,
                server_permission,
                stacks,
                deployments,
                swarms,
                use_names,
            ).len() ==> shown_properly(
                #[trigger] relabel_all(
                    terminals,
                    server_id,
                    server_name,
                    server_permission,
                    stacks,
                    deployments,
                    swarms,
                    use_names,
                )[i],
                server_permission,
            ),
    decreases terminals.len(),
{
    let f = |t: Terminal|
        relabel(
            t,
            server_id,
            server_name,
            server_permission,
            stacks,
            deployments,
            swarms,
            use_names,
        );
    if terminals.len() > 0 {
        law_relabel_respects_permission(
            terminals.drop_last(),
            server_id,
            server_name,
            server_permission,
            stacks,
            deployments,
            swarms,
            use_names,
        );
        let rest = relabel_all(
            terminals.drop_last(),
            server_id,
            server_name,
            server_permission,
            stacks,
            deployments,
            swarms,
            use_names,
        );
        let all = relabel_all(
            terminals,
            server_id,
            server_name,
            server_permission,
            stacks,
            deployments,
            swarms,
            use_names,
        );
        assert(rest == terminals.drop_last().filter_map(f));
        assert(all == terminals.filter_map(f));
        assert forall|i: int| 0 <= i < all.len() implies shown_properly(
            #[trigger] all[i],
            server_permission,
        ) by {
            match f(terminals.last()) {
                Some(x) => {
                    assert(all == rest + seq![x]);
                    if i < rest.len() {
                        assert(all[i] == rest[i]);
                    } else {
                        assert(all[i] == x);
                    }
                },
                None => {
                    assert(all == rest);
                },
            }
        }
    }
}

/// A shown terminal carries a target name, and a Server or Container
/// target only with permission on the Server.
pub open spec fn shown_properly(shown: Terminal, server_permission: bool) -> bool {
    &&& shown.target_name is Some
    &&& !server_permission ==> !(shown.target is Server) && !(shown.target is Container)
}

/// A deduplicated listing has no terminal right after a duplicate of it.
pub proof fn law_dedup_no_adjacent_duplicates(s: Seq<Terminal>)
    ensures
        forall|i: int|
            0 <= i < dedup_kept(s).len() - 1 ==> !duplicates(
                #[trigger] dedup_kept(s)[i + 1],
                dedup_kept(s)[i],
            ),
        dedup_kept(s).len() <= s.len(),
    decreases s.len(),
{
    if s.len() > 0 {
        law_dedup_no_adjacent_duplicates(s.drop_last());
        let d = dedup_kept(s.drop_last());
        let r = dedup_kept(s);
        assert forall|i: int| 0 <= i < r.len() - 1 implies !duplicates(
            #[trigger] r[i + 1],
            r[i],
        ) by {
            if r.len() == d.len() + 1 && i == d.len() - 1 {
                assert(r[i + 1] == s.last());
                assert(r[i] == d.last());
            } else {
                assert(r[i] == d[i] && r[i + 1] == d[i + 1]);
            }
        }
    }
}

/// Each answer moves a Swarm task resolution forward: it ends after at
/// most five answers.
pub proof fn law_resolution_advances(
    state: Resolution,
    event: ResolutionEvent,
    next: Resolution,
    action: ResolutionAction,
)
    requires
        resolves_to(state, event, next, action),
    ensures
        answers_left(next) < answers_left(state),
{
}

/// Once a task is placed, the resolution carries its placement unchanged,
/// and a connection goes to that task and container.
pub proof fn law_resolution_keeps_placement(
    state: Resolution,
    event: ResolutionEvent,
    next: Resolution,
    action: ResolutionAction,
    placement: TaskPlacement,
)
    requires
        resolves_to(state, event, next, action),
        placement_of(state) == Some(placement),
    ensures
        placement_of(next) is Some ==> placement_of(next) == Some(placement),
        match action {
            ResolutionAction::Connect { task_id, container, .. } => task_id == placement.task_id
                && container == placement.container,
            _ => true,
        },
{
}

/// A resolution that requires a running task only ever connects to a
/// non-empty container: every step keeps `resolution_sound`, which the
/// first state has.
pub proof fn law_running_task_connects_to_container(
    state: Resolution,
    event: ResolutionEvent,
    next: Resolution,
    action: ResolutionAction,
    require_running: bool,
)
    requires
        resolution_sound(state, require_running),
        resolves_to(state, event, next, action),
    ensures
        resolution_sound(Resolution::AwaitTask { require_running }, require_running),
        resolution_sound(next, require_running),
        match action {
            ResolutionAction::Connect { container, .. } => require_running ==> container@.len()
                > 0,
            _ => true,
        },
{
}

/// A Stack without known Swarm service ids asks no task of the Swarm: the
/// listing does not fan out over the whole Swarm.
pub proof fn law_no_service_ids_no_fan_out(tasks: Seq<SwarmTaskListItem>)
    ensures
        task_walk(tasks, Seq::empty()).1.len() == 0,
    decreases tasks.len(),
{
    if tasks.len() > 0 {
        law_no_service_ids_no_fan_out(tasks.drop_last());
    }
}

/// A Swarm Stack's terminals are asked of each node once: as many tasks are
/// taken as there are distinct nodes among them.
pub proof fn law_one_task_per_node(tasks: Seq<SwarmTaskListItem>, service_ids: Seq<Seq<char>>)
    ensures
        task_walk(tasks, service_ids).0.finite(),
        task_walk(tasks, service_ids).1.len() == task_walk(tasks, service_ids).0.len(),
    decreases tasks.len(),
{
    if tasks.len() > 0 {
        law_one_task_per_node(tasks.drop_last(), service_ids);
    }
}

/// `s` has a `.` at `k`, the first one.
pub open spec fn first_dot_at(s: Seq<char>, k: int) -> bool {
    &&& 0 <= k < s.len()
    &&& s[k] == '.'
    &&& forall|j: int| 0 <= j < k ==> s[j] != '.'
}

/// Two identities match only when both are non-blank and they are equal
/// ignoring ASCII case, or the part of one before its first `.` equals the
/// other ignoring case. So two identities without a `.` match only when
/// they are equal ignoring case: `worker-1` does not match `worker-10`.
pub proof fn law_identity_match_needs_name_or_short_name(a: Seq<char>, b: Seq<char>)
    requires
        same_identity(a, b),
    ensures
        trim(a).len() > 0,
        trim(b).len() > 0,
        eq_ignore_case(trim(a), trim(b)) || (exists|k: int|
            first_dot_at(trim(a), k) && eq_ignore_case(#[trigger] trim(a).take(k), trim(b)))
            || (exists|k: int|
            first_dot_at(trim(b), k) && eq_ignore_case(#[trigger] trim(b).take(k), trim(a))),
        !trim(a).contains('.') && !trim(b).contains('.') ==> eq_ignore_case(trim(a), trim(b)),
{
    let x = trim(a);
    let y = trim(b);
    lemma_index_of_bounds(x, '.');
    lemma_index_of_bounds(y, '.');
    assert(x.take(x.len() as int) =~= x);
    assert(y.take(y.len() as int) =~= y);
    let i = index_of(x, '.');
    let j = index_of(y, '.');
    if eq_ignore_case(short_host(x), y) && i < x.len() {
        assert(first_dot_at(x, i));
        assert(eq_ignore_case(x.take(i), y));
    }
    if eq_ignore_case(short_host(y), x) && j < y.len() {
        assert(first_dot_at(y, j));
        assert(eq_ignore_case(y.take(j), x));
    }
    if eq_ignore_case(short_host(y), x) && j == y.len() {
        assert forall|q: int| 0 <= q < x.len() implies #[trigger] ascii_fold(x[q]) == ascii_fold(
            y[q],
        ) by {
            assert(ascii_fold(short_host(y)[q]) == ascii_fold(x[q]));
        }
    }
}

/// A container terminal takes the name it is given, whatever the init
/// says; without one, the init command; without that, the init mode's
/// name; and without an init, the container's name.
pub proof fn law_container_terminal_name_priority(
    terminal: Option<Seq<char>>,
    container: Seq<char>,
    init: Option<InitTerminal>,
)
    ensures
        terminal matches Some(t) ==> container_terminal_name(terminal, container, init) == t,
        terminal is None && init is None ==> container_terminal_name(terminal, container, init)
            == container,
        terminal is None ==> (init matches Some(i) ==> (i.command matches Some(c)
            ==> container_terminal_name(terminal, container, init) == c@)),
        terminal is None ==> (init matches Some(i) ==> (i.command is None && i.mode != Some(
            ContainerTerminalMode::Attach,
        ) ==> container_terminal_name(terminal, container, init) == "exec"@)),
        terminal is None ==> (init matches Some(i) ==> (i.command is None && i.mode == Some(
            ContainerTerminalMode::Attach,
        ) ==> container_terminal_name(terminal, container, init) == "attach"@)),
{
}

/// A Server terminal takes the name it is given, whatever the init says;
/// without one, the init command; otherwise `term`.
pub proof fn law_server_terminal_name_priority(terminal: Option<Seq<char>>, init: Option<InitTerminal>)
    ensures
        terminal matches Some(t) ==> server_terminal_name(terminal, init) == t,
        terminal is None ==> (init matches Some(i) ==> (i.command matches Some(c)
            ==> server_terminal_name(terminal, init) == c@)),
        terminal is None ==> (init matches Some(i) ==> (i.command is None ==> server_terminal_name(
            terminal,
            init,
        ) == "term"@)),
        terminal is None && init is None ==> server_terminal_name(terminal, init) == "term"@,
{
}

/// Every raw value that has a normal form leaves it among the gathered
/// candidates (ignoring ASCII case).
pub proof fn lemma_collect_holds(raws: Seq<Option<Seq<char>>>, i: int, n: Seq<char>)
    requires
        0 <= i < raws.len(),
        candidate_of(raws[i]) == Some(n),
    ensures
        holds_ignoring_case(collect_candidates(raws), n),
    decreases raws.len(),
{
    let before = collect_candidates(raws.drop_last());
    law_offer_candidate(before, raws.last());
    if i < raws.len() - 1 {
        assert(raws.drop_last()[i] == raws[i]);
        lemma_collect_holds(raws.drop_last(), i, n);
        let q = choose|q: int| 0 <= q < before.len() && eq_ignore_case(#[trigger] before[q], n);
        let after = collect_candidates(raws);
        assert(after.subrange(0, before.len() as int)[q] == before[q]);
        assert(eq_ignore_case(after[q], n));
    }
}

/// The raw value at `k`, where present and not blank, has a normal form,
/// and the gathered candidates hold it.
proof fn lemma_gathered_at(raws: Seq<Option<Seq<char>>>, k: int)
    requires
        0 <= k < raws.len(),
    ensures
        raws[k] is Some && trim(raws[k]->0).len() > 0 ==> normalize(raws[k]->0) is Some
            && holds_ignoring_case(collect_candidates(raws), normalize(raws[k]->0)->0),
{
    if raws[k] is Some && trim(raws[k]->0).len() > 0 {
        let r = raws[k]->0;
        law_normal_form_present_iff_not_blank(r, url_host(trim(r)));
        lemma_collect_holds(raws, k, normalize(r)->0);
    }
}

/// The candidates gather the raw value's normal form, where it is present
/// and not blank.
pub open spec fn gathered(cands: Seq<Seq<char>>, raw: Option<String>) -> bool {
    match raw {
        Some(r) => trim(r@).len() > 0 ==> match normalize(r@) {
            Some(n) => holds_ignoring_case(cands, n),
            None => false,
        },
        None => true,
    }
}

/// The candidates of an inspected Swarm node hold (ignoring ASCII case) the
/// normal form of each of its present, non-blank identities: description
/// hostname, spec name, status address and manager-status address.
pub proof fn law_inspected_node_candidates(node: SwarmNode)
    ensures
        gathered(
            collect_candidates(inspect_raws(node)),
            match node.description {
                Some(d) => d.hostname,
                None => None,
            },
        ),
        gathered(
            collect_candidates(inspect_raws(node)),
            match node.node_spec {
                Some(s) => s.name,
                None => None,
            },
        ),
        gathered(
            collect_candidates(inspect_raws(node)),
            match node.status {
                Some(s) => s.addr,
                None => None,
            },
        ),
        gathered(
            collect_candidates(inspect_raws(node)),
            match node.manager_status {
                Some(s) => s.addr,
                None => None,
            },
        ),
{
    let raws = inspect_raws(node);
    lemma_gathered_at(raws, 0);
    lemma_gathered_at(raws, 1);
    lemma_gathered_at(raws, 2);
    lemma_gathered_at(raws, 3);
}

/// The candidates of a listed Swarm node hold (ignoring ASCII case) the
/// normal form of each of its present, non-blank identities: hostname,
/// name and manager address.
pub proof fn law_listed_node_candidates(node: SwarmNodeListItem)
    ensures
        gathered(collect_candidates(list_item_raws(node)), node.hostname),
        gathered(collect_candidates(list_item_raws(node)), node.name),
        gathered(collect_candidates(list_item_raws(node)), node.manager_addr),
{
    let raws = list_item_raws(node);
    lemma_gathered_at(raws, 0);
    lemma_gathered_at(raws, 1);
    lemma_gathered_at(raws, 2);
}

/// The candidates of a Server hold (ignoring ASCII case) the normal form of
/// its name, its address, its external address, and, from its status, its
/// system host name and public IP, each where present and not blank.
pub proof fn law_server_candidates(server: Server, status: Option<CachedServerStatus>)
    ensures
        gathered(collect_candidates(server_raws(server, status)), Some(server.name)),
        gathered(collect_candidates(server_raws(server, status)), Some(server.config.address)),
        gathered(
            collect_candidates(server_raws(server, status)),
            Some(server.config.external_address),
        ),
        gathered(
            collect_candidates(server_raws(server, status)),
            match status {
                Some(st) => match st.system_info {
                    Some(info) => info.host_name,
                    None => None,
                },
                None => None,
            },
        ),
        gathered(
            collect_candidates(server_raws(server, status)),
            match status {
                Some(st) => match st.periphery_info {
                    Some(info) => info.public_ip,
                    None => None,
                },
                None => None,
            },
        ),
{
    let raws = server_raws(server, status);
    lemma_gathered_at(raws, 0);
    lemma_gathered_at(raws, 1);
    lemma_gathered_at(raws, 2);
    lemma_gathered_at(raws, 3);
    lemma_gathered_at(raws, 4);
    if trim(server.config.external_address@).len() > 0 {
        assert(server.config.external_address@.len() > 0);
    }
}

proof fn lemma_filter_all<A>(s: Seq<A>, pred: spec_fn(A) -> bool)
    requires
        forall|i: int| 0 <= i < s.len() ==> pred(#[trigger] s[i]),
    ensures
        s.filter(pred) == s,
    decreases s.len(),
{
    reveal(Seq::filter);
    if s.len() > 0 {
        lemma_filter_all(s.drop_last(), pred);
        assert(s.drop_last().push(s.last()) =~= s);
    }
}

/// The term filter keeps exactly the terminals whose lower-cased name
/// contains every lower-cased term, in their order: each kept terminal
/// holds every term, each terminal that holds every term is kept, and with
/// no terms nothing is dropped.
pub proof fn law_term_filter_keeps_names_with_every_term(items: Seq<Terminal>, terms: Seq<Seq<char>>)
    ensures
        forall|i: int, k: int|
            0 <= i < filter_by_terms(items, terms).len() && 0 <= k < terms.len() ==> has_substring(
                lowercase(#[trigger] filter_by_terms(items, terms)[i].name@),
                lowercase(#[trigger] terms[k]),
            ),
        forall|i: int|
            0 <= i < items.len() && (forall|k: int|
                0 <= k < terms.len() ==> has_substring(
                    lowercase(items[i].name@),
                    lowercase(#[trigger] terms[k]),
                )) ==> filter_by_terms(items, terms).contains(#[trigger] items[i]),
        terms.len() == 0 ==> filter_by_terms(items, terms) == items,
{
    let pred = |t: Terminal| name_has_terms(t, terms);
    let f = filter_by_terms(items, terms);
    assert forall|i: int, k: int|
        0 <= i < f.len() && 0 <= k < terms.len() implies has_substring(
        lowercase(#[trigger] f[i].name@),
        lowercase(#[trigger] terms[k]),
    ) by {
        items.lemma_filter_pred(pred, i);
    }
    assert forall|i: int|
        0 <= i < items.len() && (forall|k: int|
            0 <= k < terms.len() ==> has_substring(
                lowercase(items[i].name@),
                lowercase(#[trigger] terms[k]),
            )) implies f.contains(#[trigger] items[i]) by {
        items.lemma_filter_contains(pred, i);
    }
    if terms.len() == 0 {
        lemma_filter_all(items, pred);
    }
}

/// `res` shows terminal `t` under `target`, named `target_name`, with its
/// other fields as they were.
pub open spec fn shown_as(res: Option<Terminal>, t: Terminal, target: TerminalTarget, target_name: String) -> bool {
    match res {
        Some(r) => {
            &&& r.target == target
            &&& r.target_name == Some(target_name)
            &&& r.name == t.name
            &&& r.command == t.command
            &&& r.stored_size_kb_bits == t.stored_size_kb_bits
            &&& r.created_at == t.created_at
        },
        None => false,
    }
}

/// The first resource with the id sits at `k`.
pub open spec fn first_with_id(ids: Seq<Seq<char>>, id: Seq<char>, k: int) -> bool {
    &&& 0 <= k < ids.len()
    &&& ids[k] == id
    &&& forall|j: int| 0 <= j < k ==> ids[j] != id
}

/// A relabeled terminal names its resource by the found resource's name
/// when `use_names`, by its id otherwise, and carries the resource's name as
/// its target name: the Server it was found on for Server and Container
/// terminals (shown only with permission on that Server), the first Stack,
/// Deployment or Swarm with the terminal's id otherwise (not shown when
/// there is none).
pub proof fn law_relabel_names_found_resource(
    t: Terminal,
    server_id: String,
    server_name: String,
    server_permission: bool,
    stacks: Seq<Stack>,
    deployments: Seq<Deployment>,
    swarms: Seq<Swarm>,
    use_names: bool,
)
    ensures
        ({
            let res = relabel(
                t,
                server_id,
                server_name,
                server_permission,
                stacks,
                deployments,
                swarms,
                use_names,
            );
            let server_label = if use_names {
                server_name
            } else {
                server_id
            };
            let stack_ids = stacks.map_values(|x: Stack| x.id@);
            let deployment_ids = deployments.map_values(|x: Deployment| x.id@);
            let swarm_ids = swarms.map_values(|x: Swarm| x.id@);
            match t.target {
                TerminalTarget::Server { .. } => if server_permission {
                    shown_as(res, t, TerminalTarget::Server { server: Some(server_label) }, server_name)
                } else {
                    res is None
                },
                TerminalTarget::Container { container, .. } => if server_permission {
                    shown_as(
                        res,
                        t,
                        TerminalTarget::Container { server: server_label, container },
                        server_name,
                    )
                } else {
                    res is None
                },
                TerminalTarget::Stack { stack, service, task } => {
                    &&& forall|k: int|
                        #![trigger first_with_id(stack_ids, stack@, k)]
                        first_with_id(stack_ids, stack@, k) ==> shown_as(
                            res,
                            t,
                            TerminalTarget::Stack {
                                stack: if use_names {
                                    stacks[k].name
                                } else {
                                    stacks[k].id
                                },
                                service,
                                task,
                            },
                            stacks[k].name,
                        )
                    &&& !stack_ids.contains(stack@) ==> res is None
                },
                TerminalTarget::Deployment { deployment } => {
                    &&& forall|k: int|
                        #![trigger first_with_id(deployment_ids, deployment@, k)]
                        first_with_id(deployment_ids, deployment@, k) ==> shown_as(
                            res,
                            t,
                            TerminalTarget::Deployment {
                                deployment: if use_names {
                                    deployments[k].name
                                } else {
                                    deployments[k].id
                                },
                            },
                            deployments[k].name,
                        )
                    &&& !deployment_ids.contains(deployment@) ==> res is None
                },
                TerminalTarget::SwarmTask { swarm, task } => {
                    &&& forall|k: int|
                        #![trigger first_with_id(swarm_ids, swarm@, k)]
                        first_with_id(swarm_ids, swarm@, k) ==> shown_as(
                            res,
                            t,
                            TerminalTarget::SwarmTask {
                                swarm: if use_names {
                                    swarms[k].name
                                } else {
                                    swarms[k].id
                                },
                                task,
                            },
                            swarms[k].name,
                        )
                    &&& !swarm_ids.contains(swarm@) ==> res is None
                },
            }
        }),
{
    match t.target {
        TerminalTarget::Stack { stack, .. } => {
            let p = |x: Stack| x.id@ == stack@;
            let ids = stacks.map_values(|x: Stack| x.id@);
            assert forall|k: int| #[trigger] first_with_id(ids, stack@, k) implies first_where(
                stacks,
                p,
            ) == k by {
                assert forall|j: int| 0 <= j < k implies !p(#[trigger] stacks[j]) by {
                    assert(ids[j] == stacks[j].id@);
                }
                assert(ids[k] == stacks[k].id@);
                lemma_first_where(stacks, p, k);
            }
            if !ids.contains(stack@) {
                assert forall|j: int| 0 <= j < stacks.len() implies !p(#[trigger] stacks[j]) by {
                    assert(ids[j] == stacks[j].id@);
                }
                lemma_first_where(stacks, p, stacks.len() as int);
            }
        },
        TerminalTarget::Deployment { deployment } => {
            let p = |x: Deployment| x.id@ == deployment@;
            let ids = deployments.map_values(|x: Deployment| x.id@);
            assert forall|k: int| #[trigger] first_with_id(ids, deployment@, k) implies first_where(
                deployments,
                p,
            ) == k by {
                assert forall|j: int| 0 <= j < k implies !p(#[trigger] deployments[j]) by {
                    assert(ids[j] == deployments[j].id@);
                }
                assert(ids[k] == deployments[k].id@);
                lemma_first_where(deployments, p, k);
            }
            if !ids.contains(deployment@) {
                assert forall|j: int| 0 <= j < deployments.len() implies !p(
                    #[trigger] deployments[j],
                ) by {
                    assert(ids[j] == deployments[j].id@);
                }
                lemma_first_where(deployments, p, deployments.len() as int);
            }
        },
        TerminalTarget::SwarmTask { swarm, .. } => {
            let p = |x: Swarm| x.id@ == swarm@;
            let ids = swarms.map_values(|x: Swarm| x.id@);
            assert forall|k: int| #[trigger] first_with_id(ids, swarm@, k) implies first_where(
                swarms,
                p,
            ) == k by {
                assert forall|j: int| 0 <= j < k implies !p(#[trigger] swarms[j]) by {
                    assert(ids[j] == swarms[j].id@);
                }
                assert(ids[k] == swarms[k].id@);
                lemma_first_where(swarms, p, k);
            }
            if !ids.contains(swarm@) {
                assert forall|j: int| 0 <= j < swarms.len() implies !p(#[trigger] swarms[j]) by {
                    assert(ids[j] == swarms[j].id@);
                }
                lemma_first_where(swarms, p, swarms.len() as int);
            }
        },
        _ => {},
    }
}

/// Every gathered candidate is the normal form of one of the raw values:
/// nothing is gathered that no identity gave.
pub proof fn law_candidates_come_from_raws(raws: Seq<Option<Seq<char>>>)
    ensures
        forall|j: int|
            0 <= j < collect_candidates(raws).len() ==> exists|i: int|
                0 <= i < raws.len() && #[trigger] candidate_of(raws[i]) == Some(
                    #[trigger] collect_candidates(raws)[j],
                ),
    decreases raws.len(),
{
    if raws.len() > 0 {
        let before = collect_candidates(raws.drop_last());
        let after = collect_candidates(raws);
        law_candidates_come_from_raws(raws.drop_last());
        law_offer_candidate(before, raws.last());
        assert forall|j: int| 0 <= j < after.len() implies exists|i: int|
            0 <= i < raws.len() && #[trigger] candidate_of(raws[i]) == Some(
                #[trigger] after[j],
            ) by {
            if j < before.len() {
                assert(after.subrange(0, before.len() as int)[j] == before[j]);
                let i = choose|i: int|
                    0 <= i < raws.drop_last().len() && #[trigger] candidate_of(raws.drop_last()[i])
                        == Some(before[j]);
                assert(raws.drop_last()[i] == raws[i]);
                assert(candidate_of(raws[i]) == Some(after[j]));
            } else {
                assert(candidate_of(raws[raws.len() - 1]) == Some(after[j]));
            }
        }
    }
}

} // verus!
