//! Terminal listing: filtering by search terms, ordering by the chosen key
//! (name as the tie-break) and paging.
use vstd::prelude::*;
use vstd::string::*;
use crate::entities::{Terminal, TerminalSortBy, TerminalTarget};
use crate::order::{
    atom_order, compare_text, int_order, key_order, lemma_key_order,
    opt_text_order, SortAtom,
};
use crate::text::{has_substring, opt_str_view, opt_view};

verus! {

/// The ordering key of a stored size held as the bits of an `f64`: the
/// bits as `i64`, with all but the sign bit flipped on negatives. Ordering
/// these keys orders the floats by IEEE 754 `totalOrder`.
pub open spec fn size_key(bits: u64) -> i64 {
    let x = bits as i64;
    x ^ ((((x >> 63u64) as u64) >> 1u64) as i64)
}

/// The sort key of a target, in the order of its variants (Server,
/// Container, Stack, Deployment, SwarmTask) and then of its fields.
pub open spec fn target_key(t: TerminalTarget) -> Seq<SortAtom> {
    match t {
        TerminalTarget::Server { server } => seq![
            SortAtom::Number(0),
            SortAtom::Text(opt_view(server)),
            SortAtom::Text(None),
            SortAtom::Text(None),
        ],
        TerminalTarget::Container { server, container } => seq![
            SortAtom::Number(1),
            SortAtom::Text(Some(server@)),
            SortAtom::Text(Some(container@)),
            SortAtom::Text(None),
        ],
        TerminalTarget::Stack { stack, service, task } => seq![
            SortAtom::Number(2),
            SortAtom::Text(Some(stack@)),
            SortAtom::Text(opt_view(service)),
            SortAtom::Text(opt_view(task)),
        ],
        TerminalTarget::Deployment { deployment } => seq![
            SortAtom::Number(3),
            SortAtom::Text(Some(deployment@)),
            SortAtom::Text(None),
            SortAtom::Text(None),
        ],
        TerminalTarget::SwarmTask { swarm, task } => seq![
            SortAtom::Number(4),
            SortAtom::Text(Some(swarm@)),
            SortAtom::Text(Some(task@)),
            SortAtom::Text(None),
        ],
    }
}

/// The sort key of a terminal: the chosen field, then the name.
pub open spec fn sort_key(t: Terminal, by: TerminalSortBy) -> Seq<SortAtom> {
    let name = SortAtom::Text(Some(t.name@));
    match by {
        TerminalSortBy::Name => seq![name],
        TerminalSortBy::Target => target_key(t.target) + seq![name],
        TerminalSortBy::Command => seq![SortAtom::Text(Some(t.command@)), name],
        TerminalSortBy::Size => seq![SortAtom::Number(size_key(t.stored_size_kb_bits) as int), name],
        TerminalSortBy::Created => seq![SortAtom::Number(t.created_at as int), name],
    }
}

/// Three-way comparison of items `i` and `j` in the chosen direction.
pub open spec fn direction(
    items: Seq<Terminal>,
    by: TerminalSortBy,
    desc: bool,
    i: int,
    j: int,
) -> int {
    if desc {
        key_order(sort_key(items[j], by), sort_key(items[i], by))
    } else {
        key_order(sort_key(items[i], by), sort_key(items[j], by))
    }
}

/// Item `i` comes before item `j`: it is smaller in the chosen direction,
/// or ties with it and stood before it.
pub open spec fn precedes(items: Seq<Terminal>, by: TerminalSortBy, desc: bool, i: int, j: int) -> bool {
    let d = direction(items, by, desc, i, j);
    d == -1 || (d == 0 && i < j)
}

/// `order` lists every position of `items` once, each before those it precedes.
pub open spec fn is_arrangement(
    items: Seq<Terminal>,
    by: TerminalSortBy,
    desc: bool,
    order: Seq<usize>,
) -> bool {
    &&& order.len() == items.len()
    &&& items.len() <= usize::MAX
    &&& forall|a: int| 0 <= a < order.len() ==> #[trigger] order[a] < items.len()
    &&& forall|v: usize| v < items.len() ==> #[trigger] order.contains(v)
    &&& forall|a: int, b: int|
        0 <= a < b < order.len() ==> precedes(
            items,
            by,
            desc,
            #[trigger] order[a] as int,
            #[trigger] order[b] as int,
        )
}

/// The items in the given order.
pub open spec fn arranged(items: Seq<Terminal>, order: Seq<usize>) -> Seq<Terminal> {
    order.map_values(|i: usize| items[i as int])
}

/// `items` sorted stably: by the key in the chosen direction, ties in
/// the order they came in.
pub open spec fn sorted_by(items: Seq<Terminal>, by: TerminalSortBy, desc: bool, r: Seq<Terminal>) -> bool {
    exists|order: Seq<usize>| is_arrangement(items, by, desc, order) && r == arranged(items, order)
}

/// The name of the terminal holds every term, both lower-cased.
pub open spec fn name_has_terms(t: Terminal, terms: Seq<Seq<char>>) -> bool {
    forall|k: int|
        0 <= k < terms.len() ==> has_substring(lowercase(t.name@), lowercase(#[trigger] terms[k]))
}

/// The terminals whose names hold every term.
pub open spec fn filter_by_terms(items: Seq<Terminal>, terms: Seq<Seq<char>>) -> Seq<Terminal> {
    items.filter(|t: Terminal| name_has_terms(t, terms))
}

/// The first position shown: `limit * page`, saturating, as `usize`.
pub open spec fn page_skip(limit: u64, page: u64) -> int {
    let product = limit * page;
    (if product > u64::MAX {
        u64::MAX
    } else {
        product as u64
    }) as usize as int
}

/// How many are shown: `limit`, or all when it is 0.
pub open spec fn page_take(limit: u64) -> int {
    if limit == 0 {
        usize::MAX as int
    } else {
        limit as usize as int
    }
}

/// The items from `skip` on, at most `take` of them.
pub open spec fn paged<T>(s: Seq<T>, skip: int, take: int) -> Seq<T> {
    let start = if skip < s.len() {
        skip
    } else {
        s.len() as int
    };
    let end = if take < s.len() - start {
        start + take
    } else {
        s.len() as int
    };
    s.subrange(start, end)
}

/// Lower-case form of a string by the Unicode `Lowercase` mapping, as
/// `str::to_lowercase` computes it.
pub uninterp spec fn lowercase(s: Seq<char>) -> Seq<char>;

/// `str::to_lowercase`. Claims only that the result is `lowercase` of the
/// input: the mapping depends on nothing else (no locale).
#[verifier::external_body]
fn to_lowercase(s: &str) -> (r: String)
    ensures
        r@ == lowercase(s@),
{
    s.to_lowercase()
}

/// `str::contains` for a string needle.
pub fn contains_text(hay: &str, needle: &str) -> (r: bool)
    ensures
        r == has_substring(hay@, needle@),
{
    let n = hay.unicode_len();
    let m = needle.unicode_len();
    if m > n {
        return false;
    }
    let mut i: usize = 0;
    while i <= n - m
        invariant
            n == hay@.len(),
            m == needle@.len(),
            m <= n,
            i <= n - m + 1,
            forall|p: int| 0 <= p < i ==> #[trigger] hay@.subrange(p, p + m) != needle@,
        decreases n - m + 1 - i,
    {
        let mut j: usize = 0;
        while j < m && hay.get_char(i + j) == needle.get_char(j)
            invariant
                n == hay@.len(),
                m == needle@.len(),
                i + m <= n,
                j <= m,
                forall|q: int| 0 <= q < j ==> hay@[i + q] == needle@[q],
            decreases m - j,
        {
            j = j + 1;
        }
        if j == m {
            assert(hay@.subrange(i as int, i + m) =~= needle@);
            return true;
        }
        assert(hay@.subrange(i as int, i + m)[j as int] != needle@[j as int]);
        i = i + 1;
    }
    proof {
        assert forall|p: int| 0 <= p <= hay@.len() - needle@.len() implies #[trigger] hay@.subrange(
            p,
            p + needle@.len(),
        ) != needle@ by {}
    }
    false
}

/// Whether the terminal's name holds every one of the lower-cased terms.
fn name_holds_terms(t: &Terminal, lowered: &Vec<String>, ghost_terms: Ghost<Seq<Seq<char>>>) -> (r:
    bool)
    requires
        lowered@.len() == ghost_terms@.len(),
        forall|k: int| 0 <= k < lowered@.len() ==> (#[trigger] lowered@[k])@ == lowercase(ghost_terms@[k]),
    ensures
        r == name_has_terms(*t, ghost_terms@),
{
    let name = to_lowercase(t.name.as_str());
    let mut k: usize = 0;
    while k < lowered.len()
        invariant
            k <= lowered@.len(),
            lowered@.len() == ghost_terms@.len(),
            forall|q: int| 0 <= q < lowered@.len() ==> (#[trigger] lowered@[q])@ == lowercase(ghost_terms@[q]),
            name@ == lowercase(t.name@),
            forall|q: int| 0 <= q < k ==> has_substring(lowercase(t.name@), lowercase(#[trigger] ghost_terms@[q])),
        decreases lowered@.len() - k,
    {
        if !contains_text(name.as_str(), lowered[k].as_str()) {
            return false;
        }
        k = k + 1;
    }
    true
}

/// The terminals whose lower-cased names hold every lower-cased term, in
/// their order; all of them when there are no terms.
pub fn filter_terminals_by_terms(terminals: Vec<Terminal>, terms: &[String]) -> (r: Vec<Terminal>)
    ensures
        r@ == filter_by_terms(terminals@, terms@.map_values(|s: String| s@)),
{
    let ghost tv = terms@.map_values(|s: String| s@);
    let mut lowered: Vec<String> = Vec::new();
    let mut k: usize = 0;
    while k < terms.len()
        invariant
            k <= terms@.len(),
            tv == terms@.map_values(|s: String| s@),
            lowered@.len() == k,
            forall|q: int| 0 <= q < k ==> (#[trigger] lowered@[q])@ == lowercase(tv[q]),
        decreases terms@.len() - k,
    {
        lowered.push(to_lowercase(terms[k].as_str()));
        k = k + 1;
    }
    let ghost pred = |t: Terminal| name_has_terms(t, tv);
    let ghost all = terminals@;
    let mut out: Vec<Terminal> = Vec::new();
    let n = terminals.len();
    let mut i: usize = 0;
    while i < n
        invariant
            n == all.len(),
            all == terminals@,
            i <= n,
            lowered@.len() == tv.len(),
            forall|q: int| 0 <= q < lowered@.len() ==> (#[trigger] lowered@[q])@ == lowercase(tv[q]),
            out@ == all.take(i as int).filter(pred),
            pred == (|t: Terminal| name_has_terms(t, tv)),
        decreases n - i,
    {
        let keep = name_holds_terms(&terminals[i], &lowered, Ghost(tv));
        proof {
            reveal_with_fuel(Seq::<_>::filter, 1);
            assert(all.take(i + 1).drop_last() =~= all.take(i as int));
            assert(all.take(i + 1).last() == all[i as int]);
        }
        if keep {
            out.push(terminals[i].clone());
        }
        i = i + 1;
    }
    assert(all.take(n as int) =~= all);
    out
}

/// `x` unless it is 0, then `y`: the order of a pair by its first then
/// its second component.
pub open spec fn then_order(x: int, y: int) -> int {
    if x != 0 {
        x
    } else {
        y
    }
}

proof fn lemma_key_cons(x: SortAtom, a: Seq<SortAtom>, y: SortAtom, b: Seq<SortAtom>)
    ensures
        key_order(seq![x] + a, seq![y] + b) == then_order(atom_order(x, y), key_order(a, b)),
{
    let s = seq![x] + a;
    let t = seq![y] + b;
    assert(s[0] == x);
    assert(t[0] == y);
    assert(s.drop_first() =~= a);
    assert(t.drop_first() =~= b);
}

proof fn lemma_key_append(a1: Seq<SortAtom>, b1: Seq<SortAtom>, a2: Seq<SortAtom>, b2: Seq<SortAtom>)
    requires
        a1.len() == b1.len(),
    ensures
        key_order(a1 + a2, b1 + b2) == then_order(key_order(a1, b1), key_order(a2, b2)),
    decreases a1.len(),
{
    if a1.len() == 0 {
        assert(a1 + a2 =~= a2);
        assert(b1 + b2 =~= b2);
    } else {
        lemma_key_append(a1.drop_first(), b1.drop_first(), a2, b2);
        assert(a1 =~= seq![a1[0]] + a1.drop_first());
        assert(b1 =~= seq![b1[0]] + b1.drop_first());
        assert(a1 + a2 =~= seq![a1[0]] + (a1.drop_first() + a2));
        assert(b1 + b2 =~= seq![b1[0]] + (b1.drop_first() + b2));
        lemma_key_cons(a1[0], a1.drop_first() + a2, b1[0], b1.drop_first() + b2);
        lemma_key_cons(a1[0], a1.drop_first(), b1[0], b1.drop_first());
    }
}

proof fn lemma_key_one(x: SortAtom, y: SortAtom)
    ensures
        key_order(seq![x], seq![y]) == atom_order(x, y),
{
    lemma_key_cons(x, Seq::empty(), y, Seq::empty());
    assert(seq![x] + Seq::<SortAtom>::empty() =~= seq![x]);
    assert(seq![y] + Seq::<SortAtom>::empty() =~= seq![y]);
}

proof fn lemma_key_two(x1: SortAtom, x2: SortAtom, y1: SortAtom, y2: SortAtom)
    ensures
        key_order(seq![x1, x2], seq![y1, y2]) == then_order(atom_order(x1, y1), atom_order(x2, y2)),
{
    lemma_key_one(x2, y2);
    lemma_key_cons(x1, seq![x2], y1, seq![y2]);
    assert(seq![x1] + seq![x2] =~= seq![x1, x2]);
    assert(seq![y1] + seq![y2] =~= seq![y1, y2]);
}

proof fn lemma_key_four(
    x1: SortAtom,
    x2: SortAtom,
    x3: SortAtom,
    x4: SortAtom,
    y1: SortAtom,
    y2: SortAtom,
    y3: SortAtom,
    y4: SortAtom,
)
    ensures
        key_order(seq![x1, x2, x3, x4], seq![y1, y2, y3, y4]) == then_order(
            atom_order(x1, y1),
            then_order(atom_order(x2, y2), then_order(atom_order(x3, y3), atom_order(x4, y4))),
        ),
{
    lemma_key_two(x3, x4, y3, y4);
    lemma_key_cons(x2, seq![x3, x4], y2, seq![y3, y4]);
    assert(seq![x2] + seq![x3, x4] =~= seq![x2, x3, x4]);
    assert(seq![y2] + seq![y3, y4] =~= seq![y2, y3, y4]);
    lemma_key_cons(x1, seq![x2, x3, x4], y1, seq![y2, y3, y4]);
    assert(seq![x1] + seq![x2, x3, x4] =~= seq![x1, x2, x3, x4]);
    assert(seq![y1] + seq![y2, y3, y4] =~= seq![y1, y2, y3, y4]);
}

/// Three-way comparison of integers, computed.
fn compare_i64(a: i64, b: i64) -> (r: i8)
    ensures
        r as int == int_order(a as int, b as int),
{
    if a < b {
        -1
    } else if a > b {
        1
    } else {
        0
    }
}

/// `opt_text_order`, computed.
fn compare_opt_text(a: Option<&str>, b: Option<&str>) -> (r: i8)
    ensures
        r as int == opt_text_order(opt_str_view(a), opt_str_view(b)),
{
    match (a, b) {
        (None, None) => 0,
        (None, Some(_)) => -1,
        (Some(_), None) => 1,
        (Some(x), Some(y)) => compare_text(x, y),
    }
}

/// The variant rank and the three text fields of a target's sort key.
fn target_parts(t: &TerminalTarget) -> (r: (u8, Option<&str>, Option<&str>, Option<&str>))
    ensures
        target_key(*t) == seq![
            SortAtom::Number(r.0 as int),
            SortAtom::Text(opt_str_view(r.1)),
            SortAtom::Text(opt_str_view(r.2)),
            SortAtom::Text(opt_str_view(r.3)),
        ],
{
    match t {
        TerminalTarget::Server { server } => {
            let s: Option<&str> = match server {
                Some(x) => Some(x.as_str()),
                None => None,
            };
            (0, s, None, None)
        },
        TerminalTarget::Container { server, container } => (
            1,
            Some(server.as_str()),
            Some(container.as_str()),
            None,
        ),
        TerminalTarget::Stack { stack, service, task } => {
            let sv: Option<&str> = match service {
                Some(x) => Some(x.as_str()),
                None => None,
            };
            let tk: Option<&str> = match task {
                Some(x) => Some(x.as_str()),
                None => None,
            };
            (2, Some(stack.as_str()), sv, tk)
        },
        TerminalTarget::Deployment { deployment } => (3, Some(deployment.as_str()), None, None),
        TerminalTarget::SwarmTask { swarm, task } => (
            4,
            Some(swarm.as_str()),
            Some(task.as_str()),
            None,
        ),
    }
}

/// Three-way comparison of targets, as their derived `Ord` orders them.
pub fn compare_targets(a: &TerminalTarget, b: &TerminalTarget) -> (r: i8)
    ensures
        r as int == key_order(target_key(*a), target_key(*b)),
{
    let pa = target_parts(a);
    let pb = target_parts(b);
    proof {
        lemma_key_four(
            SortAtom::Number(pa.0 as int),
            SortAtom::Text(opt_str_view(pa.1)),
            SortAtom::Text(opt_str_view(pa.2)),
            SortAtom::Text(opt_str_view(pa.3)),
            SortAtom::Number(pb.0 as int),
            SortAtom::Text(opt_str_view(pb.1)),
            SortAtom::Text(opt_str_view(pb.2)),
            SortAtom::Text(opt_str_view(pb.3)),
        );
    }
    if pa.0 < pb.0 {
        return -1;
    }
    if pa.0 > pb.0 {
        return 1;
    }
    let c1 = compare_opt_text(pa.1, pb.1);
    if c1 != 0 {
        return c1;
    }
    let c2 = compare_opt_text(pa.2, pb.2);
    if c2 != 0 {
        return c2;
    }
    compare_opt_text(pa.3, pb.3)
}

/// Three-way comparison of terminals by their sort keys.
pub fn compare_terminals(a: &Terminal, b: &Terminal, by: TerminalSortBy) -> (r: i8)
    ensures
        r as int == key_order(sort_key(*a, by), sort_key(*b, by)),
{
    let names = compare_text(a.name.as_str(), b.name.as_str());
    let ghost na = SortAtom::Text(Some(a.name@));
    let ghost nb = SortAtom::Text(Some(b.name@));
    match by {
        TerminalSortBy::Name => {
            proof {
                lemma_key_one(na, nb);
            }
            names
        },
        TerminalSortBy::Target => {
            proof {
                lemma_key_append(target_key(a.target), target_key(b.target), seq![na], seq![nb]);
                lemma_key_one(na, nb);
            }
            let first = compare_targets(&a.target, &b.target);
            if first != 0 {
                first
            } else {
                names
            }
        },
        TerminalSortBy::Command => {
            proof {
                lemma_key_two(SortAtom::Text(Some(a.command@)), na, SortAtom::Text(Some(b.command@)), nb);
            }
            let first = compare_text(a.command.as_str(), b.command.as_str());
            if first != 0 {
                first
            } else {
                names
            }
        },
        TerminalSortBy::Size => {
            let ka = size_order_key(a.stored_size_kb_bits);
            let kb = size_order_key(b.stored_size_kb_bits);
            proof {
                lemma_key_two(SortAtom::Number(ka as int), na, SortAtom::Number(kb as int), nb);
            }
            let first = compare_i64(ka, kb);
            if first != 0 {
                first
            } else {
                names
            }
        },
        TerminalSortBy::Created => {
            proof {
                lemma_key_two(
                    SortAtom::Number(a.created_at as int),
                    na,
                    SortAtom::Number(b.created_at as int),
                    nb,
                );
            }
            let first = compare_i64(a.created_at, b.created_at);
            if first != 0 {
                first
            } else {
                names
            }
        },
    }
}

proof fn lemma_precedes(items: Seq<Terminal>, by: TerminalSortBy, desc: bool, i: int, j: int, k: int)
    requires
        0 <= i < items.len(),
        0 <= j < items.len(),
        0 <= k < items.len(),
    ensures
        !precedes(items, by, desc, i, i),
        i != j ==> (precedes(items, by, desc, i, j) || precedes(items, by, desc, j, i)),
        precedes(items, by, desc, i, j) ==> !precedes(items, by, desc, j, i),
        precedes(items, by, desc, i, j) && precedes(items, by, desc, j, k) ==> precedes(
            items,
            by,
            desc,
            i,
            k,
        ),
{
    let ki = sort_key(items[i], by);
    let kj = sort_key(items[j], by);
    let kk = sort_key(items[k], by);
    lemma_key_order(ki, kj, kk);
    lemma_key_order(kk, kj, ki);
    lemma_key_order(ki, kk, kj);
    lemma_key_order(kj, ki, kk);
    lemma_key_order(ki, ki, ki);
}

/// Three-way comparison of items `i` and `j` in the chosen direction, computed.
fn direction_of(items: &Vec<Terminal>, by: TerminalSortBy, desc: bool, i: usize, j: usize) -> (r: i8)
    requires
        i < items@.len(),
        j < items@.len(),
    ensures
        r as int == direction(items@, by, desc, i as int, j as int),
{
    if desc {
        compare_terminals(&items[j], &items[i], by)
    } else {
        compare_terminals(&items[i], &items[j], by)
    }
}

/// The positions of `items` in sorted order: by key in the chosen
/// direction, ties in the order they came in (insertion sort).
fn sorted_positions(items: &Vec<Terminal>, by: TerminalSortBy, desc: bool) -> (order: Vec<usize>)
    ensures
        is_arrangement(items@, by, desc, order@),
{
    let n = items.len();
    let mut order: Vec<usize> = Vec::new();
    let mut x: usize = 0;
    while x < n
        invariant
            n == items@.len(),
            x <= n,
            order@.len() == x,
            forall|a: int| 0 <= a < order@.len() ==> #[trigger] order@[a] < x,
            forall|v: usize| v < x ==> #[trigger] order@.contains(v),
            forall|a: int, b: int|
                0 <= a < b < order@.len() ==> precedes(
                    items@,
                    by,
                    desc,
                    #[trigger] order@[a] as int,
                    #[trigger] order@[b] as int,
                ),
        decreases n - x,
    {
        let mut p: usize = 0;
        while p < order.len() && !(direction_of(items, by, desc, x, order[p]) == -1)
            invariant
                n == items@.len(),
                x < n,
                p <= order@.len(),
                forall|a: int| 0 <= a < order@.len() ==> #[trigger] order@[a] < x,
                forall|a: int| 0 <= a < p ==> !precedes(items@, by, desc, x as int, #[trigger] order@[a] as int),
            decreases order@.len() - p,
        {
            assert(order@[p as int] < x);
            p = p + 1;
        }
        let ghost old_order = order@;
        proof {
            if p < old_order.len() {
                assert(precedes(items@, by, desc, x as int, old_order[p as int] as int));
            }
        }
        order.insert(p, x);
        proof {
            old_order.insert_ensures(p as int, x);
            assert forall|a: int| 0 <= a < order@.len() implies #[trigger] order@[a] < x + 1 by {
                if a < p {
                    assert(order@[a] == old_order[a]);
                } else if a > p {
                    assert(order@[a] == old_order[a - 1]);
                }
            }
            assert forall|v: usize| v < x + 1 implies #[trigger] order@.contains(v) by {
                if v == x {
                    assert(order@[p as int] == x);
                } else {
                    assert(old_order.contains(v));
                    let a = choose|a: int| 0 <= a < old_order.len() && old_order[a] == v;
                    if a < p {
                        assert(order@[a] == v);
                    } else {
                        assert(order@[a + 1] == v);
                    }
                }
            }
            assert forall|a: int, b: int| 0 <= a < b < order@.len() implies precedes(
                items@,
                by,
                desc,
                #[trigger] order@[a] as int,
                #[trigger] order@[b] as int,
            ) by {
                if b < p {
                    assert(order@[a] == old_order[a] && order@[b] == old_order[b]);
                } else if b == p {
                    assert(order@[a] == old_order[a]);
                    let oa = old_order[a] as int;
                    lemma_precedes(items@, by, desc, x as int, oa, oa);
                    assert(!precedes(items@, by, desc, x as int, oa));
                } else if a < p {
                    assert(order@[a] == old_order[a] && order@[b] == old_order[b - 1]);
                } else if a == p {
                    let ob = old_order[b - 1] as int;
                    let op = old_order[p as int] as int;
                    assert(order@[b] == old_order[b - 1]);
                    if b - 1 > p {
                        assert(precedes(items@, by, desc, op, ob));
                    }
                    lemma_precedes(items@, by, desc, x as int, op, ob);
                } else {
                    assert(order@[a] == old_order[a - 1] && order@[b] == old_order[b - 1]);
                }
            }
        }
        x = x + 1;
    }
    order
}

/// The terminals sorted stably by the chosen key: ascending, or descending
/// when `desc`; terminals that tie keep their order.
pub fn sort_terminals(terminals: Vec<Terminal>, by: TerminalSortBy, desc: bool) -> (r: Vec<Terminal>)
    ensures
        sorted_by(terminals@, by, desc, r@),
{
    let order = sorted_positions(&terminals, by, desc);
    let mut out: Vec<Terminal> = Vec::new();
    let mut i: usize = 0;
    while i < order.len()
        invariant
            i <= order@.len(),
            is_arrangement(terminals@, by, desc, order@),
            out@ == arranged(terminals@, order@.take(i as int)),
        decreases order@.len() - i,
    {
        let k = order[i];
        assert(k < terminals@.len());
        out.push(terminals[k].clone());
        assert(order@.take(i + 1) =~= order@.take(i as int).push(k));
        i = i + 1;
    }
    assert(order@.take(order@.len() as int) =~= order@);
    out
}

/// The page of terminals to show: skips `limit * page` (saturating) and
/// shows at most `limit`, or all when `limit` is 0.
pub fn page_terminals(terminals: Vec<Terminal>, limit: u64, page: u64) -> (r: Vec<Terminal>)
    ensures
        r@ == paged(terminals@, page_skip(limit, page), page_take(limit)),
{
    let product = match limit.checked_mul(page) {
        Some(v) => v,
        None => u64::MAX,
    };
    let skip = product as usize;
    let take = if limit == 0 {
        usize::MAX
    } else {
        limit as usize
    };
    let n = terminals.len();
    let start = if skip < n {
        skip
    } else {
        n
    };
    let end = if take < n - start {
        start + take
    } else {
        n
    };
    let mut out: Vec<Terminal> = Vec::new();
    let mut i: usize = start;
    while i < end
        invariant
            start <= i <= end,
            end <= n,
            n == terminals@.len(),
            out@ == terminals@.subrange(start as int, i as int),
        decreases end - i,
    {
        out.push(terminals[i].clone());
        assert(terminals@.subrange(start as int, i + 1) =~= terminals@.subrange(
            start as int,
            i as int,
        ).push(terminals@[i as int]));
        i = i + 1;
    }
    out
}

proof fn lemma_filter_all(items: Seq<Terminal>, p: spec_fn(Terminal) -> bool)
    requires
        forall|t: Terminal| #[trigger] p(t),
    ensures
        items.filter(p) == items,
    decreases items.len(),
{
    reveal_with_fuel(Seq::<_>::filter, 1);
    if items.len() > 0 {
        lemma_filter_all(items.drop_last(), p);
        assert(items.drop_last().push(items.last()) =~= items);
    }
}

/// What a terminal listing shows of the terminals gathered: those whose
/// names hold every search term (ignoring case), sorted stably by the
/// chosen key and direction, then the requested page.
pub fn select_terminals(
    terminals: Vec<Terminal>,
    terms: &[String],
    sort_by: TerminalSortBy,
    sort_desc: bool,
    limit: u64,
    page: u64,
) -> (r: Vec<Terminal>)
    ensures
        exists|sorted: Seq<Terminal>|
            sorted_by(
                filter_by_terms(terminals@, terms@.map_values(|s: String| s@)),
                sort_by,
                sort_desc,
                sorted,
            ) && r@ == paged(sorted, page_skip(limit, page), page_take(limit)),
{
    let ghost tv = terms@.map_values(|s: String| s@);
    let ghost all = terminals@;
    let filtered = if terms.len() > 0 {
        filter_terminals_by_terms(terminals, terms)
    } else {
        proof {
            lemma_filter_all(all, |t: Terminal| name_has_terms(t, tv));
        }
        terminals
    };
    let sorted = sort_terminals(filtered, sort_by, sort_desc);
    let ghost s = sorted@;
    let r = page_terminals(sorted, limit, page);
    assert(sorted_by(filter_by_terms(all, tv), sort_by, sort_desc, s));
    r
}

/// `size_key`, computed.
pub fn size_order_key(bits: u64) -> (r: i64)
    ensures
        r == size_key(bits),
{
    let x = bits as i64;
    x ^ ((((x >> 63u64) as u64) >> 1u64) as i64)
}

} // verus!
