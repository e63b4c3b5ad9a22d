//! Orders used to sort terminal lists: three-way comparisons (`-1`, `0`,
//! `1`), their lexicographic extension to sequences, and the proofs that
//! each is a total order.
use vstd::prelude::*;
use vstd::string::*;

verus! {

/// Three-way comparison of integers.
pub open spec fn int_order(a: int, b: int) -> int {
    if a < b {
        -1
    } else if a > b {
        1
    } else {
        0
    }
}

/// `f` is a three-way comparison that is a total order in which only equal
/// values tie.
pub open spec fn is_total_order<A>(f: spec_fn(A, A) -> int) -> bool {
    &&& forall|a: A, b: A| #[trigger] f(a, b) == 0 <==> a == b
    &&& forall|a: A, b: A| #[trigger] f(a, b) == -f(b, a)
    &&& forall|a: A, b: A| -1 <= #[trigger] f(a, b) <= 1
    &&& forall|a: A, b: A, c: A| #[trigger] f(a, b) == -1 && #[trigger] f(b, c) == -1 ==> f(a, c) == -1
}

/// Lexicographic extension of `f` to sequences; a proper prefix comes first.
pub open spec fn lex_by<A>(a: Seq<A>, b: Seq<A>, f: spec_fn(A, A) -> int) -> int
    decreases a.len(),
{
    if a.len() == 0 {
        if b.len() == 0 {
            0
        } else {
            -1
        }
    } else if b.len() == 0 {
        1
    } else if f(a[0], b[0]) != 0 {
        f(a[0], b[0])
    } else {
        lex_by(a.drop_first(), b.drop_first(), f)
    }
}

/// Order of characters by code point.
pub open spec fn char_order() -> spec_fn(char, char) -> int {
    |x: char, y: char| int_order(x as int, y as int)
}

/// Lexicographic order of strings by code point. It is the order of
/// `str`'s `Ord`, which goes by UTF-8 bytes, since UTF-8 keeps the code
/// point order.
pub open spec fn lex_compare(a: Seq<char>, b: Seq<char>) -> int {
    lex_by(a, b, char_order())
}

/// Order of optional strings: `None` first, then by `lex_compare`.
pub open spec fn opt_text_order(a: Option<Seq<char>>, b: Option<Seq<char>>) -> int {
    match (a, b) {
        (None, None) => 0,
        (None, Some(_)) => -1,
        (Some(_), None) => 1,
        (Some(x), Some(y)) => lex_compare(x, y),
    }
}

/// One component of a sort key.
pub enum SortAtom {
    Number(int),
    Text(Option<Seq<char>>),
}

/// Order of sort key components: numbers by value, texts by
/// `opt_text_order`, numbers before texts.
pub open spec fn atom_order(x: SortAtom, y: SortAtom) -> int {
    match (x, y) {
        (SortAtom::Number(a), SortAtom::Number(b)) => int_order(a, b),
        (SortAtom::Text(a), SortAtom::Text(b)) => opt_text_order(a, b),
        (SortAtom::Number(_), SortAtom::Text(_)) => -1,
        (SortAtom::Text(_), SortAtom::Number(_)) => 1,
    }
}

/// Lexicographic order of sort keys.
pub open spec fn key_order(a: Seq<SortAtom>, b: Seq<SortAtom>) -> int {
    lex_by(a, b, |x: SortAtom, y: SortAtom| atom_order(x, y))
}

proof fn lemma_lex_eq<A>(a: Seq<A>, b: Seq<A>, f: spec_fn(A, A) -> int)
    requires
        is_total_order(f),
    ensures
        lex_by(a, b, f) == 0 <==> a == b,
        lex_by(a, b, f) == -lex_by(b, a, f),
        -1 <= lex_by(a, b, f) <= 1,
    decreases a.len(),
{
    if a.len() > 0 && b.len() > 0 {
        assert(f(a[0], b[0]) == -f(b[0], a[0]));
        lemma_lex_eq(a.drop_first(), b.drop_first(), f);
        if f(a[0], b[0]) == 0 {
            if lex_by(a, b, f) == 0 {
                assert(a =~= b) by {
                    assert forall|i: int| 0 <= i < a.len() implies a[i] == b[i] by {
                        if i > 0 {
                            assert(a[i] == a.drop_first()[i - 1]);
                            assert(b[i] == b.drop_first()[i - 1]);
                        }
                    }
                }
            }
        }
        if a == b {
            assert(f(a[0], b[0]) == 0);
        }
    } else if a.len() == 0 && b.len() > 0 {
        assert(a != b);
    } else if a.len() > 0 && b.len() == 0 {
        assert(a != b);
    } else {
        assert(a =~= b);
    }
}

proof fn lemma_lex_trans<A>(a: Seq<A>, b: Seq<A>, c: Seq<A>, f: spec_fn(A, A) -> int)
    requires
        is_total_order(f),
        lex_by(a, b, f) == -1,
        lex_by(b, c, f) == -1,
    ensures
        lex_by(a, c, f) == -1,
    decreases a.len(),
{
    if a.len() > 0 && b.len() > 0 && c.len() > 0 {
        let x = f(a[0], b[0]);
        let y = f(b[0], c[0]);
        assert(-1 <= x <= 1 && -1 <= y <= 1);
        if x == 0 && y == 0 {
            assert(a[0] == b[0] && b[0] == c[0]);
            assert(f(a[0], c[0]) == 0);
            lemma_lex_trans(a.drop_first(), b.drop_first(), c.drop_first(), f);
        } else if x == 0 {
            assert(a[0] == b[0]);
        } else if y == 0 {
            assert(b[0] == c[0]);
        } else {
            assert(f(a[0], c[0]) == -1);
        }
    }
}

/// The lexicographic extension of a total order is a total order.
pub proof fn lemma_lex_total<A>(f: spec_fn(A, A) -> int)
    requires
        is_total_order(f),
    ensures
        is_total_order(|a: Seq<A>, b: Seq<A>| lex_by(a, b, f)),
{
    let g = |a: Seq<A>, b: Seq<A>| lex_by(a, b, f);
    assert forall|a: Seq<A>, b: Seq<A>| #[trigger] g(a, b) == 0 <==> a == b by {
        lemma_lex_eq(a, b, f);
    }
    assert forall|a: Seq<A>, b: Seq<A>| #[trigger] g(a, b) == -g(b, a) by {
        lemma_lex_eq(a, b, f);
    }
    assert forall|a: Seq<A>, b: Seq<A>| -1 <= #[trigger] g(a, b) <= 1 by {
        lemma_lex_eq(a, b, f);
    }
    assert forall|a: Seq<A>, b: Seq<A>, c: Seq<A>| #[trigger] g(a, b) == -1 && #[trigger] g(b, c)
        == -1 implies g(a, c) == -1 by {
        lemma_lex_trans(a, b, c, f);
    }
}

/// The order of characters is a total order.
pub proof fn lemma_char_order_total()
    ensures
        is_total_order(char_order()),
{
    let f = char_order();
    assert forall|a: char, b: char| #[trigger] f(a, b) == 0 <==> a == b by {
        if a as int == b as int {
            assert(a == b);
        }
    }
}

/// The order of strings is a total order.
pub proof fn lemma_text_order_total()
    ensures
        is_total_order(|a: Seq<char>, b: Seq<char>| lex_compare(a, b)),
{
    lemma_char_order_total();
    lemma_lex_total(char_order());
    let g = |a: Seq<char>, b: Seq<char>| lex_by(a, b, char_order());
    let h = |a: Seq<char>, b: Seq<char>| lex_compare(a, b);
    assert(h =~= g);
}

/// Facts about `lex_compare` on two or three given strings.
pub proof fn lemma_text_order(a: Seq<char>, b: Seq<char>, c: Seq<char>)
    ensures
        lex_compare(a, b) == 0 <==> a == b,
        lex_compare(a, b) == -lex_compare(b, a),
        -1 <= lex_compare(a, b) <= 1,
        lex_compare(a, b) == -1 && lex_compare(b, c) == -1 ==> lex_compare(a, c) == -1,
{
    lemma_char_order_total();
    lemma_lex_eq(a, b, char_order());
    if lex_compare(a, b) == -1 && lex_compare(b, c) == -1 {
        lemma_lex_trans(a, b, c, char_order());
    }
}

/// The order of sort key components is a total order.
pub proof fn lemma_atom_order_total()
    ensures
        is_total_order(|x: SortAtom, y: SortAtom| atom_order(x, y)),
{
    let f = |x: SortAtom, y: SortAtom| atom_order(x, y);
    assert forall|a: SortAtom, b: SortAtom| #[trigger] f(a, b) == 0 <==> a == b by {
        match (a, b) {
            (SortAtom::Text(Some(x)), SortAtom::Text(Some(y))) => {
                lemma_text_order(x, y, x);
            },
            _ => {},
        }
    }
    assert forall|a: SortAtom, b: SortAtom| #[trigger] f(a, b) == -f(b, a) by {
        match (a, b) {
            (SortAtom::Text(Some(x)), SortAtom::Text(Some(y))) => {
                lemma_text_order(x, y, x);
            },
            _ => {},
        }
    }
    assert forall|a: SortAtom, b: SortAtom| -1 <= #[trigger] f(a, b) <= 1 by {
        match (a, b) {
            (SortAtom::Text(Some(x)), SortAtom::Text(Some(y))) => {
                lemma_text_order(x, y, x);
            },
            _ => {},
        }
    }
    assert forall|a: SortAtom, b: SortAtom, c: SortAtom| #[trigger] f(a, b) == -1 && #[trigger] f(
        b,
        c,
    ) == -1 implies f(a, c) == -1 by {
        match (a, b, c) {
            (SortAtom::Text(Some(x)), SortAtom::Text(Some(y)), SortAtom::Text(Some(z))) => {
                lemma_text_order(x, y, z);
            },
            _ => {},
        }
    }
}

/// Facts about `key_order` on two or three given keys.
pub proof fn lemma_key_order(a: Seq<SortAtom>, b: Seq<SortAtom>, c: Seq<SortAtom>)
    ensures
        key_order(a, b) == 0 <==> a == b,
        key_order(a, b) == -key_order(b, a),
        -1 <= key_order(a, b) <= 1,
        key_order(a, b) == -1 && key_order(b, c) == -1 ==> key_order(a, c) == -1,
{
    let f = |x: SortAtom, y: SortAtom| atom_order(x, y);
    lemma_atom_order_total();
    lemma_lex_eq(a, b, f);
    if key_order(a, b) == -1 && key_order(b, c) == -1 {
        lemma_lex_trans(a, b, c, f);
    }
}

/// Three-way comparison of strings by code point.
pub fn compare_text(a: &str, b: &str) -> (r: i8)
    ensures
        r as int == lex_compare(a@, b@),
{
    let n = a.unicode_len();
    let m = b.unicode_len();
    let mut i: usize = 0;
    proof {
        assert(a@.skip(0) =~= a@);
        assert(b@.skip(0) =~= b@);
    }
    while i < n && i < m
        invariant
            n == a@.len(),
            m == b@.len(),
            i <= n,
            i <= m,
            lex_compare(a@, b@) == lex_compare(a@.skip(i as int), b@.skip(i as int)),
        decreases n - i,
    {
        let x = a.get_char(i) as u32;
        let y = b.get_char(i) as u32;
        let ghost sa = a@.skip(i as int);
        let ghost sb = b@.skip(i as int);
        assert(sa[0] == a@[i as int]);
        assert(sb[0] == b@[i as int]);
        if x < y {
            return -1;
        }
        if x > y {
            return 1;
        }
        proof {
            assert(sa.drop_first() =~= a@.skip(i + 1));
            assert(sb.drop_first() =~= b@.skip(i + 1));
        }
        i = i + 1;
    }
    if i < n {
        1
    } else if i < m {
        -1
    } else {
        0
    }
}

} // verus!
