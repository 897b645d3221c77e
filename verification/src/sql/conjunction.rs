//! What AND does in a WHERE clause: two conditions joined by `AND` are
//! the conditions of each, and the clause holds when both hold.
use vstd::prelude::*;
use crate::text;
use crate::sql::grammar;
use crate::sql::filter;
use crate::sql::filter::NumOrder;

verus! {

proof fn lemma_skip_ws_shift(p: Seq<char>, x: Seq<char>, i: int)
    requires
        0 <= i <= x.len(),
    ensures
        text::skip_ws(p + x, p.len() + i) == p.len() + text::skip_ws(x, i),
    decreases x.len() - i,
{
    let y = p + x;
    if i < x.len() {
        assert(y[p.len() + i] == x[i]);
        lemma_skip_ws_shift(p, x, i + 1);
    }
}

proof fn lemma_skip_ws_prefix(x: Seq<char>, z: Seq<char>, i: int)
    requires
        0 <= i <= x.len(),
    ensures
        text::skip_ws(x + z, i) == if text::skip_ws(x, i) < x.len() {
            text::skip_ws(x, i)
        } else {
            x.len() + text::skip_ws(z, 0)
        },
    decreases x.len() - i,
{
    let y = x + z;
    if i < x.len() {
        assert(y[i] == x[i]);
        lemma_skip_ws_prefix(x, z, i + 1);
    } else {
        lemma_skip_ws_shift(x, z, 0);
    }
}

proof fn lemma_and_at_shift(p: Seq<char>, x: Seq<char>, i: int)
    requires
        0 <= i <= x.len(),
    ensures
        filter::and_at(p + x, p.len() + i) == match filter::and_at(x, i) {
            Some(e) => Some(p.len() + e),
            None => None::<int>,
        },
{
    reveal_strlit("AND");
    let y = p + x;
    let n = p.len() as int;
    assert forall|j: int| 0 <= j < x.len() implies #[trigger] y[n + j] == x[j] by {}
    lemma_skip_ws_shift(p, x, i);
    text::lemma_skip_ws(x, i);
    let a = text::skip_ws(x, i);
    assert(grammar::is_ws_at(y, n + i) == grammar::is_ws_at(x, i));
    assert(text::kw_at(y, n + a, "AND"@) == text::kw_at(x, a, "AND"@)) by {
        if text::kw_at(x, a, "AND"@) {
            assert forall|j: int| 0 <= j < 3 implies text::fold_eq(#[trigger] y[n + a + j], "AND"@[j]) by {
                assert(y[n + a + j] == x[a + j]);
            }
        }
        if text::kw_at(y, n + a, "AND"@) {
            assert forall|j: int| 0 <= j < 3 implies text::fold_eq(#[trigger] x[a + j], "AND"@[j]) by {
                assert(y[n + a + j] == x[a + j]);
            }
        }
    }
    assert(grammar::is_ws_at(y, n + a + 3) == grammar::is_ws_at(x, a + 3));
    if grammar::is_ws_at(x, a + 3) {
        lemma_skip_ws_shift(p, x, a + 3);
    }
}

/// No separator starts at or after `i`: the rest is one piece.
proof fn lemma_first_and_none(s: Seq<char>, i: int)
    requires
        forall|j: int| i <= j ==> #[trigger] filter::and_at(s, j) is None,
    ensures
        filter::first_and(s, i) is None,
    decreases s.len() - i,
{
    if 0 <= i < s.len() {
        lemma_first_and_none(s, i + 1);
    }
}

proof fn lemma_first_and_at(s: Seq<char>, i: int, k: int)
    requires
        0 <= i <= k < s.len(),
        filter::and_at(s, k) is Some,
        forall|j: int| i <= j < k ==> #[trigger] filter::and_at(s, j) is None,
    ensures
        filter::first_and(s, i) == Some(k),
    decreases k - i,
{
    if i < k {
        lemma_first_and_at(s, i + 1, k);
    }
}

pub open spec fn all_ws(w: Seq<char>) -> bool {
    forall|j: int| 0 <= j < w.len() ==> text::is_ws(#[trigger] w[j])
}

proof fn lemma_back_ws_prefix(x: Seq<char>, z: Seq<char>, j: int)
    requires
        0 <= j <= x.len(),
    ensures
        text::back_ws(x + z, j) == text::back_ws(x, j),
    decreases j,
{
    if j > 0 {
        assert((x + z)[j - 1] == x[j - 1]);
        lemma_back_ws_prefix(x, z, j - 1);
    }
}

proof fn lemma_back_ws_over_ws(x: Seq<char>, w: Seq<char>, j: int)
    requires
        all_ws(w),
        0 <= j <= w.len(),
    ensures
        text::back_ws(x + w, x.len() + j) == text::back_ws(x + w, x.len() as int),
    decreases j,
{
    if j > 0 {
        assert((x + w)[x.len() + j - 1] == w[j - 1]);
        lemma_back_ws_over_ws(x, w, j - 1);
    }
}

proof fn lemma_back_ws_shift(w: Seq<char>, x: Seq<char>, j: int)
    requires
        0 <= j <= x.len(),
        text::back_ws(x, j) > 0,
    ensures
        text::back_ws(w + x, w.len() + j) == w.len() + text::back_ws(x, j),
    decreases j,
{
    if j > 0 {
        assert((w + x)[w.len() + j - 1] == x[j - 1]);
        if text::is_ws(x[j - 1]) {
            lemma_back_ws_shift(w, x, j - 1);
        }
    }
}

proof fn lemma_skip_all_ws(w: Seq<char>, i: int)
    requires
        all_ws(w),
        0 <= i <= w.len(),
    ensures
        text::skip_ws(w, i) == w.len(),
    decreases w.len() - i,
{
    if i < w.len() {
        lemma_skip_all_ws(w, i + 1);
    }
}

/// Trailing whitespace does not change the trimmed text.
proof fn lemma_trim_trailing(x: Seq<char>, w: Seq<char>)
    requires
        all_ws(w),
    ensures
        text::trim(x + w) == text::trim(x),
{
    let y = x + w;
    lemma_skip_ws_prefix(x, w, 0);
    lemma_skip_all_ws(w, 0);
    text::lemma_skip_ws(x, 0);
    if text::skip_ws(x, 0) < x.len() {
        lemma_back_ws_over_ws(x, w, w.len() as int);
        assert(x.len() > 0);
        lemma_back_ws_prefix(x, w, x.len() as int);
        text::lemma_back_ws(x, x.len() as int);
        text::lemma_trim_bounds(x);
        assert(y.subrange(text::skip_ws(x, 0), text::back_ws(x, x.len() as int)) =~= x.subrange(
            text::skip_ws(x, 0),
            text::back_ws(x, x.len() as int),
        ));
    }
}

/// Leading whitespace does not change the trimmed text.
proof fn lemma_trim_leading(w: Seq<char>, x: Seq<char>)
    requires
        all_ws(w),
    ensures
        text::trim(w + x) == text::trim(x),
{
    let y = w + x;
    lemma_skip_all_ws(w, 0);
    lemma_skip_ws_prefix(w, x, 0);
    text::lemma_skip_ws(x, 0);
    if text::skip_ws(x, 0) < x.len() {
        text::lemma_trim_bounds(x);
        lemma_back_ws_shift(w, x, x.len() as int);
        assert(y.subrange(w.len() + text::skip_ws(x, 0), w.len() + text::back_ws(x, x.len() as int))
            =~= x.subrange(text::skip_ws(x, 0), text::back_ws(x, x.len() as int)));
    }
}

/// `k` is the keyword `AND`, in any case.
pub open spec fn is_and_keyword(k: Seq<char>) -> bool {
    k.len() == 3 && text::kw_at(k, 0, "AND"@)
}

/// No AND separator (whitespace, `AND`, whitespace) occurs in `s`.
pub open spec fn free_of_and(s: Seq<char>) -> bool {
    forall|i: int| #[trigger] filter::and_at(s, i) is None
}

/// The text `c1 <k> c2`, with one space on each side of the keyword.
pub open spec fn joined(c1: Seq<char>, k: Seq<char>, c2: Seq<char>) -> Seq<char> {
    c1 + seq![' '] + k + seq![' '] + c2
}

proof fn lemma_keyword_chars(k: Seq<char>)
    requires
        is_and_keyword(k),
    ensures
        forall|j: int| 0 <= j < 3 ==> !text::is_ws(#[trigger] k[j]) && k[j] != ' ',
{
    reveal_strlit("AND");
    assert forall|j: int| 0 <= j < 3 implies !text::is_ws(#[trigger] k[j]) && k[j] != ' ' by {
        assert(text::fold_eq(k[0 + j], "AND"@[j]));
    }
}

/// A separator inside `c1` would also be one in `c1` followed by a space.
proof fn lemma_and_in_prefix(c1: Seq<char>, i: int)
    requires
        filter::and_at(c1, i) is Some,
    ensures
        filter::and_at(c1.push(' '), i) is Some,
{
    reveal_strlit("AND");
    let t1 = c1.push(' ');
    assert(t1 =~= c1 + seq![' ']);
    let a = text::skip_ws(c1, i);
    text::lemma_skip_ws(c1, i);
    lemma_skip_ws_prefix(c1, seq![' '], i);
    assert forall|j: int| 0 <= j < c1.len() implies #[trigger] t1[j] == c1[j] by {}
    assert forall|j: int| 0 <= j < 3 implies text::fold_eq(#[trigger] t1[a + j], "AND"@[j]) by {
        assert(text::fold_eq(c1[a + j], "AND"@[j]));
    }
}

proof fn lemma_skip_one_space()
    ensures
        text::skip_ws(seq![' '], 0) == 1,
{
    assert(text::is_ws(seq![' '][0]));
    assert(text::skip_ws(seq![' '], 1) == 1);
}

/// Each condition alone holds no separator: it is one piece.
proof fn lemma_single_pieces(c1: Seq<char>, c2: Seq<char>)
    requires
        free_of_and(c1.push(' ')),
        free_of_and(seq![' '] + c2),
    ensures
        filter::where_conditions(c1) == seq![filter::condition_of(text::trim(c1))],
        filter::where_conditions(c2) == seq![filter::condition_of(text::trim(c2))],
{
    let t1 = c1.push(' ');
    let u = seq![' '] + c2;
    assert forall|i: int| #[trigger] filter::and_at(c1, i) is None by {
        if filter::and_at(c1, i) is Some {
            lemma_and_in_prefix(c1, i);
            assert(filter::and_at(t1, i) is None);
        }
    }
    lemma_first_and_none(c1, 0);
    assert(c1.subrange(0, c1.len() as int) =~= c1);
    assert(filter::where_conditions(c1) =~= seq![filter::condition_of(text::trim(c1))]);
    assert forall|j: int| #[trigger] filter::and_at(c2, j) is None by {
        if 0 <= j <= c2.len() {
            lemma_and_at_shift(seq![' '], c2, j);
            assert(filter::and_at(u, 1 + j) is None);
        }
    }
    lemma_first_and_none(c2, 0);
    assert(c2.subrange(0, c2.len() as int) =~= c2);
    assert(filter::where_conditions(c2) =~= seq![filter::condition_of(text::trim(c2))]);
}

/// Before the trailing whitespace of `c1`, no separator starts.
proof fn lemma_no_early_and(c1: Seq<char>, k: Seq<char>, c2: Seq<char>, i: int)
    requires
        is_and_keyword(k),
        free_of_and(c1.push(' ')),
        0 <= i < text::back_ws(c1, c1.len() as int),
    ensures
        filter::and_at(joined(c1, k, c2), i) is None,
{
    reveal_strlit("AND");
    let n1 = c1.len() as int;
    let t1 = c1.push(' ');
    let u = seq![' '] + c2;
    let s = joined(c1, k, c2);
    let i0 = text::back_ws(c1, n1);
    assert(t1 =~= c1 + seq![' ']);
    assert(s =~= t1 + (k + u));
    text::lemma_back_ws(c1, n1);
    text::lemma_skip_ws(c1, i);
    if text::skip_ws(c1, i) >= i0 {
        assert(text::is_ws(c1[i0 - 1]));
    }
    lemma_skip_ws_prefix(c1, seq![' '], i);
    lemma_skip_ws_prefix(t1, k + u, i);
    let a = text::skip_ws(c1, i);
    assert(text::skip_ws(s, i) == a);
    if filter::and_at(s, i) is Some {
        assert(text::fold_eq(s[a + 0], "AND"@[0]));
        assert(text::fold_eq(s[a + 1], "AND"@[1]));
        assert(text::fold_eq(s[a + 2], "AND"@[2]));
        assert(s[n1] == ' ');
        assert(a + 3 <= n1);
        assert forall|j: int| 0 <= j < 3 implies text::fold_eq(#[trigger] t1[a + j], "AND"@[j]) by {
            assert(t1[a + j] == s[a + j]);
        }
        assert(t1[a + 3] == s[a + 3]);
        assert(t1[i] == s[i]);
        assert(filter::and_at(t1, i) is Some);
    }
}

/// The joining separator starts where the trailing whitespace of `c1`
/// does, and ends where `c2`'s leading whitespace does.
proof fn lemma_joining_and(c1: Seq<char>, k: Seq<char>, c2: Seq<char>)
    requires
        is_and_keyword(k),
    ensures
        filter::and_at(joined(c1, k, c2), text::back_ws(c1, c1.len() as int)) == Some(
            c1.len() + 5 + text::skip_ws(c2, 0),
        ),
{
    reveal_strlit("AND");
    let n1 = c1.len() as int;
    let t1 = c1.push(' ');
    let u = seq![' '] + c2;
    let s = joined(c1, k, c2);
    let i0 = text::back_ws(c1, n1);
    assert(t1 =~= c1 + seq![' ']);
    assert(s =~= t1 + (k + u));
    assert(s =~= (t1 + k) + u);
    lemma_keyword_chars(k);
    text::lemma_back_ws(c1, n1);
    text::lemma_skip_ws(c1, i0);
    if text::skip_ws(c1, i0) < n1 {
        assert(text::is_ws(c1[text::skip_ws(c1, i0)]));
    }
    assert(text::skip_ws(c1, i0) == n1);
    lemma_skip_one_space();
    lemma_skip_ws_prefix(c1, seq![' '], i0);
    assert(text::skip_ws(t1, i0) == n1 + 1);
    lemma_skip_ws_prefix(t1, k + u, i0);
    assert(text::skip_ws(k + u, 0) == 0) by {
        assert((k + u)[0] == k[0]);
    }
    assert(text::skip_ws(s, i0) == n1 + 1);
    assert(grammar::is_ws_at(s, i0)) by {
        if i0 < n1 {
            assert(text::is_ws(c1[i0]));
            assert(s[i0] == c1[i0]);
        } else {
            assert(s[n1] == ' ');
        }
    }
    assert(text::kw_at(s, n1 + 1, "AND"@)) by {
        assert forall|j: int| 0 <= j < 3 implies text::fold_eq(#[trigger] s[n1 + 1 + j], "AND"@[j]) by {
            assert(s[n1 + 1 + j] == k[j]);
            assert(text::fold_eq(k[0 + j], "AND"@[j]));
        }
    }
    assert(s[n1 + 4] == ' ');
    lemma_skip_ws_shift(t1 + k, u, 0);
    lemma_skip_ws_shift(seq![' '], c2, 0);
    assert(text::skip_ws(u, 0) == 1 + text::skip_ws(c2, 0)) by {
        assert(u[0] == ' ');
        assert(text::is_ws(u[0]));
    }
}

/// Two conditions joined by `AND` (in any case, with whitespace on both
/// sides) are read as the conditions of the first, then those of the
/// second; each alone is one condition, read from its trimmed text. The
/// conditions must hold no AND separator themselves, counting one that
/// the joining spaces would complete.
pub proof fn and_splits_conditions(c1: Seq<char>, k: Seq<char>, c2: Seq<char>)
    requires
        is_and_keyword(k),
        free_of_and(c1.push(' ')),
        free_of_and(seq![' '] + c2),
    ensures
        filter::where_conditions(c1) == seq![filter::condition_of(text::trim(c1))],
        filter::where_conditions(c2) == seq![filter::condition_of(text::trim(c2))],
        filter::where_conditions(joined(c1, k, c2)) == filter::where_conditions(c1)
            + filter::where_conditions(c2),
{
    lemma_single_pieces(c1, c2);
    let n1 = c1.len() as int;
    let t1 = c1.push(' ');
    let u = seq![' '] + c2;
    let s = joined(c1, k, c2);
    assert(s =~= (t1 + k) + u);
    let i0 = text::back_ws(c1, n1);
    text::lemma_back_ws(c1, n1);
    text::lemma_skip_ws(c2, 0);
    let lead = text::skip_ws(c2, 0);
    let e = n1 + 5 + lead;
    assert forall|i: int| 0 <= i < i0 implies #[trigger] filter::and_at(s, i) is None by {
        lemma_no_early_and(c1, k, c2, i);
    }
    lemma_joining_and(c1, k, c2);
    lemma_first_and_at(s, 0, i0);
    assert forall|j: int| e <= j implies #[trigger] filter::and_at(s, j) is None by {
        if j <= s.len() {
            lemma_and_at_shift(t1 + k, u, j - (n1 + 4));
        }
    }
    lemma_first_and_none(s, e);
    let p1 = s.subrange(0, i0);
    let p2 = s.subrange(e, s.len() as int);
    assert(filter::split_and_from(s, e) == seq![p2]);
    assert(filter::split_and_from(s, 0) == seq![p1] + seq![p2]);
    lemma_trim_trailing(p1, c1.subrange(i0, n1));
    assert(p1 + c1.subrange(i0, n1) =~= c1);
    lemma_trim_leading(c2.subrange(0, lead), c2.subrange(lead, c2.len() as int));
    assert(c2.subrange(0, lead) + c2.subrange(lead, c2.len() as int) =~= c2);
    assert(p2 =~= c2.subrange(lead, c2.len() as int));
    assert(filter::where_conditions(s) =~= filter::where_conditions(c1) + filter::where_conditions(
        c2,
    ));
}

/// `c1 AND c2` holds of a row exactly when both conditions do: all of its
/// conditions pass exactly when the condition of `c1` and that of `c2`
/// pass, and one of them fails exactly when one of those fails (the
/// outcomes that `eval_where` reports).
pub proof fn and_holds_when_both_hold<F: Fn(&str, &str) -> NumOrder>(
    c1: Seq<char>,
    k: Seq<char>,
    c2: Seq<char>,
    row: Seq<(Seq<char>, Seq<char>)>,
    numeric: F,
)
    requires
        is_and_keyword(k),
        free_of_and(c1.push(' ')),
        free_of_and(seq![' '] + c2),
    ensures
        (forall|i: int|
            0 <= i < filter::where_conditions(joined(c1, k, c2)).len() ==> filter::condition_passes(
                #[trigger] filter::where_conditions(joined(c1, k, c2))[i],
                row,
                numeric,
            )) <==> (filter::condition_passes(
            filter::condition_of(text::trim(c1)),
            row,
            numeric,
        ) && filter::condition_passes(filter::condition_of(text::trim(c2)), row, numeric)),
        (exists|i: int|
            0 <= i < filter::where_conditions(joined(c1, k, c2)).len() && filter::condition_fails(
                #[trigger] filter::where_conditions(joined(c1, k, c2))[i],
                row,
                numeric,
            )) <==> (filter::condition_fails(
            filter::condition_of(text::trim(c1)),
            row,
            numeric,
        ) || filter::condition_fails(filter::condition_of(text::trim(c2)), row, numeric)),
{
    and_splits_conditions(c1, k, c2);
    let w = filter::where_conditions(joined(c1, k, c2));
    let x = filter::condition_of(text::trim(c1));
    let y = filter::condition_of(text::trim(c2));
    assert(w =~= seq![x, y]);
    if filter::condition_fails(x, row, numeric) {
        assert(filter::condition_fails(w[0], row, numeric));
    }
    if filter::condition_fails(y, row, numeric) {
        assert(filter::condition_fails(w[1], row, numeric));
    }
}

/// `c1 AND c2` holds of a row exactly when `c1` holds and `c2` holds, and
/// each alone holds exactly when its one condition passes. With a
/// comparison that answers once, `eval_where` gives `clause_holds`, so
/// `eval_where("c1 AND c2")` is `eval_where(c1) && eval_where(c2)` (also
/// with `and` or `And` as the keyword).
pub proof fn and_is_both<F: Fn(&str, &str) -> NumOrder>(
    c1: Seq<char>,
    k: Seq<char>,
    c2: Seq<char>,
    row: Seq<(Seq<char>, Seq<char>)>,
    numeric: F,
)
    requires
        is_and_keyword(k),
        free_of_and(c1.push(' ')),
        free_of_and(seq![' '] + c2),
    ensures
        filter::clause_holds(joined(c1, k, c2), row, numeric) == (filter::clause_holds(
            c1,
            row,
            numeric,
        ) && filter::clause_holds(c2, row, numeric)),
        filter::clause_holds(c1, row, numeric) == filter::condition_passes(
            filter::condition_of(text::trim(c1)),
            row,
            numeric,
        ),
        filter::clause_holds(c2, row, numeric) == filter::condition_passes(
            filter::condition_of(text::trim(c2)),
            row,
            numeric,
        ),
{
    and_splits_conditions(c1, k, c2);
    let x = filter::condition_of(text::trim(c1));
    let y = filter::condition_of(text::trim(c2));
    let w = filter::where_conditions(joined(c1, k, c2));
    assert(w =~= seq![x, y]);
    assert(filter::where_conditions(c1)[0] == x);
    assert(filter::where_conditions(c2)[0] == y);
    assert(w[0] == x);
    assert(w[1] == y);
}

} // verus!
