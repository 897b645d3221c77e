//! The statement grammar of the SQL subset, read on characters.
//!
//! Each statement form is a case-insensitive pattern whose parts are
//! matched with the priorities of a backtracking regex engine: repetition
//! is greedy unless marked lazy, and alternatives are tried in order. The
//! spec functions below describe which parts a statement's pattern
//! captures; the `*_exec` functions compute the same positions.
use vstd::prelude::*;
use crate::text;
use crate::pattern;

verus! {

pub open spec fn is_ws_at(s: Seq<char>, i: int) -> bool {
    0 <= i < s.len() && text::is_ws(s[i])
}

pub open spec fn char_at(s: Seq<char>, i: int, c: char) -> bool {
    0 <= i < s.len() && s[i] == c
}

/// First position at or after `i` that holds `c`, or the length.
pub open spec fn find_char(s: Seq<char>, i: int, c: char) -> int
    decreases s.len() - i,
{
    if 0 <= i < s.len() && s[i] != c {
        find_char(s, i + 1, c)
    } else {
        i
    }
}

/// A quoted table name opened at `t`: `"name"` or `` `name` `` with at
/// least one character inside. Gives the position of the closing quote.
pub open spec fn quoted_close(s: Seq<char>, t: int) -> Option<int> {
    if 0 <= t < s.len() && (s[t] == '"' || s[t] == '`') {
        let c = find_char(s, t + 1, s[t]);
        if c < s.len() && c > t + 1 {
            Some(c)
        } else {
            None
        }
    } else {
        None
    }
}

/// End of the run of `\d` characters that starts at `i`.
pub open spec fn digit_end(s: Seq<char>, i: int) -> int
    decreases s.len() - i,
{
    if 0 <= i < s.len() && pattern::is_decimal_digit(s[i]) {
        digit_end(s, i + 1)
    } else {
        i
    }
}

pub open spec fn same_pos(r: Option<usize>, o: Option<int>) -> bool {
    match r {
        Some(x) => o == Some(x as int),
        None => o is None,
    }
}

pub fn is_ws_at_exec(s: &Vec<char>, i: usize) -> (b: bool)
    ensures
        b == is_ws_at(s@, i as int),
{
    i < s.len() && text::is_whitespace(s[i])
}

pub fn char_at_exec(s: &Vec<char>, i: usize, c: char) -> (b: bool)
    ensures
        b == char_at(s@, i as int, c),
{
    i < s.len() && s[i] == c
}

pub proof fn lemma_find_char(s: Seq<char>, i: int, c: char)
    requires
        0 <= i <= s.len(),
    ensures
        i <= find_char(s, i, c) <= s.len(),
        find_char(s, i, c) < s.len() ==> s[find_char(s, i, c)] == c,
        forall|k: int| i <= k < find_char(s, i, c) ==> #[trigger] s[k] != c,
    decreases s.len() - i,
{
    if i < s.len() && s[i] != c {
        lemma_find_char(s, i + 1, c);
    }
}

pub fn find_char_exec(s: &Vec<char>, i: usize, c: char) -> (r: usize)
    requires
        i <= s.len(),
    ensures
        r == find_char(s@, i as int, c),
        i <= r <= s.len(),
{
    let mut j: usize = i;
    while j < s.len() && s[j] != c
        invariant
            i <= j <= s.len(),
            find_char(s@, j as int, c) == find_char(s@, i as int, c),
        decreases s.len() - j,
    {
        j = j + 1;
    }
    j
}

pub fn quoted_close_exec(s: &Vec<char>, t: usize) -> (r: Option<usize>)
    requires
        t <= s.len(),
    ensures
        same_pos(r, quoted_close(s@, t as int)),
        r matches Some(c) ==> t + 1 < c < s.len(),
{
    if t < s.len() && (s[t] == '"' || s[t] == '`') {
        let c = find_char_exec(s, t + 1, s[t]);
        if c < s.len() && c > t + 1 {
            Some(c)
        } else {
            None
        }
    } else {
        None
    }
}

pub fn digit_end_exec(s: &Vec<char>, i: usize) -> (r: usize)
    requires
        i <= s.len(),
    ensures
        r == digit_end(s@, i as int),
        i <= r <= s.len(),
{
    let mut j: usize = i;
    while j < s.len() && pattern::is_decimal_digit_exec(s[j])
        invariant
            i <= j <= s.len(),
            digit_end(s@, j as int) == digit_end(s@, i as int),
        decreases s.len() - j,
    {
        j = j + 1;
    }
    j
}

// ---------------------------------------------------------------------------
// SELECT COUNT(*) FROM <table> [WHERE <cond>]
// ---------------------------------------------------------------------------
/// Where the table name of a `SELECT COUNT(*) FROM` statement starts.
pub open spec fn count_head(s: Seq<char>) -> Option<int> {
    if kw_at_and_ws(s, 0, "SELECT"@) {
        let a = text::skip_ws(s, 6);
        if text::kw_at(s, a, "COUNT"@) {
            let b = text::skip_ws(s, a + 5);
            if char_at(s, b, '(') {
                let c = text::skip_ws(s, b + 1);
                let d = if char_at(s, c, '*') {
                    c + 1
                } else {
                    c
                };
                let e = text::skip_ws(s, d);
                if char_at(s, e, ')') && is_ws_at(s, e + 1) {
                    let f = text::skip_ws(s, e + 1);
                    if kw_at_and_ws(s, f, "FROM"@) {
                        Some(text::skip_ws(s, f + 4))
                    } else {
                        None
                    }
                } else {
                    None
                }
            } else {
                None
            }
        } else {
            None
        }
    } else {
        None
    }
}

/// The keyword `kw` at `i`, followed by whitespace.
pub open spec fn kw_at_and_ws(s: Seq<char>, i: int, kw: Seq<char>) -> bool {
    text::kw_at(s, i, kw) && is_ws_at(s, i + kw.len())
}

/// `\s+WHERE\s+(.+)` up to the end, at `n`: the position after `WHERE`.
/// The captured condition, once trimmed, is the trimmed rest of the text.
pub open spec fn where_to_end(s: Seq<char>, n: int) -> Option<int> {
    if is_ws_at(s, n) {
        let w = text::skip_ws(s, n);
        if kw_at_and_ws(s, w, "WHERE"@) && s.len() - (w + 5) >= 2 {
            Some(w + 5)
        } else {
            None
        }
    } else {
        None
    }
}

/// The tail of a COUNT statement after the table name at `n`:
/// `Some(Some(r))` when a WHERE clause starts at `r`, `Some(None)` at the end.
pub open spec fn count_tail(s: Seq<char>, n: int) -> Option<Option<int>> {
    match where_to_end(s, n) {
        Some(r) => Some(Some(r)),
        None => if n == s.len() {
            Some(None)
        } else {
            None
        },
    }
}

/// The bounds of a table name at `t` and the position after it, for the
/// statements where the name is followed by whitespace or the end: a quoted
/// name first, else the run of non-whitespace characters.
pub open spec fn table_quoted(s: Seq<char>, t: int) -> Option<(int, int, int)> {
    match quoted_close(s, t) {
        Some(c) => Some((t + 1, c, c + 1)),
        None => None,
    }
}

pub open spec fn table_bare(s: Seq<char>, t: int) -> Option<(int, int, int)> {
    let e = text::nonws_end(s, t);
    if e > t {
        Some((t, e, e))
    } else {
        None
    }
}

/// A COUNT statement: (table start, table end, start of the WHERE clause).
pub open spec fn count_match(s: Seq<char>) -> Option<(int, int, Option<int>)> {
    match count_head(s) {
        Some(t) => match table_quoted(s, t) {
            Some((a, b, n)) if count_tail(s, n) is Some => Some((a, b, count_tail(s, n)->0)),
            _ => match table_bare(s, t) {
                Some((a, b, n)) if count_tail(s, n) is Some => Some(
                    (a, b, count_tail(s, n)->0),
                ),
                _ => None,
            },
        },
        None => None,
    }
}

pub struct CountCaps {
    pub table_lo: usize,
    pub table_hi: usize,
    pub where_lo: Option<usize>,
}

pub open spec fn count_caps_are(r: Option<CountCaps>, o: Option<(int, int, Option<int>)>) -> bool {
    match r {
        Some(c) => o matches Some((a, b, w)) && a == c.table_lo && b == c.table_hi && same_pos(
            c.where_lo,
            w,
        ),
        None => o is None,
    }
}

pub fn kw_at_and_ws_exec(s: &Vec<char>, i: usize, kw: &str) -> (b: bool)
    ensures
        b == kw_at_and_ws(s@, i as int, kw@),
        b ==> i + kw@.len() < s.len(),
{
    let n = kw.unicode_len();
    if text::kw_at_exec(s, i, kw) {
        assert(i + n <= s.len());
        is_ws_at_exec(s, i + n)
    } else {
        false
    }
}

fn where_to_end_exec(s: &Vec<char>, n: usize) -> (r: Option<usize>)
    requires
        n <= s.len(),
    ensures
        same_pos(r, where_to_end(s@, n as int)),
        r matches Some(x) ==> x <= s.len(),
{
    proof {
        reveal_strlit("WHERE");
    }
    if is_ws_at_exec(s, n) {
        let w = text::skip_ws_exec(s, n);
        if kw_at_and_ws_exec(s, w, "WHERE") && s.len() - (w + 5) >= 2 {
            Some(w + 5)
        } else {
            None
        }
    } else {
        None
    }
}

fn count_head_exec(s: &Vec<char>) -> (r: Option<usize>)
    ensures
        same_pos(r, count_head(s@)),
        r matches Some(t) ==> t <= s.len(),
{
    proof {
        reveal_strlit("SELECT");
        reveal_strlit("COUNT");
        reveal_strlit("FROM");
    }
    if !kw_at_and_ws_exec(s, 0, "SELECT") {
        return None;
    }
    let a = text::skip_ws_exec(s, 6);
    if !text::kw_at_exec(s, a, "COUNT") {
        return None;
    }
    let b = text::skip_ws_exec(s, a + 5);
    if !char_at_exec(s, b, '(') {
        return None;
    }
    let c = text::skip_ws_exec(s, b + 1);
    let d: usize = if char_at_exec(s, c, '*') {
        c + 1
    } else {
        c
    };
    let e = text::skip_ws_exec(s, d);
    if !(char_at_exec(s, e, ')') && is_ws_at_exec(s, e + 1)) {
        return None;
    }
    let f = text::skip_ws_exec(s, e + 1);
    if !kw_at_and_ws_exec(s, f, "FROM") {
        return None;
    }
    Some(text::skip_ws_exec(s, f + 4))
}

fn table_quoted_exec(s: &Vec<char>, t: usize) -> (r: Option<(usize, usize, usize)>)
    requires
        t <= s.len(),
    ensures
        match r {
            Some((a, b, n)) => table_quoted(s@, t as int) == Some((a as int, b as int, n as int))
                && a <= b && n <= s.len(),
            None => table_quoted(s@, t as int) is None,
        },
{
    match quoted_close_exec(s, t) {
        Some(c) => Some((t + 1, c, c + 1)),
        None => None,
    }
}

fn table_bare_exec(s: &Vec<char>, t: usize) -> (r: Option<(usize, usize, usize)>)
    requires
        t <= s.len(),
    ensures
        match r {
            Some((a, b, n)) => table_bare(s@, t as int) == Some((a as int, b as int, n as int))
                && a <= b && n <= s.len(),
            None => table_bare(s@, t as int) is None,
        },
{
    let e = text::nonws_end_exec(s, t);
    if e > t {
        Some((t, e, e))
    } else {
        None
    }
}

fn count_tail_exec(s: &Vec<char>, n: usize) -> (r: Option<Option<usize>>)
    requires
        n <= s.len(),
    ensures
        match r {
            Some(w) => count_tail(s@, n as int) matches Some(x) && same_pos(w, x) && (w matches Some(
                p,
            ) ==> p <= s.len()),
            None => count_tail(s@, n as int) is None,
        },
{
    match where_to_end_exec(s, n) {
        Some(r) => Some(Some(r)),
        None => if n == s.len() {
            Some(None)
        } else {
            None
        },
    }
}

pub fn count_match_exec(s: &Vec<char>) -> (r: Option<CountCaps>)
    ensures
        count_caps_are(r, count_match(s@)),
        r matches Some(c) ==> c.table_lo <= c.table_hi <= s.len() && (c.where_lo matches Some(w)
            ==> w <= s.len()),
{
    let t = match count_head_exec(s) {
        Some(t) => t,
        None => return None,
    };
    if let Some((a, b, n)) = table_quoted_exec(s, t) {
        if let Some(w) = count_tail_exec(s, n) {
            return Some(CountCaps { table_lo: a, table_hi: b, where_lo: w });
        }
    }
    if let Some((a, b, n)) = table_bare_exec(s, t) {
        if let Some(w) = count_tail_exec(s, n) {
            return Some(CountCaps { table_lo: a, table_hi: b, where_lo: w });
        }
    }
    None
}

// ---------------------------------------------------------------------------
// DELETE FROM <table> WHERE <cond>
// ---------------------------------------------------------------------------
/// A DELETE statement: (table start, table end, start of the WHERE clause).
pub open spec fn delete_match(s: Seq<char>) -> Option<(int, int, int)> {
    if kw_at_and_ws(s, 0, "DELETE"@) {
        let f = text::skip_ws(s, 6);
        if kw_at_and_ws(s, f, "FROM"@) {
            let t = text::skip_ws(s, f + 4);
            match table_quoted(s, t) {
                Some((a, b, n)) if where_to_end(s, n) is Some => Some(
                    (a, b, where_to_end(s, n)->0),
                ),
                _ => match table_bare(s, t) {
                    Some((a, b, n)) if where_to_end(s, n) is Some => Some(
                        (a, b, where_to_end(s, n)->0),
                    ),
                    _ => None,
                },
            }
        } else {
            None
        }
    } else {
        None
    }
}

pub fn delete_match_exec(s: &Vec<char>) -> (r: Option<(usize, usize, usize)>)
    ensures
        match r {
            Some((a, b, w)) => delete_match(s@) == Some((a as int, b as int, w as int)) && a <= b
                <= s.len() && w <= s.len(),
            None => delete_match(s@) is None,
        },
{
    proof {
        reveal_strlit("DELETE");
        reveal_strlit("FROM");
    }
    if !kw_at_and_ws_exec(s, 0, "DELETE") {
        return None;
    }
    let f = text::skip_ws_exec(s, 6);
    if !kw_at_and_ws_exec(s, f, "FROM") {
        return None;
    }
    let t = text::skip_ws_exec(s, f + 4);
    if let Some((a, b, n)) = table_quoted_exec(s, t) {
        if let Some(w) = where_to_end_exec(s, n) {
            return Some((a, b, w));
        }
    }
    if let Some((a, b, n)) = table_bare_exec(s, t) {
        if let Some(w) = where_to_end_exec(s, n) {
            return Some((a, b, w));
        }
    }
    None
}

// ---------------------------------------------------------------------------
// UPDATE <table> SET <assignments> WHERE <cond>
// ---------------------------------------------------------------------------
/// `\s+WHERE\s+(.+)$` matches from `k`.
pub open spec fn where_at(s: Seq<char>, k: int) -> bool {
    where_to_end(s, k) is Some
}

/// The first position at or after `k` where `\s+WHERE\s+(.+)$` matches.
pub open spec fn first_where_from(s: Seq<char>, k: int) -> Option<int>
    decreases s.len() - k,
{
    if k < 0 || k >= s.len() {
        None
    } else if where_at(s, k) {
        Some(k)
    } else {
        first_where_from(s, k + 1)
    }
}

/// The start of the lazily matched assignments: the greedy `\s+` before
/// them gives back characters, from `st` down to `lo`, until some end
/// position lets the rest of the statement match.
pub open spec fn set_start(s: Seq<char>, lo: int, st: int) -> Option<int>
    decreases st - lo + 1,
{
    if st < lo {
        None
    } else if first_where_from(s, st + 1) is Some {
        Some(st)
    } else {
        set_start(s, lo, st - 1)
    }
}

/// An UPDATE statement: (table start, table end, assignments start,
/// assignments end, start of the WHERE clause).
pub open spec fn update_tail(s: Seq<char>, n: int) -> Option<(int, int, int)> {
    if is_ws_at(s, n) {
        let a = text::skip_ws(s, n);
        if kw_at_and_ws(s, a, "SET"@) {
            let b = a + 3;
            let m = text::skip_ws(s, b);
            match set_start(s, b + 1, m) {
                Some(st) => {
                    let k = first_where_from(s, st + 1)->0;
                    Some((st, k, where_to_end(s, k)->0))
                },
                None => None,
            }
        } else {
            None
        }
    } else {
        None
    }
}

pub open spec fn update_match(s: Seq<char>) -> Option<(int, int, int, int, int)> {
    if kw_at_and_ws(s, 0, "UPDATE"@) {
        let t = text::skip_ws(s, 6);
        match table_quoted(s, t) {
            Some((a, b, n)) if update_tail(s, n) is Some => {
                let (x, y, z) = update_tail(s, n)->0;
                Some((a, b, x, y, z))
            },
            _ => match table_bare(s, t) {
                Some((a, b, n)) if update_tail(s, n) is Some => {
                    let (x, y, z) = update_tail(s, n)->0;
                    Some((a, b, x, y, z))
                },
                _ => None,
            },
        }
    } else {
        None
    }
}

pub proof fn lemma_first_where_from(s: Seq<char>, k: int)
    requires
        0 <= k,
    ensures
        first_where_from(s, k) matches Some(x) ==> k <= x < s.len() && where_at(s, x),
    decreases s.len() - k,
{
    if k < s.len() && !where_at(s, k) {
        lemma_first_where_from(s, k + 1);
    }
}

fn first_where_from_exec(s: &Vec<char>, k: usize) -> (r: Option<usize>)
    ensures
        same_pos(r, first_where_from(s@, k as int)),
        r matches Some(x) ==> k <= x < s.len(),
{
    let mut j: usize = k;
    while j < s.len()
        invariant
            k <= j,
            first_where_from(s@, j as int) == first_where_from(s@, k as int),
        decreases s.len() - j,
    {
        if where_to_end_exec(s, j).is_some() {
            return Some(j);
        }
        j = j + 1;
    }
    None
}

fn set_start_exec(s: &Vec<char>, lo: usize, st: usize) -> (r: Option<usize>)
    requires
        st <= s.len(),
        lo >= 1,
        st + 1 >= lo,
    ensures
        same_pos(r, set_start(s@, lo as int, st as int)),
        r matches Some(x) ==> lo <= x <= st && x < s.len() && first_where_from(s@, x + 1) is Some,
{
    let mut j: usize = st;
    while j >= lo
        invariant
            lo >= 1,
            j <= st <= s.len(),
            j + 1 >= lo,
            set_start(s@, lo as int, j as int) == set_start(s@, lo as int, st as int),
        decreases j,
    {
        if j < s.len() {
            if first_where_from_exec(s, j + 1).is_some() {
                return Some(j);
            }
        } else {
            assert(first_where_from(s@, j + 1) is None);
        }
        j = j - 1;
    }
    None
}

pub struct UpdateCaps {
    pub table_lo: usize,
    pub table_hi: usize,
    pub set_lo: usize,
    pub set_hi: usize,
    pub where_lo: usize,
}

pub open spec fn update_caps_are(r: Option<UpdateCaps>, o: Option<(int, int, int, int, int)>) -> bool {
    match r {
        Some(c) => o == Some(
            (
                c.table_lo as int,
                c.table_hi as int,
                c.set_lo as int,
                c.set_hi as int,
                c.where_lo as int,
            ),
        ),
        None => o is None,
    }
}

fn update_tail_exec(s: &Vec<char>, n: usize) -> (r: Option<(usize, usize, usize)>)
    requires
        n <= s.len(),
    ensures
        match r {
            Some((x, y, z)) => update_tail(s@, n as int) == Some((x as int, y as int, z as int))
                && x <= y <= s.len() && z <= s.len(),
            None => update_tail(s@, n as int) is None,
        },
{
    proof {
        reveal_strlit("SET");
    }
    if !is_ws_at_exec(s, n) {
        return None;
    }
    let a = text::skip_ws_exec(s, n);
    if !kw_at_and_ws_exec(s, a, "SET") {
        return None;
    }
    let b = a + 3;
    let m = text::skip_ws_exec(s, b);
    match set_start_exec(s, b + 1, m) {
        Some(st) => {
            proof {
                reveal_strlit("WHERE");
            }
            let k = match first_where_from_exec(s, st + 1) {
                Some(k) => k,
                None => return None,
            };
            proof {
                lemma_first_where_from(s@, st + 1);
            }
            let w = match where_to_end_exec(s, k) {
                Some(w) => w,
                None => return None,
            };
            Some((st, k, w))
        },
        None => None,
    }
}

pub fn update_match_exec(s: &Vec<char>) -> (r: Option<UpdateCaps>)
    ensures
        update_caps_are(r, update_match(s@)),
        r matches Some(c) ==> c.table_lo <= c.table_hi <= s.len() && c.set_lo <= c.set_hi
            <= s.len() && c.where_lo <= s.len(),
{
    proof {
        reveal_strlit("UPDATE");
    }
    if !kw_at_and_ws_exec(s, 0, "UPDATE") {
        return None;
    }
    let t = text::skip_ws_exec(s, 6);
    if let Some((a, b, n)) = table_quoted_exec(s, t) {
        if let Some((x, y, z)) = update_tail_exec(s, n) {
            return Some(
                UpdateCaps { table_lo: a, table_hi: b, set_lo: x, set_hi: y, where_lo: z },
            );
        }
    }
    if let Some((a, b, n)) = table_bare_exec(s, t) {
        if let Some((x, y, z)) = update_tail_exec(s, n) {
            return Some(
                UpdateCaps { table_lo: a, table_hi: b, set_lo: x, set_hi: y, where_lo: z },
            );
        }
    }
    None
}

// ---------------------------------------------------------------------------
// INSERT INTO <table> (<columns>) VALUES (<values>)
// ---------------------------------------------------------------------------
/// The first `)` at or after `k` that only whitespace follows.
pub open spec fn first_close_to_end(s: Seq<char>, k: int) -> Option<int>
    decreases s.len() - k,
{
    if k < 0 || k >= s.len() {
        None
    } else if s[k] == ')' && text::ws_to_end(s, k + 1) {
        Some(k)
    } else {
        first_close_to_end(s, k + 1)
    }
}

/// `\s*VALUES\s*\((.+?)\)\s*$` from `x`: the bounds of the values list.
pub open spec fn values_at(s: Seq<char>, x: int) -> Option<(int, int)> {
    let v = text::skip_ws(s, x);
    if text::kw_at(s, v, "VALUES"@) {
        let w = text::skip_ws(s, v + 6);
        if char_at(s, w, '(') {
            match first_close_to_end(s, w + 2) {
                Some(k) => Some((w + 1, k)),
                None => None,
            }
        } else {
            None
        }
    } else {
        None
    }
}

/// The first `)` at or after `k` that a VALUES list follows: the lazy end
/// of the column list.
pub open spec fn first_cols_close(s: Seq<char>, k: int) -> Option<int>
    decreases s.len() - k,
{
    if k < 0 || k >= s.len() {
        None
    } else if s[k] == ')' && values_at(s, k + 1) is Some {
        Some(k)
    } else {
        first_cols_close(s, k + 1)
    }
}

/// `\s*\((.+?)\)\s*VALUES\s*\((.+?)\)\s*$` from `n`: the bounds of the
/// column list and of the values list.
pub open spec fn insert_tail(s: Seq<char>, n: int) -> Option<(int, int, int, int)> {
    let p = text::skip_ws(s, n);
    if char_at(s, p, '(') {
        match first_cols_close(s, p + 2) {
            Some(k) => {
                let (a, b) = values_at(s, k + 1)->0;
                Some((p + 1, k, a, b))
            },
            None => None,
        }
    } else {
        None
    }
}

/// An unquoted table name followed by `\s*\(` may give back characters:
/// the longest prefix of the run, from `e` down, after which the rest matches.
pub open spec fn insert_bare(s: Seq<char>, t: int, e: int) -> Option<(int, (int, int, int, int))>
    decreases e - t,
{
    if e <= t {
        None
    } else if insert_tail(s, e) is Some {
        Some((e, insert_tail(s, e)->0))
    } else {
        insert_bare(s, t, e - 1)
    }
}

/// An INSERT statement: (table start, table end, columns start, columns
/// end, values start, values end).
pub open spec fn insert_match(s: Seq<char>) -> Option<(int, int, int, int, int, int)> {
    if kw_at_and_ws(s, 0, "INSERT"@) {
        let a = text::skip_ws(s, 6);
        if kw_at_and_ws(s, a, "INTO"@) {
            let t = text::skip_ws(s, a + 4);
            match table_quoted(s, t) {
                Some((x, y, n)) if insert_tail(s, n) is Some => {
                    let (c0, c1, v0, v1) = insert_tail(s, n)->0;
                    Some((x, y, c0, c1, v0, v1))
                },
                _ => match insert_bare(s, t, text::nonws_end(s, t)) {
                    Some((e, (c0, c1, v0, v1))) => Some((t, e, c0, c1, v0, v1)),
                    None => None,
                },
            }
        } else {
            None
        }
    } else {
        None
    }
}

pub proof fn lemma_first_close_to_end(s: Seq<char>, k: int)
    requires
        0 <= k,
    ensures
        first_close_to_end(s, k) matches Some(x) ==> k <= x < s.len(),
    decreases s.len() - k,
{
    if k < s.len() && !(s[k] == ')' && text::ws_to_end(s, k + 1)) {
        lemma_first_close_to_end(s, k + 1);
    }
}

pub proof fn lemma_first_cols_close(s: Seq<char>, k: int)
    requires
        0 <= k,
    ensures
        first_cols_close(s, k) matches Some(x) ==> k <= x < s.len() && values_at(s, x + 1) is Some,
    decreases s.len() - k,
{
    if k < s.len() && !(s[k] == ')' && values_at(s, k + 1) is Some) {
        lemma_first_cols_close(s, k + 1);
    }
}

fn first_close_to_end_exec(s: &Vec<char>, k: usize) -> (r: Option<usize>)
    ensures
        same_pos(r, first_close_to_end(s@, k as int)),
        r matches Some(x) ==> k <= x < s.len(),
{
    let mut j: usize = k;
    while j < s.len()
        invariant
            k <= j,
            first_close_to_end(s@, j as int) == first_close_to_end(s@, k as int),
        decreases s.len() - j,
    {
        if s[j] == ')' && text::skip_ws_exec(s, j + 1) == s.len() {
            return Some(j);
        }
        j = j + 1;
    }
    None
}

fn values_at_exec(s: &Vec<char>, x: usize) -> (r: Option<(usize, usize)>)
    requires
        x <= s.len(),
    ensures
        match r {
            Some((a, b)) => values_at(s@, x as int) == Some((a as int, b as int)) && a <= b
                < s.len(),
            None => values_at(s@, x as int) is None,
        },
{
    proof {
        reveal_strlit("VALUES");
    }
    let v = text::skip_ws_exec(s, x);
    if !text::kw_at_exec(s, v, "VALUES") {
        return None;
    }
    let w = text::skip_ws_exec(s, v + 6);
    if !char_at_exec(s, w, '(') {
        return None;
    }
    if w + 1 >= s.len() {
        return None;
    }
    match first_close_to_end_exec(s, w + 2) {
        Some(k) => Some((w + 1, k)),
        None => None,
    }
}

fn first_cols_close_exec(s: &Vec<char>, k: usize) -> (r: Option<usize>)
    ensures
        same_pos(r, first_cols_close(s@, k as int)),
        r matches Some(x) ==> k <= x < s.len(),
{
    let mut j: usize = k;
    while j < s.len()
        invariant
            k <= j,
            first_cols_close(s@, j as int) == first_cols_close(s@, k as int),
        decreases s.len() - j,
    {
        if s[j] == ')' && values_at_exec(s, j + 1).is_some() {
            return Some(j);
        }
        j = j + 1;
    }
    None
}

fn insert_tail_exec(s: &Vec<char>, n: usize) -> (r: Option<(usize, usize, usize, usize)>)
    requires
        n <= s.len(),
    ensures
        match r {
            Some((a, b, c, d)) => insert_tail(s@, n as int) == Some(
                (a as int, b as int, c as int, d as int),
            ) && a <= b <= s.len() && c <= d <= s.len(),
            None => insert_tail(s@, n as int) is None,
        },
{
    let p = text::skip_ws_exec(s, n);
    if !char_at_exec(s, p, '(') {
        return None;
    }
    if p + 1 >= s.len() {
        return None;
    }
    match first_cols_close_exec(s, p + 2) {
        Some(k) => {
            proof {
                lemma_first_cols_close(s@, p + 2);
            }
            match values_at_exec(s, k + 1) {
                Some((a, b)) => Some((p + 1, k, a, b)),
                None => None,
            }
        },
        None => None,
    }
}

fn insert_bare_exec(s: &Vec<char>, t: usize, e: usize) -> (r: Option<
    (usize, (usize, usize, usize, usize)),
>)
    requires
        t <= e <= s.len(),
    ensures
        match r {
            Some((x, (a, b, c, d))) => insert_bare(s@, t as int, e as int) == Some(
                (x as int, (a as int, b as int, c as int, d as int)),
            ) && t <= x <= s.len() && a <= b <= s.len() && c <= d <= s.len(),
            None => insert_bare(s@, t as int, e as int) is None,
        },
{
    let mut j: usize = e;
    while j > t
        invariant
            t <= j <= e <= s.len(),
            insert_bare(s@, t as int, j as int) == insert_bare(s@, t as int, e as int),
        decreases j,
    {
        if let Some(caps) = insert_tail_exec(s, j) {
            return Some((j, caps));
        }
        j = j - 1;
    }
    None
}

pub struct InsertCaps {
    pub table_lo: usize,
    pub table_hi: usize,
    pub cols_lo: usize,
    pub cols_hi: usize,
    pub vals_lo: usize,
    pub vals_hi: usize,
}

pub open spec fn insert_caps_are(r: Option<InsertCaps>, o: Option<(int, int, int, int, int, int)>) -> bool {
    match r {
        Some(c) => o == Some(
            (
                c.table_lo as int,
                c.table_hi as int,
                c.cols_lo as int,
                c.cols_hi as int,
                c.vals_lo as int,
                c.vals_hi as int,
            ),
        ),
        None => o is None,
    }
}

pub fn insert_match_exec(s: &Vec<char>) -> (r: Option<InsertCaps>)
    ensures
        insert_caps_are(r, insert_match(s@)),
        r matches Some(c) ==> c.table_lo <= c.table_hi <= s.len() && c.cols_lo <= c.cols_hi
            <= s.len() && c.vals_lo <= c.vals_hi <= s.len(),
{
    proof {
        reveal_strlit("INSERT");
        reveal_strlit("INTO");
    }
    if !kw_at_and_ws_exec(s, 0, "INSERT") {
        return None;
    }
    let a = text::skip_ws_exec(s, 6);
    if !kw_at_and_ws_exec(s, a, "INTO") {
        return None;
    }
    let t = text::skip_ws_exec(s, a + 4);
    if let Some((x, y, n)) = table_quoted_exec(s, t) {
        if let Some((c0, c1, v0, v1)) = insert_tail_exec(s, n) {
            return Some(
                InsertCaps {
                    table_lo: x,
                    table_hi: y,
                    cols_lo: c0,
                    cols_hi: c1,
                    vals_lo: v0,
                    vals_hi: v1,
                },
            );
        }
    }
    let e = text::nonws_end_exec(s, t);
    match insert_bare_exec(s, t, e) {
        Some((e2, (c0, c1, v0, v1))) => Some(
            InsertCaps {
                table_lo: t,
                table_hi: e2,
                cols_lo: c0,
                cols_hi: c1,
                vals_lo: v0,
                vals_hi: v1,
            },
        ),
        None => None,
    }
}

// ---------------------------------------------------------------------------
// SELECT [DISTINCT] <columns> FROM <table> [WHERE ..] [ORDER BY ..]
//        [LIMIT n] [OFFSET m]
// (an ORDER BY clause is recognised so that a sorting SELECT is refused)
// ---------------------------------------------------------------------------
pub open spec fn same_span(r: Option<(usize, usize)>, o: Option<(int, int)>) -> bool {
    match r {
        Some((a, b)) => o == Some((a as int, b as int)),
        None => o is None,
    }
}

/// `\s+OFFSET\s+(\d+)\s*$` at `n`: the digits.
pub open spec fn offset_present(s: Seq<char>, n: int) -> Option<(int, int)> {
    if is_ws_at(s, n) && kw_at_and_ws(s, text::skip_ws(s, n), "OFFSET"@) {
        let d = text::skip_ws(s, text::skip_ws(s, n) + 6);
        let de = digit_end(s, d);
        if de > d && text::ws_to_end(s, de) {
            Some((d, de))
        } else {
            None
        }
    } else {
        None
    }
}

/// `(?:\s+OFFSET\s+(\d+))?\s*$` at `n`.
pub open spec fn offset_tail(s: Seq<char>, n: int) -> Option<Option<(int, int)>> {
    match offset_present(s, n) {
        Some(p) => Some(Some(p)),
        None => if text::ws_to_end(s, n) {
            Some(None)
        } else {
            None
        },
    }
}

/// `\s+LIMIT\s+(\d+)` at `n` with the rest of the statement after it.
pub open spec fn limit_present(s: Seq<char>, n: int) -> Option<((int, int), Option<(int, int)>)> {
    if is_ws_at(s, n) && kw_at_and_ws(s, text::skip_ws(s, n), "LIMIT"@) {
        let d = text::skip_ws(s, text::skip_ws(s, n) + 5);
        let de = digit_end(s, d);
        if de > d && offset_tail(s, de) is Some {
            Some(((d, de), offset_tail(s, de)->0))
        } else {
            None
        }
    } else {
        None
    }
}

/// `(?:\s+LIMIT\s+(\d+))?(?:\s+OFFSET\s+(\d+))?\s*$` at `n`.
pub open spec fn limit_tail(s: Seq<char>, n: int) -> Option<(Option<(int, int)>, Option<(int, int)>)> {
    match limit_present(s, n) {
        Some((l, o)) => Some((Some(l), o)),
        None => match offset_tail(s, n) {
            Some(o) => Some((None, o)),
            None => None,
        },
    }
}

/// The first position at or after `k` (up to the end) where the LIMIT and
/// OFFSET part matches.
pub open spec fn first_limit_from(s: Seq<char>, k: int) -> Option<int>
    decreases s.len() - k + 1,
{
    if k < 0 || k > s.len() {
        None
    } else if limit_tail(s, k) is Some {
        Some(k)
    } else {
        first_limit_from(s, k + 1)
    }
}

/// `\s+ORDER\s+BY\s+.+?` at `n`: where the LIMIT and OFFSET part starts.
/// The lazy sort key takes at least one character; when only whitespace
/// is left, the greedy `\s+` before it gives one back.
pub open spec fn order_present(s: Seq<char>, n: int) -> Option<int> {
    if is_ws_at(s, n) && kw_at_and_ws(s, text::skip_ws(s, n), "ORDER"@) {
        let b = text::skip_ws(s, text::skip_ws(s, n) + 5);
        if kw_at_and_ws(s, b, "BY"@) {
            let m = text::skip_ws(s, b + 2);
            if m < s.len() {
                first_limit_from(s, m + 1)
            } else if m >= b + 4 {
                first_limit_from(s, m)
            } else {
                None
            }
        } else {
            None
        }
    } else {
        None
    }
}

/// `(?:\s+ORDER\s+BY\s+.+?)?` then the LIMIT and OFFSET part, at `n`.
pub open spec fn order_tail(s: Seq<char>, n: int) -> Option<(Option<(int, int)>, Option<(int, int)>)> {
    match order_present(s, n) {
        Some(k) => limit_tail(s, k),
        None => limit_tail(s, n),
    }
}

/// The lazy end of the WHERE condition: the first position at or after
/// `k` where the optional ORDER BY, LIMIT and OFFSET parts match.
pub open spec fn first_order_from(s: Seq<char>, k: int) -> Option<int>
    decreases s.len() - k + 1,
{
    if k < 0 || k > s.len() {
        None
    } else if order_tail(s, k) is Some {
        Some(k)
    } else {
        first_order_from(s, k + 1)
    }
}

/// Everything after the table name, at `n`: the WHERE condition, the LIMIT
/// digits and the OFFSET digits.
pub open spec fn select_tail(s: Seq<char>, n: int) -> Option<
    (Option<(int, int)>, Option<(int, int)>, Option<(int, int)>),
> {
    if is_ws_at(s, n) && kw_at_and_ws(s, text::skip_ws(s, n), "WHERE"@) {
        let p = text::skip_ws(s, text::skip_ws(s, n) + 5);
        match first_order_from(s, p) {
            Some(k) => {
                let (l, o) = order_tail(s, k)->0;
                Some((Some((p, k)), l, o))
            },
            None => None,
        }
    } else {
        match order_tail(s, n) {
            Some((l, o)) => Some((None, l, o)),
            None => None,
        }
    }
}

/// `\s+FROM\s+<table>` and the rest of the statement, when the column list
/// ends at `e`: the table bounds and the tail.
pub open spec fn select_from(s: Seq<char>, e: int) -> Option<
    (int, int, (Option<(int, int)>, Option<(int, int)>, Option<(int, int)>)),
> {
    if is_ws_at(s, e) && kw_at_and_ws(s, text::skip_ws(s, e), "FROM"@) {
        let t = text::skip_ws(s, text::skip_ws(s, e) + 4);
        match table_quoted(s, t) {
            Some((a, b, n)) if select_tail(s, n) is Some => Some((a, b, select_tail(s, n)->0)),
            _ => match table_bare(s, t) {
                Some((a, b, n)) if select_tail(s, n) is Some => Some(
                    (a, b, select_tail(s, n)->0),
                ),
                _ => None,
            },
        }
    } else {
        None
    }
}

/// The lazy end of the column list: the first position at or after `e`
/// where the rest of the statement matches.
pub open spec fn first_select_from(s: Seq<char>, e: int) -> Option<int>
    decreases s.len() - e,
{
    if e < 0 || e >= s.len() {
        None
    } else if select_from(s, e) is Some {
        Some(e)
    } else {
        first_select_from(s, e + 1)
    }
}

/// The start and end of the column list: the greedy `\s+` before it gives
/// back characters, from `st` down to `lo`, until the list can end.
pub open spec fn select_pick(s: Seq<char>, lo: int, st: int) -> Option<(int, int)>
    decreases st - lo + 1,
{
    if st < lo {
        None
    } else {
        match first_select_from(s, st + 1) {
            Some(e) => Some((st, e)),
            None => select_pick(s, lo, st - 1),
        }
    }
}

/// The column list of a SELECT statement, after `SELECT\s+(?:DISTINCT\s+)?`.
pub open spec fn select_columns(s: Seq<char>) -> Option<(int, int)> {
    if kw_at_and_ws(s, 0, "SELECT"@) {
        let p0 = text::skip_ws(s, 6);
        let with_distinct = if kw_at_and_ws(s, p0, "DISTINCT"@) {
            select_pick(s, p0 + 9, text::skip_ws(s, p0 + 8))
        } else {
            None
        };
        match with_distinct {
            Some(r) => Some(r),
            None => select_pick(s, 7, p0),
        }
    } else {
        None
    }
}

/// A SELECT statement: (column list, table, WHERE, LIMIT digits, OFFSET digits).
pub open spec fn select_match(s: Seq<char>) -> Option<
    ((int, int), (int, int), Option<(int, int)>, Option<(int, int)>, Option<(int, int)>),
> {
    match select_columns(s) {
        Some((st, e)) => {
            let (a, b, (w, l, o)) = select_from(s, e)->0;
            Some(((st, e), (a, b), w, l, o))
        },
        None => None,
    }
}

pub proof fn lemma_first_limit_from(s: Seq<char>, k: int)
    requires
        0 <= k,
    ensures
        first_limit_from(s, k) matches Some(x) ==> k <= x <= s.len() && limit_tail(s, x) is Some,
        k <= s.len() ==> first_limit_from(s, k) is Some,
    decreases s.len() - k + 1,
{
    if k <= s.len() && limit_tail(s, k) is None {
        lemma_first_limit_from(s, k + 1);
        if k == s.len() {
            text::lemma_skip_ws(s, k);
            assert(offset_tail(s, k) is Some);
        }
    }
}

pub proof fn lemma_first_order_from(s: Seq<char>, k: int)
    requires
        0 <= k,
    ensures
        first_order_from(s, k) matches Some(x) ==> k <= x <= s.len() && order_tail(s, x) is Some,
    decreases s.len() - k + 1,
{
    if k <= s.len() && order_tail(s, k) is None {
        lemma_first_order_from(s, k + 1);
    }
}

pub proof fn lemma_first_select_from(s: Seq<char>, e: int)
    requires
        0 <= e,
    ensures
        first_select_from(s, e) matches Some(x) ==> e <= x < s.len() && select_from(s, x) is Some,
    decreases s.len() - e,
{
    if e < s.len() && select_from(s, e) is None {
        lemma_first_select_from(s, e + 1);
    }
}

pub proof fn lemma_select_pick(s: Seq<char>, lo: int, st: int)
    requires
        0 <= lo,
    ensures
        select_pick(s, lo, st) matches Some((a, e)) ==> lo <= a <= st && a < e < s.len()
            && select_from(s, e) is Some,
    decreases st - lo + 1,
{
    if st >= lo {
        lemma_first_select_from(s, st + 1);
        if first_select_from(s, st + 1) is None {
            lemma_select_pick(s, lo, st - 1);
        }
    }
}

fn offset_present_exec(s: &Vec<char>, n: usize) -> (r: Option<(usize, usize)>)
    requires
        n <= s.len(),
    ensures
        same_span(r, offset_present(s@, n as int)),
        r matches Some((a, b)) ==> a <= b <= s.len(),
{
    proof {
        reveal_strlit("OFFSET");
    }
    if !is_ws_at_exec(s, n) {
        return None;
    }
    let o = text::skip_ws_exec(s, n);
    if !kw_at_and_ws_exec(s, o, "OFFSET") {
        return None;
    }
    let d = text::skip_ws_exec(s, o + 6);
    let de = digit_end_exec(s, d);
    if de > d && text::skip_ws_exec(s, de) == s.len() {
        Some((d, de))
    } else {
        None
    }
}

fn offset_tail_exec(s: &Vec<char>, n: usize) -> (r: Option<Option<(usize, usize)>>)
    requires
        n <= s.len(),
    ensures
        match r {
            Some(x) => offset_tail(s@, n as int) matches Some(y) && same_span(x, y) && (x matches Some(
                (a, b),
            ) ==> a <= b <= s.len()),
            None => offset_tail(s@, n as int) is None,
        },
{
    match offset_present_exec(s, n) {
        Some(p) => Some(Some(p)),
        None => if text::skip_ws_exec(s, n) == s.len() {
            Some(None)
        } else {
            None
        },
    }
}

pub open spec fn same_limit_offset(
    r: (Option<(usize, usize)>, Option<(usize, usize)>),
    o: (Option<(int, int)>, Option<(int, int)>),
    len: nat,
) -> bool {
    &&& same_span(r.0, o.0)
    &&& same_span(r.1, o.1)
    &&& r.0 matches Some((a, b)) ==> a <= b <= len
    &&& r.1 matches Some((a, b)) ==> a <= b <= len
}

fn limit_tail_exec(s: &Vec<char>, n: usize) -> (r: Option<
    (Option<(usize, usize)>, Option<(usize, usize)>),
>)
    requires
        n <= s.len(),
    ensures
        match r {
            Some(x) => limit_tail(s@, n as int) matches Some(y) && same_limit_offset(x, y, s@.len()),
            None => limit_tail(s@, n as int) is None,
        },
{
    proof {
        reveal_strlit("LIMIT");
    }
    if is_ws_at_exec(s, n) {
        let l = text::skip_ws_exec(s, n);
        if kw_at_and_ws_exec(s, l, "LIMIT") {
            let d = text::skip_ws_exec(s, l + 5);
            let de = digit_end_exec(s, d);
            if de > d {
                if let Some(o) = offset_tail_exec(s, de) {
                    return Some((Some((d, de)), o));
                }
            }
        }
    }
    match offset_tail_exec(s, n) {
        Some(o) => Some((None, o)),
        None => None,
    }
}

fn first_limit_from_exec(s: &Vec<char>, k: usize) -> (r: Option<usize>)
    requires
        k <= s.len(),
    ensures
        same_pos(r, first_limit_from(s@, k as int)),
        r matches Some(x) ==> k <= x <= s.len(),
{
    let mut j: usize = k;
    loop
        invariant
            k <= j <= s.len(),
            first_limit_from(s@, j as int) == first_limit_from(s@, k as int),
        decreases s.len() - j,
    {
        if limit_tail_exec(s, j).is_some() {
            return Some(j);
        }
        if j == s.len() {
            assert(first_limit_from(s@, j + 1) is None);
            return None;
        }
        j = j + 1;
    }
}

pub fn order_present_exec(s: &Vec<char>, n: usize) -> (r: Option<usize>)
    requires
        n <= s.len(),
    ensures
        same_pos(r, order_present(s@, n as int)),
        r matches Some(x) ==> x <= s.len(),
{
    proof {
        reveal_strlit("ORDER");
        reveal_strlit("BY");
    }
    if !is_ws_at_exec(s, n) {
        return None;
    }
    let o = text::skip_ws_exec(s, n);
    if !kw_at_and_ws_exec(s, o, "ORDER") {
        return None;
    }
    let b = text::skip_ws_exec(s, o + 5);
    if !kw_at_and_ws_exec(s, b, "BY") {
        return None;
    }
    let m = text::skip_ws_exec(s, b + 2);
    if m < s.len() {
        first_limit_from_exec(s, m + 1)
    } else if m - b >= 4 {
        first_limit_from_exec(s, m)
    } else {
        None
    }
}

fn order_tail_exec(s: &Vec<char>, n: usize) -> (r: Option<
    (Option<(usize, usize)>, Option<(usize, usize)>),
>)
    requires
        n <= s.len(),
    ensures
        match r {
            Some(x) => order_tail(s@, n as int) matches Some(y) && same_limit_offset(x, y, s@.len()),
            None => order_tail(s@, n as int) is None,
        },
{
    match order_present_exec(s, n) {
        Some(k) => limit_tail_exec(s, k),
        None => limit_tail_exec(s, n),
    }
}

fn first_order_from_exec(s: &Vec<char>, k: usize) -> (r: Option<usize>)
    requires
        k <= s.len(),
    ensures
        same_pos(r, first_order_from(s@, k as int)),
        r matches Some(x) ==> k <= x <= s.len(),
{
    let mut j: usize = k;
    loop
        invariant
            k <= j <= s.len(),
            first_order_from(s@, j as int) == first_order_from(s@, k as int),
        decreases s.len() - j,
    {
        if order_tail_exec(s, j).is_some() {
            return Some(j);
        }
        if j == s.len() {
            assert(first_order_from(s@, j + 1) is None);
            return None;
        }
        j = j + 1;
    }
}

pub struct SelectTailCaps {
    pub where_span: Option<(usize, usize)>,
    pub limit_span: Option<(usize, usize)>,
    pub offset_span: Option<(usize, usize)>,
}

pub open spec fn select_tail_is(
    r: SelectTailCaps,
    o: (Option<(int, int)>, Option<(int, int)>, Option<(int, int)>),
    len: nat,
) -> bool {
    &&& same_span(r.where_span, o.0)
    &&& same_span(r.limit_span, o.1)
    &&& same_span(r.offset_span, o.2)
    &&& r.where_span matches Some((a, b)) ==> a <= b <= len
    &&& r.limit_span matches Some((a, b)) ==> a <= b <= len
    &&& r.offset_span matches Some((a, b)) ==> a <= b <= len
}

fn select_tail_exec(s: &Vec<char>, n: usize) -> (r: Option<SelectTailCaps>)
    requires
        n <= s.len(),
    ensures
        match r {
            Some(x) => select_tail(s@, n as int) matches Some(y) && select_tail_is(x, y, s@.len()),
            None => select_tail(s@, n as int) is None,
        },
{
    proof {
        reveal_strlit("WHERE");
    }
    if is_ws_at_exec(s, n) {
        let w = text::skip_ws_exec(s, n);
        if kw_at_and_ws_exec(s, w, "WHERE") {
            let p = text::skip_ws_exec(s, w + 5);
            match first_order_from_exec(s, p) {
                Some(k) => {
                    proof {
                        lemma_first_order_from(s@, p as int);
                    }
                    match order_tail_exec(s, k) {
                        Some((l, o)) => {
                            return Some(
                                SelectTailCaps {
                                    where_span: Some((p, k)),
                                    limit_span: l,
                                    offset_span: o,
                                },
                            );
                        },
                        None => {
                            return None;
                        },
                    }
                },
                None => {
                    return None;
                },
            }
        }
    }
    match order_tail_exec(s, n) {
        Some((l, o)) => Some(SelectTailCaps { where_span: None, limit_span: l, offset_span: o }),
        None => None,
    }
}

fn select_from_exec(s: &Vec<char>, e: usize) -> (r: Option<(usize, usize, SelectTailCaps)>)
    requires
        e <= s.len(),
    ensures
        match r {
            Some((a, b, x)) => select_from(s@, e as int) matches Some((a2, b2, y)) && a2 == a
                && b2 == b && a <= b <= s.len() && select_tail_is(x, y, s@.len()),
            None => select_from(s@, e as int) is None,
        },
{
    proof {
        reveal_strlit("FROM");
    }
    if !is_ws_at_exec(s, e) {
        return None;
    }
    let f = text::skip_ws_exec(s, e);
    if !kw_at_and_ws_exec(s, f, "FROM") {
        return None;
    }
    let t = text::skip_ws_exec(s, f + 4);
    if let Some((a, b, n)) = table_quoted_exec(s, t) {
        if let Some(x) = select_tail_exec(s, n) {
            return Some((a, b, x));
        }
    }
    if let Some((a, b, n)) = table_bare_exec(s, t) {
        if let Some(x) = select_tail_exec(s, n) {
            return Some((a, b, x));
        }
    }
    None
}

fn first_select_from_exec(s: &Vec<char>, e: usize) -> (r: Option<usize>)
    requires
        e <= s.len(),
    ensures
        same_pos(r, first_select_from(s@, e as int)),
{
    let mut j: usize = e;
    while j < s.len()
        invariant
            e <= j <= s.len(),
            first_select_from(s@, j as int) == first_select_from(s@, e as int),
        decreases s.len() - j,
    {
        if select_from_exec(s, j).is_some() {
            return Some(j);
        }
        j = j + 1;
    }
    None
}

fn select_pick_exec(s: &Vec<char>, lo: usize, st: usize) -> (r: Option<(usize, usize)>)
    requires
        st <= s.len(),
        lo >= 1,
        st + 1 >= lo,
    ensures
        same_span(r, select_pick(s@, lo as int, st as int)),
{
    let mut j: usize = st;
    while j >= lo
        invariant
            lo >= 1,
            j <= st <= s.len(),
            j + 1 >= lo,
            select_pick(s@, lo as int, j as int) == select_pick(s@, lo as int, st as int),
        decreases j,
    {
        if j < s.len() {
            if let Some(e) = first_select_from_exec(s, j + 1) {
                return Some((j, e));
            }
        } else {
            assert(first_select_from(s@, j + 1) is None);
        }
        j = j - 1;
    }
    None
}

pub struct SelectCaps {
    pub cols_lo: usize,
    pub cols_hi: usize,
    pub table_lo: usize,
    pub table_hi: usize,
    pub tail: SelectTailCaps,
}

pub open spec fn select_caps_are(
    r: Option<SelectCaps>,
    o: Option<((int, int), (int, int), Option<(int, int)>, Option<(int, int)>, Option<(int, int)>)>,
    len: nat,
) -> bool {
    match r {
        Some(c) => o matches Some((cols, tab, w, l, f)) && cols == (c.cols_lo as int, c.cols_hi as int)
            && tab == (c.table_lo as int, c.table_hi as int) && select_tail_is(c.tail, (w, l, f), len)
            && c.cols_lo <= c.cols_hi <= len && c.table_lo <= c.table_hi <= len,
        None => o is None,
    }
}

pub fn select_match_exec(s: &Vec<char>) -> (r: Option<SelectCaps>)
    ensures
        select_caps_are(r, select_match(s@), s@.len()),
{
    proof {
        reveal_strlit("SELECT");
        reveal_strlit("DISTINCT");
    }
    if !kw_at_and_ws_exec(s, 0, "SELECT") {
        return None;
    }
    let p0 = text::skip_ws_exec(s, 6);
    let mut picked: Option<(usize, usize)> = None;
    if kw_at_and_ws_exec(s, p0, "DISTINCT") {
        let d0 = text::skip_ws_exec(s, p0 + 8);
        picked = select_pick_exec(s, p0 + 9, d0);
    }
    if picked.is_none() {
        picked = select_pick_exec(s, 7, p0);
    }
    assert(same_span(picked, select_columns(s@)));
    match picked {
        Some((st, e)) => {
            proof {
                if kw_at_and_ws(s@, p0 as int, "DISTINCT"@) {
                    lemma_select_pick(s@, p0 + 9, text::skip_ws(s@, p0 + 8));
                }
                lemma_select_pick(s@, 7, p0 as int);
            }
            match select_from_exec(s, e) {
                Some((a, b, x)) => Some(
                    SelectCaps { cols_lo: st, cols_hi: e, table_lo: a, table_hi: b, tail: x },
                ),
                None => None,
            }
        },
        None => None,
    }
}

} // verus!
