//! Readers for the parts of a statement: comma lists, quoted names, the
//! VALUES list and the SET assignments, and the string maps they fill.
use vstd::prelude::*;
use crate::text;
use crate::pattern;
use crate::sql::grammar;

verus! {

// ---------------------------------------------------------------------------
// Maps of strings kept as lists of pairs with distinct keys
// ---------------------------------------------------------------------------
/// The pairs as (key, value) character sequences.
pub open spec fn pairs_view(v: Seq<(String, String)>) -> Seq<(Seq<char>, Seq<char>)> {
    v.map_values(|p: (String, String)| (p.0@, p.1@))
}

/// The map that inserting the pairs in order builds (a later key wins).
pub open spec fn pairs_to_map(ps: Seq<(Seq<char>, Seq<char>)>) -> Map<Seq<char>, Seq<char>>
    decreases ps.len(),
{
    if ps.len() == 0 {
        Map::empty()
    } else {
        pairs_to_map(ps.drop_last()).insert(ps.last().0, ps.last().1)
    }
}

pub open spec fn keys_distinct(ps: Seq<(Seq<char>, Seq<char>)>) -> bool {
    forall|i: int, j: int| 0 <= i < j < ps.len() ==> #[trigger] ps[i].0 != #[trigger] ps[j].0
}

pub proof fn lemma_pairs_to_map_distinct(ps: Seq<(Seq<char>, Seq<char>)>)
    requires
        keys_distinct(ps),
    ensures
        forall|k: Seq<char>|
            #[trigger] pairs_to_map(ps).dom().contains(k) <==> exists|i: int|
                0 <= i < ps.len() && ps[i].0 == k,
        forall|i: int| 0 <= i < ps.len() ==> #[trigger] pairs_to_map(ps)[ps[i].0] == ps[i].1,
    decreases ps.len(),
{
    if ps.len() > 0 {
        let q = ps.drop_last();
        let last = ps.last();
        assert(keys_distinct(q));
        lemma_pairs_to_map_distinct(q);
        let mq = pairs_to_map(q);
        assert(pairs_to_map(ps) == mq.insert(last.0, last.1));
        assert forall|k: Seq<char>|
            #[trigger] pairs_to_map(ps).dom().contains(k) <==> exists|i: int|
                0 <= i < ps.len() && ps[i].0 == k by {
            if pairs_to_map(ps).dom().contains(k) {
                if k == last.0 {
                    assert(ps[ps.len() - 1].0 == k);
                } else {
                    assert(mq.dom().contains(k));
                    let i = choose|i: int| 0 <= i < q.len() && q[i].0 == k;
                    assert(ps[i].0 == k);
                }
            }
            if exists|i: int| 0 <= i < ps.len() && ps[i].0 == k {
                let i = choose|i: int| 0 <= i < ps.len() && ps[i].0 == k;
                if i < q.len() {
                    assert(q[i].0 == k);
                    assert(mq.dom().contains(k));
                }
            }
        }
        assert forall|i: int| 0 <= i < ps.len() implies #[trigger] pairs_to_map(ps)[ps[i].0]
            == ps[i].1 by {
            if i < q.len() {
                assert(q[i] == ps[i]);
                assert(ps[i].0 != ps[ps.len() - 1].0);
                assert(mq[q[i].0] == q[i].1);
            }
        }
    }
}

/// The value stored for `k`, the last one given.
pub fn map_get(v: &Vec<(String, String)>, k: &String) -> (r: Option<String>)
    requires
        keys_distinct(pairs_view(v@)),
    ensures
        pairs_to_map(pairs_view(v@)).dom().contains(k@) ==> (r matches Some(x) && x@
            == pairs_to_map(pairs_view(v@))[k@]),
        !pairs_to_map(pairs_view(v@)).dom().contains(k@) ==> r is None,
{
    let ghost ps = pairs_view(v@);
    proof {
        lemma_pairs_to_map_distinct(ps);
    }
    let mut i: usize = 0;
    while i < v.len()
        invariant
            i <= v.len(),
            ps == pairs_view(v@),
            keys_distinct(ps),
            forall|j: int| 0 <= j < i ==> #[trigger] ps[j].0 != k@,
        decreases v.len() - i,
    {
        if v[i].0 == *k {
            assert(ps[i as int] == (v@[i as int].0@, v@[i as int].1@));
            proof {
                lemma_pairs_to_map_distinct(ps);
                assert(pairs_to_map(ps)[ps[i as int].0] == ps[i as int].1);
            }
            return Some(v[i].1.clone());
        }
        i = i + 1;
    }
    proof {
        lemma_pairs_to_map_distinct(ps);
    }
    None
}

/// Inserts `k -> val`, replacing the value of an existing key.
pub fn map_insert(v: &mut Vec<(String, String)>, k: String, val: String)
    requires
        keys_distinct(pairs_view(old(v)@)),
    ensures
        keys_distinct(pairs_view(final(v)@)),
        pairs_to_map(pairs_view(final(v)@)) == pairs_to_map(pairs_view(old(v)@)).insert(k@, val@),
{
    let ghost ps = pairs_view(v@);
    let ghost m = pairs_to_map(ps);
    let mut i: usize = 0;
    while i < v.len()
        invariant
            i <= v.len(),
            ps == pairs_view(v@),
            v@ == old(v)@,
            m == pairs_to_map(ps),
            keys_distinct(ps),
            forall|j: int| 0 <= j < i ==> #[trigger] ps[j].0 != k@,
        decreases v.len() - i,
    {
        if v[i].0 == k {
            let ghost ps2 = ps.update(i as int, (k@, val@));
            v.set(i, (k, val));
            proof {
                assert(pairs_view(v@) =~= ps2);
                assert forall|a: int, b: int| 0 <= a < b < ps2.len() implies #[trigger] ps2[a].0
                    != #[trigger] ps2[b].0 by {
                    if a != i && b != i {
                        assert(ps[a].0 != ps[b].0);
                    } else if a == i {
                        assert(ps[a].0 == k@);
                        assert(ps[a].0 != ps[b].0);
                    } else {
                        assert(ps[b].0 == k@);
                        assert(ps[a].0 != ps[b].0);
                    }
                }
                assert(keys_distinct(ps2));
                lemma_pairs_to_map_distinct(ps);
                lemma_pairs_to_map_distinct(ps2);
                assert(pairs_to_map(ps2) =~= m.insert(k@, val@)) by {
                    assert forall|key: Seq<char>| #[trigger]
                        pairs_to_map(ps2).dom().contains(key) <==> m.insert(
                            k@,
                            val@,
                        ).dom().contains(key) by {
                        if m.insert(k@, val@).dom().contains(key) && key != k@ {
                            assert(m.dom().contains(key));
                            let j = choose|j: int| 0 <= j < ps.len() && ps[j].0 == key;
                            assert(ps2[j].0 == key);
                        }
                        if key == k@ {
                            assert(ps2[i as int].0 == key);
                        }
                        if pairs_to_map(ps2).dom().contains(key) {
                            let j = choose|j: int| 0 <= j < ps2.len() && ps2[j].0 == key;
                            if j != i {
                                assert(ps[j].0 == key);
                            }
                        }
                    }
                    assert forall|key: Seq<char>| #[trigger]
                        pairs_to_map(ps2).dom().contains(key) implies pairs_to_map(ps2)[key]
                        == m.insert(k@, val@)[key] by {
                        let j = choose|j: int| 0 <= j < ps2.len() && ps2[j].0 == key;
                        assert(pairs_to_map(ps2)[ps2[j].0] == ps2[j].1);
                        if j != i {
                            assert(ps[j] == ps2[j]);
                            assert(m[ps[j].0] == ps[j].1);
                            assert(ps[i as int].0 == k@);
                            if j < i {
                                assert(ps[j].0 != ps[i as int].0);
                            } else {
                                assert(ps[i as int].0 != ps[j].0);
                            }
                            assert(key != k@);
                        } else {
                            assert(key == k@);
                            assert(ps2[j].1 == val@);
                        }
                    }
                }
            }
            return;
        }
        i = i + 1;
    }
    let ghost ps2 = ps.push((k@, val@));
    v.push((k, val));
    proof {
        assert(pairs_view(v@) =~= ps2);
        assert(ps2.drop_last() == ps);
        assert(keys_distinct(ps2));
    }
}

// ---------------------------------------------------------------------------
// Comma lists
// ---------------------------------------------------------------------------
/// `str::split(c)`: the pieces between occurrences of `c`, empty ones kept.
pub open spec fn split_on(s: Seq<char>, c: char) -> Seq<Seq<char>>
    decreases s.len(),
{
    if s.len() == 0 {
        seq![Seq::empty()]
    } else {
        let rest = split_on(s.drop_last(), c);
        if s.last() == c {
            rest.push(Seq::empty())
        } else {
            rest.update(rest.len() - 1, rest.last().push(s.last()))
        }
    }
}

pub proof fn lemma_split_on_nonempty(s: Seq<char>, c: char)
    ensures
        split_on(s, c).len() >= 1,
    decreases s.len(),
{
    if s.len() > 0 {
        lemma_split_on_nonempty(s.drop_last(), c);
    }
}

/// The pieces of `v[lo..hi]` between commas.
pub fn split_commas(v: &Vec<char>, lo: usize, hi: usize) -> (r: Vec<Vec<char>>)
    requires
        lo <= hi <= v.len(),
    ensures
        r@.map_values(|p: Vec<char>| p@) == split_on(v@.subrange(lo as int, hi as int), ','),
{
    let ghost s = v@.subrange(lo as int, hi as int);
    let mut done: Vec<Vec<char>> = Vec::new();
    let mut cur: Vec<char> = Vec::new();
    let mut i: usize = lo;
    assert(s.take(0) =~= Seq::<char>::empty());
    assert(done@.map_values(|p: Vec<char>| p@).push(cur@) =~= seq![Seq::<char>::empty()]);
    while i < hi
        invariant
            lo <= i <= hi <= v.len(),
            s == v@.subrange(lo as int, hi as int),
            done@.map_values(|p: Vec<char>| p@).push(cur@) == split_on(s.take(i - lo), ','),
        decreases hi - i,
    {
        let ghost before = s.take(i - lo);
        let ghost pieces = split_on(before, ',');
        assert(s.take(i - lo + 1).drop_last() =~= before);
        assert(s.take(i - lo + 1).last() == v@[i as int]);
        let c = v[i];
        let ghost old_done = done@.map_values(|p: Vec<char>| p@);
        if c == ',' {
            done.push(cur);
            cur = Vec::new();
            assert(done@.map_values(|p: Vec<char>| p@) =~= pieces);
            assert(done@.map_values(|p: Vec<char>| p@).push(cur@) =~= pieces.push(Seq::empty()));
        } else {
            cur.push(c);
            assert(done@.map_values(|p: Vec<char>| p@).push(cur@) =~= pieces.update(
                pieces.len() - 1,
                pieces.last().push(c),
            ));
        }
        i = i + 1;
    }
    assert(s.take(hi - lo) == s);
    done.push(cur);
    proof {
        assert(done@.map_values(|p: Vec<char>| p@) =~= split_on(s, ','));
    }
    done
}

/// The characters of `v[lo..hi]`.
pub fn slice_chars(v: &Vec<char>, lo: usize, hi: usize) -> (r: Vec<char>)
    requires
        lo <= hi <= v.len(),
    ensures
        r@ == v@.subrange(lo as int, hi as int),
{
    let mut w: Vec<char> = Vec::new();
    let mut i: usize = lo;
    while i < hi
        invariant
            lo <= i <= hi <= v.len(),
            w@ == v@.subrange(lo as int, i as int),
        decreases hi - i,
    {
        w.push(v[i]);
        assert(v@.subrange(lo as int, i + 1) == v@.subrange(lo as int, i as int).push(v@[i as int]));
        i = i + 1;
    }
    w
}

// ---------------------------------------------------------------------------
// Quoted names
// ---------------------------------------------------------------------------
/// `t` starts and ends with the same quote character: `"`, `` ` `` or `'`.
pub open spec fn is_quote_pair(t: Seq<char>) -> bool {
    &&& t.len() >= 1
    &&& {
        ||| (t[0] == '"' && t.last() == '"')
        ||| (t[0] == '`' && t.last() == '`')
        ||| (t[0] == '\'' && t.last() == '\'')
    }
}

/// Removing the quotes of a lone quote character slices past its end:
/// the name reader panics on it.
pub open spec fn unquote_panics(x: Seq<char>) -> bool {
    let t = text::trim(x);
    t.len() == 1 && is_quote_pair(t)
}

/// A name with surrounding whitespace and one pair of matching quotes removed.
pub open spec fn unquote_spec(x: Seq<char>) -> Seq<char> {
    let t = text::trim(x);
    if is_quote_pair(t) {
        t.subrange(1, t.len() - 1)
    } else {
        t
    }
}

/// Strips whitespace, then one pair of matching quotes, from `x`.
pub fn unquote(x: &Vec<char>) -> (r: String)
    requires
        !unquote_panics(x@),
    ensures
        r@ == unquote_spec(x@),
{
    let (a, b) = text::trim_bounds(x);
    let t = slice_chars(x, a, b);
    let n = t.len();
    if n >= 1 && ((t[0] == '"' && t[n - 1] == '"') || (t[0] == '`' && t[n - 1] == '`') || (t[0]
        == '\'' && t[n - 1] == '\'')) {
        text::string_of(&t, 1, n - 1)
    } else {
        text::string_of(&t, 0, n)
    }
}

// ---------------------------------------------------------------------------
// VALUES lists
// ---------------------------------------------------------------------------
/// End of the run of `'` that starts at `i`.
pub open spec fn quote_run_end(t: Seq<char>, i: int) -> int
    decreases t.len() - i,
{
    if 0 <= i < t.len() && t[i] == '\'' {
        quote_run_end(t, i + 1)
    } else {
        i
    }
}

/// Start of the run of `'` that ends at `j`.
pub open spec fn quote_run_start(t: Seq<char>, j: int) -> int
    decreases j,
{
    if 0 < j <= t.len() && t[j - 1] == '\'' {
        quote_run_start(t, j - 1)
    } else {
        j
    }
}

/// `str::trim_matches('\'')`.
pub open spec fn strip_quotes(t: Seq<char>) -> Seq<char> {
    let a = quote_run_end(t, 0);
    if a >= t.len() {
        Seq::empty()
    } else {
        t.subrange(a, quote_run_start(t, t.len() as int))
    }
}

/// One value of a VALUES list: trimmed, then stripped of single quotes.
pub open spec fn clean_value(cur: Seq<char>) -> Seq<char> {
    strip_quotes(text::trim(cur))
}

/// The state after reading a character: values so far, the value being
/// read, and whether a single-quoted string is open.
pub open spec fn values_step(st: (Seq<Seq<char>>, Seq<char>, bool), ch: char) -> (
    Seq<Seq<char>>,
    Seq<char>,
    bool,
) {
    if ch == '\'' {
        (st.0, st.1, !st.2)
    } else if ch == ',' && !st.2 {
        (st.0.push(clean_value(st.1)), Seq::empty(), st.2)
    } else {
        (st.0, st.1.push(ch), st.2)
    }
}

pub open spec fn values_state(s: Seq<char>) -> (Seq<Seq<char>>, Seq<char>, bool)
    decreases s.len(),
{
    if s.len() == 0 {
        (Seq::empty(), Seq::empty(), false)
    } else {
        values_step(values_state(s.drop_last()), s.last())
    }
}

/// The values of a VALUES list: split at commas outside single quotes;
/// a last value is kept only when it is not empty before cleaning.
pub open spec fn split_values_spec(s: Seq<char>) -> Seq<Seq<char>> {
    let st = values_state(s);
    if st.1.len() > 0 {
        st.0.push(clean_value(st.1))
    } else {
        st.0
    }
}

proof fn lemma_quote_runs(t: Seq<char>)
    ensures
        0 <= quote_run_end(t, 0) <= t.len(),
        quote_run_end(t, 0) < t.len() ==> quote_run_end(t, 0) < quote_run_start(t, t.len() as int)
            <= t.len(),
{
    lemma_quote_run_end(t, 0);
    lemma_quote_run_start(t, t.len() as int);
    let a = quote_run_end(t, 0);
    if a < t.len() && quote_run_start(t, t.len() as int) <= a {
        assert(t[a] == '\'');
    }
}

proof fn lemma_quote_run_end(t: Seq<char>, i: int)
    requires
        0 <= i <= t.len(),
    ensures
        i <= quote_run_end(t, i) <= t.len(),
        quote_run_end(t, i) < t.len() ==> t[quote_run_end(t, i)] != '\'',
    decreases t.len() - i,
{
    if i < t.len() && t[i] == '\'' {
        lemma_quote_run_end(t, i + 1);
    }
}

proof fn lemma_quote_run_start(t: Seq<char>, j: int)
    requires
        0 <= j <= t.len(),
    ensures
        0 <= quote_run_start(t, j) <= j,
        forall|k: int| quote_run_start(t, j) <= k < j ==> #[trigger] t[k] == '\'',
    decreases j,
{
    if 0 < j && t[j - 1] == '\'' {
        lemma_quote_run_start(t, j - 1);
    }
}

/// A value of a VALUES list, cleaned.
fn clean_value_exec(cur: &Vec<char>) -> (r: String)
    ensures
        r@ == clean_value(cur@),
{
    let (a, b) = text::trim_bounds(cur);
    let t = slice_chars(cur, a, b);
    proof {
        lemma_quote_runs(t@);
    }
    let mut i: usize = 0;
    while i < t.len() && t[i] == '\''
        invariant
            i <= t.len(),
            quote_run_end(t@, i as int) == quote_run_end(t@, 0),
        decreases t.len() - i,
    {
        i = i + 1;
    }
    if i >= t.len() {
        return String::new();
    }
    let mut j: usize = t.len();
    while j > 0 && t[j - 1] == '\''
        invariant
            j <= t.len(),
            quote_run_start(t@, j as int) == quote_run_start(t@, t.len() as int),
        decreases j,
    {
        j = j - 1;
    }
    text::string_of(&t, i, j)
}

/// Splits the text of a VALUES list at the commas that are outside
/// single-quoted strings, and cleans each value.
pub fn split_values(v: &Vec<char>, lo: usize, hi: usize) -> (r: Vec<String>)
    requires
        lo <= hi <= v.len(),
    ensures
        r@.map_values(|x: String| x@) == split_values_spec(v@.subrange(lo as int, hi as int)),
{
    let ghost s = v@.subrange(lo as int, hi as int);
    let mut result: Vec<String> = Vec::new();
    let mut current: Vec<char> = Vec::new();
    let mut in_quotes: bool = false;
    let mut i: usize = lo;
    assert(s.take(0) =~= Seq::<char>::empty());
    while i < hi
        invariant
            lo <= i <= hi <= v.len(),
            s == v@.subrange(lo as int, hi as int),
            values_state(s.take(i - lo)) == (
                result@.map_values(|x: String| x@),
                current@,
                in_quotes,
            ),
        decreases hi - i,
    {
        let ghost before = s.take(i - lo);
        assert(s.take(i - lo + 1).drop_last() =~= before);
        assert(s.take(i - lo + 1).last() == v@[i as int]);
        let ch = v[i];
        if ch == '\'' {
            in_quotes = !in_quotes;
        } else if ch == ',' && !in_quotes {
            let ghost old_result = result@.map_values(|x: String| x@);
            let cleaned = clean_value_exec(&current);
            result.push(cleaned);
            current = Vec::new();
            assert(result@.map_values(|x: String| x@) =~= old_result.push(clean_value(values_state(
                before,
            ).1)));
            assert(current@ =~= Seq::<char>::empty());
        } else {
            current.push(ch);
        }
        i = i + 1;
    }
    assert(s.take(hi - lo) == s);
    if current.len() > 0 {
        let ghost old_result = result@.map_values(|x: String| x@);
        let cleaned = clean_value_exec(&current);
        result.push(cleaned);
        assert(result@.map_values(|x: String| x@) =~= old_result.push(clean_value(current@)));
    }
    result
}

// ---------------------------------------------------------------------------
// SET assignments
// ---------------------------------------------------------------------------
/// End of the run of `\w` characters that starts at `i`.
pub open spec fn word_end(s: Seq<char>, i: int) -> int
    decreases s.len() - i,
{
    if 0 <= i < s.len() && pattern::is_word_char(s[i]) {
        word_end(s, i + 1)
    } else {
        i
    }
}

pub fn word_end_exec(s: &Vec<char>, i: usize) -> (r: usize)
    requires
        i <= s.len(),
    ensures
        r == word_end(s@, i as int),
        i <= r <= s.len(),
{
    let mut j: usize = i;
    while j < s.len() && pattern::is_word_char_exec(s[j])
        invariant
            i <= j <= s.len(),
            word_end(s@, j as int) == word_end(s@, i as int),
        decreases s.len() - j,
    {
        j = j + 1;
    }
    j
}

/// A character of an unquoted value: neither whitespace nor the comma
/// that separates assignments.
pub open spec fn is_bare_value_char(c: char) -> bool {
    !text::is_ws(c) && c != ','
}

/// End of the run of unquoted-value characters that starts at `i`.
pub open spec fn bare_value_end(s: Seq<char>, i: int) -> int
    decreases s.len() - i,
{
    if 0 <= i < s.len() && is_bare_value_char(s[i]) {
        bare_value_end(s, i + 1)
    } else {
        i
    }
}

proof fn lemma_bare_value_end(s: Seq<char>, i: int)
    requires
        0 <= i <= s.len(),
    ensures
        i <= bare_value_end(s, i) <= s.len(),
    decreases s.len() - i,
{
    if i < s.len() && is_bare_value_char(s[i]) {
        lemma_bare_value_end(s, i + 1);
    }
}

fn bare_value_end_exec(s: &Vec<char>, i: usize) -> (r: usize)
    requires
        i <= s.len(),
    ensures
        r == bare_value_end(s@, i as int),
        i <= r <= s.len(),
{
    let mut j: usize = i;
    while j < s.len() && !text::is_whitespace(s[j]) && s[j] != ','
        invariant
            i <= j <= s.len(),
            bare_value_end(s@, j as int) == bare_value_end(s@, i as int),
        decreases s.len() - j,
    {
        j = j + 1;
    }
    j
}

/// A value after an operator: `'..'`, `".."` (both possibly empty), or a
/// run of non-whitespace characters. Gives the value's bounds and the end.
pub open spec fn value_at(s: Seq<char>, v: int) -> Option<(int, int, int)> {
    if grammar::char_at(s, v, '\'') && grammar::find_char(s, v + 1, '\'') < s.len() {
        Some((v + 1, grammar::find_char(s, v + 1, '\''), grammar::find_char(s, v + 1, '\'') + 1))
    } else if grammar::char_at(s, v, '"') && grammar::find_char(s, v + 1, '"') < s.len() {
        Some((v + 1, grammar::find_char(s, v + 1, '"'), grammar::find_char(s, v + 1, '"') + 1))
    } else if 0 <= v < s.len() && !text::is_ws(s[v]) {
        Some((v, text::nonws_end(s, v), text::nonws_end(s, v)))
    } else {
        None
    }
}

/// A value after `=` in a SET list: `'..'`, `".."` (both possibly empty),
/// or a run of characters that are neither whitespace nor commas (a comma
/// separates the assignments of `SET col = val, ...`). Gives the value's
/// bounds and the end.
pub open spec fn set_value_at(s: Seq<char>, v: int) -> Option<(int, int, int)> {
    if grammar::char_at(s, v, '\'') && grammar::find_char(s, v + 1, '\'') < s.len() {
        Some((v + 1, grammar::find_char(s, v + 1, '\''), grammar::find_char(s, v + 1, '\'') + 1))
    } else if grammar::char_at(s, v, '"') && grammar::find_char(s, v + 1, '"') < s.len() {
        Some((v + 1, grammar::find_char(s, v + 1, '"'), grammar::find_char(s, v + 1, '"') + 1))
    } else if 0 <= v < s.len() && is_bare_value_char(s[v]) {
        Some((v, bare_value_end(s, v), bare_value_end(s, v)))
    } else {
        None
    }
}

/// After an optional backtick and an optional double quote: where a name starts.
pub open spec fn name_start(s: Seq<char>, i: int) -> int {
    let j = if grammar::char_at(s, i, '`') {
        i + 1
    } else {
        i
    };
    if grammar::char_at(s, j, '"') {
        j + 1
    } else {
        j
    }
}

/// After an optional double quote and an optional backtick: where a name's
/// closing quotes end.
pub open spec fn name_close(s: Seq<char>, i: int) -> int {
    let j = if grammar::char_at(s, i, '"') {
        i + 1
    } else {
        i
    };
    if grammar::char_at(s, j, '`') {
        j + 1
    } else {
        j
    }
}

/// `` `?"?(\w+)"?`?\s*=\s*(?:'([^']*)'|"([^"]*)"|([^\s,]+)) `` starting at `i`:
/// the bounds of the name, of the value, and the end of the match.
pub open spec fn assignment_at(s: Seq<char>, i: int) -> Option<((int, int), (int, int), int)> {
    let j = name_start(s, i);
    let we = word_end(s, j);
    if we > j {
        let k = text::skip_ws(s, name_close(s, we));
        if grammar::char_at(s, k, '=') {
            match set_value_at(s, text::skip_ws(s, k + 1)) {
                Some((a, b, e)) => Some(((j, we), (a, b), e)),
                None => None,
            }
        } else {
            None
        }
    } else {
        None
    }
}

/// The leftmost position at or after `i` where an assignment matches.
pub open spec fn first_assignment(s: Seq<char>, i: int) -> Option<int>
    decreases s.len() - i,
{
    if i < 0 || i >= s.len() {
        None
    } else if assignment_at(s, i) is Some {
        Some(i)
    } else {
        first_assignment(s, i + 1)
    }
}

/// The successive non-overlapping assignments found from `pos` on.
pub open spec fn assignments_from(s: Seq<char>, pos: int) -> Seq<(Seq<char>, Seq<char>)>
    decreases s.len() - pos,
{
    match first_assignment(s, pos) {
        Some(i) => match assignment_at(s, i) {
            Some((k, v, e)) => if pos < e <= s.len() {
                seq![(s.subrange(k.0, k.1), s.subrange(v.0, v.1))] + assignments_from(s, e)
            } else {
                Seq::empty()
            },
            None => Seq::empty(),
        },
        None => Seq::empty(),
    }
}

/// The SET clause as a map from column to new value (a later assignment
/// to the same column wins).
pub open spec fn set_clause_spec(s: Seq<char>) -> Map<Seq<char>, Seq<char>> {
    pairs_to_map(assignments_from(s, 0))
}

proof fn lemma_set_value_at(s: Seq<char>, v: int)
    requires
        0 <= v,
    ensures
        set_value_at(s, v) matches Some((a, b, e)) ==> v <= a <= b <= e <= s.len() && v < e,
{
    if grammar::char_at(s, v, '\'') {
        grammar::lemma_find_char(s, v + 1, '\'');
    }
    if grammar::char_at(s, v, '"') {
        grammar::lemma_find_char(s, v + 1, '"');
    }
    if 0 <= v < s.len() && is_bare_value_char(s[v]) {
        lemma_bare_value_end(s, v + 1);
    }
}

fn set_value_at_exec(s: &Vec<char>, v: usize) -> (r: Option<(usize, usize, usize)>)
    requires
        v <= s.len(),
    ensures
        match r {
            Some((a, b, e)) => set_value_at(s@, v as int) == Some((a as int, b as int, e as int)),
            None => set_value_at(s@, v as int) is None,
        },
        r matches Some((a, b, e)) ==> v <= a <= b <= e <= s.len() && v < e,
{
    proof {
        lemma_set_value_at(s@, v as int);
    }
    if grammar::char_at_exec(s, v, '\'') {
        let c = grammar::find_char_exec(s, v + 1, '\'');
        if c < s.len() {
            return Some((v + 1, c, c + 1));
        }
    }
    if grammar::char_at_exec(s, v, '"') {
        let c = grammar::find_char_exec(s, v + 1, '"');
        if c < s.len() {
            return Some((v + 1, c, c + 1));
        }
    }
    if v < s.len() && !text::is_whitespace(s[v]) && s[v] != ',' {
        let e = bare_value_end_exec(s, v);
        return Some((v, e, e));
    }
    None
}

fn assignment_at_exec(s: &Vec<char>, i: usize) -> (r: Option<((usize, usize), (usize, usize), usize)>)
    requires
        i <= s.len(),
    ensures
        match r {
            Some((k, v, e)) => assignment_at(s@, i as int) == Some(
                ((k.0 as int, k.1 as int), (v.0 as int, v.1 as int), e as int),
            ) && k.0 <= k.1 <= s.len() && v.0 <= v.1 <= s.len() && i < e <= s.len(),
            None => assignment_at(s@, i as int) is None,
        },
{
    let j0: usize = if grammar::char_at_exec(s, i, '`') {
        i + 1
    } else {
        i
    };
    let j: usize = if grammar::char_at_exec(s, j0, '"') {
        j0 + 1
    } else {
        j0
    };
    let we = word_end_exec(s, j);
    if we <= j {
        return None;
    }
    let c0: usize = if grammar::char_at_exec(s, we, '"') {
        we + 1
    } else {
        we
    };
    let c1: usize = if grammar::char_at_exec(s, c0, '`') {
        c0 + 1
    } else {
        c0
    };
    let k = text::skip_ws_exec(s, c1);
    if !grammar::char_at_exec(s, k, '=') {
        return None;
    }
    let v = text::skip_ws_exec(s, k + 1);
    match set_value_at_exec(s, v) {
        Some((a, b, e)) => Some(((j, we), (a, b), e)),
        None => None,
    }
}

fn first_assignment_exec(s: &Vec<char>, i: usize) -> (r: Option<usize>)
    requires
        i <= s.len(),
    ensures
        grammar::same_pos(r, first_assignment(s@, i as int)),
        r matches Some(x) ==> i <= x < s.len(),
{
    let mut j: usize = i;
    while j < s.len()
        invariant
            i <= j <= s.len(),
            first_assignment(s@, j as int) == first_assignment(s@, i as int),
        decreases s.len() - j,
    {
        if assignment_at_exec(s, j).is_some() {
            return Some(j);
        }
        j = j + 1;
    }
    None
}

/// Reads the assignments of a SET clause into a map from column to value.
pub fn parse_set_clause(s: &Vec<char>) -> (r: Vec<(String, String)>)
    ensures
        keys_distinct(pairs_view(r@)),
        pairs_to_map(pairs_view(r@)) == set_clause_spec(s@),
{
    let mut map: Vec<(String, String)> = Vec::new();
    let mut pos: usize = 0;
    let ghost found: Seq<(Seq<char>, Seq<char>)> = Seq::empty();
    assert(pairs_view(map@) =~= Seq::<(Seq<char>, Seq<char>)>::empty());
    loop
        invariant
            pos <= s.len(),
            keys_distinct(pairs_view(map@)),
            pairs_to_map(found + assignments_from(s@, pos as int)) == set_clause_spec(s@),
            pairs_to_map(pairs_view(map@)) == pairs_to_map(found),
        decreases s.len() - pos,
    {
        let i = match first_assignment_exec(s, pos) {
            Some(i) => i,
            None => {
                assert(assignments_from(s@, pos as int) =~= Seq::empty());
                assert(found + Seq::empty() =~= found);
                return map;
            },
        };
        let (k, v, e) = match assignment_at_exec(s, i) {
            Some(m) => m,
            None => {
                return map;
            },
        };
        let key = text::string_of(s, k.0, k.1);
        let val = text::string_of(s, v.0, v.1);
        let ghost pair = (key@, val@);
        proof {
            let rest = assignments_from(s@, e as int);
            assert(assignments_from(s@, pos as int) == seq![pair] + rest);
            assert(found + (seq![pair] + rest) =~= found.push(pair) + rest);
            lemma_pairs_to_map_concat(found.push(pair), rest);
            lemma_pairs_to_map_concat(found, seq![pair] + rest);
        }
        map_insert(&mut map, key, val);
        proof {
            assert(found.push(pair).drop_last() == found);
            found = found.push(pair);
        }
        pos = e;
    }
}

/// The map of `a + b` only depends on the map of `a`, and on `b`.
pub proof fn lemma_pairs_to_map_concat(
    a: Seq<(Seq<char>, Seq<char>)>,
    b: Seq<(Seq<char>, Seq<char>)>,
)
    ensures
        pairs_to_map(a + b) == pairs_to_map_onto(pairs_to_map(a), b),
    decreases b.len(),
{
    if b.len() == 0 {
        assert(a + b =~= a);
    } else {
        lemma_pairs_to_map_concat(a, b.drop_last());
        assert((a + b).drop_last() =~= a + b.drop_last());
        assert((a + b).last() == b.last());
    }
}

/// Inserting the pairs of `b` in order into `m`.
pub open spec fn pairs_to_map_onto(m: Map<Seq<char>, Seq<char>>, b: Seq<(Seq<char>, Seq<char>)>) -> Map<
    Seq<char>,
    Seq<char>,
>
    decreases b.len(),
{
    if b.len() == 0 {
        m
    } else {
        pairs_to_map_onto(m, b.drop_last()).insert(b.last().0, b.last().1)
    }
}

} // verus!
