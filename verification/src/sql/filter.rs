//! WHERE clauses: conditions joined by AND, evaluated against one row, and
//! the `_row = <n>` predicate that UPDATE and DELETE address rows with.
use vstd::prelude::*;
use crate::text;
use crate::numbers;
use crate::pattern;
use crate::sql::grammar;
use crate::sql::clauses;
use crate::sql::query::SqlError;

verus! {

// ---------------------------------------------------------------------------
// Splitting at AND
// ---------------------------------------------------------------------------
/// `\s+AND\s+` at `i` (case-insensitive): the end of the separator.
pub open spec fn and_at(s: Seq<char>, i: int) -> Option<int> {
    if grammar::is_ws_at(s, i) && grammar::kw_at_and_ws(s, text::skip_ws(s, i), "AND"@) {
        Some(text::skip_ws(s, text::skip_ws(s, i) + 3))
    } else {
        None
    }
}

/// The leftmost separator at or after `i`.
pub open spec fn first_and(s: Seq<char>, i: int) -> Option<int>
    decreases s.len() - i,
{
    if i < 0 || i >= s.len() {
        None
    } else if and_at(s, i) is Some {
        Some(i)
    } else {
        first_and(s, i + 1)
    }
}

/// The pieces of `s[pos..]` between the separators (regex `split`).
pub open spec fn split_and_from(s: Seq<char>, pos: int) -> Seq<Seq<char>>
    decreases s.len() - pos,
{
    match first_and(s, pos) {
        Some(k) => match and_at(s, k) {
            Some(e) => if pos < e <= s.len() {
                seq![s.subrange(pos, k)] + split_and_from(s, e)
            } else {
                seq![s.subrange(pos, s.len() as int)]
            },
            None => seq![s.subrange(pos, s.len() as int)],
        },
        None => seq![s.subrange(pos, s.len() as int)],
    }
}

pub proof fn lemma_first_and(s: Seq<char>, i: int)
    requires
        0 <= i,
    ensures
        first_and(s, i) matches Some(k) ==> i <= k < s.len() && and_at(s, k) is Some,
    decreases s.len() - i,
{
    if i < s.len() && and_at(s, i) is None {
        lemma_first_and(s, i + 1);
    }
}

proof fn lemma_and_at(s: Seq<char>, i: int)
    requires
        0 <= i <= s.len(),
    ensures
        and_at(s, i) matches Some(e) ==> i < e <= s.len(),
{
    reveal_strlit("AND");
    if and_at(s, i) is Some {
        text::lemma_skip_ws(s, i);
        let a = text::skip_ws(s, i);
        text::lemma_skip_ws(s, a + 3);
    }
}

fn and_at_exec(s: &Vec<char>, i: usize) -> (r: Option<usize>)
    requires
        i <= s.len(),
    ensures
        grammar::same_pos(r, and_at(s@, i as int)),
        r matches Some(e) ==> i < e <= s.len(),
{
    proof {
        reveal_strlit("AND");
        lemma_and_at(s@, i as int);
    }
    if !grammar::is_ws_at_exec(s, i) {
        return None;
    }
    let a = text::skip_ws_exec(s, i);
    if text::kw_at_exec(s, a, "AND") && grammar::is_ws_at_exec(s, a + 3) {
        Some(text::skip_ws_exec(s, a + 3))
    } else {
        None
    }
}

/// The leftmost separator at or after `i`, or the length.
fn first_and_exec(s: &Vec<char>, i: usize) -> (r: usize)
    requires
        i <= s.len(),
    ensures
        i <= r <= s.len(),
        r < s.len() ==> first_and(s@, i as int) == Some(r as int) && and_at(s@, r as int) is Some,
        r == s.len() ==> first_and(s@, i as int) is None,
{
    let mut k: usize = i;
    while k < s.len()
        invariant
            i <= k <= s.len(),
            first_and(s@, k as int) == first_and(s@, i as int),
        decreases s.len() - k,
    {
        if and_at_exec(s, k).is_some() {
            return k;
        }
        k = k + 1;
    }
    k
}

/// Splits a WHERE clause at each `AND` that has whitespace on both sides.
pub fn split_and(s: &Vec<char>) -> (r: Vec<Vec<char>>)
    ensures
        r@.map_values(|p: Vec<char>| p@) == split_and_from(s@, 0),
{
    let mut pieces: Vec<Vec<char>> = Vec::new();
    let mut pos: usize = 0;
    let ghost done: Seq<Seq<char>> = Seq::empty();
    assert(pieces@.map_values(|p: Vec<char>| p@) =~= done);
    loop
        invariant
            pos <= s.len(),
            pieces@.map_values(|p: Vec<char>| p@) == done,
            done + split_and_from(s@, pos as int) == split_and_from(s@, 0),
        decreases s.len() - pos,
    {
        let k = first_and_exec(s, pos);
        let found: Option<usize> = if k < s.len() {
            and_at_exec(s, k)
        } else {
            None
        };
        match found {
            Some(e) => {
                assert(first_and(s@, pos as int) == Some(k as int));
                let piece = clauses::slice_chars(s, pos, k);
                let ghost rest = split_and_from(s@, e as int);
                assert(split_and_from(s@, pos as int) == seq![s@.subrange(pos as int, k as int)]
                    + rest);
                pieces.push(piece);
                proof {
                    assert(done + (seq![s@.subrange(pos as int, k as int)] + rest) =~= done.push(
                        s@.subrange(pos as int, k as int),
                    ) + rest);
                    done = done.push(s@.subrange(pos as int, k as int));
                }
                assert(pieces@.map_values(|p: Vec<char>| p@) =~= done);
                pos = e;
            },
            None => {
                assert(first_and(s@, pos as int) is None);
                let piece = clauses::slice_chars(s, pos, s.len());
                pieces.push(piece);
                assert(split_and_from(s@, pos as int) == seq![
                    s@.subrange(pos as int, s@.len() as int),
                ]);
                assert(pieces@.map_values(|p: Vec<char>| p@) =~= done + seq![
                    s@.subrange(pos as int, s@.len() as int),
                ]);
                return pieces;
            },
        }
    }
}

// ---------------------------------------------------------------------------
// Conditions
// ---------------------------------------------------------------------------
/// The comparison of a condition.
#[derive(PartialEq, Eq, Structural, Clone, Copy)]
pub enum CondOp {
    IsNull,
    IsNotNull,
    Like,
    Eq,
    Ne,
    Gt,
    Ge,
    Lt,
    Le,
    /// An operator text that is none of the above (such as `IS  NULL`
    /// with two spaces): the condition always holds.
    Other,
}

/// The operator at `k`, tried in the order `=`, `!=`, `<>`, `>=`, `<=`,
/// `>`, `<`, `LIKE`, `IS\s+NULL`, `IS\s+NOT\s+NULL`: its end.
pub open spec fn operator_at(s: Seq<char>, k: int) -> Option<int> {
    if grammar::char_at(s, k, '=') {
        Some(k + 1)
    } else if grammar::char_at(s, k, '!') && grammar::char_at(s, k + 1, '=') {
        Some(k + 2)
    } else if grammar::char_at(s, k, '<') && grammar::char_at(s, k + 1, '>') {
        Some(k + 2)
    } else if grammar::char_at(s, k, '>') && grammar::char_at(s, k + 1, '=') {
        Some(k + 2)
    } else if grammar::char_at(s, k, '<') && grammar::char_at(s, k + 1, '=') {
        Some(k + 2)
    } else if grammar::char_at(s, k, '>') {
        Some(k + 1)
    } else if grammar::char_at(s, k, '<') {
        Some(k + 1)
    } else if text::kw_at(s, k, "LIKE"@) {
        Some(k + 4)
    } else if grammar::kw_at_and_ws(s, k, "IS"@) && text::kw_at(
        s,
        text::skip_ws(s, k + 2),
        "NULL"@,
    ) {
        Some(text::skip_ws(s, k + 2) + 4)
    } else if grammar::kw_at_and_ws(s, k, "IS"@) && grammar::kw_at_and_ws(
        s,
        text::skip_ws(s, k + 2),
        "NOT"@,
    ) && text::kw_at(s, text::skip_ws(s, text::skip_ws(s, k + 2) + 3), "NULL"@) {
        Some(text::skip_ws(s, text::skip_ws(s, k + 2) + 3) + 4)
    } else {
        None
    }
}

/// The column name ending at `we` followed by an operator: the operator's end.
pub open spec fn op_after_name(s: Seq<char>, we: int) -> Option<int> {
    operator_at(s, text::skip_ws(s, clauses::name_close(s, we)))
}

/// The greedy `\w+` of the column name gives back characters, from `we`
/// down to `j + 1`, until an operator follows: the name's end.
pub open spec fn name_end_before_op(s: Seq<char>, j: int, we: int) -> Option<int>
    decreases we - j,
{
    if we <= j {
        None
    } else if op_after_name(s, we) is Some {
        Some(we)
    } else {
        name_end_before_op(s, j, we - 1)
    }
}

/// The operator at `k` is `IS NULL` or `IS NOT NULL`, which take no value.
pub open spec fn is_null_test_at(s: Seq<char>, k: int) -> bool {
    text::kw_at(s, k, "IS"@)
}

/// `` `?"?(\w+)"?`?\s*(op)(?:\s*(value))? `` at `i`: the column, the
/// operator text and the value. The value follows the operator after
/// optional whitespace (`qty>10` and `qty > 10` read alike); the NULL
/// tests take none.
pub open spec fn condition_at(s: Seq<char>, i: int) -> Option<((int, int), (int, int), Option<(int, int)>)> {
    let j = clauses::name_start(s, i);
    match name_end_before_op(s, j, clauses::word_end(s, j)) {
        Some(we) => {
            let k = text::skip_ws(s, clauses::name_close(s, we));
            let oe = operator_at(s, k)->0;
            let val = if !is_null_test_at(s, k) {
                match clauses::value_at(s, text::skip_ws(s, oe)) {
                    Some((a, b, _e)) => Some((a, b)),
                    None => None,
                }
            } else {
                None
            };
            Some(((j, we), (k, oe), val))
        },
        None => None,
    }
}

/// The leftmost position at or after `i` where a condition matches.
pub open spec fn first_condition(s: Seq<char>, i: int) -> Option<int>
    decreases s.len() - i,
{
    if i < 0 || i >= s.len() {
        None
    } else if condition_at(s, i) is Some {
        Some(i)
    } else {
        first_condition(s, i + 1)
    }
}

/// `char::to_uppercase` on the characters an operator can hold.
pub open spec fn op_upper(c: char) -> char {
    let u = c as u32;
    if 97 <= u && u <= 122 {
        (u - 32) as char
    } else if u == 0x17f {
        'S'
    } else {
        c
    }
}

pub open spec fn op_upper_seq(t: Seq<char>) -> Seq<char> {
    t.map_values(|c: char| op_upper(c))
}

/// The comparison that the upper-cased operator text names.
pub open spec fn op_kind(t: Seq<char>) -> CondOp {
    let u = op_upper_seq(t);
    if u == "IS NULL"@ {
        CondOp::IsNull
    } else if u == "IS NOT NULL"@ {
        CondOp::IsNotNull
    } else if u == "LIKE"@ {
        CondOp::Like
    } else if u == "="@ {
        CondOp::Eq
    } else if u == "!="@ || u == "<>"@ {
        CondOp::Ne
    } else if u == ">"@ {
        CondOp::Gt
    } else if u == ">="@ {
        CondOp::Ge
    } else if u == "<"@ {
        CondOp::Lt
    } else if u == "<="@ {
        CondOp::Le
    } else {
        CondOp::Other
    }
}

/// A condition read from its text.
pub struct Condition {
    pub column: String,
    pub op: CondOp,
    pub value: String,
}

pub struct CondSpec {
    pub column: Seq<char>,
    pub op: CondOp,
    pub value: Seq<char>,
}

impl Condition {
    pub open spec fn spec(&self) -> CondSpec {
        CondSpec { column: self.column@, op: self.op, value: self.value@ }
    }
}

/// What a condition text says; `None` when no condition can be read from
/// it (such a condition always holds).
pub open spec fn condition_of(s: Seq<char>) -> Option<CondSpec> {
    match first_condition(s, 0) {
        Some(i) => {
            let ((c0, c1), (o0, o1), val) = condition_at(s, i)->0;
            Some(
                CondSpec {
                    column: s.subrange(c0, c1),
                    op: op_kind(s.subrange(o0, o1)),
                    value: match val {
                        Some((a, b)) => s.subrange(a, b),
                        None => Seq::empty(),
                    },
                },
            )
        },
        None => None,
    }
}

/// The conditions of a WHERE clause: its pieces between ANDs, trimmed.
pub open spec fn where_conditions(w: Seq<char>) -> Seq<Option<CondSpec>> {
    split_and_from(w, 0).map_values(|p: Seq<char>| condition_of(text::trim(p)))
}

fn operator_at_exec(s: &Vec<char>, k: usize) -> (r: Option<usize>)
    requires
        k <= s.len(),
    ensures
        grammar::same_pos(r, operator_at(s@, k as int)),
        r matches Some(e) ==> k < e <= s.len(),
{
    proof {
        reveal_strlit("LIKE");
        reveal_strlit("IS");
        reveal_strlit("NOT");
        reveal_strlit("NULL");
    }
    if grammar::char_at_exec(s, k, '=') {
        return Some(k + 1);
    }
    if grammar::char_at_exec(s, k, '!') && grammar::char_at_exec(s, k + 1, '=') {
        return Some(k + 2);
    }
    if grammar::char_at_exec(s, k, '<') && grammar::char_at_exec(s, k + 1, '>') {
        return Some(k + 2);
    }
    if grammar::char_at_exec(s, k, '>') && grammar::char_at_exec(s, k + 1, '=') {
        return Some(k + 2);
    }
    if grammar::char_at_exec(s, k, '<') && grammar::char_at_exec(s, k + 1, '=') {
        return Some(k + 2);
    }
    if grammar::char_at_exec(s, k, '>') {
        return Some(k + 1);
    }
    if grammar::char_at_exec(s, k, '<') {
        return Some(k + 1);
    }
    if text::kw_at_exec(s, k, "LIKE") {
        return Some(k + 4);
    }
    if text::kw_at_exec(s, k, "IS") && grammar::is_ws_at_exec(s, k + 2) {
        let a = text::skip_ws_exec(s, k + 2);
        if text::kw_at_exec(s, a, "NULL") {
            return Some(a + 4);
        }
        if text::kw_at_exec(s, a, "NOT") && grammar::is_ws_at_exec(s, a + 3) {
            let b = text::skip_ws_exec(s, a + 3);
            if text::kw_at_exec(s, b, "NULL") {
                return Some(b + 4);
            }
        }
    }
    None
}

fn name_close_exec(s: &Vec<char>, i: usize) -> (r: usize)
    requires
        i <= s.len(),
    ensures
        r == clauses::name_close(s@, i as int),
        i <= r <= s.len(),
{
    let j: usize = if grammar::char_at_exec(s, i, '"') {
        i + 1
    } else {
        i
    };
    if grammar::char_at_exec(s, j, '`') {
        j + 1
    } else {
        j
    }
}

fn name_start_exec(s: &Vec<char>, i: usize) -> (r: usize)
    requires
        i <= s.len(),
    ensures
        r == clauses::name_start(s@, i as int),
        i <= r <= s.len(),
{
    let j: usize = if grammar::char_at_exec(s, i, '`') {
        i + 1
    } else {
        i
    };
    if grammar::char_at_exec(s, j, '"') {
        j + 1
    } else {
        j
    }
}

fn op_after_name_exec(s: &Vec<char>, we: usize) -> (r: Option<usize>)
    requires
        we <= s.len(),
    ensures
        grammar::same_pos(r, op_after_name(s@, we as int)),
{
    let c = name_close_exec(s, we);
    let k = text::skip_ws_exec(s, c);
    operator_at_exec(s, k)
}

pub struct CondCaps {
    pub col: (usize, usize),
    pub op: (usize, usize),
    pub val: Option<(usize, usize)>,
}

pub open spec fn cond_caps_are(r: CondCaps, o: ((int, int), (int, int), Option<(int, int)>), len: nat) -> bool {
    &&& o.0 == (r.col.0 as int, r.col.1 as int)
    &&& o.1 == (r.op.0 as int, r.op.1 as int)
    &&& grammar::same_span(r.val, o.2)
    &&& r.col.0 <= r.col.1 <= len
    &&& r.op.0 <= r.op.1 <= len
    &&& r.val matches Some((a, b)) ==> a <= b <= len
}

fn name_end_exec(s: &Vec<char>, j: usize, we0: usize) -> (r: Option<usize>)
    requires
        j <= we0 <= s.len(),
    ensures
        grammar::same_pos(r, name_end_before_op(s@, j as int, we0 as int)),
        r matches Some(we) ==> j < we <= we0 && op_after_name(s@, we as int) is Some,
{
    let mut we: usize = we0;
    while we > j
        invariant
            j <= we <= we0 <= s.len(),
            name_end_before_op(s@, j as int, we as int) == name_end_before_op(
                s@,
                j as int,
                we0 as int,
            ),
        decreases we,
    {
        if op_after_name_exec(s, we).is_some() {
            return Some(we);
        }
        we = we - 1;
    }
    None
}

fn condition_at_exec(s: &Vec<char>, i: usize) -> (r: Option<CondCaps>)
    requires
        i <= s.len(),
    ensures
        match r {
            Some(c) => condition_at(s@, i as int) matches Some(o) && cond_caps_are(c, o, s@.len()),
            None => condition_at(s@, i as int) is None,
        },
{
    let j = name_start_exec(s, i);
    let we0 = clauses::word_end_exec(s, j);
    let we = match name_end_exec(s, j, we0) {
        Some(we) => we,
        None => return None,
    };
    let c = name_close_exec(s, we);
    let k = text::skip_ws_exec(s, c);
    let oe = match operator_at_exec(s, k) {
        Some(oe) => oe,
        None => return None,
    };
    proof {
        reveal_strlit("IS");
        text::lemma_skip_ws(s@, oe as int);
    }
    let val = if !text::kw_at_exec(s, k, "IS") {
        let v = text::skip_ws_exec(s, oe);
        match value_at_exec(s, v) {
            Some((a, b, _e)) => Some((a, b)),
            None => None,
        }
    } else {
        None
    };
    Some(CondCaps { col: (j, we), op: (k, oe), val })
}

fn value_at_exec(s: &Vec<char>, v: usize) -> (r: Option<(usize, usize, usize)>)
    requires
        v <= s.len(),
    ensures
        match r {
            Some((a, b, e)) => clauses::value_at(s@, v as int) == Some((a as int, b as int, e as int))
                && a <= b <= s.len(),
            None => clauses::value_at(s@, v as int) is None,
        },
{
    if grammar::char_at_exec(s, v, '\'') {
        let c = grammar::find_char_exec(s, v + 1, '\'');
        if c < s.len() {
            return Some((v + 1, c, c + 1));
        }
    }
    if grammar::char_at_exec(s, v, '"') {
        let c = grammar::find_char_exec(s, v + 1, '"');
        if c < s.len() {
            return Some((v + 1, c, c + 1));
        }
    }
    if v < s.len() && !text::is_whitespace(s[v]) {
        let e = text::nonws_end_exec(s, v);
        return Some((v, e, e));
    }
    None
}

/// Upper-cased operator text equals `lit`.
fn op_text_is(s: &Vec<char>, a: usize, b: usize, lit: &str) -> (r: bool)
    requires
        a <= b <= s.len(),
    ensures
        r == (op_upper_seq(s@.subrange(a as int, b as int)) == lit@),
{
    let n = lit.unicode_len();
    let ghost t = op_upper_seq(s@.subrange(a as int, b as int));
    if b - a != n {
        return false;
    }
    let mut i: usize = 0;
    while i < n
        invariant
            n == lit@.len(),
            b - a == n,
            a <= b <= s.len(),
            i <= n,
            t == op_upper_seq(s@.subrange(a as int, b as int)),
            forall|j: int| 0 <= j < i ==> t[j] == lit@[j],
        decreases n - i,
    {
        let c = s[a + i];
        let u: u32 = c as u32;
        let up: char = if 97 <= u && u <= 122 {
            ((u - 32) as u8) as char
        } else if u == 0x17f {
            'S'
        } else {
            c
        };
        assert(t[i as int] == op_upper(s@[a + i]));
        assert(up == op_upper(c));
        if up != lit.get_char(i) {
            return false;
        }
        i = i + 1;
    }
    assert(t =~= lit@);
    true
}

fn op_kind_exec(s: &Vec<char>, a: usize, b: usize) -> (r: CondOp)
    requires
        a <= b <= s.len(),
    ensures
        r == op_kind(s@.subrange(a as int, b as int)),
{
    if op_text_is(s, a, b, "IS NULL") {
        CondOp::IsNull
    } else if op_text_is(s, a, b, "IS NOT NULL") {
        CondOp::IsNotNull
    } else if op_text_is(s, a, b, "LIKE") {
        CondOp::Like
    } else if op_text_is(s, a, b, "=") {
        CondOp::Eq
    } else if op_text_is(s, a, b, "!=") || op_text_is(s, a, b, "<>") {
        CondOp::Ne
    } else if op_text_is(s, a, b, ">") {
        CondOp::Gt
    } else if op_text_is(s, a, b, ">=") {
        CondOp::Ge
    } else if op_text_is(s, a, b, "<") {
        CondOp::Lt
    } else if op_text_is(s, a, b, "<=") {
        CondOp::Le
    } else {
        CondOp::Other
    }
}

/// Reads one condition: the leftmost `column op [value]` in the text.
pub fn read_condition(s: &Vec<char>) -> (r: Option<Condition>)
    ensures
        match r {
            Some(c) => condition_of(s@) == Some(c.spec()),
            None => condition_of(s@) is None,
        },
{
    let mut i: usize = 0;
    while i < s.len()
        invariant
            i <= s.len(),
            first_condition(s@, i as int) == first_condition(s@, 0),
        decreases s.len() - i,
    {
        if let Some(c) = condition_at_exec(s, i) {
            assert(first_condition(s@, 0) == Some(i as int));
            let column = text::string_of(s, c.col.0, c.col.1);
            let op = op_kind_exec(s, c.op.0, c.op.1);
            let value = match c.val {
                Some((a, b)) => text::string_of(s, a, b),
                None => String::new(),
            };
            return Some(Condition { column, op, value });
        }
        i = i + 1;
    }
    None
}

// ---------------------------------------------------------------------------
// Evaluating conditions
// ---------------------------------------------------------------------------
/// How two texts compare as floating-point numbers; `NotNumeric` when one
/// of them is no float literal.
#[derive(PartialEq, Eq, Structural, Clone, Copy)]
pub enum NumOrder {
    NotNumeric,
    Less,
    Equal,
    Greater,
    /// One of the numbers is NaN.
    Unordered,
}

/// `a < b` for `str`: lexicographic order of the characters.
pub open spec fn text_less(a: Seq<char>, b: Seq<char>) -> bool
    decreases a.len(),
{
    if b.len() == 0 {
        false
    } else if a.len() == 0 {
        true
    } else if a[0] != b[0] {
        (a[0] as u32) < (b[0] as u32)
    } else {
        text_less(a.drop_first(), b.drop_first())
    }
}

/// The LIKE pattern as a regex body: `%` as `.*`, `_` as `.`.
pub open spec fn wildcards(t: Seq<char>) -> Seq<char>
    decreases t.len(),
{
    if t.len() == 0 {
        Seq::empty()
    } else {
        wildcards(t.drop_last()) + (if t.last() == '%' {
            seq!['.', '*']
        } else if t.last() == '_' {
            seq!['.']
        } else {
            seq![t.last()]
        })
    }
}

/// The regex that a LIKE pattern becomes: case-insensitive, anchored at
/// both ends, the pattern's text escaped and its wildcards translated.
pub open spec fn like_regex(pattern_text: Seq<char>) -> Seq<char> {
    seq!['(', '?', 'i', ')', '^'] + wildcards(pattern::escaped(pattern_text)) + seq!['$']
}

/// `cell LIKE pattern`, given the outcome of matching the pattern's regex
/// on the cell. When the regex does not compile, the fallback regex `$^`
/// matches the empty cell only.
pub open spec fn like_given(outcome: Option<bool>, cell: Seq<char>) -> bool {
    match outcome {
        Some(b) => b,
        None => cell.len() == 0,
    }
}

/// `cell LIKE pattern`.
pub open spec fn like_holds(pattern_text: Seq<char>, cell: Seq<char>) -> bool {
    like_given(pattern::regex_match_outcome(like_regex(pattern_text), cell), cell)
}

/// Whether `cell LIKE pattern` holds, given the outcome of matching the
/// pattern's regex on the cell (`None`: the regex did not compile).
pub fn like_from_outcome(outcome: Option<bool>, cell: &String) -> (r: bool)
    ensures
        r == like_given(outcome, cell@),
{
    match outcome {
        Some(b) => b,
        None => cell.unicode_len() == 0,
    }
}

/// The comparisons that need the numeric order of the two texts.
pub open spec fn compares(op: CondOp) -> bool {
    op == CondOp::Eq || op == CondOp::Ne || op == CondOp::Gt || op == CondOp::Ge || op == CondOp::Lt
        || op == CondOp::Le || op == CondOp::Other
}

/// A comparison under the numeric order (NaN compares unequal to all).
pub open spec fn numeric_holds(op: CondOp, n: NumOrder) -> bool {
    match op {
        CondOp::Eq => n == NumOrder::Equal,
        CondOp::Ne => n != NumOrder::Equal,
        CondOp::Gt => n == NumOrder::Greater,
        CondOp::Ge => n == NumOrder::Greater || n == NumOrder::Equal,
        CondOp::Lt => n == NumOrder::Less,
        CondOp::Le => n == NumOrder::Less || n == NumOrder::Equal,
        _ => true,
    }
}

/// A comparison of the texts themselves.
pub open spec fn text_holds(op: CondOp, cell: Seq<char>, value: Seq<char>) -> bool {
    match op {
        CondOp::Eq => cell == value,
        CondOp::Ne => cell != value,
        CondOp::Gt => text_less(value, cell),
        CondOp::Ge => !text_less(cell, value),
        CondOp::Lt => text_less(cell, value),
        CondOp::Le => !text_less(value, cell),
        _ => true,
    }
}

/// Whether a condition holds of a cell, given how the cell and the value
/// compare as numbers: NULL tests look at emptiness, LIKE at the pattern,
/// and comparisons go by number when both texts are numbers, else by text.
pub open spec fn condition_holds(c: CondSpec, cell: Seq<char>, n: NumOrder) -> bool {
    match c.op {
        CondOp::IsNull => cell.len() == 0,
        CondOp::IsNotNull => cell.len() > 0,
        CondOp::Like => like_holds(c.value, cell),
        _ => if n == NumOrder::NotNumeric {
            text_holds(c.op, cell, c.value)
        } else {
            numeric_holds(c.op, n)
        },
    }
}

pub open spec fn row_view(row: Seq<(String, String)>) -> Seq<(Seq<char>, Seq<char>)> {
    clauses::pairs_view(row)
}

/// The cell of a column in a row (the last pair for that column), or the
/// empty text.
pub open spec fn row_cell(row: Seq<(Seq<char>, Seq<char>)>, col: Seq<char>) -> Seq<char> {
    let m = clauses::pairs_to_map(row);
    if m.dom().contains(col) {
        m[col]
    } else {
        Seq::empty()
    }
}

pub proof fn lemma_pairs_to_map_last(ps: Seq<(Seq<char>, Seq<char>)>, k: Seq<char>, i: int)
    requires
        0 <= i < ps.len(),
        ps[i].0 == k,
        forall|j: int| i < j < ps.len() ==> #[trigger] ps[j].0 != k,
    ensures
        clauses::pairs_to_map(ps).dom().contains(k),
        clauses::pairs_to_map(ps)[k] == ps[i].1,
    decreases ps.len(),
{
    if i < ps.len() - 1 {
        let q = ps.drop_last();
        assert(ps[ps.len() - 1].0 != k);
        assert forall|j: int| i < j < q.len() implies #[trigger] q[j].0 != k by {
            assert(q[j] == ps[j]);
        }
        lemma_pairs_to_map_last(q, k, i);
    }
}

pub proof fn lemma_pairs_to_map_absent(ps: Seq<(Seq<char>, Seq<char>)>, k: Seq<char>)
    requires
        forall|j: int| 0 <= j < ps.len() ==> #[trigger] ps[j].0 != k,
    ensures
        !clauses::pairs_to_map(ps).dom().contains(k),
    decreases ps.len(),
{
    if ps.len() > 0 {
        let q = ps.drop_last();
        assert forall|j: int| 0 <= j < q.len() implies #[trigger] q[j].0 != k by {
            assert(q[j] == ps[j]);
        }
        lemma_pairs_to_map_absent(q, k);
        assert(ps[ps.len() - 1].0 != k);
    }
}

/// The cell of `col` in `row`, or the empty text.
pub fn row_lookup(row: &Vec<(String, String)>, col: &String) -> (r: String)
    ensures
        r@ == row_cell(row_view(row@), col@),
{
    let ghost ps = row_view(row@);
    let mut i: usize = row.len();
    while i > 0
        invariant
            i <= row.len(),
            ps == row_view(row@),
            forall|j: int| i <= j < row.len() ==> #[trigger] ps[j].0 != col@,
        decreases i,
    {
        if row[i - 1].0 == *col {
            proof {
                assert(ps[i - 1] == (row@[i - 1].0@, row@[i - 1].1@));
                lemma_pairs_to_map_last(ps, col@, i - 1);
            }
            return row[i - 1].1.clone();
        }
        i = i - 1;
    }
    proof {
        lemma_pairs_to_map_absent(ps, col@);
    }
    String::new()
}

fn text_less_exec(a: &Vec<char>, b: &Vec<char>) -> (r: bool)
    ensures
        r == text_less(a@, b@),
{
    let mut i: usize = 0;
    assert(a@.skip(0) =~= a@);
    assert(b@.skip(0) =~= b@);
    while i < a.len() && i < b.len() && a[i] == b[i]
        invariant
            i <= a.len(),
            i <= b.len(),
            text_less(a@.skip(i as int), b@.skip(i as int)) == text_less(a@, b@),
        decreases a.len() - i,
    {
        assert(a@.skip(i as int).drop_first() =~= a@.skip(i + 1));
        assert(b@.skip(i as int).drop_first() =~= b@.skip(i + 1));
        assert(a@.skip(i as int)[0] == a@[i as int]);
        assert(b@.skip(i as int)[0] == b@[i as int]);
        i = i + 1;
    }
    assert(a@.skip(i as int).len() == a.len() - i);
    assert(b@.skip(i as int).len() == b.len() - i);
    if i == b.len() {
        false
    } else if i == a.len() {
        true
    } else {
        assert(a@.skip(i as int)[0] == a@[i as int]);
        assert(b@.skip(i as int)[0] == b@[i as int]);
        (a[i] as u32) < (b[i] as u32)
    }
}

/// The regex text for a LIKE pattern.
fn like_regex_exec(value: &String) -> (r: String)
    ensures
        r@ == like_regex(value@),
{
    let esc = pattern::regex_escape(value.as_str());
    let e = text::to_chars(esc.as_str());
    let mut r = text::string_from("(?i)^");
    proof {
        reveal_strlit("(?i)^");
        assert("(?i)^"@ =~= seq!['(', '?', 'i', ')', '^']);
    }
    let ghost start = r@;
    let mut i: usize = 0;
    while i < e.len()
        invariant
            i <= e.len(),
            start == seq!['(', '?', 'i', ')', '^'],
            r@ == start + wildcards(e@.take(i as int)),
        decreases e.len() - i,
    {
        let c = e[i];
        assert(e@.take(i + 1).drop_last() =~= e@.take(i as int));
        if c == '%' {
            text::push_char(&mut r, '.');
            text::push_char(&mut r, '*');
        } else if c == '_' {
            text::push_char(&mut r, '.');
        } else {
            text::push_char(&mut r, c);
        }
        assert(r@ =~= start + wildcards(e@.take(i + 1)));
        i = i + 1;
    }
    assert(e@.take(e@.len() as int) == e@);
    text::push_char(&mut r, '$');
    assert(r@ =~= like_regex(value@));
    r
}

fn like_holds_exec(value: &String, cell: &String) -> (r: bool)
    ensures
        r == like_holds(value@, cell@),
{
    let re = like_regex_exec(value);
    like_from_outcome(pattern::regex_is_match(re.as_str(), cell.as_str()), cell)
}

fn numeric_holds_exec(op: CondOp, n: NumOrder) -> (r: bool)
    ensures
        r == numeric_holds(op, n),
{
    match op {
        CondOp::Eq => n == NumOrder::Equal,
        CondOp::Ne => n != NumOrder::Equal,
        CondOp::Gt => n == NumOrder::Greater,
        CondOp::Ge => n == NumOrder::Greater || n == NumOrder::Equal,
        CondOp::Lt => n == NumOrder::Less,
        CondOp::Le => n == NumOrder::Less || n == NumOrder::Equal,
        _ => true,
    }
}

fn text_holds_exec(op: CondOp, cell: &String, value: &String) -> (r: bool)
    ensures
        r == text_holds(op, cell@, value@),
{
    let a = text::to_chars(cell.as_str());
    let b = text::to_chars(value.as_str());
    match op {
        CondOp::Eq => *cell == *value,
        CondOp::Ne => !(*cell == *value),
        CondOp::Gt => text_less_exec(&b, &a),
        CondOp::Ge => !text_less_exec(&a, &b),
        CondOp::Lt => text_less_exec(&a, &b),
        CondOp::Le => !text_less_exec(&b, &a),
        _ => true,
    }
}

/// Whether a condition holds of a cell, given how the cell and the value
/// compare as numbers.
pub fn check_condition(c: &Condition, cell: &String, n: NumOrder) -> (r: bool)
    ensures
        r == condition_holds(c.spec(), cell@, n),
{
    match c.op {
        CondOp::IsNull => cell.unicode_len() == 0,
        CondOp::IsNotNull => cell.unicode_len() > 0,
        CondOp::Like => like_holds_exec(&c.value, cell),
        _ => if n == NumOrder::NotNumeric {
            text_holds_exec(c.op, cell, &c.value)
        } else {
            numeric_holds_exec(c.op, n)
        },
    }
}

/// `numeric` gave `n` for the texts `a` and `b`.
pub open spec fn numeric_gave<F: Fn(&str, &str) -> NumOrder>(
    numeric: F,
    a: Seq<char>,
    b: Seq<char>,
    n: NumOrder,
) -> bool {
    exists|x: &str, y: &str| x@ == a && y@ == b && numeric.ensures((x, y), n)
}

/// A condition holds of a row for some answer of `numeric`, or fails for
/// some answer (when it is a comparison, its outcome rests on that answer).
pub open spec fn condition_passes<F: Fn(&str, &str) -> NumOrder>(
    c: Option<CondSpec>,
    row: Seq<(Seq<char>, Seq<char>)>,
    numeric: F,
) -> bool {
    match c {
        None => true,
        Some(c) => {
            let cell = row_cell(row, c.column);
            if compares(c.op) {
                exists|n: NumOrder| numeric_gave(numeric, cell, c.value, n) && condition_holds(c, cell, n)
            } else {
                condition_holds(c, cell, NumOrder::NotNumeric)
            }
        },
    }
}

pub open spec fn condition_fails<F: Fn(&str, &str) -> NumOrder>(
    c: Option<CondSpec>,
    row: Seq<(Seq<char>, Seq<char>)>,
    numeric: F,
) -> bool {
    match c {
        None => false,
        Some(c) => {
            let cell = row_cell(row, c.column);
            if compares(c.op) {
                exists|n: NumOrder|
                    numeric_gave(numeric, cell, c.value, n) && !condition_holds(c, cell, n)
            } else {
                !condition_holds(c, cell, NumOrder::NotNumeric)
            }
        },
    }
}

/// The conditions of a WHERE clause, read once for many rows.
pub struct WhereFilter {
    pub conditions: Vec<Option<Condition>>,
}

pub open spec fn opt_cond_spec(c: Option<Condition>) -> Option<CondSpec> {
    match c {
        Some(x) => Some(x.spec()),
        None => None,
    }
}

impl WhereFilter {
    pub open spec fn spec(&self) -> Seq<Option<CondSpec>> {
        self.conditions@.map_values(|c: Option<Condition>| opt_cond_spec(c))
    }

    /// Whether every condition holds of the row. A condition that no
    /// column-operator pattern can be read from holds.
    pub fn matches<F: Fn(&str, &str) -> NumOrder>(
        &self,
        row: &Vec<(String, String)>,
        numeric: &F,
    ) -> (r: bool)
        requires
            forall|x: &str, y: &str| #[trigger] numeric.requires((x, y)),
        ensures
            r ==> forall|i: int|
                0 <= i < self.spec().len() ==> condition_passes(
                    #[trigger] self.spec()[i],
                    row_view(row@),
                    *numeric,
                ),
            !r ==> exists|i: int|
                0 <= i < self.spec().len() && condition_fails(
                    #[trigger] self.spec()[i],
                    row_view(row@),
                    *numeric,
                ),
    {
        let ghost conds = self.spec();
        let ghost rv = row_view(row@);
        let mut i: usize = 0;
        while i < self.conditions.len()
            invariant
                i <= self.conditions.len(),
                conds == self.spec(),
                rv == row_view(row@),
                forall|x: &str, y: &str| #[trigger] numeric.requires((x, y)),
                forall|j: int| 0 <= j < i ==> condition_passes(#[trigger] conds[j], rv, *numeric),
            decreases self.conditions.len() - i,
        {
            assert(conds[i as int] == opt_cond_spec(self.conditions@[i as int]));
            match &self.conditions[i] {
                None => {},
                Some(c) => {
                    let cell = row_lookup(row, &c.column);
                    assert(conds[i as int] == Some(c.spec()));
                    assert(row_cell(rv, c.column@) == cell@);
                    if c.op == CondOp::IsNull || c.op == CondOp::IsNotNull || c.op == CondOp::Like {
                        assert(!compares(c.op));
                        if !check_condition(c, &cell, NumOrder::NotNumeric) {
                            assert(condition_fails(conds[i as int], rv, *numeric));
                            return false;
                        }
                        assert(condition_passes(conds[i as int], rv, *numeric));
                    } else {
                        assert(compares(c.op));
                        let n = numeric(cell.as_str(), c.value.as_str());
                        proof {
                            assert(numeric_gave(*numeric, cell@, c.value@, n));
                        }
                        let ghost cs = c.spec();
                        let ghost cl = row_cell(rv, cs.column);
                        assert(cl == cell@);
                        assert(numeric_gave(*numeric, cl, cs.value, n));
                        if !check_condition(c, &cell, n) {
                            assert(numeric_gave(*numeric, cl, cs.value, n) && !condition_holds(
                                cs,
                                cl,
                                n,
                            ));
                            assert(condition_fails(conds[i as int], rv, *numeric));
                            return false;
                        }
                        assert(numeric_gave(*numeric, cl, cs.value, n) && condition_holds(cs, cl, n));
                        assert(condition_passes(conds[i as int], rv, *numeric));
                    }
                },
            }
            i = i + 1;
        }
        true
    }
}

/// Reads the conditions of a WHERE clause.
pub fn compile_where(where_clause: &str) -> (r: WhereFilter)
    ensures
        r.spec() == where_conditions(where_clause@),
{
    let s = text::to_chars(where_clause);
    let pieces = split_and(&s);
    let ghost ps = split_and_from(s@, 0);
    let mut conditions: Vec<Option<Condition>> = Vec::new();
    let mut i: usize = 0;
    while i < pieces.len()
        invariant
            i <= pieces.len(),
            pieces@.map_values(|p: Vec<char>| p@) == ps,
            ps == split_and_from(where_clause@, 0),
            conditions.len() == i,
            forall|j: int|
                0 <= j < i ==> opt_cond_spec(#[trigger] conditions@[j]) == condition_of(
                    text::trim(ps[j]),
                ),
        decreases pieces.len() - i,
    {
        let (a, b) = text::trim_bounds(&pieces[i]);
        let t = clauses::slice_chars(&pieces[i], a, b);
        assert(ps[i as int] == pieces@[i as int]@);
        conditions.push(read_condition(&t));
        i = i + 1;
    }
    let r = WhereFilter { conditions };
    assert(r.spec() =~= where_conditions(where_clause@));
    r
}

/// `numeric` gives one answer for each pair of texts.
pub open spec fn answers_once<F: Fn(&str, &str) -> NumOrder>(numeric: F) -> bool {
    forall|x1: &str, y1: &str, x2: &str, y2: &str, n1: NumOrder, n2: NumOrder|
        x1@ == x2@ && y1@ == y2@ && #[trigger] numeric.ensures((x1, y1), n1)
            && #[trigger] numeric.ensures((x2, y2), n2) ==> n1 == n2
}

/// A WHERE clause holds of a row: each of its conditions passes.
pub open spec fn clause_holds<F: Fn(&str, &str) -> NumOrder>(
    w: Seq<char>,
    row: Seq<(Seq<char>, Seq<char>)>,
    numeric: F,
) -> bool {
    forall|i: int|
        0 <= i < where_conditions(w).len() ==> condition_passes(
            #[trigger] where_conditions(w)[i],
            row,
            numeric,
        )
}

/// With a comparison that answers once, a condition does not both pass
/// and fail.
pub proof fn lemma_pass_excludes_fail<F: Fn(&str, &str) -> NumOrder>(
    c: Option<CondSpec>,
    row: Seq<(Seq<char>, Seq<char>)>,
    numeric: F,
)
    requires
        answers_once(numeric),
    ensures
        !(condition_passes(c, row, numeric) && condition_fails(c, row, numeric)),
{
    if let Some(cs) = c {
        let cell = row_cell(row, cs.column);
        if compares(cs.op) && condition_passes(c, row, numeric) && condition_fails(c, row, numeric) {
            let n = choose|n: NumOrder| numeric_gave(numeric, cell, cs.value, n) && condition_holds(cs, cell, n);
            let m = choose|m: NumOrder| numeric_gave(numeric, cell, cs.value, m) && !condition_holds(cs, cell, m);
            let (x1, y1) = choose|x: &str, y: &str| x@ == cell && y@ == cs.value && numeric.ensures((x, y), n);
            let (x2, y2) = choose|x: &str, y: &str| x@ == cell && y@ == cs.value && numeric.ensures((x, y), m);
            assert(numeric.ensures((x1, y1), n) && numeric.ensures((x2, y2), m));
            assert(n == m);
        }
    }
}

/// Evaluates a WHERE clause against one row: its conditions, joined by
/// AND, must all hold. With a comparison that answers once, the result is
/// exactly whether the clause holds. `numeric` tells how two texts compare as
/// floating-point numbers.
pub fn eval_where<F: Fn(&str, &str) -> NumOrder>(
    where_clause: &str,
    row: &Vec<(String, String)>,
    numeric: &F,
) -> (r: bool)
    requires
        forall|x: &str, y: &str| #[trigger] numeric.requires((x, y)),
    ensures
        r ==> forall|i: int|
            0 <= i < where_conditions(where_clause@).len() ==> condition_passes(
                #[trigger] where_conditions(where_clause@)[i],
                row_view(row@),
                *numeric,
            ),
        !r ==> exists|i: int|
            0 <= i < where_conditions(where_clause@).len() && condition_fails(
                #[trigger] where_conditions(where_clause@)[i],
                row_view(row@),
                *numeric,
            ),
        answers_once(*numeric) ==> r == clause_holds(where_clause@, row_view(row@), *numeric),
{
    let f = compile_where(where_clause);
    let r = f.matches(row, numeric);
    proof {
        if answers_once(*numeric) && !r {
            let w = where_conditions(where_clause@);
            let i = choose|i: int|
                0 <= i < w.len() && condition_fails(#[trigger] w[i], row_view(row@), *numeric);
            lemma_pass_excludes_fail(w[i], row_view(row@), *numeric);
        }
    }
    r
}

// ---------------------------------------------------------------------------
// The `_row = <n>` predicate
// ---------------------------------------------------------------------------
/// `_row\s*=\s*(\d+)` (case-insensitive) at `i`: the digits.
pub open spec fn row_number_at(s: Seq<char>, i: int) -> Option<(int, int)> {
    if text::kw_at(s, i, "_ROW"@) {
        let k = text::skip_ws(s, i + 4);
        if grammar::char_at(s, k, '=') {
            let d = text::skip_ws(s, k + 1);
            let de = grammar::digit_end(s, d);
            if de > d {
                Some((d, de))
            } else {
                None
            }
        } else {
            None
        }
    } else {
        None
    }
}

/// The leftmost `_row = <digits>` at or after `i`.
pub open spec fn first_row_number(s: Seq<char>, i: int) -> Option<(int, int)>
    decreases s.len() - i,
{
    if i < 0 || i >= s.len() {
        None
    } else if row_number_at(s, i) is Some {
        row_number_at(s, i)
    } else {
        first_row_number(s, i + 1)
    }
}

/// The row number that a WHERE clause addresses: the digits of its first
/// `_row = <digits>`, when they are ASCII and fit in `usize`.
pub open spec fn row_number_of(s: Seq<char>) -> Option<usize> {
    match first_row_number(s, 0) {
        Some((d, de)) => numbers::parse_usize_spec(s.subrange(d, de)),
        None => None,
    }
}

fn row_number_at_exec(s: &Vec<char>, i: usize) -> (r: Option<(usize, usize)>)
    requires
        i <= s.len(),
    ensures
        grammar::same_span(r, row_number_at(s@, i as int)),
        r matches Some((a, b)) ==> a <= b <= s.len(),
{
    proof {
        reveal_strlit("_ROW");
    }
    if !text::kw_at_exec(s, i, "_ROW") {
        return None;
    }
    let k = text::skip_ws_exec(s, i + 4);
    if !grammar::char_at_exec(s, k, '=') {
        return None;
    }
    let d = text::skip_ws_exec(s, k + 1);
    let de = grammar::digit_end_exec(s, d);
    if de > d {
        Some((d, de))
    } else {
        None
    }
}

/// Extracts `_row = N` from a WHERE clause.
pub fn extract_row_num(where_clause: &str) -> (r: Result<usize, SqlError>)
    ensures
        match r {
            Ok(n) => row_number_of(where_clause@) == Some(n),
            Err(e) => row_number_of(where_clause@) is None && e == SqlError::MissingRowNumber,
        },
{
    let s = text::to_chars(where_clause);
    let mut i: usize = 0;
    while i < s.len()
        invariant
            i <= s.len(),
            s@ == where_clause@,
            first_row_number(s@, i as int) == first_row_number(s@, 0),
        decreases s.len() - i,
    {
        if let Some((d, de)) = row_number_at_exec(&s, i) {
            return match numbers::parse_usize_in(&s, d, de) {
                Some(n) => Ok(n),
                None => Err(SqlError::MissingRowNumber),
            };
        }
        i = i + 1;
    }
    Err(SqlError::MissingRowNumber)
}

} // verus!
