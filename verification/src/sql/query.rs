//! Parsed statements and the parser that fills them.
use vstd::prelude::*;
use crate::text;
use crate::numbers;
use crate::sql::grammar;
use crate::sql::clauses;

verus! {

/// A SELECT statement (also `SELECT COUNT(*)`).
pub struct SelectQuery {
    pub table: String,
    /// `None` for `SELECT *`.
    pub columns: Option<Vec<String>>,
    pub count_only: bool,
    pub where_clause: Option<String>,
    pub limit: Option<usize>,
    pub offset: Option<usize>,
}

/// An INSERT statement: the new row as a map from column to value, kept
/// as pairs with distinct columns.
pub struct InsertQuery {
    pub table: String,
    pub data: Vec<(String, String)>,
}

/// An UPDATE statement: the assignments as a map from column to value,
/// kept as pairs with distinct columns.
pub struct UpdateQuery {
    pub table: String,
    pub set: Vec<(String, String)>,
    pub where_clause: String,
}

pub struct DeleteQuery {
    pub table: String,
    pub where_clause: String,
}

pub enum Query {
    Select(SelectQuery),
    Insert(InsertQuery),
    Update(UpdateQuery),
    Delete(DeleteQuery),
}

/// The statement could not be read.
pub enum SqlError {
    /// None of the supported statement forms matches the text.
    Unsupported(String),
    /// The WHERE clause of an UPDATE or DELETE names no `_row = <number>`.
    MissingRowNumber,
}

pub open spec fn unsupported_message(raw: Seq<char>) -> Seq<char> {
    "Unsupported SQL syntax: "@ + raw
}

pub open spec fn missing_row_message() -> Seq<char> {
    "WHERE clause must include '_row = <number>'"@
}

impl SqlError {
    /// The text of the error.
    pub fn message(&self) -> (r: String)
        ensures
            match self {
                SqlError::Unsupported(t) => r@ == unsupported_message(t@),
                SqlError::MissingRowNumber => r@ == missing_row_message(),
            },
    {
        match self {
            SqlError::Unsupported(t) => {
                let mut r = text::string_from("Unsupported SQL syntax: ");
                r.append(t.as_str());
                r
            },
            SqlError::MissingRowNumber => text::string_from(
                "WHERE clause must include '_row = <number>'",
            ),
        }
    }
}

pub struct SelectSpec {
    pub table: Seq<char>,
    pub columns: Option<Seq<Seq<char>>>,
    pub count_only: bool,
    pub where_clause: Option<Seq<char>>,
    pub limit: Option<usize>,
    pub offset: Option<usize>,
}

/// The meaning of a parsed statement.
pub enum QuerySpec {
    Select(SelectSpec),
    Insert { table: Seq<char>, data: Map<Seq<char>, Seq<char>> },
    Update { table: Seq<char>, set: Map<Seq<char>, Seq<char>>, where_clause: Seq<char> },
    Delete { table: Seq<char>, where_clause: Seq<char> },
}

pub open spec fn strings_view(v: Seq<String>) -> Seq<Seq<char>> {
    v.map_values(|x: String| x@)
}

pub open spec fn opt_string_view(o: Option<String>) -> Option<Seq<char>> {
    match o {
        Some(x) => Some(x@),
        None => None,
    }
}

impl SelectQuery {
    pub open spec fn spec(&self) -> SelectSpec {
        SelectSpec {
            table: self.table@,
            columns: match self.columns {
                Some(c) => Some(strings_view(c@)),
                None => None,
            },
            count_only: self.count_only,
            where_clause: opt_string_view(self.where_clause),
            limit: self.limit,
            offset: self.offset,
        }
    }
}

impl Query {
    pub open spec fn spec(&self) -> QuerySpec {
        match self {
            Query::Select(q) => QuerySpec::Select(q.spec()),
            Query::Insert(q) => QuerySpec::Insert {
                table: q.table@,
                data: clauses::pairs_to_map(clauses::pairs_view(q.data@)),
            },
            Query::Update(q) => QuerySpec::Update {
                table: q.table@,
                set: clauses::pairs_to_map(clauses::pairs_view(q.set@)),
                where_clause: q.where_clause@,
            },
            Query::Delete(q) => QuerySpec::Delete { table: q.table@, where_clause: q.where_clause@ },
        }
    }

    /// The column maps of INSERT and UPDATE hold each column once.
    pub open spec fn well_formed(&self) -> bool {
        match self {
            Query::Insert(q) => clauses::keys_distinct(clauses::pairs_view(q.data@)),
            Query::Update(q) => clauses::keys_distinct(clauses::pairs_view(q.set@)),
            _ => true,
        }
    }
}

/// The statement text that the grammar reads: trimmed, then without its
/// trailing semicolons.
pub open spec fn normalized(raw: Seq<char>) -> Seq<char> {
    text::trim_end_char(text::trim(raw), ';')
}

pub open spec fn span(q: Seq<char>, a: int, b: int) -> Seq<char> {
    q.subrange(a, b)
}

/// The column names of a SELECT list, or `None` for `*`.
pub open spec fn select_columns_spec(list: Seq<char>) -> Option<Seq<Seq<char>>> {
    let cs = text::trim(list);
    if cs == seq!['*'] {
        None
    } else {
        Some(
            clauses::split_on(cs, ',').map_values(
                |p: Seq<char>| clauses::unquote_spec(text::trim(p)),
            ),
        )
    }
}

/// The column names paired with the values, as far as both go.
pub open spec fn insert_pairs(cols: Seq<Seq<char>>, vals: Seq<Seq<char>>) -> Seq<
    (Seq<char>, Seq<char>),
> {
    let n = if cols.len() <= vals.len() {
        cols.len()
    } else {
        vals.len()
    };
    Seq::new(n, |i: int| (clauses::unquote_spec(text::trim(cols[i])), vals[i]))
}

/// The SELECT matched with table end `b` and WHERE span `w` sorts: an
/// `ORDER BY` clause follows its WHERE condition, or else its table name
/// (at `b`, or after the closing quote at `b + 1`). Sorting is not
/// supported, so such a statement is not read.
pub open spec fn select_sorts(q: Seq<char>, b: int, w: Option<(int, int)>) -> bool {
    match w {
        Some((_x, k)) => grammar::order_present(q, k) is Some,
        None => grammar::order_present(q, b) is Some || grammar::order_present(q, b + 1) is Some,
    }
}

/// The column list calls a function: an aggregate other than the
/// `COUNT(*)` form (such as `SUM(x)`), which is not supported.
pub open spec fn calls_function(cols: Seq<char>) -> bool {
    exists|i: int| 0 <= i < cols.len() && cols[i] == '('
}

/// `\sGROUP\s+BY` (any case) at `i`.
pub open spec fn group_by_at(w: Seq<char>, i: int) -> bool {
    &&& grammar::is_ws_at(w, i)
    &&& grammar::kw_at_and_ws(w, i + 1, "GROUP"@)
    &&& text::kw_at(w, text::skip_ws(w, i + 6), "BY"@)
}

/// `(` then, after optional whitespace, `SELECT` (any case) at `i`: a subquery.
pub open spec fn subquery_at(w: Seq<char>, i: int) -> bool {
    &&& grammar::char_at(w, i, '(')
    &&& text::kw_at(w, text::skip_ws(w, i + 1), "SELECT"@)
}

/// A WHERE text that holds a `GROUP BY` or a subquery, neither of which
/// is supported.
pub open spec fn outside_subset(w: Seq<char>) -> bool {
    exists|i: int| 0 <= i < w.len() && (group_by_at(w, i) || subquery_at(w, i))
}

/// The WHERE text of a match (none without a WHERE clause) holds what is
/// not supported.
pub open spec fn where_outside(q: Seq<char>, w: Option<(int, int)>) -> bool {
    match w {
        Some((x, y)) => outside_subset(span(q, x, y)),
        None => false,
    }
}

/// A matched SELECT that is refused: it sorts, calls a function in its
/// column list, or groups or nests a query in its WHERE text.
pub open spec fn select_refused(
    q: Seq<char>,
    m: ((int, int), (int, int), Option<(int, int)>, Option<(int, int)>, Option<(int, int)>),
) -> bool {
    let ((c0, c1), (_a, b), w, _l, _o) = m;
    select_sorts(q, b, w) || calls_function(span(q, c0, c1)) || where_outside(q, w)
}

/// What a statement means, or `Err` when none of the supported forms
/// matches. The forms are tried in order: COUNT, SELECT, INSERT, UPDATE,
/// DELETE.
pub open spec fn parse_spec(raw: Seq<char>) -> Result<QuerySpec, ()> {
    parse_normalized(normalized(raw))
}

/// `parse_spec` on a trimmed statement without trailing semicolons.
pub open spec fn parse_normalized(q: Seq<char>) -> Result<QuerySpec, ()> {
    match grammar::count_match(q) {
        Some((_a, _b, Some(r))) if outside_subset(span(q, r, q.len() as int)) => Err(()),
        Some((a, b, w)) => Ok(
            QuerySpec::Select(
                SelectSpec {
                    table: text::trim(span(q, a, b)),
                    columns: Some(seq![seq!['C', 'O', 'U', 'N', 'T', '(', '*', ')']]),
                    count_only: true,
                    where_clause: match w {
                        Some(r) => Some(text::trim(span(q, r, q.len() as int))),
                        None => None,
                    },
                    limit: None,
                    offset: None,
                },
            ),
        ),
        None => match grammar::select_match(q) {
            Some(m) if select_refused(q, m) => Err(()),
            Some(((c0, c1), (a, b), w, l, o)) => Ok(
                QuerySpec::Select(
                    SelectSpec {
                        table: text::trim(span(q, a, b)),
                        columns: select_columns_spec(span(q, c0, c1)),
                        count_only: false,
                        where_clause: match w {
                            Some((x, y)) => if text::trim(span(q, x, y)).len() > 0 {
                                Some(text::trim(span(q, x, y)))
                            } else {
                                None
                            },
                            None => None,
                        },
                        limit: match l {
                            Some((x, y)) => numbers::parse_usize_spec(span(q, x, y)),
                            None => None,
                        },
                        offset: match o {
                            Some((x, y)) => numbers::parse_usize_spec(span(q, x, y)),
                            None => None,
                        },
                    },
                ),
            ),
            None => match grammar::insert_match(q) {
                Some((a, b, c0, c1, v0, v1)) => Ok(
                    QuerySpec::Insert {
                        table: text::trim(span(q, a, b)),
                        data: clauses::pairs_to_map(
                            insert_pairs(
                                clauses::split_on(span(q, c0, c1), ','),
                                clauses::split_values_spec(span(q, v0, v1)),
                            ),
                        ),
                    },
                ),
                None => match grammar::update_match(q) {
                    Some((a, b, s0, s1, w)) => Ok(
                        QuerySpec::Update {
                            table: text::trim(span(q, a, b)),
                            set: clauses::set_clause_spec(span(q, s0, s1)),
                            where_clause: text::trim(span(q, w, q.len() as int)),
                        },
                    ),
                    None => match grammar::delete_match(q) {
                        Some((a, b, w)) => Ok(
                            QuerySpec::Delete {
                                table: text::trim(span(q, a, b)),
                                where_clause: text::trim(span(q, w, q.len() as int)),
                            },
                        ),
                        None => Err(()),
                    },
                },
            },
        },
    }
}

/// Reading the statement reaches a lone quote character among the names
/// of its SELECT list or INSERT column list (for INSERT, among the columns
/// that get a value), where stripping quotes panics.
pub open spec fn parse_panics(raw: Seq<char>) -> bool {
    panics_normalized(normalized(raw))
}

/// `parse_panics` on a trimmed statement without trailing semicolons.
pub open spec fn panics_normalized(q: Seq<char>) -> bool {
    if grammar::count_match(q) is Some {
        false
    } else {
        match grammar::select_match(q) {
            Some(((c0, c1), (a, b), w, l, o)) => {
                let cs = text::trim(span(q, c0, c1));
                let pieces = clauses::split_on(cs, ',');
                !select_refused(q, ((c0, c1), (a, b), w, l, o)) && cs != seq!['*'] && exists|i: int|
                    0 <= i < pieces.len() && clauses::unquote_panics(text::trim(#[trigger] pieces[i]))
            },
            None => match grammar::insert_match(q) {
                Some((_a, _b, c0, c1, v0, v1)) => {
                    let cols = clauses::split_on(span(q, c0, c1), ',');
                    let vals = clauses::split_values_spec(span(q, v0, v1));
                    exists|i: int|
                        0 <= i < cols.len() && i < vals.len() && clauses::unquote_panics(
                            text::trim(#[trigger] cols[i]),
                        )
                },
                None => false,
            },
        }
    }
}

/// Whether `unquote_panics` holds of `x`.
fn unquote_would_panic(x: &Vec<char>) -> (b: bool)
    ensures
        b == clauses::unquote_panics(x@),
{
    let (a, c) = text::trim_bounds(x);
    c - a == 1 && (x[a] == '"' || x[a] == '`' || x[a] == '\'')
}

/// Trimmed copy of a piece.
fn trimmed_chars(p: &Vec<char>) -> (r: Vec<char>)
    ensures
        r@ == text::trim(p@),
{
    let (a, b) = text::trim_bounds(p);
    clauses::slice_chars(p, a, b)
}

/// The names of a comma list, each trimmed and unquoted; the first `n`.
fn unquote_pieces(pieces: &Vec<Vec<char>>, n: usize) -> (r: Option<Vec<String>>)
    requires
        n <= pieces.len(),
    ensures
        match r {
            Some(v) => v.len() == n && forall|i: int|
                0 <= i < n ==> !clauses::unquote_panics(text::trim(#[trigger] pieces@[i]@)) && v@[i]@
                    == clauses::unquote_spec(text::trim(pieces@[i]@)),
            None => exists|i: int|
                0 <= i < n && clauses::unquote_panics(text::trim(#[trigger] pieces@[i]@)),
        },
{
    let mut out: Vec<String> = Vec::new();
    let mut i: usize = 0;
    while i < n
        invariant
            i <= n <= pieces.len(),
            out.len() == i,
            forall|j: int|
                0 <= j < i ==> !clauses::unquote_panics(text::trim(#[trigger] pieces@[j]@)) && out@[j]@
                    == clauses::unquote_spec(text::trim(pieces@[j]@)),
        decreases n - i,
    {
        let t = trimmed_chars(&pieces[i]);
        if unquote_would_panic(&t) {
            return None;
        }
        out.push(clauses::unquote(&t));
        i = i + 1;
    }
    Some(out)
}

/// The outcome of reading a statement.
enum Reading {
    Parsed(Query),
    Unsupported,
    Panics,
}

fn trimmed_sub(q: &Vec<char>, a: usize, b: usize) -> (r: String)
    requires
        a <= b <= q.len(),
    ensures
        r@ == text::trim(span(q@, a as int, b as int)),
{
    text::trimmed_string_of(q, a, b)
}

fn group_by_at_exec(w: &Vec<char>, i: usize) -> (r: bool)
    requires
        i < w.len(),
    ensures
        r == group_by_at(w@, i as int),
{
    proof {
        reveal_strlit("GROUP");
    }
    grammar::is_ws_at_exec(w, i) && grammar::kw_at_and_ws_exec(w, i + 1, "GROUP") && {
        let j = text::skip_ws_exec(w, i + 6);
        text::kw_at_exec(w, j, "BY")
    }
}

fn subquery_at_exec(w: &Vec<char>, i: usize) -> (r: bool)
    requires
        i < w.len(),
    ensures
        r == subquery_at(w@, i as int),
{
    grammar::char_at_exec(w, i, '(') && {
        let j = text::skip_ws_exec(w, i + 1);
        text::kw_at_exec(w, j, "SELECT")
    }
}

/// Whether `q[lo..hi]` holds a `GROUP BY` or a subquery (see `outside_subset`).
fn outside_subset_exec(q: &Vec<char>, lo: usize, hi: usize) -> (r: bool)
    requires
        lo <= hi <= q.len(),
    ensures
        r == outside_subset(span(q@, lo as int, hi as int)),
{
    let w = clauses::slice_chars(q, lo, hi);
    let mut i: usize = 0;
    while i < w.len()
        invariant
            i <= w.len(),
            w@ == span(q@, lo as int, hi as int),
            forall|j: int| 0 <= j < i ==> !(group_by_at(w@, j) || subquery_at(w@, j)),
        decreases w.len() - i,
    {
        if group_by_at_exec(&w, i) || subquery_at_exec(&w, i) {
            return true;
        }
        i = i + 1;
    }
    false
}

/// Whether `q[lo..hi]` holds `(` (see `calls_function`).
fn calls_function_exec(q: &Vec<char>, lo: usize, hi: usize) -> (r: bool)
    requires
        lo <= hi <= q.len(),
    ensures
        r == calls_function(span(q@, lo as int, hi as int)),
{
    let w = clauses::slice_chars(q, lo, hi);
    let mut i: usize = 0;
    while i < w.len()
        invariant
            i <= w.len(),
            w@ == span(q@, lo as int, hi as int),
            forall|j: int| 0 <= j < i ==> w@[j] != '(',
        decreases w.len() - i,
    {
        if w[i] == '(' {
            return true;
        }
        i = i + 1;
    }
    false
}

/// Whether the matched SELECT is refused (see `select_refused`).
fn select_refused_exec(q: &Vec<char>, c: &grammar::SelectCaps) -> (r: bool)
    requires
        grammar::select_caps_are(Some(*c), grammar::select_match(q@), q@.len()),
    ensures
        grammar::select_match(q@) matches Some(m) && r == select_refused(q@, m),
{
    if select_sorts_exec(q, c) || calls_function_exec(q, c.cols_lo, c.cols_hi) {
        return true;
    }
    match c.tail.where_span {
        Some((x, y)) => outside_subset_exec(q, x, y),
        None => false,
    }
}

/// Whether the matched SELECT sorts (see `select_sorts`).
fn select_sorts_exec(q: &Vec<char>, c: &grammar::SelectCaps) -> (r: bool)
    requires
        grammar::select_caps_are(Some(*c), grammar::select_match(q@), q@.len()),
    ensures
        grammar::select_match(q@) matches Some((_cols, (_a, b), w, _l, _o)) && r == select_sorts(
            q@,
            b,
            w,
        ),
{
    match c.tail.where_span {
        Some((_x, k)) => grammar::order_present_exec(q, k).is_some(),
        None => {
            let b = c.table_hi;
            let r = grammar::order_present_exec(q, b).is_some() || (b < q.len()
                && grammar::order_present_exec(q, b + 1).is_some());
            proof {
                if b >= q.len() {
                    assert(grammar::order_present(q@, b + 1) is None);
                }
            }
            r
        },
    }
}

fn read_statement(q: &Vec<char>) -> (r: Reading)
    ensures
        match r {
            Reading::Parsed(x) => parse_normalized(q@) == Ok::<QuerySpec, ()>(x.spec()) && x.well_formed(),
            Reading::Unsupported => parse_normalized(q@) is Err,
            Reading::Panics => panics_normalized(q@),
        },
        !(r is Panics) ==> !panics_normalized(q@),
{
    if let Some(c) = grammar::count_match_exec(q) {
        if let Some(r) = c.where_lo {
            if outside_subset_exec(q, r, q.len()) {
                return Reading::Unsupported;
            }
        }
        let table = trimmed_sub(q, c.table_lo, c.table_hi);
        let where_clause = match c.where_lo {
            Some(r) => Some(trimmed_sub(q, r, q.len())),
            None => None,
        };
        let mut cols: Vec<String> = Vec::new();
        cols.push(text::string_from("COUNT(*)"));
        proof {
            reveal_strlit("COUNT(*)");
            assert("COUNT(*)"@ =~= seq!['C', 'O', 'U', 'N', 'T', '(', '*', ')']);
            assert(cols@[0]@ == "COUNT(*)"@);
            assert(strings_view(cols@) =~= seq![seq!['C', 'O', 'U', 'N', 'T', '(', '*', ')']]);
        }
        let sel = SelectQuery {
            table,
            columns: Some(cols),
            count_only: true,
            where_clause,
            limit: None,
            offset: None,
        };
        return Reading::Parsed(Query::Select(sel));
    }
    if let Some(c) = grammar::select_match_exec(q) {
        if select_refused_exec(q, &c) {
            return Reading::Unsupported;
        }
        let table = trimmed_sub(q, c.table_lo, c.table_hi);
        let list = trimmed_chars(&clauses::slice_chars(q, c.cols_lo, c.cols_hi));
        let columns = if list.len() == 1 && list[0] == '*' {
            assert(list@ =~= seq!['*']);
            None
        } else {
            assert(list@ != seq!['*']);
            let pieces = clauses::split_commas(&list, 0, list.len());
            assert(list@.subrange(0, list@.len() as int) == list@);
            match unquote_pieces(&pieces, pieces.len()) {
                Some(names) => {
                    proof {
                        let sp = clauses::split_on(list@, ',');
                        assert(pieces@.map_values(|p: Vec<char>| p@) == sp);
                        assert(forall|i: int| 0 <= i < sp.len() ==> sp[i] == #[trigger] pieces@[i]@);
                        assert(strings_view(names@) =~= sp.map_values(
                            |p: Seq<char>| clauses::unquote_spec(text::trim(p)),
                        ));
                    }
                    Some(names)
                },
                None => {
                    proof {
                        let sp = clauses::split_on(list@, ',');
                        assert(pieces@.map_values(|p: Vec<char>| p@) == sp);
                        let i = choose|i: int|
                            0 <= i < pieces.len() && clauses::unquote_panics(
                                text::trim(#[trigger] pieces@[i]@),
                            );
                        assert(sp[i] == pieces@[i]@);
                    }
                    return Reading::Panics;
                },
            }
        };
        let where_clause = match c.tail.where_span {
            Some((x, y)) => {
                let w = trimmed_sub(q, x, y);
                if w.unicode_len() > 0 {
                    Some(w)
                } else {
                    None
                }
            },
            None => None,
        };
        let limit = match c.tail.limit_span {
            Some((x, y)) => numbers::parse_usize_in(q, x, y),
            None => None,
        };
        let offset = match c.tail.offset_span {
            Some((x, y)) => numbers::parse_usize_in(q, x, y),
            None => None,
        };
        let sel = SelectQuery { table, columns, count_only: false, where_clause, limit, offset };
        return Reading::Parsed(Query::Select(sel));
    }
    if let Some(c) = grammar::insert_match_exec(q) {
        let table = trimmed_sub(q, c.table_lo, c.table_hi);
        let cols = clauses::split_commas(q, c.cols_lo, c.cols_hi);
        let vals = clauses::split_values(q, c.vals_lo, c.vals_hi);
        let n: usize = if cols.len() <= vals.len() {
            cols.len()
        } else {
            vals.len()
        };
        let ghost cs = clauses::split_on(span(q@, c.cols_lo as int, c.cols_hi as int), ',');
        let ghost vs = clauses::split_values_spec(span(q@, c.vals_lo as int, c.vals_hi as int));
        proof {
            assert(cols@.map_values(|p: Vec<char>| p@) == cs);
            assert(vals@.map_values(|x: String| x@) == vs);
            assert(forall|i: int| 0 <= i < cs.len() ==> cs[i] == #[trigger] cols@[i]@);
            assert(forall|i: int| 0 <= i < vs.len() ==> vs[i] == #[trigger] vals@[i]@);
        }
        let names = match unquote_pieces(&cols, n) {
            Some(names) => names,
            None => {
                proof {
                    let i = choose|i: int|
                        0 <= i < n && clauses::unquote_panics(text::trim(#[trigger] cols@[i]@));
                    assert(cs[i] == cols@[i]@);
                }
                return Reading::Panics;
            },
        };
        let ghost ps = insert_pairs(cs, vs);
        let mut data: Vec<(String, String)> = Vec::new();
        let mut i: usize = 0;
        assert(ps.take(0) =~= Seq::<(Seq<char>, Seq<char>)>::empty());
        assert(clauses::pairs_view(data@) =~= Seq::<(Seq<char>, Seq<char>)>::empty());
        while i < n
            invariant
                i <= n,
                n == ps.len(),
                names.len() == n,
                n <= vals.len(),
                ps == insert_pairs(cs, vs),
                forall|j: int| 0 <= j < n ==> #[trigger] ps[j] == (names@[j]@, vals@[j]@),
                clauses::keys_distinct(clauses::pairs_view(data@)),
                clauses::pairs_to_map(clauses::pairs_view(data@)) == clauses::pairs_to_map(
                    ps.take(i as int),
                ),
            decreases n - i,
        {
            clauses::map_insert(&mut data, names[i].clone(), vals[i].clone());
            assert(ps.take(i + 1).drop_last() =~= ps.take(i as int));
            assert(ps.take(i + 1).last() == ps[i as int]);
            i = i + 1;
        }
        assert(ps.take(n as int) == ps);
        return Reading::Parsed(Query::Insert(InsertQuery { table, data }));
    }
    if let Some(c) = grammar::update_match_exec(q) {
        let table = trimmed_sub(q, c.table_lo, c.table_hi);
        let set_text = clauses::slice_chars(q, c.set_lo, c.set_hi);
        let set = clauses::parse_set_clause(&set_text);
        let where_clause = trimmed_sub(q, c.where_lo, q.len());
        return Reading::Parsed(Query::Update(UpdateQuery { table, set, where_clause }));
    }
    if let Some((a, b, w)) = grammar::delete_match_exec(q) {
        let table = trimmed_sub(q, a, b);
        let where_clause = trimmed_sub(q, w, q.len());
        return Reading::Parsed(Query::Delete(DeleteQuery { table, where_clause }));
    }
    Reading::Unsupported
}

fn normalize(raw: &str) -> (q: Vec<char>)
    ensures
        q@ == normalized(raw@),
{
    let v = text::to_chars(raw);
    let t = trimmed_chars(&v);
    text::trim_end_char_exec(&t, ';')
}

/// Reads a statement of the SQL subset.
///
/// The text is trimmed and its trailing semicolons dropped; then the forms
/// `SELECT COUNT(*) FROM t [WHERE c]`, `SELECT [DISTINCT] cols FROM t
/// [WHERE c] [LIMIT n] [OFFSET m]`, `INSERT INTO t (cols) VALUES (vals)`,
/// `UPDATE t SET col = val, ... WHERE c` and `DELETE FROM t WHERE c` are
/// tried in this order, keywords in any case. A SELECT with an `ORDER BY`
/// clause is not supported (rows are not sorted), and neither is anything
/// else: `SqlError::Unsupported` with the text as given.
pub fn parse(raw: &str) -> (r: Result<Query, SqlError>)
    requires
        !parse_panics(raw@),
    ensures
        match r {
            Ok(q) => parse_spec(raw@) == Ok::<QuerySpec, ()>(q.spec()) && q.well_formed(),
            Err(e) => parse_spec(raw@) is Err && (e matches SqlError::Unsupported(t) && t@ == raw@),
        },
{
    let q = normalize(raw);
    match read_statement(&q) {
        Reading::Parsed(x) => Ok(x),
        Reading::Unsupported => Err(SqlError::Unsupported(text::string_from(raw))),
        Reading::Panics => Err(SqlError::Unsupported(text::string_from(raw))),
    }
}

/// Whether reading `raw` would panic (see `parse_panics`); `parse` must
/// not be given such a text.
pub fn parse_would_panic(raw: &str) -> (b: bool)
    ensures
        b == parse_panics(raw@),
{
    let q = normalize(raw);
    match read_statement(&q) {
        Reading::Panics => true,
        _ => false,
    }
}

} // verus!
