//! What a SELECT answers. The tab's rows are numbered by their sheet row
//! (`_row`: 1 is the header row, 2 the first data row), filtered by the
//! WHERE clause, then counted, or paged and projected onto the selected
//! columns.
use vstd::prelude::*;
use crate::numbers;
use crate::sheets;
use crate::sheets::CellValue;
use crate::sheets::NumberCell;
use crate::text;
use crate::sql::clauses;
use crate::sql::filter;
use crate::sql::filter::CondSpec;
use crate::sql::filter::NumOrder;
use crate::sql::filter::WhereFilter;
use crate::sql::query::strings_view;
use crate::sql::query::SelectQuery;
use crate::sql::query::SelectSpec;
use crate::sql::query;
use crate::sql::query::Query;
use crate::handlers::rpc::RpcError;
use crate::handlers::rpc::INVALID_PARAMS;
use crate::handlers::rpc::SERVER_ERROR;
use crate::handlers::rpc::METHOD_NOT_FOUND;
use crate::handlers::crud;
use crate::handlers::metadata;
use crate::handlers::metadata::cell_or_null;

verus! {

/// A cell value with texts in place of strings.
pub enum CellView {
    Null,
    Bool(bool),
    Number(Seq<char>, bool),
    Text(Seq<char>),
    Other(Seq<char>),
}

pub open spec fn cell_view(c: CellValue) -> CellView {
    match c {
        CellValue::Null => CellView::Null,
        CellValue::Bool(b) => CellView::Bool(b),
        CellValue::Number(n) => CellView::Number(n.text@, n.fractional),
        CellValue::Text(s) => CellView::Text(s@),
        CellValue::Other(s) => CellView::Other(s@),
    }
}

pub open spec fn row_view(row: Seq<CellValue>) -> Seq<CellView> {
    row.map_values(|c: CellValue| cell_view(c))
}

/// The columns of a query over a tab: `_row`, then the tab's headers.
pub open spec fn query_headers(headers: Seq<Seq<char>>) -> Seq<Seq<char>> {
    seq![crud::row_key()] + headers
}

/// Column `c` of the row numbered `n` whose data cells are `raw`: the
/// number first, then the cells (null past the row's end).
pub open spec fn numbered_cell(raw: Seq<CellValue>, n: nat, c: int) -> CellView {
    if c == 0 {
        CellView::Number(numbers::decimal_string(n), false)
    } else {
        cell_view(cell_or_null(raw, c - 1))
    }
}

/// The text of column `c` of that row.
pub open spec fn numbered_text(raw: Seq<CellValue>, n: nat, c: int) -> Seq<char> {
    if c == 0 {
        numbers::decimal_string(n)
    } else {
        sheets::cell_text(cell_or_null(raw, c - 1))
    }
}

/// The (column, text) pairs that a WHERE clause reads of that row.
pub open spec fn row_texts(all: Seq<Seq<char>>, raw: Seq<CellValue>, n: nat) -> Seq<
    (Seq<char>, Seq<char>),
> {
    Seq::new(all.len(), |c: int| (all[c], numbered_text(raw, n, c)))
}

/// The sheet row of the `i`-th data row.
pub open spec fn sheet_row(i: int) -> nat {
    (i + 2) as nat
}

/// The conditions of an optional WHERE clause (none without one).
pub open spec fn select_conditions(w: Option<Seq<char>>) -> Seq<Option<CondSpec>> {
    match w {
        None => Seq::empty(),
        Some(w) => filter::where_conditions(w),
    }
}

/// Every condition holds of the row (for some answer of `numeric`).
pub open spec fn row_admitted<F: Fn(&str, &str) -> NumOrder>(
    conds: Seq<Option<CondSpec>>,
    row: Seq<(Seq<char>, Seq<char>)>,
    numeric: F,
) -> bool {
    forall|i: int| 0 <= i < conds.len() ==> filter::condition_passes(#[trigger] conds[i], row, numeric)
}

/// Some condition fails on the row (for some answer of `numeric`).
pub open spec fn row_rejected<F: Fn(&str, &str) -> NumOrder>(
    conds: Seq<Option<CondSpec>>,
    row: Seq<(Seq<char>, Seq<char>)>,
    numeric: F,
) -> bool {
    exists|i: int| 0 <= i < conds.len() && filter::condition_fails(#[trigger] conds[i], row, numeric)
}

/// `m` marks the data rows that the conditions keep: a kept row passes
/// them all, a dropped row fails one.
pub open spec fn mask_fits<F: Fn(&str, &str) -> NumOrder>(
    m: Seq<bool>,
    conds: Seq<Option<CondSpec>>,
    all: Seq<Seq<char>>,
    raw: Seq<Vec<CellValue>>,
    numeric: F,
) -> bool {
    &&& m.len() == raw.len()
    &&& forall|i: int|
        0 <= i < raw.len() ==> (#[trigger] m[i] ==> row_admitted(
            conds,
            row_texts(all, raw[i]@, sheet_row(i)),
            numeric,
        )) && (!m[i] ==> row_rejected(conds, row_texts(all, raw[i]@, sheet_row(i)), numeric))
}

/// The indices that a mask marks, in order.
pub open spec fn kept_indices(m: Seq<bool>) -> Seq<int>
    decreases m.len(),
{
    if m.len() == 0 {
        Seq::empty()
    } else if m.last() {
        kept_indices(m.drop_last()).push(m.len() - 1)
    } else {
        kept_indices(m.drop_last())
    }
}

/// The window `[start, end)` of the `len` kept rows that a page shows:
/// from the OFFSET (or, with neither OFFSET nor LIMIT, from the start of
/// the requested page), at most LIMIT rows (or a page's size).
pub open spec fn page_window(
    len: nat,
    offset: Option<usize>,
    limit: Option<usize>,
    page: int,
    page_size: int,
) -> (int, int) {
    let off: int = match offset {
        Some(o) => o as int,
        None => if limit is None {
            (page - 1) * page_size
        } else {
            0
        },
    };
    let lim: int = match limit {
        Some(l) => l as int,
        None => page_size,
    };
    (if off < len {
        off
    } else {
        len as int
    }, if off + lim < len {
        off + lim
    } else {
        len as int
    })
}

/// The columns (by position among the query's columns) that a result row
/// shows: all of them for `*`; else the selected ones, or none at all when
/// one of them is not a column.
pub open spec fn projection(all: Seq<Seq<char>>, columns: Option<Seq<Seq<char>>>) -> Seq<int> {
    match columns {
        None => Seq::new(all.len(), |c: int| c),
        Some(sel) => if forall|k: int| 0 <= k < sel.len() ==> #[trigger] crud::position_of(all, sel[k]) is Some {
            Seq::new(sel.len(), |k: int| crud::position_of(all, sel[k]).unwrap())
        } else {
            Seq::empty()
        },
    }
}

/// A result row: the projected cells of the row numbered `n`.
pub open spec fn out_row(raw: Seq<CellValue>, n: nat, proj: Seq<int>) -> Seq<CellView> {
    Seq::new(proj.len(), |c: int| numbered_cell(raw, n, proj[c]))
}

/// What a SELECT answers.
pub enum OutcomeView {
    /// The tab has no header row: no columns and no rows.
    NoColumns,
    /// `SELECT COUNT(*)`: the number of rows that the WHERE clause keeps.
    Count(nat),
    /// The rows of the page, with the number of rows that the WHERE clause keeps.
    Rows { columns: Seq<Seq<char>>, rows: Seq<Seq<CellView>>, total_count: nat },
}

/// The answer to a SELECT over a tab with these headers and data rows,
/// when the WHERE clause keeps the rows that `m` marks.
pub open spec fn select_view(
    sel: SelectSpec,
    headers: Seq<Seq<char>>,
    raw: Seq<Vec<CellValue>>,
    m: Seq<bool>,
    page: int,
    page_size: int,
) -> OutcomeView {
    if headers.len() == 0 {
        OutcomeView::NoColumns
    } else {
        let all = query_headers(headers);
        let kept = kept_indices(m);
        if sel.count_only {
            OutcomeView::Count(kept.len())
        } else {
            let (start, end) = page_window(kept.len(), sel.offset, sel.limit, page, page_size);
            let proj = projection(all, sel.columns);
            OutcomeView::Rows {
                columns: match sel.columns {
                    None => all,
                    Some(s) => s,
                },
                rows: Seq::new(
                    (end - start) as nat,
                    |k: int| out_row(raw[kept[start + k]]@, sheet_row(kept[start + k]), proj),
                ),
                total_count: kept.len(),
            }
        }
    }
}

/// The answer to a SELECT.
pub enum SelectOutcome {
    NoColumns,
    Count(usize),
    Rows { columns: Vec<String>, rows: Vec<Vec<CellValue>>, total_count: usize },
}

impl SelectOutcome {
    pub open spec fn spec(&self) -> OutcomeView {
        match self {
            SelectOutcome::NoColumns => OutcomeView::NoColumns,
            SelectOutcome::Count(n) => OutcomeView::Count(*n as nat),
            SelectOutcome::Rows { columns, rows, total_count } => OutcomeView::Rows {
                columns: strings_view(columns@),
                rows: rows@.map_values(|r: Vec<CellValue>| row_view(r@)),
                total_count: *total_count as nat,
            },
        }
    }
}

/// The columns of a query over a tab: `_row`, then the headers.
pub fn query_header_row(headers: &Vec<String>) -> (r: Vec<String>)
    ensures
        strings_view(r@) == query_headers(strings_view(headers@)),
{
    let mut r: Vec<String> = Vec::new();
    r.push(text::string_from("_row"));
    let mut i: usize = 0;
    while i < headers.len()
        invariant
            i <= headers.len(),
            r.len() == i + 1,
            strings_view(r@) == query_headers(strings_view(headers@)).take(i + 1),
        decreases headers.len() - i,
    {
        let ghost before = r@;
        r.push(headers[i].clone());
        assert(r@ == before.push(r@[i + 1]));
        assert(strings_view(r@) =~= query_headers(strings_view(headers@)).take(i + 2));
        i = i + 1;
    }
    assert(query_headers(strings_view(headers@)).take(headers.len() + 1) =~= query_headers(
        strings_view(headers@),
    ));
    r
}

/// The (column, text) pairs of the row numbered `n` with data cells `raw`.
pub fn row_text_pairs(all: &Vec<String>, raw: &Vec<CellValue>, n: usize) -> (r: Vec<
    (String, String),
>)
    ensures
        clauses::pairs_view(r@) == row_texts(strings_view(all@), raw@, n as nat),
{
    let ghost want = row_texts(strings_view(all@), raw@, n as nat);
    let mut r: Vec<(String, String)> = Vec::new();
    let mut c: usize = 0;
    while c < all.len()
        invariant
            c <= all.len(),
            want == row_texts(strings_view(all@), raw@, n as nat),
            r.len() == c,
            want.len() == all.len(),
            clauses::pairs_view(r@) == want.take(c as int),
        decreases all.len() - c,
    {
        let t = if c == 0 {
            numbers::usize_to_string(n)
        } else if c - 1 < raw.len() {
            sheets::value_to_string(&raw[c - 1])
        } else {
            String::new()
        };
        assert(t@ == numbered_text(raw@, n as nat, c as int));
        let ghost before = r@;
        r.push((all[c].clone(), t));
        assert(r@ == before.push(r@[c as int]));
        assert(clauses::pairs_view(r@) =~= want.take(c + 1));
        c = c + 1;
    }
    assert(want.take(all.len() as int) =~= want);
    r
}

/// Which data rows the WHERE clause (if any) keeps.
pub fn select_mask<F: Fn(&str, &str) -> NumOrder>(
    where_clause: &Option<String>,
    all: &Vec<String>,
    raw: &Vec<Vec<CellValue>>,
    numeric: &F,
) -> (r: Vec<bool>)
    requires
        forall|x: &str, y: &str| #[trigger] numeric.requires((x, y)),
        raw.len() < usize::MAX,
    ensures
        mask_fits(
            r@,
            select_conditions(crate::sql::query::opt_string_view(*where_clause)),
            strings_view(all@),
            raw@,
            *numeric,
        ),
{
    let f = match where_clause {
        Some(w) => filter::compile_where(w.as_str()),
        None => WhereFilter { conditions: Vec::new() },
    };
    let ghost conds = select_conditions(crate::sql::query::opt_string_view(*where_clause));
    assert(f.spec() =~= conds);
    let ghost av = strings_view(all@);
    let mut r: Vec<bool> = Vec::new();
    let mut i: usize = 0;
    while i < raw.len()
        invariant
            i <= raw.len(),
            raw.len() < usize::MAX,
            f.spec() == conds,
            av == strings_view(all@),
            forall|x: &str, y: &str| #[trigger] numeric.requires((x, y)),
            r.len() == i,
            forall|j: int|
                0 <= j < i ==> (#[trigger] r@[j] ==> row_admitted(
                    conds,
                    row_texts(av, raw@[j]@, sheet_row(j)),
                    *numeric,
                )) && (!r@[j] ==> row_rejected(
                    conds,
                    row_texts(av, raw@[j]@, sheet_row(j)),
                    *numeric,
                )),
        decreases raw.len() - i,
    {
        let pairs = row_text_pairs(all, &raw[i], i + 2);
        let b = f.matches(&pairs, numeric);
        assert(filter::row_view(pairs@) == row_texts(av, raw@[i as int]@, sheet_row(i as int)));
        r.push(b);
        i = i + 1;
    }
    r
}

proof fn lemma_kept_indices_len(m: Seq<bool>)
    ensures
        kept_indices(m).len() <= m.len(),
        forall|k: int|
            0 <= k < kept_indices(m).len() ==> 0 <= #[trigger] kept_indices(m)[k] < m.len(),
    decreases m.len(),
{
    if m.len() > 0 {
        lemma_kept_indices_len(m.drop_last());
    }
}

/// The indices of the kept data rows, in order.
pub fn kept_rows(mask: &Vec<bool>) -> (r: Vec<usize>)
    ensures
        r@.map_values(|x: usize| x as int) == kept_indices(mask@),
{
    let mut r: Vec<usize> = Vec::new();
    let mut i: usize = 0;
    while i < mask.len()
        invariant
            i <= mask.len(),
            r@.map_values(|x: usize| x as int) == kept_indices(mask@.take(i as int)),
        decreases mask.len() - i,
    {
        assert(mask@.take(i + 1).drop_last() =~= mask@.take(i as int));
        if mask[i] {
            r.push(i);
        }
        assert(r@.map_values(|x: usize| x as int) =~= kept_indices(mask@.take(i + 1)));
        i = i + 1;
    }
    assert(mask@.take(mask.len() as int) =~= mask@);
    r
}

/// The window of the kept rows that the page shows.
pub fn page_bounds(
    len: usize,
    offset: Option<usize>,
    limit: Option<usize>,
    page: usize,
    page_size: usize,
) -> (r: (usize, usize))
    requires
        offset is None && limit is None ==> page >= 1 && (page - 1) * page_size <= usize::MAX,
    ensures
        (r.0 as int, r.1 as int) == page_window(len as nat, offset, limit, page as int, page_size as int),
{
    let off: usize = match offset {
        Some(o) => o,
        None => if limit.is_none() {
            (page - 1) * page_size
        } else {
            0
        },
    };
    let lim: usize = match limit {
        Some(l) => l,
        None => page_size,
    };
    let start: usize = if off < len {
        off
    } else {
        len
    };
    let end: usize = if off >= len {
        len
    } else if lim < len - off {
        off + lim
    } else {
        len
    };
    (start, end)
}

/// The positions (among the query's columns) of the columns a result row shows.
pub fn projection_indices(all: &Vec<String>, columns: &Option<Vec<String>>) -> (r: Vec<usize>)
    ensures
        r@.map_values(|x: usize| x as int) == projection(
            strings_view(all@),
            match *columns {
                None => None,
                Some(s) => Some(strings_view(s@)),
            },
        ),
{
    let ghost av = strings_view(all@);
    match columns {
        None => {
            let mut r: Vec<usize> = Vec::new();
            let mut c: usize = 0;
            while c < all.len()
                invariant
                    c <= all.len(),
                    r.len() == c,
                    forall|k: int| 0 <= k < c ==> r@[k] == k,
                decreases all.len() - c,
            {
                r.push(c);
                c = c + 1;
            }
            assert(r@.map_values(|x: usize| x as int) =~= Seq::new(all.len() as nat, |k: int| k));
            r
        },
        Some(sel) => {
            let ghost sv = strings_view(sel@);
            let mut r: Vec<usize> = Vec::new();
            let mut k: usize = 0;
            while k < sel.len()
                invariant
                    k <= sel.len(),
                    av == strings_view(all@),
                    sv == strings_view(sel@),
                    *columns == Some(*sel),
                    r.len() == k,
                    forall|j: int|
                        0 <= j < k ==> crud::position_of(av, #[trigger] sv[j]) == Some(
                            r@[j] as int,
                        ),
                decreases sel.len() - k,
            {
                match crud::find_column(all, &sel[k]) {
                    Some(p) => {
                        r.push(p);
                    },
                    None => {
                        assert(crud::position_of(av, sv[k as int]) is None);
                        assert(!(forall|j: int|
                            0 <= j < sv.len() ==> #[trigger] crud::position_of(av, sv[j]) is Some));
                        assert(*columns == Some(*sel));
                        assert(projection(av, Some(sv)) == Seq::<int>::empty());
                        let e: Vec<usize> = Vec::new();
                        assert(e@.map_values(|x: usize| x as int) =~= Seq::<int>::empty());
                        return e;
                    },
                }
                k = k + 1;
            }
            assert(forall|j: int|
                0 <= j < sv.len() ==> #[trigger] crud::position_of(av, sv[j]) is Some);
            assert(r@.map_values(|x: usize| x as int) =~= Seq::new(
                sv.len(),
                |j: int| crud::position_of(av, sv[j]).unwrap(),
            ));
            r
        },
    }
}

/// The result row for the data row `raw` numbered `n`: the projected cells.
pub fn output_row(raw: &Vec<CellValue>, n: usize, proj: &Vec<usize>) -> (r: Vec<CellValue>)
    ensures
        row_view(r@) == out_row(raw@, n as nat, proj@.map_values(|x: usize| x as int)),
{
    let ghost pv = proj@.map_values(|x: usize| x as int);
    let ghost want = out_row(raw@, n as nat, pv);
    let mut r: Vec<CellValue> = Vec::new();
    let mut c: usize = 0;
    while c < proj.len()
        invariant
            c <= proj.len(),
            pv == proj@.map_values(|x: usize| x as int),
            want == out_row(raw@, n as nat, pv),
            r.len() == c,
            want.len() == proj.len(),
            row_view(r@) == want.take(c as int),
        decreases proj.len() - c,
    {
        let p = proj[c];
        let cell = if p == 0 {
            CellValue::Number(NumberCell { text: numbers::usize_to_string(n), fractional: false })
        } else if p - 1 < raw.len() {
            sheets::copy_cell(&raw[p - 1])
        } else {
            CellValue::Null
        };
        assert(cell_view(cell) == numbered_cell(raw@, n as nat, pv[c as int]));
        let ghost before = r@;
        r.push(cell);
        assert(r@ == before.push(r@[c as int]));
        assert(row_view(r@) =~= want.take(c + 1));
        c = c + 1;
    }
    assert(want.take(proj.len() as int) =~= want);
    r
}

fn copy_strings(v: &Vec<String>) -> (r: Vec<String>)
    ensures
        strings_view(r@) == strings_view(v@),
{
    let mut r: Vec<String> = Vec::new();
    let mut i: usize = 0;
    while i < v.len()
        invariant
            i <= v.len(),
            r.len() == i,
            forall|j: int| 0 <= j < i ==> #[trigger] r@[j]@ == v@[j]@,
        decreases v.len() - i,
    {
        r.push(v[i].clone());
        i = i + 1;
    }
    assert(strings_view(r@) =~= strings_view(v@));
    r
}

/// Answers a SELECT over a tab with these headers and data rows: with no
/// header row, nothing; else the rows that the WHERE clause keeps, counted
/// for `COUNT(*)`, or else the page of them (by OFFSET and LIMIT, or by
/// `page` and `page_size` when the query has neither), projected onto the
/// selected columns. `numeric` tells how two texts compare as
/// floating-point numbers.
pub fn run_select<F: Fn(&str, &str) -> NumOrder>(
    sel: &SelectQuery,
    headers: &Vec<String>,
    raw_rows: &Vec<Vec<CellValue>>,
    page: usize,
    page_size: usize,
    numeric: &F,
) -> (r: SelectOutcome)
    requires
        forall|x: &str, y: &str| #[trigger] numeric.requires((x, y)),
        raw_rows.len() < usize::MAX,
        headers.len() > 0 && !sel.count_only && sel.offset is None && sel.limit is None ==> page
            >= 1 && (page - 1) * page_size <= usize::MAX,
    ensures
        headers.len() == 0 ==> r.spec() == OutcomeView::NoColumns,
        headers.len() > 0 ==> exists|m: Seq<bool>|
            mask_fits(
                m,
                select_conditions(sel.spec().where_clause),
                query_headers(strings_view(headers@)),
                raw_rows@,
                *numeric,
            ) && r.spec() == select_view(
                sel.spec(),
                strings_view(headers@),
                raw_rows@,
                m,
                page as int,
                page_size as int,
            ),
{
    if headers.len() == 0 {
        return SelectOutcome::NoColumns;
    }
    let ghost hv = strings_view(headers@);
    let all = query_header_row(headers);
    let mask = select_mask(&sel.where_clause, &all, raw_rows, numeric);
    let kept = kept_rows(&mask);
    let ghost kv = kept_indices(mask@);
    proof {
        lemma_kept_indices_len(mask@);
        assert forall|j: int| 0 <= j < kept.len() implies #[trigger] kept@[j] as int == kv[j] by {
            assert(kept@.map_values(|x: usize| x as int)[j] == kept@[j] as int);
        }
    }
    if sel.count_only {
        let r = SelectOutcome::Count(kept.len());
        assert(r.spec() == select_view(
            sel.spec(),
            hv,
            raw_rows@,
            mask@,
            page as int,
            page_size as int,
        ));
        return r;
    }
    let (start, end) = page_bounds(kept.len(), sel.offset, sel.limit, page, page_size);
    let proj = projection_indices(&all, &sel.columns);
    let ghost pv = proj@.map_values(|x: usize| x as int);
    assert(pv == projection(query_headers(hv), sel.spec().columns));
    let mut rows: Vec<Vec<CellValue>> = Vec::new();
    let mut k: usize = start;
    while k < end
        invariant
            start <= k <= end <= kept.len(),
            kept.len() == kv.len(),
            kv.len() <= raw_rows.len(),
            raw_rows.len() < usize::MAX,
            forall|j: int| 0 <= j < kept.len() ==> #[trigger] kept@[j] as int == kv[j],
            forall|j: int| 0 <= j < kv.len() ==> 0 <= #[trigger] kv[j] < raw_rows.len(),
            pv == proj@.map_values(|x: usize| x as int),
            rows.len() == k - start,
            forall|j: int|
                0 <= j < k - start ==> #[trigger] row_view(rows@[j]@) == out_row(
                    raw_rows@[kv[start + j]]@,
                    sheet_row(kv[start + j]),
                    pv,
                ),
        decreases end - k,
    {
        let i = kept[k];
        assert(kv[k as int] == i as int);
        let row = output_row(&raw_rows[i], i + 2, &proj);
        rows.push(row);
        k = k + 1;
    }
    let columns = match &sel.columns {
        None => all,
        Some(s) => copy_strings(s),
    };
    let r = SelectOutcome::Rows { columns, rows, total_count: kept.len() };
    proof {
        let want = select_view(sel.spec(), hv, raw_rows@, mask@, page as int, page_size as int);
        let got_rows = rows@.map_values(|x: Vec<CellValue>| row_view(x@));
        assert(got_rows =~= Seq::new(
            (end - start) as nat,
            |j: int| out_row(raw_rows@[kv[start + j]]@, sheet_row(kv[start + j]), pv),
        ));
        assert(r.spec() == want);
    }
    r
}

/// Reads the statement of an `execute_query` call; a text that none of
/// the supported forms matches is a server error with the parser's message.
pub fn parse_statement(text: &str) -> (r: Result<Query, RpcError>)
    requires
        !query::parse_panics(text@),
    ensures
        match r {
            Ok(q) => query::parse_spec(text@) == Ok::<query::QuerySpec, ()>(q.spec())
                && q.well_formed(),
            Err(e) => query::parse_spec(text@) is Err && e.code == SERVER_ERROR && e.message@
                == query::unsupported_message(text@),
        },
{
    match query::parse(text) {
        Ok(q) => Ok(q),
        Err(e) => Err(RpcError { code: SERVER_ERROR, message: e.message() }),
    }
}

/// The sheet row that an UPDATE or DELETE targets: its WHERE clause must
/// hold `_row = <number>`; else the parameters are invalid.
pub fn target_row(where_clause: &str) -> (r: Result<usize, RpcError>)
    ensures
        match r {
            Ok(n) => filter::row_number_of(where_clause@) == Some(n),
            Err(e) => filter::row_number_of(where_clause@) is None && e.code == INVALID_PARAMS
                && e.message@ == query::missing_row_message(),
        },
{
    match filter::extract_row_num(where_clause) {
        Ok(n) => Ok(n),
        Err(e) => Err(RpcError { code: INVALID_PARAMS, message: e.message() }),
    }
}

pub open spec fn explain_refusal_message() -> Seq<char> {
    "Google Sheets does not support EXPLAIN \u{2014} queries are flattened into REST API calls."@
}

/// The answer to `explain_query`: Sheets has no query plans.
pub fn refuse_explain() -> (r: RpcError)
    ensures
        r.code == METHOD_NOT_FOUND,
        r.message@ == explain_refusal_message(),
{
    RpcError {
        code: METHOD_NOT_FOUND,
        message: text::string_from(
            "Google Sheets does not support EXPLAIN \u{2014} queries are flattened into REST API calls.",
        ),
    }
}

/// `SELECT COUNT(*)` answers the number of rows that the same SELECT
/// without `COUNT(*)` reports as its total: both are the rows that the
/// WHERE clause keeps.
pub proof fn count_matches_total(
    sel: SelectSpec,
    headers: Seq<Seq<char>>,
    raw: Seq<Vec<CellValue>>,
    m: Seq<bool>,
    page: int,
    page_size: int,
)
    requires
        headers.len() > 0,
    ensures
        select_view(
            (SelectSpec { count_only: true, ..sel }),
            headers,
            raw,
            m,
            page,
            page_size,
        ) == OutcomeView::Count(kept_indices(m).len()),
        select_view(
            (SelectSpec { count_only: false, ..sel }),
            headers,
            raw,
            m,
            page,
            page_size,
        ) matches OutcomeView::Rows { total_count, .. } && total_count == kept_indices(m).len(),
{
}

/// The kept rows are the marked rows, each once, in sheet order.
pub proof fn kept_rows_in_order(m: Seq<bool>)
    ensures
        forall|a: int, b: int|
            0 <= a < b < kept_indices(m).len() ==> #[trigger] kept_indices(m)[a]
                < #[trigger] kept_indices(m)[b],
        forall|k: int|
            0 <= k < kept_indices(m).len() ==> 0 <= #[trigger] kept_indices(m)[k] < m.len()
                && m[kept_indices(m)[k]],
        forall|i: int|
            0 <= i < m.len() && #[trigger] m[i] ==> exists|k: int|
                0 <= k < kept_indices(m).len() && #[trigger] kept_indices(m)[k] == i,
    decreases m.len(),
{
    if m.len() > 0 {
        let p = m.drop_last();
        kept_rows_in_order(p);
        lemma_kept_indices_len(p);
        let kp = kept_indices(p);
        let km = kept_indices(m);
        assert forall|k: int| 0 <= k < kp.len() implies #[trigger] m[kp[k]] by {
            assert(m[kp[k]] == p[kp[k]]);
        }
        assert forall|i: int| 0 <= i < m.len() && #[trigger] m[i] implies exists|k: int|
            0 <= k < km.len() && #[trigger] km[k] == i by {
            if i < m.len() - 1 {
                assert(p[i] == m[i]);
                let k = choose|k: int| 0 <= k < kp.len() && #[trigger] kp[k] == i;
                assert(km[k] == kp[k]);
            } else {
                assert(km[km.len() - 1] == i);
            }
        }
    }
}

/// Without a WHERE clause every data row is kept, in sheet order.
pub proof fn no_where_keeps_every_row<F: Fn(&str, &str) -> NumOrder>(
    m: Seq<bool>,
    all: Seq<Seq<char>>,
    raw: Seq<Vec<CellValue>>,
    numeric: F,
)
    requires
        mask_fits(m, select_conditions(None), all, raw, numeric),
    ensures
        kept_indices(m) == Seq::new(raw.len(), |i: int| i),
{
    assert forall|i: int| 0 <= i < m.len() implies #[trigger] m[i] by {
        if !m[i] {
            assert(row_rejected(
                select_conditions(None),
                row_texts(all, raw[i]@, sheet_row(i)),
                numeric,
            ));
        }
    }
    lemma_all_kept(m);
}

proof fn lemma_all_kept(m: Seq<bool>)
    requires
        forall|i: int| 0 <= i < m.len() ==> #[trigger] m[i],
    ensures
        kept_indices(m) == Seq::new(m.len(), |i: int| i),
    decreases m.len(),
{
    if m.len() > 0 {
        let p = m.drop_last();
        assert forall|i: int| 0 <= i < p.len() implies #[trigger] p[i] by {
            assert(p[i] == m[i]);
        }
        lemma_all_kept(p);
        assert(m.last());
        assert(kept_indices(m) =~= Seq::new(m.len(), |i: int| i));
    }
}

/// A page holds at most LIMIT rows (when the query has a LIMIT), and never
/// more than the rows that the WHERE clause keeps.
pub proof fn page_respects_limit(
    sel: SelectSpec,
    headers: Seq<Seq<char>>,
    raw: Seq<Vec<CellValue>>,
    m: Seq<bool>,
    page: int,
    page_size: int,
)
    requires
        sel.offset is None && sel.limit is None ==> page >= 1,
        page_size >= 0,
    ensures
        select_view(sel, headers, raw, m, page, page_size) matches OutcomeView::Rows {
            rows,
            total_count,
            ..
        } ==> rows.len() <= total_count && (sel.limit matches Some(l) ==> rows.len() <= l),
{
    if headers.len() > 0 && !sel.count_only {
        let len = kept_indices(m).len();
        let (start, end) = page_window(len, sel.offset, sel.limit, page, page_size);
        assert(0 <= start <= end <= len) by (nonlinear_arith)
            requires
                (start, end) == page_window(len, sel.offset, sel.limit, page, page_size),
                sel.offset is None && sel.limit is None ==> page >= 1,
                page_size >= 0,
        {
        }
    }
}

/// The `_row` that a SELECT shows for the `i`-th data row is the decimal
/// text of its sheet row, `i + 2`, and the WHERE clause reads the same
/// text; given back as a primary key value, that text parses as the same
/// sheet row, so an edit or a delete from the grid targets the row shown.
pub proof fn shown_row_key_names_the_row(raw: Seq<CellValue>, i: nat)
    requires
        i + 2 <= usize::MAX,
    ensures
        numbered_cell(raw, sheet_row(i as int), 0) == CellView::Number(
            numbers::decimal_string(sheet_row(i as int)),
            false,
        ),
        numbered_text(raw, sheet_row(i as int), 0) == numbers::decimal_string(sheet_row(i as int)),
        numbers::parse_usize_spec(numbers::decimal_string(sheet_row(i as int))) == Some(
            (i + 2) as usize,
        ),
{
    numbers::usize_text_round_trip((i + 2) as usize);
}

/// The columns that the explorer lists for a tab (`_row`, then one per
/// header) are the columns of `SELECT *` on it, in the same order.
pub proof fn select_star_shows_the_table_columns(
    cols: Seq<metadata::ColumnInfo>,
    sel: SelectSpec,
    headers: Seq<Seq<char>>,
    raw: Seq<Vec<CellValue>>,
    m: Seq<bool>,
    page: int,
    page_size: int,
)
    requires
        headers.len() > 0,
        sel.columns is None,
        !sel.count_only,
        cols.len() == headers.len() + 1,
        metadata::is_row_key_column(cols[0]),
        forall|i: int| 1 <= i <= headers.len() ==> #[trigger] cols[i].name@ == headers[i - 1],
    ensures
        select_view(sel, headers, raw, m, page, page_size) matches OutcomeView::Rows {
            columns,
            ..
        } && columns == cols.map_values(|c: metadata::ColumnInfo| c.name@),
{
    let names = cols.map_values(|c: metadata::ColumnInfo| c.name@);
    assert(query_headers(headers) =~= names);
}

} // verus!
