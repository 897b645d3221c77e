//! Row edits from the grid. A tab's only primary key is the synthetic
//! `_row` column, the 1-based sheet row; these functions decide the cells
//! of a new row, the row that a key names and the cell that an edit writes.
use vstd::prelude::*;
use crate::numbers;
use crate::sheets;
use crate::sql::clauses;
use crate::sql::filter;
use crate::sql::query::strings_view;
use crate::text;
use crate::handlers::rpc::RpcError;
use crate::handlers::rpc::INVALID_PARAMS;

verus! {

/// The first position at or after `i` that holds `name`.
pub open spec fn position_from(hs: Seq<Seq<char>>, name: Seq<char>, i: int) -> Option<int>
    decreases hs.len() - i,
{
    if i < 0 || i >= hs.len() {
        None
    } else if hs[i] == name {
        Some(i)
    } else {
        position_from(hs, name, i + 1)
    }
}

/// The first position of `name` among the headers.
pub open spec fn position_of(hs: Seq<Seq<char>>, name: Seq<char>) -> Option<int> {
    position_from(hs, name, 0)
}

pub proof fn lemma_position_from(hs: Seq<Seq<char>>, name: Seq<char>, i: int)
    requires
        0 <= i <= hs.len(),
    ensures
        match position_from(hs, name, i) {
            Some(p) => i <= p < hs.len() && hs[p] == name && forall|j: int|
                i <= j < p ==> #[trigger] hs[j] != name,
            None => forall|j: int| i <= j < hs.len() ==> #[trigger] hs[j] != name,
        },
    decreases hs.len() - i,
{
    if i < hs.len() && hs[i] != name {
        lemma_position_from(hs, name, i + 1);
    }
}

/// The position of the first header equal to `name`.
pub fn find_column(headers: &Vec<String>, name: &String) -> (r: Option<usize>)
    ensures
        match r {
            Some(p) => position_of(strings_view(headers@), name@) == Some(p as int),
            None => position_of(strings_view(headers@), name@) is None,
        },
        match r {
            Some(p) => p < headers.len() && headers@[p as int]@ == name@ && forall|j: int|
                0 <= j < p ==> #[trigger] headers@[j]@ != name@,
            None => forall|j: int| 0 <= j < headers.len() ==> #[trigger] headers@[j]@ != name@,
        },
{
    let ghost hs = strings_view(headers@);
    let mut i: usize = 0;
    while i < headers.len()
        invariant
            i <= headers.len(),
            hs == strings_view(headers@),
            position_from(hs, name@, i as int) == position_from(hs, name@, 0),
            forall|j: int| 0 <= j < i ==> #[trigger] headers@[j]@ != name@,
        decreases headers.len() - i,
    {
        assert(hs[i as int] == headers@[i as int]@);
        if headers[i] == *name {
            return Some(i);
        }
        i = i + 1;
    }
    proof {
        lemma_position_from(hs, name@, 0);
    }
    None
}

/// The cells of a new row, one per header: the text given for that
/// column, or the empty text.
pub fn record_row(headers: &Vec<String>, data: &Vec<(String, String)>) -> (r: Vec<String>)
    ensures
        r.len() == headers.len(),
        forall|i: int|
            0 <= i < headers.len() ==> #[trigger] r@[i]@ == filter::row_cell(
                clauses::pairs_view(data@),
                headers@[i]@,
            ),
{
    let mut r: Vec<String> = Vec::new();
    let mut i: usize = 0;
    while i < headers.len()
        invariant
            i <= headers.len(),
            r.len() == i,
            forall|j: int|
                0 <= j < i ==> #[trigger] r@[j]@ == filter::row_cell(
                    clauses::pairs_view(data@),
                    headers@[j]@,
                ),
        decreases headers.len() - i,
    {
        r.push(filter::row_lookup(data, &headers[i]));
        i = i + 1;
    }
    r
}

/// The name of the synthetic primary key column.
pub open spec fn row_key() -> Seq<char> {
    "_row"@
}

pub open spec fn wrong_key_message(pk_col: Seq<char>) -> Seq<char> {
    "This driver only supports '_row' as primary key (got '"@ + pk_col + "')."@
}

pub open spec fn bad_key_value_message(pk_val: Seq<char>) -> Seq<char> {
    "Invalid primary key value: '"@ + pk_val + "'."@
}

/// The sheet row that a primary key names: the key column must be `_row`
/// and its value a row number.
pub fn primary_key_row(pk_col: &str, pk_val: &str) -> (r: Result<usize, RpcError>)
    ensures
        match r {
            Ok(n) => pk_col@ == row_key() && numbers::parse_usize_spec(pk_val@) == Some(n),
            Err(e) => e.code == INVALID_PARAMS && if pk_col@ != row_key() {
                e.message@ == wrong_key_message(pk_col@)
            } else {
                numbers::parse_usize_spec(pk_val@) is None && e.message@ == bad_key_value_message(
                    pk_val@,
                )
            },
        },
{
    let col = text::string_from(pk_col);
    let key = text::string_from("_row");
    if col != key {
        let mut m = text::string_from("This driver only supports '_row' as primary key (got '");
        m.append(pk_col);
        m.append("').");
        return Err(RpcError { code: INVALID_PARAMS, message: m });
    }
    match numbers::parse_usize(pk_val) {
        Some(n) => Ok(n),
        None => {
            let mut m = text::string_from("Invalid primary key value: '");
            m.append(pk_val);
            m.append("'.");
            Err(RpcError { code: INVALID_PARAMS, message: m })
        },
    }
}

pub open spec fn missing_column_message(column: Seq<char>, table: Seq<char>) -> Seq<char> {
    "Column '"@ + column + "' not found in sheet '"@ + table + "'."@
}

/// The column letter of the cell that an edit of `column` writes: the
/// letter of the first header equal to it.
pub fn edited_column_letter(headers: &Vec<String>, column: &str, table: &str) -> (r: Result<
    String,
    RpcError,
>)
    ensures
        match r {
            Ok(l) => exists|p: int|
                position_of(strings_view(headers@), column@) == Some(p) && l@
                    == sheets::col_letter_spec((p + 1) as nat),
            Err(e) => position_of(strings_view(headers@), column@) is None && e.code
                == INVALID_PARAMS && e.message@ == missing_column_message(column@, table@),
        },
{
    let name = text::string_from(column);
    match find_column(headers, &name) {
        Some(p) => Ok(sheets::col_letter(p + 1)),
        None => {
            let mut m = text::string_from("Column '");
            m.append(column);
            m.append("' not found in sheet '");
            m.append(table);
            m.append("'.");
            Err(RpcError { code: INVALID_PARAMS, message: m })
        },
    }
}

/// The cells that an UPDATE's assignments write, in order: for each
/// assigned column that a header names, its letter and the new value;
/// assignments to other columns are skipped.
pub open spec fn planned_cells(hs: Seq<Seq<char>>, set: Seq<(Seq<char>, Seq<char>)>) -> Seq<
    (Seq<char>, Seq<char>),
>
    decreases set.len(),
{
    if set.len() == 0 {
        Seq::empty()
    } else {
        let p = planned_cells(hs, set.drop_last());
        match position_of(hs, set.last().0) {
            Some(pos) => p.push((sheets::col_letter_spec((pos + 1) as nat), set.last().1)),
            None => p,
        }
    }
}

/// The (column letter, value) of each cell that an UPDATE writes.
pub fn updated_cells(headers: &Vec<String>, set: &Vec<(String, String)>) -> (r: Vec<
    (String, String),
>)
    ensures
        clauses::pairs_view(r@) == planned_cells(strings_view(headers@), clauses::pairs_view(set@)),
{
    let ghost hs = strings_view(headers@);
    let ghost sv = clauses::pairs_view(set@);
    let mut r: Vec<(String, String)> = Vec::new();
    let mut i: usize = 0;
    while i < set.len()
        invariant
            i <= set.len(),
            hs == strings_view(headers@),
            sv == clauses::pairs_view(set@),
            clauses::pairs_view(r@) == planned_cells(hs, sv.take(i as int)),
        decreases set.len() - i,
    {
        assert(sv.take(i + 1).drop_last() =~= sv.take(i as int));
        assert(sv.take(i + 1).last() == sv[i as int]);
        assert(sv[i as int] == (set@[i as int].0@, set@[i as int].1@));
        match find_column(headers, &set[i].0) {
            Some(p) => {
                let l = sheets::col_letter(p + 1);
                r.push((l, set[i].1.clone()));
                assert(clauses::pairs_view(r@) =~= planned_cells(hs, sv.take(i + 1)));
            },
            None => {},
        }
        i = i + 1;
    }
    assert(sv.take(set.len() as int) =~= sv);
    r
}

} // verus!
