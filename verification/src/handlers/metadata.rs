//! Schema metadata. A spreadsheet is one database; its tabs are tables;
//! a tab's columns are its header row, with types inferred from the first
//! data rows, behind a synthetic `_row` primary key.
use vstd::prelude::*;
use crate::sheets;
use crate::sheets::CellValue;
use crate::text;
use crate::handlers::crud;

verus! {

/// How many data rows the column types are inferred from.
pub const TYPE_SAMPLE_ROWS: usize = 100;

/// The `j`-th cell of a row, or null past its end.
pub open spec fn cell_or_null(row: Seq<CellValue>, j: int) -> CellValue {
    if 0 <= j < row.len() {
        row[j]
    } else {
        CellValue::Null
    }
}

/// The values of column `j` over the rows (null where a row is short).
pub open spec fn column_sample(rows: Seq<Vec<CellValue>>, j: int) -> Seq<CellValue> {
    Seq::new(rows.len(), |k: int| cell_or_null(rows[k]@, j))
}

/// The rows that the column types are inferred from.
pub open spec fn type_sample(rows: Seq<Vec<CellValue>>) -> Seq<Vec<CellValue>> {
    if rows.len() <= TYPE_SAMPLE_ROWS {
        rows
    } else {
        rows.take(TYPE_SAMPLE_ROWS as int)
    }
}

/// The values of column `j` over the rows.
pub fn column_values(rows: &Vec<Vec<CellValue>>, j: usize) -> (r: Vec<CellValue>)
    ensures
        r@ == column_sample(rows@, j as int),
{
    let mut r: Vec<CellValue> = Vec::new();
    let mut k: usize = 0;
    while k < rows.len()
        invariant
            k <= rows.len(),
            r@ == column_sample(rows@, j as int).take(k as int),
        decreases rows.len() - k,
    {
        let c = if j < rows[k].len() {
            sheets::copy_cell(&rows[k][j])
        } else {
            CellValue::Null
        };
        assert(c == cell_or_null(rows@[k as int]@, j as int));
        r.push(c);
        assert(r@ =~= column_sample(rows@, j as int).take(k + 1));
        k = k + 1;
    }
    assert(column_sample(rows@, j as int).take(rows.len() as int) =~= column_sample(
        rows@,
        j as int,
    ));
    r
}

/// The first rows of a tab, those the column types are inferred from.
pub fn take_type_sample(rows: Vec<Vec<CellValue>>) -> (r: Vec<Vec<CellValue>>)
    ensures
        r@ == type_sample(rows@),
{
    let mut rows = rows;
    rows.truncate(TYPE_SAMPLE_ROWS);
    rows
}

/// One column of a table, as the explorer shows it.
pub struct ColumnInfo {
    pub name: String,
    pub data_type: String,
    pub is_nullable: bool,
    pub is_pk: bool,
    pub is_auto_increment: bool,
}

/// The synthetic `_row` column: an INTEGER primary key that numbers itself.
pub open spec fn is_row_key_column(c: ColumnInfo) -> bool {
    &&& c.name@ == crud::row_key()
    &&& c.data_type@ == sheets::sql_type_name(sheets::SqlType::Integer)
    &&& !c.is_nullable
    &&& c.is_pk
    &&& c.is_auto_increment
}

/// A header's column: nullable, no key, of the type that its sample gives.
pub open spec fn is_header_column(c: ColumnInfo, name: Seq<char>, sample: Seq<CellValue>) -> bool {
    &&& c.name@ == name
    &&& c.data_type@ == sheets::sql_type_name(sheets::inferred_type(sample))
    &&& c.is_nullable
    &&& !c.is_pk
    &&& !c.is_auto_increment
}

/// The columns of a tab: `_row` first, then one per header, typed from
/// the sample rows.
pub fn build_columns(headers: &Vec<String>, sample: &Vec<Vec<CellValue>>) -> (r: Vec<ColumnInfo>)
    ensures
        r.len() == headers.len() + 1,
        is_row_key_column(r@[0]),
        forall|i: int|
            1 <= i <= headers.len() ==> is_header_column(
                #[trigger] r@[i],
                headers@[i - 1]@,
                column_sample(sample@, i - 1),
            ),
{
    proof {
        reveal_strlit("INTEGER");
        assert("INTEGER"@ =~= sheets::sql_type_name(sheets::SqlType::Integer));
    }
    let mut r: Vec<ColumnInfo> = Vec::new();
    r.push(
        ColumnInfo {
            name: text::string_from("_row"),
            data_type: text::string_from("INTEGER"),
            is_nullable: false,
            is_pk: true,
            is_auto_increment: true,
        },
    );
    let mut i: usize = 0;
    while i < headers.len()
        invariant
            i <= headers.len(),
            r.len() == i + 1,
            is_row_key_column(r@[0]),
            forall|k: int|
                1 <= k <= i ==> is_header_column(
                    #[trigger] r@[k],
                    headers@[k - 1]@,
                    column_sample(sample@, k - 1),
                ),
        decreases headers.len() - i,
    {
        let vals = column_values(sample, i);
        let t = sheets::infer_type(vals.as_slice());
        r.push(
            ColumnInfo {
                name: headers[i].clone(),
                data_type: text::string_from(t),
                is_nullable: true,
                is_pk: false,
                is_auto_increment: false,
            },
        );
        i = i + 1;
    }
    r
}

/// The header row of a tab's values, as texts.
pub fn fetch_headers(values: Vec<Vec<CellValue>>) -> (r: Vec<String>)
    ensures
        values.len() == 0 ==> r.len() == 0,
        values.len() > 0 ==> r.len() == values@[0].len() && forall|i: int|
            0 <= i < values@[0].len() ==> #[trigger] r@[i]@ == sheets::cell_text(values@[0]@[i]),
{
    let (headers, _) = sheets::get_sheet_data(values);
    headers
}

/// `cols` are the columns of a tab with these values: `_row`, then one
/// per header (none without a header row), typed from the first data rows.
pub open spec fn describes_table(values: Seq<Vec<CellValue>>, cols: Seq<ColumnInfo>) -> bool {
    &&& cols.len() >= 1
    &&& is_row_key_column(cols[0])
    &&& values.len() == 0 ==> cols.len() == 1
    &&& values.len() > 0 ==> {
        &&& cols.len() == values[0].len() + 1
        &&& forall|i: int|
            1 <= i <= values[0].len() ==> is_header_column(
                #[trigger] cols[i],
                sheets::cell_text(values[0]@[i - 1]),
                column_sample(type_sample(values.skip(1)), i - 1),
            )
    }
}

/// The columns of a tab from its values: its headers, typed from its
/// first data rows.
pub fn table_columns(values: Vec<Vec<CellValue>>) -> (r: Vec<ColumnInfo>)
    ensures
        describes_table(values@, r@),
{
    let ghost vs = values@;
    let (headers, rows) = sheets::get_sheet_data(values);
    let sample = take_type_sample(rows);
    let r = build_columns(&headers, &sample);
    proof {
        if vs.len() > 0 {
            assert forall|i: int| 1 <= i <= vs[0].len() implies is_header_column(
                #[trigger] r@[i],
                sheets::cell_text(vs[0]@[i - 1]),
                column_sample(type_sample(vs.skip(1)), i - 1),
            ) by {
                assert(headers@[i - 1]@ == sheets::cell_text(vs[0]@[i - 1]));
            }
        }
    }
    r
}

/// The positions of the tabs whose values could be read, in order.
pub open spec fn read_tabs(tabs: Seq<(String, Option<Vec<Vec<CellValue>>>)>) -> Seq<int>
    decreases tabs.len(),
{
    if tabs.len() == 0 {
        Seq::empty()
    } else if tabs.last().1 is Some {
        read_tabs(tabs.drop_last()).push(tabs.len() - 1)
    } else {
        read_tabs(tabs.drop_last())
    }
}

/// The tables of a schema listing: of the tabs (each with its values, or
/// none when they could not be read), those that were read, in order, each
/// with its name and columns; the others are left out.
pub fn readable_tables(tabs: Vec<(String, Option<Vec<Vec<CellValue>>>)>) -> (r: Vec<
    (String, Vec<ColumnInfo>),
>)
    ensures
        r.len() == read_tabs(tabs@).len(),
        forall|k: int|
            0 <= k < r.len() ==> {
                let t = #[trigger] tabs@[read_tabs(tabs@)[k]];
                &&& r@[k].0@ == t.0@
                &&& describes_table(t.1->0@, r@[k].1@)
            },
{
    let ghost orig = tabs@;
    let mut tabs = tabs;
    assert(orig.len() == tabs.len());
    let mut r: Vec<(String, Vec<ColumnInfo>)> = Vec::new();
    let mut i: usize = 0;
    while tabs.len() > 0
        invariant
            i + tabs.len() == orig.len(),
            orig.len() <= usize::MAX,
            tabs@ == orig.skip(i as int),
            r.len() == read_tabs(orig.take(i as int)).len(),
            forall|k: int|
                0 <= k < r.len() ==> {
                    let t = #[trigger] orig[read_tabs(orig.take(i as int))[k]];
                    &&& 0 <= read_tabs(orig.take(i as int))[k] < i
                    &&& r@[k].0@ == t.0@
                    &&& describes_table(t.1->0@, r@[k].1@)
                },
        decreases tabs.len(),
    {
        let ghost before = read_tabs(orig.take(i as int));
        assert(orig.take(i + 1).drop_last() =~= orig.take(i as int));
        let (name, values) = tabs.remove(0);
        assert(orig[i as int] == (name, values));
        let ghost after = read_tabs(orig.take(i + 1));
        match values {
            Some(v) => {
                let ghost vv = v@;
                let cols = table_columns(v);
                r.push((name, cols));
                assert(after == before.push(i as int));
                assert forall|k: int| 0 <= k < r.len() implies {
                    let t = #[trigger] orig[after[k]];
                    &&& 0 <= after[k] < i + 1
                    &&& r@[k].0@ == t.0@
                    &&& describes_table(t.1->0@, r@[k].1@)
                } by {
                    if k < r.len() - 1 {
                        assert(after[k] == before[k]);
                    }
                }
            },
            None => {
                assert(after == before);
            },
        }
        assert(tabs@ =~= orig.skip(i + 1));
        i = i + 1;
    }
    assert(orig.take(i as int) =~= orig);
    r
}

} // verus!
