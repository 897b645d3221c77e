//! DDL. Sheets has no schema: the one DDL text that means something is a
//! CREATE TABLE synthesised from the inferred column types (for the ER
//! diagram and the SQL preview); every other DDL request is refused.
use vstd::prelude::*;
use crate::sheets;
use crate::sheets::CellValue;
use crate::text;
use crate::sql::query::strings_view;
use crate::handlers::metadata;
use crate::handlers::rpc::RpcError;
use crate::handlers::rpc::METHOD_NOT_FOUND;

verus! {

/// The header texts of a tab's values (none without rows).
pub open spec fn header_texts(values: Seq<Vec<CellValue>>) -> Seq<Seq<char>> {
    if values.len() == 0 {
        Seq::empty()
    } else {
        Seq::new(values[0].len() as nat, |i: int| sheets::cell_text(values[0]@[i]))
    }
}

/// The data rows of a tab's values: all rows after the header row.
pub open spec fn data_rows(values: Seq<Vec<CellValue>>) -> Seq<Vec<CellValue>> {
    if values.len() == 0 {
        Seq::empty()
    } else {
        values.skip(1)
    }
}

/// The lines joined by `,\n`.
pub open spec fn join_lines(lines: Seq<Seq<char>>) -> Seq<char>
    decreases lines.len(),
{
    if lines.len() == 0 {
        Seq::empty()
    } else if lines.len() == 1 {
        lines[0]
    } else {
        join_lines(lines.drop_last()) + ",\n"@ + lines.last()
    }
}

pub open spec fn row_key_definition() -> Seq<char> {
    "  \"_row\" INTEGER PRIMARY KEY"@
}

pub open spec fn column_definition(name: Seq<char>, sql_type: Seq<char>) -> Seq<char> {
    "  \""@ + name + "\" "@ + sql_type
}

/// The column definitions of a tab: `_row` first, then each header with
/// the type inferred from the first data rows.
pub open spec fn column_definitions(headers: Seq<Seq<char>>, rows: Seq<Vec<CellValue>>) -> Seq<
    Seq<char>,
> {
    seq![row_key_definition()] + Seq::new(
        headers.len(),
        |i: int|
            column_definition(
                headers[i],
                sheets::sql_type_name(
                    sheets::inferred_type(
                        metadata::column_sample(metadata::type_sample(rows), i),
                    ),
                ),
            ),
    )
}

pub open spec fn create_table_text(table: Seq<char>, definitions: Seq<Seq<char>>) -> Seq<char> {
    "CREATE TABLE \""@ + table + "\" (\n"@ + join_lines(definitions) + "\n);"@
}

/// The CREATE TABLE text of a tab, from its values.
pub fn create_table_sql(table: &str, values: Vec<Vec<CellValue>>) -> (r: String)
    ensures
        r@ == create_table_text(
            table@,
            column_definitions(header_texts(values@), data_rows(values@)),
        ),
{
    let ghost vs = values@;
    let (headers, rows) = sheets::get_sheet_data(values);
    let ghost hs = strings_view(headers@);
    assert(hs =~= header_texts(vs));
    assert(rows@ == data_rows(vs));
    let sample = metadata::take_type_sample(rows);
    let ghost defs = column_definitions(hs, data_rows(vs));
    let mut lines: Vec<String> = Vec::new();
    lines.push(text::string_from("  \"_row\" INTEGER PRIMARY KEY"));
    let mut i: usize = 0;
    while i < headers.len()
        invariant
            i <= headers.len(),
            hs == strings_view(headers@),
            sample@ == metadata::type_sample(data_rows(vs)),
            defs == column_definitions(hs, data_rows(vs)),
            defs.len() == headers.len() + 1,
            lines.len() == i + 1,
            strings_view(lines@) == defs.take(i + 1),
        decreases headers.len() - i,
    {
        let vals = metadata::column_values(&sample, i);
        let t = sheets::infer_type(vals.as_slice());
        let mut d = text::string_from("  \"");
        d.append(headers[i].as_str());
        d.append("\" ");
        d.append(t);
        assert(defs[i + 1] == column_definition(hs[i as int], t@));
        assert(d@ == defs[i + 1]);
        let ghost before = lines@;
        lines.push(d);
        assert(lines@ == before.push(d));
        assert forall|k: int| 0 <= k < i + 2 implies #[trigger] strings_view(lines@)[k] == defs.take(
            i + 2,
        )[k] by {
            if k < i + 1 {
                assert(lines@[k] == before[k]);
                assert(strings_view(before)[k] == defs.take(i + 1)[k]);
            }
        }
        assert(strings_view(lines@) =~= defs.take(i + 2));
        i = i + 1;
    }
    assert(defs.take(defs.len() as int) =~= defs);
    let mut out = text::string_from("CREATE TABLE \"");
    out.append(table);
    out.append("\" (\n");
    let ghost head = out@;
    let mut k: usize = 0;
    while k < lines.len()
        invariant
            k <= lines.len(),
            strings_view(lines@) == defs,
            out@ == head + join_lines(defs.take(k as int)),
        decreases lines.len() - k,
    {
        if k > 0 {
            out.append(",\n");
        }
        out.append(lines[k].as_str());
        assert(defs.take(k + 1).drop_last() =~= defs.take(k as int));
        assert(lines@[k as int]@ == defs[k as int]);
        assert(out@ =~= head + join_lines(defs.take(k + 1)));
        k = k + 1;
    }
    assert(defs.take(lines.len() as int) =~= defs);
    out.append("\n);");
    out
}

/// The DDL requests that a spreadsheet cannot serve.
pub enum DdlRequest {
    AddColumn,
    AlterColumn,
    CreateIndex,
    CreateForeignKey,
    DropIndex,
    DropForeignKey,
}

pub open spec fn refusal_message(req: DdlRequest) -> Seq<char> {
    match req {
        DdlRequest::AddColumn => "Google Sheets does not support ALTER TABLE ADD COLUMN."@,
        DdlRequest::AlterColumn => "Google Sheets does not support ALTER TABLE MODIFY COLUMN."@,
        DdlRequest::CreateIndex | DdlRequest::DropIndex => "Google Sheets does not support indexes."@,
        DdlRequest::CreateForeignKey | DdlRequest::DropForeignKey =>
            "Google Sheets does not support foreign keys."@,
    }
}

/// The answer to a DDL request that a spreadsheet cannot serve: "method
/// not found", with what Sheets lacks.
pub fn refuse_ddl(req: DdlRequest) -> (r: RpcError)
    ensures
        r.code == METHOD_NOT_FOUND,
        r.message@ == refusal_message(req),
{
    let m = match req {
        DdlRequest::AddColumn => "Google Sheets does not support ALTER TABLE ADD COLUMN.",
        DdlRequest::AlterColumn => "Google Sheets does not support ALTER TABLE MODIFY COLUMN.",
        DdlRequest::CreateIndex | DdlRequest::DropIndex => "Google Sheets does not support indexes.",
        DdlRequest::CreateForeignKey | DdlRequest::DropForeignKey =>
            "Google Sheets does not support foreign keys.",
    };
    RpcError { code: METHOD_NOT_FOUND, message: text::string_from(m) }
}

} // verus!
