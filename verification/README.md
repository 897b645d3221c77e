# google_sheets_plugin

A Google Sheets spreadsheet read as a small SQL database, for a database
tool that talks JSON-RPC 2.0 over stdio. Each tab is a table, its first row
holds the column names, and every data row carries a synthetic `_row`
primary key: its 1-based sheet row.

The library under `src/` is verified with Verus; `app/` is the process
around it (stdio, HTTP, JSON).

## Layout

- `src/text.rs`, `src/numbers.rs`: whitespace, trimming, keywords, and the
  integer and float grammars of `str::parse`.
- `src/pattern.rs`: the calls into the `regex` crate.
- `src/sql/`: the SQL subset. `grammar.rs` reads the statement forms,
  `clauses.rs` their column lists, values and assignments, `query.rs` the
  statements, `filter.rs` WHERE clauses and `_row = <n>`.
- `src/sheets.rs`: cell texts, type inference, A1 column letters,
  spreadsheet ids, tab lookups, request addresses and error texts.
- `src/auth.rs`: when the cached OAuth2 token is used and when it is
  refreshed.
- `src/handlers/`: what each JSON-RPC method answers: the spreadsheet id,
  row edits (`crud.rs`), CREATE TABLE text (`ddl.rs`), column lists
  (`metadata.rs`) and SELECT results (`query.rs`).
- `app/`: the stdio loop, the method dispatch, the Sheets and OAuth2 HTTP
  calls, and the conversions from and to `serde_json` values.
- `tests/`: tests of the library on concrete values.

## SQL subset

- `SELECT <cols | *> FROM <tab> [WHERE ...] [LIMIT n [OFFSET m]]`
- `SELECT COUNT(*) FROM <tab> [WHERE ...]`
- `INSERT INTO <tab> (cols...) VALUES (...)`
- `UPDATE <tab> SET col = val, ... WHERE _row = N`
- `DELETE FROM <tab> WHERE _row = N`

A SELECT with `ORDER BY`, a function call in its column list (an
aggregate other than `COUNT(*)`), or a `GROUP BY` or subquery in its WHERE
clause is refused rather than read without doing what it asks.
When a request is answered 401, the token is refreshed and the request
sent once more.
