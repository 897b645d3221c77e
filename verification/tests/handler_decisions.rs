use google_sheets_plugin::handlers::metadata::readable_tables;
use google_sheets_plugin::handlers::crud::{
    edited_column_letter, find_column, primary_key_row, record_row, updated_cells,
};
use google_sheets_plugin::handlers::ddl::{create_table_sql, refuse_ddl, DdlRequest};
use google_sheets_plugin::handlers::metadata::{
    build_columns, column_values, fetch_headers, table_columns, take_type_sample, ColumnInfo,
};
use google_sheets_plugin::handlers::rpc::{INVALID_PARAMS, METHOD_NOT_FOUND, SERVER_ERROR};
use google_sheets_plugin::handlers::spreadsheet_id;
use google_sheets_plugin::sheets::{value_to_string, CellValue, NumberCell};

fn num(t: &str) -> CellValue {
    let fractional = t.parse::<f64>().map(|f| f.fract() != 0.0).unwrap_or(false);
    CellValue::Number(NumberCell { text: t.to_string(), fractional })
}

fn text(t: &str) -> CellValue {
    CellValue::Text(t.to_string())
}

fn strings(v: &[&str]) -> Vec<String> {
    v.iter().map(|s| s.to_string()).collect()
}

fn pairs(v: &[(&str, &str)]) -> Vec<(String, String)> {
    v.iter().map(|(a, b)| (a.to_string(), b.to_string())).collect()
}

fn column(c: &ColumnInfo) -> (String, String, bool, bool, bool) {
    (c.name.clone(), c.data_type.clone(), c.is_nullable, c.is_pk, c.is_auto_increment)
}

#[test]
fn spreadsheet_id_of_the_database_field() {
    match spreadsheet_id("   ") {
        Err(e) => {
            assert_eq!(e.code, -32602);
            assert_eq!(
                e.message,
                "No Spreadsheet ID provided. Enter the Google Sheets Spreadsheet ID (or full URL) in the 'Database' field."
            );
        }
        Ok(_) => panic!("a blank field names no spreadsheet"),
    }
    assert!(matches!(spreadsheet_id(""), Err(_)));
    assert_eq!(spreadsheet_id(" 1AbC ").ok().unwrap(), "1AbC");
    assert_eq!(
        spreadsheet_id("https://docs.google.com/spreadsheets/d/1AbC/edit").ok().unwrap(),
        "1AbC"
    );
}

#[test]
fn error_codes() {
    assert_eq!(INVALID_PARAMS, -32602);
    assert_eq!(SERVER_ERROR, -32000);
    assert_eq!(METHOD_NOT_FOUND, -32601);
}

#[test]
fn new_row_follows_the_header_order() {
    let headers = strings(&["name", "email", "tag"]);
    let data = pairs(&[("tag", "lead"), ("name", "Jane Doe"), ("other", "x")]);
    assert_eq!(record_row(&headers, &data), vec!["Jane Doe", "", "lead"]);
    assert_eq!(record_row(&strings(&[]), &data), Vec::<String>::new());
}

#[test]
fn primary_key_must_be_row() {
    assert!(matches!(primary_key_row("_row", "7"), Ok(7)));
    assert!(matches!(primary_key_row("_row", "+12"), Ok(12)));
    match primary_key_row("id", "7") {
        Err(e) => {
            assert_eq!(e.code, -32602);
            assert_eq!(e.message, "This driver only supports '_row' as primary key (got 'id').");
        }
        Ok(_) => panic!("only _row is a key"),
    }
    for bad in ["", "seven", "-1", " 7", "7.0", "99999999999999999999999"] {
        match primary_key_row("_row", bad) {
            Err(e) => {
                assert_eq!(e.code, -32602);
                assert_eq!(e.message, format!("Invalid primary key value: '{bad}'."));
            }
            Ok(_) => panic!("{bad} is no row number"),
        }
    }
}

#[test]
fn edited_column_is_found_by_header() {
    let headers = strings(&["name", "email", "tag", "email"]);
    assert_eq!(find_column(&headers, &"email".to_string()), Some(1));
    assert_eq!(find_column(&headers, &"nope".to_string()), None);
    assert_eq!(edited_column_letter(&headers, "tag", "Contacts").ok().unwrap(), "C");
    assert_eq!(edited_column_letter(&headers, "email", "Contacts").ok().unwrap(), "B");
    match edited_column_letter(&headers, "phone", "Contacts") {
        Err(e) => {
            assert_eq!(e.code, -32602);
            assert_eq!(e.message, "Column 'phone' not found in sheet 'Contacts'.");
        }
        Ok(_) => panic!("no such column"),
    }
}

#[test]
fn update_writes_the_known_columns() {
    let headers = strings(&["name", "email", "tag"]);
    let set = pairs(&[("tag", "customer"), ("missing", "x"), ("name", "Ann")]);
    assert_eq!(updated_cells(&headers, &set), pairs(&[("C", "customer"), ("A", "Ann")]));
}

#[test]
fn create_table_from_inferred_types() {
    let values = vec![
        vec![text("name"), text("age"), text("score")],
        vec![text("Ann"), num("31"), num("4.5")],
        vec![text("Bob"), num("28")],
    ];
    assert_eq!(
        create_table_sql("People", values),
        "CREATE TABLE \"People\" (\n  \"_row\" INTEGER PRIMARY KEY,\n  \"name\" TEXT,\n  \"age\" INTEGER,\n  \"score\" REAL\n);"
    );
    assert_eq!(
        create_table_sql("Empty", vec![]),
        "CREATE TABLE \"Empty\" (\n  \"_row\" INTEGER PRIMARY KEY\n);"
    );
}

#[test]
fn create_table_samples_the_first_hundred_rows() {
    let mut values = vec![vec![text("v")]];
    for i in 0..100 {
        values.push(vec![num(&i.to_string())]);
    }
    values.push(vec![text("late text")]);
    assert_eq!(
        create_table_sql("T", values),
        "CREATE TABLE \"T\" (\n  \"_row\" INTEGER PRIMARY KEY,\n  \"v\" INTEGER\n);"
    );
}

#[test]
fn ddl_requests_are_refused() {
    let cases = [
        (DdlRequest::AddColumn, "Google Sheets does not support ALTER TABLE ADD COLUMN."),
        (DdlRequest::AlterColumn, "Google Sheets does not support ALTER TABLE MODIFY COLUMN."),
        (DdlRequest::CreateIndex, "Google Sheets does not support indexes."),
        (DdlRequest::DropIndex, "Google Sheets does not support indexes."),
        (DdlRequest::CreateForeignKey, "Google Sheets does not support foreign keys."),
        (DdlRequest::DropForeignKey, "Google Sheets does not support foreign keys."),
    ];
    for (req, msg) in cases {
        let e = refuse_ddl(req);
        assert_eq!(e.code, -32601);
        assert_eq!(e.message, msg);
    }
}

#[test]
fn columns_have_a_row_key_first() {
    let headers = strings(&["city", "pop"]);
    let sample = vec![vec![text("Rome"), num("2800000")], vec![text("Oslo")]];
    let cols = build_columns(&headers, &sample);
    assert_eq!(cols.len(), 3);
    assert_eq!(column(&cols[0]), ("_row".to_string(), "INTEGER".to_string(), false, true, true));
    assert_eq!(column(&cols[1]), ("city".to_string(), "TEXT".to_string(), true, false, false));
    assert_eq!(column(&cols[2]), ("pop".to_string(), "INTEGER".to_string(), true, false, false));
}

#[test]
fn table_columns_of_values() {
    let values = vec![vec![text("a"), text("b")], vec![num("1.5"), text("x")]];
    let cols = table_columns(values);
    assert_eq!(cols.len(), 3);
    assert_eq!(column(&cols[1]), ("a".to_string(), "REAL".to_string(), true, false, false));
    assert_eq!(column(&cols[2]), ("b".to_string(), "TEXT".to_string(), true, false, false));
    let cols = table_columns(vec![]);
    assert_eq!(cols.len(), 1);
    assert_eq!(cols[0].name, "_row");
}

#[test]
fn headers_and_samples() {
    assert_eq!(fetch_headers(vec![vec![text("x"), num("2")], vec![]]), vec!["x", "2"]);
    assert!(fetch_headers(vec![]).is_empty());
    let rows: Vec<Vec<CellValue>> = (0..150).map(|i| vec![num(&i.to_string())]).collect();
    let sample = take_type_sample(rows);
    assert_eq!(sample.len(), 100);
    assert_eq!(value_to_string(&sample[99][0]), "99");
    let col = column_values(&vec![vec![text("a"), text("b")], vec![text("c")]], 1);
    assert_eq!(col.len(), 2);
    assert_eq!(value_to_string(&col[0]), "b");
    assert!(matches!(col[1], CellValue::Null));
}

#[test]
fn schema_lists_the_tabs_that_were_read() {
    let tabs = vec![
        ("A".to_string(), Some(vec![vec![text("x")], vec![num("1")]])),
        ("Broken".to_string(), None),
        ("C".to_string(), Some(vec![])),
    ];
    let tables = readable_tables(tabs);
    assert_eq!(tables.len(), 2);
    assert_eq!(tables[0].0, "A");
    assert_eq!(column(&tables[0].1[1]), ("x".to_string(), "INTEGER".to_string(), true, false, false));
    assert_eq!(tables[1].0, "C");
    assert_eq!(tables[1].1.len(), 1);
    assert_eq!(tables[1].1[0].name, "_row");
}
