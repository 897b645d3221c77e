use google_sheets_plugin::handlers::query::{
    kept_rows, output_row, page_bounds, parse_statement, projection_indices, query_header_row,
    refuse_explain, row_text_pairs, run_select, select_mask, target_row, SelectOutcome,
};
use google_sheets_plugin::sheets::{value_to_string, CellValue, NumberCell};
use google_sheets_plugin::sql::filter::NumOrder;
use google_sheets_plugin::sql::{parse, Query, SelectQuery};

fn float_order(a: &str, b: &str) -> NumOrder {
    match (a.parse::<f64>(), b.parse::<f64>()) {
        (Ok(x), Ok(y)) => {
            if x < y {
                NumOrder::Less
            } else if x > y {
                NumOrder::Greater
            } else if x == y {
                NumOrder::Equal
            } else {
                NumOrder::Unordered
            }
        }
        _ => NumOrder::NotNumeric,
    }
}

fn num(t: &str) -> CellValue {
    let fractional = t.parse::<f64>().map(|f| f.fract() != 0.0).unwrap_or(false);
    CellValue::Number(NumberCell { text: t.to_string(), fractional })
}

fn text(t: &str) -> CellValue {
    CellValue::Text(t.to_string())
}

fn strings(v: &[&str]) -> Vec<String> {
    v.iter().map(|s| s.to_string()).collect()
}

fn headers() -> Vec<String> {
    strings(&["customer", "region", "total", "status"])
}

fn sales() -> Vec<Vec<CellValue>> {
    vec![
        vec![text("Ann"), text("EU"), num("120"), text("paid")],
        vec![text("Bob"), text("US"), num("80.5"), text("open")],
        vec![text("Cid"), text("EU"), num("15"), text("paid")],
        vec![text("Dee"), text("EU")],
        vec![text("Eve"), text("APAC"), num("300"), text("paid")],
    ]
}

fn select(sql: &str) -> SelectQuery {
    match parse(sql) {
        Ok(Query::Select(s)) => s,
        _ => panic!("not a SELECT: {sql}"),
    }
}

fn texts(rows: &[Vec<CellValue>]) -> Vec<Vec<String>> {
    rows.iter().map(|r| r.iter().map(value_to_string).collect()).collect()
}

fn answer(sql: &str, page: usize, page_size: usize) -> SelectOutcome {
    run_select(&select(sql), &headers(), &sales(), page, page_size, &float_order)
}

#[test]
fn select_star_numbers_rows_by_sheet_row() {
    match answer("SELECT * FROM Sales", 1, 100) {
        SelectOutcome::Rows { columns, rows, total_count } => {
            assert_eq!(columns, vec!["_row", "customer", "region", "total", "status"]);
            assert_eq!(total_count, 5);
            let t = texts(&rows);
            assert_eq!(t[0], vec!["2", "Ann", "EU", "120", "paid"]);
            assert_eq!(t[3], vec!["5", "Dee", "EU", "", ""]);
            assert_eq!(t[4][0], "6");
            assert!(matches!(&rows[0][0], CellValue::Number(n) if n.text == "2" && !n.fractional));
            assert!(matches!(rows[3][3], CellValue::Null));
        }
        _ => panic!("expected rows"),
    }
}

#[test]
fn where_filters_and_count_matches_total() {
    match answer("SELECT COUNT(*) FROM Sales WHERE region = 'EU'", 1, 100) {
        SelectOutcome::Count(n) => assert_eq!(n, 3),
        _ => panic!("expected a count"),
    }
    match answer("SELECT * FROM Sales WHERE region = 'EU'", 1, 100) {
        SelectOutcome::Rows { rows, total_count, .. } => {
            assert_eq!(total_count, 3);
            let t = texts(&rows);
            assert_eq!(t.iter().map(|r| r[0].as_str()).collect::<Vec<_>>(), vec!["2", "4", "5"]);
        }
        _ => panic!("expected rows"),
    }
    match answer("SELECT COUNT(*) FROM Sales", 1, 100) {
        SelectOutcome::Count(n) => assert_eq!(n, 5),
        _ => panic!("expected a count"),
    }
}

#[test]
fn numeric_and_row_conditions() {
    match answer("SELECT customer FROM Sales WHERE total > 100", 1, 100) {
        SelectOutcome::Rows { columns, rows, total_count } => {
            assert_eq!(columns, vec!["customer"]);
            assert_eq!(total_count, 2);
            assert_eq!(texts(&rows), vec![vec!["Ann"], vec!["Eve"]]);
        }
        _ => panic!("expected rows"),
    }
    match answer("SELECT customer FROM Sales WHERE _row = 3", 1, 100) {
        SelectOutcome::Rows { rows, .. } => assert_eq!(texts(&rows), vec![vec!["Bob"]]),
        _ => panic!("expected rows"),
    }
    match answer("SELECT * FROM Sales WHERE total IS NULL", 1, 100) {
        SelectOutcome::Rows { rows, .. } => assert_eq!(texts(&rows)[0][1], "Dee"),
        _ => panic!("expected rows"),
    }
}

#[test]
fn projection_with_pagination() {
    // The README's example: `_row, customer, total` of the paid orders, LIMIT and OFFSET.
    match answer("SELECT _row, customer, total FROM Orders WHERE status = 'paid' LIMIT 1 OFFSET 1", 1, 100) {
        SelectOutcome::Rows { columns, rows, total_count } => {
            assert_eq!(columns, vec!["_row", "customer", "total"]);
            assert_eq!(total_count, 3);
            assert_eq!(texts(&rows), vec![vec!["4", "Cid", "15"]]);
        }
        _ => panic!("expected rows"),
    }
    match answer("SELECT * FROM Sales LIMIT 2", 3, 1) {
        SelectOutcome::Rows { rows, total_count, .. } => {
            assert_eq!(total_count, 5);
            assert_eq!(texts(&rows).iter().map(|r| r[0].clone()).collect::<Vec<_>>(), vec!["2", "3"]);
        }
        _ => panic!("expected rows"),
    }
    match answer("SELECT * FROM Sales", 2, 2) {
        SelectOutcome::Rows { rows, .. } => {
            assert_eq!(texts(&rows).iter().map(|r| r[0].clone()).collect::<Vec<_>>(), vec!["4", "5"]);
        }
        _ => panic!("expected rows"),
    }
    match answer("SELECT * FROM Sales LIMIT 10 OFFSET 9", 1, 100) {
        SelectOutcome::Rows { rows, total_count, .. } => {
            assert!(rows.is_empty());
            assert_eq!(total_count, 5);
        }
        _ => panic!("expected rows"),
    }
}

#[test]
fn unknown_selected_column_gives_empty_rows() {
    match answer("SELECT customer, nope FROM Sales", 1, 100) {
        SelectOutcome::Rows { columns, rows, total_count } => {
            assert_eq!(columns, vec!["customer", "nope"]);
            assert_eq!(total_count, 5);
            assert_eq!(rows.len(), 5);
            assert!(rows.iter().all(|r| r.is_empty()));
        }
        _ => panic!("expected rows"),
    }
}

#[test]
fn tab_without_headers_has_no_columns() {
    let sel = select("SELECT COUNT(*) FROM Blank");
    assert!(matches!(
        run_select(&sel, &vec![], &sales(), 1, 100, &float_order),
        SelectOutcome::NoColumns
    ));
}

#[test]
fn select_pieces() {
    let all = query_header_row(&strings(&["a", "b"]));
    assert_eq!(all, vec!["_row", "a", "b"]);
    let row = vec![text("x")];
    assert_eq!(
        row_text_pairs(&all, &row, 9),
        vec![
            ("_row".to_string(), "9".to_string()),
            ("a".to_string(), "x".to_string()),
            ("b".to_string(), "".to_string())
        ]
    );
    let two = vec![vec![text("x")], vec![text("y")]];
    let mask = select_mask(&Some("a = 'x'".to_string()), &all, &two, &float_order);
    assert_eq!(mask, vec![true, false]);
    assert_eq!(select_mask(&None, &all, &vec![vec![], vec![]], &float_order), vec![true, true]);
    assert_eq!(kept_rows(&vec![false, true, true, false, true]), vec![1, 2, 4]);
    assert_eq!(page_bounds(10, Some(3), Some(4), 1, 100), (3, 7));
    assert_eq!(page_bounds(10, Some(8), Some(4), 1, 100), (8, 10));
    assert_eq!(page_bounds(10, None, None, 2, 4), (4, 8));
    assert_eq!(page_bounds(10, None, Some(3), 5, 4), (0, 3));
    assert_eq!(page_bounds(10, Some(20), None, 1, 4), (10, 10));
    assert_eq!(projection_indices(&all, &None), vec![0, 1, 2]);
    assert_eq!(projection_indices(&all, &Some(strings(&["b", "_row"]))), vec![2, 0]);
    assert!(projection_indices(&all, &Some(strings(&["b", "c"]))).is_empty());
    let out = output_row(&row, 9, &vec![2, 0, 1]);
    assert_eq!(texts(&[out]), vec![vec!["", "9", "x"]]);
}

#[test]
fn statement_errors() {
    match parse_statement("DROP TABLE x") {
        Err(e) => {
            assert_eq!(e.code, -32000);
            assert_eq!(e.message, "Unsupported SQL syntax: DROP TABLE x");
        }
        Ok(_) => panic!("unsupported"),
    }
    assert!(matches!(parse_statement("DELETE FROM Contacts WHERE _row = 7"), Ok(Query::Delete(_))));
    assert!(matches!(target_row("_row = 7"), Ok(7)));
    assert!(matches!(target_row("x = 1 AND _ROW=12"), Ok(12)));
    match target_row("name = 'x'") {
        Err(e) => {
            assert_eq!(e.code, -32602);
            assert_eq!(e.message, "WHERE clause must include '_row = <number>'");
        }
        Ok(_) => panic!("no row"),
    }
    let e = refuse_explain();
    assert_eq!(e.code, -32601);
    assert_eq!(
        e.message,
        "Google Sheets does not support EXPLAIN — queries are flattened into REST API calls."
    );
}
