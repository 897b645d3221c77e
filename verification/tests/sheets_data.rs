use google_sheets_plugin::sheets::{
    append_url, batch_update_url, cell_url, col_letter, copy_cell, deleted_rows,
    extract_spreadsheet_id, failure_message, failure_message_with, get_sheet_data, get_sheet_id,
    get_sheet_id_map, get_sheet_names, infer_type, read_url, spreadsheet_url, urlencoded,
    value_to_string, CellValue, NumberCell, SheetError, SheetProperties,
};

fn num(t: &str) -> CellValue {
    let fractional = t.parse::<f64>().map(|f| f.fract() != 0.0).unwrap_or(false);
    CellValue::Number(NumberCell { text: t.to_string(), fractional })
}

fn text(t: &str) -> CellValue {
    CellValue::Text(t.to_string())
}

fn tabs() -> Vec<SheetProperties> {
    vec![
        SheetProperties { sheet_id: 0, title: "Sales".to_string() },
        SheetProperties { sheet_id: 1942, title: "Orders".to_string() },
        SheetProperties { sheet_id: 77, title: "Sales".to_string() },
    ]
}

#[test]
fn col_letter_examples() {
    assert_eq!(col_letter(0), "");
    assert_eq!(col_letter(1), "A");
    assert_eq!(col_letter(2), "B");
    assert_eq!(col_letter(26), "Z");
    assert_eq!(col_letter(27), "AA");
    assert_eq!(col_letter(52), "AZ");
    assert_eq!(col_letter(53), "BA");
    assert_eq!(col_letter(702), "ZZ");
    assert_eq!(col_letter(703), "AAA");
    assert_eq!(col_letter(16384), "XFD");
}

fn col_index(s: &str) -> usize {
    s.chars().fold(0, |acc, c| acc * 26 + (c as usize - 'A' as usize + 1))
}

#[test]
fn col_letter_round_trips_and_is_injective() {
    let mut seen = std::collections::HashSet::new();
    for n in 1..3000usize {
        let l = col_letter(n);
        assert_eq!(col_index(&l), n);
        assert!(seen.insert(l));
    }
}

#[test]
fn spreadsheet_id_from_url_or_raw_id() {
    assert_eq!(
        extract_spreadsheet_id("https://docs.google.com/spreadsheets/d/1AbC_dEf-123/edit#gid=0"),
        "1AbC_dEf-123"
    );
    assert_eq!(
        extract_spreadsheet_id("https://docs.google.com/spreadsheets/d/1AbC"),
        "1AbC"
    );
    assert_eq!(extract_spreadsheet_id("  1AbC_dEf-123  "), "1AbC_dEf-123");
    assert_eq!(extract_spreadsheet_id("/spreadsheets/d//x"), "");
}

#[test]
fn urlencoded_escapes_spaces_and_apostrophes() {
    assert_eq!(urlencoded("My Sheet's Data"), "My%20Sheet%27s%20Data");
    assert_eq!(urlencoded("Plain"), "Plain");
    assert_eq!(urlencoded(""), "");
}

#[test]
fn request_addresses() {
    let base = "https://sheets.googleapis.com/v4/spreadsheets";
    assert_eq!(spreadsheet_url("abc"), format!("{base}/abc"));
    assert_eq!(
        read_url("abc", "Q1 Sales"),
        format!("{base}/abc/values/'Q1%20Sales'!A:ZZ?valueRenderOption=UNFORMATTED_VALUE")
    );
    assert_eq!(
        append_url("abc", "Bob's"),
        format!("{base}/abc/values/'Bob%27s'!A:A:append?valueInputOption=USER_ENTERED")
    );
    assert_eq!(
        cell_url("abc", "Contacts", "C", 7),
        format!("{base}/abc/values/'Contacts'!C7?valueInputOption=USER_ENTERED")
    );
    assert_eq!(batch_update_url("abc"), format!("{base}/abc:batchUpdate"));
}

#[test]
fn deleting_a_row_removes_one_index() {
    assert_eq!(deleted_rows(7), (6, 7));
    assert_eq!(deleted_rows(1), (0, 1));
}

#[test]
fn value_to_string_examples() {
    assert_eq!(value_to_string(&CellValue::Null), "");
    assert_eq!(value_to_string(&CellValue::Bool(true)), "true");
    assert_eq!(value_to_string(&CellValue::Bool(false)), "false");
    assert_eq!(value_to_string(&num("3.5")), "3.5");
    assert_eq!(value_to_string(&text("EU")), "EU");
    assert_eq!(value_to_string(&CellValue::Other("[1,2]".to_string())), "[1,2]");
}

#[test]
fn copy_cell_keeps_the_value() {
    let c = copy_cell(&num("12"));
    assert_eq!(value_to_string(&c), "12");
    assert!(matches!(c, CellValue::Number(NumberCell { fractional: false, .. })));
}

#[test]
fn infer_type_examples() {
    // The README's example: 1, 2, 3.5 is REAL; a non-numeric value makes it TEXT.
    let mut col = vec![num("1"), num("2"), num("3.5")];
    assert_eq!(infer_type(&col), "REAL");
    col.push(text("n/a"));
    assert_eq!(infer_type(&col), "TEXT");
    assert_eq!(infer_type(&[]), "INTEGER");
    assert_eq!(infer_type(&[num("1"), num("2")]), "INTEGER");
    assert_eq!(infer_type(&[text("42"), text("-7"), CellValue::Null, text("")]), "INTEGER");
    assert_eq!(infer_type(&[text("42"), text("1e3")]), "REAL");
    assert_eq!(infer_type(&[text("2.0")]), "REAL");
    assert_eq!(infer_type(&[num("2.0")]), "INTEGER");
    assert_eq!(infer_type(&[CellValue::Bool(true)]), "TEXT");
    assert_eq!(infer_type(&[CellValue::Other("{}".to_string())]), "TEXT");
    assert_eq!(infer_type(&[text("inf"), text("NaN")]), "REAL");
}

#[test]
fn text_type_stays_text() {
    let mut col = vec![text("abc")];
    assert_eq!(infer_type(&col), "TEXT");
    col.push(num("1.5"));
    col.push(num("3"));
    assert_eq!(infer_type(&col), "TEXT");
}

#[test]
fn sheet_names_and_ids() {
    assert_eq!(get_sheet_names(&tabs()), vec!["Sales", "Orders", "Sales"]);
    let map = get_sheet_id_map(&tabs());
    assert_eq!(
        map,
        vec![("Sales".to_string(), 0), ("Orders".to_string(), 1942), ("Sales".to_string(), 77)]
    );
    assert!(matches!(get_sheet_id(&map, "Orders"), Ok(1942)));
    assert!(matches!(get_sheet_id(&map, "Sales"), Ok(0)));
    match get_sheet_id(&map, "Missing") {
        Err(e) => {
            assert!(matches!(&e, SheetError::NotFound(n) if n == "Missing"));
            assert_eq!(e.message(), "Sheet 'Missing' not found.");
        }
        Ok(_) => panic!("no such tab"),
    }
}

#[test]
fn sheet_data_splits_headers_from_rows() {
    let (h, r) = get_sheet_data(vec![]);
    assert!(h.is_empty() && r.is_empty());
    let values = vec![
        vec![text("name"), num("2024"), CellValue::Bool(true)],
        vec![text("Ann"), num("1")],
        vec![],
    ];
    let (h, r) = get_sheet_data(values);
    assert_eq!(h, vec!["name", "2024", "true"]);
    assert_eq!(r.len(), 2);
    assert_eq!(value_to_string(&r[0][0]), "Ann");
    assert!(r[1].is_empty());
}

#[test]
fn failure_message_reads_the_api_message() {
    let body = r#"{"error":{"code":404,"message":"Requested entity was not found.","status":"NOT_FOUND"}}"#;
    assert_eq!(
        failure_message("404 Not Found", body),
        "404 Not Found: Requested entity was not found."
    );
    assert_eq!(
        failure_message("500 Internal Server Error", "oops"),
        "500 Internal Server Error: oops"
    );
    assert_eq!(
        failure_message("400 Bad Request", r#"{"error":{"message":42}}"#),
        r#"400 Bad Request: {"error":{"message":42}}"#
    );
    assert_eq!(
        failure_message_with("403 Forbidden", "{}", Some("denied".to_string())),
        "403 Forbidden: denied"
    );
    assert_eq!(failure_message_with("403 Forbidden", "{}", None), "403 Forbidden: {}");
}

#[test]
fn spreadsheet_id_of_an_id_is_itself() {
    for input in [
        "https://docs.google.com/spreadsheets/d/1AbC_dEf-123/edit#gid=0",
        "1AbC_dEf-123",
        "x/spreadsheets/d/",
        "",
    ] {
        let once = extract_spreadsheet_id(input);
        assert_eq!(extract_spreadsheet_id(&once), once);
    }
}
