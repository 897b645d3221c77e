use google_sheets_plugin::sql::filter::NumOrder;
use google_sheets_plugin::sql::query::SqlError;
use google_sheets_plugin::sql::{eval_where, extract_row_num};
use regex::Regex;
use std::collections::HashMap;

fn float_order(a: &str, b: &str) -> NumOrder {
    match (a.parse::<f64>(), b.parse::<f64>()) {
        (Ok(x), Ok(y)) => {
            if x < y {
                NumOrder::Less
            } else if x > y {
                NumOrder::Greater
            } else if x == y {
                NumOrder::Equal
            } else {
                NumOrder::Unordered
            }
        }
        _ => NumOrder::NotNumeric,
    }
}

// The WHERE evaluation written with the `regex` crate.
fn regex_eval(where_clause: &str, row: &HashMap<String, String>) -> bool {
    let re_and = Regex::new(r"(?i)\s+AND\s+").unwrap();
    for cond in re_and.split(where_clause) {
        if !regex_condition(cond.trim(), row) {
            return false;
        }
    }
    true
}

fn regex_condition(cond: &str, row: &HashMap<String, String>) -> bool {
    let re_cond = Regex::new(
        r##"(?i)`?"?(\w+)"?`?\s*(=|!=|<>|>=|<=|>|<|LIKE|IS\s+NULL|IS\s+NOT\s+NULL)(?:\s*(?:'([^']*)'|"([^"]*)"|(\S+)))?"##,
    )
    .unwrap();
    let Some(cap) = re_cond.captures(cond) else {
        return true;
    };
    let col = cap.get(1).unwrap().as_str();
    let op = cap.get(2).unwrap().as_str().to_uppercase();
    let op = op.trim();
    let val = cap.get(3).or(cap.get(4)).or(cap.get(5)).map(|m| m.as_str()).unwrap_or("");
    let cell = row.get(col).map(String::as_str).unwrap_or("");
    match op {
        "IS NULL" => return cell.is_empty(),
        "IS NOT NULL" => return !cell.is_empty(),
        "LIKE" => {
            let pattern = regex::escape(val).replace('%', ".*").replace('_', ".");
            let re = Regex::new(&format!("(?i)^{pattern}$"))
                .unwrap_or_else(|_| Regex::new("$^").unwrap());
            return re.is_match(cell);
        }
        _ => {}
    }
    if let (Ok(cn), Ok(vn)) = (cell.parse::<f64>(), val.parse::<f64>()) {
        return match op {
            "=" => cn == vn,
            "!=" | "<>" => cn != vn,
            ">" => cn > vn,
            ">=" => cn >= vn,
            "<" => cn < vn,
            "<=" => cn <= vn,
            _ => true,
        };
    }
    match op {
        "=" => cell == val,
        "!=" | "<>" => cell != val,
        ">" => cell > val,
        ">=" => cell >= val,
        "<" => cell < val,
        "<=" => cell <= val,
        _ => true,
    }
}

fn regex_row_num(where_clause: &str) -> Option<usize> {
    let re = Regex::new(r"(?i)_row\s*=\s*(\d+)").unwrap();
    re.captures(where_clause)
        .and_then(|c| c.get(1))
        .and_then(|m| m.as_str().parse().ok())
}

fn rows() -> Vec<Vec<(String, String)>> {
    let raw: Vec<Vec<(&str, &str)>> = vec![
        vec![("_row", "2"), ("name", "Jane Doe"), ("age", "34"), ("region", "EU"), ("score", "3.5")],
        vec![("_row", "3"), ("name", "bob"), ("age", ""), ("region", "us"), ("score", "NaN")],
        vec![("_row", "4"), ("name", "Ann_x%"), ("age", "7"), ("region", "EU"), ("score", "10")],
        vec![("_row", "5"), ("name", ""), ("age", "abc"), ("region", "ÉU"), ("score", "-1e3")],
    ];
    raw.into_iter()
        .map(|r| r.into_iter().map(|(a, b)| (a.to_string(), b.to_string())).collect())
        .collect()
}

#[test]
fn where_evaluation_matches_regex() {
    let clauses = [
        "region = 'EU'",
        "region = EU",
        "region=EU",
        "region = \"EU\"",
        "age > 10",
        "age >= 7 AND region = 'EU'",
        "age < 10 and name LIKE 'a%'",
        "name LIKE '%doe'",
        "name LIKE 'J_ne%'",
        "name like 'ann\\_x%'",
        "name LIKE 'Ann_x%'",
        "name IS NULL",
        "name is not null",
        "name IS  NULL",
        "age <> 34",
        "age != 34",
        "score > 3",
        "score <= 10",
        "score = NaN",
        "score != NaN",
        "name > 'J'",
        "name <= 'bob'",
        "`name` = 'bob'",
        "\"region\" = 'us'",
        "nosuch = ''",
        "nosuch IS NULL",
        "garbage",
        "",
        "_row = 3",
        "_row >= 3 AND _row < 5",
        "region = 'EU' AND",
        "AND region = 'EU'",
        "region = 'EU'   AND   age > 1",
        "regionLIKE 'E%'",
        "ageIS NULL",
        "x.age > 1",
        "age > 1e1",
        "name = 'Jane Doe'",
        "name = Jane",
        "name LIKE ''",
        "age LIKE ''",
        "(age > 1)",
        "age > '7'",
        "region = 'ÉU'",
        "region LIKE 'éu'",
        "name Iſ NULL",
        "name LIKE 'JANE DOE'",
        "name LIKE 'jane doe'",
        "score LIKE '3.5'",
        "score LIKE '3_5'",
        "age>10",
        "age>6",
        "name='bob'",
        "age>=7",
        "name LIKE'%doe'",
        "score<=10",
        "name IS NULLx",
        "age =34",
        "age<>34",
    ];
    for row in rows().iter() {
        let map: HashMap<String, String> = row.iter().cloned().collect();
        for c in clauses.iter() {
            let expected = regex_eval(c, &map);
            let got = eval_where(c, row, &float_order);
            assert_eq!(got, expected, "clause {:?} on row {:?}", c, row);
        }
    }
}

#[test]
fn row_number_matches_regex() {
    let clauses = [
        "_row = 7",
        "_ROW=12",
        "_row   =   3 AND x = 1",
        "x = 1 AND _row = 9",
        "_row = abc",
        "_row = 99999999999999999999999",
        "_row = ٣",
        "name = 'x'",
        "",
        "a_row = 5",
        "_row = 1 OR _row = 2",
        "_row= 04",
    ];
    for c in clauses.iter() {
        let got = match extract_row_num(c) {
            Ok(n) => Some(n),
            Err(SqlError::MissingRowNumber) => None,
            Err(_) => panic!("unexpected error"),
        };
        assert_eq!(got, regex_row_num(c), "clause {:?}", c);
    }
}
