use google_sheets_plugin::sql::query::{parse_would_panic, SqlError};
use google_sheets_plugin::sql::{parse, Query};
use regex::Regex;
use std::collections::HashMap;

// The statement grammar, written with the `regex` crate, against which the
// character-level reader is compared.

#[derive(Debug, PartialEq)]
enum Expected {
    Select {
        table: String,
        columns: Option<Vec<String>>,
        count_only: bool,
        where_clause: Option<String>,
        limit: Option<usize>,
        offset: Option<usize>,
    },
    Insert {
        table: String,
        data: Vec<(String, String)>,
    },
    Update {
        table: String,
        set: Vec<(String, String)>,
        where_clause: String,
    },
    Delete {
        table: String,
        where_clause: String,
    },
}

fn first_group(cap: &regex::Captures, indices: &[usize]) -> String {
    for &i in indices {
        if let Some(m) = cap.get(i) {
            let s = m.as_str().trim();
            if !s.is_empty() {
                return s.to_string();
            }
        }
    }
    String::new()
}

fn unquote_ref(s: &str) -> String {
    let s = s.trim();
    if (s.starts_with('"') && s.ends_with('"'))
        || (s.starts_with('`') && s.ends_with('`'))
        || (s.starts_with('\'') && s.ends_with('\''))
    {
        s[1..s.len() - 1].to_string()
    } else {
        s.to_string()
    }
}

fn split_values_ref(s: &str) -> Vec<String> {
    let mut result = Vec::new();
    let mut current = String::new();
    let mut in_quotes = false;
    for ch in s.chars() {
        match ch {
            '\'' if !in_quotes => in_quotes = true,
            '\'' if in_quotes => in_quotes = false,
            ',' if !in_quotes => {
                result.push(current.trim().trim_matches('\'').to_string());
                current = String::new();
            }
            _ => current.push(ch),
        }
    }
    if !current.is_empty() {
        result.push(current.trim().trim_matches('\'').to_string());
    }
    result
}

fn set_clause_ref(s: &str) -> Vec<(String, String)> {
    let mut map = HashMap::new();
    let re = Regex::new(r##"(?i)`?"?(\w+)"?`?\s*=\s*(?:'([^']*)'|"([^"]*)"|([^\s,]+))"##).unwrap();
    for cap in re.captures_iter(s) {
        let key = cap.get(1).unwrap().as_str().to_string();
        let val = cap
            .get(2)
            .or(cap.get(3))
            .or(cap.get(4))
            .map(|m| m.as_str().to_string())
            .unwrap_or_default();
        map.insert(key, val);
    }
    let mut v: Vec<(String, String)> = map.into_iter().collect();
    v.sort();
    v
}

fn lone_quote(s: &str) -> bool {
    let t = s.trim();
    t == "\"" || t == "`" || t == "'"
}

/// `None`: unsupported; `Some(None)`: reading would panic.
fn regex_reading(raw: &str) -> Option<Option<Expected>> {
    let q = raw.trim().trim_end_matches(';');
    let re_count = Regex::new(
        r##"(?is)^SELECT\s+COUNT\s*\(\s*\*?\s*\)\s+FROM\s+(?:"([^"]+)"|`([^`]+)`|(\S+))(?:\s+WHERE\s+(.+?))?$"##,
    )
    .unwrap();
    let re_select = Regex::new(
        r##"(?is)^SELECT\s+(?:DISTINCT\s+)?(.+?)\s+FROM\s+(?:"([^"]+)"|`([^`]+)`|(\S+))(?:\s+WHERE\s+(.*?))?(?P<order>\s+ORDER\s+BY\s+.+?)?(?:\s+LIMIT\s+(\d+))?(?:\s+OFFSET\s+(\d+))?\s*$"##,
    )
    .unwrap();
    let re_insert = Regex::new(
        r##"(?is)^INSERT\s+INTO\s+(?:"([^"]+)"|`([^`]+)`|(\S+))\s*\((.+?)\)\s*VALUES\s*\((.+?)\)\s*$"##,
    )
    .unwrap();
    let re_update = Regex::new(
        r##"(?is)^UPDATE\s+(?:"([^"]+)"|`([^`]+)`|(\S+))\s+SET\s+(.+?)\s+WHERE\s+(.+)$"##,
    )
    .unwrap();
    let re_delete =
        Regex::new(r##"(?is)^DELETE\s+FROM\s+(?:"([^"]+)"|`([^`]+)`|(\S+))\s+WHERE\s+(.+)$"##)
            .unwrap();
    let outside = |w: &str| {
        Regex::new(r"(?i)\sGROUP\s+BY").unwrap().is_match(w)
            || Regex::new(r"(?i)\(\s*SELECT").unwrap().is_match(w)
    };
    if let Some(cap) = re_count.captures(q) {
        if cap.get(4).map(|m| outside(m.as_str())).unwrap_or(false) {
            return None;
        }
        return Some(Some(Expected::Select {
            table: first_group(&cap, &[1, 2, 3]),
            columns: Some(vec!["COUNT(*)".into()]),
            count_only: true,
            where_clause: cap.get(4).map(|m| m.as_str().trim().to_string()),
            limit: None,
            offset: None,
        }));
    }
    if let Some(cap) = re_select.captures(q) {
        if cap.name("order").is_some()
            || cap.get(1).unwrap().as_str().contains('(')
            || cap.get(5).map(|m| outside(m.as_str())).unwrap_or(false)
        {
            return None;
        }
        let cols_str = cap.get(1).map(|m| m.as_str().trim()).unwrap_or("*");
        let columns = if cols_str == "*" {
            None
        } else {
            let pieces: Vec<&str> = cols_str.split(',').collect();
            if pieces.iter().any(|p| lone_quote(p)) {
                return Some(None);
            }
            Some(pieces.iter().map(|s| unquote_ref(s.trim())).collect())
        };
        let where_raw = cap.get(5).map(|m| m.as_str().trim());
        return Some(Some(Expected::Select {
            table: first_group(&cap, &[2, 3, 4]),
            columns,
            count_only: false,
            where_clause: where_raw.filter(|s| !s.is_empty()).map(String::from),
            limit: cap.get(7).and_then(|m| m.as_str().parse().ok()),
            offset: cap.get(8).and_then(|m| m.as_str().parse().ok()),
        }));
    }
    if let Some(cap) = re_insert.captures(q) {
        let table = first_group(&cap, &[1, 2, 3]);
        let cols: Vec<&str> = cap.get(4).unwrap().as_str().split(',').collect();
        let vals = split_values_ref(cap.get(5).unwrap().as_str());
        let n = cols.len().min(vals.len());
        if cols[..n].iter().any(|c| lone_quote(c)) {
            return Some(None);
        }
        let data: HashMap<String, String> = cols
            .iter()
            .zip(vals.iter())
            .map(|(c, v)| (unquote_ref(c.trim()), v.clone()))
            .collect();
        let mut data: Vec<(String, String)> = data.into_iter().collect();
        data.sort();
        return Some(Some(Expected::Insert { table, data }));
    }
    if let Some(cap) = re_update.captures(q) {
        return Some(Some(Expected::Update {
            table: first_group(&cap, &[1, 2, 3]),
            set: set_clause_ref(cap.get(4).unwrap().as_str()),
            where_clause: cap.get(5).unwrap().as_str().trim().to_string(),
        }));
    }
    if let Some(cap) = re_delete.captures(q) {
        return Some(Some(Expected::Delete {
            table: first_group(&cap, &[1, 2, 3]),
            where_clause: cap.get(4).unwrap().as_str().trim().to_string(),
        }));
    }
    None
}

fn actual(raw: &str) -> Option<Option<Expected>> {
    if parse_would_panic(raw) {
        return Some(None);
    }
    match parse(raw) {
        Ok(Query::Select(s)) => Some(Some(Expected::Select {
            table: s.table,
            columns: s.columns,
            count_only: s.count_only,
            where_clause: s.where_clause,
            limit: s.limit,
            offset: s.offset,
        })),
        Ok(Query::Insert(i)) => {
            let mut data = i.data;
            data.sort();
            Some(Some(Expected::Insert { table: i.table, data }))
        }
        Ok(Query::Update(u)) => {
            let mut set = u.set;
            set.sort();
            Some(Some(Expected::Update { table: u.table, set, where_clause: u.where_clause }))
        }
        Ok(Query::Delete(d)) => Some(Some(Expected::Delete {
            table: d.table,
            where_clause: d.where_clause,
        })),
        Err(SqlError::Unsupported(t)) => {
            assert_eq!(t, raw);
            None
        }
        Err(SqlError::MissingRowNumber) => panic!("unexpected error"),
    }
}

fn check(raw: &str) {
    assert_eq!(actual(raw), regex_reading(raw), "statement: {:?}", raw);
}

#[test]
fn grammar_matches_regex_on_examples() {
    let cases = [
        "SELECT * FROM Sales LIMIT 100;",
        "SELECT COUNT(*) FROM Sales WHERE region = 'EU';",
        "SELECT _row, customer, total\nFROM Orders\nWHERE status = 'paid'\nLIMIT 50 OFFSET 100;",
        "INSERT INTO Contacts (name, email, tag)\nVALUES ('Jane Doe', 'jane@example.com', 'lead');",
        "UPDATE Contacts SET tag = 'customer' WHERE _row = 7;",
        "DELETE FROM Contacts WHERE _row = 7;",
        "select count ( * ) from \"My Tab\"",
        "select count() from t where",
        "select count(*) from t where  ",
        "select count(*) from t where x",
        "SELECT DISTINCT a FROM t",
        "SELECT DISTINCT  FROM t",
        "SELECT   FROM t",
        "SELECT    FROM t",
        "SELECT a FROM t ORDER BY a",
        "SELECT a FROM t ORDER BY  ",
        "SELECT a FROM t ORDER BY ",
        "SELECT a FROM t ORDER BY a LIMIT 5",
        "SELECT a FROM t WHERE x = 1 ORDER BY a LIMIT 5 OFFSET 2",
        "SELECT a FROM t WHERE  ",
        "SELECT a FROM t WHERE",
        "SELECT a FROM t WHERE ORDER BY x",
        "SELECT a FROM t LIMIT 99999999999999999999999",
        "SELECT a FROM t LIMIT ٣",
        "SELECT a FROM t OFFSET 3",
        "SELECT a FROM t LIMIT 3 OFFSET",
        "SELECT a, \"b c\", `d` FROM `my tab` WHERE a > 2",
        "SELECT \" FROM t",
        "SELECT a,' FROM t",
        "SELECT a FROM \"t\"x WHERE b",
        "SELECT a FROM t FROM u",
        "SELECT * FROM t;;;",
        "  select * from t ; ",
        "SELECT a FROM t WHERE a = 'x' AND b LIKE '%y'",
        "ſELECT * FROM t",
        "SELECT * FROM tasK",
        "INSERT INTO t(a,b) VALUES(1,2)",
        "INSERT INTO t (a, b) VALUES ('x, y', 'z')",
        "INSERT INTO t (a) VALUES (1) )",
        "INSERT INTO \"my t\" (a, b, c) VALUES (1, 2)",
        "INSERT INTO t (\", b) VALUES (1, 2)",
        "INSERT INTO t (a, \") VALUES (1)",
        "INSERT INTO t (a, a) VALUES (1, 2)",
        "INSERT INTO t () VALUES ()",
        "INSERT INTO t (a) VALUES ('')",
        "INSERT INTO t (a) VALUES ('it''s')",
        "UPDATE t SET a = 1, b = 'x y' WHERE _row = 3",
        "UPDATE t SET a=1 WHERE _row=3",
        "UPDATE t SET  WHERE x = 1",
        "UPDATE t SET   WHERE x = 1",
        "UPDATE t SET a = 1 WHERE b = 2 WHERE c",
        "UPDATE \"t t\" SET `a` = \"q\", \"b\"='r' WHERE _row = 1",
        "UPDATE t SET a = 1 WHERE ",
        "UPDATE t SET a = 'unterminated WHERE _row = 1",
        "DELETE FROM t WHERE _row = 2",
        "DELETE FROM t WHERE",
        "DELETE FROM t WHERE  ",
        "DELETE FROM `t` WHERE _row = 2",
        "DROP TABLE t",
        "SELECT SUM(x) FROM t",
        "SELECT a, COUNT(b) FROM t WHERE x = 1 GROUP BY a",
        "select a from t where x = 1 group   by a",
        "SELECT a FROM t WHERE x IN (SELECT y FROM u)",
        "SELECT a FROM t WHERE x IN ( select y FROM u)",
        "SELECT COUNT(*) FROM t WHERE x = 1 GROUP BY y",
        "SELECT COUNT(*) FROM t WHERE x IN (SELECT y FROM u)",
        "SELECT a FROM t WHERE note = 'grouping by hand'",
        "SELECT a FROM t WHERE x = (1)",
        "",
        ";",
    ];
    for c in cases.iter() {
        check(c);
    }
}

#[test]
fn grammar_matches_regex_on_generated_statements() {
    let heads = ["SELECT", "select", "SELECT DISTINCT", "SELECT COUNT(*)", "SELECT count( )"];
    let cols = ["*", "a", "a, b", " a ", "\"x y\"", "a FROM b"];
    let tables = ["t", "\"t u\"", "`t`", "\"\"", "t;"];
    let tails = [
        "",
        " WHERE a = 1",
        " WHERE a = 1 LIMIT 2",
        " LIMIT 2 OFFSET 3",
        " ORDER BY a DESC",
        " WHERE x ORDER BY y LIMIT 1 OFFSET 1 ",
        " OFFSET 4",
        " WHERE  ",
        " LIMIT x",
    ];
    for h in heads.iter() {
        for c in cols.iter() {
            for t in tables.iter() {
                for tail in tails.iter() {
                    let stmt = format!("{} {} FROM {}{}", h, c, t, tail);
                    check(&stmt);
                }
            }
        }
    }
    let assigns = ["a = 1", "a=1", "`a` = 'x', b = \"y\"", "a = 'p q', a = 2", "= 1", "x.y = 3"];
    for a in assigns.iter() {
        for t in tables.iter() {
            check(&format!("UPDATE {} SET {} WHERE _row = 5", t, a));
            check(&format!("DELETE FROM {} WHERE {}", t, a));
        }
    }
    let col_lists = ["a", "a, b", "a,b,c", " 'a' , `b` "];
    let val_lists = ["1", "1, 2", "'x', 'y, z'", "'', 3, 4"];
    for t in tables.iter() {
        for c in col_lists.iter() {
            for v in val_lists.iter() {
                check(&format!("INSERT INTO {} ({}) VALUES ({})", t, c, v));
                check(&format!("insert into {}({})values({});", t, c, v));
            }
        }
    }
}
