use google_sheets_plugin::handlers::query::target_row;
use google_sheets_plugin::sheets::deleted_rows;
use google_sheets_plugin::sql::query::SqlError;
use google_sheets_plugin::sql::{parse, Query};

#[test]
fn first_hundred_rows() {
    match parse("SELECT * FROM Sales LIMIT 100;") {
        Ok(Query::Select(s)) => {
            assert_eq!(s.table, "Sales");
            assert!(s.columns.is_none());
            assert!(!s.count_only);
            assert!(s.where_clause.is_none());
            assert_eq!(s.limit, Some(100));
            assert_eq!(s.offset, None);
        }
        _ => panic!("a SELECT"),
    }
}

#[test]
fn count_with_a_predicate() {
    match parse("SELECT COUNT(*) FROM Sales WHERE region = 'EU';") {
        Ok(Query::Select(s)) => {
            assert_eq!(s.table, "Sales");
            assert!(s.count_only);
            assert_eq!(s.where_clause.as_deref(), Some("region = 'EU'"));
            assert_eq!(s.limit, None);
        }
        _ => panic!("a COUNT"),
    }
}

#[test]
fn projection_with_paging() {
    let sql = "SELECT _row, customer, total\nFROM Orders\nWHERE status = 'paid'\nLIMIT 50 OFFSET 100;";
    match parse(sql) {
        Ok(Query::Select(s)) => {
            assert_eq!(s.table, "Orders");
            assert_eq!(s.columns, Some(vec!["_row".to_string(), "customer".to_string(), "total".to_string()]));
            assert_eq!(s.where_clause.as_deref(), Some("status = 'paid'"));
            assert_eq!(s.limit, Some(50));
            assert_eq!(s.offset, Some(100));
        }
        _ => panic!("a SELECT"),
    }
}

#[test]
fn append_a_row() {
    let sql = "INSERT INTO Contacts (name, email, tag)\nVALUES ('Jane Doe', 'jane@example.com', 'lead');";
    match parse(sql) {
        Ok(Query::Insert(i)) => {
            assert_eq!(i.table, "Contacts");
            let mut data = i.data.clone();
            data.sort();
            assert_eq!(
                data,
                vec![
                    ("email".to_string(), "jane@example.com".to_string()),
                    ("name".to_string(), "Jane Doe".to_string()),
                    ("tag".to_string(), "lead".to_string()),
                ]
            );
        }
        _ => panic!("an INSERT"),
    }
}

#[test]
fn update_a_row() {
    match parse("UPDATE Contacts SET tag = 'customer' WHERE _row = 7;") {
        Ok(Query::Update(u)) => {
            assert_eq!(u.table, "Contacts");
            assert_eq!(u.set, vec![("tag".to_string(), "customer".to_string())]);
            assert_eq!(u.where_clause, "_row = 7");
            assert!(matches!(target_row(&u.where_clause), Ok(7)));
        }
        _ => panic!("an UPDATE"),
    }
}

#[test]
fn delete_a_row() {
    match parse("DELETE FROM Contacts WHERE _row = 7;") {
        Ok(Query::Delete(d)) => {
            assert_eq!(d.table, "Contacts");
            assert_eq!(d.where_clause, "_row = 7");
            let n = target_row(&d.where_clause).ok().unwrap();
            assert_eq!(deleted_rows(n), (6, 7));
        }
        _ => panic!("a DELETE"),
    }
}

#[test]
fn unsupported_statements() {
    for sql in [
        "SELECT a FROM t JOIN u ON t.x = u.x GROUP BY a",
        "EXPLAIN SELECT * FROM t",
        "DROP TABLE t",
        "SELECT * FROM Sales ORDER BY region",
        "SELECT name FROM Sales WHERE region = 'EU' ORDER BY name LIMIT 5",
        "select * from \"My Tab\" order by x",
    ] {
        match parse(sql) {
            Err(SqlError::Unsupported(t)) => assert_eq!(t, sql),
            _ => panic!("{sql} is outside the subset"),
        }
    }
    for sql in [
        "SELECT SUM(x) FROM t",
        "SELECT region, AVG(total) FROM Sales",
        "SELECT region FROM Sales WHERE total > 1 GROUP BY region",
        "SELECT * FROM Sales WHERE region IN (SELECT region FROM Regions)",
        "SELECT COUNT(*) FROM Sales WHERE total > 1 GROUP BY region",
    ] {
        match parse(sql) {
            Err(SqlError::Unsupported(t)) => assert_eq!(t, sql),
            _ => panic!("{sql} is outside the subset"),
        }
    }
    match parse("SELECT COUNT(*) FROM Sales WHERE x = (1)") {
        Ok(Query::Select(s)) => assert!(s.count_only),
        _ => panic!("a plain COUNT"),
    }
}

#[test]
fn missing_row_number_message() {
    assert_eq!(SqlError::MissingRowNumber.message(), "WHERE clause must include '_row = <number>'");
    assert_eq!(
        SqlError::Unsupported("DROP TABLE t".to_string()).message(),
        "Unsupported SQL syntax: DROP TABLE t"
    );
}

#[test]
fn update_with_several_assignments() {
    match parse("UPDATE T SET qty = 5, name = 'x' WHERE _row = 2") {
        Ok(Query::Update(u)) => {
            assert_eq!(u.table, "T");
            let mut set = u.set.clone();
            set.sort();
            assert_eq!(
                set,
                vec![("name".to_string(), "x".to_string()), ("qty".to_string(), "5".to_string())]
            );
            assert_eq!(u.where_clause, "_row = 2");
        }
        _ => panic!("an UPDATE"),
    }
    match parse("UPDATE T SET a=1,b=2 , c = three WHERE _row = 9") {
        Ok(Query::Update(u)) => {
            let mut set = u.set.clone();
            set.sort();
            assert_eq!(
                set,
                vec![
                    ("a".to_string(), "1".to_string()),
                    ("b".to_string(), "2".to_string()),
                    ("c".to_string(), "three".to_string())
                ]
            );
        }
        _ => panic!("an UPDATE"),
    }
}
