use google_sheets_plugin::sql::eval_where;
use google_sheets_plugin::sql::filter::NumOrder;

fn float_order(a: &str, b: &str) -> NumOrder {
    match (a.parse::<f64>(), b.parse::<f64>()) {
        (Ok(x), Ok(y)) => {
            if x < y {
                NumOrder::Less
            } else if x > y {
                NumOrder::Greater
            } else if x == y {
                NumOrder::Equal
            } else {
                NumOrder::Unordered
            }
        }
        _ => NumOrder::NotNumeric,
    }
}

fn row(pairs: &[(&str, &str)]) -> Vec<(String, String)> {
    pairs.iter().map(|(a, b)| (a.to_string(), b.to_string())).collect()
}

#[test]
fn like_escapes_regex_characters() {
    let r = row(&[("code", "abc")]);
    assert!(!eval_where("code LIKE 'a.c'", &r, &float_order));
    assert!(eval_where("code LIKE 'a_c'", &r, &float_order));
    assert!(eval_where("code LIKE 'A%'", &r, &float_order));
    let r = row(&[("code", "a.c")]);
    assert!(eval_where("code LIKE 'a.c'", &r, &float_order));
    let r = row(&[("code", "(1+1)")]);
    assert!(eval_where("code LIKE '(1+1)'", &r, &float_order));
    assert!(!eval_where("code LIKE '1+1'", &r, &float_order));
}

#[test]
fn numbers_compare_as_numbers_and_text_as_text() {
    let r = row(&[("total", "9"), ("name", "bob")]);
    assert!(!eval_where("total > 10", &r, &float_order));
    assert!(eval_where("total < 10", &r, &float_order));
    assert!(eval_where("total = 9.0", &r, &float_order));
    assert!(eval_where("name > 'Bob'", &r, &float_order));
    assert!(eval_where("name <> 'Bob'", &r, &float_order));
    assert!(!eval_where("total > 10 AND name = 'bob'", &r, &float_order));
}

#[test]
fn missing_columns_read_as_empty() {
    let r = row(&[("a", "1")]);
    assert!(eval_where("b IS NULL", &r, &float_order));
    assert!(!eval_where("b IS NOT NULL", &r, &float_order));
    assert!(eval_where("b = ''", &r, &float_order));
}

#[test]
fn unreadable_conditions_hold() {
    let r = row(&[("a", "1")]);
    assert!(eval_where("garbage", &r, &float_order));
    assert!(eval_where("", &r, &float_order));
}

#[test]
fn unicode_column_names() {
    let r = row(&[("città", "Roma"), ("n٣", "5")]);
    assert!(eval_where("città = 'Roma'", &r, &float_order));
    assert!(!eval_where("città = 'Milano'", &r, &float_order));
    assert!(eval_where("n٣ > 4", &r, &float_order));
}

#[test]
fn and_holds_when_both_hold() {
    let r = row(&[("a", "1"), ("b", "2")]);
    for kw in ["AND", "and", "And"] {
        for (c1, c2) in [("a = 1", "b = 2"), ("a = 1", "b = 3"), ("a = 0", "b = 2"), ("a = 0", "b = 0")] {
            let joined = format!("{c1} {kw} {c2}");
            assert_eq!(
                eval_where(&joined, &r, &float_order),
                eval_where(c1, &r, &float_order) && eval_where(c2, &r, &float_order),
                "{joined}"
            );
        }
    }
    assert!(eval_where("  a = 1   AND   b = 2  ", &r, &float_order));
    assert!(!eval_where("a = 1 AND b > 5", &r, &float_order));
}

#[test]
fn values_need_no_space_after_the_operator() {
    let r = row(&[("qty", "9"), ("name", "a")]);
    assert!(!eval_where("qty>10", &r, &float_order));
    assert!(eval_where("qty<10", &r, &float_order));
    assert!(eval_where("name='a'", &r, &float_order));
    assert!(!eval_where("name='b'", &r, &float_order));
    assert!(eval_where("qty>=9 AND name<>'b'", &r, &float_order));
}

#[test]
fn outcomes_read_as_answers() {
    use_outcomes();
}

fn use_outcomes() {
    let empty = String::new();
    let full = "x".to_string();
    assert!(google_sheets_plugin::sql::filter::like_from_outcome(Some(true), &full));
    assert!(!google_sheets_plugin::sql::filter::like_from_outcome(Some(false), &empty));
    assert!(google_sheets_plugin::sql::filter::like_from_outcome(None, &empty));
    assert!(!google_sheets_plugin::sql::filter::like_from_outcome(None, &full));
    assert!(google_sheets_plugin::pattern::word_char_from('_', None));
    assert!(!google_sheets_plugin::pattern::word_char_from('-', Some(true)));
    assert!(google_sheets_plugin::pattern::word_char_from('à', Some(true)));
    assert!(!google_sheets_plugin::pattern::word_char_from('à', None));
    assert!(google_sheets_plugin::pattern::decimal_digit_from('7', None));
    assert!(!google_sheets_plugin::pattern::decimal_digit_from('٣', Some(false)));
    assert!(google_sheets_plugin::pattern::decimal_digit_from('٣', Some(true)));
}
