//! What the plugin computes on the data of the Sheets API: cell texts,
//! inferred column types, A1 column letters, spreadsheet ids, tab lookups
//! and the request addresses.
use vstd::prelude::*;
use crate::text;
use crate::numbers;
use crate::sql::grammar;

verus! {

/// A number cell: its JSON text and whether its value has a fractional part.
pub struct NumberCell {
    pub text: String,
    pub fractional: bool,
}

/// A cell value as the Sheets API returns it (a JSON value).
pub enum CellValue {
    Null,
    Bool(bool),
    Number(NumberCell),
    Text(String),
    /// An array or object, with its JSON text.
    Other(String),
}

/// `value_to_string`: the text of a cell.
pub open spec fn cell_text(v: CellValue) -> Seq<char> {
    match v {
        CellValue::Null => Seq::empty(),
        CellValue::Bool(b) => if b {
            seq!['t', 'r', 'u', 'e']
        } else {
            seq!['f', 'a', 'l', 's', 'e']
        },
        CellValue::Number(n) => n.text@,
        CellValue::Text(s) => s@,
        CellValue::Other(s) => s@,
    }
}

/// The text of a cell: strings as they are, numbers and booleans in their
/// JSON form, null as the empty string.
pub fn value_to_string(v: &CellValue) -> (r: String)
    ensures
        r@ == cell_text(*v),
{
    match v {
        CellValue::Null => String::new(),
        CellValue::Bool(b) => {
            let r = if *b {
                text::string_from("true")
            } else {
                text::string_from("false")
            };
            proof {
                reveal_strlit("true");
                reveal_strlit("false");
                assert("true"@ =~= seq!['t', 'r', 'u', 'e']);
                assert("false"@ =~= seq!['f', 'a', 'l', 's', 'e']);
            }
            r
        },
        CellValue::Number(n) => n.text.clone(),
        CellValue::Text(s) => s.clone(),
        CellValue::Other(s) => s.clone(),
    }
}

// ---------------------------------------------------------------------------
// Type inference
// ---------------------------------------------------------------------------
pub enum SqlType {
    Text,
    Integer,
    Real,
}

/// What one sample value says about its column's type.
pub enum CellKind {
    Blank,
    Whole,
    Fraction,
    Textual,
}

pub open spec fn cell_kind(v: CellValue) -> CellKind {
    match v {
        CellValue::Null => CellKind::Blank,
        CellValue::Bool(_) => CellKind::Textual,
        CellValue::Number(n) => if n.fractional {
            CellKind::Fraction
        } else {
            CellKind::Whole
        },
        CellValue::Text(s) => if s@.len() == 0 {
            CellKind::Blank
        } else if numbers::parses_as_i64_spec(s@) {
            CellKind::Whole
        } else if numbers::is_float_literal(s@) {
            CellKind::Fraction
        } else {
            CellKind::Textual
        },
        CellValue::Other(_) => CellKind::Textual,
    }
}

/// The type of a column from a sample of its values: TEXT as soon as one
/// value is neither blank nor numeric, else REAL when one has a fraction
/// (or is a float literal that is no integer), else INTEGER.
pub open spec fn inferred_type(vals: Seq<CellValue>) -> SqlType {
    if exists|i: int| 0 <= i < vals.len() && cell_kind(#[trigger] vals[i]) == CellKind::Textual {
        SqlType::Text
    } else if exists|i: int| 0 <= i < vals.len() && cell_kind(#[trigger] vals[i])
        == CellKind::Fraction {
        SqlType::Real
    } else {
        SqlType::Integer
    }
}

pub open spec fn sql_type_name(t: SqlType) -> Seq<char> {
    match t {
        SqlType::Text => seq!['T', 'E', 'X', 'T'],
        SqlType::Integer => seq!['I', 'N', 'T', 'E', 'G', 'E', 'R'],
        SqlType::Real => seq!['R', 'E', 'A', 'L'],
    }
}

fn cell_kind_exec(v: &CellValue) -> (k: CellKind)
    ensures
        k == cell_kind(*v),
{
    match v {
        CellValue::Null => CellKind::Blank,
        CellValue::Bool(_) => CellKind::Textual,
        CellValue::Number(n) => if n.fractional {
            CellKind::Fraction
        } else {
            CellKind::Whole
        },
        CellValue::Text(s) => {
            let c = text::to_chars(s.as_str());
            if c.len() == 0 {
                CellKind::Blank
            } else if numbers::parses_as_i64(&c) {
                CellKind::Whole
            } else if numbers::is_float_literal_exec(&c) {
                CellKind::Fraction
            } else {
                CellKind::Textual
            }
        },
        CellValue::Other(_) => CellKind::Textual,
    }
}

fn type_str(t: SqlType) -> (r: &'static str)
    ensures
        r@ == sql_type_name(t),
{
    proof {
        reveal_strlit("TEXT");
        reveal_strlit("INTEGER");
        reveal_strlit("REAL");
        assert("TEXT"@ =~= seq!['T', 'E', 'X', 'T']);
        assert("INTEGER"@ =~= seq!['I', 'N', 'T', 'E', 'G', 'E', 'R']);
        assert("REAL"@ =~= seq!['R', 'E', 'A', 'L']);
    }
    match t {
        SqlType::Text => "TEXT",
        SqlType::Integer => "INTEGER",
        SqlType::Real => "REAL",
    }
}

/// Infers the SQL type of a column from a sample of its values.
pub fn infer_type(values: &[CellValue]) -> (r: &'static str)
    ensures
        r@ == sql_type_name(inferred_type(values@)),
{
    let mut has_float = false;
    let mut i: usize = 0;
    while i < values.len()
        invariant
            i <= values.len(),
            forall|j: int| 0 <= j < i ==> cell_kind(#[trigger] values@[j]) != CellKind::Textual,
            has_float <==> exists|j: int| 0 <= j < i && cell_kind(#[trigger] values@[j])
                == CellKind::Fraction,
        decreases values.len() - i,
    {
        let k = cell_kind_exec(&values[i]);
        match k {
            CellKind::Textual => {
                return type_str(SqlType::Text);
            },
            CellKind::Fraction => {
                has_float = true;
            },
            _ => {},
        }
        i = i + 1;
    }
    if has_float {
        type_str(SqlType::Real)
    } else {
        type_str(SqlType::Integer)
    }
}

/// Once a sample holds a value that makes its column TEXT, no further
/// values change that.
pub proof fn text_type_is_absorbing(a: Seq<CellValue>, b: Seq<CellValue>)
    requires
        inferred_type(a) == SqlType::Text,
    ensures
        inferred_type(a + b) == SqlType::Text,
{
    let i = choose|i: int| 0 <= i < a.len() && cell_kind(#[trigger] a[i]) == CellKind::Textual;
    assert((a + b)[i] == a[i]);
}

/// The order INTEGER < REAL < TEXT in which a column's type widens.
pub open spec fn type_rank(t: SqlType) -> int {
    match t {
        SqlType::Integer => 0,
        SqlType::Real => 1,
        SqlType::Text => 2,
    }
}

/// The wider of two types.
pub open spec fn wider_type(s: SqlType, t: SqlType) -> SqlType {
    if type_rank(s) >= type_rank(t) {
        s
    } else {
        t
    }
}

/// The type of one value on its own: TEXT for a textual value, REAL for a
/// fractional one, INTEGER for a whole or blank one.
pub open spec fn type_of_value(v: CellValue) -> SqlType {
    match cell_kind(v) {
        CellKind::Textual => SqlType::Text,
        CellKind::Fraction => SqlType::Real,
        _ => SqlType::Integer,
    }
}

/// An empty sample gives INTEGER.
pub proof fn type_of_no_values()
    ensures
        inferred_type(Seq::<CellValue>::empty()) == SqlType::Integer,
{
}

/// A sample of one value gives that value's own type.
pub proof fn type_of_one_value(v: CellValue)
    ensures
        inferred_type(seq![v]) == type_of_value(v),
{
    let s = seq![v];
    assert(s[0] == v);
}

/// Joining two samples gives the wider of their types: a type only
/// widens as values are added, and no value after a fractional one
/// brings a column back from REAL to INTEGER. With the two laws above,
/// this fixes the type of every sample.
pub proof fn type_of_joined_samples(a: Seq<CellValue>, b: Seq<CellValue>)
    ensures
        inferred_type(a + b) == wider_type(inferred_type(a), inferred_type(b)),
{
    let ab = a + b;
    assert forall|i: int| 0 <= i < a.len() implies #[trigger] ab[i] == a[i] by {}
    assert forall|j: int| 0 <= j < b.len() implies #[trigger] ab[a.len() + j] == b[j] by {}
    let has = |s: Seq<CellValue>, k: CellKind| exists|i: int| 0 <= i < s.len() && cell_kind(#[trigger] s[i]) == k;
    assert forall|k: CellKind| #[trigger] has(ab, k) == (has(a, k) || has(b, k)) by {
        if has(ab, k) {
            let i = choose|i: int| 0 <= i < ab.len() && cell_kind(#[trigger] ab[i]) == k;
            if i >= a.len() {
                assert(ab[a.len() + (i - a.len())] == b[i - a.len()]);
            }
        }
        if has(a, k) {
            let i = choose|i: int| 0 <= i < a.len() && cell_kind(#[trigger] a[i]) == k;
            assert(ab[i] == a[i]);
        }
        if has(b, k) {
            let j = choose|j: int| 0 <= j < b.len() && cell_kind(#[trigger] b[j]) == k;
            assert(ab[a.len() + j] == b[j]);
        }
    }
    assert(has(ab, CellKind::Textual) == (has(a, CellKind::Textual) || has(b, CellKind::Textual)));
    assert(has(ab, CellKind::Fraction) == (has(a, CellKind::Fraction) || has(b, CellKind::Fraction)));
}

/// The order of a sample does not matter.
pub proof fn sample_order_is_irrelevant(a: Seq<CellValue>, b: Seq<CellValue>)
    ensures
        inferred_type(a + b) == inferred_type(b + a),
{
    type_of_joined_samples(a, b);
    type_of_joined_samples(b, a);
}

/// Once a sample gives REAL, values that are not textual keep it REAL,
/// whatever their order: 3.5, 1, 2 is REAL as 1, 2, 3.5 is.
pub proof fn real_stays_real(a: Seq<CellValue>, b: Seq<CellValue>)
    requires
        inferred_type(a) == SqlType::Real,
        forall|j: int| 0 <= j < b.len() ==> cell_kind(#[trigger] b[j]) != CellKind::Textual,
    ensures
        inferred_type(a + b) == SqlType::Real,
{
    type_of_joined_samples(a, b);
}

/// A sample is INTEGER exactly when each of its values alone is.
pub proof fn integer_means_every_value_integer(vals: Seq<CellValue>)
    ensures
        (inferred_type(vals) == SqlType::Integer) == (forall|i: int|
            0 <= i < vals.len() ==> type_of_value(#[trigger] vals[i]) == SqlType::Integer),
{
}

// ---------------------------------------------------------------------------
// A1 column letters
// ---------------------------------------------------------------------------
/// The letter for `0 <= d < 26`.
pub open spec fn letter(d: int) -> char {
    (65 + d) as char
}

/// The A1 column letters of the 1-based column `n` (bijective base 26);
/// empty for 0.
pub open spec fn col_letter_spec(n: nat) -> Seq<char>
    decreases n,
{
    if n == 0 {
        Seq::empty()
    } else {
        col_letter_spec(((n - 1) / 26) as nat).push(letter((n - 1) % 26))
    }
}

/// The 1-based column that A1 letters name.
pub open spec fn col_index(s: Seq<char>) -> int
    decreases s.len(),
{
    if s.len() == 0 {
        0
    } else {
        col_index(s.drop_last()) * 26 + (s.last() as int - 64)
    }
}

fn write_col_letter(n: usize, out: &mut String)
    ensures
        final(out)@ == old(out)@ + col_letter_spec(n as nat),
    decreases n,
{
    if n == 0 {
        assert(old(out)@ + Seq::<char>::empty() =~= old(out)@);
        return ;
    }
    write_col_letter((n - 1) / 26, out);
    let d: u8 = ((n - 1) % 26) as u8;
    let c: char = (65u8 + d) as char;
    assert(c == letter(d as int));
    text::push_char(out, c);
}

/// Converts a 1-based column index to A1 letter notation.
pub fn col_letter(n: usize) -> (r: String)
    ensures
        r@ == col_letter_spec(n as nat),
{
    let mut r = String::new();
    write_col_letter(n, &mut r);
    r
}

/// The A1 letters of a column name it back: distinct columns get distinct letters.
pub proof fn col_letter_round_trip(n: nat)
    ensures
        col_index(col_letter_spec(n)) == n,
    decreases n,
{
    if n > 0 {
        let q = ((n - 1) / 26) as nat;
        col_letter_round_trip(q);
        let s = col_letter_spec(n);
        assert(s.drop_last() == col_letter_spec(q));
        assert(s.last() == letter((n - 1) % 26));
        assert(letter((n - 1) % 26) as int == 65 + (n - 1) % 26);
    }
}

/// Distinct columns have distinct letters.
pub proof fn col_letter_injective(n: nat, m: nat)
    requires
        n != m,
    ensures
        col_letter_spec(n) != col_letter_spec(m),
{
    col_letter_round_trip(n);
    col_letter_round_trip(m);
}

/// The letters of a column `n >= 1` are a non-empty run of capitals
/// `A`..`Z`, which `col_index` (bijective base 26, read most significant
/// letter first) reads back as `n`.
pub proof fn col_letters_are_capitals(n: nat)
    ensures
        n >= 1 ==> col_letter_spec(n).len() > 0,
        forall|k: int|
            0 <= k < col_letter_spec(n).len() ==> 'A' <= #[trigger] col_letter_spec(n)[k] <= 'Z',
        col_index(col_letter_spec(n)) == n,
    decreases n,
{
    col_letter_round_trip(n);
    if n > 0 {
        let q = ((n - 1) / 26) as nat;
        col_letters_are_capitals(q);
        let s = col_letter_spec(n);
        assert(s == col_letter_spec(q).push(letter((n - 1) % 26)));
        assert forall|k: int| 0 <= k < s.len() implies 'A' <= #[trigger] s[k] <= 'Z' by {
            if k < s.len() - 1 {
                assert(s[k] == col_letter_spec(q)[k]);
            }
        }
    }
}

// ---------------------------------------------------------------------------
// Spreadsheet ids
// ---------------------------------------------------------------------------
/// `/spreadsheets/d/`, the part of a sheet URL before its id.
pub open spec fn id_marker() -> Seq<char> {
    seq!['/', 's', 'p', 'r', 'e', 'a', 'd', 's', 'h', 'e', 'e', 't', 's', '/', 'd', '/']
}

pub open spec fn occurs_at(s: Seq<char>, i: int, m: Seq<char>) -> bool {
    0 <= i && i + m.len() <= s.len() && s.subrange(i, i + m.len()) == m
}

/// The first occurrence of `m` in `s` at or after `i`.
pub open spec fn first_occurrence(s: Seq<char>, m: Seq<char>, i: int) -> Option<int>
    decreases s.len() + 1 - i,
{
    if i < 0 || i + m.len() > s.len() {
        None
    } else if occurs_at(s, i, m) {
        Some(i)
    } else {
        first_occurrence(s, m, i + 1)
    }
}

/// The spreadsheet id in a URL (the text between `/spreadsheets/d/` and
/// the next `/`), or the trimmed text itself when it is no URL.
pub open spec fn spreadsheet_id_of(s: Seq<char>) -> Seq<char> {
    match first_occurrence(s, id_marker(), 0) {
        Some(i) => {
            let rest = s.subrange(i + 16, s.len() as int);
            rest.subrange(0, grammar::find_char(rest, 0, '/'))
        },
        None => text::trim(s),
    }
}

pub proof fn lemma_first_occurrence(s: Seq<char>, m: Seq<char>, i: int)
    requires
        0 <= i,
    ensures
        first_occurrence(s, m, i) matches Some(x) ==> i <= x && x + m.len() <= s.len() && occurs_at(
            s,
            x,
            m,
        ),
    decreases s.len() + 1 - i,
{
    if i + m.len() <= s.len() && !occurs_at(s, i, m) {
        lemma_first_occurrence(s, m, i + 1);
    }
}

proof fn lemma_no_marker(r: Seq<char>, i: int)
    requires
        0 <= i,
        forall|k: int| 0 <= k < r.len() ==> r[k] != '/',
    ensures
        first_occurrence(r, id_marker(), i) is None,
    decreases r.len() + 1 - i,
{
    if i + 16 <= r.len() {
        if occurs_at(r, i, id_marker()) {
            assert(r.subrange(i, i + 16)[0] == r[i]);
        }
        lemma_no_marker(r, i + 1);
    }
}

proof fn lemma_trim_without_ws(x: Seq<char>)
    requires
        forall|k: int| 0 <= k < x.len() ==> !text::is_ws(#[trigger] x[k]),
    ensures
        text::trim(x) == x,
{
    if x.len() > 0 {
        assert(text::skip_ws(x, 0) == 0);
        assert(text::back_ws(x, x.len() as int) == x.len());
        assert(x.subrange(0, x.len() as int) =~= x);
    } else {
        assert(text::trim(x) =~= x);
    }
}

/// Extracting the id of an id gives it back: for a text without
/// whitespace, the id of its id is its id.
pub proof fn spreadsheet_id_is_idempotent(s: Seq<char>)
    requires
        forall|k: int| 0 <= k < s.len() ==> !text::is_ws(#[trigger] s[k]),
    ensures
        spreadsheet_id_of(spreadsheet_id_of(s)) == spreadsheet_id_of(s),
{
    let r = spreadsheet_id_of(s);
    lemma_first_occurrence(s, id_marker(), 0);
    match first_occurrence(s, id_marker(), 0) {
        Some(i) => {
            let rest = s.subrange(i + 16, s.len() as int);
            grammar::lemma_find_char(rest, 0, '/');
            let e = grammar::find_char(rest, 0, '/');
            assert forall|k: int| 0 <= k < r.len() implies r[k] != '/' by {
                assert(r[k] == rest[k]);
            }
            assert forall|k: int| 0 <= k < r.len() implies !text::is_ws(#[trigger] r[k]) by {
                assert(r[k] == s[i + 16 + k]);
            }
            lemma_no_marker(r, 0);
            lemma_trim_without_ws(r);
        },
        None => {
            lemma_trim_without_ws(s);
        },
    }
}

fn occurs_at_exec(s: &Vec<char>, i: usize, m: &Vec<char>) -> (b: bool)
    ensures
        b == occurs_at(s@, i as int, m@),
{
    if m.len() > s.len() || i > s.len() - m.len() {
        return false;
    }
    let mut j: usize = 0;
    while j < m.len()
        invariant
            i + m.len() <= s.len(),
            j <= m.len(),
            forall|k: int| 0 <= k < j ==> s@[i + k] == m@[k],
        decreases m.len() - j,
    {
        if s[i + j] != m[j] {
            assert(s@.subrange(i as int, i + m.len())[j as int] != m@[j as int]);
            return false;
        }
        j = j + 1;
    }
    assert(s@.subrange(i as int, i + m.len()) =~= m@);
    true
}

/// Extracts the spreadsheet id from an id or a full URL.
pub fn extract_spreadsheet_id(input: &str) -> (r: String)
    ensures
        r@ == spreadsheet_id_of(input@),
{
    let s = text::to_chars(input);
    let m = vec!['/', 's', 'p', 'r', 'e', 'a', 'd', 's', 'h', 'e', 'e', 't', 's', '/', 'd', '/'];
    assert(m@ == id_marker());
    let mut i: usize = 0;
    if m.len() <= s.len() {
        while i <= s.len() - m.len()
            invariant
                m@ == id_marker(),
                s@ == input@,
                m.len() <= s.len(),
                first_occurrence(s@, m@, i as int) == first_occurrence(s@, m@, 0),
            decreases s.len() - i,
        {
            if occurs_at_exec(&s, i, &m) {
                assert(first_occurrence(s@, m@, 0) == Some(i as int));
                let ghost rest = s@.subrange(i + 16, s@.len() as int);
                let mut j: usize = i + 16;
                while j < s.len() && s[j] != '/'
                    invariant
                        i + 16 <= j <= s.len(),
                        rest == s@.subrange(i + 16, s@.len() as int),
                        first_occurrence(s@, m@, 0) == Some(i as int),
                        m@ == id_marker(),
                        s@ == input@,
                        grammar::find_char(rest, j - i - 16, '/') == grammar::find_char(rest, 0, '/'),
                    decreases s.len() - j,
                {
                    j = j + 1;
                }
                assert(grammar::find_char(rest, j - i - 16, '/') == j - i - 16);
                assert(rest.subrange(0, j - i - 16) =~= s@.subrange(i + 16, j as int));
                return text::string_of(&s, i + 16, j);
            }
            i = i + 1;
        }
    }
    assert(first_occurrence(s@, m@, i as int) is None);
    let (a, b) = text::trim_bounds(&s);
    text::string_of(&s, a, b)
}

// ---------------------------------------------------------------------------
// Request addresses
// ---------------------------------------------------------------------------
/// The encoded form of one character of a sheet name.
pub open spec fn url_piece(c: char) -> Seq<char> {
    if c == ' ' {
        seq!['%', '2', '0']
    } else if c == '\'' {
        seq!['%', '2', '7']
    } else {
        seq![c]
    }
}

/// A sheet name with spaces as `%20` and apostrophes as `%27`.
pub open spec fn url_encoded(s: Seq<char>) -> Seq<char>
    decreases s.len(),
{
    if s.len() == 0 {
        Seq::empty()
    } else {
        url_encoded(s.drop_last()) + url_piece(s.last())
    }
}

/// Encodes spaces and apostrophes of a sheet name for a range address.
pub fn urlencoded(s: &str) -> (r: String)
    ensures
        r@ == url_encoded(s@),
        forall|i: int| 0 <= i < r@.len() ==> #[trigger] r@[i] != ' ' && r@[i] != '\'',
{
    let v = text::to_chars(s);
    let mut r = String::new();
    let mut i: usize = 0;
    while i < v.len()
        invariant
            i <= v.len(),
            r@ == url_encoded(v@.take(i as int)),
            forall|k: int| 0 <= k < r@.len() ==> #[trigger] r@[k] != ' ' && r@[k] != '\'',
        decreases v.len() - i,
    {
        let c = v[i];
        assert(v@.take(i + 1).drop_last() =~= v@.take(i as int));
        if c == ' ' {
            text::push_char(&mut r, '%');
            text::push_char(&mut r, '2');
            text::push_char(&mut r, '0');
        } else if c == '\'' {
            text::push_char(&mut r, '%');
            text::push_char(&mut r, '2');
            text::push_char(&mut r, '7');
        } else {
            text::push_char(&mut r, c);
        }
        assert(r@ =~= url_encoded(v@.take(i + 1)));
        i = i + 1;
    }
    assert(v@.take(v@.len() as int) == v@);
    r
}

/// The address of the Sheets API's spreadsheets collection.
pub open spec fn sheets_base() -> Seq<char> {
    "https://sheets.googleapis.com/v4/spreadsheets"@
}

/// `<base>/<spreadsheet>`: the spreadsheet's metadata (its tabs).
pub open spec fn spreadsheet_address(sid: Seq<char>) -> Seq<char> {
    sheets_base() + "/"@ + sid
}

/// The address of one range of a tab's values: `<base>/<id>/values/'<tab>'!<range>`.
pub open spec fn values_address(sid: Seq<char>, sheet: Seq<char>, range: Seq<char>) -> Seq<char> {
    spreadsheet_address(sid) + "/values/'"@ + url_encoded(sheet) + "'!"@ + range
}

/// The address that reads all of a tab's values, unformatted.
pub open spec fn read_address(sid: Seq<char>, sheet: Seq<char>) -> Seq<char> {
    values_address(sid, sheet, "A:ZZ?valueRenderOption=UNFORMATTED_VALUE"@)
}

/// The address that appends a row to a tab.
pub open spec fn append_address(sid: Seq<char>, sheet: Seq<char>) -> Seq<char> {
    values_address(sid, sheet, "A:A:append?valueInputOption=USER_ENTERED"@)
}

/// The address that writes the cell `<letter><row>` of a tab.
pub open spec fn cell_address(sid: Seq<char>, sheet: Seq<char>, letter: Seq<char>, row: nat) -> Seq<
    char,
> {
    values_address(
        sid,
        sheet,
        letter + numbers::decimal_string(row) + "?valueInputOption=USER_ENTERED"@,
    )
}

/// The address of a spreadsheet's batch update (which deletes rows).
pub open spec fn batch_update_address(sid: Seq<char>) -> Seq<char> {
    sheets_base() + "/"@ + sid + ":batchUpdate"@
}

fn spreadsheet_string(sid: &str) -> (r: String)
    ensures
        r@ == spreadsheet_address(sid@),
{
    let mut r = text::string_from("https://sheets.googleapis.com/v4/spreadsheets");
    r.append("/");
    r.append(sid);
    r
}

fn values_string(sid: &str, sheet: &str, range: &str) -> (r: String)
    ensures
        r@ == values_address(sid@, sheet@, range@),
{
    let mut r = spreadsheet_string(sid);
    r.append("/values/'");
    let enc = urlencoded(sheet);
    r.append(enc.as_str());
    r.append("'!");
    r.append(range);
    r
}

/// The address of a spreadsheet's metadata.
pub fn spreadsheet_url(sid: &str) -> (r: String)
    ensures
        r@ == spreadsheet_address(sid@),
{
    spreadsheet_string(sid)
}

/// The address that reads a tab's values.
pub fn read_url(sid: &str, sheet: &str) -> (r: String)
    ensures
        r@ == read_address(sid@, sheet@),
{
    values_string(sid, sheet, "A:ZZ?valueRenderOption=UNFORMATTED_VALUE")
}

/// The address that appends a row to a tab.
pub fn append_url(sid: &str, sheet: &str) -> (r: String)
    ensures
        r@ == append_address(sid@, sheet@),
{
    values_string(sid, sheet, "A:A:append?valueInputOption=USER_ENTERED")
}

/// The address that writes one cell, given its column letter and its
/// 1-based sheet row.
pub fn cell_url(sid: &str, sheet: &str, letter: &str, row: usize) -> (r: String)
    ensures
        r@ == cell_address(sid@, sheet@, letter@, row as nat),
{
    let mut range = text::string_from(letter);
    numbers::write_decimal(row, &mut range);
    range.append("?valueInputOption=USER_ENTERED");
    values_string(sid, sheet, range.as_str())
}

/// The address of a spreadsheet's batch update.
pub fn batch_update_url(sid: &str) -> (r: String)
    ensures
        r@ == batch_update_address(sid@),
{
    let mut r = spreadsheet_string(sid);
    r.append(":batchUpdate");
    r
}

/// The half-open range of 0-based row indices that deleting the 1-based
/// sheet row `row_num` removes: `[row_num - 1, row_num)`.
pub fn deleted_rows(row_num: usize) -> (r: (usize, usize))
    requires
        row_num >= 1,
    ensures
        r.0 == row_num - 1,
        r.1 == row_num,
        r.1 - r.0 == 1,
{
    (row_num - 1, row_num)
}

/// A copy of a cell value.
pub fn copy_cell(v: &CellValue) -> (r: CellValue)
    ensures
        r == *v,
{
    match v {
        CellValue::Null => CellValue::Null,
        CellValue::Bool(b) => CellValue::Bool(*b),
        CellValue::Number(n) => CellValue::Number(
            NumberCell { text: n.text.clone(), fractional: n.fractional },
        ),
        CellValue::Text(s) => CellValue::Text(s.clone()),
        CellValue::Other(s) => CellValue::Other(s.clone()),
    }
}

// ---------------------------------------------------------------------------
// Tabs
// ---------------------------------------------------------------------------
/// The properties of one tab of a spreadsheet.
pub struct SheetProperties {
    pub sheet_id: i64,
    pub title: String,
}

/// The titles of the tabs, in order.
pub fn get_sheet_names(sheets: &Vec<SheetProperties>) -> (r: Vec<String>)
    ensures
        r.len() == sheets.len(),
        forall|i: int| 0 <= i < sheets.len() ==> #[trigger] r@[i]@ == sheets@[i].title@,
{
    let mut r: Vec<String> = Vec::new();
    let mut i: usize = 0;
    while i < sheets.len()
        invariant
            i <= sheets.len(),
            r.len() == i,
            forall|j: int| 0 <= j < i ==> #[trigger] r@[j]@ == sheets@[j].title@,
        decreases sheets.len() - i,
    {
        r.push(sheets[i].title.clone());
        i = i + 1;
    }
    r
}

/// The (title, sheet id) pairs of the tabs, in order.
pub fn get_sheet_id_map(sheets: &Vec<SheetProperties>) -> (r: Vec<(String, i64)>)
    ensures
        r.len() == sheets.len(),
        forall|i: int|
            0 <= i < sheets.len() ==> #[trigger] r@[i].0@ == sheets@[i].title@ && r@[i].1
                == sheets@[i].sheet_id,
{
    let mut r: Vec<(String, i64)> = Vec::new();
    let mut i: usize = 0;
    while i < sheets.len()
        invariant
            i <= sheets.len(),
            r.len() == i,
            forall|j: int|
                0 <= j < i ==> #[trigger] r@[j].0@ == sheets@[j].title@ && r@[j].1
                    == sheets@[j].sheet_id,
        decreases sheets.len() - i,
    {
        r.push((sheets[i].title.clone(), sheets[i].sheet_id));
        i = i + 1;
    }
    r
}

/// A tab that the spreadsheet does not have.
pub enum SheetError {
    NotFound(String),
}

/// The sheet id of the first tab with the given title.
pub fn get_sheet_id(map: &Vec<(String, i64)>, sheet_name: &str) -> (r: Result<i64, SheetError>)
    ensures
        match r {
            Ok(id) => exists|i: int|
                0 <= i < map.len() && #[trigger] map@[i].0@ == sheet_name@ && map@[i].1 == id
                    && forall|j: int| 0 <= j < i ==> #[trigger] map@[j].0@ != sheet_name@,
            Err(SheetError::NotFound(n)) => n@ == sheet_name@ && forall|i: int|
                0 <= i < map.len() ==> #[trigger] map@[i].0@ != sheet_name@,
        },
{
    let name = text::string_from(sheet_name);
    let mut i: usize = 0;
    while i < map.len()
        invariant
            i <= map.len(),
            name@ == sheet_name@,
            forall|j: int| 0 <= j < i ==> #[trigger] map@[j].0@ != sheet_name@,
        decreases map.len() - i,
    {
        if map[i].0 == name {
            return Ok(map[i].1);
        }
        i = i + 1;
    }
    Err(SheetError::NotFound(name))
}

impl SheetError {
    /// The message of the error: `Sheet '<name>' not found.`
    pub fn message(&self) -> (r: String)
        ensures
            match self {
                SheetError::NotFound(n) => r@ == "Sheet '"@ + n@ + "' not found."@,
            },
    {
        match self {
            SheetError::NotFound(n) => {
                let mut r = text::string_from("Sheet '");
                r.append(n.as_str());
                r.append("' not found.");
                r
            },
        }
    }
}

// ---------------------------------------------------------------------------
// Sheet contents
// ---------------------------------------------------------------------------
/// The header row (as texts) and the data rows of a tab's values: row 0
/// holds the headers, the rest is data. No rows: no headers and no data.
pub fn get_sheet_data(values: Vec<Vec<CellValue>>) -> (r: (Vec<String>, Vec<Vec<CellValue>>))
    ensures
        values.len() == 0 ==> r.0.len() == 0 && r.1.len() == 0,
        values.len() > 0 ==> r.0.len() == values@[0].len() && (forall|i: int|
            0 <= i < values@[0].len() ==> #[trigger] r.0@[i]@ == cell_text(values@[0]@[i]))
            && r.1@ == values@.skip(1),
{
    if values.len() == 0 {
        return (Vec::new(), Vec::new());
    }
    let mut values = values;
    let ghost all = values@;
    let first = values.remove(0);
    assert(values@ == all.skip(1));
    let mut headers: Vec<String> = Vec::new();
    let mut i: usize = 0;
    while i < first.len()
        invariant
            i <= first.len(),
            first@ == all[0]@,
            headers.len() == i,
            forall|j: int| 0 <= j < i ==> #[trigger] headers@[j]@ == cell_text(first@[j]),
        decreases first.len() - i,
    {
        headers.push(value_to_string(&first[i]));
        i = i + 1;
    }
    (headers, values)
}

// ---------------------------------------------------------------------------
// Failed responses
// ---------------------------------------------------------------------------
/// The string at `error.message` of a JSON text, as `serde_json` reads it:
/// none when the text is no JSON or holds no string there.
pub uninterp spec fn json_error_message(body: Seq<char>) -> Option<Seq<char>>;

/// Parses `body` with `serde_json::from_str` into a `serde_json::Value` and
/// reads the string at `["error"]["message"]` (indexing gives null for a
/// missing key; `as_str` gives nothing for a non-string). Claimed: the
/// result is `json_error_message` of the body, which depends on the body
/// alone.
#[verifier::external_body]
fn error_message_in(body: &str) -> (r: Option<String>)
    ensures
        match r {
            Some(m) => json_error_message(body@) == Some(m@),
            None => json_error_message(body@) is None,
        },
{
    serde_json::from_str::<serde_json::Value>(body).ok().and_then(
        |v| v["error"]["message"].as_str().map(String::from),
    )
}

/// What a failed response reports: the API's own message when its body
/// has one, else the whole body.
pub open spec fn failure_detail(body: Seq<char>, api_message: Option<Seq<char>>) -> Seq<char> {
    match api_message {
        Some(m) => m,
        None => body,
    }
}

/// The error for a failed response, given its status line, its body and
/// the message found in the body (if any): `<status>: <detail>`.
pub fn failure_message_with(status: &str, body: &str, api_message: Option<String>) -> (r: String)
    ensures
        r@ == status@ + ": "@ + failure_detail(
            body@,
            match api_message {
                Some(m) => Some(m@),
                None => None,
            },
        ),
{
    let mut r = text::string_from(status);
    r.append(": ");
    match api_message {
        Some(m) => r.append(m.as_str()),
        None => r.append(body),
    }
    r
}

/// The error for a failed response of the Sheets API: its status line,
/// then the API's message from the JSON body's `error.message`, or else
/// the whole body.
pub fn failure_message(status: &str, body: &str) -> (r: String)
    ensures
        r@ == status@ + ": "@ + failure_detail(body@, json_error_message(body@)),
{
    let m = error_message_in(body);
    failure_message_with(status, body, m)
}

} // verus!
