//! Reading and writing integers in decimal, and the grammar of float
//! literals, as `str::parse` for `usize`, `i64` and `f64` accepts them.
use vstd::prelude::*;
use crate::text;

verus! {

/// Every character is an ASCII digit.
pub open spec fn all_digits(s: Seq<char>) -> bool {
    forall|i: int| 0 <= i < s.len() ==> text::is_ascii_digit(#[trigger] s[i])
}

/// The value of a string of ASCII digits.
pub open spec fn decimal_value(s: Seq<char>) -> nat
    decreases s.len(),
{
    if s.len() == 0 {
        0
    } else {
        (decimal_value(s.drop_last()) * 10 + text::digit_value(s.last())) as nat
    }
}

/// The digits that follow an optional leading `+` (unsigned parsing).
pub open spec fn unsigned_body(s: Seq<char>) -> Seq<char> {
    if s.len() > 0 && s[0] == '+' {
        s.skip(1)
    } else {
        s
    }
}

/// `s.parse::<usize>()`: an optional `+`, then at least one ASCII digit,
/// with a value that fits in `usize`.
pub open spec fn parse_usize_spec(s: Seq<char>) -> Option<usize> {
    let b = unsigned_body(s);
    if b.len() > 0 && all_digits(b) && decimal_value(b) <= usize::MAX {
        Some(decimal_value(b) as usize)
    } else {
        None
    }
}

/// The digits that follow an optional sign (signed parsing).
pub open spec fn signed_body(s: Seq<char>) -> Seq<char> {
    if s.len() > 0 && (s[0] == '+' || s[0] == '-') {
        s.skip(1)
    } else {
        s
    }
}

/// `s.parse::<i64>().is_ok()`: an optional sign, at least one ASCII digit,
/// and a value in `i64`'s range.
pub open spec fn parses_as_i64_spec(s: Seq<char>) -> bool {
    let b = signed_body(s);
    let neg = s.len() > 0 && s[0] == '-';
    &&& b.len() > 0
    &&& all_digits(b)
    &&& decimal_value(b) <= (if neg {
        0x8000_0000_0000_0000int
    } else {
        0x7fff_ffff_ffff_ffffint
    })
}

proof fn lemma_decimal_value_prefix(s: Seq<char>, i: int)
    requires
        0 <= i <= s.len(),
        all_digits(s),
    ensures
        decimal_value(s.take(i)) <= decimal_value(s),
    decreases s.len() - i,
{
    if i < s.len() {
        lemma_decimal_value_prefix(s, i + 1);
        let t = s.take(i + 1);
        assert(t.drop_last() == s.take(i));
        assert(text::is_ascii_digit(s[i]));
        assert(t.last() == s[i]);
        let v = decimal_value(s.take(i));
        assert(v * 10 + text::digit_value(s[i]) >= v) by (nonlinear_arith)
            requires
                v >= 0,
                text::digit_value(s[i]) >= 0,
        ;
    } else {
        assert(s.take(i) == s);
    }
}

/// Value of the ASCII digits of `s[lo..hi]`, or `None` past `bound`.
fn digits_value(s: &Vec<char>, lo: usize, hi: usize, bound: u64) -> (r: Option<u64>)
    requires
        lo <= hi <= s.len(),
        all_digits(s@.subrange(lo as int, hi as int)),
        bound >= 9,
    ensures
        r is Some <==> decimal_value(s@.subrange(lo as int, hi as int)) <= bound,
        r matches Some(v) ==> v == decimal_value(s@.subrange(lo as int, hi as int)),
{
    let ghost d = s@.subrange(lo as int, hi as int);
    let mut acc: u64 = 0;
    let mut i: usize = lo;
    while i < hi
        invariant
            lo <= i <= hi <= s.len(),
            d == s@.subrange(lo as int, hi as int),
            all_digits(d),
            acc == decimal_value(d.take(i - lo)),
            acc <= bound,
            bound >= 9,
        decreases hi - i,
    {
        let c = s[i];
        assert(d[i - lo] == c);
        assert(text::is_ascii_digit(c));
        assert(d.take(i - lo + 1).drop_last() == d.take(i - lo));
        let dv: u64 = (c as u32 - 48) as u64;
        if acc > (bound - dv) / 10 {
            proof {
                assert(acc * 10 + dv > bound) by (nonlinear_arith)
                    requires
                        acc > (bound - dv) / 10,
                        dv <= bound,
                ;
                lemma_decimal_value_prefix(d, i - lo + 1);
            }
            return None;
        }
        assert(acc * 10 + dv <= bound) by (nonlinear_arith)
            requires
                acc <= (bound - dv) / 10,
                dv <= bound,
        ;
        acc = acc * 10 + dv;
        i = i + 1;
    }
    assert(d.take(hi - lo) == d);
    Some(acc)
}

/// `s.parse::<usize>()` on `s[lo..hi]`.
pub fn parse_usize_in(s: &Vec<char>, lo: usize, hi: usize) -> (r: Option<usize>)
    requires
        lo <= hi <= s.len(),
    ensures
        r == parse_usize_spec(s@.subrange(lo as int, hi as int)),
{
    let ghost t = s@.subrange(lo as int, hi as int);
    let mut start: usize = lo;
    if lo < hi && s[lo] == '+' {
        start = lo + 1;
    }
    assert(unsigned_body(t) == s@.subrange(start as int, hi as int));
    if start >= hi {
        return None;
    }
    let mut i: usize = start;
    while i < hi
        invariant
            lo <= start <= i <= hi <= s.len(),
            unsigned_body(s@.subrange(lo as int, hi as int)) == s@.subrange(start as int, hi as int),
            forall|k: int| start <= k < i ==> text::is_ascii_digit(#[trigger] s@[k]),
        decreases hi - i,
    {
        if !text::is_ascii_digit_exec(s[i]) {
            assert(s@.subrange(start as int, hi as int)[i - start] == s@[i as int]);
            assert(!all_digits(s@.subrange(start as int, hi as int)));
            return None;
        }
        i = i + 1;
    }
    assert(all_digits(s@.subrange(start as int, hi as int)));
    let bound: u64 = if usize::MAX as u64 <= u64::MAX {
        usize::MAX as u64
    } else {
        u64::MAX
    };
    match digits_value(s, start, hi, bound) {
        Some(v) => Some(v as usize),
        None => None,
    }
}

/// `s.parse::<usize>()`.
pub fn parse_usize(s: &str) -> (r: Option<usize>)
    ensures
        r == parse_usize_spec(s@),
{
    let v = text::to_chars(s);
    assert(v@.subrange(0, v@.len() as int) == v@);
    parse_usize_in(&v, 0, v.len())
}

/// `s.parse::<i64>().is_ok()`.
pub fn parses_as_i64(s: &Vec<char>) -> (b: bool)
    ensures
        b == parses_as_i64_spec(s@),
{
    let neg = s.len() > 0 && s[0] == '-';
    let start: usize = if s.len() > 0 && (s[0] == '+' || s[0] == '-') {
        1
    } else {
        0
    };
    assert(signed_body(s@) == s@.subrange(start as int, s.len() as int));
    if start >= s.len() {
        return false;
    }
    let mut i: usize = start;
    while i < s.len()
        invariant
            start <= i <= s.len(),
            signed_body(s@) == s@.subrange(start as int, s.len() as int),
            forall|k: int| start <= k < i ==> text::is_ascii_digit(#[trigger] s@[k]),
        decreases s.len() - i,
    {
        if !text::is_ascii_digit_exec(s[i]) {
            assert(s@.subrange(start as int, s.len() as int)[i - start] == s@[i as int]);
            assert(!all_digits(s@.subrange(start as int, s.len() as int)));
            return false;
        }
        i = i + 1;
    }
    assert(all_digits(s@.subrange(start as int, s.len() as int)));
    let bound: u64 = if neg {
        0x8000_0000_0000_0000
    } else {
        0x7fff_ffff_ffff_ffff
    };
    digits_value(s, start, s.len(), bound).is_some()
}

/// ASCII case-insensitive equality with a lower-case word.
pub open spec fn ascii_ci_eq(s: Seq<char>, w: Seq<char>) -> bool {
    &&& s.len() == w.len()
    &&& forall|i: int|
        0 <= i < s.len() ==> (#[trigger] s[i] == w[i] || s[i] as u32 + 32 == w[i] as u32)
}

/// End of the run of ASCII digits that starts at `i`.
pub open spec fn ascii_digit_end(s: Seq<char>, i: int) -> int
    decreases s.len() - i,
{
    if 0 <= i < s.len() && text::is_ascii_digit(s[i]) {
        ascii_digit_end(s, i + 1)
    } else {
        i
    }
}

/// An exponent: `e` or `E`, an optional sign, then ASCII digits to the end.
pub open spec fn is_exponent(s: Seq<char>, j: int) -> bool {
    let k = if j + 1 < s.len() && (s[j + 1] == '+' || s[j + 1] == '-') {
        j + 2
    } else {
        j + 1
    };
    &&& j < s.len()
    &&& (s[j] == 'e' || s[j] == 'E')
    &&& k < s.len()
    &&& ascii_digit_end(s, k) == s.len()
}

/// `Digit+ | Digit+ '.' Digit* | Digit* '.' Digit+`, then an optional exponent.
pub open spec fn is_decimal_number(b: Seq<char>) -> bool {
    let i = ascii_digit_end(b, 0);
    let dot = i < b.len() && b[i] == '.';
    let j = if dot {
        ascii_digit_end(b, i + 1)
    } else {
        i
    };
    &&& (i > 0 || j > i + 1)
    &&& (j == b.len() || is_exponent(b, j))
}

/// `s.parse::<f64>().is_ok()`: the grammar of the documentation of
/// `impl FromStr for f64`, where letters compare ASCII case-insensitively.
pub open spec fn is_float_literal(s: Seq<char>) -> bool {
    let b = signed_body(s);
    ||| ascii_ci_eq(b, seq!['i', 'n', 'f'])
    ||| ascii_ci_eq(b, seq!['i', 'n', 'f', 'i', 'n', 'i', 't', 'y'])
    ||| ascii_ci_eq(b, seq!['n', 'a', 'n'])
    ||| is_decimal_number(b)
}

fn ascii_digit_end_exec(s: &Vec<char>, i: usize) -> (r: usize)
    requires
        i <= s.len(),
    ensures
        r == ascii_digit_end(s@, i as int),
        i <= r <= s.len(),
{
    let mut j: usize = i;
    while j < s.len() && text::is_ascii_digit_exec(s[j])
        invariant
            i <= j <= s.len(),
            ascii_digit_end(s@, j as int) == ascii_digit_end(s@, i as int),
        decreases s.len() - j,
    {
        j = j + 1;
    }
    j
}

fn ascii_ci_eq_exec(s: &Vec<char>, w: &Vec<char>) -> (b: bool)
    ensures
        b == ascii_ci_eq(s@, w@),
{
    if s.len() != w.len() {
        return false;
    }
    let mut i: usize = 0;
    while i < s.len()
        invariant
            s.len() == w.len(),
            i <= s.len(),
            forall|k: int|
                0 <= k < i ==> (#[trigger] s@[k] == w@[k] || s@[k] as u32 + 32 == w@[k] as u32),
        decreases s.len() - i,
    {
        let a: u32 = s[i] as u32;
        let c: u32 = w[i] as u32;
        if !(s[i] == w[i] || (a as u64) + 32 == (c as u64)) {
            return false;
        }
        i = i + 1;
    }
    true
}

fn is_decimal_number_exec(b: &Vec<char>) -> (r: bool)
    ensures
        r == is_decimal_number(b@),
{
    let i = ascii_digit_end_exec(b, 0);
    let dot = i < b.len() && b[i] == '.';
    let j = if dot {
        ascii_digit_end_exec(b, i + 1)
    } else {
        i
    };
    if !(i > 0 || j > i + 1) {
        return false;
    }
    if j == b.len() {
        return true;
    }
    if !(b[j] == 'e' || b[j] == 'E') {
        return false;
    }
    let k: usize = if j + 1 < b.len() && (b[j + 1] == '+' || b[j + 1] == '-') {
        j + 2
    } else {
        j + 1
    };
    k < b.len() && ascii_digit_end_exec(b, k) == b.len()
}

/// `s.parse::<f64>().is_ok()`.
pub fn is_float_literal_exec(s: &Vec<char>) -> (r: bool)
    ensures
        r == is_float_literal(s@),
{
    let start: usize = if s.len() > 0 && (s[0] == '+' || s[0] == '-') {
        1
    } else {
        0
    };
    let mut b: Vec<char> = Vec::new();
    let mut i: usize = start;
    while i < s.len()
        invariant
            start <= i <= s.len(),
            b@ == s@.subrange(start as int, i as int),
        decreases s.len() - i,
    {
        b.push(s[i]);
        assert(s@.subrange(start as int, i + 1) == s@.subrange(start as int, i as int).push(
            s@[i as int],
        ));
        i = i + 1;
    }
    assert(b@ == signed_body(s@));
    let inf = vec!['i', 'n', 'f'];
    let infinity = vec!['i', 'n', 'f', 'i', 'n', 'i', 't', 'y'];
    let nan = vec!['n', 'a', 'n'];
    assert(inf@ == seq!['i', 'n', 'f']);
    assert(infinity@ == seq!['i', 'n', 'f', 'i', 'n', 'i', 't', 'y']);
    assert(nan@ == seq!['n', 'a', 'n']);
    ascii_ci_eq_exec(&b, &inf) || ascii_ci_eq_exec(&b, &infinity) || ascii_ci_eq_exec(&b, &nan)
        || is_decimal_number_exec(&b)
}

/// The decimal digit character for `d < 10`.
pub open spec fn digit_char(d: nat) -> char {
    (48 + d) as char
}

/// `n.to_string()` for an unsigned integer.
pub open spec fn decimal_string(n: nat) -> Seq<char>
    decreases n,
{
    if n < 10 {
        seq![digit_char(n)]
    } else {
        decimal_string(n / 10).push(digit_char(n % 10))
    }
}

/// Appends the decimal form of `n` to `out`.
pub fn write_decimal(n: usize, out: &mut String)
    ensures
        final(out)@ == old(out)@ + decimal_string(n as nat),
    decreases n,
{
    if n >= 10 {
        write_decimal(n / 10, out);
    }
    let d: usize = n % 10;
    let c: char = match d {
        0 => '0',
        1 => '1',
        2 => '2',
        3 => '3',
        4 => '4',
        5 => '5',
        6 => '6',
        7 => '7',
        8 => '8',
        _ => '9',
    };
    assert(c == digit_char(d as nat));
    text::push_char(out, c);
}

/// `n.to_string()`.
pub fn usize_to_string(n: usize) -> (s: String)
    ensures
        s@ == decimal_string(n as nat),
{
    let mut s = String::new();
    write_decimal(n, &mut s);
    s
}

proof fn lemma_digit_char(d: nat)
    requires
        d < 10,
    ensures
        text::is_ascii_digit(digit_char(d)),
        text::digit_value(digit_char(d)) == d,
        digit_char(d) != '+',
{
}

/// The decimal form of a number is a non-empty run of digits that reads
/// back as the number.
pub proof fn decimal_round_trip(n: nat)
    ensures
        decimal_string(n).len() > 0,
        all_digits(decimal_string(n)),
        decimal_value(decimal_string(n)) == n,
        decimal_string(n)[0] != '+',
    decreases n,
{
    let s = decimal_string(n);
    if n < 10 {
        lemma_digit_char(n);
        assert(s.drop_last() =~= Seq::<char>::empty());
        assert(decimal_value(Seq::<char>::empty()) == 0);
        assert(decimal_value(s) == decimal_value(s.drop_last()) * 10 + text::digit_value(s.last()));
    } else {
        decimal_round_trip(n / 10);
        let p = decimal_string(n / 10);
        lemma_digit_char(n % 10);
        assert(s.drop_last() =~= p);
        assert(s[0] == p[0]);
        assert forall|i: int| 0 <= i < s.len() implies text::is_ascii_digit(#[trigger] s[i]) by {
            if i < p.len() {
                assert(s[i] == p[i]);
            }
        }
        assert(s.last() == digit_char(n % 10));
        assert(decimal_value(s) == decimal_value(s.drop_last()) * 10 + text::digit_value(s.last()));
        assert((n / 10) * 10 + n % 10 == n);
    }
}

/// A row number printed in decimal parses back, as `usize`, to itself.
pub proof fn usize_text_round_trip(n: usize)
    ensures
        parse_usize_spec(decimal_string(n as nat)) == Some(n),
{
    decimal_round_trip(n as nat);
}

} // verus!
