//! Character-level building blocks shared by the SQL reader and the sheet
//! helpers: Unicode whitespace, trimming, keyword matching and conversions
//! between `String` and `Vec<char>`.
use vstd::prelude::*;

verus! {

/// The Unicode `White_Space` property. `char::is_whitespace`, `str::trim`
/// and the `\s` class of the regex dialect used by the SQL grammar all
/// range over exactly this set.
pub open spec fn is_ws(c: char) -> bool {
    let u = c as u32;
    ||| (9 <= u && u <= 13)
    ||| u == 32
    ||| u == 0x85
    ||| u == 0xa0
    ||| u == 0x1680
    ||| (0x2000 <= u && u <= 0x200a)
    ||| u == 0x2028
    ||| u == 0x2029
    ||| u == 0x202f
    ||| u == 0x205f
    ||| u == 0x3000
}

pub fn is_whitespace(c: char) -> (b: bool)
    ensures
        b == is_ws(c),
{
    let u: u32 = c as u32;
    (9 <= u && u <= 13) || u == 32 || u == 0x85 || u == 0xa0 || u == 0x1680 || (0x2000 <= u && u
        <= 0x200a) || u == 0x2028 || u == 0x2029 || u == 0x202f || u == 0x205f || u == 0x3000
}

/// End of the run of whitespace that starts at `i`.
pub open spec fn skip_ws(s: Seq<char>, i: int) -> int
    decreases s.len() - i,
{
    if 0 <= i < s.len() && is_ws(s[i]) {
        skip_ws(s, i + 1)
    } else {
        i
    }
}

/// End of the run of non-whitespace characters that starts at `i`.
pub open spec fn nonws_end(s: Seq<char>, i: int) -> int
    decreases s.len() - i,
{
    if 0 <= i < s.len() && !is_ws(s[i]) {
        nonws_end(s, i + 1)
    } else {
        i
    }
}

/// Start of the run of whitespace that ends at `j`.
pub open spec fn back_ws(s: Seq<char>, j: int) -> int
    decreases j,
{
    if 0 < j <= s.len() && is_ws(s[j - 1]) {
        back_ws(s, j - 1)
    } else {
        j
    }
}

/// `str::trim`: the text without its leading and trailing whitespace.
pub open spec fn trim(s: Seq<char>) -> Seq<char> {
    let a = skip_ws(s, 0);
    if a >= s.len() {
        Seq::empty()
    } else {
        s.subrange(a, back_ws(s, s.len() as int))
    }
}

/// Every character of `s` from `i` on is whitespace.
pub open spec fn ws_to_end(s: Seq<char>, i: int) -> bool {
    skip_ws(s, i) == s.len()
}

pub proof fn lemma_skip_ws(s: Seq<char>, i: int)
    requires
        0 <= i <= s.len(),
    ensures
        i <= skip_ws(s, i) <= s.len(),
        skip_ws(s, i) == s.len() || !is_ws(s[skip_ws(s, i)]),
        forall|k: int| i <= k < skip_ws(s, i) ==> is_ws(#[trigger] s[k]),
    decreases s.len() - i,
{
    if i < s.len() && is_ws(s[i]) {
        lemma_skip_ws(s, i + 1);
    }
}

pub proof fn lemma_nonws_end(s: Seq<char>, i: int)
    requires
        0 <= i <= s.len(),
    ensures
        i <= nonws_end(s, i) <= s.len(),
        nonws_end(s, i) == s.len() || is_ws(s[nonws_end(s, i)]),
        forall|k: int| i <= k < nonws_end(s, i) ==> !is_ws(#[trigger] s[k]),
    decreases s.len() - i,
{
    if i < s.len() && !is_ws(s[i]) {
        lemma_nonws_end(s, i + 1);
    }
}

pub proof fn lemma_back_ws(s: Seq<char>, j: int)
    requires
        0 <= j <= s.len(),
    ensures
        0 <= back_ws(s, j) <= j,
        back_ws(s, j) == 0 || !is_ws(s[back_ws(s, j) - 1]),
        forall|k: int| back_ws(s, j) <= k < j ==> is_ws(#[trigger] s[k]),
    decreases j,
{
    if 0 < j && is_ws(s[j - 1]) {
        lemma_back_ws(s, j - 1);
    }
}

pub proof fn lemma_trim_bounds(s: Seq<char>)
    ensures
        skip_ws(s, 0) < s.len() ==> skip_ws(s, 0) < back_ws(s, s.len() as int) <= s.len(),
{
    lemma_skip_ws(s, 0);
    lemma_back_ws(s, s.len() as int);
    if skip_ws(s, 0) < s.len() {
        let a = skip_ws(s, 0);
        let b = back_ws(s, s.len() as int);
        if b <= a {
            assert(is_ws(s[a]));
        }
    }
}

pub fn skip_ws_exec(s: &Vec<char>, i: usize) -> (r: usize)
    requires
        i <= s.len(),
    ensures
        r == skip_ws(s@, i as int),
        i <= r <= s.len(),
{
    let mut j: usize = i;
    while j < s.len() && is_whitespace(s[j])
        invariant
            i <= j <= s.len(),
            skip_ws(s@, j as int) == skip_ws(s@, i as int),
        decreases s.len() - j,
    {
        j = j + 1;
    }
    j
}

pub fn nonws_end_exec(s: &Vec<char>, i: usize) -> (r: usize)
    requires
        i <= s.len(),
    ensures
        r == nonws_end(s@, i as int),
        i <= r <= s.len(),
{
    let mut j: usize = i;
    while j < s.len() && !is_whitespace(s[j])
        invariant
            i <= j <= s.len(),
            nonws_end(s@, j as int) == nonws_end(s@, i as int),
        decreases s.len() - j,
    {
        j = j + 1;
    }
    j
}

pub fn back_ws_exec(s: &Vec<char>, j: usize) -> (r: usize)
    requires
        j <= s.len(),
    ensures
        r == back_ws(s@, j as int),
        r <= j,
{
    let mut k: usize = j;
    while k > 0 && is_whitespace(s[k - 1])
        invariant
            k <= j <= s.len(),
            back_ws(s@, k as int) == back_ws(s@, j as int),
        decreases k,
    {
        k = k - 1;
    }
    k
}

/// Positions `(start, end)` of the trimmed part of `s`.
pub fn trim_bounds(s: &Vec<char>) -> (r: (usize, usize))
    ensures
        r.0 <= r.1 <= s.len(),
        s@.subrange(r.0 as int, r.1 as int) == trim(s@),
{
    proof {
        lemma_trim_bounds(s@);
    }
    let a = skip_ws_exec(s, 0);
    if a >= s.len() {
        (0, 0)
    } else {
        let b = back_ws_exec(s, s.len());
        (a, b)
    }
}

/// The characters of a string slice.
pub fn to_chars(s: &str) -> (v: Vec<char>)
    ensures
        v@ == s@,
{
    let mut v: Vec<char> = Vec::new();
    for c in it: s.chars()
        invariant
            v@ == it.seq().take(it.index() as int),
            it.seq() == s@,
    {
        v.push(c);
    }
    v
}

/// Appends one character to a `String` (`String::push`).
#[verifier::external_body]
pub(crate) fn push_char(s: &mut String, c: char)
    ensures
        final(s)@ == old(s)@.push(c),
{
    s.push(c);
}

/// The string made of `v[lo..hi]`.
pub fn string_of(v: &Vec<char>, lo: usize, hi: usize) -> (s: String)
    requires
        lo <= hi <= v.len(),
    ensures
        s@ == v@.subrange(lo as int, hi as int),
{
    let mut s = String::new();
    let mut i: usize = lo;
    while i < hi
        invariant
            lo <= i <= hi <= v.len(),
            s@ == v@.subrange(lo as int, i as int),
        decreases hi - i,
    {
        push_char(&mut s, v[i]);
        assert(v@.subrange(lo as int, i + 1) == v@.subrange(lo as int, i as int).push(v@[i as int]));
        i = i + 1;
    }
    s
}

/// The trimmed copy of `v[lo..hi]`.
pub fn trimmed_string_of(v: &Vec<char>, lo: usize, hi: usize) -> (s: String)
    requires
        lo <= hi <= v.len(),
    ensures
        s@ == trim(v@.subrange(lo as int, hi as int)),
{
    let mut w: Vec<char> = Vec::new();
    let mut i: usize = lo;
    while i < hi
        invariant
            lo <= i <= hi <= v.len(),
            w@ == v@.subrange(lo as int, i as int),
        decreases hi - i,
    {
        w.push(v[i]);
        assert(v@.subrange(lo as int, i + 1) == v@.subrange(lo as int, i as int).push(v@[i as int]));
        i = i + 1;
    }
    let (a, b) = trim_bounds(&w);
    string_of(&w, a, b)
}

/// `str::trim` on a string slice.
pub fn trim_str(s: &str) -> (r: String)
    ensures
        r@ == trim(s@),
{
    let v = to_chars(s);
    let (a, b) = trim_bounds(&v);
    string_of(&v, a, b)
}


/// A `String` with the characters of `s`.
pub fn string_from(s: &str) -> (r: String)
    ensures
        r@ == s@,
{
    let v = to_chars(s);
    let r = string_of(&v, 0, v.len());
    assert(v@.subrange(0, v@.len() as int) == v@);
    r
}

/// The start of the run of `c` characters that ends at `j`.
pub open spec fn char_run_start(s: Seq<char>, j: int, c: char) -> int
    decreases j,
{
    if 0 < j <= s.len() && s[j - 1] == c {
        char_run_start(s, j - 1, c)
    } else {
        j
    }
}

pub proof fn lemma_char_run_start(s: Seq<char>, j: int, c: char)
    requires
        0 <= j <= s.len(),
    ensures
        0 <= char_run_start(s, j, c) <= j,
    decreases j,
{
    if 0 < j && s[j - 1] == c {
        lemma_char_run_start(s, j - 1, c);
    }
}

/// `str::trim_end_matches(c)`.
pub open spec fn trim_end_char(s: Seq<char>, c: char) -> Seq<char> {
    s.subrange(0, char_run_start(s, s.len() as int, c))
}

pub fn trim_end_char_exec(v: &Vec<char>, c: char) -> (r: Vec<char>)
    ensures
        r@ == trim_end_char(v@, c),
{
    proof {
        lemma_char_run_start(v@, v@.len() as int, c);
    }
    let mut j: usize = v.len();
    while j > 0 && v[j - 1] == c
        invariant
            j <= v.len(),
            char_run_start(v@, j as int, c) == char_run_start(v@, v@.len() as int, c),
        decreases j,
    {
        j = j - 1;
    }
    let mut w: Vec<char> = Vec::new();
    let mut i: usize = 0;
    while i < j
        invariant
            i <= j <= v.len(),
            w@ == v@.subrange(0, i as int),
        decreases j - i,
    {
        w.push(v[i]);
        assert(v@.subrange(0, i + 1) == v@.subrange(0, i as int).push(v@[i as int]));
        i = i + 1;
    }
    w
}

/// `c` matches the keyword character `k` under the regex `(?i)` flag:
/// simple Unicode case folding, which for ASCII letters adds the other
/// case, plus U+017F for `S` and U+212A for `K`.
pub open spec fn fold_eq(c: char, k: char) -> bool {
    let u = c as u32;
    let w = k as u32;
    ||| c == k
    ||| (65 <= w && w <= 90 && u == w + 32)
    ||| (w == 83 && u == 0x17f)
    ||| (w == 75 && u == 0x212a)
}

pub fn fold_eq_exec(c: char, k: char) -> (b: bool)
    ensures
        b == fold_eq(c, k),
{
    let u: u32 = c as u32;
    let w: u32 = k as u32;
    c == k || (65 <= w && w <= 90 && u == w + 32) || (w == 83 && u == 0x17f) || (w == 75 && u
        == 0x212a)
}

/// The keyword `kw` (written in upper case) occurs at `i`, case-insensitively.
pub open spec fn kw_at(s: Seq<char>, i: int, kw: Seq<char>) -> bool {
    &&& 0 <= i
    &&& i + kw.len() <= s.len()
    &&& forall|j: int| 0 <= j < kw.len() ==> fold_eq(#[trigger] s[i + j], kw[j])
}

pub fn kw_at_exec(s: &Vec<char>, i: usize, kw: &str) -> (b: bool)
    ensures
        b == kw_at(s@, i as int, kw@),
{
    let n = kw.unicode_len();
    if n > s.len() || i > s.len() - n {
        return false;
    }
    let mut j: usize = 0;
    while j < n
        invariant
            n == kw@.len(),
            i + n <= s.len(),
            j <= n,
            forall|t: int| 0 <= t < j ==> fold_eq(#[trigger] s@[i + t], kw@[t]),
        decreases n - j,
    {
        if !fold_eq_exec(s[i + j], kw.get_char(j)) {
            return false;
        }
        j = j + 1;
    }
    true
}

/// `c` is an ASCII decimal digit.
pub open spec fn is_ascii_digit(c: char) -> bool {
    48 <= c as u32 && c as u32 <= 57
}

pub fn is_ascii_digit_exec(c: char) -> (b: bool)
    ensures
        b == is_ascii_digit(c),
{
    let u: u32 = c as u32;
    48 <= u && u <= 57
}

/// Value of an ASCII digit.
pub open spec fn digit_value(c: char) -> int {
    c as u32 - 48
}

} // verus!
