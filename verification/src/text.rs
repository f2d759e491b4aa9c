//! Character-level text utilities shared by the parsers and presenters.
//!
//! Strings are modelled by their character sequences (`s@`).
use vstd::prelude::*;

verus! {

// ---------------------------------------------------------------------------
// Conversions between strings and character vectors
// ---------------------------------------------------------------------------

/// Collects the characters of a string slice.
pub fn chars_of(s: &str) -> (out: Vec<char>)
    ensures
        out@ == s@,
{
    let mut out: Vec<char> = Vec::new();
    let n = s.unicode_len();
    let mut i: usize = 0;
    while i < n
        invariant
            n == s@.len(),
            i <= n,
            out@ == s@.subrange(0, i as int),
        decreases n - i,
    {
        out.push(s.get_char(i));
        i = i + 1;
    }
    out
}

/// `String::push`: appends one character to the end of the string.
#[verifier::external_body]
fn push_char(s: &mut String, c: char)
    ensures
        final(s)@ == old(s)@.push(c),
{
    s.push(c);
}

/// Builds a string from a slice of characters.
pub fn string_from_chars(cs: &[char]) -> (out: String)
    ensures
        out@ == cs@,
{
    string_from_range(cs, 0, cs.len())
}

/// Builds a string from the characters `cs[lo..hi]`.
pub fn string_from_range(cs: &[char], lo: usize, hi: usize) -> (out: String)
    requires
        lo <= hi <= cs@.len(),
    ensures
        out@ == cs@.subrange(lo as int, hi as int),
{
    let mut out = String::new();
    let mut i: usize = lo;
    while i < hi
        invariant
            lo <= i <= hi <= cs@.len(),
            out@ == cs@.subrange(lo as int, i as int),
        decreases hi - i,
    {
        push_char(&mut out, cs[i]);
        i = i + 1;
    }
    out
}

/// Appends the characters of `cs` to `out`.
pub fn push_chars(out: &mut String, cs: &[char])
    ensures
        final(out)@ == old(out)@ + cs@,
{
    let mut i: usize = 0;
    while i < cs.len()
        invariant
            i <= cs@.len(),
            out@ == old(out)@ + cs@.subrange(0, i as int),
        decreases cs@.len() - i,
    {
        push_char(out, cs[i]);
        i = i + 1;
    }
}

/// Appends `count` copies of `c` to `out`.
pub fn push_repeated(out: &mut String, c: char, count: usize)
    ensures
        final(out)@ == old(out)@ + Seq::new(count as nat, |_i: int| c),
{
    let mut i: usize = 0;
    while i < count
        invariant
            i <= count,
            out@ == old(out)@ + Seq::new(i as nat, |_i: int| c),
        decreases count - i,
    {
        push_char(out, c);
        i = i + 1;
        assert(out@ =~= old(out)@ + Seq::new(i as nat, |_i: int| c));
    }
}

/// Concatenates two strings.
pub fn concat2(a: &str, b: &str) -> (out: String)
    ensures
        out@ == a@ + b@,
{
    let mut out = String::from_str(a);
    out.append(b);
    out
}

/// Concatenates three strings.
pub fn concat3(a: &str, b: &str, c: &str) -> (out: String)
    ensures
        out@ == a@ + b@ + c@,
{
    let mut out = String::from_str(a);
    out.append(b);
    out.append(c);
    out
}

/// Whether two strings hold the same characters.
pub fn str_eq(a: &str, b: &str) -> (r: bool)
    ensures
        r == (a@ == b@),
{
    let n = a.unicode_len();
    if n != b.unicode_len() {
        return false;
    }
    let mut i: usize = 0;
    while i < n
        invariant
            n == a@.len() == b@.len(),
            i <= n,
            a@.subrange(0, i as int) == b@.subrange(0, i as int),
        decreases n - i,
    {
        if a.get_char(i) != b.get_char(i) {
            return false;
        }
        assert(a@.subrange(0, i + 1) =~= a@.subrange(0, i as int).push(a@[i as int]));
        assert(b@.subrange(0, i + 1) =~= b@.subrange(0, i as int).push(b@[i as int]));
        i = i + 1;
    }
    assert(a@ =~= a@.subrange(0, n as int));
    assert(b@ =~= b@.subrange(0, n as int));
    true
}

// ---------------------------------------------------------------------------
// Whitespace and trimming
// ---------------------------------------------------------------------------

/// The Unicode `White_Space` property, which `char::is_whitespace` tests.
pub open spec fn is_ws(c: char) -> bool {
    ||| c == '\t' || c == '\n' || c == '\u{0B}' || c == '\u{0C}' || c == '\r' || c == ' '
    ||| c == '\u{85}' || c == '\u{A0}' || c == '\u{1680}'
    ||| ('\u{2000}' <= c && c <= '\u{200A}')
    ||| c == '\u{2028}' || c == '\u{2029}' || c == '\u{202F}' || c == '\u{205F}'
    ||| c == '\u{3000}'
}

/// Tests a character for the Unicode `White_Space` property.
pub fn is_whitespace(c: char) -> (r: bool)
    ensures
        r == is_ws(c),
{
    c == '\t' || c == '\n' || c == '\u{0B}' || c == '\u{0C}' || c == '\r' || c == ' ' || c
        == '\u{85}' || c == '\u{A0}' || c == '\u{1680}' || ('\u{2000}' <= c && c <= '\u{200A}')
        || c == '\u{2028}' || c == '\u{2029}' || c == '\u{202F}' || c == '\u{205F}' || c
        == '\u{3000}'
}

/// The first index at or after `i` whose character is not whitespace (or `s.len()`).
pub open spec fn skip_ws(s: Seq<char>, i: int) -> int
    decreases s.len() - i,
{
    if 0 <= i < s.len() && is_ws(s[i]) {
        skip_ws(s, i + 1)
    } else {
        i
    }
}

/// The index just after the last non-whitespace character before `j` (or 0).
pub open spec fn skip_ws_back(s: Seq<char>, j: int) -> int
    decreases j,
{
    if 0 < j <= s.len() && is_ws(s[j - 1]) {
        skip_ws_back(s, j - 1)
    } else {
        j
    }
}

/// `str::trim_start`: the sequence without its leading whitespace.
pub open spec fn trim_start(s: Seq<char>) -> Seq<char> {
    s.subrange(skip_ws(s, 0), s.len() as int)
}

/// `str::trim_end`: the sequence without its trailing whitespace.
pub open spec fn trim_end(s: Seq<char>) -> Seq<char> {
    s.subrange(0, skip_ws_back(s, s.len() as int))
}

/// `str::trim`: the sequence without leading and trailing whitespace.
pub open spec fn trim(s: Seq<char>) -> Seq<char> {
    let a = skip_ws(s, 0);
    let b = skip_ws_back(s, s.len() as int);
    if a < b {
        s.subrange(a, b)
    } else {
        Seq::empty()
    }
}

pub proof fn lemma_skip_ws_bounds(s: Seq<char>, i: int)
    requires
        0 <= i <= s.len(),
    ensures
        i <= skip_ws(s, i) <= s.len(),
        forall|k: int| i <= k < skip_ws(s, i) ==> is_ws(#[trigger] s[k]),
        skip_ws(s, i) < s.len() ==> !is_ws(s[skip_ws(s, i)]),
    decreases s.len() - i,
{
    if i < s.len() && is_ws(s[i]) {
        lemma_skip_ws_bounds(s, i + 1);
    }
}

pub proof fn lemma_skip_ws_back_bounds(s: Seq<char>, j: int)
    requires
        0 <= j <= s.len(),
    ensures
        0 <= skip_ws_back(s, j) <= j,
        forall|k: int| skip_ws_back(s, j) <= k < j ==> is_ws(#[trigger] s[k]),
        skip_ws_back(s, j) > 0 ==> !is_ws(s[skip_ws_back(s, j) - 1]),
    decreases j,
{
    if 0 < j && is_ws(s[j - 1]) {
        lemma_skip_ws_back_bounds(s, j - 1);
    }
}

/// Index of the first non-whitespace character in `cs[lo..hi]` (or `hi`).
pub fn skip_whitespace(cs: &[char], lo: usize, hi: usize) -> (r: usize)
    requires
        lo <= hi <= cs@.len(),
    ensures
        r == lo + skip_ws(cs@.subrange(lo as int, hi as int), 0),
        lo <= r <= hi,
{
    let ghost t = cs@.subrange(lo as int, hi as int);
    let mut i = lo;
    proof {
        lemma_skip_ws_bounds(t, 0);
    }
    while i < hi && is_whitespace(cs[i])
        invariant
            lo <= i <= hi <= cs@.len(),
            t == cs@.subrange(lo as int, hi as int),
            skip_ws(t, i - lo) == skip_ws(t, 0),
        decreases hi - i,
    {
        assert(t[i - lo] == cs@[i as int]);
        i = i + 1;
    }
    proof {
        if i < hi {
            assert(t[i - lo] == cs@[i as int]);
        }
    }
    i
}

/// Index just after the last non-whitespace character in `cs[lo..hi]` (or `lo`).
pub fn skip_whitespace_back(cs: &[char], lo: usize, hi: usize) -> (r: usize)
    requires
        lo <= hi <= cs@.len(),
    ensures
        r == lo + skip_ws_back(cs@.subrange(lo as int, hi as int), hi - lo),
        lo <= r <= hi,
{
    let ghost t = cs@.subrange(lo as int, hi as int);
    let mut j = hi;
    proof {
        lemma_skip_ws_back_bounds(t, (hi - lo) as int);
    }
    while j > lo && is_whitespace(cs[j - 1])
        invariant
            lo <= j <= hi <= cs@.len(),
            t == cs@.subrange(lo as int, hi as int),
            skip_ws_back(t, j - lo) == skip_ws_back(t, hi - lo),
        decreases j,
    {
        assert(t[j - 1 - lo] == cs@[j - 1]);
        j = j - 1;
    }
    proof {
        if j > lo {
            assert(t[j - 1 - lo] == cs@[j - 1]);
        }
    }
    j
}

/// Returns the trimmed range `(a, b)` of `cs[lo..hi]`: `cs[a..b] == trim(cs[lo..hi])`.
pub fn trim_range(cs: &[char], lo: usize, hi: usize) -> (r: (usize, usize))
    requires
        lo <= hi <= cs@.len(),
    ensures
        lo <= r.0 <= r.1 <= hi,
        cs@.subrange(r.0 as int, r.1 as int) == trim(cs@.subrange(lo as int, hi as int)),
{
    let ghost t = cs@.subrange(lo as int, hi as int);
    let a = skip_whitespace(cs, lo, hi);
    let b = skip_whitespace_back(cs, lo, hi);
    if a < b {
        assert(cs@.subrange(a as int, b as int) =~= t.subrange(a - lo, b - lo));
        (a, b)
    } else {
        assert(cs@.subrange(a as int, a as int) =~= Seq::<char>::empty());
        (a, a)
    }
}

/// `str::trim`.
pub fn trim_str(s: &str) -> (out: String)
    ensures
        out@ == trim(s@),
{
    let cs = chars_of(s);
    let (a, b) = trim_range(cs.as_slice(), 0, cs.len());
    proof {
        assert(cs@.subrange(0, cs@.len() as int) =~= cs@);
    }
    string_from_range(cs.as_slice(), a, b)
}

// ---------------------------------------------------------------------------
// Prefixes, case folding
// ---------------------------------------------------------------------------

/// Whether `p` occurs in `s` at index `i`.
pub open spec fn occurs_at(s: Seq<char>, i: int, p: Seq<char>) -> bool {
    0 <= i && i + p.len() <= s.len() && s.subrange(i, i + p.len()) == p
}

/// `str::starts_with` on character sequences.
pub open spec fn starts_with(s: Seq<char>, p: Seq<char>) -> bool {
    occurs_at(s, 0, p)
}

/// Whether the string `p` occurs in `cs` at index `i`.
pub fn occurs_at_exec(cs: &[char], i: usize, p: &str) -> (r: bool)
    ensures
        r == occurs_at(cs@, i as int, p@),
{
    let n = p.unicode_len();
    if n > cs.len() || i > cs.len() - n {
        return false;
    }
    assert(i + n <= cs@.len());
    let mut k: usize = 0;
    while k < n
        invariant
            n == p@.len(),
            i + n <= cs.len(),
            k <= n,
            cs@.subrange(i as int, i + k) == p@.subrange(0, k as int),
        decreases n - k,
    {
        if cs[i + k] != p.get_char(k) {
            assert(cs@.subrange(i as int, i + n)[k as int] != p@[k as int]);
            return false;
        }
        assert(cs@.subrange(i as int, i + k + 1) =~= cs@.subrange(i as int, i + k).push(cs@[i + k]));
        assert(p@.subrange(0, k + 1) =~= p@.subrange(0, k as int).push(p@[k as int]));
        k = k + 1;
    }
    assert(p@.subrange(0, n as int) =~= p@);
    true
}

/// `str::starts_with` for a string and a pattern string.
pub fn str_starts_with(s: &str, p: &str) -> (r: bool)
    ensures
        r == starts_with(s@, p@),
{
    let cs = chars_of(s);
    occurs_at_exec(cs.as_slice(), 0, p)
}

/// The code of a character after ASCII lower-casing.
pub open spec fn ascii_fold(c: char) -> u32 {
    if 'A' <= c && c <= 'Z' {
        (c as u32 + 32) as u32
    } else {
        c as u32
    }
}

/// `eq_ignore_ascii_case` on character sequences.
pub open spec fn eq_ignore_ascii_case(a: Seq<char>, b: Seq<char>) -> bool {
    a.len() == b.len() && forall|i: int| 0 <= i < a.len() ==> ascii_fold(#[trigger] a[i]) == ascii_fold(b[i])
}

fn fold_char(c: char) -> (r: u32)
    ensures
        r == ascii_fold(c),
{
    if 'A' <= c && c <= 'Z' {
        (c as u32) + 32
    } else {
        c as u32
    }
}

/// Compares `cs[lo..hi]` with the string `p`, ignoring ASCII case.
pub fn range_eq_ignore_ascii_case(cs: &[char], lo: usize, hi: usize, p: &str) -> (r: bool)
    requires
        lo <= hi <= cs@.len(),
    ensures
        r == eq_ignore_ascii_case(cs@.subrange(lo as int, hi as int), p@),
{
    let n = p.unicode_len();
    if hi - lo != n {
        return false;
    }
    let ghost a = cs@.subrange(lo as int, hi as int);
    let mut k: usize = 0;
    while k < n
        invariant
            n == p@.len() == hi - lo,
            lo <= hi <= cs@.len(),
            a == cs@.subrange(lo as int, hi as int),
            k <= n,
            forall|i: int| 0 <= i < k ==> ascii_fold(#[trigger] a[i]) == ascii_fold(p@[i]),
        decreases n - k,
    {
        if fold_char(cs[lo + k]) != fold_char(p.get_char(k)) {
            assert(ascii_fold(a[k as int]) != ascii_fold(p@[k as int]));
            return false;
        }
        k = k + 1;
    }
    true
}

// ---------------------------------------------------------------------------
// Decimal and hexadecimal numerals
// ---------------------------------------------------------------------------

/// The ASCII digit for `d` (`0 <= d < 10`).
pub open spec fn digit_char(d: int) -> char {
    if d == 0 { '0' }
    else if d == 1 { '1' }
    else if d == 2 { '2' }
    else if d == 3 { '3' }
    else if d == 4 { '4' }
    else if d == 5 { '5' }
    else if d == 6 { '6' }
    else if d == 7 { '7' }
    else if d == 8 { '8' }
    else { '9' }
}

/// The decimal numeral of `n`, as `Display` writes an unsigned integer.
pub open spec fn decimal(n: nat) -> Seq<char>
    decreases n,
{
    if n < 10 {
        seq![digit_char(n as int)]
    } else {
        decimal(n / 10).push(digit_char((n % 10) as int))
    }
}

/// The decimal numeral of a signed integer, as `Display` writes it.
pub open spec fn signed_decimal(n: int) -> Seq<char> {
    if n < 0 {
        seq!['-'] + decimal((-n) as nat)
    } else {
        decimal(n as nat)
    }
}

fn digit(d: u128) -> (c: char)
    requires
        d < 10,
    ensures
        c == digit_char(d as int),
{
    if d == 0 { '0' }
    else if d == 1 { '1' }
    else if d == 2 { '2' }
    else if d == 3 { '3' }
    else if d == 4 { '4' }
    else if d == 5 { '5' }
    else if d == 6 { '6' }
    else if d == 7 { '7' }
    else if d == 8 { '8' }
    else { '9' }
}

/// Appends the decimal numeral of `n` to `out`.
pub fn push_decimal(out: &mut String, n: u128)
    ensures
        final(out)@ == old(out)@ + decimal(n as nat),
    decreases n,
{
    if n < 10 {
        push_char(out, digit(n));
        assert(out@ =~= old(out)@ + decimal(n as nat));
    } else {
        push_decimal(out, n / 10);
        push_char(out, digit(n % 10));
        assert(out@ =~= old(out)@ + decimal(n as nat));
    }
}

/// The decimal numeral of `n`.
pub fn decimal_string(n: u128) -> (out: String)
    ensures
        out@ == decimal(n as nat),
{
    let mut out = String::new();
    push_decimal(&mut out, n);
    assert(out@ =~= decimal(n as nat));
    out
}

/// The decimal numeral of a signed 32-bit integer.
pub fn signed_decimal_string(n: i32) -> (out: String)
    ensures
        out@ == signed_decimal(n as int),
{
    let mut out = String::new();
    if n < 0 {
        push_char(&mut out, '-');
        let m: i64 = -(n as i64);
        push_decimal(&mut out, m as u128);
    } else {
        push_decimal(&mut out, n as u128);
    }
    assert(out@ =~= signed_decimal(n as int));
    out
}

} // verus!
