//! Character classes and low-level scanning over character sequences.
//!
//! Every header shape of the slow-query log is a left-to-right scan over
//! runs of characters from a fixed class (digits, whitespace, and so on),
//! interleaved with fixed marker strings.  This module gives those scans
//! their mathematical form (`spaces_end`, `digits_end`, ...) together with
//! executable counterparts proved against them.

use vstd::prelude::*;

verus! {

/// The whitespace characters recognized by the log grammar: space, tab,
/// line feed, carriage return, vertical tab and form feed.
pub open spec fn is_space_char(c: char) -> bool {
    c == ' ' || c == '\t' || c == '\n' || c == '\r' || c == '\u{b}' || c == '\u{c}'
}

pub open spec fn is_digit_char(c: char) -> bool {
    '0' <= c && c <= '9'
}

/// Characters allowed in a schema identifier: letters, digits, underscore.
pub open spec fn is_word_char(c: char) -> bool {
    is_digit_char(c) || ('a' <= c && c <= 'z') || ('A' <= c && c <= 'Z') || c == '_'
}

/// Characters of a decimal-seconds field: digits and the dot.
pub open spec fn is_num_char(c: char) -> bool {
    is_digit_char(c) || c == '.'
}

pub fn space_c(c: char) -> (r: bool)
    ensures
        r == is_space_char(c),
{
    c == ' ' || c == '\t' || c == '\n' || c == '\r' || c == '\u{b}' || c == '\u{c}'
}

pub fn digit_c(c: char) -> (r: bool)
    ensures
        r == is_digit_char(c),
{
    let u = c as u32;
    48 <= u && u <= 57
}

pub fn word_c(c: char) -> (r: bool)
    ensures
        r == is_word_char(c),
{
    let u = c as u32;
    (48 <= u && u <= 57) || (97 <= u && u <= 122) || (65 <= u && u <= 90) || c == '_'
}

pub fn num_c(c: char) -> (r: bool)
    ensures
        r == is_num_char(c),
{
    digit_c(c) || c == '.'
}

/// First index at or after `i` whose character is not whitespace (or `s.len()`).
pub open spec fn spaces_end(s: Seq<char>, i: int) -> int
    decreases s.len() - i when 0 <= i <= s.len()
{
    if i < s.len() && is_space_char(s[i]) {
        spaces_end(s, i + 1)
    } else {
        i
    }
}

pub open spec fn digits_end(s: Seq<char>, i: int) -> int
    decreases s.len() - i when 0 <= i <= s.len()
{
    if i < s.len() && is_digit_char(s[i]) {
        digits_end(s, i + 1)
    } else {
        i
    }
}

/// First index at or after `i` whose character is whitespace (or `s.len()`).
pub open spec fn nonspace_end(s: Seq<char>, i: int) -> int
    decreases s.len() - i when 0 <= i <= s.len()
{
    if i < s.len() && !is_space_char(s[i]) {
        nonspace_end(s, i + 1)
    } else {
        i
    }
}

pub open spec fn word_end(s: Seq<char>, i: int) -> int
    decreases s.len() - i when 0 <= i <= s.len()
{
    if i < s.len() && is_word_char(s[i]) {
        word_end(s, i + 1)
    } else {
        i
    }
}

pub open spec fn numchars_end(s: Seq<char>, i: int) -> int
    decreases s.len() - i when 0 <= i <= s.len()
{
    if i < s.len() && is_num_char(s[i]) {
        numchars_end(s, i + 1)
    } else {
        i
    }
}

pub proof fn lemma_spaces_end(s: Seq<char>, i: int)
    requires
        0 <= i <= s.len(),
    ensures
        i <= spaces_end(s, i) <= s.len(),
        forall|k: int| i <= k < spaces_end(s, i) ==> is_space_char(s[k]),
        spaces_end(s, i) < s.len() ==> !is_space_char(s[spaces_end(s, i)]),
    decreases s.len() - i,
{
    if i < s.len() && is_space_char(s[i]) {
        lemma_spaces_end(s, i + 1);
    }
}

pub proof fn lemma_digits_end(s: Seq<char>, i: int)
    requires
        0 <= i <= s.len(),
    ensures
        i <= digits_end(s, i) <= s.len(),
        forall|k: int| i <= k < digits_end(s, i) ==> is_digit_char(s[k]),
        digits_end(s, i) < s.len() ==> !is_digit_char(s[digits_end(s, i)]),
    decreases s.len() - i,
{
    if i < s.len() && is_digit_char(s[i]) {
        lemma_digits_end(s, i + 1);
    }
}

pub proof fn lemma_nonspace_end(s: Seq<char>, i: int)
    requires
        0 <= i <= s.len(),
    ensures
        i <= nonspace_end(s, i) <= s.len(),
        forall|k: int| i <= k < nonspace_end(s, i) ==> !is_space_char(s[k]),
        nonspace_end(s, i) < s.len() ==> is_space_char(s[nonspace_end(s, i)]),
    decreases s.len() - i,
{
    if i < s.len() && !is_space_char(s[i]) {
        lemma_nonspace_end(s, i + 1);
    }
}

pub fn skip_spaces(s: &str, i: usize) -> (j: usize)
    requires
        i <= s@.len(),
    ensures
        j == spaces_end(s@, i as int),
        i <= j <= s@.len(),
{
    proof {
        lemma_spaces_end(s@, i as int);
    }
    let n = s.unicode_len();
    let mut k = i;
    while k < n && space_c(s.get_char(k))
        invariant
            i <= k <= n,
            n == s@.len(),
            spaces_end(s@, i as int) == spaces_end(s@, k as int),
        decreases n - k,
    {
        k = k + 1;
    }
    k
}

pub fn skip_digits(s: &str, i: usize) -> (j: usize)
    requires
        i <= s@.len(),
    ensures
        j == digits_end(s@, i as int),
        i <= j <= s@.len(),
{
    proof {
        lemma_digits_end(s@, i as int);
    }
    let n = s.unicode_len();
    let mut k = i;
    while k < n && digit_c(s.get_char(k))
        invariant
            i <= k <= n,
            n == s@.len(),
            digits_end(s@, i as int) == digits_end(s@, k as int),
        decreases n - k,
    {
        k = k + 1;
    }
    k
}

pub fn skip_nonspace(s: &str, i: usize) -> (j: usize)
    requires
        i <= s@.len(),
    ensures
        j == nonspace_end(s@, i as int),
        i <= j <= s@.len(),
{
    proof {
        lemma_nonspace_end(s@, i as int);
    }
    let n = s.unicode_len();
    let mut k = i;
    while k < n && !space_c(s.get_char(k))
        invariant
            i <= k <= n,
            n == s@.len(),
            nonspace_end(s@, i as int) == nonspace_end(s@, k as int),
        decreases n - k,
    {
        k = k + 1;
    }
    k
}

pub fn skip_word(s: &str, i: usize) -> (j: usize)
    requires
        i <= s@.len(),
    ensures
        j == word_end(s@, i as int),
        i <= j <= s@.len(),
{
    let n = s.unicode_len();
    let mut k = i;
    while k < n && word_c(s.get_char(k))
        invariant
            i <= k <= n,
            n == s@.len(),
            word_end(s@, i as int) == word_end(s@, k as int),
        decreases n - k,
    {
        k = k + 1;
    }
    proof {
        assert(word_end(s@, k as int) == k as int);
    }
    k
}

/// The marker `p` stands, character for character, at position `i` of `s`.
pub open spec fn starts_with_at(s: Seq<char>, i: int, p: Seq<char>) -> bool {
    0 <= i && i + p.len() <= s.len() && forall|k: int| 0 <= k < p.len() ==> s[i + k] == p[k]
}

/// Whether `p` (written in lower case) stands at position `i` of `s`,
/// ignoring the case of ASCII letters.
pub open spec fn starts_with_at_ci(s: Seq<char>, i: int, p: Seq<char>) -> bool {
    0 <= i && i + p.len() <= s.len() && forall|k: int| 0 <= k < p.len() ==> char_eq_ci(s[i + k], p[k])
}

/// Two characters are equal up to the case of an ASCII letter.
pub open spec fn char_eq_ci(a: char, b: char) -> bool {
    a == b
        || ('A' <= a && a <= 'Z' && (a as u32) + 32 == (b as u32))
        || ('A' <= b && b <= 'Z' && (b as u32) + 32 == (a as u32))
}

pub fn has_at(s: &str, i: usize, p: &str) -> (r: bool)
    ensures
        r == starts_with_at(s@, i as int, p@),
{
    let n = s.unicode_len();
    let m = p.unicode_len();
    if i > n || m > n - i {
        return false;
    }
    let mut k: usize = 0;
    while k < m
        invariant
            0 <= k <= m,
            m == p@.len(),
            n == s@.len(),
            i + m <= n,
            forall|t: int| 0 <= t < k ==> s@[i + t] == p@[t],
        decreases m - k,
    {
        if s.get_char(i + k) != p.get_char(k) {
            return false;
        }
        k = k + 1;
    }
    true
}

pub fn char_ci(a: char, b: char) -> (r: bool)
    ensures
        r == char_eq_ci(a, b),
{
    let ua = a as u32;
    let ub = b as u32;
    a == b || (65 <= ua && ua <= 90 && ua + 32 == ub) || (65 <= ub && ub <= 90 && ub + 32 == ua)
}

pub fn has_at_ci(s: &str, i: usize, p: &str) -> (r: bool)
    ensures
        r == starts_with_at_ci(s@, i as int, p@),
{
    let n = s.unicode_len();
    let m = p.unicode_len();
    if i > n || m > n - i {
        return false;
    }
    let mut k: usize = 0;
    while k < m
        invariant
            0 <= k <= m,
            m == p@.len(),
            n == s@.len(),
            i + m <= n,
            forall|t: int| 0 <= t < k ==> char_eq_ci(s@[i + t], p@[t]),
        decreases m - k,
    {
        if !char_ci(s.get_char(i + k), p.get_char(k)) {
            return false;
        }
        k = k + 1;
    }
    true
}

/// One past the last non-whitespace character of `s[..i]` (or 0).
pub open spec fn spaces_start(s: Seq<char>, i: int) -> int
    decreases i when 0 <= i <= s.len()
{
    if i > 0 && is_space_char(s[i - 1]) {
        spaces_start(s, i - 1)
    } else {
        i
    }
}

pub proof fn lemma_spaces_start(s: Seq<char>, i: int)
    requires
        0 <= i <= s.len(),
    ensures
        0 <= spaces_start(s, i) <= i,
        forall|k: int| spaces_start(s, i) <= k < i ==> is_space_char(s[k]),
        spaces_start(s, i) > 0 ==> !is_space_char(s[spaces_start(s, i) - 1]),
    decreases i,
{
    if i > 0 && is_space_char(s[i - 1]) {
        lemma_spaces_start(s, i - 1);
    }
}

pub fn back_over_spaces(s: &str, i: usize) -> (j: usize)
    requires
        i <= s@.len(),
    ensures
        j == spaces_start(s@, i as int),
        j <= i,
{
    proof {
        lemma_spaces_start(s@, i as int);
    }
    let mut k = i;
    while k > 0 && space_c(s.get_char(k - 1))
        invariant
            0 <= k <= i,
            i <= s@.len(),
            spaces_start(s@, i as int) == spaces_start(s@, k as int),
        decreases k,
    {
        k = k - 1;
    }
    k
}

/// `s` with leading and trailing whitespace removed.
pub open spec fn trim_seq(s: Seq<char>) -> Seq<char> {
    let a = spaces_end(s, 0);
    let b = spaces_start(s, s.len() as int);
    if a <= b {
        s.subrange(a, b)
    } else {
        Seq::empty()
    }
}

/// Trimming leaves a sequence that trimming does not change further.
pub proof fn lemma_trim_idempotent(s: Seq<char>)
    ensures
        trim_seq(trim_seq(s)) == trim_seq(s),
{
    lemma_spaces_end(s, 0);
    lemma_spaces_start(s, s.len() as int);
    let a = spaces_end(s, 0);
    let b = spaces_start(s, s.len() as int);
    if a <= b {
        let t = s.subrange(a, b);
        if t.len() > 0 {
            assert(!is_space_char(t[0]));
            assert(!is_space_char(t[t.len() - 1]));
            assert(spaces_end(t, 0) == 0);
            assert(spaces_start(t, t.len() as int) == t.len() as int);
            assert(trim_seq(t) =~= t);
        } else {
            assert(spaces_end(t, 0) == 0);
            assert(spaces_start(t, 0) == 0);
            assert(trim_seq(t) =~= t);
        }
    } else {
        let t = Seq::<char>::empty();
        assert(spaces_end(t, 0) == 0);
        assert(spaces_start(t, 0) == 0);
        assert(trim_seq(t) =~= t);
    }
}

pub fn trim_str<'a>(s: &'a str) -> (r: &'a str)
    ensures
        r@ == trim_seq(s@),
{
    let n = s.unicode_len();
    let a = skip_spaces(s, 0);
    let b = back_over_spaces(s, n);
    if a <= b {
        s.substring_char(a, b)
    } else {
        let r = "";
        proof {
            reveal_strlit("");
            assert(r@ =~= trim_seq(s@));
        }
        r
    }
}

pub fn skip_numchars(s: &str, i: usize) -> (j: usize)
    requires
        i <= s@.len(),
    ensures
        j == numchars_end(s@, i as int),
        i <= j <= s@.len(),
{
    let n = s.unicode_len();
    let mut k = i;
    while k < n && num_c(s.get_char(k))
        invariant
            i <= k <= n,
            n == s@.len(),
            numchars_end(s@, i as int) == numchars_end(s@, k as int),
        decreases n - k,
    {
        k = k + 1;
    }
    proof {
        assert(numchars_end(s@, k as int) == k as int);
    }
    k
}

/// First index at or after `i` whose character is not `'0'` (or `s.len()`).
pub open spec fn zeros_end(s: Seq<char>, i: int) -> int
    decreases s.len() - i when 0 <= i <= s.len()
{
    if i < s.len() && s[i] == '0' {
        zeros_end(s, i + 1)
    } else {
        i
    }
}

/// One past the last character of `s[..i]` that is not `'0'` (or 0).
pub open spec fn zeros_start(s: Seq<char>, i: int) -> int
    decreases i when 0 <= i <= s.len()
{
    if i > 0 && s[i - 1] == '0' {
        zeros_start(s, i - 1)
    } else {
        i
    }
}

pub fn skip_zeros(s: &str, i: usize) -> (j: usize)
    requires
        i <= s@.len(),
    ensures
        j == zeros_end(s@, i as int),
        i <= j <= s@.len(),
{
    let n = s.unicode_len();
    let mut k = i;
    while k < n && s.get_char(k) == '0'
        invariant
            i <= k <= n,
            n == s@.len(),
            zeros_end(s@, i as int) == zeros_end(s@, k as int),
        decreases n - k,
    {
        k = k + 1;
    }
    proof {
        assert(zeros_end(s@, k as int) == k as int);
    }
    k
}

pub fn back_over_zeros(s: &str, i: usize) -> (j: usize)
    requires
        i <= s@.len(),
    ensures
        j == zeros_start(s@, i as int),
        j <= i,
{
    let mut k = i;
    while k > 0 && s.get_char(k - 1) == '0'
        invariant
            0 <= k <= i,
            i <= s@.len(),
            zeros_start(s@, i as int) == zeros_start(s@, k as int),
        decreases k,
    {
        k = k - 1;
    }
    proof {
        assert(zeros_start(s@, k as int) == k as int);
    }
    k
}

/// The number that a sequence of decimal digits denotes.
pub open spec fn digits_val(s: Seq<char>) -> int
    decreases s.len(),
{
    if s.len() == 0 {
        0
    } else {
        digits_val(s.drop_last()) * 10 + (s.last() as int - 48)
    }
}

pub proof fn lemma_digits_val_nonneg(s: Seq<char>)
    requires
        forall|k: int| 0 <= k < s.len() ==> is_digit_char(s[k]),
    ensures
        digits_val(s) >= 0,
    decreases s.len(),
{
    if s.len() > 0 {
        lemma_digits_val_nonneg(s.drop_last());
    }
}

/// A digit sequence denotes at least as much as any of its prefixes.
pub proof fn lemma_digits_val_prefix(s: Seq<char>, k: int)
    requires
        forall|t: int| 0 <= t < s.len() ==> is_digit_char(s[t]),
        0 <= k <= s.len(),
    ensures
        digits_val(s.subrange(0, k)) <= digits_val(s),
    decreases s.len(),
{
    if k == s.len() {
        assert(s.subrange(0, k) =~= s);
    } else {
        let d = s.drop_last();
        assert(forall|t: int| 0 <= t < d.len() ==> is_digit_char(d[t]));
        lemma_digits_val_prefix(d, k);
        assert(s.subrange(0, k) =~= d.subrange(0, k));
        lemma_digits_val_nonneg(d);
    }
}

/// The value of a run of digits, or 0 when the run denotes more than
/// a machine word holds.
pub open spec fn parse_u64_spec(s: Seq<char>) -> u64 {
    if digits_val(s) <= u64::MAX as int {
        digits_val(s) as u64
    } else {
        0
    }
}

/// Reads the digits `s[i..j]` as a number; a value too large for the
/// field is recorded as 0 rather than stopping the parse.
pub fn parse_u64_range(s: &str, i: usize, j: usize) -> (r: u64)
    requires
        i <= j <= s@.len(),
        forall|k: int| i as int <= k < j as int ==> is_digit_char(s@[k]),
    ensures
        r == parse_u64_spec(s@.subrange(i as int, j as int)),
{
    let ghost whole = s@.subrange(i as int, j as int);
    proof {
        lemma_digits_val_nonneg(whole);
    }
    let mut acc: u64 = 0;
    let mut k = i;
    while k < j
        invariant
            i <= k <= j <= s@.len(),
            whole == s@.subrange(i as int, j as int),
            forall|t: int| i as int <= t < j as int ==> is_digit_char(s@[t]),
            acc as int == digits_val(s@.subrange(i as int, k as int)),
        decreases j - k,
    {
        let c = s.get_char(k);
        let d: u64 = (c as u32 - 48) as u64;
        proof {
            assert(s@.subrange(i as int, k as int + 1).drop_last() =~= s@.subrange(
                i as int,
                k as int,
            ));
            assert(s@.subrange(i as int, k as int + 1).last() == s@[k as int]);
        }
        if acc > 1844674407370955161 || (acc == 1844674407370955161 && d > 5) {
            proof {
                let p = s@.subrange(i as int, k as int + 1);
                assert(digits_val(p) > u64::MAX as int);
                assert(whole.subrange(0, k as int + 1 - i as int) =~= p);
                lemma_digits_val_prefix(whole, k as int + 1 - i as int);
            }
            return 0;
        }
        acc = acc * 10 + d;
        k = k + 1;
    }
    acc
}

/// Maps 0 through 9 to the digit character.
pub open spec fn digit_char(n: int) -> char {
    if n == 0 {
        '0'
    } else if n == 1 {
        '1'
    } else if n == 2 {
        '2'
    } else if n == 3 {
        '3'
    } else if n == 4 {
        '4'
    } else if n == 5 {
        '5'
    } else if n == 6 {
        '6'
    } else if n == 7 {
        '7'
    } else if n == 8 {
        '8'
    } else {
        '9'
    }
}

/// The decimal writing of a number, most significant digit first.
pub open spec fn dec_digits(n: int) -> Seq<char>
    decreases n when n >= 0
{
    if n < 10 {
        seq![digit_char(n)]
    } else {
        dec_digits(n / 10).push(digit_char(n % 10))
    }
}

pub fn digit_str(d: u64) -> (r: &'static str)
    requires
        d <= 9,
    ensures
        r@ == seq![digit_char(d as int)],
{
    proof {
        reveal_strlit("0");
        reveal_strlit("1");
        reveal_strlit("2");
        reveal_strlit("3");
        reveal_strlit("4");
        reveal_strlit("5");
        reveal_strlit("6");
        reveal_strlit("7");
        reveal_strlit("8");
        reveal_strlit("9");
    }
    let r = if d == 0 {
        "0"
    } else if d == 1 {
        "1"
    } else if d == 2 {
        "2"
    } else if d == 3 {
        "3"
    } else if d == 4 {
        "4"
    } else if d == 5 {
        "5"
    } else if d == 6 {
        "6"
    } else if d == 7 {
        "7"
    } else if d == 8 {
        "8"
    } else {
        "9"
    };
    proof {
        assert(r@ =~= seq![digit_char(d as int)]);
    }
    r
}

/// Writes a number in decimal.
pub fn u64_to_string(n: u64) -> (r: String)
    ensures
        r@ == dec_digits(n as int),
    decreases n,
{
    if n < 10 {
        String::from_str(digit_str(n))
    } else {
        let mut s = u64_to_string(n / 10);
        s.append(digit_str(n % 10));
        proof {
            assert(dec_digits(n as int / 10) + seq![digit_char(n as int % 10)] =~= dec_digits(
                n as int / 10,
            ).push(digit_char(n as int % 10)));
        }
        s
    }
}

/// A decimal-seconds field in its plain form: digits, at most one dot,
/// at least one digit in all.
pub open spec fn is_plain_decimal(s: Seq<char>) -> bool {
    let d = digits_end(s, 0);
    if d == s.len() {
        d > 0
    } else {
        s[d] == '.' && digits_end(s, d + 1) == s.len() && s.len() > 1
    }
}

/// The canonical writing of a decimal-seconds field: leading zeros of the
/// whole part and trailing zeros of the fraction dropped, a bare or empty
/// part written as 0, and a field that is not a plain decimal recorded
/// as 0.
pub open spec fn normalize_decimal(s: Seq<char>) -> Seq<char> {
    if !is_plain_decimal(s) {
        seq!['0']
    } else {
        let d = digits_end(s, 0);
        let ip = s.subrange(0, d);
        let fp = if d < s.len() {
            s.subrange(d + 1, s.len() as int)
        } else {
            Seq::empty()
        };
        let i2 = if zeros_end(ip, 0) == ip.len() {
            seq!['0']
        } else {
            ip.subrange(zeros_end(ip, 0), ip.len() as int)
        };
        let f2 = fp.subrange(0, zeros_start(fp, fp.len() as int));
        if f2.len() == 0 {
            i2
        } else {
            i2 + seq!['.'] + f2
        }
    }
}

pub fn normalize_decimal_str(s: &str) -> (r: String)
    ensures
        r@ == normalize_decimal(s@),
{
    let n = s.unicode_len();
    let d = skip_digits(s, 0);
    let plain: bool = if d == n {
        d > 0
    } else {
        s.get_char(d) == '.' && skip_digits(s, d + 1) == n && n > 1
    };
    if !plain {
        let r = String::from_str(digit_str(0));
        proof {
            assert(r@ =~= seq![digit_char(0)]);
        }
        return r;
    }
    let ip = s.substring_char(0, d);
    let z = skip_zeros(ip, 0);
    proof {
        assert(zeros_end(s@.subrange(0, d as int), 0) == z as int);
    }
    let mut out = if z == d {
        String::from_str(digit_str(0))
    } else {
        String::from_str(ip.substring_char(z, d))
    };
    let ghost gi2 = if zeros_end(s@.subrange(0, d as int), 0) == d as int {
        seq!['0']
    } else {
        s@.subrange(0, d as int).subrange(zeros_end(s@.subrange(0, d as int), 0), d as int)
    };
    proof {
        assert(out@ =~= gi2);
    }
    if d < n {
        let fp = s.substring_char(d + 1, n);
        let fz = back_over_zeros(fp, fp.unicode_len());
        if fz > 0 {
            proof {
                reveal_strlit(".");
            }
            out.append(".");
            out.append(fp.substring_char(0, fz));
            proof {
                let ghost gfp = s@.subrange(d as int + 1, s@.len() as int);
                assert(out@ =~= gi2 + seq!['.'] + gfp.subrange(0, zeros_start(gfp, gfp.len() as int)));
            }
        }
    }
    proof {
        assert(out@ =~= normalize_decimal(s@));
    }
    out
}

} // verus!
