//! Normalization of the log's compact timestamp format.
//!
//! A time header carries `yymmdd H:M:S`: a six-digit date with a two-digit
//! year, then hours, minutes and seconds, possibly unpadded, separated by
//! colons.  `format_log_time` turns such a value into `yyyy-mm-dd HH:MM:SS`,
//! zero-padded, after validating the calendar date and the time of day; a
//! two-digit year below 70 falls in the 2000s, the rest in the 1900s.  A
//! value not of this shape is refused, and the caller falls back to the raw
//! text.

use vstd::prelude::*;

use crate::text::{
    digit_char, digit_str, digits_end, digits_val, nonspace_end, parse_u64_range, skip_digits,
    skip_nonspace, skip_spaces, spaces_end,
};

verus! {

pub open spec fn leap_year(y: int) -> bool {
    y % 4 == 0 && (y % 100 != 0 || y % 400 == 0)
}

pub open spec fn days_in_month(y: int, m: int) -> int {
    if m == 2 {
        if leap_year(y) {
            29
        } else {
            28
        }
    } else if m == 4 || m == 6 || m == 9 || m == 11 {
        30
    } else {
        31
    }
}

/// The full year that a two-digit year denotes: 00 through 69 fall in
/// the 2000s, 70 through 99 in the 1900s.
pub open spec fn pivot_year(yy: int) -> int {
    if yy < 70 {
        2000 + yy
    } else {
        1900 + yy
    }
}

/// A number below 100 written with two digits.
pub open spec fn pad2(n: int) -> Seq<char> {
    seq![digit_char(n / 10), digit_char(n % 10)]
}

/// The normalized writing of a valid timestamp.
pub open spec fn formatted_time(yy: int, mm: int, dd: int, hh: int, mi: int, ss: int) -> Seq<
    char,
> {
    let century = if yy < 70 {
        seq!['2', '0']
    } else {
        seq!['1', '9']
    };
    century + pad2(yy) + seq!['-'] + pad2(mm) + seq!['-'] + pad2(dd) + seq![' '] + pad2(hh)
        + seq![':'] + pad2(mi) + seq![':'] + pad2(ss)
}

/// Parses and normalizes a raw time-header value: exactly two
/// whitespace-separated tokens, a six-digit `yymmdd` date and an
/// `H:M:S` time with one or two digits per field, all fields within
/// their calendar ranges.
pub open spec fn format_log_time_spec(s: Seq<char>) -> Option<Seq<char>> {
    let a1 = spaces_end(s, 0);
    let b1 = nonspace_end(s, a1);
    let a2 = spaces_end(s, b1);
    let b2 = nonspace_end(s, a2);
    if b1 == a1 || b2 == a2 || spaces_end(s, b2) != s.len() {
        None
    } else if !(b1 - a1 == 6 && digits_end(s, a1) == b1) {
        None
    } else {
        let h_end = digits_end(s, a2);
        if !(a2 < h_end <= a2 + 2 && h_end < b2 && s[h_end] == ':') {
            None
        } else {
            let m_end = digits_end(s, h_end + 1);
            if !(h_end + 1 < m_end <= h_end + 3 && m_end < b2 && s[m_end] == ':') {
                None
            } else {
                let s_end = digits_end(s, m_end + 1);
                if !(m_end + 1 < s_end <= m_end + 3 && s_end == b2) {
                    None
                } else {
                    let yy = digits_val(s.subrange(a1, a1 + 2));
                    let mm = digits_val(s.subrange(a1 + 2, a1 + 4));
                    let dd = digits_val(s.subrange(a1 + 4, a1 + 6));
                    let hh = digits_val(s.subrange(a2, h_end));
                    let mi = digits_val(s.subrange(h_end + 1, m_end));
                    let ss = digits_val(s.subrange(m_end + 1, s_end));
                    if 1 <= mm <= 12 && 1 <= dd <= days_in_month(pivot_year(yy), mm) && hh <= 23
                        && mi <= 59 && ss <= 59 {
                        Some(formatted_time(yy, mm, dd, hh, mi, ss))
                    } else {
                        None
                    }
                }
            }
        }
    }
}

fn pad2_exec(n: u64) -> (r: String)
    requires
        n <= 99,
    ensures
        r@ == pad2(n as int),
{
    let mut r = String::from_str(digit_str(n / 10));
    r.append(digit_str(n % 10));
    proof {
        assert(r@ =~= pad2(n as int));
    }
    r
}

fn days_in_month_exec(y: u64, m: u64) -> (r: u64)
    requires
        y <= 2100,
    ensures
        r as int == days_in_month(y as int, m as int),
{
    if m == 2 {
        if y % 4 == 0 && (y % 100 != 0 || y % 400 == 0) {
            29
        } else {
            28
        }
    } else if m == 4 || m == 6 || m == 9 || m == 11 {
        30
    } else {
        31
    }
}

/// Normalizes the log's `yymmdd H:M:S` timestamp into
/// `yyyy-mm-dd HH:MM:SS`, refusing a value not of that shape.
#[verifier::rlimit(60)]
pub fn format_log_time(s: &str) -> (r: Option<String>)
    ensures
        match r {
            Some(t) => format_log_time_spec(s@) == Some(t@),
            None => format_log_time_spec(s@) is None,
        },
{
    let n = s.unicode_len();
    let a1 = skip_spaces(s, 0);
    let b1 = skip_nonspace(s, a1);
    let a2 = skip_spaces(s, b1);
    let b2 = skip_nonspace(s, a2);
    if b1 == a1 || b2 == a2 || skip_spaces(s, b2) != n {
        return None;
    }
    if !(b1 - a1 == 6 && skip_digits(s, a1) == b1) {
        return None;
    }
    let h_end = skip_digits(s, a2);
    if !(a2 < h_end && h_end - a2 <= 2 && h_end < b2 && s.get_char(h_end) == ':') {
        return None;
    }
    let m_end = skip_digits(s, h_end + 1);
    if !(h_end + 1 < m_end && m_end - h_end <= 3 && m_end < b2 && s.get_char(m_end) == ':') {
        return None;
    }
    let s_end = skip_digits(s, m_end + 1);
    if !(m_end + 1 < s_end && s_end - m_end <= 3 && s_end == b2) {
        return None;
    }
    proof {
        crate::text::lemma_digits_end(s@, a1 as int);
        crate::text::lemma_digits_end(s@, a2 as int);
        crate::text::lemma_digits_end(s@, h_end as int + 1);
        crate::text::lemma_digits_end(s@, m_end as int + 1);
        assert(forall|k: int| a1 as int <= k < a1 as int + 6 ==> crate::text::is_digit_char(
            s@[k],
        ));
    }
    let yy = parse_u64_range(s, a1, a1 + 2);
    let mm = parse_u64_range(s, a1 + 2, a1 + 4);
    let dd = parse_u64_range(s, a1 + 4, a1 + 6);
    let hh = parse_u64_range(s, a2, h_end);
    let mi = parse_u64_range(s, h_end + 1, m_end);
    let ss = parse_u64_range(s, m_end + 1, s_end);
    proof {
        lemma_two_digit_val(s@, a1 as int);
        lemma_two_digit_val(s@, a1 as int + 2);
        lemma_two_digit_val(s@, a1 as int + 4);
        lemma_small_digit_run(s@, a2 as int, h_end as int);
        lemma_small_digit_run(s@, h_end as int + 1, m_end as int);
        lemma_small_digit_run(s@, m_end as int + 1, s_end as int);
    }
    let year = if yy < 70 {
        2000 + yy
    } else {
        1900 + yy
    };
    if !(1 <= mm && mm <= 12 && 1 <= dd && dd <= days_in_month_exec(year, mm) && hh <= 23 && mi
        <= 59 && ss <= 59) {
        return None;
    }
    let mut out = if yy < 70 {
        String::from_str("20")
    } else {
        String::from_str("19")
    };
    proof {
        reveal_strlit("20");
        reveal_strlit("19");
        reveal_strlit("-");
        reveal_strlit(" ");
        reveal_strlit(":");
    }
    out.append(pad2_exec(yy).as_str());
    out.append("-");
    out.append(pad2_exec(mm).as_str());
    out.append("-");
    out.append(pad2_exec(dd).as_str());
    out.append(" ");
    out.append(pad2_exec(hh).as_str());
    out.append(":");
    out.append(pad2_exec(mi).as_str());
    out.append(":");
    out.append(pad2_exec(ss).as_str());
    proof {
        assert(out@ =~= formatted_time(
            yy as int,
            mm as int,
            dd as int,
            hh as int,
            mi as int,
            ss as int,
        ));
    }
    Some(out)
}

/// A two-digit run denotes a value below 100.
proof fn lemma_two_digit_val(s: Seq<char>, i: int)
    requires
        0 <= i,
        i + 2 <= s.len(),
        forall|k: int| i <= k < i + 2 ==> crate::text::is_digit_char(s[k]),
    ensures
        0 <= digits_val(s.subrange(i, i + 2)) <= 99,
{
    let t = s.subrange(i, i + 2);
    assert(t.drop_last() =~= s.subrange(i, i + 1));
    assert(t.drop_last().drop_last() =~= Seq::<char>::empty());
    assert(digits_val(t.drop_last()) == digits_val(t.drop_last().drop_last()) * 10 + (t.drop_last().last() as int
        - 48));
    assert(t.drop_last().last() == s[i]);
    assert(t.last() == s[i + 1]);
    assert(48 <= s[i] as int <= 57);
    assert(48 <= s[i + 1] as int <= 57);
}

/// A run of one or two digits denotes a value below 100.
proof fn lemma_small_digit_run(s: Seq<char>, i: int, j: int)
    requires
        0 <= i < j <= s.len(),
        j <= i + 2,
        forall|k: int| i <= k < j ==> crate::text::is_digit_char(s[k]),
    ensures
        0 <= digits_val(s.subrange(i, j)) <= 99,
{
    if j == i + 2 {
        lemma_two_digit_val(s, i);
    } else {
        let t = s.subrange(i, j);
        assert(t.drop_last() =~= Seq::<char>::empty());
        assert(digits_val(t) == digits_val(t.drop_last()) * 10 + (t.last() as int - 48));
        assert(t.last() == s[i]);
        assert(48 <= s[i] as int <= 57);
    }
}

} // verus!
