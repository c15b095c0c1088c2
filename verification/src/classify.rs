//! The line classifier.
//!
//! Each line of a slow-query log plays exactly one structural role, decided
//! by matching the line against a fixed set of shapes in a fixed priority
//! order: noise lines to skip, the time header, the connection header, six
//! metadata header shapes, query body text, and lines to ignore.  The spec
//! functions here state each shape as a scan over the character sequence;
//! `classify_line` is the executable classifier, proved to agree with them.

use vstd::prelude::*;

use crate::text::{
    back_over_spaces, digits_end, has_at, is_space_char, nonspace_end, normalize_decimal,
    normalize_decimal_str, numchars_end, parse_u64_range, parse_u64_spec, skip_digits,
    skip_nonspace, skip_numchars, skip_spaces, space_c, spaces_end, spaces_start, starts_with_at,
    trim_seq, trim_str,
};

verus! {

/// The structural role of one line, with the data it carries, at the
/// specification level.
pub enum LineClass {
    /// A known noise line; consumed silently.
    Skip,
    /// `# Time:` header; carries the trimmed raw timestamp text.
    Time(Seq<char>),
    /// `# User@Host:` connection header; carries the cleaned user and host.
    UserHost(Seq<char>, Seq<char>),
    /// `# Thread_id:` header; carries thread id, trimmed schema, qc-hit flag.
    ThreadInfo(Seq<char>, Seq<char>, Seq<char>),
    /// `# Query_time:` header; carries the normalized query and lock times
    /// and the rows-sent and rows-examined counters.
    QueryStats(Seq<char>, Seq<char>, u64, u64),
    /// `# Rows_affected:` header; carries rows affected and bytes sent.
    RowStats(u64, u64),
    /// `# Tmp_tables:` header; carries the three temporary-table counters.
    TmpTables(u64, u64, u64),
    /// `# Full_scan:` header; carries the four scan flags.
    ScanFlags(Seq<char>, Seq<char>, Seq<char>, Seq<char>),
    /// `# Filesort:` header; carries the two sort flags, the merge-pass
    /// counter and the priority-queue flag.
    SortFlags(Seq<char>, Seq<char>, u64, Seq<char>),
    /// Query body text: the whole line, to be appended to the query buffer.
    Body(Seq<char>),
    /// A blank line or an unrecognized comment line; ignored.
    Ignored,
}

/// The structural role of one line, with the data it carries.
pub enum LineKind {
    Skip,
    Time(String),
    UserHost(String, String),
    ThreadInfo(String, String, String),
    QueryStats(String, String, u64, u64),
    RowStats(u64, u64),
    TmpTables(u64, u64, u64),
    ScanFlags(String, String, String, String),
    SortFlags(String, String, u64, String),
    Body(String),
    Ignored,
}

impl View for LineKind {
    type V = LineClass;

    open spec fn view(&self) -> LineClass {
        match self {
            LineKind::Skip => LineClass::Skip,
            LineKind::Time(t) => LineClass::Time(t@),
            LineKind::UserHost(u, h) => LineClass::UserHost(u@, h@),
            LineKind::ThreadInfo(a, b, c) => LineClass::ThreadInfo(a@, b@, c@),
            LineKind::QueryStats(a, b, c, d) => LineClass::QueryStats(a@, b@, *c, *d),
            LineKind::RowStats(a, b) => LineClass::RowStats(*a, *b),
            LineKind::TmpTables(a, b, c) => LineClass::TmpTables(*a, *b, *c),
            LineKind::ScanFlags(a, b, c, d) => LineClass::ScanFlags(a@, b@, c@, d@),
            LineKind::SortFlags(a, b, c, d) => LineClass::SortFlags(a@, b@, *c, d@),
            LineKind::Body(l) => LineClass::Body(l@),
            LineKind::Ignored => LineClass::Ignored,
        }
    }
}

/// At least one whitespace character at `i`, then the marker `p` right
/// after the whitespace run; the index after the marker, or -1.
pub open spec fn ws_lit_end(s: Seq<char>, i: int, p: Seq<char>) -> int {
    let w = spaces_end(s, i);
    if w > i && starts_with_at(s, w, p) {
        w + p.len()
    } else {
        -1
    }
}

/// A server-startup banner: the line ends with `started with:` followed
/// only by whitespace.
pub open spec fn is_skip_banner(s: Seq<char>) -> bool {
    let e = spaces_start(s, s.len() as int);
    let p = "started with:"@;
    e >= p.len() && starts_with_at(s, e - p.len(), p)
}

/// A column-header banner: the line begins with `Tcp port:` or with
/// `Time`, `Id` and `Command` separated by whitespace.
pub open spec fn is_skip_columns(s: Seq<char>) -> bool {
    starts_with_at(s, 0, "Tcp port:"@) || (starts_with_at(s, 0, "Time"@) && {
        let a = ws_lit_end(s, "Time"@.len() as int, "Id"@);
        a >= 0 && ws_lit_end(s, a, "Command"@) >= 0
    })
}

pub open spec fn is_skip_line(s: Seq<char>) -> bool {
    is_skip_banner(s) || is_skip_columns(s)
}

/// The `# Time:` header; carries the rest of the line, trimmed.
pub open spec fn match_time(s: Seq<char>) -> Option<Seq<char>> {
    let p = "# Time: "@;
    if starts_with_at(s, 0, p) {
        Some(trim_seq(s.subrange(p.len() as int, s.len() as int)))
    } else {
        None
    }
}

/// First index at or after `j` where a space followed by `@` stands, or -1.
pub open spec fn find_at_marker(s: Seq<char>, j: int) -> int
    decreases s.len() - j when 0 <= j <= s.len()
{
    if j + 2 > s.len() {
        -1
    } else if s[j] == ' ' && s[j + 1] == '@' {
        j
    } else {
        find_at_marker(s, j + 1)
    }
}

/// First index of `[` in `s`, or `s.len()`.
pub open spec fn bracket_end(s: Seq<char>, i: int) -> int
    decreases s.len() - i when 0 <= i <= s.len()
{
    if i < s.len() && s[i] != '[' {
        bracket_end(s, i + 1)
    } else {
        i
    }
}

/// The user field: the trimmed capture, keeping only what stands before
/// the first `[` (an effective-user annotation is stripped).
pub open spec fn user_of(cap: Seq<char>) -> Seq<char> {
    let t = trim_seq(cap);
    t.subrange(0, bracket_end(t, 0))
}

pub open spec fn is_host_wrap_char(c: char) -> bool {
    c == '[' || c == ']' || c == ' '
}

/// First index at or after `i` whose character is not a bracket or space.
pub open spec fn wrap_end(s: Seq<char>, i: int) -> int
    decreases s.len() - i when 0 <= i <= s.len()
{
    if i < s.len() && is_host_wrap_char(s[i]) {
        wrap_end(s, i + 1)
    } else {
        i
    }
}

/// One past the last character of `s[..i]` that is not a bracket or space.
pub open spec fn wrap_start(s: Seq<char>, i: int) -> int
    decreases i when 0 <= i <= s.len()
{
    if i > 0 && is_host_wrap_char(s[i - 1]) {
        wrap_start(s, i - 1)
    } else {
        i
    }
}

/// The host field: the trimmed capture with wrapping brackets and spaces
/// removed from both ends.
pub open spec fn host_of(cap: Seq<char>) -> Seq<char> {
    let t = trim_seq(cap);
    let a = wrap_end(t, 0);
    let b = wrap_start(t, t.len() as int);
    if a <= b {
        t.subrange(a, b)
    } else {
        Seq::empty()
    }
}

/// The `# User@Host:` connection header: everything up to the first
/// ` @` is the user capture; what follows the whitespace after `@` is
/// the host capture.
pub open spec fn match_user_host(s: Seq<char>) -> Option<(Seq<char>, Seq<char>)> {
    let p = "# User@Host: "@;
    if !starts_with_at(s, 0, p) {
        None
    } else {
        let j = find_at_marker(s, p.len() as int);
        if j < 0 {
            None
        } else {
            let r = spaces_end(s, j + 2);
            Some((user_of(s.subrange(p.len() as int, j)), host_of(s.subrange(r, s.len() as int))))
        }
    }
}

/// Whether the tail of the schema capture ends here: whitespace, then the
/// `QC_hit: ` marker, then at least one non-space character.
pub open spec fn qc_at(s: Seq<char>, j: int) -> bool {
    let q = ws_lit_end(s, j, "QC_hit: "@);
    q >= 0 && q < s.len() && !is_space_char(s[q])
}

/// First index at or after `j` where the qc-hit tail begins, or -1.
pub open spec fn find_qc(s: Seq<char>, j: int) -> int
    decreases s.len() - j when 0 <= j <= s.len()
{
    if j >= s.len() {
        -1
    } else if qc_at(s, j) {
        j
    } else {
        find_qc(s, j + 1)
    }
}

/// A found qc-hit tail lies in range and satisfies its test.
pub proof fn lemma_find_qc(s: Seq<char>, j: int)
    requires
        0 <= j <= s.len(),
    ensures
        find_qc(s, j) >= 0 ==> j <= find_qc(s, j) < s.len() && qc_at(s, find_qc(s, j)),
    decreases s.len() - j,
{
    if j < s.len() && !qc_at(s, j) {
        lemma_find_qc(s, j + 1);
    }
}

/// The `# Thread_id:` header: a run of digits, then `Schema:` with a
/// capture running to the earliest qc-hit tail, then `QC_hit:` with a
/// run of non-space characters.
pub open spec fn match_thread_info(s: Seq<char>) -> Option<(Seq<char>, Seq<char>, Seq<char>)> {
    let p = "# Thread_id: "@;
    if !starts_with_at(s, 0, p) {
        None
    } else {
        let d = digits_end(s, p.len() as int);
        if d == p.len() {
            None
        } else {
            let l = ws_lit_end(s, d, "Schema: "@);
            if l < 0 {
                None
            } else {
                let f = find_qc(s, l);
                if f < 0 {
                    None
                } else {
                    let q = ws_lit_end(s, f, "QC_hit: "@);
                    Some(
                        (
                            s.subrange(p.len() as int, d),
                            trim_seq(s.subrange(l, f)),
                            s.subrange(q, nonspace_end(s, q)),
                        ),
                    )
                }
            }
        }
    }
}

/// The `# Query_time:` header: two decimal-seconds fields and two
/// counters, each introduced by its marker.
pub open spec fn match_query_stats(s: Seq<char>) -> Option<(Seq<char>, Seq<char>, u64, u64)> {
    let p = "# Query_time: "@;
    if !starts_with_at(s, 0, p) {
        None
    } else {
        let a = numchars_end(s, p.len() as int);
        if a == p.len() {
            None
        } else {
            let l1 = ws_lit_end(s, a, "Lock_time: "@);
            if l1 < 0 {
                None
            } else {
                let b = numchars_end(s, l1);
                if b == l1 {
                    None
                } else {
                    let l2 = ws_lit_end(s, b, "Rows_sent: "@);
                    if l2 < 0 {
                        None
                    } else {
                        let c = digits_end(s, l2);
                        if c == l2 {
                            None
                        } else {
                            let l3 = ws_lit_end(s, c, "Rows_examined: "@);
                            if l3 < 0 {
                                None
                            } else {
                                let d = digits_end(s, l3);
                                if d == l3 {
                                    None
                                } else {
                                    Some(
                                        (
                                            normalize_decimal(s.subrange(p.len() as int, a)),
                                            normalize_decimal(s.subrange(l1, b)),
                                            parse_u64_spec(s.subrange(l2, c)),
                                            parse_u64_spec(s.subrange(l3, d)),
                                        ),
                                    )
                                }
                            }
                        }
                    }
                }
            }
        }
    }
}

/// The `# Rows_affected:` header: two counters.
pub open spec fn match_row_stats(s: Seq<char>) -> Option<(u64, u64)> {
    let p = "# Rows_affected: "@;
    if !starts_with_at(s, 0, p) {
        None
    } else {
        let a = digits_end(s, p.len() as int);
        if a == p.len() {
            None
        } else {
            let l = ws_lit_end(s, a, "Bytes_sent: "@);
            if l < 0 {
                None
            } else {
                let b = digits_end(s, l);
                if b == l {
                    None
                } else {
                    Some(
                        (
                            parse_u64_spec(s.subrange(p.len() as int, a)),
                            parse_u64_spec(s.subrange(l, b)),
                        ),
                    )
                }
            }
        }
    }
}

/// The `# Tmp_tables:` header: three counters.
pub open spec fn match_tmp_tables(s: Seq<char>) -> Option<(u64, u64, u64)> {
    let p = "# Tmp_tables: "@;
    if !starts_with_at(s, 0, p) {
        None
    } else {
        let a = digits_end(s, p.len() as int);
        if a == p.len() {
            None
        } else {
            let l1 = ws_lit_end(s, a, "Tmp_disk_tables: "@);
            if l1 < 0 {
                None
            } else {
                let b = digits_end(s, l1);
                if b == l1 {
                    None
                } else {
                    let l2 = ws_lit_end(s, b, "Tmp_table_sizes: "@);
                    if l2 < 0 {
                        None
                    } else {
                        let c = digits_end(s, l2);
                        if c == l2 {
                            None
                        } else {
                            Some(
                                (
                                    parse_u64_spec(s.subrange(p.len() as int, a)),
                                    parse_u64_spec(s.subrange(l1, b)),
                                    parse_u64_spec(s.subrange(l2, c)),
                                ),
                            )
                        }
                    }
                }
            }
        }
    }
}

/// The `# Full_scan:` header: four flag tokens.
pub open spec fn match_scan_flags(s: Seq<char>) -> Option<
    (Seq<char>, Seq<char>, Seq<char>, Seq<char>),
> {
    let p = "# Full_scan: "@;
    if !starts_with_at(s, 0, p) {
        None
    } else {
        let a = nonspace_end(s, p.len() as int);
        if a == p.len() {
            None
        } else {
            let l1 = ws_lit_end(s, a, "Full_join: "@);
            if l1 < 0 {
                None
            } else {
                let b = nonspace_end(s, l1);
                if b == l1 {
                    None
                } else {
                    let l2 = ws_lit_end(s, b, "Tmp_table: "@);
                    if l2 < 0 {
                        None
                    } else {
                        let c = nonspace_end(s, l2);
                        if c == l2 {
                            None
                        } else {
                            let l3 = ws_lit_end(s, c, "Tmp_table_on_disk: "@);
                            if l3 < 0 {
                                None
                            } else {
                                let d = nonspace_end(s, l3);
                                if d == l3 {
                                    None
                                } else {
                                    Some(
                                        (
                                            s.subrange(p.len() as int, a),
                                            s.subrange(l1, b),
                                            s.subrange(l2, c),
                                            s.subrange(l3, d),
                                        ),
                                    )
                                }
                            }
                        }
                    }
                }
            }
        }
    }
}

/// The `# Filesort:` header: two flag tokens, a counter, one flag token.
pub open spec fn match_sort_flags(s: Seq<char>) -> Option<
    (Seq<char>, Seq<char>, u64, Seq<char>),
> {
    let p = "# Filesort: "@;
    if !starts_with_at(s, 0, p) {
        None
    } else {
        let a = nonspace_end(s, p.len() as int);
        if a == p.len() {
            None
        } else {
            let l1 = ws_lit_end(s, a, "Filesort_on_disk: "@);
            if l1 < 0 {
                None
            } else {
                let b = nonspace_end(s, l1);
                if b == l1 {
                    None
                } else {
                    let l2 = ws_lit_end(s, b, "Merge_passes: "@);
                    if l2 < 0 {
                        None
                    } else {
                        let c = digits_end(s, l2);
                        if c == l2 {
                            None
                        } else {
                            let l3 = ws_lit_end(s, c, "Priority_queue: "@);
                            if l3 < 0 {
                                None
                            } else {
                                let d = nonspace_end(s, l3);
                                if d == l3 {
                                    None
                                } else {
                                    Some(
                                        (
                                            s.subrange(p.len() as int, a),
                                            s.subrange(l1, b),
                                            parse_u64_spec(s.subrange(l2, c)),
                                            s.subrange(l3, d),
                                        ),
                                    )
                                }
                            }
                        }
                    }
                }
            }
        }
    }
}

/// Query body text: a non-empty line that does not begin with the
/// comment marker.
pub open spec fn is_body(s: Seq<char>) -> bool {
    !(s.len() > 0 && s[0] == '#') && trim_seq(s).len() != 0
}

/// The role of one line, decided in the fixed priority order.
pub open spec fn classify_spec(s: Seq<char>) -> LineClass {
    if is_skip_line(s) {
        LineClass::Skip
    } else if match_time(s) is Some {
        LineClass::Time(match_time(s)->Some_0)
    } else if match_user_host(s) is Some {
        LineClass::UserHost(match_user_host(s)->Some_0.0, match_user_host(s)->Some_0.1)
    } else if match_thread_info(s) is Some {
        LineClass::ThreadInfo(
            match_thread_info(s)->Some_0.0,
            match_thread_info(s)->Some_0.1,
            match_thread_info(s)->Some_0.2,
        )
    } else if match_query_stats(s) is Some {
        LineClass::QueryStats(
            match_query_stats(s)->Some_0.0,
            match_query_stats(s)->Some_0.1,
            match_query_stats(s)->Some_0.2,
            match_query_stats(s)->Some_0.3,
        )
    } else if match_row_stats(s) is Some {
        LineClass::RowStats(match_row_stats(s)->Some_0.0, match_row_stats(s)->Some_0.1)
    } else if match_tmp_tables(s) is Some {
        LineClass::TmpTables(
            match_tmp_tables(s)->Some_0.0,
            match_tmp_tables(s)->Some_0.1,
            match_tmp_tables(s)->Some_0.2,
        )
    } else if match_scan_flags(s) is Some {
        LineClass::ScanFlags(
            match_scan_flags(s)->Some_0.0,
            match_scan_flags(s)->Some_0.1,
            match_scan_flags(s)->Some_0.2,
            match_scan_flags(s)->Some_0.3,
        )
    } else if match_sort_flags(s) is Some {
        LineClass::SortFlags(
            match_sort_flags(s)->Some_0.0,
            match_sort_flags(s)->Some_0.1,
            match_sort_flags(s)->Some_0.2,
            match_sort_flags(s)->Some_0.3,
        )
    } else if is_body(s) {
        LineClass::Body(s)
    } else {
        LineClass::Ignored
    }
}

/// Scans whitespace from `i` and tests for the marker `p` after it,
/// handing back the index one past the marker.
fn ws_lit(s: &str, i: usize, p: &str) -> (r: Option<usize>)
    requires
        i <= s@.len(),
    ensures
        match r {
            Some(j) => j == ws_lit_end(s@, i as int, p@) && i < j <= s@.len(),
            None => ws_lit_end(s@, i as int, p@) < 0,
        },
{
    let n = s.unicode_len();
    let w = skip_spaces(s, i);
    if w > i && w <= n && has_at(s, w, p) {
        let j = w + p.unicode_len();
        Some(j)
    } else {
        None
    }
}

fn is_skip_exec(s: &str) -> (r: bool)
    ensures
        r == is_skip_line(s@),
{
    let n = s.unicode_len();
    let e = back_over_spaces(s, n);
    let p = "started with:";
    let pl = p.unicode_len();
    let banner = e >= pl && has_at(s, e - pl, p);
    if banner {
        return true;
    }
    if has_at(s, 0, "Tcp port:") {
        return true;
    }
    if has_at(s, 0, "Time") {
        if let Some(a) = ws_lit(s, "Time".unicode_len(), "Id") {
            if let Some(_b) = ws_lit(s, a, "Command") {
                return true;
            }
        }
    }
    false
}

fn try_time(s: &str) -> (r: Option<String>)
    ensures
        (r is Some) == (match_time(s@) is Some),
        r is Some ==> r->Some_0@ == match_time(s@)->Some_0,
{
    let p = "# Time: ";
    if has_at(s, 0, p) {
        let rest = s.substring_char(p.unicode_len(), s.unicode_len());
        Some(String::from_str(trim_str(rest)))
    } else {
        None
    }
}

fn find_at_exec(s: &str, j: usize) -> (r: Option<usize>)
    requires
        j <= s@.len(),
    ensures
        match r {
            Some(v) => v == find_at_marker(s@, j as int) && j <= v && v + 2 <= s@.len(),
            None => find_at_marker(s@, j as int) < 0,
        },
{
    let n = s.unicode_len();
    let mut k = j;
    loop
        invariant
            j <= k <= n,
            n == s@.len(),
            find_at_marker(s@, j as int) == find_at_marker(s@, k as int),
        decreases n - k,
    {
        if n < 2 || k > n - 2 {
            return None;
        }
        if s.get_char(k) == ' ' && s.get_char(k + 1) == '@' {
            return Some(k);
        }
        k = k + 1;
    }
}

fn user_of_exec(s: &str, a: usize, b: usize) -> (r: String)
    requires
        a <= b <= s@.len(),
    ensures
        r@ == user_of(s@.subrange(a as int, b as int)),
{
    let cap = s.substring_char(a, b);
    let t = trim_str(cap);
    let n = t.unicode_len();
    let mut k: usize = 0;
    while k < n && t.get_char(k) != '['
        invariant
            0 <= k <= n,
            n == t@.len(),
            bracket_end(t@, 0) == bracket_end(t@, k as int),
        decreases n - k,
    {
        k = k + 1;
    }
    String::from_str(t.substring_char(0, k))
}

fn wrap_c(c: char) -> (r: bool)
    ensures
        r == is_host_wrap_char(c),
{
    c == '[' || c == ']' || c == ' '
}

fn host_of_exec(s: &str, a: usize, b: usize) -> (r: String)
    requires
        a <= b <= s@.len(),
    ensures
        r@ == host_of(s@.subrange(a as int, b as int)),
{
    let cap = s.substring_char(a, b);
    let t = trim_str(cap);
    let n = t.unicode_len();
    let mut x: usize = 0;
    while x < n && wrap_c(t.get_char(x))
        invariant
            0 <= x <= n,
            n == t@.len(),
            wrap_end(t@, 0) == wrap_end(t@, x as int),
        decreases n - x,
    {
        x = x + 1;
    }
    let mut y: usize = n;
    while y > 0 && wrap_c(t.get_char(y - 1))
        invariant
            0 <= y <= n,
            n == t@.len(),
            wrap_start(t@, n as int) == wrap_start(t@, y as int),
        decreases y,
    {
        y = y - 1;
    }
    if x <= y {
        String::from_str(t.substring_char(x, y))
    } else {
        let r = String::new();
        proof {
            assert(r@ =~= host_of(s@.subrange(a as int, b as int)));
        }
        r
    }
}

fn try_user_host(s: &str) -> (r: Option<(String, String)>)
    ensures
        (r is Some) == (match_user_host(s@) is Some),
        r is Some ==> r->Some_0.0@ == match_user_host(s@)->Some_0.0 && r->Some_0.1@
            == match_user_host(s@)->Some_0.1,
{
    let p = "# User@Host: ";
    if !has_at(s, 0, p) {
        return None;
    }
    let n = s.unicode_len();
    let pl = p.unicode_len();
    match find_at_exec(s, pl) {
        None => None,
        Some(j) => {
            let r2 = skip_spaces(s, j + 2);
            let user = user_of_exec(s, pl, j);
            let host = host_of_exec(s, r2, n);
            Some((user, host))
        },
    }
}

fn qc_test(s: &str, j: usize) -> (r: bool)
    requires
        j <= s@.len(),
    ensures
        r == qc_at(s@, j as int),
{
    match ws_lit(s, j, "QC_hit: ") {
        None => false,
        Some(q) => q < s.unicode_len() && !space_c(s.get_char(q)),
    }
}

fn find_qc_exec(s: &str, j: usize) -> (r: Option<usize>)
    requires
        j <= s@.len(),
    ensures
        match r {
            Some(v) => v == find_qc(s@, j as int) && j <= v && v <= s@.len(),
            None => find_qc(s@, j as int) < 0,
        },
{
    let n = s.unicode_len();
    let mut k = j;
    loop
        invariant
            j <= k <= n,
            n == s@.len(),
            find_qc(s@, j as int) == find_qc(s@, k as int),
        decreases n - k,
    {
        if k >= n {
            return None;
        }
        if qc_test(s, k) {
            return Some(k);
        }
        k = k + 1;
    }
}

fn try_thread_info(s: &str) -> (r: Option<(String, String, String)>)
    ensures
        (r is Some) == (match_thread_info(s@) is Some),
        r is Some ==> r->Some_0.0@ == match_thread_info(s@)->Some_0.0 && r->Some_0.1@
            == match_thread_info(s@)->Some_0.1 && r->Some_0.2@ == match_thread_info(s@)->Some_0.2,
{
    let p = "# Thread_id: ";
    if !has_at(s, 0, p) {
        return None;
    }
    let pl = p.unicode_len();
    let d = skip_digits(s, pl);
    if d == pl {
        return None;
    }
    let l = match ws_lit(s, d, "Schema: ") {
        None => {
            return None;
        },
        Some(l) => l,
    };
    let f = match find_qc_exec(s, l) {
        None => {
            return None;
        },
        Some(f) => f,
    };
    proof {
        lemma_find_qc(s@, l as int);
        assert(qc_at(s@, f as int));
    }
    let q = match ws_lit(s, f, "QC_hit: ") {
        None => {
            return None;
        },
        Some(q) => q,
    };
    let qe = skip_nonspace(s, q);
    let tid = String::from_str(s.substring_char(pl, d));
    let schema = String::from_str(trim_str(s.substring_char(l, f)));
    let qc = String::from_str(s.substring_char(q, qe));
    Some((tid, schema, qc))
}

fn try_query_stats(s: &str) -> (r: Option<(String, String, u64, u64)>)
    ensures
        (r is Some) == (match_query_stats(s@) is Some),
        r is Some ==> r->Some_0.0@ == match_query_stats(s@)->Some_0.0 && r->Some_0.1@
            == match_query_stats(s@)->Some_0.1 && r->Some_0.2 == match_query_stats(s@)->Some_0.2
            && r->Some_0.3 == match_query_stats(s@)->Some_0.3,
{
    let p = "# Query_time: ";
    if !has_at(s, 0, p) {
        return None;
    }
    let pl = p.unicode_len();
    let a = skip_numchars(s, pl);
    if a == pl {
        return None;
    }
    let l1 = match ws_lit(s, a, "Lock_time: ") {
        None => {
            return None;
        },
        Some(v) => v,
    };
    let b = skip_numchars(s, l1);
    if b == l1 {
        return None;
    }
    let l2 = match ws_lit(s, b, "Rows_sent: ") {
        None => {
            return None;
        },
        Some(v) => v,
    };
    let c = skip_digits(s, l2);
    if c == l2 {
        return None;
    }
    let l3 = match ws_lit(s, c, "Rows_examined: ") {
        None => {
            return None;
        },
        Some(v) => v,
    };
    let d = skip_digits(s, l3);
    if d == l3 {
        return None;
    }
    proof {
        crate::text::lemma_digits_end(s@, l2 as int);
        crate::text::lemma_digits_end(s@, l3 as int);
    }
    let qt = normalize_decimal_str(s.substring_char(pl, a));
    let lt = normalize_decimal_str(s.substring_char(l1, b));
    let rs = parse_u64_range(s, l2, c);
    let re = parse_u64_range(s, l3, d);
    Some((qt, lt, rs, re))
}

fn try_row_stats(s: &str) -> (r: Option<(u64, u64)>)
    ensures
        (r is Some) == (match_row_stats(s@) is Some),
        r is Some ==> r->Some_0.0 == match_row_stats(s@)->Some_0.0 && r->Some_0.1 == match_row_stats(
            s@,
        )->Some_0.1,
{
    let p = "# Rows_affected: ";
    if !has_at(s, 0, p) {
        return None;
    }
    let pl = p.unicode_len();
    let a = skip_digits(s, pl);
    if a == pl {
        return None;
    }
    let l = match ws_lit(s, a, "Bytes_sent: ") {
        None => {
            return None;
        },
        Some(v) => v,
    };
    let b = skip_digits(s, l);
    if b == l {
        return None;
    }
    proof {
        crate::text::lemma_digits_end(s@, pl as int);
        crate::text::lemma_digits_end(s@, l as int);
    }
    Some((parse_u64_range(s, pl, a), parse_u64_range(s, l, b)))
}

fn try_tmp_tables(s: &str) -> (r: Option<(u64, u64, u64)>)
    ensures
        (r is Some) == (match_tmp_tables(s@) is Some),
        r is Some ==> r->Some_0.0 == match_tmp_tables(s@)->Some_0.0 && r->Some_0.1
            == match_tmp_tables(s@)->Some_0.1 && r->Some_0.2 == match_tmp_tables(s@)->Some_0.2,
{
    let p = "# Tmp_tables: ";
    if !has_at(s, 0, p) {
        return None;
    }
    let pl = p.unicode_len();
    let a = skip_digits(s, pl);
    if a == pl {
        return None;
    }
    let l1 = match ws_lit(s, a, "Tmp_disk_tables: ") {
        None => {
            return None;
        },
        Some(v) => v,
    };
    let b = skip_digits(s, l1);
    if b == l1 {
        return None;
    }
    let l2 = match ws_lit(s, b, "Tmp_table_sizes: ") {
        None => {
            return None;
        },
        Some(v) => v,
    };
    let c = skip_digits(s, l2);
    if c == l2 {
        return None;
    }
    proof {
        crate::text::lemma_digits_end(s@, pl as int);
        crate::text::lemma_digits_end(s@, l1 as int);
        crate::text::lemma_digits_end(s@, l2 as int);
    }
    Some((parse_u64_range(s, pl, a), parse_u64_range(s, l1, b), parse_u64_range(s, l2, c)))
}

fn try_scan_flags(s: &str) -> (r: Option<(String, String, String, String)>)
    ensures
        (r is Some) == (match_scan_flags(s@) is Some),
        r is Some ==> r->Some_0.0@ == match_scan_flags(s@)->Some_0.0 && r->Some_0.1@
            == match_scan_flags(s@)->Some_0.1 && r->Some_0.2@ == match_scan_flags(s@)->Some_0.2
            && r->Some_0.3@ == match_scan_flags(s@)->Some_0.3,
{
    let p = "# Full_scan: ";
    if !has_at(s, 0, p) {
        return None;
    }
    let pl = p.unicode_len();
    let a = skip_nonspace(s, pl);
    if a == pl {
        return None;
    }
    let l1 = match ws_lit(s, a, "Full_join: ") {
        None => {
            return None;
        },
        Some(v) => v,
    };
    let b = skip_nonspace(s, l1);
    if b == l1 {
        return None;
    }
    let l2 = match ws_lit(s, b, "Tmp_table: ") {
        None => {
            return None;
        },
        Some(v) => v,
    };
    let c = skip_nonspace(s, l2);
    if c == l2 {
        return None;
    }
    let l3 = match ws_lit(s, c, "Tmp_table_on_disk: ") {
        None => {
            return None;
        },
        Some(v) => v,
    };
    let d = skip_nonspace(s, l3);
    if d == l3 {
        return None;
    }
    Some(
        (
            String::from_str(s.substring_char(pl, a)),
            String::from_str(s.substring_char(l1, b)),
            String::from_str(s.substring_char(l2, c)),
            String::from_str(s.substring_char(l3, d)),
        ),
    )
}

fn try_sort_flags(s: &str) -> (r: Option<(String, String, u64, String)>)
    ensures
        (r is Some) == (match_sort_flags(s@) is Some),
        r is Some ==> r->Some_0.0@ == match_sort_flags(s@)->Some_0.0 && r->Some_0.1@
            == match_sort_flags(s@)->Some_0.1 && r->Some_0.2 == match_sort_flags(s@)->Some_0.2
            && r->Some_0.3@ == match_sort_flags(s@)->Some_0.3,
{
    let p = "# Filesort: ";
    if !has_at(s, 0, p) {
        return None;
    }
    let pl = p.unicode_len();
    let a = skip_nonspace(s, pl);
    if a == pl {
        return None;
    }
    let l1 = match ws_lit(s, a, "Filesort_on_disk: ") {
        None => {
            return None;
        },
        Some(v) => v,
    };
    let b = skip_nonspace(s, l1);
    if b == l1 {
        return None;
    }
    let l2 = match ws_lit(s, b, "Merge_passes: ") {
        None => {
            return None;
        },
        Some(v) => v,
    };
    let c = skip_digits(s, l2);
    if c == l2 {
        return None;
    }
    let l3 = match ws_lit(s, c, "Priority_queue: ") {
        None => {
            return None;
        },
        Some(v) => v,
    };
    let d = skip_nonspace(s, l3);
    if d == l3 {
        return None;
    }
    proof {
        crate::text::lemma_digits_end(s@, l2 as int);
    }
    Some(
        (
            String::from_str(s.substring_char(pl, a)),
            String::from_str(s.substring_char(l1, b)),
            parse_u64_range(s, l2, c),
            String::from_str(s.substring_char(l3, d)),
        ),
    )
}

/// Classifies one line of the log into its structural role, testing the
/// fixed shapes in priority order, first match wins.
pub fn classify_line(s: &str) -> (r: LineKind)
    ensures
        r@ == classify_spec(s@),
{
    if is_skip_exec(s) {
        return LineKind::Skip;
    }
    if let Some(t) = try_time(s) {
        return LineKind::Time(t);
    }
    if let Some((u, h)) = try_user_host(s) {
        return LineKind::UserHost(u, h);
    }
    if let Some((a, b, c)) = try_thread_info(s) {
        return LineKind::ThreadInfo(a, b, c);
    }
    if let Some((a, b, c, d)) = try_query_stats(s) {
        return LineKind::QueryStats(a, b, c, d);
    }
    if let Some((a, b)) = try_row_stats(s) {
        return LineKind::RowStats(a, b);
    }
    if let Some((a, b, c)) = try_tmp_tables(s) {
        return LineKind::TmpTables(a, b, c);
    }
    if let Some((a, b, c, d)) = try_scan_flags(s) {
        return LineKind::ScanFlags(a, b, c, d);
    }
    if let Some((a, b, c, d)) = try_sort_flags(s) {
        return LineKind::SortFlags(a, b, c, d);
    }
    let n = s.unicode_len();
    let is_comment = n > 0 && s.get_char(0) == '#';
    if !is_comment && trim_str(s).unicode_len() != 0 {
        return LineKind::Body(String::from_str(s));
    }
    LineKind::Ignored
}

} // verus!
