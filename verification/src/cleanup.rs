//! Extraction of embedded directives from the accumulated query text.
//!
//! Before a record is emitted, its query buffer is scanned for an embedded
//! `SET timestamp=<integer>;` directive and a `use <identifier>;` directive
//! (case-insensitive, the identifier optionally backtick-quoted).  The first
//! occurrence of each is extracted into its own field and removed from the
//! buffer together with the whitespace around it; the rest, trimmed, is the
//! query output field.

use vstd::prelude::*;

use crate::text::{
    back_over_spaces, digits_end, has_at_ci, lemma_trim_idempotent, skip_digits, skip_spaces,
    skip_word, spaces_end, spaces_start, starts_with_at_ci, trim_seq, trim_str, word_end,
};

verus! {

/// A `SET timestamp=<digits>;` directive stands at `o` (case-insensitive).
pub open spec fn set_core_at(s: Seq<char>, o: int) -> bool {
    let p = "set timestamp="@;
    starts_with_at_ci(s, o, p) && {
        let d = digits_end(s, o + p.len());
        d > o + p.len() && d < s.len() && s[d] == ';'
    }
}

/// The index one past the `;` of the directive standing at `o`.
pub open spec fn set_core_end(s: Seq<char>, o: int) -> int {
    digits_end(s, o + "set timestamp="@.len()) + 1
}

/// First index at or after `o` where a `SET timestamp` directive stands,
/// or -1.
pub open spec fn find_set(s: Seq<char>, o: int) -> int
    decreases s.len() - o when 0 <= o <= s.len()
{
    if o >= s.len() {
        -1
    } else if set_core_at(s, o) {
        o
    } else {
        find_set(s, o + 1)
    }
}

/// A `use <identifier>;` directive stands at `o` (case-insensitive, the
/// identifier optionally backtick-quoted).
pub open spec fn use_core_at(s: Seq<char>, o: int) -> bool {
    let p = "use "@;
    starts_with_at_ci(s, o, p) && {
        let a = o + p.len();
        let q = if a < s.len() && s[a] == '`' {
            a + 1
        } else {
            a
        };
        let w = word_end(s, q);
        w > q && ((w < s.len() && s[w] == ';') || (w < s.len() && s[w] == '`' && w + 1 < s.len()
            && s[w + 1] == ';'))
    }
}

/// The index one past the `;` of the `use` directive standing at `o`.
pub open spec fn use_core_end(s: Seq<char>, o: int) -> int {
    let p = "use "@;
    let a = o + p.len();
    let q = if a < s.len() && s[a] == '`' {
        a + 1
    } else {
        a
    };
    let w = word_end(s, q);
    if w < s.len() && s[w] == ';' {
        w + 1
    } else {
        w + 2
    }
}

/// First index at or after `o` where a `use` directive stands, or -1.
pub open spec fn find_use(s: Seq<char>, o: int) -> int
    decreases s.len() - o when 0 <= o <= s.len()
{
    if o >= s.len() {
        -1
    } else if use_core_at(s, o) {
        o
    } else {
        find_use(s, o + 1)
    }
}

pub open spec fn has_set_directive(s: Seq<char>) -> bool {
    find_set(s, 0) >= 0
}

pub open spec fn has_use_directive(s: Seq<char>) -> bool {
    find_use(s, 0) >= 0
}

/// `s` with the first `SET timestamp` directive and the whitespace around
/// it removed; `s` itself when none stands in it.
pub open spec fn remove_set(s: Seq<char>) -> Seq<char> {
    let o = find_set(s, 0);
    if o < 0 {
        s
    } else {
        s.subrange(0, spaces_start(s, o)) + s.subrange(
            spaces_end(s, set_core_end(s, o)),
            s.len() as int,
        )
    }
}

/// `s` with the first `use` directive and the whitespace around it
/// removed; `s` itself when none stands in it.
pub open spec fn remove_use(s: Seq<char>) -> Seq<char> {
    let o = find_use(s, 0);
    if o < 0 {
        s
    } else {
        s.subrange(0, spaces_start(s, o)) + s.subrange(
            spaces_end(s, use_core_end(s, o)),
            s.len() as int,
        )
    }
}

/// The three parts that cleanup yields from a query buffer.
pub struct CleanParts {
    pub set_timestamp: Seq<char>,
    pub use_schema: Seq<char>,
    pub query: Seq<char>,
}

/// Cleanup of a completed record's query buffer: the first `SET
/// timestamp` directive and the first `use` directive, each trimmed, go
/// to fields of their own (empty when absent); the buffer with the `SET`
/// directive removed first and the `use` directive then removed, trimmed,
/// is the query field.
pub open spec fn cleanup_spec(q: Seq<char>) -> CleanParts {
    let ts = {
        let o = find_set(q, 0);
        if o < 0 {
            Seq::<char>::empty()
        } else {
            q.subrange(o, set_core_end(q, o))
        }
    };
    let us = {
        let o = find_use(q, 0);
        if o < 0 {
            Seq::<char>::empty()
        } else {
            q.subrange(o, use_core_end(q, o))
        }
    };
    CleanParts { set_timestamp: ts, use_schema: us, query: trim_seq(remove_use(remove_set(q))) }
}

/// Cleanup of a query field that holds no directive is a no-op: nothing
/// is extracted and the field comes back unchanged.  Hence cleanup is
/// idempotent: its query field never holds a directive that a second
/// cleanup would extract, so whenever the first cleanup has removed every
/// directive, the second changes nothing.
pub proof fn lemma_cleanup_idempotent(q: Seq<char>)
    requires
        !has_set_directive(cleanup_spec(q).query),
        !has_use_directive(cleanup_spec(q).query),
    ensures
        cleanup_spec(cleanup_spec(q).query).set_timestamp == Seq::<char>::empty(),
        cleanup_spec(cleanup_spec(q).query).use_schema == Seq::<char>::empty(),
        cleanup_spec(cleanup_spec(q).query).query == cleanup_spec(q).query,
{
    lemma_trim_idempotent(remove_use(remove_set(q)));
}

/// A found `SET timestamp` directive lies in range and satisfies its test.
pub proof fn lemma_find_set(s: Seq<char>, o: int)
    requires
        0 <= o <= s.len(),
    ensures
        find_set(s, o) >= 0 ==> o <= find_set(s, o) < s.len() && set_core_at(s, find_set(s, o)),
    decreases s.len() - o,
{
    if o < s.len() && !set_core_at(s, o) {
        lemma_find_set(s, o + 1);
    }
}

/// A found `use` directive lies in range and satisfies its test.
pub proof fn lemma_find_use(s: Seq<char>, o: int)
    requires
        0 <= o <= s.len(),
    ensures
        find_use(s, o) >= 0 ==> o <= find_use(s, o) < s.len() && use_core_at(s, find_use(s, o)),
    decreases s.len() - o,
{
    if o < s.len() && !use_core_at(s, o) {
        lemma_find_use(s, o + 1);
    }
}

fn set_core_test(s: &str, o: usize) -> (r: bool)
    requires
        o <= s@.len(),
    ensures
        r == set_core_at(s@, o as int),
{
    let n = s.unicode_len();
    let p = "set timestamp=";
    if !has_at_ci(s, o, p) {
        return false;
    }
    let a = o + p.unicode_len();
    let d = skip_digits(s, a);
    d > a && d < n && s.get_char(d) == ';'
}

fn find_set_exec(s: &str, o: usize) -> (r: Option<usize>)
    requires
        o <= s@.len(),
    ensures
        match r {
            Some(v) => v == find_set(s@, o as int) && o <= v && v < s@.len(),
            None => find_set(s@, o as int) < 0,
        },
{
    let n = s.unicode_len();
    let mut k = o;
    loop
        invariant
            o <= k <= n,
            n == s@.len(),
            find_set(s@, o as int) == find_set(s@, k as int),
        decreases n - k,
    {
        if k >= n {
            return None;
        }
        if set_core_test(s, k) {
            return Some(k);
        }
        k = k + 1;
    }
}

fn use_core_test(s: &str, o: usize) -> (r: bool)
    requires
        o <= s@.len(),
    ensures
        r == use_core_at(s@, o as int),
{
    let n = s.unicode_len();
    let p = "use ";
    if !has_at_ci(s, o, p) {
        return false;
    }
    let a = o + p.unicode_len();
    let q = if a < n && s.get_char(a) == '`' {
        a + 1
    } else {
        a
    };
    let w = skip_word(s, q);
    w > q && ((w < n && s.get_char(w) == ';') || (w < n && s.get_char(w) == '`' && w + 1 < n
        && s.get_char(w + 1) == ';'))
}

fn find_use_exec(s: &str, o: usize) -> (r: Option<usize>)
    requires
        o <= s@.len(),
    ensures
        match r {
            Some(v) => v == find_use(s@, o as int) && o <= v && v < s@.len(),
            None => find_use(s@, o as int) < 0,
        },
{
    let n = s.unicode_len();
    let mut k = o;
    loop
        invariant
            o <= k <= n,
            n == s@.len(),
            find_use(s@, o as int) == find_use(s@, k as int),
        decreases n - k,
    {
        if k >= n {
            return None;
        }
        if use_core_test(s, k) {
            return Some(k);
        }
        k = k + 1;
    }
}

/// The result of cleaning a query buffer.
pub struct CleanedQuery {
    pub set_timestamp: String,
    pub use_schema: String,
    pub query: String,
}

/// Removes `s[p..e]`.
fn remove_range(s: &str, p: usize, e: usize) -> (r: String)
    requires
        p <= e <= s@.len(),
    ensures
        r@ == s@.subrange(0, p as int) + s@.subrange(e as int, s@.len() as int),
{
    let mut r = String::from_str(s.substring_char(0, p));
    r.append(s.substring_char(e, s.unicode_len()));
    r
}

/// Scans the query buffer for the two embedded directives, extracts
/// each into its own field, removes them from the buffer, and hands back
/// the trimmed rest as the query field.
pub fn cleanup_query(q: &str) -> (r: CleanedQuery)
    ensures
        r.set_timestamp@ == cleanup_spec(q@).set_timestamp,
        r.use_schema@ == cleanup_spec(q@).use_schema,
        r.query@ == cleanup_spec(q@).query,
{
    let n = q.unicode_len();
    let found_set = find_set_exec(q, 0);
    proof {
        lemma_find_set(q@, 0);
    }
    let ts = match found_set {
        None => String::new(),
        Some(o) => {
            let a = o + "set timestamp=".unicode_len();
            let d = skip_digits(q, a);
            String::from_str(q.substring_char(o, d + 1))
        },
    };
    let found_use = find_use_exec(q, 0);
    proof {
        lemma_find_use(q@, 0);
    }
    let us = match found_use {
        None => String::new(),
        Some(o) => {
            let e = use_end_exec(q, o);
            String::from_str(q.substring_char(o, e))
        },
    };
    let r1 = match found_set {
        None => String::from_str(q),
        Some(o) => {
            let a = o + "set timestamp=".unicode_len();
            let d = skip_digits(q, a);
            let p = back_over_spaces(q, o);
            let e = skip_spaces(q, d + 1);
            remove_range(q, p, e)
        },
    };
    proof {
        assert(r1@ == remove_set(q@));
    }
    let r2 = match find_use_exec(r1.as_str(), 0) {
        None => r1,
        Some(o) => {
            proof {
                lemma_find_use(r1@, 0);
            }
            let e = use_end_exec(r1.as_str(), o);
            let p = back_over_spaces(r1.as_str(), o);
            let e2 = skip_spaces(r1.as_str(), e);
            remove_range(r1.as_str(), p, e2)
        },
    };
    proof {
        assert(r2@ == remove_use(remove_set(q@)));
    }
    let query = String::from_str(trim_str(r2.as_str()));
    CleanedQuery { set_timestamp: ts, use_schema: us, query }
}

/// The index one past the `;` of the `use` directive standing at `o`.
fn use_end_exec(s: &str, o: usize) -> (e: usize)
    requires
        o < s@.len(),
        use_core_at(s@, o as int),
    ensures
        e == use_core_end(s@, o as int),
        o < e <= s@.len(),
{
    let n = s.unicode_len();
    let a = o + "use ".unicode_len();
    let q = if a < n && s.get_char(a) == '`' {
        a + 1
    } else {
        a
    };
    let w = skip_word(s, q);
    if w < n && s.get_char(w) == ';' {
        w + 1
    } else {
        w + 2
    }
}

} // verus!