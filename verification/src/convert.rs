//! The record accumulator and flush engine.
//!
//! The converter holds one in-progress record and the sticky time: the most
//! recently seen timestamp, which outlives record boundaries.  Each line is
//! classified and folded into this state; a connection header flushes the
//! in-progress record first when it is complete enough to emit, and the end
//! of the input flushes the final pending record the same way.  `step_spec`
//! and `run_spec` are the mathematical model of this machine; the laws at
//! the end are proved over them.

use vstd::prelude::*;

use crate::classify::{classify_line, classify_spec, LineClass, LineKind};
use crate::record::{empty_record, rec_valid, RecModel, SlowQueryEntry};
use crate::timefmt::{format_log_time, format_log_time_spec};

verus! {

/// The whole state of the conversion: the sticky time and the record in
/// progress.
pub struct ConvState {
    pub sticky: Seq<char>,
    pub rec: RecModel,
}

/// The state before any line was consumed: no time seen yet, an empty
/// record that can never be flushed.
pub open spec fn init_state() -> ConvState {
    ConvState { sticky: Seq::empty(), rec: empty_record(Seq::empty()) }
}

/// A raw time-header value, normalized when it parses and kept raw
/// otherwise.
pub open spec fn fmt_or_raw(raw: Seq<char>) -> Seq<char> {
    match format_log_time_spec(raw) {
        Some(t) => t,
        None => raw,
    }
}

/// One classified line folded into the state; the flushed record, if the
/// line completes one.
pub open spec fn apply_class(st: ConvState, c: LineClass) -> (ConvState, Option<RecModel>) {
    match c {
        LineClass::Skip => (st, None),
        LineClass::Ignored => (st, None),
        LineClass::Time(raw) => (ConvState { sticky: fmt_or_raw(raw), rec: st.rec }, None),
        LineClass::UserHost(u, h) => (
            ConvState {
                sticky: st.sticky,
                rec: RecModel { user: u, host: h, ..empty_record(st.sticky) },
            },
            if rec_valid(st.rec) {
                Some(st.rec)
            } else {
                None
            },
        ),
        LineClass::ThreadInfo(t, s, q) => (
            ConvState {
                sticky: st.sticky,
                rec: RecModel { thread_id: t, schema: s, qc_hit: q, ..st.rec },
            },
            None,
        ),
        LineClass::QueryStats(qt, lt, rs, re) => (
            ConvState {
                sticky: st.sticky,
                rec: RecModel {
                    query_time: qt,
                    lock_time: lt,
                    rows_sent: rs,
                    rows_examined: re,
                    ..st.rec
                },
            },
            None,
        ),
        LineClass::RowStats(ra, bs) => (
            ConvState {
                sticky: st.sticky,
                rec: RecModel { rows_affected: ra, bytes_sent: bs, ..st.rec },
            },
            None,
        ),
        LineClass::TmpTables(a, b, c) => (
            ConvState {
                sticky: st.sticky,
                rec: RecModel { tmp_tables: a, tmp_disk_tables: b, tmp_table_sizes: c, ..st.rec },
            },
            None,
        ),
        LineClass::ScanFlags(a, b, c, d) => (
            ConvState {
                sticky: st.sticky,
                rec: RecModel {
                    full_scan: a,
                    full_join: b,
                    tmp_table: c,
                    tmp_table_on_disk: d,
                    ..st.rec
                },
            },
            None,
        ),
        LineClass::SortFlags(a, b, m, p) => (
            ConvState {
                sticky: st.sticky,
                rec: RecModel {
                    filesort: a,
                    filesort_on_disk: b,
                    merge_passes: m,
                    priority_queue: p,
                    ..st.rec
                },
            },
            None,
        ),
        LineClass::Body(l) => (
            ConvState {
                sticky: st.sticky,
                rec: RecModel { query: st.rec.query + l + seq!['\n'], ..st.rec },
            },
            None,
        ),
    }
}

/// One line folded into the state.
pub open spec fn step_spec(st: ConvState, line: Seq<char>) -> (ConvState, Option<RecModel>) {
    apply_class(st, classify_spec(line))
}

pub open spec fn opt_to_seq(o: Option<RecModel>) -> Seq<RecModel> {
    match o {
        Some(r) => seq![r],
        None => Seq::empty(),
    }
}

/// A whole sequence of lines folded into the state: the records flushed
/// along the way, in order, and the final state.
pub open spec fn run_spec(st: ConvState, lines: Seq<Seq<char>>) -> (Seq<RecModel>, ConvState)
    decreases lines.len(),
{
    if lines.len() == 0 {
        (Seq::empty(), st)
    } else {
        let (st1, out) = step_spec(st, lines[0]);
        let (rest, stf) = run_spec(st1, lines.skip(1));
        (opt_to_seq(out) + rest, stf)
    }
}

/// All records that a run over the lines emits, the final pending record
/// included when it is complete enough.
pub open spec fn process_spec(lines: Seq<Seq<char>>) -> Seq<RecModel> {
    let (rows, stf) = run_spec(init_state(), lines);
    rows + if rec_valid(stf.rec) {
        seq![stf.rec]
    } else {
        Seq::empty()
    }
}

pub open spec fn rec_opt_view(o: Option<SlowQueryEntry>) -> Option<RecModel> {
    match o {
        Some(r) => Some(r@),
        None => None,
    }
}

/// The record accumulator: the sticky time and the record in progress.
pub struct Converter {
    pub last_seen_time: String,
    pub current: SlowQueryEntry,
}

impl View for Converter {
    type V = ConvState;

    open spec fn view(&self) -> ConvState {
        ConvState { sticky: self.last_seen_time@, rec: self.current@ }
    }
}

impl Converter {
    /// A converter that has consumed nothing.
    pub fn new() -> (r: Self)
        ensures
            r@ == init_state(),
    {
        Converter { last_seen_time: String::new(), current: SlowQueryEntry::new(String::new()) }
    }

    /// Consumes one line: classifies it and folds it into the state,
    /// handing back the record that the line flushed, if any.
    pub fn step(&mut self, line: &str) -> (out: Option<SlowQueryEntry>)
        ensures
            final(self)@ == step_spec(old(self)@, line@).0,
            rec_opt_view(out) == step_spec(old(self)@, line@).1,
    {
        match classify_line(line) {
            LineKind::Skip => None,
            LineKind::Ignored => None,
            LineKind::Time(raw) => {
                self.last_seen_time = match format_log_time(raw.as_str()) {
                    Some(t) => t,
                    None => raw,
                };
                None
            },
            LineKind::UserHost(u, h) => {
                let mut fresh = SlowQueryEntry::new(self.last_seen_time.clone());
                fresh.user = u;
                fresh.host = h;
                core::mem::swap(&mut self.current, &mut fresh);
                if fresh.is_valid() {
                    Some(fresh)
                } else {
                    None
                }
            },
            LineKind::ThreadInfo(t, s, q) => {
                self.current.thread_id = t;
                self.current.schema = s;
                self.current.qc_hit = q;
                None
            },
            LineKind::QueryStats(qt, lt, rs, re) => {
                self.current.query_time = qt;
                self.current.lock_time = lt;
                self.current.rows_sent = rs;
                self.current.rows_examined = re;
                None
            },
            LineKind::RowStats(ra, bs) => {
                self.current.rows_affected = ra;
                self.current.bytes_sent = bs;
                None
            },
            LineKind::TmpTables(a, b, c) => {
                self.current.tmp_tables = a;
                self.current.tmp_disk_tables = b;
                self.current.tmp_table_sizes = c;
                None
            },
            LineKind::ScanFlags(a, b, c, d) => {
                self.current.full_scan = a;
                self.current.full_join = b;
                self.current.tmp_table = c;
                self.current.tmp_table_on_disk = d;
                None
            },
            LineKind::SortFlags(a, b, m, p) => {
                self.current.filesort = a;
                self.current.filesort_on_disk = b;
                self.current.merge_passes = m;
                self.current.priority_queue = p;
                None
            },
            LineKind::Body(l) => {
                self.current.query.append(l.as_str());
                self.current.query.append("\n");
                proof {
                    reveal_strlit("\n");
                    assert(self.current@.query =~= old(self)@.rec.query + l@ + seq!['\n']);
                }
                None
            },
        }
    }

    /// The end of the input: flushes the final pending record when it is
    /// complete enough to emit.
    pub fn finish(self) -> (out: Option<SlowQueryEntry>)
        ensures
            rec_opt_view(out) == if rec_valid(self@.rec) {
                Some(self@.rec)
            } else {
                None::<RecModel>
            },
    {
        if self.current.is_valid() {
            Some(self.current)
        } else {
            None
        }
    }
}

/// Folding one more line at the end of a run is one more step.
pub proof fn lemma_run_snoc(st: ConvState, lines: Seq<Seq<char>>, l: Seq<char>)
    ensures
        ({
            let (rows, stm) = run_spec(st, lines);
            let (st2, out) = step_spec(stm, l);
            run_spec(st, lines.push(l)) == (rows + opt_to_seq(out), st2)
        }),
    decreases lines.len(),
{
    let (rows, stm) = run_spec(st, lines);
    let (st2, out) = step_spec(stm, l);
    let lp = lines.push(l);
    assert(lp.len() == lines.len() + 1);
    if lines.len() == 0 {
        assert(stm == st && rows =~= Seq::<RecModel>::empty());
        assert(lp[0] == l);
        assert(lp.skip(1) =~= Seq::<Seq<char>>::empty());
        assert(run_spec(st2, lp.skip(1)) == (Seq::<RecModel>::empty(), st2));
        assert(run_spec(st, lp).0 =~= rows + opt_to_seq(out));
        assert(run_spec(st, lp).1 == st2);
    } else {
        let st1 = step_spec(st, lines[0]).0;
        let out0 = step_spec(st, lines[0]).1;
        lemma_run_snoc(st1, lines.skip(1), l);
        assert(lp[0] == lines[0]);
        assert(lp.skip(1) =~= lines.skip(1).push(l));
        assert(run_spec(st1, lines.skip(1)).1 == stm);
        assert(run_spec(st1, lp.skip(1)).0 =~= run_spec(st1, lines.skip(1)).0 + opt_to_seq(out));
        assert(run_spec(st, lp).0 =~= rows + opt_to_seq(out));
        assert(run_spec(st, lp).1 == st2);
    }
}

/// Consumes the lines in order and hands back every emitted record: the
/// ones flushed along the way and the final pending record when it is
/// complete enough.
pub fn process_lines(lines: &Vec<String>) -> (rows: Vec<SlowQueryEntry>)
    ensures
        rows.deep_view() == process_spec(lines.deep_view()),
{
    let mut conv = Converter::new();
    let mut rows: Vec<SlowQueryEntry> = Vec::new();
    proof {
        assert(rows.deep_view() =~= Seq::<RecModel>::empty());
        assert(lines.deep_view().take(0) =~= Seq::<Seq<char>>::empty());
    }
    let n = lines.len();
    let mut i: usize = 0;
    while i < n
        invariant
            0 <= i <= n,
            n == lines@.len(),
            run_spec(init_state(), lines.deep_view().take(i as int)) == (rows.deep_view(), conv@),
        decreases n - i,
    {
        let ghost prefix = lines.deep_view().take(i as int);
        let ghost cur = lines.deep_view()[i as int];
        let out = conv.step(lines[i].as_str());
        proof {
            lemma_run_snoc(init_state(), prefix, cur);
            assert(prefix.push(cur) =~= lines.deep_view().take(i as int + 1));
        }
        match out {
            Some(r) => {
                rows.push(r);
                proof {
                    assert(rows.deep_view() =~= run_spec(
                        init_state(),
                        lines.deep_view().take(i as int + 1),
                    ).0);
                }
            },
            None => {
                proof {
                    assert(rows.deep_view() =~= run_spec(
                        init_state(),
                        lines.deep_view().take(i as int + 1),
                    ).0);
                }
            },
        }
        i = i + 1;
    }
    proof {
        assert(lines.deep_view().take(n as int) =~= lines.deep_view());
    }
    match conv.finish() {
        Some(r) => {
            rows.push(r);
            proof {
                assert(rows.deep_view() =~= process_spec(lines.deep_view()));
            }
            rows
        },
        None => {
            proof {
                assert(rows.deep_view() =~= process_spec(lines.deep_view()));
            }
            rows
        },
    }
}

/// Every emitted record mapped into the fixed column layout, in emission
/// order; the header row is not included.
pub fn convert_lines(lines: &Vec<String>) -> (rows: Vec<Vec<String>>)
    ensures
        rows.deep_view() == process_spec(lines.deep_view()).map_values(
            |m: RecModel| crate::record::row_of(m),
        ),
{
    let recs = process_lines(lines);
    let mut rows: Vec<Vec<String>> = Vec::new();
    let n = recs.len();
    let mut i: usize = 0;
    while i < n
        invariant
            0 <= i <= n,
            n == recs@.len(),
            recs.deep_view() == process_spec(lines.deep_view()),
            rows@.len() == i,
            forall|k: int|
                0 <= k < i ==> (#[trigger] rows.deep_view()[k]) == crate::record::row_of(
                    recs.deep_view()[k],
                ),
        decreases n - i,
    {
        let row = recs[i].to_row();
        let ghost pre = rows.deep_view();
        rows.push(row);
        proof {
            assert(forall|k: int| 0 <= k < i ==> (#[trigger] rows.deep_view()[k]) == pre[k]);
            assert(rows.deep_view()[i as int] == crate::record::row_of(recs.deep_view()[i as int]));
        }
        i = i + 1;
    }
    proof {
        assert(rows.deep_view() =~= process_spec(lines.deep_view()).map_values(
            |m: RecModel| crate::record::row_of(m),
        ));
    }
    rows
}

/// The number of rows the input owes: a count over the lines alone.  A
/// connection header closes the pending record, emitting it when a
/// thread-id header has reached it; a thread-id header makes the pending
/// record emittable; the final pending record is emitted the same way.
pub open spec fn expected_rows(pending: bool, lines: Seq<Seq<char>>) -> nat
    decreases lines.len(),
{
    if lines.len() == 0 {
        if pending {
            1nat
        } else {
            0nat
        }
    } else {
        let c = classify_spec(lines[0]);
        if c is UserHost {
            (if pending {
                1nat
            } else {
                0nat
            }) + expected_rows(false, lines.skip(1))
        } else if c is ThreadInfo {
            expected_rows(true, lines.skip(1))
        } else {
            expected_rows(pending, lines.skip(1))
        }
    }
}

/// A thread-id header always carries a non-empty thread id.
pub proof fn lemma_thread_info_nonempty(s: Seq<char>)
    ensures
        crate::classify::match_thread_info(s) is Some ==> crate::classify::match_thread_info(
            s,
        )->Some_0.0.len() > 0,
{
    let p = "# Thread_id: "@;
    if crate::classify::match_thread_info(s) is Some {
        crate::text::lemma_digits_end(s, p.len() as int);
    }
}

/// Steps that are not flushes and not thread-id headers keep validity;
/// the two that are, set it.
proof fn lemma_emitted_count(st: ConvState, lines: Seq<Seq<char>>)
    ensures
        ({
            let (rows, stf) = run_spec(st, lines);
            rows.len() + (if rec_valid(stf.rec) {
                1nat
            } else {
                0nat
            }) == expected_rows(rec_valid(st.rec), lines)
        }),
    decreases lines.len(),
{
    if lines.len() > 0 {
        let (st1, out) = step_spec(st, lines[0]);
        lemma_thread_info_nonempty(lines[0]);
        lemma_emitted_count(st1, lines.skip(1));
    }
}

/// The number of emitted rows equals the number of flush points whose
/// record a thread-id header has reached: one for each connection header
/// whose record is complete by the next connection header, and one for
/// the final record when it is complete at the end of the input.
pub proof fn lemma_row_count(lines: Seq<Seq<char>>)
    ensures
        process_spec(lines).len() == expected_rows(false, lines),
{
    lemma_emitted_count(init_state(), lines);
}

/// Whether a thread-id header stands before the first connection header
/// of `lines`: the record pending at the head of this stretch will be
/// complete enough to emit when it is flushed.
pub open spec fn segment_makes_valid(lines: Seq<Seq<char>>) -> bool
    decreases lines.len(),
{
    if lines.len() == 0 {
        false
    } else if classify_spec(lines[0]) is UserHost {
        false
    } else if classify_spec(lines[0]) is ThreadInfo {
        true
    } else {
        segment_makes_valid(lines.skip(1))
    }
}

/// The number of connection headers whose record is complete by its
/// flush: a thread-id header stands between the connection header and
/// the next one (or the end of the input).
pub open spec fn valid_connection_count(lines: Seq<Seq<char>>) -> nat
    decreases lines.len(),
{
    if lines.len() == 0 {
        0
    } else if classify_spec(lines[0]) is UserHost {
        (if segment_makes_valid(lines.skip(1)) {
            1nat
        } else {
            0nat
        }) + valid_connection_count(lines.skip(1))
    } else {
        valid_connection_count(lines.skip(1))
    }
}

proof fn lemma_expected_eq_count(pending: bool, lines: Seq<Seq<char>>)
    ensures
        expected_rows(pending, lines) == (if pending || segment_makes_valid(lines) {
            1nat
        } else {
            0nat
        }) + valid_connection_count(lines),
    decreases lines.len(),
{
    if lines.len() > 0 {
        let c = classify_spec(lines[0]);
        if c is UserHost {
            lemma_expected_eq_count(false, lines.skip(1));
        } else if c is ThreadInfo {
            lemma_expected_eq_count(true, lines.skip(1));
        } else {
            lemma_expected_eq_count(pending, lines.skip(1));
        }
    }
}

/// The number of emitted rows equals the number of connection-header
/// lines whose resulting record is complete (a thread-id header reaches
/// it before the next connection header or the end of the input), plus
/// one for the defensive record when a thread-id header stands before
/// the first connection header.
pub proof fn lemma_rows_match_connection_headers(lines: Seq<Seq<char>>)
    ensures
        process_spec(lines).len() == valid_connection_count(lines) + (if segment_makes_valid(
            lines,
        ) {
            1nat
        } else {
            0nat
        }),
{
    lemma_row_count(lines);
    lemma_expected_eq_count(false, lines);
}

/// An input in which no line is a connection header and none is a
/// thread-id header emits no rows at all.
pub proof fn lemma_no_connection_no_rows(lines: Seq<Seq<char>>)
    requires
        forall|i: int|
            0 <= i < lines.len() ==> !(#[trigger] classify_spec(lines[i]) is UserHost) && !(
            classify_spec(lines[i]) is ThreadInfo),
    ensures
        process_spec(lines).len() == 0,
{
    lemma_row_count(lines);
    lemma_expected_rows_zero(lines);
}

proof fn lemma_expected_rows_zero(lines: Seq<Seq<char>>)
    requires
        forall|i: int|
            0 <= i < lines.len() ==> !(#[trigger] classify_spec(lines[i]) is UserHost) && !(
            classify_spec(lines[i]) is ThreadInfo),
    ensures
        expected_rows(false, lines) == 0,
    decreases lines.len(),
{
    if lines.len() > 0 {
        assert(!(classify_spec(lines[0]) is UserHost));
        assert(forall|i: int|
            0 <= i < lines.skip(1).len() ==> lines.skip(1)[i] == lines[i + 1]);
        lemma_expected_rows_zero(lines.skip(1));
    }
}

/// Sticky-time carry-forward: from a state whose pending record already
/// carries the sticky time, a stretch of lines without a time header
/// leaves the sticky time unchanged, and every record emitted along it,
/// the final pending one included, carries that same time.
pub proof fn lemma_sticky_time(st: ConvState, lines: Seq<Seq<char>>)
    requires
        st.rec.time == st.sticky,
        forall|i: int| 0 <= i < lines.len() ==> !(#[trigger] classify_spec(lines[i]) is Time),
    ensures
        ({
            let (rows, stf) = run_spec(st, lines);
            stf.sticky == st.sticky && stf.rec.time == st.sticky && forall|k: int|
                0 <= k < rows.len() ==> (#[trigger] rows[k]).time == st.sticky
        }),
    decreases lines.len(),
{
    if lines.len() > 0 {
        let (st1, out) = step_spec(st, lines[0]);
        assert(!(classify_spec(lines[0]) is Time));
        assert(forall|i: int|
            0 <= i < lines.skip(1).len() ==> lines.skip(1)[i] == lines[i + 1]);
        lemma_sticky_time(st1, lines.skip(1));
        let (rows, stf) = run_spec(st, lines);
        let (rest, _stf2) = run_spec(st1, lines.skip(1));
        assert(forall|k: int| 0 <= k < rows.len() ==> (#[trigger] rows[k]).time == st.sticky) by {
            assert(rows =~= opt_to_seq(out) + rest);
        }
    }
}

} // verus!
