//! One completed query event, and its mapping into the output row layout.
//!
//! A `SlowQueryEntry` accumulates the fields of one query event while its
//! lines are consumed.  Numeric counters default to zero and text fields to
//! empty when their header never appears; the two decimal-seconds fields
//! default to `0`, their written form.  A record is complete enough to emit
//! exactly when its thread id is non-empty.

use vstd::prelude::*;

use crate::cleanup::{cleanup_query, cleanup_spec};
use crate::text::{dec_digits, digit_str, u64_to_string};

verus! {

/// The mathematical content of one record: every text field as a
/// character sequence, every counter as a number.
pub struct RecModel {
    pub time: Seq<char>,
    pub user: Seq<char>,
    pub host: Seq<char>,
    pub thread_id: Seq<char>,
    pub schema: Seq<char>,
    pub qc_hit: Seq<char>,
    pub query_time: Seq<char>,
    pub lock_time: Seq<char>,
    pub rows_sent: u64,
    pub rows_examined: u64,
    pub rows_affected: u64,
    pub bytes_sent: u64,
    pub query: Seq<char>,
    pub tmp_tables: u64,
    pub tmp_disk_tables: u64,
    pub tmp_table_sizes: u64,
    pub full_scan: Seq<char>,
    pub full_join: Seq<char>,
    pub tmp_table: Seq<char>,
    pub tmp_table_on_disk: Seq<char>,
    pub filesort: Seq<char>,
    pub filesort_on_disk: Seq<char>,
    pub merge_passes: u64,
    pub priority_queue: Seq<char>,
}

/// One entry of the slow-query log.  The two time fields hold decimal
/// seconds in their written form; the counters are plain numbers.
pub struct SlowQueryEntry {
    pub time: String,
    pub user: String,
    pub host: String,
    pub thread_id: String,
    pub schema: String,
    pub qc_hit: String,
    pub query_time: String,
    pub lock_time: String,
    pub rows_sent: u64,
    pub rows_examined: u64,
    pub rows_affected: u64,
    pub bytes_sent: u64,
    pub query: String,
    pub tmp_tables: u64,
    pub tmp_disk_tables: u64,
    pub tmp_table_sizes: u64,
    pub full_scan: String,
    pub full_join: String,
    pub tmp_table: String,
    pub tmp_table_on_disk: String,
    pub filesort: String,
    pub filesort_on_disk: String,
    pub merge_passes: u64,
    pub priority_queue: String,
}

impl View for SlowQueryEntry {
    type V = RecModel;

    open spec fn view(&self) -> RecModel {
        RecModel {
            time: self.time@,
            user: self.user@,
            host: self.host@,
            thread_id: self.thread_id@,
            schema: self.schema@,
            qc_hit: self.qc_hit@,
            query_time: self.query_time@,
            lock_time: self.lock_time@,
            rows_sent: self.rows_sent,
            rows_examined: self.rows_examined,
            rows_affected: self.rows_affected,
            bytes_sent: self.bytes_sent,
            query: self.query@,
            tmp_tables: self.tmp_tables,
            tmp_disk_tables: self.tmp_disk_tables,
            tmp_table_sizes: self.tmp_table_sizes,
            full_scan: self.full_scan@,
            full_join: self.full_join@,
            tmp_table: self.tmp_table@,
            tmp_table_on_disk: self.tmp_table_on_disk@,
            filesort: self.filesort@,
            filesort_on_disk: self.filesort_on_disk@,
            merge_passes: self.merge_passes,
            priority_queue: self.priority_queue@,
        }
    }
}

impl DeepView for SlowQueryEntry {
    type V = RecModel;

    open spec fn deep_view(&self) -> RecModel {
        self.view()
    }
}

/// A record freshly started with the given sticky time: every text field
/// empty, every counter zero, the decimal-seconds fields written as 0.
pub open spec fn empty_record(time: Seq<char>) -> RecModel {
    RecModel {
        time,
        user: Seq::empty(),
        host: Seq::empty(),
        thread_id: Seq::empty(),
        schema: Seq::empty(),
        qc_hit: Seq::empty(),
        query_time: seq!['0'],
        lock_time: seq!['0'],
        rows_sent: 0,
        rows_examined: 0,
        rows_affected: 0,
        bytes_sent: 0,
        query: Seq::empty(),
        tmp_tables: 0,
        tmp_disk_tables: 0,
        tmp_table_sizes: 0,
        full_scan: Seq::empty(),
        full_join: Seq::empty(),
        tmp_table: Seq::empty(),
        tmp_table_on_disk: Seq::empty(),
        filesort: Seq::empty(),
        filesort_on_disk: Seq::empty(),
        merge_passes: 0,
        priority_queue: Seq::empty(),
    }
}

/// A record is complete enough to emit exactly when its thread id is
/// non-empty.
pub open spec fn rec_valid(r: RecModel) -> bool {
    r.thread_id.len() != 0
}

impl SlowQueryEntry {
    /// A fresh record carrying the given sticky time.
    pub fn new(time: String) -> (r: Self)
        ensures
            r@ == empty_record(time@),
    {
        let r = SlowQueryEntry {
            time,
            user: String::new(),
            host: String::new(),
            thread_id: String::new(),
            schema: String::new(),
            qc_hit: String::new(),
            query_time: String::from_str(digit_str(0)),
            lock_time: String::from_str(digit_str(0)),
            rows_sent: 0,
            rows_examined: 0,
            rows_affected: 0,
            bytes_sent: 0,
            query: String::new(),
            tmp_tables: 0,
            tmp_disk_tables: 0,
            tmp_table_sizes: 0,
            full_scan: String::new(),
            full_join: String::new(),
            tmp_table: String::new(),
            tmp_table_on_disk: String::new(),
            filesort: String::new(),
            filesort_on_disk: String::new(),
            merge_passes: 0,
            priority_queue: String::new(),
        };
        proof {
            assert(seq![crate::text::digit_char(0)] =~= seq!['0']);
        }
        r
    }

    /// Whether the entry has enough data to be emitted: the thread id,
    /// standing in for a complete metadata block, is non-empty.
    pub fn is_valid(&self) -> (r: bool)
        ensures
            r == rec_valid(self@),
    {
        !self.thread_id.as_str().is_empty()
    }

    /// The entry mapped into the fixed column layout, with the embedded
    /// directives extracted out of the query text.
    pub fn to_row(&self) -> (r: Vec<String>)
        ensures
            r.deep_view() == row_of(self@),
    {
        let cleaned = cleanup_query(self.query.as_str());
        let mut r: Vec<String> = Vec::new();
        r.push(self.time.clone());
        r.push(self.user.clone());
        r.push(self.host.clone());
        r.push(self.thread_id.clone());
        r.push(self.schema.clone());
        r.push(self.qc_hit.clone());
        r.push(cleaned.set_timestamp);
        r.push(cleaned.use_schema);
        r.push(cleaned.query);
        r.push(self.query_time.clone());
        r.push(self.lock_time.clone());
        r.push(u64_to_string(self.rows_sent));
        r.push(u64_to_string(self.rows_examined));
        r.push(u64_to_string(self.rows_affected));
        r.push(u64_to_string(self.bytes_sent));
        r.push(u64_to_string(self.tmp_tables));
        r.push(u64_to_string(self.tmp_disk_tables));
        r.push(u64_to_string(self.tmp_table_sizes));
        r.push(self.full_scan.clone());
        r.push(self.full_join.clone());
        r.push(self.tmp_table.clone());
        r.push(self.tmp_table_on_disk.clone());
        r.push(self.filesort.clone());
        r.push(self.filesort_on_disk.clone());
        r.push(u64_to_string(self.merge_passes));
        r.push(self.priority_queue.clone());
        proof {
            assert(r.deep_view() =~= row_of(self@));
        }
        r
    }
}

impl Default for SlowQueryEntry {
    /// A record with no sticky time: every field at its default.
    fn default() -> (r: Self)
        ensures
            r@ == empty_record(Seq::empty()),
    {
        SlowQueryEntry::new(String::new())
    }
}

/// The fixed column layout of one emitted row: identity fields, the two
/// extracted directives, the cleaned query, then the numeric and flag
/// columns, each counter in its decimal writing.
pub open spec fn row_of(r: RecModel) -> Seq<Seq<char>> {
    let c = cleanup_spec(r.query);
    seq![
        r.time,
        r.user,
        r.host,
        r.thread_id,
        r.schema,
        r.qc_hit,
        c.set_timestamp,
        c.use_schema,
        c.query,
        r.query_time,
        r.lock_time,
        dec_digits(r.rows_sent as int),
        dec_digits(r.rows_examined as int),
        dec_digits(r.rows_affected as int),
        dec_digits(r.bytes_sent as int),
        dec_digits(r.tmp_tables as int),
        dec_digits(r.tmp_disk_tables as int),
        dec_digits(r.tmp_table_sizes as int),
        r.full_scan,
        r.full_join,
        r.tmp_table,
        r.tmp_table_on_disk,
        r.filesort,
        r.filesort_on_disk,
        dec_digits(r.merge_passes as int),
        r.priority_queue,
    ]
}

/// The names of the output columns, in emission order.
pub open spec fn header_fields() -> Seq<Seq<char>> {
    seq![
        "time"@,
        "user"@,
        "host"@,
        "thread_id"@,
        "schema"@,
        "qc_hit"@,
        "set_timestamp"@,
        "use_schema"@,
        "query"@,
        "query_time"@,
        "lock_time"@,
        "rows_sent"@,
        "rows_examined"@,
        "rows_affected"@,
        "bytes_sent"@,
        "tmp_tables"@,
        "tmp_disk_tables"@,
        "tmp_table_sizes"@,
        "full_scan"@,
        "full_join"@,
        "tmp_table"@,
        "tmp_table_on_disk"@,
        "filesort"@,
        "filesort_on_disk"@,
        "merge_passes"@,
        "priority_queue"@,
    ]
}

/// The fixed header row that precedes the emitted records.
pub fn header_row() -> (r: Vec<String>)
    ensures
        r.deep_view() == header_fields(),
{
    let mut r: Vec<String> = Vec::new();
    r.push(String::from_str("time"));
    r.push(String::from_str("user"));
    r.push(String::from_str("host"));
    r.push(String::from_str("thread_id"));
    r.push(String::from_str("schema"));
    r.push(String::from_str("qc_hit"));
    r.push(String::from_str("set_timestamp"));
    r.push(String::from_str("use_schema"));
    r.push(String::from_str("query"));
    r.push(String::from_str("query_time"));
    r.push(String::from_str("lock_time"));
    r.push(String::from_str("rows_sent"));
    r.push(String::from_str("rows_examined"));
    r.push(String::from_str("rows_affected"));
    r.push(String::from_str("bytes_sent"));
    r.push(String::from_str("tmp_tables"));
    r.push(String::from_str("tmp_disk_tables"));
    r.push(String::from_str("tmp_table_sizes"));
    r.push(String::from_str("full_scan"));
    r.push(String::from_str("full_join"));
    r.push(String::from_str("tmp_table"));
    r.push(String::from_str("tmp_table_on_disk"));
    r.push(String::from_str("filesort"));
    r.push(String::from_str("filesort_on_disk"));
    r.push(String::from_str("merge_passes"));
    r.push(String::from_str("priority_queue"));
    proof {
        assert(r.deep_view() =~= header_fields());
    }
    r
}

} // verus!
