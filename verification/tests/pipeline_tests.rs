use slow_query_converter::convert::{convert_lines, Converter};
use slow_query_converter::record::{header_row, SlowQueryEntry};

fn lines_of(raw: &[&str]) -> Vec<String> {
    raw.iter().map(|l| l.to_string()).collect()
}

#[test]
fn test_full_scenario() {
    let lines = lines_of(&[
        "# Time: 230101 10:00:00",
        "# User@Host: root[root] @ localhost []",
        "# Thread_id: 5  Schema: test  QC_hit: No",
        "# Query_time: 1.5  Lock_time: 0.0  Rows_sent: 1  Rows_examined: 10",
        "SET timestamp=1672566000;",
        "SELECT 1;",
    ]);
    let rows = convert_lines(&lines);
    assert_eq!(rows.len(), 1);
    let row = &rows[0];
    assert_eq!(row.len(), 26);
    assert_eq!(row[0], "2023-01-01 10:00:00");
    assert_eq!(row[1], "root");
    assert_eq!(row[2], "localhost");
    assert_eq!(row[3], "5");
    assert_eq!(row[4], "test");
    assert_eq!(row[5], "No");
    assert_eq!(row[6], "SET timestamp=1672566000;");
    assert_eq!(row[7], "");
    assert_eq!(row[8], "SELECT 1;");
    assert_eq!(row[9], "1.5");
    assert_eq!(row[10], "0");
    assert_eq!(row[11], "1");
    assert_eq!(row[12], "10");
    assert_eq!(row[13], "0");
    assert_eq!(row[14], "0");
}

#[test]
fn test_header_row_layout() {
    let header = header_row();
    assert_eq!(header.len(), 26);
    assert_eq!(header[0], "time");
    assert_eq!(header[8], "query");
    assert_eq!(header[9], "query_time");
    assert_eq!(header[25], "priority_queue");
}

#[test]
fn test_zero_connection_headers_emit_no_rows() {
    let lines = lines_of(&[
        "# Time: 230101 10:00:00",
        "SELECT 1;",
        "",
        "# Unknown_header: 9",
    ]);
    let rows = convert_lines(&lines);
    assert_eq!(rows.len(), 0);
}

#[test]
fn test_sticky_time_carry_forward() {
    let lines = lines_of(&[
        "# Time: 230101 10:00:00",
        "# User@Host: a @ h1",
        "# Thread_id: 1  Schema: s  QC_hit: No",
        "SELECT 1;",
        "# User@Host: b @ h2",
        "# Thread_id: 2  Schema: s  QC_hit: No",
        "SELECT 2;",
    ]);
    let rows = convert_lines(&lines);
    assert_eq!(rows.len(), 2);
    assert_eq!(rows[0][0], "2023-01-01 10:00:00");
    assert_eq!(rows[1][0], "2023-01-01 10:00:00");
}

#[test]
fn test_unparseable_time_falls_back_to_raw() {
    let lines = lines_of(&[
        "# Time: whenever it was",
        "# User@Host: a @ h",
        "# Thread_id: 1  Schema: s  QC_hit: No",
    ]);
    let rows = convert_lines(&lines);
    assert_eq!(rows.len(), 1);
    assert_eq!(rows[0][0], "whenever it was");
}

#[test]
fn test_row_count_matches_valid_records() {
    let lines = lines_of(&[
        "# User@Host: a @ h1",
        "# Thread_id: 1  Schema: s  QC_hit: No",
        "# User@Host: b @ h2",
        "SELECT 2;",
        "# User@Host: c @ h3",
        "# Thread_id: 3  Schema: s  QC_hit: No",
    ]);
    let rows = convert_lines(&lines);
    assert_eq!(rows.len(), 2);
    assert_eq!(rows[0][3], "1");
    assert_eq!(rows[1][3], "3");
}

#[test]
fn test_malformed_numeric_field_defaults_to_zero() {
    let lines = lines_of(&[
        "# User@Host: a @ h",
        "# Thread_id: 1  Schema: s  QC_hit: No",
        "# Query_time: 1.5  Lock_time: 0.0  Rows_sent: abc  Rows_examined: 10",
        "SELECT 1;",
    ]);
    let rows = convert_lines(&lines);
    assert_eq!(rows.len(), 1);
    assert_eq!(rows[0][9], "0");
    assert_eq!(rows[0][11], "0");
    assert_eq!(rows[0][12], "0");
    assert_eq!(rows[0][8], "SELECT 1;");
}

#[test]
fn test_incomplete_record_is_dropped() {
    let lines = lines_of(&["# User@Host: a @ h", "SELECT 1;"]);
    let rows = convert_lines(&lines);
    assert_eq!(rows.len(), 0);
}

#[test]
fn test_metadata_before_first_connection_header() {
    let lines = lines_of(&["# Thread_id: 7  Schema: s  QC_hit: No"]);
    let rows = convert_lines(&lines);
    assert_eq!(rows.len(), 1);
    assert_eq!(rows[0][1], "");
    assert_eq!(rows[0][3], "7");
}

#[test]
fn test_converter_step_flushes_on_next_header() {
    let mut conv = Converter::new();
    assert!(conv.step("# User@Host: a @ h1").is_none());
    assert!(conv.step("# Thread_id: 1  Schema: s  QC_hit: No").is_none());
    let flushed = conv.step("# User@Host: b @ h2");
    let rec: SlowQueryEntry = flushed.expect("the first record flushes here");
    assert_eq!(rec.thread_id, "1");
    assert_eq!(rec.user, "a");
    assert_eq!(rec.host, "h1");
    let last = conv.finish();
    assert!(last.is_none());
}

#[test]
fn test_converter_finish_flushes_pending() {
    let mut conv = Converter::new();
    assert!(conv.step("# User@Host: a @ h").is_none());
    assert!(conv.step("# Thread_id: 9  Schema: s  QC_hit: Yes").is_none());
    assert!(conv.step("SELECT 3;").is_none());
    let rec = conv.finish().expect("the pending record flushes at end of input");
    assert_eq!(rec.thread_id, "9");
    assert_eq!(rec.query, "SELECT 3;\n");
}

#[test]
fn test_record_is_valid() {
    let mut rec = SlowQueryEntry::new(String::new());
    assert!(!rec.is_valid());
    rec.thread_id = "4".to_string();
    assert!(rec.is_valid());
}

#[test]
fn test_all_metadata_columns() {
    let lines = lines_of(&[
        "# User@Host: u @ h",
        "# Thread_id: 1  Schema: db  QC_hit: No",
        "# Query_time: 0.25  Lock_time: 0.01  Rows_sent: 2  Rows_examined: 20",
        "# Rows_affected: 3  Bytes_sent: 404",
        "# Tmp_tables: 2  Tmp_disk_tables: 1  Tmp_table_sizes: 65536",
        "# Full_scan: Yes  Full_join: No  Tmp_table: Yes  Tmp_table_on_disk: No",
        "# Filesort: Yes  Filesort_on_disk: No  Merge_passes: 7  Priority_queue: No",
        "SELECT * FROM t;",
    ]);
    let rows = convert_lines(&lines);
    assert_eq!(rows.len(), 1);
    let row = &rows[0];
    assert_eq!(row[9], "0.25");
    assert_eq!(row[10], "0.01");
    assert_eq!(row[11], "2");
    assert_eq!(row[12], "20");
    assert_eq!(row[13], "3");
    assert_eq!(row[14], "404");
    assert_eq!(row[15], "2");
    assert_eq!(row[16], "1");
    assert_eq!(row[17], "65536");
    assert_eq!(row[18], "Yes");
    assert_eq!(row[19], "No");
    assert_eq!(row[20], "Yes");
    assert_eq!(row[21], "No");
    assert_eq!(row[22], "Yes");
    assert_eq!(row[23], "No");
    assert_eq!(row[24], "7");
    assert_eq!(row[25], "No");
}
