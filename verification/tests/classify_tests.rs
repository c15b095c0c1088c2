use slow_query_converter::classify::{classify_line, LineKind};
use slow_query_converter::timefmt::format_log_time;

#[test]
fn test_classify_time_header() {
    match classify_line("# Time: 230101 10:00:00") {
        LineKind::Time(t) => assert_eq!(t, "230101 10:00:00"),
        _ => panic!("expected a time header"),
    }
}

#[test]
fn test_classify_user_host_strips_brackets() {
    match classify_line("# User@Host: root[root] @ localhost []") {
        LineKind::UserHost(user, host) => {
            assert_eq!(user, "root");
            assert_eq!(host, "localhost");
        }
        _ => panic!("expected a connection header"),
    }
}

#[test]
fn test_classify_user_host_plain() {
    match classify_line("# User@Host: admin @ [10.0.0.7]") {
        LineKind::UserHost(user, host) => {
            assert_eq!(user, "admin");
            assert_eq!(host, "10.0.0.7");
        }
        _ => panic!("expected a connection header"),
    }
}

#[test]
fn test_classify_thread_info() {
    match classify_line("# Thread_id: 5  Schema: test  QC_hit: No") {
        LineKind::ThreadInfo(tid, schema, qc) => {
            assert_eq!(tid, "5");
            assert_eq!(schema, "test");
            assert_eq!(qc, "No");
        }
        _ => panic!("expected a thread-id header"),
    }
}

#[test]
fn test_classify_thread_info_empty_schema() {
    match classify_line("# Thread_id: 42  Schema:   QC_hit: Yes") {
        LineKind::ThreadInfo(tid, schema, qc) => {
            assert_eq!(tid, "42");
            assert_eq!(schema, "");
            assert_eq!(qc, "Yes");
        }
        _ => panic!("expected a thread-id header"),
    }
}

#[test]
fn test_classify_query_stats() {
    match classify_line("# Query_time: 1.5  Lock_time: 0.0  Rows_sent: 1  Rows_examined: 10") {
        LineKind::QueryStats(qt, lt, rs, re) => {
            assert_eq!(qt, "1.5");
            assert_eq!(lt, "0");
            assert_eq!(rs, 1);
            assert_eq!(re, 10);
        }
        _ => panic!("expected a query-stats header"),
    }
}

#[test]
fn test_classify_row_stats() {
    match classify_line("# Rows_affected: 3  Bytes_sent: 128") {
        LineKind::RowStats(ra, bs) => {
            assert_eq!(ra, 3);
            assert_eq!(bs, 128);
        }
        _ => panic!("expected a row-stats header"),
    }
}

#[test]
fn test_classify_row_stats_overflow_defaults_zero() {
    match classify_line("# Rows_affected: 99999999999999999999  Bytes_sent: 1") {
        LineKind::RowStats(ra, bs) => {
            assert_eq!(ra, 0);
            assert_eq!(bs, 1);
        }
        _ => panic!("expected a row-stats header"),
    }
}

#[test]
fn test_classify_tmp_tables() {
    match classify_line("# Tmp_tables: 2  Tmp_disk_tables: 1  Tmp_table_sizes: 4096") {
        LineKind::TmpTables(a, b, c) => {
            assert_eq!(a, 2);
            assert_eq!(b, 1);
            assert_eq!(c, 4096);
        }
        _ => panic!("expected a tmp-tables header"),
    }
}

#[test]
fn test_classify_scan_flags() {
    match classify_line("# Full_scan: Yes  Full_join: No  Tmp_table: Yes  Tmp_table_on_disk: No") {
        LineKind::ScanFlags(a, b, c, d) => {
            assert_eq!(a, "Yes");
            assert_eq!(b, "No");
            assert_eq!(c, "Yes");
            assert_eq!(d, "No");
        }
        _ => panic!("expected a scan-flags header"),
    }
}

#[test]
fn test_classify_sort_flags() {
    match classify_line(
        "# Filesort: Yes  Filesort_on_disk: No  Merge_passes: 7  Priority_queue: No",
    ) {
        LineKind::SortFlags(a, b, m, p) => {
            assert_eq!(a, "Yes");
            assert_eq!(b, "No");
            assert_eq!(m, 7);
            assert_eq!(p, "No");
        }
        _ => panic!("expected a sort-flags header"),
    }
}

#[test]
fn test_classify_skip_lines() {
    assert!(matches!(
        classify_line("/usr/sbin/mysqld, Version: 10.6.12 started with:"),
        LineKind::Skip
    ));
    assert!(matches!(
        classify_line("Tcp port: 3306  Unix socket: /run/mysqld/mysqld.sock"),
        LineKind::Skip
    ));
    assert!(matches!(
        classify_line("Time\t\t    Id Command\tArgument"),
        LineKind::Skip
    ));
}

#[test]
fn test_classify_body_and_ignored() {
    match classify_line("SELECT 1;") {
        LineKind::Body(l) => assert_eq!(l, "SELECT 1;"),
        _ => panic!("expected body text"),
    }
    assert!(matches!(classify_line("# Unknown_header: 5"), LineKind::Ignored));
    assert!(matches!(classify_line(""), LineKind::Ignored));
    assert!(matches!(classify_line("   "), LineKind::Ignored));
}

#[test]
fn test_classify_malformed_numeric_is_not_a_header() {
    assert!(matches!(
        classify_line("# Query_time: 1.5  Lock_time: 0.0  Rows_sent: abc  Rows_examined: 10"),
        LineKind::Ignored
    ));
}

#[test]
fn test_format_log_time_basic() {
    assert_eq!(
        format_log_time("230101 10:00:00"),
        Some("2023-01-01 10:00:00".to_string())
    );
}

#[test]
fn test_format_log_time_unpadded() {
    assert_eq!(format_log_time("230101 9:5:3"), Some("2023-01-01 09:05:03".to_string()));
}

#[test]
fn test_format_log_time_century_pivot() {
    assert_eq!(format_log_time("700101 0:0:0"), Some("1970-01-01 00:00:00".to_string()));
    assert_eq!(format_log_time("690101 0:0:0"), Some("2069-01-01 00:00:00".to_string()));
}

#[test]
fn test_format_log_time_leap_day() {
    assert_eq!(format_log_time("240229 12:30:45"), Some("2024-02-29 12:30:45".to_string()));
    assert_eq!(format_log_time("230229 12:30:45"), None);
}

#[test]
fn test_format_log_time_rejects_malformed() {
    assert_eq!(format_log_time("not a date"), None);
    assert_eq!(format_log_time("231301 10:00:00"), None);
    assert_eq!(format_log_time("230101 24:00:00"), None);
    assert_eq!(format_log_time("230101"), None);
    assert_eq!(format_log_time("230101 10:00:00 extra"), None);
}
