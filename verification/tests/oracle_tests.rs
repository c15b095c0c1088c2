//! Cross-checks of the hand-written scanners against a regex oracle and a
//! chrono oracle, over a corpus of ASCII lines.

use chrono::NaiveDateTime;
use regex::Regex;
use slow_query_converter::classify::{classify_line, LineKind};
use slow_query_converter::cleanup::cleanup_query;
use slow_query_converter::timefmt::format_log_time;

const CORPUS: &[&str] = &[
    "# Time: 230101 10:00:00",
    "# Time: 230101 9:5:3",
    "# Time:    240229 23:59:59   ",
    "# Time: nonsense",
    "# Time:",
    "# User@Host: root[root] @ localhost []",
    "# User@Host: admin @ [10.0.0.7]",
    "# User@Host: backup_user[backup] @  [192.168.1.10]",
    "# User@Host: noat",
    "# User@Host: a @",
    "# Thread_id: 5  Schema: test  QC_hit: No",
    "# Thread_id: 42  Schema:   QC_hit: Yes",
    "# Thread_id: 42  Schema: QC_hit: Yes",
    "# Thread_id: 7  Schema: my db  QC_hit: No",
    "# Thread_id: x  Schema: test  QC_hit: No",
    "# Thread_id: 5  Schema: test",
    "# Query_time: 1.5  Lock_time: 0.0  Rows_sent: 1  Rows_examined: 10",
    "# Query_time: 0.000123  Lock_time: 12.250  Rows_sent: 0  Rows_examined: 0",
    "# Query_time: 1.2.3  Lock_time: .5  Rows_sent: 3  Rows_examined: 4",
    "# Query_time: 1.5  Lock_time: 0.0  Rows_sent: abc  Rows_examined: 10",
    "# Rows_affected: 3  Bytes_sent: 128",
    "# Rows_affected: 99999999999999999999  Bytes_sent: 1",
    "# Rows_affected: 1 Bytes_sent: 2 trailing junk",
    "# Tmp_tables: 2  Tmp_disk_tables: 1  Tmp_table_sizes: 4096",
    "# Tmp_tables: 2  Tmp_disk_tables: 1",
    "# Full_scan: Yes  Full_join: No  Tmp_table: Yes  Tmp_table_on_disk: No",
    "# Filesort: Yes  Filesort_on_disk: No  Merge_passes: 7  Priority_queue: No",
    "# Filesort: Yes  Filesort_on_disk: No  Merge_passes: x  Priority_queue: No",
    "/usr/sbin/mysqld, Version: 10.6.12-MariaDB-log (MariaDB Server). started with:",
    "started with:   ",
    "restarted with:",
    "Tcp port: 3306  Unix socket: /run/mysqld/mysqld.sock",
    "Time\t\t    Id Command\tArgument",
    "Time Id Commander",
    "Timestamp Id Command",
    "SELECT 1;",
    "  indented body line",
    "",
    "   ",
    "# unknown comment",
    "#",
    "# Time:  230101 10:00:00",
    "# User@Host: a @ b @ c",
    "# User@Host: [strange][user] @ [h]  ",
    "# Thread_id: 5  Schema: a[b  QC_hit: Yes",
    "# Thread_id: 10 Schema: s QC_hit: No extra words",
    "# Query_time: 00.500  Lock_time: 2.  Rows_sent: 18446744073709551616  Rows_examined: 1",
];

fn re_find_first(re: &Regex, line: &str) -> Option<(usize, usize)> {
    re.find(line).map(|m| (m.start(), m.end()))
}

#[test]
fn test_classifier_matches_regex_oracle() {
    let re_time = Regex::new(r"^# Time: (.*)").unwrap();
    let re_user_host = Regex::new(r"^# User@Host: (.*?) @\s*(.*)").unwrap();
    let re_m1 = Regex::new(r"^# Thread_id: (\d+)\s+Schema: (.*?)\s+QC_hit: (\S+)").unwrap();
    let re_m2 = Regex::new(
        r"^# Query_time: ([\d.]+)\s+Lock_time: ([\d.]+)\s+Rows_sent: (\d+)\s+Rows_examined: (\d+)",
    )
    .unwrap();
    let re_m3 = Regex::new(r"^# Rows_affected: (\d+)\s+Bytes_sent: (\d+)").unwrap();
    let re_m4 =
        Regex::new(r"^# Tmp_tables: (\d+)\s+Tmp_disk_tables: (\d+)\s+Tmp_table_sizes: (\d+)")
            .unwrap();
    let re_m5 = Regex::new(
        r"^# Full_scan: (\S+)\s+Full_join: (\S+)\s+Tmp_table: (\S+)\s+Tmp_table_on_disk: (\S+)",
    )
    .unwrap();
    let re_m6 = Regex::new(
        r"^# Filesort: (\S+)\s+Filesort_on_disk: (\S+)\s+Merge_passes: (\d+)\s+Priority_queue: (\S+)",
    )
    .unwrap();
    let re_skip1 = Regex::new(r"started with:\s*$").unwrap();
    let re_skip2 = Regex::new(r"^((Tcp port:)|(Time\s+Id\s+Command))").unwrap();

    for line in CORPUS {
        let got = classify_line(line);
        if re_skip1.is_match(line) || re_skip2.is_match(line) {
            assert!(matches!(got, LineKind::Skip), "skip: {line}");
        } else if let Some(caps) = re_time.captures(line) {
            let want = caps.get(1).map_or("", |m| m.as_str()).trim();
            match got {
                LineKind::Time(t) => assert_eq!(t, want, "time: {line}"),
                _ => panic!("expected time header: {line}"),
            }
        } else if let Some(caps) = re_user_host.captures(line) {
            let user_full = caps.get(1).map_or("", |m| m.as_str()).trim();
            let want_user = user_full.split('[').next().unwrap_or("");
            let host_full = caps.get(2).map_or("", |m| m.as_str()).trim();
            let want_host = host_full.trim_matches(|c| c == '[' || c == ']' || c == ' ');
            match got {
                LineKind::UserHost(u, h) => {
                    assert_eq!(u, want_user, "user: {line}");
                    assert_eq!(h, want_host, "host: {line}");
                }
                _ => panic!("expected connection header: {line}"),
            }
        } else if let Some(caps) = re_m1.captures(line) {
            match got {
                LineKind::ThreadInfo(tid, schema, qc) => {
                    assert_eq!(tid, caps.get(1).map_or("", |m| m.as_str()), "tid: {line}");
                    assert_eq!(schema, caps.get(2).map_or("", |m| m.as_str()).trim(), "{line}");
                    assert_eq!(qc, caps.get(3).map_or("", |m| m.as_str()).trim(), "{line}");
                }
                _ => panic!("expected thread-id header: {line}"),
            }
        } else if let Some(caps) = re_m2.captures(line) {
            let want_qt = caps
                .get(1)
                .map_or(0.0, |m| m.as_str().parse().unwrap_or(0.0))
                .to_string();
            let want_lt = caps
                .get(2)
                .map_or(0.0, |m| m.as_str().parse().unwrap_or(0.0))
                .to_string();
            let want_rs: u64 = caps.get(3).map_or(0, |m| m.as_str().parse().unwrap_or(0));
            let want_re: u64 = caps.get(4).map_or(0, |m| m.as_str().parse().unwrap_or(0));
            match got {
                LineKind::QueryStats(qt, lt, rs, re) => {
                    assert_eq!(qt, want_qt, "{line}");
                    assert_eq!(lt, want_lt, "{line}");
                    assert_eq!(rs, want_rs, "{line}");
                    assert_eq!(re, want_re, "{line}");
                }
                _ => panic!("expected query-stats header: {line}"),
            }
        } else if let Some(caps) = re_m3.captures(line) {
            let a: u64 = caps.get(1).map_or(0, |m| m.as_str().parse().unwrap_or(0));
            let b: u64 = caps.get(2).map_or(0, |m| m.as_str().parse().unwrap_or(0));
            assert!(
                matches!(got, LineKind::RowStats(x, y) if x == a && y == b),
                "row stats: {line}"
            );
        } else if let Some(caps) = re_m4.captures(line) {
            let a: u64 = caps.get(1).map_or(0, |m| m.as_str().parse().unwrap_or(0));
            let b: u64 = caps.get(2).map_or(0, |m| m.as_str().parse().unwrap_or(0));
            let c: u64 = caps.get(3).map_or(0, |m| m.as_str().parse().unwrap_or(0));
            assert!(
                matches!(got, LineKind::TmpTables(x, y, z) if x == a && y == b && z == c),
                "tmp tables: {line}"
            );
        } else if let Some(caps) = re_m5.captures(line) {
            match got {
                LineKind::ScanFlags(a, b, c, d) => {
                    assert_eq!(a, caps.get(1).map_or("", |m| m.as_str()).trim(), "{line}");
                    assert_eq!(b, caps.get(2).map_or("", |m| m.as_str()).trim(), "{line}");
                    assert_eq!(c, caps.get(3).map_or("", |m| m.as_str()).trim(), "{line}");
                    assert_eq!(d, caps.get(4).map_or("", |m| m.as_str()).trim(), "{line}");
                }
                _ => panic!("expected scan flags: {line}"),
            }
        } else if let Some(caps) = re_m6.captures(line) {
            let m: u64 = caps.get(3).map_or(0, |m| m.as_str().parse().unwrap_or(0));
            match got {
                LineKind::SortFlags(a, b, mp, p) => {
                    assert_eq!(a, caps.get(1).map_or("", |m| m.as_str()).trim(), "{line}");
                    assert_eq!(b, caps.get(2).map_or("", |m| m.as_str()).trim(), "{line}");
                    assert_eq!(mp, m, "{line}");
                    assert_eq!(p, caps.get(4).map_or("", |m| m.as_str()).trim(), "{line}");
                }
                _ => panic!("expected sort flags: {line}"),
            }
        } else if !line.starts_with('#') && !line.trim().is_empty() {
            assert!(
                matches!(got, LineKind::Body(ref l) if l == line),
                "body: {line}"
            );
        } else {
            assert!(matches!(got, LineKind::Ignored), "ignored: {line}");
        }
    }
}

const TIME_CORPUS: &[&str] = &[
    "230101 10:00:00",
    "230101 9:5:3",
    "690101 0:0:0",
    "680101 0:0:0",
    "990131 23:59:59",
    "000101 0:0:0",
    "240229 12:30:45",
    "230229 12:30:45",
    "231301 10:00:00",
    "230132 10:00:00",
    "230101 24:00:00",
    "230101 10:60:00",
    "230101 10:00:61",
    "230101",
    "230101 10:00:00 extra",
    "  230101  10:00:00  ",
    "abcdef 10:00:00",
    "230101 100:00:00",
    "",
];

#[test]
fn test_time_formatting_matches_chrono_oracle() {
    for raw in TIME_CORPUS {
        let combined: String = raw.split_whitespace().collect::<Vec<&str>>().join(" ");
        let want = NaiveDateTime::parse_from_str(&combined, "%y%m%d %H:%M:%S")
            .map(|dt| dt.format("%Y-%m-%d %H:%M:%S").to_string())
            .ok();
        let got = format_log_time(raw);
        assert_eq!(got, want, "time value: {raw}");
    }
}

const QUERY_CORPUS: &[&str] = &[
    "SET timestamp=123;\nuse mydb;\nSELECT 1;\n",
    "SET timestamp=1672566000;\nSELECT 1;\n",
    "use `quoted`;\nSELECT 2;\n",
    "set TIMESTAMP=99;\nUSE other_db;\nSELECT 3;\n",
    "SELECT a FROM b;\n",
    "SELECT 'use x;' FROM t;\n",
    "  SET timestamp=5;   \n\nSELECT c\nFROM d;\n",
    "SET timestamp=;\nSELECT 1;\n",
    "SET timestamp=7\nSELECT 1;\n",
    "use `broken;\nSELECT 1;\n",
    "prefix SET timestamp=8; suffix\n",
    "refuse mydb;\n",
    "use a;\nuse b;\nSELECT 1;\n",
    "SET timestamp=1; SET timestamp=2;\n",
    "x\tSET timestamp=3;\ty\n",
    "use mydb`;\n",
    "",
];

#[test]
fn test_cleanup_matches_regex_oracle() {
    let re_set = Regex::new(r"(?i)\s*SET timestamp=\d+;\s*").unwrap();
    let re_use = Regex::new(r"(?i)\s*use `?\w+`?;\s*").unwrap();
    for q in QUERY_CORPUS {
        let want_ts = re_set.find(q).map_or(String::new(), |m| m.as_str().trim().to_string());
        let want_us = re_use.find(q).map_or(String::new(), |m| m.as_str().trim().to_string());
        let mut remaining = q.to_string();
        if let Some((s, e)) = re_find_first(&re_set, &remaining) {
            remaining = format!("{}{}", &remaining[..s], &remaining[e..]);
        }
        if let Some((s, e)) = re_find_first(&re_use, &remaining) {
            remaining = format!("{}{}", &remaining[..s], &remaining[e..]);
        }
        let got = cleanup_query(q);
        assert_eq!(got.set_timestamp, want_ts, "set directive: {q:?}");
        assert_eq!(got.use_schema, want_us, "use directive: {q:?}");
        assert_eq!(got.query, remaining.trim(), "query rest: {q:?}");
    }
}
