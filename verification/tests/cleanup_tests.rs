use slow_query_converter::cleanup::cleanup_query;
use slow_query_converter::text::{normalize_decimal_str, u64_to_string};

#[test]
fn test_cleanup_round_trip() {
    let c = cleanup_query("SET timestamp=123;\nuse mydb;\nSELECT 1;");
    assert_eq!(c.set_timestamp, "SET timestamp=123;");
    assert_eq!(c.use_schema, "use mydb;");
    assert_eq!(c.query, "SELECT 1;");
}

#[test]
fn test_cleanup_idempotent() {
    let c1 = cleanup_query("SET timestamp=123;\nuse mydb;\nSELECT 1;\n");
    let c2 = cleanup_query(&c1.query);
    assert_eq!(c2.set_timestamp, "");
    assert_eq!(c2.use_schema, "");
    assert_eq!(c2.query, c1.query);
}

#[test]
fn test_cleanup_case_insensitive() {
    let c = cleanup_query("set TIMESTAMP=99;\nUSE `mydb`;\nSELECT 2;");
    assert_eq!(c.set_timestamp, "set TIMESTAMP=99;");
    assert_eq!(c.use_schema, "USE `mydb`;");
    assert_eq!(c.query, "SELECT 2;");
}

#[test]
fn test_cleanup_without_directives() {
    let c = cleanup_query("SELECT a FROM b WHERE c = 1;");
    assert_eq!(c.set_timestamp, "");
    assert_eq!(c.use_schema, "");
    assert_eq!(c.query, "SELECT a FROM b WHERE c = 1;");
}

#[test]
fn test_cleanup_preserves_internal_line_breaks() {
    let c = cleanup_query("SET timestamp=5;\nSELECT a\nFROM b;\n");
    assert_eq!(c.set_timestamp, "SET timestamp=5;");
    assert_eq!(c.query, "SELECT a\nFROM b;");
}

#[test]
fn test_cleanup_requires_digits_and_semicolon() {
    let c = cleanup_query("SET timestamp=abc;\nSELECT 1;");
    assert_eq!(c.set_timestamp, "");
    assert_eq!(c.query, "SET timestamp=abc;\nSELECT 1;");
}

#[test]
fn test_normalize_decimal() {
    assert_eq!(normalize_decimal_str("1.5"), "1.5");
    assert_eq!(normalize_decimal_str("0.0"), "0");
    assert_eq!(normalize_decimal_str("01.50"), "1.5");
    assert_eq!(normalize_decimal_str(".5"), "0.5");
    assert_eq!(normalize_decimal_str("1."), "1");
    assert_eq!(normalize_decimal_str("000"), "0");
    assert_eq!(normalize_decimal_str("1.2.3"), "0");
}

#[test]
fn test_u64_to_string() {
    assert_eq!(u64_to_string(0), "0");
    assert_eq!(u64_to_string(42), "42");
    assert_eq!(u64_to_string(18446744073709551615), "18446744073709551615");
}
