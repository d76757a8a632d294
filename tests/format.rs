use pintui::format::{
    format_duration, human_count, human_duration, human_size, parse_size, pluralize,
    truncate_path, SizeError,
};
use std::time::Duration;

// human_size

#[test]
fn test_human_size_bytes() {
    assert_eq!(human_size(0), "0 B");
    assert_eq!(human_size(100), "100 B");
    assert_eq!(human_size(1023), "1023 B");
}

#[test]
fn test_human_size_kb() {
    assert_eq!(human_size(1024), "1.0 KB");
    assert_eq!(human_size(1536), "1.5 KB");
    assert_eq!(human_size(10240), "10.0 KB");
}

#[test]
fn test_human_size_mb() {
    assert_eq!(human_size(1024 * 1024), "1.0 MB");
    assert_eq!(human_size(1024 * 1024 * 100), "100.0 MB");
}

#[test]
fn test_human_size_gb() {
    assert_eq!(human_size(1024 * 1024 * 1024), "1.0 GB");
    assert_eq!(
        human_size(1024 * 1024 * 1024 * 2 + 1024 * 1024 * 512),
        "2.5 GB"
    );
}

#[test]
fn test_human_size_tb() {
    assert_eq!(human_size(1024u64 * 1024 * 1024 * 1024), "1.00 TB");
    assert_eq!(human_size(1024u64 * 1024 * 1024 * 1024 * 2), "2.00 TB");
}

#[test]
fn human_size_below_one_kilobyte_is_plain_bytes() {
    for b in [0u64, 1, 7, 42, 512, 999, 1000, 1023] {
        assert_eq!(human_size(b), format!("{b} B"));
    }
}

#[test]
fn human_size_rounds_ties_to_even() {
    // 1280 bytes is exactly 1.25 KB; 2304 bytes is exactly 2.25 KB.
    assert_eq!(human_size(1280), "1.2 KB");
    assert_eq!(human_size(1792), "1.8 KB");
    assert_eq!(human_size(2304), "2.2 KB");
    // Just under a megabyte rounds up within the KB unit.
    assert_eq!(human_size(1024 * 1024 - 1), "1024.0 KB");
}

#[test]
fn human_size_largest_value() {
    assert_eq!(human_size(u64::MAX), "16777216.00 TB");
    assert_eq!(human_size(1024u64.pow(4) * 3 / 2), "1.50 TB");
}

// parse_size

#[test]
fn test_parse_size_bytes() {
    assert_eq!(parse_size("100").unwrap(), 100);
    assert_eq!(parse_size("100B").unwrap(), 100);
    assert_eq!(parse_size("100b").unwrap(), 100);
}

#[test]
fn test_parse_size_kb() {
    assert_eq!(parse_size("1KB").unwrap(), 1024);
    assert_eq!(parse_size("1kb").unwrap(), 1024);
    assert_eq!(parse_size("10KB").unwrap(), 10240);
}

#[test]
fn test_parse_size_mb() {
    assert_eq!(parse_size("1MB").unwrap(), 1024 * 1024);
    assert_eq!(parse_size("100MB").unwrap(), 100 * 1024 * 1024);
    assert_eq!(parse_size("1.5MB").unwrap(), (1.5 * 1024.0 * 1024.0) as u64);
}

#[test]
fn test_parse_size_gb() {
    assert_eq!(parse_size("1GB").unwrap(), 1024 * 1024 * 1024);
    assert_eq!(parse_size("2GB").unwrap(), 2 * 1024 * 1024 * 1024);
}

#[test]
fn test_parse_size_tb() {
    assert_eq!(parse_size("1TB").unwrap(), 1024u64 * 1024 * 1024 * 1024);
}

#[test]
fn test_parse_size_whitespace() {
    assert_eq!(parse_size("  100MB  ").unwrap(), 100 * 1024 * 1024);
    assert_eq!(parse_size(" 1 GB").unwrap(), 1024 * 1024 * 1024);
}

#[test]
fn test_parse_size_errors() {
    assert!(parse_size("").is_err());
    assert!(parse_size("abc").is_err());
    assert!(parse_size("MB").is_err());
    assert!(parse_size("-100MB").is_err());
}

#[test]
fn parse_size_error_kinds() {
    assert_eq!(parse_size(""), Err(SizeError::EmptyInput));
    assert_eq!(parse_size("   \t "), Err(SizeError::EmptyInput));
    assert_eq!(parse_size("abc"), Err(SizeError::InvalidNumber));
    assert_eq!(parse_size("MB"), Err(SizeError::InvalidNumber));
    assert_eq!(parse_size("1.2.3KB"), Err(SizeError::InvalidNumber));
    assert_eq!(parse_size("."), Err(SizeError::InvalidNumber));
    assert_eq!(parse_size("-100MB"), Err(SizeError::NegativeValue));
    assert_eq!(parse_size("-0.5"), Err(SizeError::NegativeValue));
}

#[test]
fn parse_size_whole_units_any_case_and_spacing() {
    assert_eq!(parse_size("7kB"), Ok(7 * 1024));
    assert_eq!(parse_size("\t3Mb\n"), Ok(3 * 1024 * 1024));
    assert_eq!(parse_size(" 12 gB "), Ok(12 * 1024 * 1024 * 1024));
    assert_eq!(parse_size("5tb"), Ok(5 * 1024u64.pow(4)));
}

#[test]
fn parse_size_fractions_round_toward_zero() {
    assert_eq!(parse_size("1.5GB"), Ok(1_610_612_736));
    assert_eq!(parse_size("0.1KB"), Ok(102));
    assert_eq!(parse_size(".5KB"), Ok(512));
    assert_eq!(parse_size("2.KB"), Ok(2048));
    assert_eq!(parse_size("+4"), Ok(4));
    assert_eq!(parse_size("-0"), Ok(0));
    assert_eq!(parse_size("99.9"), Ok(99));
}

#[test]
fn parse_size_saturates_at_the_largest_value() {
    assert_eq!(parse_size("100000000TB"), Ok(u64::MAX));
    assert_eq!(parse_size("99999999999999999999999"), Ok(u64::MAX));
}

// truncate_path

#[test]
fn test_truncate_path_short() {
    assert_eq!(truncate_path("short.txt", 20), "short.txt");
    assert_eq!(truncate_path("exact", 5), "exact");
}

#[test]
fn test_truncate_path_long() {
    assert_eq!(
        truncate_path("/very/long/path/to/file.txt", 15),
        ".../to/file.txt"
    );
}

#[test]
fn test_truncate_path_edge_cases() {
    assert_eq!(truncate_path("test", 3), "...");
    assert_eq!(truncate_path("test", 2), "...");
    assert_eq!(truncate_path("", 10), "");
}

#[test]
fn test_truncate_path_multibyte() {
    assert_eq!(truncate_path("test日", 5), "test日");
    assert_eq!(truncate_path("test日本語", 5), "...本語");
    assert_eq!(truncate_path("日本語test", 6), "...est");
    assert_eq!(truncate_path("日本語漢字", 5), "日本語漢字");
    assert_eq!(truncate_path("日本語漢字", 4), "...字");
}

#[test]
fn truncate_path_tiny_limits() {
    assert_eq!(truncate_path("abc", 2), "...");
    assert_eq!(truncate_path("日本語", 0), "...");
    assert_eq!(truncate_path("ab", 0), "...");
    assert_eq!(truncate_path("", 0), "");
}

// pluralize

#[test]
fn test_pluralize() {
    assert_eq!(pluralize(0, "file", "files"), "0 files");
    assert_eq!(pluralize(1, "file", "files"), "1 file");
    assert_eq!(pluralize(2, "file", "files"), "2 files");
    assert_eq!(pluralize(100, "item", "items"), "100 items");
}

// human_duration

#[test]
fn test_human_duration_millis() {
    assert_eq!(human_duration(Duration::from_millis(0)), "0ms");
    assert_eq!(human_duration(Duration::from_millis(500)), "500ms");
    assert_eq!(human_duration(Duration::from_millis(999)), "999ms");
}

#[test]
fn test_human_duration_seconds() {
    assert_eq!(human_duration(Duration::from_secs(1)), "1.0s");
    assert_eq!(human_duration(Duration::from_secs(5)), "5.0s");
    assert_eq!(human_duration(Duration::from_millis(5500)), "5.5s");
}

#[test]
fn test_human_duration_minutes() {
    assert_eq!(human_duration(Duration::from_secs(60)), "1m 0s");
    assert_eq!(human_duration(Duration::from_secs(90)), "1m 30s");
    assert_eq!(human_duration(Duration::from_secs(3599)), "59m 59s");
}

#[test]
fn test_human_duration_hours() {
    assert_eq!(human_duration(Duration::from_secs(3600)), "1h 0m");
    assert_eq!(human_duration(Duration::from_secs(3661)), "1h 1m");
    assert_eq!(human_duration(Duration::from_secs(7200)), "2h 0m");
}

#[test]
fn format_duration_boundaries() {
    assert_eq!(format_duration(0, 500), "500ms");
    assert_eq!(format_duration(59, 999), "59.9s");
    assert_eq!(format_duration(60, 0), "1m 0s");
    assert_eq!(format_duration(3600, 0), "1h 0m");
    assert_eq!(format_duration(90061, 250), "25h 1m");
}

// human_count

#[test]
fn test_human_count_small() {
    assert_eq!(human_count(0), "0");
    assert_eq!(human_count(1), "1");
    assert_eq!(human_count(42), "42");
    assert_eq!(human_count(999), "999");
}

#[test]
fn test_human_count_thousands() {
    assert_eq!(human_count(1_000), "1,000");
    assert_eq!(human_count(1_234), "1,234");
    assert_eq!(human_count(10_000), "10,000");
    assert_eq!(human_count(999_999), "999,999");
}

#[test]
fn test_human_count_millions() {
    assert_eq!(human_count(1_000_000), "1,000,000");
    assert_eq!(human_count(1_234_567), "1,234,567");
}

#[test]
fn test_human_count_billions() {
    assert_eq!(human_count(1_000_000_000), "1,000,000,000");
}

#[test]
fn human_count_largest_value() {
    assert_eq!(human_count(u64::MAX), "18,446,744,073,709,551,615");
}
