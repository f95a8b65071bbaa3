use netmon::formatter::{format_connection_count, format_duration, Formatter};

#[test]
fn test_format_duration() {
    assert_eq!(format_duration(0), "0s");
    assert_eq!(format_duration(30), "30s");
    assert_eq!(format_duration(60), "1m 0s");
    assert_eq!(format_duration(90), "1m 30s");
    assert_eq!(format_duration(3600), "1h 0m");
    assert_eq!(format_duration(3661), "1h 1m");
    assert_eq!(format_duration(86400), "1d 0h");
    assert_eq!(format_duration(90061), "1d 1h");
}

#[test]
fn test_format_connection_count() {
    assert_eq!(format_connection_count(0), "No connections");
    assert_eq!(format_connection_count(1), "1 connection");
    assert_eq!(format_connection_count(5), "5 connections");
}

#[test]
fn test_format_protocol() {
    assert_eq!(Formatter::format_protocol("tcp"), "TCP");
    assert_eq!(Formatter::format_protocol("TCP6"), "TCP6");
    assert_eq!(Formatter::format_protocol("udp"), "UDP");
    assert_eq!(Formatter::format_protocol("unknown"), "UNKNOWN");
}

#[test]
fn test_format_state() {
    assert_eq!(Formatter::format_state("ESTABLISHED"), "ESTABLISHED");
    assert_eq!(Formatter::format_state("LISTEN"), "LISTEN");
    assert_eq!(Formatter::format_state("unknown"), "unknown");
}

#[test]
fn test_truncate_string() {
    assert_eq!(Formatter::truncate_string("short", 10), "short");
    assert_eq!(Formatter::truncate_string("exactlyten", 10), "exactlyten");
    let result = Formatter::truncate_string("thisislonger", 10);
    assert_eq!(result, "thisisl...");
    assert_eq!(Formatter::truncate_string("abc", 2), "...");
    assert_eq!(Formatter::truncate_string("abc", 3), "abc");
}

#[test]
fn test_format_pid() {
    assert_eq!(Formatter::format_pid("1234"), "1234");
    assert_eq!(Formatter::format_pid("N/A"), "N/A");
}

#[test]
fn test_format_program() {
    assert_eq!(Formatter::format_program("firefox"), "firefox");
    assert_eq!(Formatter::format_program(""), "Unknown");
    assert_eq!(Formatter::format_program("N/A"), "Unknown");
}

#[test]
fn durations_at_unit_edges() {
    assert_eq!(Formatter::format_duration(59), "59s");
    assert_eq!(Formatter::format_duration(3599), "59m 59s");
    assert_eq!(Formatter::format_duration(86399), "23h 59m");
    assert_eq!(Formatter::format_duration(u64::MAX), "213503982334601d 7h");
}

use netmon::formatter::{format_bytes, format_bytes_total};

#[test]
fn test_format_bytes() {
    assert_eq!(format_bytes(0), "0.0B/s");
    assert_eq!(format_bytes(512), "512.0B/s");
    assert_eq!(format_bytes(1024), "1.0KB/s");
    assert_eq!(format_bytes(1536), "1.5KB/s");
    assert_eq!(format_bytes(1024 * 1024), "1.0MB/s");
    assert_eq!(format_bytes(1024 * 1024 * 1024), "1.0GB/s");
}

#[test]
fn test_format_bytes_total() {
    assert_eq!(format_bytes_total(0), "0.0 B");
    assert_eq!(format_bytes_total(512), "512.0 B");
    assert_eq!(format_bytes_total(1024), "1.0 KB");
    assert_eq!(format_bytes_total(1536), "1.5 KB");
    assert_eq!(format_bytes_total(1024 * 1024), "1.00 MB");
}

#[test]
fn test_format_bytes_precise() {
    assert_eq!(Formatter::format_bytes_precise(1024, 2), "1.00KB/s");
    assert_eq!(Formatter::format_bytes_precise(1536, 3), "1.500KB/s");
}

fn float_rate(n: u64, units: &[&str], last: &str, precision: usize) -> String {
    let mut v = n as f64;
    for unit in units {
        if v < 1024.0 {
            return format!("{v:.precision$}{unit}/s");
        }
        v /= 1024.0;
    }
    format!("{v:.precision$}{last}/s")
}

fn float_total(n: u64) -> String {
    let v = n as f64;
    if v < 1024.0 {
        format!("{v:.1} B")
    } else if v < 1024.0 * 1024.0 {
        format!("{:.1} KB", v / 1024.0)
    } else {
        format!("{:.2} MB", v / (1024.0 * 1024.0))
    }
}

fn sample_values() -> Vec<u64> {
    let mut values = vec![0, 1, 999, 1023, 1024, 1075, 1126, 1177, 1280, 1331, 2560, 1048575, 1048576];
    values.extend([1024 * 1024 + 5242, 1024 * 1024 * 5 / 4, (1u64 << 53) - 1, 1u64 << 53, (1u64 << 53) + 1]);
    values.extend([(1u64 << 53) + 3, (1u64 << 54) + 2, (1u64 << 54) + 6, u64::MAX, u64::MAX - 1024, 1u64 << 63]);
    let mut x: u64 = 0x9E3779B97F4A7C15;
    for _ in 0..2000 {
        x ^= x << 13;
        x ^= x >> 7;
        x ^= x << 17;
        values.push(x >> (x % 64));
    }
    for k in 0..6u32 {
        let base = 1u64 << (10 * k);
        for m in [1u64, 3, 5, 7, 9, 11, 13, 15, 25, 125, 1023, 1025] {
            values.push(base.saturating_mul(m) / 8);
            values.push(base.saturating_mul(m) / 4);
            values.push(base.saturating_mul(m) / 2);
        }
    }
    values
}

#[test]
fn byte_formats_match_float_formatting() {
    for n in sample_values() {
        assert_eq!(format_bytes(n), float_rate(n, &["B", "KB", "MB", "GB"], "TB", 1), "rate of {n}");
        assert_eq!(format_bytes_total(n), float_total(n), "total of {n}");
        for p in [0usize, 1, 2, 3, 7, 20, 60] {
            assert_eq!(
                Formatter::format_bytes_precise(n, p),
                float_rate(n, &["B", "KB", "MB", "GB", "TB"], "PB", p),
                "precise rate of {n} with {p}"
            );
        }
    }
}
