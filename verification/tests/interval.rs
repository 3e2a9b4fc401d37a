use heartbeat::api::{resolve_interval, ApiError};
use heartbeat::interval::parse_interval;

#[test]
fn parse_humantime_minutes() {
    assert_eq!(parse_interval("5m"), Some((300, 0)));
}

#[test]
fn parse_humantime_hours() {
    assert_eq!(parse_interval("1h"), Some((3600, 0)));
}

#[test]
fn parse_humantime_seconds() {
    assert_eq!(parse_interval("30s"), Some((30, 0)));
}

#[test]
fn parse_humantime_compound() {
    assert_eq!(parse_interval("1h30m"), Some((3600 + 1800, 0)));
}

#[test]
fn parse_raw_seconds() {
    assert_eq!(parse_interval("300"), Some((300, 0)));
}

#[test]
fn parse_invalid() {
    assert_eq!(parse_interval("foo"), None);
    assert_eq!(parse_interval(""), None);
    assert_eq!(parse_interval("-5"), None);
}

#[test]
fn parse_screens_extreme_second_totals() {
    // Segments summing to the very top of the u64 seconds range could
    // overflow the shorthand parser's final carry; the digit screen keeps
    // such strings on the plain-seconds path, where they simply fail.
    assert_eq!(parse_interval("18446744073709551615s 1000ms"), None);
    assert_eq!(parse_interval("999999999999s"), None);
    // Eleven digits still go through the shorthand parser...
    assert_eq!(parse_interval("99999999999s"), Some((99_999_999_999, 0)));
    // ...and plain numbers of any length keep their numeric reading.
    assert_eq!(parse_interval("18446744073709551615"), Some((u64::MAX, 0)));
}

#[test]
fn resolve_accepts_bounds() {
    assert!(matches!(resolve_interval(&Some("30s".to_string()), None), Ok(30)));
    assert!(matches!(resolve_interval(&Some("365d".to_string()), None), Ok(31_536_000)));
}

#[test]
fn resolve_rejects_too_short() {
    match resolve_interval(&Some("5s".to_string()), None) {
        Err(ApiError::InvalidInterval(m)) => {
            assert_eq!(m, "Interval too short: minimum is 30s, got 5s".to_string());
        }
        other => panic!("expected InvalidInterval, got {:?}", other),
    }
}

#[test]
fn resolve_rejects_too_long() {
    match resolve_interval(&Some("366d".to_string()), None) {
        Err(ApiError::InvalidInterval(m)) => {
            assert_eq!(m, "Interval too long: maximum is 365d, got 31622400s".to_string());
        }
        other => panic!("expected InvalidInterval, got {:?}", other),
    }
}

#[test]
fn resolve_rejects_unparseable() {
    match resolve_interval(&Some("soon".to_string()), None) {
        Err(ApiError::InvalidInterval(m)) => {
            assert_eq!(m, "Cannot parse interval: soon".to_string());
        }
        other => panic!("expected InvalidInterval, got {:?}", other),
    }
}

#[test]
fn resolve_defaults_and_keeps_existing() {
    assert!(matches!(resolve_interval(&None, None), Ok(300)));
    assert!(matches!(resolve_interval(&None, Some(900)), Ok(900)));
}

#[test]
fn plain_number_parsing() {
    assert_eq!(heartbeat::text::parse_u64("0"), Some(0));
    assert_eq!(heartbeat::text::parse_u64("+42"), Some(42));
    assert_eq!(heartbeat::text::parse_u64("18446744073709551615"), Some(u64::MAX));
    assert_eq!(heartbeat::text::parse_u64("18446744073709551616"), None);
    assert_eq!(heartbeat::text::parse_u64("12a"), None);
    assert_eq!(heartbeat::text::parse_u64("+"), None);
}

#[test]
fn number_rendering() {
    assert_eq!(heartbeat::text::u64_to_string(0), "0".to_string());
    assert_eq!(heartbeat::text::u64_to_string(90210), "90210".to_string());
    assert_eq!(heartbeat::text::i64_to_string(-45), "-45".to_string());
    assert_eq!(
        heartbeat::text::i64_to_string(i64::MIN),
        "-9223372036854775808".to_string()
    );
}
