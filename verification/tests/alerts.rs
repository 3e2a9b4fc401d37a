use heartbeat::alerts::{
    escape_around_code_spans, escape_markdown_v2, format_duration, format_overdue, format_recovery,
    format_repeat, format_time,
};

#[test]
fn test_escape_markdown_v2() {
    assert_eq!(escape_markdown_v2("hello"), "hello".to_string());
    assert_eq!(escape_markdown_v2("a.b"), "a\\.b".to_string());
    assert_eq!(escape_markdown_v2("a_b*c"), "a\\_b\\*c".to_string());
}

#[test]
fn test_format_overdue_contains_slug() {
    let msg = format_overdue("my-job", 300, 1000, 1600);
    assert!(msg.contains("`my-job`"));
    assert!(msg.contains("OVERDUE"));
}

#[test]
fn test_format_repeat_contains_slug() {
    let msg = format_repeat("my-job", 1380);
    assert!(msg.contains("`my-job`"));
    assert!(msg.contains("STILL OVERDUE"));
}

#[test]
fn test_format_recovery_contains_slug() {
    let msg = format_recovery("my-job", 1380);
    assert!(msg.contains("`my-job`"));
    assert!(msg.contains("RECOVERED"));
}

#[test]
fn test_escape_around_code_spans_preserves_backtick_content() {
    let text = "hello `my-slug` world.end";
    let escaped = escape_around_code_spans(text);
    // Inside backticks: my-slug should NOT be escaped
    assert!(escaped.contains("`my-slug`"));
    // Outside backticks: the dot should be escaped
    assert!(escaped.contains("world\\.end"));
}

#[test]
fn escape_passes_existing_escapes_through() {
    assert_eq!(escape_around_code_spans("a\\.b"), "a\\.b".to_string());
    // a lone trailing backslash outside a span stays a lone backslash
    assert_eq!(escape_around_code_spans("x\\"), "x\\".to_string());
    // inside a code span a backslash is literal content
    assert_eq!(escape_around_code_spans("`a\\b`"), "`a\\b`".to_string());
}

#[test]
fn duration_renders_through_humantime() {
    assert_eq!(format_duration(0), "0s".to_string());
    assert_eq!(format_duration(300), "5m".to_string());
    assert_eq!(format_duration(1380), "23m".to_string());
    assert_eq!(format_duration(5400), "1h 30m".to_string());
}

#[test]
fn time_renders_through_chrono() {
    // 1000 seconds past the epoch is 00:16:40 UTC
    assert_eq!(format_time(1000), "00:16 UTC".to_string());
    assert_eq!(format_time(i64::MIN), "unknown".to_string());
}

#[test]
fn overdue_message_renders_time_and_lateness() {
    // last ping at 1000, interval 300: due at 1300, so 300s late at 1600
    let msg = format_overdue("my-job", 300, 1000, 1600);
    assert!(msg.contains("00:16 UTC"));
    assert!(msg.contains("5m late"));
    // the separators outside the code span come out escaped
    assert!(msg.contains("\\|"));
}

#[test]
fn recovery_message_keeps_pre_escaped_parentheses() {
    let msg = format_recovery("my-job", 60);
    assert!(msg.contains("\\(was down 1m\\)"));
}
