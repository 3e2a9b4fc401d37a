use heartbeat::model::{Monitor, MonitorStatus};
use heartbeat::slug::{Slug, SlugError};

// -- Slug tests --

#[test]
fn valid_slugs() {
    assert!(Slug::new("my-service").is_ok());
    assert!(Slug::new("a").is_ok());
    assert!(Slug::new("abc123").is_ok());
    assert!(Slug::new("nightly-backup-2").is_ok());
    assert!(Slug::new(&"a".repeat(64)).is_ok());
}

#[test]
fn rejects_empty() {
    assert!(matches!(Slug::new(""), Err(SlugError::Empty)));
}

#[test]
fn rejects_too_long() {
    let long = "a".repeat(65);
    assert!(matches!(Slug::new(&long), Err(SlugError::TooLong(65))));
}

#[test]
fn rejects_uppercase() {
    assert!(matches!(Slug::new("Hello"), Err(SlugError::InvalidCharacters)));
}

#[test]
fn rejects_spaces() {
    assert!(matches!(Slug::new("my service"), Err(SlugError::InvalidCharacters)));
}

#[test]
fn rejects_leading_hyphen() {
    assert!(matches!(Slug::new("-service"), Err(SlugError::InvalidHyphenPosition)));
}

#[test]
fn rejects_trailing_hyphen() {
    assert!(matches!(Slug::new("service-"), Err(SlugError::InvalidHyphenPosition)));
}

#[test]
fn display_and_as_ref() {
    let slug = Slug::new("test-slug").unwrap();
    assert_eq!(slug.clone().into_string(), "test-slug".to_string());
    assert_eq!(slug.as_str(), "test-slug");
}

#[test]
fn roundtrip_string_conversion() {
    let slug = Slug::new("my-slug").unwrap();
    let s: String = slug.clone().into_string();
    let back: Slug = Slug::new(&s).unwrap();
    assert_eq!(slug, back);
}

#[test]
fn slug_error_messages() {
    assert_eq!(
        Slug::new("").unwrap_err().message(),
        "slug must not be empty".to_string()
    );
    assert_eq!(
        Slug::new(&"a".repeat(65)).unwrap_err().message(),
        "slug length 65 exceeds maximum of 64".to_string()
    );
    assert_eq!(
        Slug::new("Bad!").unwrap_err().message(),
        "slug must contain only lowercase letters, digits, and hyphens".to_string()
    );
    assert_eq!(
        Slug::new("-x-").unwrap_err().message(),
        "slug must not start or end with a hyphen".to_string()
    );
}

// -- MonitorStatus tests --

fn make_monitor(next_due: i64, paused: Option<bool>) -> Monitor {
    Monitor {
        slug: "test".into(),
        interval_secs: 300,
        last_ping: 1000,
        next_due,
        check_partition: "CHECK".into(),
        last_alerted_at: None,
        alert_count: None,
        created_at: 1000,
        paused,
        expires_at: 1000 + 90 * 86400,
    }
}

#[test]
fn status_ok() {
    let m = make_monitor(2000, None);
    assert_eq!(MonitorStatus::derive(&m, 1500), MonitorStatus::Healthy);
}

#[test]
fn status_overdue() {
    let m = make_monitor(1000, None);
    assert_eq!(MonitorStatus::derive(&m, 1500), MonitorStatus::Overdue);
}

#[test]
fn status_paused() {
    let m = make_monitor(500, Some(true));
    // Paused takes precedence over overdue
    assert_eq!(MonitorStatus::derive(&m, 1500), MonitorStatus::Paused);
}

#[test]
fn status_paused_false_is_ok() {
    let m = make_monitor(2000, Some(false));
    assert_eq!(MonitorStatus::derive(&m, 1500), MonitorStatus::Healthy);
}

// -- ping/fail record construction --

#[test]
fn ping_sets_next_due_from_interval() {
    let slug = Slug::new("svc").unwrap();
    let m = heartbeat::model::ping_monitor(&slug, 300, 1000);
    assert_eq!(m.slug, "svc".to_string());
    assert_eq!(m.last_ping, 1000);
    assert_eq!(m.next_due, 1300);
    assert_eq!(m.created_at, 1000);
    assert_eq!(m.expires_at, 1000 + 90 * 24 * 60 * 60);
    assert_eq!(m.check_partition, "CHECK".to_string());
    assert!(m.last_alerted_at.is_none());
    assert!(m.alert_count.is_none());
    assert!(m.paused.is_none());
}

#[test]
fn fail_forces_next_due_zero() {
    let slug = Slug::new("svc").unwrap();
    let m = heartbeat::model::fail_monitor(&slug, 300, 1000);
    assert_eq!(m.next_due, 0);
    assert_eq!(m.last_ping, 1000);
    assert_eq!(MonitorStatus::derive(&m, 1000), MonitorStatus::Overdue);
}
