use heartbeat::api::{handle_fail, handle_list, handle_ping, handle_set_paused, HeartbeatQuery};
use heartbeat::cycle::{plan_overdue, run_check_cycle, AlertKind};
use heartbeat::model::{Monitor, MonitorStatus};
use heartbeat::store::MemoryStore;

fn monitor(slug: &str, next_due: i64, last_alerted_at: Option<i64>, paused: Option<bool>) -> Monitor {
    Monitor {
        slug: slug.to_string(),
        interval_secs: 300,
        last_ping: 1000,
        next_due,
        check_partition: "CHECK".to_string(),
        last_alerted_at,
        alert_count: last_alerted_at.map(|_| 1),
        created_at: 1000,
        paused,
        expires_at: 1000 + 90 * 86400,
    }
}

#[test]
fn upsert_preserves_created_at_and_alert_state() {
    let mut store = MemoryStore::new();
    let mut first = monitor("svc", 1300, None, None);
    first.created_at = 111;
    store.upsert(&first);
    store.update_alert_state("svc", 2000, 3);

    let mut again = monitor("svc", 9999, None, None);
    again.created_at = 222;
    store.upsert(&again);

    let row = store.get("svc").unwrap();
    assert_eq!(row.created_at, 111, "created_at must survive later upserts");
    assert_eq!(row.last_alerted_at, Some(2000), "alert state belongs to the cycle");
    assert_eq!(row.alert_count, Some(3));
    assert_eq!(row.next_due, 9999, "cadence fields are overwritten");
}

#[test]
fn store_management_operations() {
    let mut store = MemoryStore::new();
    store.upsert(&monitor("svc", 1300, None, None));
    assert!(store.set_paused("svc", true).is_ok());
    assert_eq!(store.get("svc").unwrap().paused, Some(true));
    assert!(store.set_paused("missing", true).is_err());
    assert!(store.delete("svc").is_ok());
    assert!(store.get("svc").is_none());
    assert!(store.delete("svc").is_err());
}

#[test]
fn first_alert_transition_on_delivery() {
    let mut store = MemoryStore::new();
    store.upsert(&monitor("svc", 1300, None, None));

    let now = 2000;
    let (plan, _) = run_check_cycle(&mut store, &vec![true], now);
    assert_eq!(plan.len(), 1);
    assert_eq!(plan[0].kind, AlertKind::First);
    assert!(plan[0].message.contains("OVERDUE"));
    assert!(plan[0].message.contains("`svc`"));

    let row = store.get("svc").unwrap();
    assert_eq!(row.last_alerted_at, Some(now));
    assert_eq!(row.alert_count, Some(1));
}

#[test]
fn failed_delivery_leaves_alert_state_untouched() {
    let mut store = MemoryStore::new();
    store.upsert(&monitor("svc", 1300, None, None));

    let (plan, _) = run_check_cycle(&mut store, &vec![false], 2000);
    assert_eq!(plan.len(), 1, "the alert is still attempted");

    let row = store.get("svc").unwrap();
    assert!(row.last_alerted_at.is_none(), "no delivery, no bookkeeping");
    assert!(row.alert_count.is_none());
}

#[test]
fn repeat_fires_only_after_an_hour() {
    // last alert at 1000: at 4599 nothing, at 4600 the repeat fires
    let too_soon = vec![monitor("svc", 900, Some(1000), None)];
    assert!(plan_overdue(&too_soon, 4599).is_empty());

    let due = vec![monitor("svc", 900, Some(1000), None)];
    let plan = plan_overdue(&due, 4600);
    assert_eq!(plan.len(), 1);
    assert_eq!(plan[0].kind, AlertKind::Repeat);
    assert_eq!(plan[0].new_alert_count, 2);
    assert!(plan[0].message.contains("STILL OVERDUE"));
}

#[test]
fn recovery_clears_alert_state() {
    let mut store = MemoryStore::new();
    // alerted earlier, but no longer overdue
    store.upsert(&monitor("svc", 99_999, None, None));
    store.update_alert_state("svc", 1500, 1);

    let (plan, _) = run_check_cycle(&mut store, &vec![true], 2000);
    assert_eq!(plan.len(), 1);
    assert_eq!(plan[0].kind, AlertKind::Recovery);
    assert!(plan[0].message.contains("RECOVERED"));

    let row = store.get("svc").unwrap();
    assert!(row.last_alerted_at.is_none());
    assert!(row.alert_count.is_none());
}

#[test]
fn paused_monitor_is_neither_alerted_nor_recovered() {
    let mut store = MemoryStore::new();
    // overdue and paused: no alert
    store.upsert(&monitor("paused-due", 1300, None, None));
    assert!(store.set_paused("paused-due", true).is_ok());
    // alerted, not overdue, but paused: no recovery either
    store.upsert(&monitor("paused-alerted", 99_999, None, None));
    store.update_alert_state("paused-alerted", 1500, 1);
    assert!(store.set_paused("paused-alerted", true).is_ok());

    let (plan, _) = run_check_cycle(&mut store, &vec![true, true], 2000);
    assert!(plan.is_empty());

    let row = store.get("paused-alerted").unwrap();
    assert_eq!(row.last_alerted_at, Some(1500), "pause leaves alert fields as they were");
}

#[test]
fn end_to_end_ping_alert_recover() {
    let mut store = MemoryStore::new();
    let interval = HeartbeatQuery { interval: Some("5m".to_string()) };

    // first ping creates the monitor, healthy at now
    let now0 = 1_000;
    let resp = handle_ping(&mut store, "svc-a", &interval, now0).unwrap();
    assert!(resp.ok);
    assert_eq!(resp.status, MonitorStatus::Healthy);
    assert_eq!(store.get("svc-a").unwrap().next_due, now0 + 300);

    // past next_due the cycle sends the first alert
    let now1 = now0 + 400;
    let (plan1, _) = run_check_cycle(&mut store, &vec![true], now1);
    assert_eq!(plan1.len(), 1);
    assert_eq!(plan1[0].kind, AlertKind::First);
    assert_eq!(store.get("svc-a").unwrap().alert_count, Some(1));

    // pinging again goes back to healthy; the alert fields survive the upsert
    let now2 = now1 + 10;
    let resp2 = handle_ping(&mut store, "svc-a", &HeartbeatQuery { interval: None }, now2).unwrap();
    assert_eq!(resp2.status, MonitorStatus::Healthy);
    assert_eq!(store.get("svc-a").unwrap().alert_count, Some(1));

    // the next cycle finds it alerted but no longer overdue: recovery
    let now3 = now2 + 10;
    let (plan2, _) = run_check_cycle(&mut store, &vec![true], now3);
    assert_eq!(plan2.len(), 1);
    assert_eq!(plan2[0].kind, AlertKind::Recovery);
    let row = store.get("svc-a").unwrap();
    assert!(row.last_alerted_at.is_none());
    assert!(row.alert_count.is_none());
}

#[test]
fn fail_call_forces_immediate_overdue() {
    let mut store = MemoryStore::new();
    handle_ping(&mut store, "svc-b", &HeartbeatQuery { interval: Some("10m".to_string()) }, 1_000)
        .unwrap();
    let resp = handle_fail(&mut store, "svc-b", 1_050).unwrap();
    assert!(resp.ok);
    assert_eq!(resp.status, MonitorStatus::Overdue);
    let row = store.get("svc-b").unwrap();
    assert_eq!(row.next_due, 0);
    assert_eq!(row.interval_secs, 600, "a fail call keeps the known interval");
}

#[test]
fn listing_is_sorted_by_slug() {
    let mut store = MemoryStore::new();
    let no_interval = HeartbeatQuery { interval: None };
    handle_ping(&mut store, "zeta", &no_interval, 1_000).unwrap();
    handle_ping(&mut store, "alpha", &no_interval, 1_000).unwrap();
    handle_ping(&mut store, "mid-9", &no_interval, 1_000).unwrap();
    assert!(handle_set_paused(&mut store, "mid-9", true).is_ok());

    let listing = handle_list(&store, 1_100);
    let slugs: Vec<String> = listing.monitors.iter().map(|i| i.slug.clone()).collect();
    assert_eq!(slugs, vec!["alpha".to_string(), "mid-9".to_string(), "zeta".to_string()]);
    assert_eq!(listing.monitors[1].status, MonitorStatus::Paused);
    assert_eq!(listing.monitors[0].status, MonitorStatus::Healthy);
}

#[test]
fn ping_response_renders_due_time() {
    let mut store = MemoryStore::new();
    let resp = handle_ping(&mut store, "svc-c", &HeartbeatQuery { interval: None }, 0).unwrap();
    // due 300 seconds past the epoch, in RFC 3339 form
    assert!(resp.next_due.starts_with("1970-01-01T00:05:00"));
}

#[test]
fn invalid_slug_is_rejected_at_the_boundary() {
    let mut store = MemoryStore::new();
    match handle_ping(&mut store, "Bad Slug", &HeartbeatQuery { interval: None }, 1_000) {
        Err(heartbeat::api::ApiError::InvalidSlug(m)) => {
            assert_eq!(m, "slug must contain only lowercase letters, digits, and hyphens");
        }
        other => panic!("expected InvalidSlug, got {:?}", other),
    }
    assert!(store.get("Bad Slug").is_none());
}
