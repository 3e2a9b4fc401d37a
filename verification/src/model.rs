//! The monitor record and its derived status.

use vstd::prelude::*;

verus! {

/// Default heartbeat interval in seconds (5 minutes), used when a monitor is
/// created without an explicit interval.
pub const DEFAULT_INTERVAL_SECS: u64 = 300;

/// Record time-to-live offset in seconds (90 days): the store may
/// garbage-collect a record `TTL_SECS` after its last activity.
pub const TTL_SECS: i64 = 90 * 24 * 60 * 60;

/// Fixed discriminator value that keys the overdue index partition.
pub const CHECK_PARTITION: &'static str = "CHECK";

/// A heartbeat monitor: one watched job's expected cadence and alert state.
#[derive(Debug)]
pub struct Monitor {
    /// Unique identifier (validated as a `Slug` at the boundaries).
    pub slug: String,
    /// Expected check-in interval in seconds.
    pub interval_secs: u64,
    /// Epoch seconds of the last received ping.
    pub last_ping: i64,
    /// Epoch seconds after which the monitor is overdue; `0` after a fail
    /// call, else `last_ping + interval_secs`.
    pub next_due: i64,
    /// Constant partition discriminator for the overdue index.
    pub check_partition: String,
    /// Epoch seconds of the last alert sent; `None` means no active alert.
    pub last_alerted_at: Option<i64>,
    /// Number of consecutive alerts sent since the last recovery.
    pub alert_count: Option<u32>,
    /// Epoch seconds of the first ping; never changes after creation.
    pub created_at: i64,
    /// `Some(true)` when paused by operator action.
    pub paused: Option<bool>,
    /// Epoch seconds after which the store may expire the record.
    pub expires_at: i64,
}

/// The mathematical image of a `Monitor`.
pub ghost struct MonitorV {
    pub slug: Seq<char>,
    pub interval_secs: u64,
    pub last_ping: i64,
    pub next_due: i64,
    pub check_partition: Seq<char>,
    pub last_alerted_at: Option<i64>,
    pub alert_count: Option<u32>,
    pub created_at: i64,
    pub paused: Option<bool>,
    pub expires_at: i64,
}

impl View for Monitor {
    type V = MonitorV;

    open spec fn view(&self) -> MonitorV {
        MonitorV {
            slug: self.slug@,
            interval_secs: self.interval_secs,
            last_ping: self.last_ping,
            next_due: self.next_due,
            check_partition: self.check_partition@,
            last_alerted_at: self.last_alerted_at,
            alert_count: self.alert_count,
            created_at: self.created_at,
            paused: self.paused,
            expires_at: self.expires_at,
        }
    }
}

impl Clone for Monitor {
    fn clone(&self) -> (r: Self)
        ensures
            r@ == self@,
    {
        Monitor {
            slug: self.slug.clone(),
            interval_secs: self.interval_secs,
            last_ping: self.last_ping,
            next_due: self.next_due,
            check_partition: self.check_partition.clone(),
            last_alerted_at: self.last_alerted_at,
            alert_count: self.alert_count,
            created_at: self.created_at,
            paused: self.paused,
            expires_at: self.expires_at,
        }
    }
}

/// Derived monitor status; never persisted.
#[derive(Debug, Clone, Copy, PartialEq, Eq, Structural)]
pub enum MonitorStatus {
    /// The monitor is neither paused nor overdue (the "ok" state).
    Healthy,
    /// The monitor's due time has passed and it is not paused.
    Overdue,
    /// The monitor was paused by operator action.
    Paused,
}

/// Status precedence: paused wins unconditionally, then overdue, then ok.
pub open spec fn spec_status(m: MonitorV, now: i64) -> MonitorStatus {
    if m.paused == Some(true) {
        MonitorStatus::Paused
    } else if m.next_due < now {
        MonitorStatus::Overdue
    } else {
        MonitorStatus::Healthy
    }
}

impl MonitorStatus {
    /// Derive the status of a monitor at a given point in time.
    pub fn derive(monitor: &Monitor, now_epoch: i64) -> (r: MonitorStatus)
        ensures
            r == spec_status(monitor@, now_epoch),
    {
        match monitor.paused {
            Some(true) => MonitorStatus::Paused,
            _ => {
                if monitor.next_due < now_epoch {
                    MonitorStatus::Overdue
                } else {
                    MonitorStatus::Healthy
                }
            },
        }
    }
}

/// Status precedence law: `paused == Some(true)` yields `Paused` whatever
/// `next_due` is; otherwise `next_due < now` yields `Overdue`, else `Ok`.
pub proof fn lemma_status_precedence(m: MonitorV, now: i64)
    ensures
        m.paused == Some(true) ==> spec_status(m, now) == MonitorStatus::Paused,
        m.paused != Some(true) && m.next_due < now ==> spec_status(m, now)
            == MonitorStatus::Overdue,
        m.paused != Some(true) && m.next_due >= now ==> spec_status(m, now) == MonitorStatus::Healthy,
{
}

/// The record written by a normal ping at time `now`.
pub open spec fn pinged_monitor(slug: Seq<char>, interval_secs: u64, now: i64) -> MonitorV {
    MonitorV {
        slug: slug,
        interval_secs: interval_secs,
        last_ping: now,
        next_due: (now + interval_secs) as i64,
        check_partition: CHECK_PARTITION@,
        last_alerted_at: None,
        alert_count: None,
        created_at: now,
        paused: None,
        expires_at: (now + TTL_SECS) as i64,
    }
}

/// The record written by a fail call at time `now`: immediately overdue.
pub open spec fn failed_monitor(slug: Seq<char>, interval_secs: u64, now: i64) -> MonitorV {
    MonitorV { next_due: 0, ..pinged_monitor(slug, interval_secs, now) }
}

/// Build the monitor record for a normal ping: `next_due` lands exactly
/// `interval_secs` after the ping.
pub fn ping_monitor(slug: &crate::slug::Slug, interval_secs: u64, now: i64) -> (m: Monitor)
    requires
        now + interval_secs <= i64::MAX,
        now + TTL_SECS <= i64::MAX,
        interval_secs <= i64::MAX,
        i64::MIN <= now + TTL_SECS,
    ensures
        m@ == pinged_monitor(slug@, interval_secs, now),
        m@.next_due == m@.last_ping + interval_secs,
{
    Monitor {
        slug: slug.as_str().to_owned(),
        interval_secs,
        last_ping: now,
        next_due: now + (interval_secs as i64),
        check_partition: CHECK_PARTITION.to_owned(),
        last_alerted_at: None,
        alert_count: None,
        created_at: now,
        paused: None,
        expires_at: now + TTL_SECS,
    }
}

/// Build the monitor record for a fail call: `next_due` is forced to `0` so
/// the monitor is immediately overdue for any positive `now`.
pub fn fail_monitor(slug: &crate::slug::Slug, interval_secs: u64, now: i64) -> (m: Monitor)
    requires
        now + TTL_SECS <= i64::MAX,
        i64::MIN <= now + TTL_SECS,
    ensures
        m@ == failed_monitor(slug@, interval_secs, now),
        m@.next_due == 0,
{
    Monitor {
        slug: slug.as_str().to_owned(),
        interval_secs,
        last_ping: now,
        next_due: 0,
        check_partition: CHECK_PARTITION.to_owned(),
        last_alerted_at: None,
        alert_count: None,
        created_at: now,
        paused: None,
        expires_at: now + TTL_SECS,
    }
}

} // verus!
