//! The check cycle: the alert state machine run once per external trigger.
//!
//! Each pass reads the overdue and alerted sets, decides per monitor
//! whether a first alert, repeat alert or recovery notice is due, and —
//! only on confirmed delivery — writes the alert-state transition back.

use vstd::prelude::*;

use crate::alerts::{
    escaped_outside_code, overdue_message, recovery_message, repeat_message,
};
use crate::model::{Monitor, MonitorV};
use crate::store::MemoryStore;

verus! {

/// Fixed repeat alert interval: one hour.
pub const REPEAT_ALERT_INTERVAL_SECS: i64 = 3600;

/// Timestamps and counters a stored monitor can carry without driving the
/// cycle's arithmetic out of range: epoch fields are non-negative, the
/// interval respects the ingestion bound, and the alert counter can grow.
pub open spec fn sane_monitor_times(m: MonitorV) -> bool {
    &&& 0 <= m.last_ping
    &&& 0 <= m.next_due
    &&& m.interval_secs <= crate::interval::MAX_INTERVAL_SECS
    &&& match m.last_alerted_at {
        Some(t) => 0 <= t,
        None => true,
    }
    &&& match m.alert_count {
        Some(c) => c < u32::MAX,
        None => true,
    }
}

/// What the cycle does with one monitor from the overdue scan.
#[derive(Debug, Clone, Copy, PartialEq, Eq, Structural)]
pub enum OverdueDecision {
    /// Paused: no alert, and the monitor is kept out of the set used for
    /// recovery exclusion, so it is never reported as recovered either.
    SkipPaused,
    /// No active alert yet: a first alert is due.
    FirstAlert,
    /// An alert is active and the repeat interval has elapsed.
    RepeatAlert,
    /// An alert is active but repeated too recently: nothing this cycle.
    WaitRepeat,
}

/// The decision for one overdue monitor: paused wins; else a first alert
/// when none is active; else a repeat only once the fixed interval since
/// the last alert has elapsed.
pub open spec fn spec_overdue_decision(m: MonitorV, now: i64) -> OverdueDecision {
    if m.paused == Some(true) {
        OverdueDecision::SkipPaused
    } else {
        match m.last_alerted_at {
            None => OverdueDecision::FirstAlert,
            Some(last) => if now - last >= REPEAT_ALERT_INTERVAL_SECS {
                OverdueDecision::RepeatAlert
            } else {
                OverdueDecision::WaitRepeat
            },
        }
    }
}

/// Decide what to do with one monitor from the overdue scan.
pub fn decide_overdue(monitor: &Monitor, now: i64) -> (d: OverdueDecision)
    requires
        now >= 0,
        sane_monitor_times(monitor@),
    ensures
        d == spec_overdue_decision(monitor@, now),
{
    match monitor.paused {
        Some(true) => OverdueDecision::SkipPaused,
        _ => {
            match monitor.last_alerted_at {
                None => OverdueDecision::FirstAlert,
                Some(last) => {
                    if now - last >= REPEAT_ALERT_INTERVAL_SECS {
                        OverdueDecision::RepeatAlert
                    } else {
                        OverdueDecision::WaitRepeat
                    }
                },
            }
        },
    }
}

/// Repeat alert threshold law: with an active alert (and not paused), the
/// repeat fires exactly when `now - last_alerted_at` has reached one hour.
pub proof fn lemma_repeat_threshold(m: MonitorV, now: i64, last: i64)
    requires
        m.paused != Some(true),
        m.last_alerted_at == Some(last),
    ensures
        now - last >= REPEAT_ALERT_INTERVAL_SECS <==> spec_overdue_decision(m, now)
            == OverdueDecision::RepeatAlert,
        now - last < REPEAT_ALERT_INTERVAL_SECS <==> spec_overdue_decision(m, now)
            == OverdueDecision::WaitRepeat,
{
}

/// Which notification a planned entry carries.
#[derive(Debug, Clone, Copy, PartialEq, Eq, Structural)]
pub enum AlertKind {
    /// First alert for a newly overdue monitor.
    First,
    /// Repeat alert for a still-overdue monitor.
    Repeat,
    /// Recovery notice for a previously alerted monitor.
    Recovery,
}

/// One notification the cycle will attempt, with the alert-state write
/// that a confirmed delivery earns.
#[derive(Debug)]
pub struct PlannedNotification {
    /// The monitor's slug.
    pub slug: String,
    /// The fully formatted, escaped message text.
    pub message: String,
    /// Which kind of notification this is.
    pub kind: AlertKind,
    /// The alert count to write on confirmed delivery (unused for
    /// recovery, which clears the count instead).
    pub new_alert_count: u32,
}

/// The mathematical image of a `PlannedNotification`.
pub ghost struct PlannedV {
    pub slug: Seq<char>,
    pub message: Seq<char>,
    pub kind: AlertKind,
    pub new_alert_count: u32,
}

impl View for PlannedNotification {
    type V = PlannedV;

    open spec fn view(&self) -> PlannedV {
        PlannedV {
            slug: self.slug@,
            message: self.message@,
            kind: self.kind,
            new_alert_count: self.new_alert_count,
        }
    }
}

/// The views of a sequence of monitors.
pub open spec fn row_views(s: Seq<Monitor>) -> Seq<MonitorV> {
    Seq::new(s.len(), |i: int| s[i]@)
}

/// The views of a sequence of planned notifications.
pub open spec fn plan_views(s: Seq<PlannedNotification>) -> Seq<PlannedV> {
    Seq::new(s.len(), |i: int| s[i]@)
}

/// The alert count written after one more alert: one past the current
/// count, starting from zero when none is recorded.
pub open spec fn next_alert_count(c: Option<u32>) -> u32 {
    (match c {
        Some(c) => c + 1,
        None => 1,
    }) as u32
}

/// `max(0, now - since)`, as an unsigned duration.
pub open spec fn spec_downtime(since: i64, now: i64) -> u64 {
    if now - since <= 0 {
        0u64
    } else {
        (now - since) as u64
    }
}

/// The entry planned for a first alert on `m`.
pub open spec fn first_alert_planned(m: MonitorV, now: i64) -> PlannedV {
    PlannedV {
        slug: m.slug,
        message: escaped_outside_code(
            overdue_message(m.slug, m.interval_secs, m.last_ping, now),
            false,
        ),
        kind: AlertKind::First,
        new_alert_count: next_alert_count(m.alert_count),
    }
}

/// The entry planned for a repeat alert on `m`, whose total downtime runs
/// from its due time.
pub open spec fn repeat_alert_planned(m: MonitorV, now: i64) -> PlannedV {
    PlannedV {
        slug: m.slug,
        message: escaped_outside_code(repeat_message(m.slug, spec_downtime(m.next_due, now)), false),
        kind: AlertKind::Repeat,
        new_alert_count: next_alert_count(m.alert_count),
    }
}

/// The entry planned for a recovery notice on `m`, whose reported downtime
/// runs from its last alert.
pub open spec fn recovery_planned(m: MonitorV, last: i64, now: i64) -> PlannedV {
    PlannedV {
        slug: m.slug,
        message: escaped_outside_code(recovery_message(m.slug, spec_downtime(last, now)), false),
        kind: AlertKind::Recovery,
        new_alert_count: 0,
    }
}

/// The notifications the cycle attempts for the overdue scan `rows`, in
/// scan order: paused monitors are skipped, a first alert is planned where
/// no alert is active, a repeat where the repeat interval has elapsed.
pub open spec fn spec_overdue_plan(rows: Seq<MonitorV>, now: i64) -> Seq<PlannedV>
    decreases rows.len(),
{
    if rows.len() == 0 {
        Seq::empty()
    } else {
        let rest = spec_overdue_plan(rows.skip(1), now);
        match spec_overdue_decision(rows[0], now) {
            OverdueDecision::SkipPaused => rest,
            OverdueDecision::WaitRepeat => rest,
            OverdueDecision::FirstAlert => seq![first_alert_planned(rows[0], now)] + rest,
            OverdueDecision::RepeatAlert => seq![repeat_alert_planned(rows[0], now)] + rest,
        }
    }
}

/// The slugs of the non-paused overdue rows: the set that recovery
/// detection excludes. A paused monitor is left out on purpose, so that it
/// is not reported as recovered later.
pub open spec fn overdue_slug_set(rows: Seq<MonitorV>, now: i64) -> Set<Seq<char>> {
    Set::new(
        |s: Seq<char>|
            exists|i: int|
                0 <= i < rows.len() && #[trigger] rows[i].slug == s && rows[i].paused
                    != Some(true),
    )
}

/// The recovery notices the cycle attempts for the alerted scan `rows`:
/// every alerted monitor that is neither still overdue nor paused.
pub open spec fn spec_recovery_plan(
    rows: Seq<MonitorV>,
    still_overdue: Set<Seq<char>>,
    now: i64,
) -> Seq<PlannedV>
    decreases rows.len(),
{
    if rows.len() == 0 {
        Seq::empty()
    } else {
        let rest = spec_recovery_plan(rows.skip(1), still_overdue, now);
        let m = rows[0];
        if still_overdue.contains(m.slug) || m.paused == Some(true) {
            rest
        } else {
            match m.last_alerted_at {
                Some(last) => seq![recovery_planned(m, last, now)] + rest,
                None => rest,
            }
        }
    }
}

/// Plan the notifications for the overdue scan, in scan order.
pub fn plan_overdue(overdue: &Vec<Monitor>, now: i64) -> (plan: Vec<PlannedNotification>)
    requires
        now >= 0,
        forall|i: int| 0 <= i < overdue@.len() ==> sane_monitor_times(#[trigger] overdue@[i]@),
    ensures
        plan_views(plan@) == spec_overdue_plan(row_views(overdue@), now),
{
    let ghost rows = row_views(overdue@);
    let n = overdue.len();
    let mut plan: Vec<PlannedNotification> = Vec::new();
    let mut i: usize = 0;
    proof {
        assert(rows.skip(0) =~= rows);
        assert(plan_views(plan@) =~= Seq::<PlannedV>::empty());
    }
    while i < n
        invariant
            now >= 0,
            i <= n,
            n == overdue@.len(),
            rows == row_views(overdue@),
            forall|j: int| 0 <= j < overdue@.len() ==> sane_monitor_times(#[trigger] overdue@[j]@),
            spec_overdue_plan(rows, now) =~= plan_views(plan@) + spec_overdue_plan(
                rows.skip(i as int),
                now,
            ),
        decreases n - i,
    {
        let monitor = &overdue[i];
        let ghost prev = plan@;
        let ghost rest = rows.skip(i as int);
        proof {
            assert(rest.len() > 0);
            assert(rest[0] == rows[i as int]);
            assert(rows[i as int] == overdue@[i as int]@);
            assert(rest.skip(1) =~= rows.skip(i as int + 1));
        }
        match decide_overdue(monitor, now) {
            OverdueDecision::SkipPaused => {
            },
            OverdueDecision::WaitRepeat => {
            },
            OverdueDecision::FirstAlert => {
                let message = crate::alerts::format_overdue(
                    monitor.slug.as_str(),
                    monitor.interval_secs,
                    monitor.last_ping,
                    now,
                );
                let count = match monitor.alert_count {
                    Some(c) => c + 1,
                    None => 1,
                };
                let entry = PlannedNotification {
                    slug: monitor.slug.clone(),
                    message,
                    kind: AlertKind::First,
                    new_alert_count: count,
                };
                proof {
                    assert(entry@ == first_alert_planned(rows[i as int], now));
                }
                plan.push(entry);
                proof {
                    assert(plan_views(plan@) =~= plan_views(prev).push(
                        first_alert_planned(rows[i as int], now),
                    ));
                    assert(plan_views(prev).push(first_alert_planned(rows[i as int], now))
                        =~= plan_views(prev) + seq![first_alert_planned(rows[i as int], now)]);
                }
            },
            OverdueDecision::RepeatAlert => {
                let diff: i64 = now - monitor.next_due;
                let downtime: u64 = if diff <= 0 {
                    0
                } else {
                    diff as u64
                };
                proof {
                    assert(downtime == spec_downtime(monitor@.next_due, now));
                }
                let message = crate::alerts::format_repeat(monitor.slug.as_str(), downtime);
                let count = match monitor.alert_count {
                    Some(c) => c + 1,
                    None => 1,
                };
                let entry = PlannedNotification {
                    slug: monitor.slug.clone(),
                    message,
                    kind: AlertKind::Repeat,
                    new_alert_count: count,
                };
                proof {
                    assert(entry@ == repeat_alert_planned(rows[i as int], now));
                }
                plan.push(entry);
                proof {
                    assert(plan_views(plan@) =~= plan_views(prev).push(
                        repeat_alert_planned(rows[i as int], now),
                    ));
                    assert(plan_views(prev).push(repeat_alert_planned(rows[i as int], now))
                        =~= plan_views(prev) + seq![repeat_alert_planned(rows[i as int], now)]);
                }
            },
        }
        i = i + 1;
    }
    proof {
        assert(rows.skip(n as int) =~= Seq::<MonitorV>::empty());
        assert(plan_views(plan@) =~= spec_overdue_plan(rows, now));
    }
    plan
}

/// The set of slugs a vector of slug strings denotes.
pub open spec fn slug_set_of(slugs: Seq<String>) -> Set<Seq<char>> {
    Set::new(|s: Seq<char>| exists|l: int| 0 <= l < slugs.len() && #[trigger] slugs[l]@ == s)
}

/// Collect the slugs of the non-paused overdue rows, for recovery
/// exclusion.
#[verifier::rlimit(30)]
pub fn overdue_slugs(overdue: &Vec<Monitor>, now: i64) -> (slugs: Vec<String>)
    ensures
        slug_set_of(slugs@) == overdue_slug_set(row_views(overdue@), now),
{
    let n = overdue.len();
    let mut slugs: Vec<String> = Vec::new();
    let mut i: usize = 0;
    while i < n
        invariant
            i <= n,
            n == overdue@.len(),
            forall|l: int| 0 <= l < slugs@.len() ==> exists|j: int|
                0 <= j < i && #[trigger] slugs@[l]@ == overdue@[j]@.slug && overdue@[j]@.paused
                    != Some(true),
            forall|j: int|
                0 <= j < i && #[trigger] overdue@[j]@.paused != Some(true) ==> exists|l: int|
                    0 <= l < slugs@.len() && #[trigger] slugs@[l]@ == overdue@[j]@.slug,
        decreases n - i,
    {
        let paused = match overdue[i].paused {
            Some(true) => true,
            _ => false,
        };
        let ghost prev = slugs@;
        if !paused {
            slugs.push(overdue[i].slug.clone());
        }
        proof {
            if !paused {
                assert(overdue@[i as int]@.paused != Some(true));
                assert(slugs@[slugs@.len() - 1]@ == overdue@[i as int]@.slug);
            }
            assert forall|l: int| 0 <= l < slugs@.len() implies exists|j: int|
                0 <= j < i + 1 && #[trigger] slugs@[l]@ == overdue@[j]@.slug && overdue@[j]@.paused
                    != Some(true) by {
                if l < prev.len() {
                    let j = choose|j: int|
                        0 <= j < i && #[trigger] prev[l]@ == overdue@[j]@.slug
                            && overdue@[j]@.paused != Some(true);
                    assert(slugs@[l]@ == overdue@[j]@.slug && overdue@[j]@.paused != Some(true));
                } else {
                    assert(slugs@[l]@ == overdue@[i as int]@.slug && overdue@[i as int]@.paused
                        != Some(true));
                }
            }
            assert forall|j: int|
                0 <= j < i + 1 && #[trigger] overdue@[j]@.paused != Some(true) implies exists|
                l: int,
            |
                0 <= l < slugs@.len() && #[trigger] slugs@[l]@ == overdue@[j]@.slug by {
                if j < i {
                    let l = choose|l: int|
                        0 <= l < prev.len() && #[trigger] prev[l]@ == overdue@[j]@.slug;
                    assert(slugs@[l]@ == overdue@[j]@.slug);
                } else {
                    assert(slugs@[slugs@.len() - 1]@ == overdue@[j]@.slug);
                }
            }
        }
        i = i + 1;
    }
    proof {
        let rows = row_views(overdue@);
        assert forall|s: Seq<char>|
            slug_set_of(slugs@).contains(s) == overdue_slug_set(rows, now).contains(s) by {
            if slug_set_of(slugs@).contains(s) {
                let l = choose|l: int| 0 <= l < slugs@.len() && #[trigger] slugs@[l]@ == s;
                let j = choose|j: int|
                    0 <= j < n && #[trigger] slugs@[l]@ == overdue@[j]@.slug && overdue@[j]@.paused
                        != Some(true);
                assert(rows[j].slug == s && rows[j].paused != Some(true));
            }
            if overdue_slug_set(rows, now).contains(s) {
                let j = choose|j: int|
                    0 <= j < rows.len() && #[trigger] rows[j].slug == s && rows[j].paused != Some(
                        true,
                    );
                assert(overdue@[j]@.paused != Some(true));
                let l = choose|l: int|
                    0 <= l < slugs@.len() && #[trigger] slugs@[l]@ == overdue@[j]@.slug;
                assert(slugs@[l]@ == s);
            }
        }
        assert(slug_set_of(slugs@) =~= overdue_slug_set(rows, now));
    }
    slugs
}

/// Whether `slug` occurs in `slugs`.
pub fn slugs_contain(slugs: &Vec<String>, slug: &str) -> (r: bool)
    ensures
        r == slug_set_of(slugs@).contains(slug@),
{
    let n = slugs.len();
    let mut i: usize = 0;
    while i < n
        invariant
            i <= n,
            n == slugs@.len(),
            forall|l: int| 0 <= l < i ==> slugs@[l]@ != slug@,
        decreases n - i,
    {
        if crate::text::str_eq(slugs[i].as_str(), slug) {
            proof {
                assert(slugs@[i as int]@ == slug@);
            }
            return true;
        }
        i = i + 1;
    }
    proof {
        assert(!slug_set_of(slugs@).contains(slug@));
    }
    false
}

/// Plan the recovery notices for the alerted scan, in scan order: every
/// alerted monitor that is neither still overdue nor paused.
pub fn plan_recovery(alerted: &Vec<Monitor>, still_overdue: &Vec<String>, now: i64) -> (plan: Vec<
    PlannedNotification,
>)
    requires
        now >= 0,
        forall|i: int| 0 <= i < alerted@.len() ==> sane_monitor_times(#[trigger] alerted@[i]@),
    ensures
        plan_views(plan@) == spec_recovery_plan(
            row_views(alerted@),
            slug_set_of(still_overdue@),
            now,
        ),
{
    let ghost rows = row_views(alerted@);
    let ghost oset = slug_set_of(still_overdue@);
    let n = alerted.len();
    let mut plan: Vec<PlannedNotification> = Vec::new();
    let mut i: usize = 0;
    proof {
        assert(rows.skip(0) =~= rows);
        assert(plan_views(plan@) =~= Seq::<PlannedV>::empty());
    }
    while i < n
        invariant
            now >= 0,
            i <= n,
            n == alerted@.len(),
            rows == row_views(alerted@),
            oset == slug_set_of(still_overdue@),
            forall|j: int| 0 <= j < alerted@.len() ==> sane_monitor_times(#[trigger] alerted@[j]@),
            spec_recovery_plan(rows, oset, now) =~= plan_views(plan@) + spec_recovery_plan(
                rows.skip(i as int),
                oset,
                now,
            ),
        decreases n - i,
    {
        let monitor = &alerted[i];
        let ghost prev = plan@;
        let ghost rest = rows.skip(i as int);
        proof {
            assert(rest.len() > 0);
            assert(rest[0] == rows[i as int]);
            assert(rows[i as int] == alerted@[i as int]@);
            assert(rest.skip(1) =~= rows.skip(i as int + 1));
        }
        let paused = match monitor.paused {
            Some(true) => true,
            _ => false,
        };
        let skip_row = slugs_contain(still_overdue, monitor.slug.as_str()) || paused;
        if !skip_row {
            match monitor.last_alerted_at {
                Some(last) => {
                    let diff: i64 = now - last;
                    let downtime: u64 = if diff <= 0 {
                        0
                    } else {
                        diff as u64
                    };
                    proof {
                        assert(downtime == spec_downtime(last, now));
                    }
                    let message = crate::alerts::format_recovery(monitor.slug.as_str(), downtime);
                    let entry = PlannedNotification {
                        slug: monitor.slug.clone(),
                        message,
                        kind: AlertKind::Recovery,
                        new_alert_count: 0,
                    };
                    proof {
                        assert(entry@ == recovery_planned(rows[i as int], last, now));
                    }
                    plan.push(entry);
                    proof {
                        assert(plan_views(plan@) =~= plan_views(prev).push(
                            recovery_planned(rows[i as int], last, now),
                        ));
                        assert(plan_views(prev).push(recovery_planned(rows[i as int], last, now))
                            =~= plan_views(prev) + seq![
                            recovery_planned(rows[i as int], last, now),
                        ]);
                    }
                },
                None => {
                },
            }
        }
        i = i + 1;
    }
    proof {
        assert(rows.skip(n as int) =~= Seq::<MonitorV>::empty());
        assert(plan_views(plan@) =~= spec_recovery_plan(rows, oset, now));
    }
    plan
}

/// The store after acting on one planned notification: on confirmed
/// delivery the earned alert-state write lands (set for an alert, cleared
/// for a recovery); without it, nothing changes.
pub open spec fn apply_notification(
    m0: Map<Seq<char>, MonitorV>,
    p: PlannedV,
    now: i64,
    delivered: bool,
) -> Map<Seq<char>, MonitorV> {
    if !delivered || !m0.contains_key(p.slug) {
        m0
    } else if p.kind == AlertKind::Recovery {
        m0.insert(p.slug, MonitorV { last_alerted_at: None, alert_count: None, ..m0[p.slug] })
    } else {
        m0.insert(
            p.slug,
            MonitorV {
                last_alerted_at: Some(now),
                alert_count: Some(p.new_alert_count),
                ..m0[p.slug]
            },
        )
    }
}

/// The store after acting on the remaining plan, whose next entry pairs
/// with delivery outcome number `i` (an outcome past the end of
/// `deliveries` counts as a failed delivery).
pub open spec fn apply_cycle_from(
    m0: Map<Seq<char>, MonitorV>,
    plan: Seq<PlannedV>,
    deliveries: Seq<bool>,
    i: int,
    now: i64,
) -> Map<Seq<char>, MonitorV>
    decreases plan.len(),
{
    if plan.len() == 0 {
        m0
    } else {
        let delivered = 0 <= i < deliveries.len() && deliveries[i];
        apply_cycle_from(
            apply_notification(m0, plan[0], now, delivered),
            plan.skip(1),
            deliveries,
            i + 1,
            now,
        )
    }
}

/// The store after a whole cycle: plan entry `k` paired with delivery
/// outcome `k`.
pub open spec fn apply_cycle(
    m0: Map<Seq<char>, MonitorV>,
    plan: Seq<PlannedV>,
    deliveries: Seq<bool>,
    now: i64,
) -> Map<Seq<char>, MonitorV> {
    apply_cycle_from(m0, plan, deliveries, 0, now)
}

/// Act on one planned notification: the alert-state write happens only
/// when `delivered` reports confirmed delivery; a failed send leaves the
/// store untouched, so the next cycle retries from the same state.
pub fn apply_delivery(
    store: &mut MemoryStore,
    entry: &PlannedNotification,
    delivered: bool,
    now: i64,
)
    requires
        old(store).wf(),
    ensures
        final(store).wf(),
        final(store)@ == apply_notification(old(store)@, entry@, now, delivered),
{
    if delivered {
        match entry.kind {
            AlertKind::Recovery => store.clear_alert_state(entry.slug.as_str()),
            AlertKind::First => store.update_alert_state(
                entry.slug.as_str(),
                now,
                entry.new_alert_count,
            ),
            AlertKind::Repeat => store.update_alert_state(
                entry.slug.as_str(),
                now,
                entry.new_alert_count,
            ),
        }
    }
}

/// One complete reconciliation pass, self-contained: scan the store, plan
/// first alerts, repeats and recoveries, and write back exactly the
/// transitions whose notification was delivered. `deliveries[k]` is the
/// (post-retry) delivery outcome for the `k`-th planned notification; a
/// missing outcome counts as a failed delivery.
///
/// Returns the attempted notifications in order, and — since the scans
/// come back in no particular order — the ghost row sequences the plan was
/// built over, tied to the store's prior contents by the ensures.
pub fn run_check_cycle(store: &mut MemoryStore, deliveries: &Vec<bool>, now: i64) -> (r: (
    Vec<PlannedNotification>,
    Ghost<(Seq<MonitorV>, Seq<MonitorV>)>,
))
    requires
        old(store).wf(),
        now >= 0,
        forall|k: Seq<char>| #[trigger]
            old(store)@.contains_key(k) ==> sane_monitor_times(old(store)@[k]),
    ensures
        ({
            let plan = r.0;
            let odue = r.1@.0;
            let alerted = r.1@.1;
            &&& forall|l: int|
                0 <= l < odue.len() ==> crate::store::overdue_row(#[trigger] odue[l], now) && old(
                    store,
                )@.contains_key(odue[l].slug) && old(store)@[odue[l].slug] == odue[l]
            &&& forall|k: Seq<char>| #[trigger]
                old(store)@.contains_key(k) && crate::store::overdue_row(old(store)@[k], now)
                    ==> exists|l: int| 0 <= l < odue.len() && #[trigger] odue[l].slug == k
            &&& forall|l: int|
                0 <= l < alerted.len() ==> crate::store::alerted_row(#[trigger] alerted[l]) && old(
                    store,
                )@.contains_key(alerted[l].slug) && old(store)@[alerted[l].slug] == alerted[l]
            &&& forall|k: Seq<char>| #[trigger]
                old(store)@.contains_key(k) && crate::store::alerted_row(old(store)@[k])
                    ==> exists|l: int| 0 <= l < alerted.len() && #[trigger] alerted[l].slug == k
            &&& forall|l1: int, l2: int|
                0 <= l1 < l2 < odue.len() ==> odue[l1].slug != odue[l2].slug
            &&& forall|l1: int, l2: int|
                0 <= l1 < l2 < alerted.len() ==> alerted[l1].slug != alerted[l2].slug
            &&& plan_views(plan@) == spec_overdue_plan(odue, now) + spec_recovery_plan(
                alerted,
                overdue_slug_set(odue, now),
                now,
            )
            &&& final(store)@ == apply_cycle(old(store)@, plan_views(plan@), deliveries@, now)
            &&& final(store).wf()
        }),
{
    let overdue = store.query_overdue(now);
    let alerted = store.query_alerted();
    let ghost odue_rows = row_views(overdue@);
    let ghost alerted_rows = row_views(alerted@);
    proof {
        assert forall|i: int| 0 <= i < overdue@.len() implies sane_monitor_times(
            #[trigger] overdue@[i]@,
        ) by {
            assert(store@.contains_key(overdue@[i]@.slug));
        }
        assert forall|i: int| 0 <= i < alerted@.len() implies sane_monitor_times(
            #[trigger] alerted@[i]@,
        ) by {
            assert(store@.contains_key(alerted@[i]@.slug));
        }
    }
    let mut plan = plan_overdue(&overdue, now);
    let slugs = overdue_slugs(&overdue, now);
    let mut recovery = plan_recovery(&alerted, &slugs, now);
    let ghost overdue_part = plan@;
    let ghost recovery_part = recovery@;
    plan.append(&mut recovery);
    proof {
        assert(plan@ =~= overdue_part + recovery_part);
        assert forall|l: int| 0 <= l < plan@.len() implies #[trigger] plan_views(plan@)[l]
            == (plan_views(overdue_part) + plan_views(recovery_part))[l] by {
        }
        assert(plan_views(plan@) =~= plan_views(overdue_part) + plan_views(recovery_part));
        assert(plan_views(plan@) =~= spec_overdue_plan(odue_rows, now) + spec_recovery_plan(
            alerted_rows,
            overdue_slug_set(odue_rows, now),
            now,
        ));
    }
    let n = plan.len();
    let mut k: usize = 0;
    proof {
        assert(plan_views(plan@).skip(0) =~= plan_views(plan@));
    }
    while k < n
        invariant
            store.wf(),
            k <= n,
            n == plan@.len(),
            apply_cycle(old(store)@, plan_views(plan@), deliveries@, now) == apply_cycle_from(
                store@,
                plan_views(plan@).skip(k as int),
                deliveries@,
                k as int,
                now,
            ),
        decreases n - k,
    {
        let delivered = if k < deliveries.len() {
            deliveries[k]
        } else {
            false
        };
        let ghost pre = store@;
        proof {
            let pv = plan_views(plan@);
            let rest = pv.skip(k as int);
            assert(rest.len() > 0);
            assert(rest[0] == pv[k as int]);
            assert(rest.skip(1) =~= pv.skip(k as int + 1));
            assert(delivered == (0 <= k < deliveries@.len() && deliveries@[k as int]));
        }
        apply_delivery(store, &plan[k], delivered, now);
        proof {
            assert(plan@[k as int]@ == plan_views(plan@)[k as int]);
            assert(store@ == apply_notification(
                pre,
                plan_views(plan@)[k as int],
                now,
                delivered,
            ));
        }
        k = k + 1;
    }
    proof {
        assert(plan_views(plan@).skip(n as int) =~= Seq::<PlannedV>::empty());
        assert(apply_cycle_from(
            store@,
            plan_views(plan@).skip(n as int),
            deliveries@,
            n as int,
            now,
        ) == store@);
        assert forall|l: int| 0 <= l < odue_rows.len() implies crate::store::overdue_row(
            #[trigger] odue_rows[l],
            now,
        ) && old(store)@.contains_key(odue_rows[l].slug) && old(store)@[odue_rows[l].slug]
            == odue_rows[l] by {
            assert(odue_rows[l] == overdue@[l]@);
        }
        assert forall|k2: Seq<char>|
            old(store)@.contains_key(k2) && crate::store::overdue_row(
                old(store)@[k2],
                now,
            ) implies exists|l: int| 0 <= l < odue_rows.len() && #[trigger] odue_rows[l].slug
            == k2 by {
            let l = choose|l: int| 0 <= l < overdue@.len() && #[trigger] overdue@[l]@.slug == k2;
            assert(odue_rows[l].slug == k2);
        }
        assert forall|l: int| 0 <= l < alerted_rows.len() implies crate::store::alerted_row(
            #[trigger] alerted_rows[l],
        ) && old(store)@.contains_key(alerted_rows[l].slug) && old(store)@[alerted_rows[l].slug]
            == alerted_rows[l] by {
            assert(alerted_rows[l] == alerted@[l]@);
        }
        assert forall|k2: Seq<char>|
            old(store)@.contains_key(k2) && crate::store::alerted_row(
                old(store)@[k2],
            ) implies exists|l: int| 0 <= l < alerted_rows.len() && #[trigger] alerted_rows[l].slug
            == k2 by {
            let l = choose|l: int| 0 <= l < alerted@.len() && #[trigger] alerted@[l]@.slug == k2;
            assert(alerted_rows[l].slug == k2);
        }
        assert forall|l1: int, l2: int|
            0 <= l1 < l2 < odue_rows.len() implies odue_rows[l1].slug != odue_rows[l2].slug by {
            assert(odue_rows[l1] == overdue@[l1]@ && odue_rows[l2] == overdue@[l2]@);
        }
        assert forall|l1: int, l2: int|
            0 <= l1 < l2 < alerted_rows.len() implies alerted_rows[l1].slug
            != alerted_rows[l2].slug by {
            assert(alerted_rows[l1] == alerted@[l1]@ && alerted_rows[l2] == alerted@[l2]@);
        }
    }
    (plan, Ghost((odue_rows, alerted_rows)))
}

/// First-alert law: a monitor with no active alert whose first alert is
/// confirmed delivered transitions to `last_alerted_at = now` and
/// `alert_count = 1`; a failed delivery leaves the store untouched.
pub proof fn lemma_first_alert_transition(m0: Map<Seq<char>, MonitorV>, m: MonitorV, now: i64)
    requires
        m0.contains_key(m.slug),
        m0[m.slug] == m,
        m.last_alerted_at is None,
        m.alert_count is None,
    ensures
        apply_notification(m0, first_alert_planned(m, now), now, true)[m.slug].last_alerted_at
            == Some(now),
        apply_notification(m0, first_alert_planned(m, now), now, true)[m.slug].alert_count == Some(
            1u32,
        ),
        apply_notification(m0, first_alert_planned(m, now), now, false) == m0,
{
    assert(m.alert_count is None ==> next_alert_count(m.alert_count) == 1);
    assert(first_alert_planned(m, now).new_alert_count == next_alert_count(m.alert_count));
}

/// Recovery law: a monitor whose recovery notice is confirmed delivered
/// has both alert-state fields cleared; a failed delivery leaves the store
/// untouched, so the next cycle retries.
pub proof fn lemma_recovery_clears(
    m0: Map<Seq<char>, MonitorV>,
    m: MonitorV,
    last: i64,
    now: i64,
)
    requires
        m0.contains_key(m.slug),
        m0[m.slug] == m,
    ensures
        apply_notification(m0, recovery_planned(m, last, now), now, true)[m.slug].last_alerted_at
            is None,
        apply_notification(m0, recovery_planned(m, last, now), now, true)[m.slug].alert_count
            is None,
        apply_notification(m0, recovery_planned(m, last, now), now, false) == m0,
{
}

proof fn lemma_overdue_plan_entry(rows: Seq<MonitorV>, now: i64, l: int)
    requires
        0 <= l < spec_overdue_plan(rows, now).len(),
    ensures
        exists|i: int|
            0 <= i < rows.len() && #[trigger] rows[i].slug == spec_overdue_plan(rows, now)[l].slug
                && rows[i].paused != Some(true),
    decreases rows.len(),
{
    let plan = spec_overdue_plan(rows, now);
    let rest = spec_overdue_plan(rows.skip(1), now);
    match spec_overdue_decision(rows[0], now) {
        OverdueDecision::SkipPaused | OverdueDecision::WaitRepeat => {
            lemma_overdue_plan_entry(rows.skip(1), now, l);
            let i = choose|i: int|
                0 <= i < rows.skip(1).len() && #[trigger] rows.skip(1)[i].slug == rest[l].slug
                    && rows.skip(1)[i].paused != Some(true);
            assert(rows[i + 1].slug == plan[l].slug && rows[i + 1].paused != Some(true));
        },
        OverdueDecision::FirstAlert | OverdueDecision::RepeatAlert => {
            if l == 0 {
                assert(rows[0].slug == plan[0].slug && rows[0].paused != Some(true));
            } else {
                lemma_overdue_plan_entry(rows.skip(1), now, l - 1);
                let i = choose|i: int|
                    0 <= i < rows.skip(1).len() && #[trigger] rows.skip(1)[i].slug == rest[l
                        - 1].slug && rows.skip(1)[i].paused != Some(true);
                assert(rows[i + 1].slug == plan[l].slug && rows[i + 1].paused != Some(true));
            }
        },
    }
}

proof fn lemma_overdue_plan_distinct(rows: Seq<MonitorV>, now: i64)
    requires
        forall|i: int, j: int| 0 <= i < j < rows.len() ==> rows[i].slug != rows[j].slug,
    ensures
        forall|l1: int, l2: int|
            0 <= l1 < l2 < spec_overdue_plan(rows, now).len() ==> spec_overdue_plan(
                rows,
                now,
            )[l1].slug != spec_overdue_plan(rows, now)[l2].slug,
    decreases rows.len(),
{
    if rows.len() > 0 {
        let plan = spec_overdue_plan(rows, now);
        let rest = spec_overdue_plan(rows.skip(1), now);
        assert(forall|i: int, j: int|
            0 <= i < j < rows.skip(1).len() ==> rows.skip(1)[i].slug != rows.skip(1)[j].slug);
        lemma_overdue_plan_distinct(rows.skip(1), now);
        assert forall|l1: int, l2: int| 0 <= l1 < l2 < plan.len() implies plan[l1].slug
            != plan[l2].slug by {
            match spec_overdue_decision(rows[0], now) {
                OverdueDecision::SkipPaused | OverdueDecision::WaitRepeat => {
                    assert(plan[l1] == rest[l1] && plan[l2] == rest[l2]);
                },
                OverdueDecision::FirstAlert | OverdueDecision::RepeatAlert => {
                    if l1 == 0 {
                        lemma_overdue_plan_entry(rows.skip(1), now, l2 - 1);
                        let i = choose|i: int|
                            0 <= i < rows.skip(1).len() && #[trigger] rows.skip(1)[i].slug
                                == rest[l2 - 1].slug && rows.skip(1)[i].paused != Some(true);
                        assert(rows[0].slug != rows[i + 1].slug);
                    } else {
                        assert(plan[l1] == rest[l1 - 1] && plan[l2] == rest[l2 - 1]);
                    }
                },
            }
        }
    }
}

proof fn lemma_recovery_plan_entry(
    rows: Seq<MonitorV>,
    still_overdue: Set<Seq<char>>,
    now: i64,
    l: int,
)
    requires
        0 <= l < spec_recovery_plan(rows, still_overdue, now).len(),
    ensures
        !still_overdue.contains(spec_recovery_plan(rows, still_overdue, now)[l].slug),
        exists|i: int|
            0 <= i < rows.len() && #[trigger] rows[i].slug == spec_recovery_plan(
                rows,
                still_overdue,
                now,
            )[l].slug,
    decreases rows.len(),
{
    let plan = spec_recovery_plan(rows, still_overdue, now);
    let rest = spec_recovery_plan(rows.skip(1), still_overdue, now);
    let m = rows[0];
    let head_planned = !still_overdue.contains(m.slug) && m.paused != Some(true)
        && m.last_alerted_at is Some;
    if head_planned && l == 0 {
        assert(rows[0].slug == plan[0].slug);
    } else {
        let l0 = if head_planned {
            l - 1
        } else {
            l
        };
        lemma_recovery_plan_entry(rows.skip(1), still_overdue, now, l0);
        let i = choose|i: int|
            0 <= i < rows.skip(1).len() && #[trigger] rows.skip(1)[i].slug == rest[l0].slug;
        assert(rows[i + 1].slug == plan[l].slug);
    }
}

proof fn lemma_recovery_plan_distinct(rows: Seq<MonitorV>, still_overdue: Set<Seq<char>>, now: i64)
    requires
        forall|i: int, j: int| 0 <= i < j < rows.len() ==> rows[i].slug != rows[j].slug,
    ensures
        forall|l1: int, l2: int|
            0 <= l1 < l2 < spec_recovery_plan(rows, still_overdue, now).len()
                ==> spec_recovery_plan(rows, still_overdue, now)[l1].slug != spec_recovery_plan(
                rows,
                still_overdue,
                now,
            )[l2].slug,
    decreases rows.len(),
{
    if rows.len() > 0 {
        let plan = spec_recovery_plan(rows, still_overdue, now);
        let rest = spec_recovery_plan(rows.skip(1), still_overdue, now);
        assert(forall|i: int, j: int|
            0 <= i < j < rows.skip(1).len() ==> rows.skip(1)[i].slug != rows.skip(1)[j].slug);
        lemma_recovery_plan_distinct(rows.skip(1), still_overdue, now);
        let m = rows[0];
        let head_planned = !still_overdue.contains(m.slug) && m.paused != Some(true)
            && m.last_alerted_at is Some;
        assert forall|l1: int, l2: int| 0 <= l1 < l2 < plan.len() implies plan[l1].slug
            != plan[l2].slug by {
            if head_planned {
                if l1 == 0 {
                    lemma_recovery_plan_entry(rows.skip(1), still_overdue, now, l2 - 1);
                    let i = choose|i: int|
                        0 <= i < rows.skip(1).len() && #[trigger] rows.skip(1)[i].slug == rest[l2
                            - 1].slug;
                    assert(rows[0].slug != rows[i + 1].slug);
                } else {
                    assert(plan[l1] == rest[l1 - 1] && plan[l2] == rest[l2 - 1]);
                }
            } else {
                assert(plan[l1] == rest[l1] && plan[l2] == rest[l2]);
            }
        }
    }
}

/// One-transition law: within one cycle the planned notifications address
/// pairwise distinct slugs — every monitor sees at most one alert-state
/// transition per cycle. The overdue and alerted scans deliver each row
/// once, a planned alert's slug belongs to the still-overdue set, and a
/// planned recovery's slug never does.
pub proof fn lemma_one_transition_per_monitor(
    odue: Seq<MonitorV>,
    alerted: Seq<MonitorV>,
    now: i64,
)
    requires
        forall|i: int, j: int| 0 <= i < j < odue.len() ==> odue[i].slug != odue[j].slug,
        forall|i: int, j: int| 0 <= i < j < alerted.len() ==> alerted[i].slug != alerted[j].slug,
    ensures
        ({
            let plan = spec_overdue_plan(odue, now) + spec_recovery_plan(
                alerted,
                overdue_slug_set(odue, now),
                now,
            );
            forall|l1: int, l2: int|
                0 <= l1 < l2 < plan.len() ==> plan[l1].slug != plan[l2].slug
        }),
{
    let still = overdue_slug_set(odue, now);
    let oplan = spec_overdue_plan(odue, now);
    let rplan = spec_recovery_plan(alerted, still, now);
    let plan = oplan + rplan;
    lemma_overdue_plan_distinct(odue, now);
    lemma_recovery_plan_distinct(alerted, still, now);
    assert forall|l1: int, l2: int| 0 <= l1 < l2 < plan.len() implies plan[l1].slug
        != plan[l2].slug by {
        if l1 < oplan.len() && l2 >= oplan.len() {
            lemma_overdue_plan_entry(odue, now, l1);
            let i = choose|i: int|
                0 <= i < odue.len() && #[trigger] odue[i].slug == oplan[l1].slug && odue[i].paused
                    != Some(true);
            assert(still.contains(oplan[l1].slug));
            lemma_recovery_plan_entry(alerted, still, now, l2 - oplan.len());
            assert(!still.contains(rplan[l2 - oplan.len()].slug));
        }
    }
}

/// Sink-outage law: when no notification is delivered, a whole cycle
/// leaves the store exactly as it was — failed sends never advance the
/// alert bookkeeping.
pub proof fn lemma_no_delivery_no_change(
    m0: Map<Seq<char>, MonitorV>,
    plan: Seq<PlannedV>,
    deliveries: Seq<bool>,
    i: int,
    now: i64,
)
    requires
        forall|k: int| 0 <= k < deliveries.len() ==> !deliveries[k],
    ensures
        apply_cycle_from(m0, plan, deliveries, i, now) == m0,
    decreases plan.len(),
{
    if plan.len() > 0 {
        lemma_no_delivery_no_change(
            apply_notification(m0, plan[0], now, false),
            plan.skip(1),
            deliveries,
            i + 1,
            now,
        );
    }
}

} // verus!
