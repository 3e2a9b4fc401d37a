//! The monitor store contract, realized by an in-memory keyed store.
//!
//! Any keyed backend with a due-time range query satisfies the same
//! contract; this implementation is the reference against which the check
//! cycle is verified, and the substitutable fake for tests.

use vstd::prelude::*;
use vstd::pervasive::VecAdditionalExecFns;

use crate::model::{CHECK_PARTITION, Monitor, MonitorV};

verus! {

/// Errors of the storage layer.
#[derive(Debug)]
pub enum CoreError {
    /// The storage transport failed; carries its description.
    Storage(String),
    /// A record could not be converted to or from the wire shape.
    Serde(String),
    /// A slug failed validation.
    Slug(crate::slug::SlugError),
    /// The addressed monitor does not exist; carries the slug text.
    NotFound(String),
}

/// Durable keyed monitor storage with point lookup/upsert, two specialized
/// scans, alert-state writes and management operations; one row per slug.
pub struct MemoryStore {
    monitors: Vec<Monitor>,
}

/// The record an upsert leaves under `m.slug`: cadence fields come from
/// `m`; `created_at` is preserved when a row already exists (set only if
/// absent), and the alert-state fields and pause flag — owned by the check
/// cycle and the management boundary — are likewise left as they were.
pub open spec fn upserted_record(m: MonitorV, prior: Map<Seq<char>, MonitorV>) -> MonitorV {
    if prior.contains_key(m.slug) {
        MonitorV {
            created_at: prior[m.slug].created_at,
            last_alerted_at: prior[m.slug].last_alerted_at,
            alert_count: prior[m.slug].alert_count,
            paused: prior[m.slug].paused,
            ..m
        }
    } else {
        m
    }
}

/// The row belongs to the overdue scan at `now`: its partition matches the
/// fixed discriminator and its due time has passed. The scan does not
/// filter on `paused`; the check cycle does that.
pub open spec fn overdue_row(m: MonitorV, now: i64) -> bool {
    m.check_partition == CHECK_PARTITION@ && m.next_due < now
}

/// The row belongs to the alerted scan: it has an active alert.
pub open spec fn alerted_row(m: MonitorV) -> bool {
    m.last_alerted_at is Some
}

impl View for MemoryStore {
    type V = Map<Seq<char>, MonitorV>;

    closed spec fn view(&self) -> Map<Seq<char>, MonitorV> {
        Map::new(
            |s: Seq<char>| self.has_slug(s),
            |s: Seq<char>| self.monitors@[self.index_of(s)]@,
        )
    }
}

impl MemoryStore {
    /// Slugs are unique: the store is keyed.
    pub closed spec fn wf(&self) -> bool {
        forall|i: int, j: int|
            0 <= i < j < self.monitors@.len() ==> self.monitors@[i]@.slug
                != self.monitors@[j]@.slug
    }

    spec fn has_slug(&self, s: Seq<char>) -> bool {
        exists|i: int| 0 <= i < self.monitors@.len() && self.monitors@[i]@.slug == s
    }

    spec fn index_of(&self, s: Seq<char>) -> int {
        choose|i: int| 0 <= i < self.monitors@.len() && self.monitors@[i]@.slug == s
    }

    proof fn lemma_row_view(&self, i: int)
        requires
            self.wf(),
            0 <= i < self.monitors@.len(),
        ensures
            self@.contains_key(self.monitors@[i]@.slug),
            self@[self.monitors@[i]@.slug] == self.monitors@[i]@,
            self.index_of(self.monitors@[i]@.slug) == i,
    {
        let s = self.monitors@[i]@.slug;
        assert(self.has_slug(s));
        let j = self.index_of(s);
        assert(0 <= j < self.monitors@.len() && self.monitors@[j]@.slug == s);
        if i < j {
            assert(self.monitors@[i]@.slug != self.monitors@[j]@.slug);
        } else if j < i {
            assert(self.monitors@[j]@.slug != self.monitors@[i]@.slug);
        }
    }

    /// An empty store.
    pub fn new() -> (s: MemoryStore)
        ensures
            s.wf(),
            s@ == Map::<Seq<char>, MonitorV>::empty(),
    {
        let s = MemoryStore { monitors: Vec::new() };
        proof {
            assert(s@ =~= Map::<Seq<char>, MonitorV>::empty());
        }
        s
    }

    fn find(&self, slug: &str) -> (r: Option<usize>)
        requires
            self.wf(),
        ensures
            match r {
                Some(i) => i < self.monitors@.len() && self.monitors@[i as int]@.slug == slug@
                    && self@.contains_key(slug@) && self@[slug@] == self.monitors@[i as int]@,
                None => !self@.contains_key(slug@),
            },
    {
        let n = self.monitors.len();
        let mut i: usize = 0;
        while i < n
            invariant
                self.wf(),
                i <= n,
                n == self.monitors@.len(),
                forall|j: int| 0 <= j < i ==> self.monitors@[j]@.slug != slug@,
            decreases n - i,
        {
            if crate::text::str_eq(self.monitors[i].slug.as_str(), slug) {
                proof {
                    self.lemma_row_view(i as int);
                }
                return Some(i);
            }
            i = i + 1;
        }
        proof {
            assert(!self.has_slug(slug@));
        }
        None
    }

    /// Point lookup by slug.
    pub fn get(&self, slug: &str) -> (r: Option<Monitor>)
        requires
            self.wf(),
        ensures
            match r {
                Some(m) => self@.contains_key(slug@) && m@ == self@[slug@],
                None => !self@.contains_key(slug@),
            },
    {
        match self.find(slug) {
            Some(i) => Some(self.monitors[i].clone()),
            None => None,
        }
    }

    /// Replacing one row in place, slug unchanged, turns the map view into
    /// an insert at that slug.
    proof fn lemma_view_after_set(pre: MemoryStore, post: MemoryStore, i: int)
        requires
            pre.wf(),
            0 <= i < pre.monitors@.len(),
            post.monitors@.len() == pre.monitors@.len(),
            post.monitors@[i]@.slug == pre.monitors@[i]@.slug,
            forall|j: int|
                0 <= j < pre.monitors@.len() && j != i ==> post.monitors@[j] == pre.monitors@[j],
        ensures
            post.wf(),
            post@ == pre@.insert(pre.monitors@[i]@.slug, post.monitors@[i]@),
    {
        let s = pre.monitors@[i]@.slug;
        let target = pre@.insert(s, post.monitors@[i]@);
        assert(forall|idx: int|
            0 <= idx < post.monitors@.len() ==> post.monitors@[idx]@.slug
                == pre.monitors@[idx]@.slug);
        assert(post.wf());
        assert forall|k: Seq<char>| post@.contains_key(k) == target.contains_key(k) by {
            assert(post.has_slug(k) == pre.has_slug(k));
        }
        assert forall|k: Seq<char>| post@.contains_key(k) implies post@[k] == target[k] by {
            if k == s {
                post.lemma_row_view(i);
            } else {
                let j = choose|j: int|
                    0 <= j < post.monitors@.len() && post.monitors@[j]@.slug == k;
                assert(post.monitors@[j]@.slug == k);
                assert(j != i);
                post.lemma_row_view(j);
                pre.lemma_row_view(j);
            }
        }
        assert(post@ =~= target);
    }

    /// Every monitor whose partition matches the fixed discriminator and
    /// whose due time has passed, paused or not: the overdue index carries
    /// no paused flag, so the check cycle filters paused monitors itself.
    pub fn query_overdue(&self, now_epoch: i64) -> (r: Vec<Monitor>)
        requires
            self.wf(),
        ensures
            forall|l: int|
                0 <= l < r@.len() ==> overdue_row(#[trigger] r@[l]@, now_epoch)
                    && self@.contains_key(r@[l]@.slug) && self@[r@[l]@.slug] == r@[l]@,
            forall|k: Seq<char>|
                #[trigger] self@.contains_key(k) && overdue_row(self@[k], now_epoch)
                    ==> exists|l: int| 0 <= l < r@.len() && #[trigger] r@[l]@.slug == k,
            forall|l1: int, l2: int|
                0 <= l1 < l2 < r@.len() ==> r@[l1]@.slug != r@[l2]@.slug,
    {
        let n = self.monitors.len();
        let mut r: Vec<Monitor> = Vec::new();
        let mut i: usize = 0;
        while i < n
            invariant
                self.wf(),
                i <= n,
                n == self.monitors@.len(),
                forall|l: int|
                    0 <= l < r@.len() ==> exists|j: int|
                        0 <= j < i && #[trigger] r@[l]@ == self.monitors@[j]@,
                forall|l: int| 0 <= l < r@.len() ==> overdue_row(#[trigger] r@[l]@, now_epoch),
                forall|j: int|
                    0 <= j < i && overdue_row(#[trigger] self.monitors@[j]@, now_epoch)
                        ==> exists|l: int| 0 <= l < r@.len() && #[trigger] r@[l]@.slug
                        == self.monitors@[j]@.slug,
                forall|l1: int, l2: int|
                    0 <= l1 < l2 < r@.len() ==> r@[l1]@.slug != r@[l2]@.slug,
            decreases n - i,
        {
            let hit = crate::text::str_eq(self.monitors[i].check_partition.as_str(), CHECK_PARTITION)
                && self.monitors[i].next_due < now_epoch;
            let ghost prev = r@;
            if hit {
                proof {
                    assert forall|l: int|
                        0 <= l < r@.len() implies r@[l]@.slug != self.monitors@[i as int]@.slug by {
                        let j = choose|j: int| 0 <= j < i && r@[l]@ == self.monitors@[j]@;
                        assert(self.monitors@[j]@.slug != self.monitors@[i as int]@.slug);
                    }
                }
                r.push(self.monitors[i].clone());
            }
            proof {
                assert(hit == overdue_row(self.monitors@[i as int]@, now_epoch));
                assert forall|j: int|
                    0 <= j < i + 1 && overdue_row(#[trigger] self.monitors@[j]@, now_epoch)
                        implies exists|l: int|
                    0 <= l < r@.len() && #[trigger] r@[l]@.slug == self.monitors@[j]@.slug by {
                    if j < i {
                        let l = choose|l: int|
                            0 <= l < prev.len() && #[trigger] prev[l]@.slug
                                == self.monitors@[j]@.slug;
                        assert(r@[l]@.slug == self.monitors@[j]@.slug);
                    } else {
                        assert(r@[r@.len() - 1]@.slug == self.monitors@[j]@.slug);
                    }
                }
            }
            i = i + 1;
        }
        proof {
            assert forall|k: Seq<char>|
                self@.contains_key(k) && overdue_row(self@[k], now_epoch) implies exists|l: int|
                0 <= l < r@.len() && #[trigger] r@[l]@.slug == k by {
                let j = choose|j: int|
                    0 <= j < self.monitors@.len() && self.monitors@[j]@.slug == k;
                assert(self.monitors@[j]@.slug == k);
                self.lemma_row_view(j);
                assert(overdue_row(self.monitors@[j]@, now_epoch));
            }
        }
        r
    }

    /// Every monitor with an active alert, used for recovery detection.
    pub fn query_alerted(&self) -> (r: Vec<Monitor>)
        requires
            self.wf(),
        ensures
            forall|l: int|
                0 <= l < r@.len() ==> alerted_row(#[trigger] r@[l]@) && self@.contains_key(
                    r@[l]@.slug,
                ) && self@[r@[l]@.slug] == r@[l]@,
            forall|k: Seq<char>|
                #[trigger] self@.contains_key(k) && alerted_row(self@[k]) ==> exists|l: int|
                    0 <= l < r@.len() && #[trigger] r@[l]@.slug == k,
            forall|l1: int, l2: int|
                0 <= l1 < l2 < r@.len() ==> r@[l1]@.slug != r@[l2]@.slug,
    {
        let n = self.monitors.len();
        let mut r: Vec<Monitor> = Vec::new();
        let mut i: usize = 0;
        while i < n
            invariant
                self.wf(),
                i <= n,
                n == self.monitors@.len(),
                forall|l: int|
                    0 <= l < r@.len() ==> exists|j: int|
                        0 <= j < i && #[trigger] r@[l]@ == self.monitors@[j]@,
                forall|l: int| 0 <= l < r@.len() ==> alerted_row(#[trigger] r@[l]@),
                forall|j: int|
                    0 <= j < i && alerted_row(#[trigger] self.monitors@[j]@) ==> exists|l: int|
                        0 <= l < r@.len() && #[trigger] r@[l]@.slug == self.monitors@[j]@.slug,
                forall|l1: int, l2: int|
                    0 <= l1 < l2 < r@.len() ==> r@[l1]@.slug != r@[l2]@.slug,
            decreases n - i,
        {
            let hit = self.monitors[i].last_alerted_at.is_some();
            let ghost prev = r@;
            if hit {
                proof {
                    assert forall|l: int|
                        0 <= l < r@.len() implies r@[l]@.slug != self.monitors@[i as int]@.slug by {
                        let j = choose|j: int| 0 <= j < i && r@[l]@ == self.monitors@[j]@;
                        assert(self.monitors@[j]@.slug != self.monitors@[i as int]@.slug);
                    }
                }
                r.push(self.monitors[i].clone());
            }
            proof {
                assert(hit == alerted_row(self.monitors@[i as int]@));
                assert forall|j: int|
                    0 <= j < i + 1 && alerted_row(#[trigger] self.monitors@[j]@) implies exists|l: int|
                    0 <= l < r@.len() && #[trigger] r@[l]@.slug == self.monitors@[j]@.slug by {
                    if j < i {
                        let l = choose|l: int|
                            0 <= l < prev.len() && #[trigger] prev[l]@.slug
                                == self.monitors@[j]@.slug;
                        assert(r@[l]@.slug == self.monitors@[j]@.slug);
                    } else {
                        assert(r@[r@.len() - 1]@.slug == self.monitors@[j]@.slug);
                    }
                }
            }
            i = i + 1;
        }
        proof {
            assert forall|k: Seq<char>|
                self@.contains_key(k) && alerted_row(self@[k]) implies exists|l: int|
                0 <= l < r@.len() && #[trigger] r@[l]@.slug == k by {
                let j = choose|j: int|
                    0 <= j < self.monitors@.len() && self.monitors@[j]@.slug == k;
                assert(self.monitors@[j]@.slug == k);
                self.lemma_row_view(j);
                assert(alerted_row(self.monitors@[j]@));
            }
        }
        r
    }

    /// After a confirmed alert delivery: set `last_alerted_at = now_epoch`
    /// and `alert_count = alert_count`. A slug with no row is left as a
    /// no-op: only monitors read from this store are ever updated.
    pub fn update_alert_state(&mut self, slug: &str, now_epoch: i64, alert_count: u32)
        requires
            old(self).wf(),
        ensures
            final(self).wf(),
            old(self)@.contains_key(slug@) ==> final(self)@ == old(self)@.insert(
                slug@,
                MonitorV {
                    last_alerted_at: Some(now_epoch),
                    alert_count: Some(alert_count),
                    ..old(self)@[slug@]
                },
            ),
            !old(self)@.contains_key(slug@) ==> final(self)@ == old(self)@,
    {
        let ghost pre = *self;
        match self.find(slug) {
            Some(i) => {
                let row = &self.monitors[i];
                let updated = Monitor {
                    slug: row.slug.clone(),
                    interval_secs: row.interval_secs,
                    last_ping: row.last_ping,
                    next_due: row.next_due,
                    check_partition: row.check_partition.clone(),
                    last_alerted_at: Some(now_epoch),
                    alert_count: Some(alert_count),
                    created_at: row.created_at,
                    paused: row.paused,
                    expires_at: row.expires_at,
                };
                self.monitors.set(i, updated);
                proof {
                    Self::lemma_view_after_set(pre, *self, i as int);
                }
            },
            None => {
            },
        }
    }

    /// After a confirmed recovery delivery: remove `last_alerted_at` and
    /// `alert_count`, returning the monitor to "no active alert".
    pub fn clear_alert_state(&mut self, slug: &str)
        requires
            old(self).wf(),
        ensures
            final(self).wf(),
            old(self)@.contains_key(slug@) ==> final(self)@ == old(self)@.insert(
                slug@,
                MonitorV { last_alerted_at: None, alert_count: None, ..old(self)@[slug@] },
            ),
            !old(self)@.contains_key(slug@) ==> final(self)@ == old(self)@,
    {
        let ghost pre = *self;
        match self.find(slug) {
            Some(i) => {
                let row = &self.monitors[i];
                let updated = Monitor {
                    slug: row.slug.clone(),
                    interval_secs: row.interval_secs,
                    last_ping: row.last_ping,
                    next_due: row.next_due,
                    check_partition: row.check_partition.clone(),
                    last_alerted_at: None,
                    alert_count: None,
                    created_at: row.created_at,
                    paused: row.paused,
                    expires_at: row.expires_at,
                };
                self.monitors.set(i, updated);
                proof {
                    Self::lemma_view_after_set(pre, *self, i as int);
                }
            },
            None => {
            },
        }
    }

    /// Pause or unpause a monitor; alert-state fields are left untouched.
    /// Fails with `NotFound` when the slug has no row.
    pub fn set_paused(&mut self, slug: &str, paused: bool) -> (r: Result<(), CoreError>)
        requires
            old(self).wf(),
        ensures
            final(self).wf(),
            old(self)@.contains_key(slug@) ==> r is Ok && final(self)@ == old(self)@.insert(
                slug@,
                MonitorV { paused: Some(paused), ..old(self)@[slug@] },
            ),
            !old(self)@.contains_key(slug@) ==> final(self)@ == old(self)@ && (r matches Err(
                CoreError::NotFound(m),
            ) && m@ == slug@),
    {
        let ghost pre = *self;
        match self.find(slug) {
            Some(i) => {
                let row = &self.monitors[i];
                let updated = Monitor {
                    slug: row.slug.clone(),
                    interval_secs: row.interval_secs,
                    last_ping: row.last_ping,
                    next_due: row.next_due,
                    check_partition: row.check_partition.clone(),
                    last_alerted_at: row.last_alerted_at,
                    alert_count: row.alert_count,
                    created_at: row.created_at,
                    paused: Some(paused),
                    expires_at: row.expires_at,
                };
                self.monitors.set(i, updated);
                proof {
                    Self::lemma_view_after_set(pre, *self, i as int);
                }
                Ok(())
            },
            None => Err(CoreError::NotFound(slug.to_owned())),
        }
    }

    /// Remove a monitor. Fails with `NotFound` when the slug has no row.
    pub fn delete(&mut self, slug: &str) -> (r: Result<(), CoreError>)
        requires
            old(self).wf(),
        ensures
            final(self).wf(),
            old(self)@.contains_key(slug@) ==> r is Ok && final(self)@ == old(self)@.remove(slug@),
            !old(self)@.contains_key(slug@) ==> final(self)@ == old(self)@ && (r matches Err(
                CoreError::NotFound(m),
            ) && m@ == slug@),
    {
        let ghost pre = *self;
        match self.find(slug) {
            Some(i) => {
                self.monitors.remove(i);
                proof {
                    let s = pre.monitors@[i as int]@.slug;
                    let target = pre@.remove(s);
                    assert(forall|j: int|
                        0 <= j < i ==> self.monitors@[j] == pre.monitors@[j]);
                    assert(forall|j: int|
                        i <= j < self.monitors@.len() ==> self.monitors@[j] == pre.monitors@[j
                            + 1]);
                    assert forall|a: int, b: int|
                        0 <= a < b < self.monitors@.len() implies self.monitors@[a]@.slug
                        != self.monitors@[b]@.slug by {
                        let a0 = if a < i { a } else { a + 1 };
                        let b0 = if b < i { b } else { b + 1 };
                        assert(self.monitors@[a] == pre.monitors@[a0]);
                        assert(self.monitors@[b] == pre.monitors@[b0]);
                        assert(pre.monitors@[a0]@.slug != pre.monitors@[b0]@.slug);
                    }
                    assert(self.wf());
                    assert forall|k: Seq<char>| self@.contains_key(k) == target.contains_key(
                        k,
                    ) by {
                        if self.has_slug(k) {
                            let j = choose|j: int|
                                0 <= j < self.monitors@.len() && self.monitors@[j]@.slug == k;
                            let j0 = if j < i { j } else { j + 1 };
                            assert(pre.monitors@[j0]@.slug == k);
                            assert(pre.has_slug(k));
                            if k == s {
                                pre.lemma_row_view(i as int);
                                pre.lemma_row_view(j0);
                            }
                        }
                        if target.contains_key(k) {
                            assert(pre.has_slug(k) && k != s);
                            let j0 = choose|j0: int|
                                0 <= j0 < pre.monitors@.len() && pre.monitors@[j0]@.slug == k;
                            assert(pre.monitors@[j0]@.slug == k);
                            if j0 < i {
                                assert(self.monitors@[j0]@.slug == k);
                            } else {
                                assert(j0 != i) by {
                                    pre.lemma_row_view(i as int);
                                    pre.lemma_row_view(j0);
                                }
                                assert(self.monitors@[j0 - 1]@.slug == k);
                            }
                            assert(self.has_slug(k));
                        }
                    }
                    assert forall|k: Seq<char>| self@.contains_key(k) implies self@[k]
                        == target[k] by {
                        let j = choose|j: int|
                            0 <= j < self.monitors@.len() && self.monitors@[j]@.slug == k;
                        assert(self.monitors@[j]@.slug == k);
                        self.lemma_row_view(j);
                        let j0 = if j < i { j } else { j + 1 };
                        pre.lemma_row_view(j0);
                    }
                    assert(self@ =~= target);
                }
                Ok(())
            },
            None => Err(CoreError::NotFound(slug.to_owned())),
        }
    }

    /// Every row of the store, one per slug.
    pub fn list(&self) -> (r: Vec<Monitor>)
        requires
            self.wf(),
        ensures
            forall|l: int|
                0 <= l < r@.len() ==> self@.contains_key(#[trigger] r@[l]@.slug)
                    && self@[r@[l]@.slug] == r@[l]@,
            forall|k: Seq<char>|
                #[trigger] self@.contains_key(k) ==> exists|l: int|
                    0 <= l < r@.len() && #[trigger] r@[l]@.slug == k,
            forall|l1: int, l2: int|
                0 <= l1 < l2 < r@.len() ==> r@[l1]@.slug != r@[l2]@.slug,
    {
        let n = self.monitors.len();
        let mut r: Vec<Monitor> = Vec::new();
        let mut i: usize = 0;
        while i < n
            invariant
                self.wf(),
                i <= n,
                n == self.monitors@.len(),
                r@.len() == i,
                forall|l: int| 0 <= l < i ==> #[trigger] r@[l]@ == self.monitors@[l]@,
            decreases n - i,
        {
            r.push(self.monitors[i].clone());
            i = i + 1;
        }
        proof {
            assert forall|l: int|
                0 <= l < r@.len() implies self@.contains_key(#[trigger] r@[l]@.slug)
                && self@[r@[l]@.slug] == r@[l]@ by {
                self.lemma_row_view(l);
            }
            assert forall|k: Seq<char>| self@.contains_key(k) implies exists|l: int|
                0 <= l < r@.len() && #[trigger] r@[l]@.slug == k by {
                let j = choose|j: int|
                    0 <= j < self.monitors@.len() && self.monitors@[j]@.slug == k;
                assert(r@[j]@.slug == k);
            }
            assert forall|l1: int, l2: int|
                0 <= l1 < l2 < r@.len() implies r@[l1]@.slug != r@[l2]@.slug by {
                assert(self.monitors@[l1]@.slug != self.monitors@[l2]@.slug);
            }
        }
        r
    }

    /// Write `monitor` under its slug. Safe to call on every ping: the
    /// original creation time, alert state and pause flag of an existing
    /// row survive; everything else is overwritten.
    pub fn upsert(&mut self, monitor: &Monitor)
        requires
            old(self).wf(),
        ensures
            final(self).wf(),
            final(self)@ == old(self)@.insert(monitor@.slug, upserted_record(monitor@, old(self)@)),
    {
        let ghost prior = self@;
        let ghost target = self@.insert(monitor@.slug, upserted_record(monitor@, self@));
        match self.find(monitor.slug.as_str()) {
            Some(i) => {
                let updated = Monitor {
                    slug: monitor.slug.clone(),
                    interval_secs: monitor.interval_secs,
                    last_ping: monitor.last_ping,
                    next_due: monitor.next_due,
                    check_partition: monitor.check_partition.clone(),
                    last_alerted_at: self.monitors[i].last_alerted_at,
                    alert_count: self.monitors[i].alert_count,
                    created_at: self.monitors[i].created_at,
                    paused: self.monitors[i].paused,
                    expires_at: monitor.expires_at,
                };
                proof {
                    assert(updated@ == upserted_record(monitor@, prior));
                }
                self.monitors.set(i, updated);
                proof {
                    assert(forall|idx: int|
                        0 <= idx < self.monitors@.len() ==> self.monitors@[idx]@.slug
                            == old(self).monitors@[idx]@.slug);
                    assert(self.wf());
                    assert forall|k: Seq<char>| self@.contains_key(k) == target.contains_key(
                        k,
                    ) by {
                        assert(self.has_slug(k) == old(self).has_slug(k));
                    }
                    assert forall|k: Seq<char>| self@.contains_key(k) implies self@[k]
                        == target[k] by {
                        if k == monitor@.slug {
                            self.lemma_row_view(i as int);
                        } else {
                            let j = choose|j: int|
                                0 <= j < self.monitors@.len() && self.monitors@[j]@.slug == k;
                            assert(self.monitors@[j]@.slug == k);
                            assert(j != i);
                            self.lemma_row_view(j);
                            old(self).lemma_row_view(j);
                        }
                    }
                    assert(self@ =~= target);
                }
            },
            None => {
                self.monitors.push(monitor.clone());
                proof {
                    let n = self.monitors@.len() - 1;
                    assert(self.monitors@[n]@ == monitor@);
                    assert(forall|idx: int|
                        0 <= idx < n ==> self.monitors@[idx] == old(self).monitors@[idx]);
                    assert forall|idx: int, jdx: int|
                        0 <= idx < jdx < self.monitors@.len() implies self.monitors@[idx]@.slug
                        != self.monitors@[jdx]@.slug by {
                        if jdx == n {
                            assert(!old(self).has_slug(monitor@.slug));
                        }
                    }
                    assert(upserted_record(monitor@, prior) == monitor@);
                    assert forall|k: Seq<char>| self@.contains_key(k) == target.contains_key(
                        k,
                    ) by {
                        if k == monitor@.slug {
                            assert(self.has_slug(k));
                        } else {
                            assert(self.has_slug(k) == old(self).has_slug(k));
                        }
                    }
                    assert forall|k: Seq<char>| self@.contains_key(k) implies self@[k]
                        == target[k] by {
                        if k == monitor@.slug {
                            self.lemma_row_view(n);
                        } else {
                            let j = choose|j: int|
                                0 <= j < self.monitors@.len() && self.monitors@[j]@.slug == k;
                            assert(self.monitors@[j]@.slug == k);
                            assert(j != n);
                            self.lemma_row_view(j);
                            old(self).lemma_row_view(j);
                        }
                    }
                    assert(self@ =~= target);
                }
            },
        }
    }
}

} // verus!
