//! The ingestion and management boundary: request/response values, the
//! error taxonomy, and the compute behind the handlers. Transport (HTTP
//! framing, authentication lookups) lives outside.

use vstd::prelude::*;

use crate::model::{DEFAULT_INTERVAL_SECS, Monitor, MonitorStatus, MonitorV, spec_status};
use crate::store::CoreError;
use crate::text::{dec_str_i64, dec_str_u64, lex_le, lemma_lex_total, lemma_lex_trans};

verus! {

/// An authenticated API key, extracted from a bearer header and validated
/// against the credential store by the caller.
#[derive(Debug)]
pub struct ApiKey {
    /// The presented key.
    pub key: String,
}

/// API-level errors, each mapped to a response status and message.
#[derive(Debug)]
pub enum ApiError {
    /// Missing or invalid API key.
    Unauthorized,
    /// Invalid slug format.
    InvalidSlug(String),
    /// Invalid interval value.
    InvalidInterval(String),
    /// Resource not found.
    NotFound(String),
    /// Internal server error.
    Internal,
}

/// The HTTP status code an error maps to.
pub open spec fn spec_error_status(e: ApiError) -> u16 {
    match e {
        ApiError::Unauthorized => 401,
        ApiError::InvalidSlug(_) => 400,
        ApiError::InvalidInterval(_) => 400,
        ApiError::NotFound(_) => 404,
        ApiError::Internal => 500,
    }
}

/// The response message an error maps to.
pub open spec fn spec_error_message(e: ApiError) -> Seq<char> {
    match e {
        ApiError::Unauthorized => "Invalid or missing API key"@,
        ApiError::InvalidSlug(m) => m@,
        ApiError::InvalidInterval(m) => m@,
        ApiError::NotFound(m) => m@,
        ApiError::Internal => "Internal server error"@,
    }
}

/// The status code and message body for an error response.
pub fn status_and_message(e: &ApiError) -> (r: (u16, String))
    ensures
        r.0 == spec_error_status(*e),
        r.1@ == spec_error_message(*e),
{
    match e {
        ApiError::Unauthorized => (401, String::from_str("Invalid or missing API key")),
        ApiError::InvalidSlug(m) => (400, m.clone()),
        ApiError::InvalidInterval(m) => (400, m.clone()),
        ApiError::NotFound(m) => (404, m.clone()),
        ApiError::Internal => (500, String::from_str("Internal server error")),
    }
}

/// How a storage error surfaces at the API: an absent record stays a
/// distinct "not found" outcome; everything else is an internal error.
pub open spec fn api_error_of_core(e: CoreError) -> ApiError {
    match e {
        CoreError::NotFound(m) => ApiError::NotFound(m),
        _ => ApiError::Internal,
    }
}

impl From<CoreError> for ApiError {
    fn from(e: CoreError) -> (r: Self) {
        match e {
            CoreError::NotFound(m) => ApiError::NotFound(m),
            CoreError::Storage(_) => ApiError::Internal,
            CoreError::Serde(_) => ApiError::Internal,
            CoreError::Slug(_) => ApiError::Internal,
        }
    }
}

impl vstd::std_specs::convert::FromSpecImpl<CoreError> for ApiError {
    open spec fn obeys_from_spec() -> bool {
        true
    }

    open spec fn from_spec(e: CoreError) -> ApiError {
        api_error_of_core(e)
    }
}

/// Extract the token of an `Authorization: Bearer <token>` header value:
/// present exactly when the fixed prefix is there and the token after it
/// is non-empty.
pub fn bearer_token(header: &str) -> (r: Option<&str>)
    ensures
        match r {
            Some(t) => header@.len() > 7 && header@.take(7) == "Bearer "@ && t@ == header@.skip(7),
            None => !(header@.len() > 7 && header@.take(7) == "Bearer "@),
        },
{
    let len = header.unicode_len();
    if len <= 7 {
        proof {
            reveal_strlit("Bearer ");
        }
        return None;
    }
    let prefix = header.substring_char(0, 7);
    if !crate::text::str_eq(prefix, "Bearer ") {
        proof {
            assert(header@.take(7) =~= header@.subrange(0, 7));
        }
        return None;
    }
    let token = header.substring_char(7, len);
    proof {
        assert(header@.take(7) =~= header@.subrange(0, 7));
        assert(header@.skip(7) =~= header@.subrange(7, header@.len() as int));
    }
    Some(token)
}

/// The message for an interval string that cannot be parsed.
pub open spec fn cannot_parse_msg(s: Seq<char>) -> Seq<char> {
    "Cannot parse interval: "@ + s
}

/// The message for an interval below the minimum.
pub open spec fn too_short_msg(secs: u64) -> Seq<char> {
    "Interval too short: minimum is 30s, got "@ + dec_str_u64(secs) + "s"@
}

/// The message for an interval above the maximum.
pub open spec fn too_long_msg(secs: u64) -> Seq<char> {
    "Interval too long: maximum is 365d, got "@ + dec_str_u64(secs) + "s"@
}

/// The view of an optional string.
pub open spec fn opt_str_view(q: &Option<String>) -> Option<Seq<char>> {
    match *q {
        Some(ref s) => Some(s@),
        None => None,
    }
}

/// The outcome of interval resolution: the parsed and bounds-checked
/// seconds, or the error message.
pub open spec fn spec_resolved_interval(query: Option<Seq<char>>, existing: Option<u64>) -> Result<
    u64,
    Seq<char>,
> {
    match query {
        Some(s) => match crate::interval::spec_parse_interval(s) {
            None => Err(cannot_parse_msg(s)),
            Some(d) => if crate::interval::interval_too_short(d) {
                Err(too_short_msg(d.0))
            } else if crate::interval::interval_too_long(d) {
                Err(too_long_msg(d.0))
            } else {
                Ok(d.0)
            },
        },
        None => Ok(
            match existing {
                Some(v) => v,
                None => DEFAULT_INTERVAL_SECS,
            },
        ),
    }
}

/// Resolve the interval for a ping: a given interval string must parse and
/// respect the bounds; with none given, an existing monitor keeps its
/// interval and a new one gets the default.
pub fn resolve_interval(query: &Option<String>, existing_interval: Option<u64>) -> (r: Result<
    u64,
    ApiError,
>)
    ensures
        match spec_resolved_interval(opt_str_view(query), existing_interval) {
            Ok(v) => r == Ok::<u64, ApiError>(v),
            Err(m) => r matches Err(ApiError::InvalidInterval(mm)) && mm@ == m,
        },
        match *query {
            Some(ref s) => match crate::interval::spec_parse_interval(s@) {
                None => r matches Err(ApiError::InvalidInterval(m)) && m@ == cannot_parse_msg(s@),
                Some(d) => if crate::interval::interval_too_short(d) {
                    r matches Err(ApiError::InvalidInterval(m)) && m@ == too_short_msg(d.0)
                } else if crate::interval::interval_too_long(d) {
                    r matches Err(ApiError::InvalidInterval(m)) && m@ == too_long_msg(d.0)
                } else {
                    r == Ok::<u64, ApiError>(d.0)
                },
            },
            None => r == Ok::<u64, ApiError>(
                match existing_interval {
                    Some(v) => v,
                    None => DEFAULT_INTERVAL_SECS,
                },
            ),
        },
{
    match query {
        Some(s) => {
            match crate::interval::parse_interval(s.as_str()) {
                None => {
                    let mut m = String::from_str("Cannot parse interval: ");
                    m.append(s.as_str());
                    proof {
                        assert(m@ =~= cannot_parse_msg(s@));
                    }
                    Err(ApiError::InvalidInterval(m))
                },
                Some((secs, nanos)) => {
                    if secs < crate::interval::MIN_INTERVAL_SECS {
                        let mut m = String::from_str("Interval too short: minimum is 30s, got ");
                        let digits = crate::text::u64_to_string(secs);
                        m.append(digits.as_str());
                        m.append("s");
                        proof {
                            assert(m@ =~= too_short_msg(secs));
                        }
                        Err(ApiError::InvalidInterval(m))
                    } else if secs > crate::interval::MAX_INTERVAL_SECS || (secs
                        == crate::interval::MAX_INTERVAL_SECS && nanos > 0) {
                        let mut m = String::from_str("Interval too long: maximum is 365d, got ");
                        let digits = crate::text::u64_to_string(secs);
                        m.append(digits.as_str());
                        m.append("s");
                        proof {
                            assert(m@ =~= too_long_msg(secs));
                        }
                        Err(ApiError::InvalidInterval(m))
                    } else {
                        Ok(secs)
                    }
                },
            }
        },
        None => Ok(
            match existing_interval {
                Some(v) => v,
                None => crate::model::DEFAULT_INTERVAL_SECS,
            },
        ),
    }
}

/// Query-string values of a heartbeat request.
#[derive(Debug)]
pub struct HeartbeatQuery {
    /// The raw interval string, if one was given.
    pub interval: Option<String>,
}

/// The response to a heartbeat ping.
#[derive(Debug)]
pub struct HeartbeatResponse {
    /// Always true on success.
    pub ok: bool,
    /// The new due time, rendered for people.
    pub next_due: String,
    /// The monitor's status right after the ping.
    pub status: MonitorStatus,
}

/// The response to a fail call.
#[derive(Debug)]
pub struct FailResponse {
    /// Always true on success.
    pub ok: bool,
    /// The monitor's status right after the fail call.
    pub status: MonitorStatus,
}

/// One row of the monitor listing.
#[derive(Debug)]
pub struct MonitorListItem {
    /// The monitor's slug.
    pub slug: String,
    /// Status derived at listing time.
    pub status: MonitorStatus,
    /// Epoch seconds of the last ping.
    pub last_ping: i64,
    /// Epoch seconds of the due time.
    pub next_due: i64,
}

/// The full monitor listing, sorted by slug.
#[derive(Debug)]
pub struct MonitorListResponse {
    /// The rows, sorted by slug.
    pub monitors: Vec<MonitorListItem>,
}

/// The mathematical image of a `MonitorListItem`.
pub ghost struct ListItemV {
    pub slug: Seq<char>,
    pub status: MonitorStatus,
    pub last_ping: i64,
    pub next_due: i64,
}

impl View for MonitorListItem {
    type V = ListItemV;

    open spec fn view(&self) -> ListItemV {
        ListItemV {
            slug: self.slug@,
            status: self.status,
            last_ping: self.last_ping,
            next_due: self.next_due,
        }
    }
}

/// What chrono renders an epoch to in RFC 3339 form, `None` outside its
/// supported range.
pub uninterp spec fn rfc3339_utc(epoch: i64) -> Option<Seq<char>>;

/// Relies on chrono's `DateTime::from_timestamp` and `to_rfc3339`: the
/// text is a function of the epoch seconds alone, and `from_timestamp`
/// returns `None` exactly on out-of-range seconds — its source accepts at
/// least every epoch in `[0, 4_102_444_800]`.
#[verifier::external_body]
fn chrono_rfc3339_utc(epoch: i64) -> (r: Option<String>)
    ensures
        r is Some <==> rfc3339_utc(epoch) is Some,
        r matches Some(s) ==> Some(s@) == rfc3339_utc(epoch),
        0 <= epoch <= 4_102_444_800 ==> r is Some,
{
    chrono::DateTime::from_timestamp(epoch, 0).map(|dt| dt.to_rfc3339())
}

/// The text a due time renders to: RFC 3339 when representable, else the
/// plain epoch number.
pub open spec fn next_due_text(epoch: i64) -> Seq<char> {
    match rfc3339_utc(epoch) {
        Some(t) => t,
        None => dec_str_i64(epoch),
    }
}

/// Build the response for a successful ping.
pub fn build_heartbeat_response(monitor: &Monitor, now: i64) -> (r: HeartbeatResponse)
    ensures
        r.ok == true,
        r.status == spec_status(monitor@, now),
        r.next_due@ == next_due_text(monitor@.next_due),
{
    let next_due = match chrono_rfc3339_utc(monitor.next_due) {
        Some(s) => s,
        None => crate::text::i64_to_string(monitor.next_due),
    };
    HeartbeatResponse { ok: true, next_due, status: MonitorStatus::derive(monitor, now) }
}

/// Build the response for a successful fail call.
pub fn build_fail_response(monitor: &Monitor, now: i64) -> (r: FailResponse)
    ensures
        r.ok == true,
        r.status == spec_status(monitor@, now),
{
    FailResponse { ok: true, status: MonitorStatus::derive(monitor, now) }
}

/// The listing row for one monitor at time `now`.
pub open spec fn spec_list_item(m: MonitorV, now: i64) -> ListItemV {
    ListItemV { slug: m.slug, status: spec_status(m, now), last_ping: m.last_ping, next_due: m.next_due }
}

/// The views of a sequence of listing rows.
pub open spec fn item_views(s: Seq<MonitorListItem>) -> Seq<ListItemV> {
    Seq::new(s.len(), |i: int| s[i]@)
}

/// The rows are in slug order.
pub open spec fn sorted_by_slug(items: Seq<ListItemV>) -> bool {
    forall|i: int, j: int| 0 <= i < j < items.len() ==> lex_le(items[i].slug, items[j].slug)
}

fn insert_sorted(out: &mut Vec<MonitorListItem>, item: MonitorListItem)
    requires
        sorted_by_slug(item_views(old(out)@)),
    ensures
        sorted_by_slug(item_views(final(out)@)),
        item_views(final(out)@).to_multiset() == item_views(old(out)@).to_multiset().insert(
            item@,
        ),
{
    let n = out.len();
    let mut pos: usize = 0;
    loop
        invariant_except_break
            pos <= n,
            n == out@.len(),
            sorted_by_slug(item_views(out@)),
            out@ == old(out)@,
            forall|j: int| 0 <= j < pos ==> lex_le(item_views(out@)[j].slug, item@.slug),
        ensures
            pos <= n,
            n == out@.len(),
            out@ == old(out)@,
            forall|j: int| 0 <= j < pos ==> lex_le(item_views(out@)[j].slug, item@.slug),
            pos < n ==> !lex_le(item_views(out@)[pos as int].slug, item@.slug),
        decreases n - pos,
    {
        if pos >= n {
            break;
        }
        if !crate::text::str_le(out[pos].slug.as_str(), item.slug.as_str()) {
            break;
        }
        pos = pos + 1;
    }
    let ghost prev = out@;
    let ghost itemv = item@;
    out.insert(pos, item);
    proof {
        broadcast use vstd::seq_lib::to_multiset_insert;

        assert(item_views(out@) =~= item_views(prev).insert(pos as int, itemv));
        assert(item_views(prev).insert(pos as int, itemv).to_multiset() =~= item_views(
            prev,
        ).to_multiset().insert(itemv));
        if (pos as int) < prev.len() {
            lemma_lex_total(prev[pos as int]@.slug, itemv.slug);
        }
        assert forall|i: int, j: int|
            0 <= i < j < item_views(out@).len() implies lex_le(
            item_views(out@)[i].slug,
            item_views(out@)[j].slug,
        ) by {
            let iv = item_views(out@);
            let pv = item_views(prev);
            if i < pos && j == pos {
                assert(iv[i] == pv[i]);
            } else if i == pos && j > pos {
                assert(iv[j] == pv[j - 1]);
                assert(j - 1 >= pos);
                if j - 1 == pos {
                    assert(lex_le(itemv.slug, pv[pos as int].slug));
                } else {
                    assert(lex_le(pv[pos as int].slug, pv[j - 1].slug));
                    lemma_lex_trans(itemv.slug, pv[pos as int].slug, pv[j - 1].slug);
                }
            } else if i < pos && j > pos {
                assert(iv[i] == pv[i] && iv[j] == pv[j - 1]);
                if i == j - 1 {
                    assert(lex_le(pv[i].slug, itemv.slug));
                    assert(iv[j] == pv[i]);
                    assert(false);
                } else {
                    assert(lex_le(pv[i].slug, pv[j - 1].slug));
                }
            } else if i > pos || j < pos {
                assert(iv[i] == pv[i - (if i > pos { 1int } else { 0int })]);
            }
        }
    }
}

/// Record a heartbeat ping, creating the monitor on first ping. The slug
/// must validate; a given interval string must parse and respect the
/// bounds; an existing monitor pinged without an interval keeps its own.
/// On success the monitor's cadence fields are upserted (creation time,
/// alert state and pause flag of an existing row survive) and the response
/// reports the fresh record's status and due time.
pub fn handle_ping(
    store: &mut crate::store::MemoryStore,
    slug_str: &str,
    query: &HeartbeatQuery,
    now: i64,
) -> (r: Result<HeartbeatResponse, ApiError>)
    requires
        old(store).wf(),
        0 <= now,
        now + crate::interval::MAX_INTERVAL_SECS <= i64::MAX,
        forall|k: Seq<char>| #[trigger]
            old(store)@.contains_key(k) ==> crate::cycle::sane_monitor_times(old(store)@[k]),
    ensures
        final(store).wf(),
        !crate::slug::is_valid_slug(slug_str@) ==> final(store)@ == old(store)@ && (r matches Err(
            ApiError::InvalidSlug(m),
        ) && m@ == crate::slug::slug_error_text(crate::slug::spec_slug_error(slug_str@))),
        crate::slug::is_valid_slug(slug_str@) ==> ({
            let existing = if old(store)@.contains_key(slug_str@) {
                Some(old(store)@[slug_str@].interval_secs)
            } else {
                None
            };
            match spec_resolved_interval(opt_str_view(&query.interval), existing) {
                Err(m) => final(store)@ == old(store)@ && (r matches Err(
                    ApiError::InvalidInterval(mm),
                ) && mm@ == m),
                Ok(secs) => {
                    let m = crate::model::pinged_monitor(slug_str@, secs, now);
                    &&& final(store)@ == old(store)@.insert(
                        slug_str@,
                        crate::store::upserted_record(m, old(store)@),
                    )
                    &&& r matches Ok(resp) && resp.ok == true && resp.status == spec_status(m, now)
                        && resp.next_due@ == next_due_text(m.next_due)
                },
            }
        }),
{
    let slug = match crate::slug::Slug::new(slug_str) {
        Ok(slug) => slug,
        Err(e) => {
            proof {
                assert(e == crate::slug::spec_slug_error(slug_str@));
            }
            return Err(ApiError::InvalidSlug(e.message()));
        },
    };
    let existing_interval = match store.get(slug.as_str()) {
        Some(m) => Some(m.interval_secs),
        None => None,
    };
    let interval_secs = match resolve_interval(&query.interval, existing_interval) {
        Ok(secs) => secs,
        Err(e) => {
            return Err(e);
        },
    };
    let monitor = crate::model::ping_monitor(&slug, interval_secs, now);
    store.upsert(&monitor);
    Ok(build_heartbeat_response(&monitor, now))
}

/// Force a monitor overdue: write a record whose due time is `0`, keeping
/// the existing interval when the monitor is known and the default
/// otherwise. Creates the monitor in overdue state if absent.
pub fn handle_fail(store: &mut crate::store::MemoryStore, slug_str: &str, now: i64) -> (r: Result<
    FailResponse,
    ApiError,
>)
    requires
        old(store).wf(),
        0 <= now,
        now + crate::interval::MAX_INTERVAL_SECS <= i64::MAX,
        forall|k: Seq<char>| #[trigger]
            old(store)@.contains_key(k) ==> crate::cycle::sane_monitor_times(old(store)@[k]),
    ensures
        final(store).wf(),
        !crate::slug::is_valid_slug(slug_str@) ==> final(store)@ == old(store)@ && (r matches Err(
            ApiError::InvalidSlug(m),
        ) && m@ == crate::slug::slug_error_text(crate::slug::spec_slug_error(slug_str@))),
        crate::slug::is_valid_slug(slug_str@) ==> ({
            let secs = if old(store)@.contains_key(slug_str@) {
                old(store)@[slug_str@].interval_secs
            } else {
                DEFAULT_INTERVAL_SECS
            };
            let m = crate::model::failed_monitor(slug_str@, secs, now);
            &&& final(store)@ == old(store)@.insert(
                slug_str@,
                crate::store::upserted_record(m, old(store)@),
            )
            &&& r matches Ok(resp) && resp.ok == true && resp.status == spec_status(m, now)
        }),
{
    let slug = match crate::slug::Slug::new(slug_str) {
        Ok(slug) => slug,
        Err(e) => {
            proof {
                assert(e == crate::slug::spec_slug_error(slug_str@));
            }
            return Err(ApiError::InvalidSlug(e.message()));
        },
    };
    let interval_secs = match store.get(slug.as_str()) {
        Some(m) => m.interval_secs,
        None => crate::model::DEFAULT_INTERVAL_SECS,
    };
    let monitor = crate::model::fail_monitor(&slug, interval_secs, now);
    store.upsert(&monitor);
    Ok(build_fail_response(&monitor, now))
}

/// Delete a monitor; an unknown slug is a distinct "not found" outcome.
pub fn handle_delete(store: &mut crate::store::MemoryStore, slug_str: &str) -> (r: Result<
    (),
    ApiError,
>)
    requires
        old(store).wf(),
    ensures
        final(store).wf(),
        !crate::slug::is_valid_slug(slug_str@) ==> final(store)@ == old(store)@ && (r matches Err(
            ApiError::InvalidSlug(m),
        ) && m@ == crate::slug::slug_error_text(crate::slug::spec_slug_error(slug_str@))),
        crate::slug::is_valid_slug(slug_str@) && old(store)@.contains_key(slug_str@) ==> r is Ok
            && final(store)@ == old(store)@.remove(slug_str@),
        crate::slug::is_valid_slug(slug_str@) && !old(store)@.contains_key(slug_str@) ==> final(store)@ == old(store)@ && (r matches Err(ApiError::NotFound(m)) && m@ == slug_str@),
{
    let slug = match crate::slug::Slug::new(slug_str) {
        Ok(slug) => slug,
        Err(e) => {
            proof {
                assert(e == crate::slug::spec_slug_error(slug_str@));
            }
            return Err(ApiError::InvalidSlug(e.message()));
        },
    };
    match store.delete(slug.as_str()) {
        Ok(()) => Ok(()),
        Err(e) => Err(ApiError::from(e)),
    }
}

/// Pause or unpause a monitor. The stored alert-state fields are left
/// untouched; the check cycle simply suppresses notifications while the
/// monitor is paused. An unknown slug is a distinct "not found" outcome.
pub fn handle_set_paused(
    store: &mut crate::store::MemoryStore,
    slug_str: &str,
    paused: bool,
) -> (r: Result<(), ApiError>)
    requires
        old(store).wf(),
    ensures
        final(store).wf(),
        !crate::slug::is_valid_slug(slug_str@) ==> final(store)@ == old(store)@ && (r matches Err(
            ApiError::InvalidSlug(m),
        ) && m@ == crate::slug::slug_error_text(crate::slug::spec_slug_error(slug_str@))),
        crate::slug::is_valid_slug(slug_str@) && old(store)@.contains_key(slug_str@) ==> r is Ok
            && final(store)@ == old(store)@.insert(
            slug_str@,
            MonitorV { paused: Some(paused), ..old(store)@[slug_str@] },
        ),
        crate::slug::is_valid_slug(slug_str@) && !old(store)@.contains_key(slug_str@) ==> final(store)@ == old(store)@ && (r matches Err(ApiError::NotFound(m)) && m@ == slug_str@),
{
    let slug = match crate::slug::Slug::new(slug_str) {
        Ok(slug) => slug,
        Err(e) => {
            proof {
                assert(e == crate::slug::spec_slug_error(slug_str@));
            }
            return Err(ApiError::InvalidSlug(e.message()));
        },
    };
    match store.set_paused(slug.as_str(), paused) {
        Ok(()) => Ok(()),
        Err(e) => Err(ApiError::from(e)),
    }
}

/// List every monitor with its derived status, sorted by slug.
pub fn handle_list(store: &crate::store::MemoryStore, now: i64) -> (r: MonitorListResponse)
    requires
        store.wf(),
    ensures
        sorted_by_slug(item_views(r.monitors@)),
        forall|l: int|
            0 <= l < r.monitors@.len() ==> store@.contains_key(#[trigger] r.monitors@[l]@.slug)
                && r.monitors@[l]@ == spec_list_item(store@[r.monitors@[l]@.slug], now),
        forall|k: Seq<char>| #[trigger]
            store@.contains_key(k) ==> exists|l: int|
                0 <= l < r.monitors@.len() && #[trigger] r.monitors@[l]@.slug == k,
        forall|l1: int, l2: int|
            0 <= l1 < l2 < r.monitors@.len() ==> r.monitors@[l1]@.slug != r.monitors@[l2]@.slug,
{
    let rows = store.list();
    let items = list_items(&rows, now);
    proof {
        broadcast use vstd::seq_lib::group_to_multiset_ensures;

        let target = Seq::new(rows@.len(), |i: int| spec_list_item(rows@[i]@, now));
        let iv = item_views(items@);
        assert forall|l: int|
            0 <= l < items@.len() implies store@.contains_key(#[trigger] items@[l]@.slug)
            && items@[l]@ == spec_list_item(store@[items@[l]@.slug], now) by {
            assert(iv.contains(iv[l]));
            assert(iv.to_multiset().count(iv[l]) > 0);
            assert(target.to_multiset().count(iv[l]) > 0);
            assert(target.contains(iv[l]));
            let i = choose|i: int| 0 <= i < target.len() && target[i] == iv[l];
            assert(target[i] == spec_list_item(rows@[i]@, now));
            assert(store@.contains_key(rows@[i]@.slug));
            assert(store@[rows@[i]@.slug] == rows@[i]@);
        }
        assert forall|k: Seq<char>| #[trigger] store@.contains_key(k) implies exists|l: int|
            0 <= l < items@.len() && #[trigger] items@[l]@.slug == k by {
            let i = choose|i: int| 0 <= i < rows@.len() && #[trigger] rows@[i]@.slug == k;
            assert(target[i] == spec_list_item(rows@[i]@, now));
            assert(target.contains(target[i]));
            assert(target.to_multiset().count(target[i]) > 0);
            assert(iv.to_multiset().count(target[i]) > 0);
            assert(iv.contains(target[i]));
            let l = choose|l: int| 0 <= l < iv.len() && iv[l] == target[i];
            assert(items@[l]@.slug == k);
        }
        // No row appears twice: the scan rows carry distinct slugs, so the
        // target has no duplicate values, and the multiset equality carries
        // that over to the listing.
        assert(target.no_duplicates()) by {
            assert forall|i: int, j: int|
                0 <= i < target.len() && 0 <= j < target.len() && i != j implies target[i]
                != target[j] by {
                assert(rows@[i]@.slug != rows@[j]@.slug || rows@[j]@.slug != rows@[i]@.slug);
                assert(target[i].slug == rows@[i]@.slug && target[j].slug == rows@[j]@.slug);
            }
        }
        target.lemma_multiset_has_no_duplicates();
        iv.lemma_multiset_has_no_duplicates_conv();
        assert(iv.no_duplicates());
        assert forall|l1: int, l2: int|
            0 <= l1 < l2 < items@.len() implies items@[l1]@.slug != items@[l2]@.slug by {
            if items@[l1]@.slug == items@[l2]@.slug {
                assert(items@[l1]@ == spec_list_item(store@[items@[l1]@.slug], now));
                assert(items@[l2]@ == spec_list_item(store@[items@[l2]@.slug], now));
                assert(iv[l1] == iv[l2]);
            }
        }
    }
    MonitorListResponse { monitors: items }
}

/// Render every monitor as a listing row and sort the rows by slug.
pub fn list_items(monitors: &Vec<Monitor>, now: i64) -> (r: Vec<MonitorListItem>)
    ensures
        item_views(r@).to_multiset() == Seq::new(
            monitors@.len(),
            |i: int| spec_list_item(monitors@[i]@, now),
        ).to_multiset(),
        sorted_by_slug(item_views(r@)),
{
    let ghost target = Seq::new(monitors@.len(), |i: int| spec_list_item(monitors@[i]@, now));
    let n = monitors.len();
    let mut out: Vec<MonitorListItem> = Vec::new();
    let mut i: usize = 0;
    proof {
        broadcast use vstd::seq_lib::to_multiset_build;

        assert(item_views(out@) =~= Seq::<ListItemV>::empty());
        assert(target.take(0) =~= Seq::<ListItemV>::empty());
    }
    while i < n
        invariant
            i <= n,
            n == monitors@.len(),
            target == Seq::new(monitors@.len(), |l: int| spec_list_item(monitors@[l]@, now)),
            sorted_by_slug(item_views(out@)),
            item_views(out@).to_multiset() == target.take(i as int).to_multiset(),
        decreases n - i,
    {
        let m = &monitors[i];
        let item = MonitorListItem {
            slug: m.slug.clone(),
            status: MonitorStatus::derive(m, now),
            last_ping: m.last_ping,
            next_due: m.next_due,
        };
        proof {
            assert(item@ == target[i as int]);
        }
        let ghost before = item_views(out@).to_multiset();
        insert_sorted(&mut out, item);
        proof {
            broadcast use vstd::seq_lib::to_multiset_build;

            assert(target.take(i as int + 1) =~= target.take(i as int).push(target[i as int]));
            assert(target.take(i as int).push(target[i as int]).to_multiset() =~= target.take(
                i as int,
            ).to_multiset().insert(target[i as int]));
        }
        i = i + 1;
    }
    proof {
        assert(target.take(n as int) =~= target);
    }
    out
}

} // verus!
