//! Parsing of ping interval strings.

use vstd::prelude::*;

verus! {

/// Minimum allowed interval: 30 seconds.
pub const MIN_INTERVAL_SECS: u64 = 30;

/// Maximum allowed interval: 365 days.
pub const MAX_INTERVAL_SECS: u64 = 365 * 24 * 60 * 60;

/// Cap on the decimal digits of a string handed to humantime. Eleven
/// digits admit every interval of interest many times over (365 days is
/// eight digits) while keeping the parser's seconds accumulator far below
/// the top of the `u64` range, where its final carry could overflow.
pub const PARSE_DIGIT_LIMIT: usize = 11;

/// What humantime parses the string to: whole seconds and subsecond
/// nanoseconds, or `None` when it cannot read the string.
pub uninterp spec fn human_parsed(s: Seq<char>) -> Option<(u64, u32)>;

/// Relies on `humantime::parse_duration`: the parse is a function of the
/// string alone; the pair carries whole seconds and subsecond nanoseconds
/// of the parsed duration.
///
/// The digit bound keeps the call off the parser's one unchecked edge:
/// its accumulation arithmetic is all checked, but when the accumulated
/// nanoseconds land on exactly one billion (the carry test is strict) it
/// builds a `Duration` whose own carry panics if the seconds sit at
/// `u64::MAX`. Every parsed number comes from the string's decimal
/// digits, and with at most eleven of them the seconds total stays near
/// 3 * 10^18, several times under that ceiling, so the call returns
/// normally.
#[verifier::external_body]
fn humantime_parse(s: &str) -> (r: Option<(u64, u32)>)
    requires
        crate::text::dec_digit_count(s@) <= PARSE_DIGIT_LIMIT,
    ensures
        r == human_parsed(s@),
{
    match humantime::parse_duration(s) {
        Ok(d) => Some((d.as_secs(), d.subsec_nanos())),
        Err(_) => None,
    }
}

/// What `parse_interval` yields: humantime's reading when it succeeds,
/// else the string read as a plain count of seconds. A string with more
/// digits than the humantime cap — far outside any acceptable interval —
/// is read as plain seconds only.
pub open spec fn spec_parse_interval(s: Seq<char>) -> Option<(u64, u32)> {
    if crate::text::dec_digit_count(s) <= PARSE_DIGIT_LIMIT {
        match human_parsed(s) {
            Some(d) => Some(d),
            None => match crate::text::spec_parse_u64(s) {
                Some(n) => Some((n, 0u32)),
                None => None,
            },
        }
    } else {
        match crate::text::spec_parse_u64(s) {
            Some(n) => Some((n, 0u32)),
            None => None,
        }
    }
}

/// Parse an interval string as seconds and nanoseconds.
///
/// Accepts human-readable shorthand (`5m`, `1h30m`, `30s`) or raw seconds
/// as a plain integer (`300`); yields `None` for anything else. Strings
/// with more than eleven digits skip the shorthand parser and are read as
/// plain seconds only.
pub fn parse_interval(s: &str) -> (r: Option<(u64, u32)>)
    ensures
        r == spec_parse_interval(s@),
{
    if crate::text::count_dec_digits(s) <= PARSE_DIGIT_LIMIT {
        match humantime_parse(s) {
            Some(d) => Some(d),
            None => match crate::text::parse_u64(s) {
                Some(n) => Some((n, 0u32)),
                None => None,
            },
        }
    } else {
        match crate::text::parse_u64(s) {
            Some(n) => Some((n, 0u32)),
            None => None,
        }
    }
}

/// The parsed duration falls short of the 30-second minimum.
pub open spec fn interval_too_short(d: (u64, u32)) -> bool {
    d.0 < MIN_INTERVAL_SECS
}

/// The parsed duration exceeds the 365-day maximum.
pub open spec fn interval_too_long(d: (u64, u32)) -> bool {
    d.0 > MAX_INTERVAL_SECS || (d.0 == MAX_INTERVAL_SECS && d.1 > 0)
}

} // verus!
