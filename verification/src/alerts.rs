//! Notification text: escaping for the sink's markup and the three message
//! shapes (first alert, repeat alert, recovery).

use vstd::prelude::*;

verus! {

/// A character the sink's markup reserves; it must be escaped outside of
/// backtick code spans.
pub open spec fn is_markup_special(c: char) -> bool {
    ||| c == '_'
    ||| c == '*'
    ||| c == '['
    ||| c == ']'
    ||| c == '('
    ||| c == ')'
    ||| c == '~'
    ||| c == '`'
    ||| c == '>'
    ||| c == '#'
    ||| c == '+'
    ||| c == '-'
    ||| c == '='
    ||| c == '|'
    ||| c == '{'
    ||| c == '}'
    ||| c == '.'
    ||| c == '!'
}

/// One character of escaped output: a backslash is prefixed to reserved
/// characters.
pub open spec fn escaped_char(c: char) -> Seq<char> {
    if is_markup_special(c) {
        seq!['\\', c]
    } else {
        seq![c]
    }
}

/// `s` with every reserved character escaped.
pub open spec fn escaped_text(s: Seq<char>) -> Seq<char>
    decreases s.len(),
{
    if s.len() == 0 {
        Seq::empty()
    } else {
        escaped_char(s[0]) + escaped_text(s.skip(1))
    }
}

/// `s` escaped outside backtick code spans: backticks toggle the span state
/// and pass through; inside a span nothing is escaped; outside, an existing
/// backslash escape passes through unchanged and reserved characters gain a
/// backslash.
pub open spec fn escaped_outside_code(s: Seq<char>, in_code: bool) -> Seq<char>
    decreases s.len(),
{
    if s.len() == 0 {
        Seq::empty()
    } else if s[0] == '`' {
        seq!['`'] + escaped_outside_code(s.skip(1), !in_code)
    } else if in_code {
        seq![s[0]] + escaped_outside_code(s.skip(1), in_code)
    } else if s[0] == '\\' {
        if s.len() >= 2 {
            seq!['\\', s[1]] + escaped_outside_code(s.skip(2), in_code)
        } else {
            seq!['\\']
        }
    } else {
        escaped_char(s[0]) + escaped_outside_code(s.skip(1), in_code)
    }
}

fn is_special(c: char) -> (r: bool)
    ensures
        r == is_markup_special(c),
{
    c == '_' || c == '*' || c == '[' || c == ']' || c == '(' || c == ')' || c == '~' || c == '`'
        || c == '>' || c == '#' || c == '+' || c == '-' || c == '=' || c == '|' || c == '{'
        || c == '}' || c == '.' || c == '!'
}

/// Escape every reserved character of `text`, span-blind.
pub fn escape_markdown_v2(text: &str) -> (r: String)
    ensures
        r@ == escaped_text(text@),
{
    let len = text.unicode_len();
    let mut result = String::new();
    let mut i: usize = 0;
    proof {
        assert(text@.skip(0) =~= text@);
    }
    while i < len
        invariant
            i <= len,
            len == text@.len(),
            escaped_text(text@) =~= result@ + escaped_text(text@.skip(i as int)),
        decreases len - i,
    {
        let c = text.get_char(i);
        let ghost prev = result@;
        let ghost rest = text@.skip(i as int);
        proof {
            assert(rest.len() > 0);
            assert(rest[0] == text@[i as int]);
            assert(rest.skip(1) =~= text@.skip(i as int + 1));
        }
        if is_special(c) {
            crate::text::push_char(&mut result, '\\');
        }
        crate::text::push_char(&mut result, c);
        proof {
            assert(result@ =~= prev + escaped_char(c));
            assert(escaped_text(rest) =~= escaped_char(c) + escaped_text(
                text@.skip(i as int + 1),
            ));
            assert(prev + escaped_char(c) + escaped_text(text@.skip(i as int + 1)) =~= prev + (
            escaped_char(c) + escaped_text(text@.skip(i as int + 1))));
        }
        i = i + 1;
    }
    proof {
        assert(text@.skip(len as int) =~= Seq::<char>::empty());
        assert(result@ =~= escaped_text(text@));
    }
    result
}

/// Escape reserved characters of `text` outside backtick code spans, leaving
/// span contents and already-escaped sequences untouched.
pub fn escape_around_code_spans(text: &str) -> (r: String)
    ensures
        r@ == escaped_outside_code(text@, false),
{
    let len = text.unicode_len();
    let mut result = String::new();
    let mut in_code = false;
    let mut i: usize = 0;
    proof {
        assert(text@.skip(0) =~= text@);
    }
    while i < len
        invariant
            i <= len,
            len == text@.len(),
            escaped_outside_code(text@, false) =~= result@ + escaped_outside_code(
                text@.skip(i as int),
                in_code,
            ),
        decreases len - i,
    {
        let c = text.get_char(i);
        let ghost prev = result@;
        let ghost rest = text@.skip(i as int);
        proof {
            assert(rest.len() > 0);
            assert(rest[0] == text@[i as int]);
            assert(rest.skip(1) =~= text@.skip(i as int + 1));
        }
        if c == '`' {
            in_code = !in_code;
            crate::text::push_char(&mut result, c);
            proof {
                assert(result@ =~= prev + seq!['`']);
                assert(prev + seq!['`'] + escaped_outside_code(text@.skip(i as int + 1), in_code)
                    =~= prev + (seq!['`'] + escaped_outside_code(
                    text@.skip(i as int + 1),
                    in_code,
                )));
            }
            i = i + 1;
        } else if c == '\\' && !in_code {
            // An already-escaped sequence passes through as-is.
            crate::text::push_char(&mut result, c);
            if i + 1 < len {
                let c2 = text.get_char(i + 1);
                proof {
                    assert(rest.len() >= 2);
                    assert(rest[1] == text@[i as int + 1]);
                    assert(rest.skip(2) =~= text@.skip(i as int + 2));
                }
                crate::text::push_char(&mut result, c2);
                proof {
                    assert(result@ =~= prev + seq!['\\', c2]);
                    assert(prev + seq!['\\', c2] + escaped_outside_code(
                        text@.skip(i as int + 2),
                        in_code,
                    ) =~= prev + (seq!['\\', c2] + escaped_outside_code(
                        text@.skip(i as int + 2),
                        in_code,
                    )));
                }
                i = i + 2;
            } else {
                proof {
                    assert(rest.len() == 1);
                    assert(result@ =~= prev + seq!['\\']);
                    assert(text@.skip(i as int + 1) =~= Seq::<char>::empty());
                }
                i = i + 1;
            }
        } else if in_code {
            crate::text::push_char(&mut result, c);
            proof {
                assert(result@ =~= prev + seq![c]);
                assert(prev + seq![c] + escaped_outside_code(text@.skip(i as int + 1), in_code)
                    =~= prev + (seq![c] + escaped_outside_code(text@.skip(i as int + 1), in_code)));
            }
            i = i + 1;
        } else {
            if is_special(c) {
                crate::text::push_char(&mut result, '\\');
            }
            crate::text::push_char(&mut result, c);
            proof {
                assert(result@ =~= prev + escaped_char(c));
                assert(prev + escaped_char(c) + escaped_outside_code(
                    text@.skip(i as int + 1),
                    in_code,
                ) =~= prev + (escaped_char(c) + escaped_outside_code(
                    text@.skip(i as int + 1),
                    in_code,
                )));
            }
            i = i + 1;
        }
    }
    proof {
        assert(text@.skip(len as int) =~= Seq::<char>::empty());
        assert(result@ =~= escaped_outside_code(text@, false));
    }
    result
}

/// The text humantime renders for a positive number of seconds.
pub uninterp spec fn human_duration(secs: u64) -> Seq<char>;

/// Relies on `humantime::format_duration` and the `Display` impl of the
/// `FormattedDuration` it returns: the rendered text is a function of the
/// seconds alone (a fixed unit decomposition with fixed unit names), and
/// for a positive count at least one unit prints, so the text is never
/// empty.
#[verifier::external_body]
fn humantime_duration_string(secs: u64) -> (r: String)
    ensures
        r@ == human_duration(secs),
        secs > 0 ==> r@.len() > 0,
{
    humantime::format_duration(core::time::Duration::from_secs(secs)).to_string()
}

/// The `HH:MM UTC` text chrono renders for an epoch in its supported range,
/// `None` outside it.
pub uninterp spec fn hhmm_utc(epoch: i64) -> Option<Seq<char>>;

/// Relies on chrono's `DateTime::<Utc>::from_timestamp` and its `%H:%M UTC`
/// formatting: the text is a function of the epoch seconds alone, and
/// `from_timestamp` returns `None` exactly on out-of-range seconds — its
/// source accepts at least every epoch in `[0, 4_102_444_800]`.
#[verifier::external_body]
fn chrono_hhmm_utc(epoch: i64) -> (r: Option<String>)
    ensures
        r is Some <==> hhmm_utc(epoch) is Some,
        r matches Some(s) ==> Some(s@) == hhmm_utc(epoch),
        0 <= epoch <= 4_102_444_800 ==> r is Some,
{
    chrono::DateTime::<chrono::Utc>::from_timestamp(epoch, 0).map(
        |dt| dt.format("%H:%M UTC").to_string(),
    )
}

/// The duration text used in messages: `0s` for zero, humantime's rendering
/// otherwise.
pub open spec fn duration_text(secs: u64) -> Seq<char> {
    if secs == 0 {
        "0s"@
    } else {
        human_duration(secs)
    }
}

/// The time-of-day text used in messages: chrono's rendering, or a literal
/// placeholder when the timestamp is unrepresentable.
pub open spec fn time_text(epoch: i64) -> Seq<char> {
    match hhmm_utc(epoch) {
        Some(t) => t,
        None => "unknown"@,
    }
}

/// Render a duration in seconds; zero renders as a literal `0s`. The
/// rendering is never empty.
pub fn format_duration(secs: u64) -> (r: String)
    ensures
        r@ == duration_text(secs),
        r@.len() > 0,
{
    if secs == 0 {
        let r = String::from_str("0s");
        proof {
            reveal_strlit("0s");
        }
        r
    } else {
        humantime_duration_string(secs)
    }
}

/// Render an epoch as `HH:MM UTC`; an unrepresentable timestamp renders as
/// a literal placeholder rather than failing.
pub fn format_time(epoch: i64) -> (r: String)
    ensures
        r@ == time_text(epoch),
{
    match chrono_hhmm_utc(epoch) {
        Some(s) => s,
        None => String::from_str("unknown"),
    }
}

/// How late the monitor is: `now - last_ping - interval_secs`, floored at 0.
pub open spec fn late_secs(interval_secs: u64, last_ping: i64, now: i64) -> u64 {
    let d = now - last_ping - interval_secs;
    if d <= 0 {
        0u64
    } else {
        d as u64
    }
}

/// The raw (pre-escaping) first-alert message.
pub open spec fn overdue_message(
    slug: Seq<char>,
    interval_secs: u64,
    last_ping: i64,
    now: i64,
) -> Seq<char> {
    "\u{26a0}\u{fe0f} OVERDUE: `"@ + slug + "` | interval: "@ + duration_text(interval_secs)
        + " | last: "@ + time_text(last_ping) + " | "@ + duration_text(
        late_secs(interval_secs, last_ping, now),
    ) + " late"@
}

/// The raw (pre-escaping) repeat-alert message.
pub open spec fn repeat_message(slug: Seq<char>, total_downtime_secs: u64) -> Seq<char> {
    "\u{26a0}\u{fe0f} STILL OVERDUE: `"@ + slug + "` | down "@ + duration_text(
        total_downtime_secs,
    )
}

/// The raw (pre-escaping) recovery message; its parentheses arrive already
/// escaped and pass through the span-aware escaper unchanged.
pub open spec fn recovery_message(slug: Seq<char>, downtime_secs: u64) -> Seq<char> {
    "\u{2705} RECOVERED: `"@ + slug + "` \\(was down "@ + duration_text(downtime_secs) + "\\)"@
}

/// Format a first-alert message for an overdue monitor.
pub fn format_overdue(slug: &str, interval_secs: u64, last_ping: i64, now: i64) -> (r: String)
    requires
        i64::MIN <= now - last_ping <= i64::MAX,
        interval_secs <= i64::MAX,
    ensures
        r@ == escaped_outside_code(overdue_message(slug@, interval_secs, last_ping, now), false),
{
    let interval = format_duration(interval_secs);
    let last = format_time(last_ping);
    let diff: i64 = now - last_ping;
    let late: u64 = if diff >= 0 && (diff as u64) > interval_secs {
        (diff as u64) - interval_secs
    } else {
        0
    };
    proof {
        assert(late == late_secs(interval_secs, last_ping, now));
    }
    let late_str = format_duration(late);
    let mut raw = String::from_str("\u{26a0}\u{fe0f} OVERDUE: `");
    raw.append(slug);
    raw.append("` | interval: ");
    raw.append(interval.as_str());
    raw.append(" | last: ");
    raw.append(last.as_str());
    raw.append(" | ");
    raw.append(late_str.as_str());
    raw.append(" late");
    proof {
        assert(raw@ =~= overdue_message(slug@, interval_secs, last_ping, now));
    }
    escape_around_code_spans(raw.as_str())
}

/// Format a repeat alert for a still-overdue monitor.
pub fn format_repeat(slug: &str, total_downtime_secs: u64) -> (r: String)
    ensures
        r@ == escaped_outside_code(repeat_message(slug@, total_downtime_secs), false),
{
    let downtime = format_duration(total_downtime_secs);
    let mut raw = String::from_str("\u{26a0}\u{fe0f} STILL OVERDUE: `");
    raw.append(slug);
    raw.append("` | down ");
    raw.append(downtime.as_str());
    proof {
        assert(raw@ =~= repeat_message(slug@, total_downtime_secs));
    }
    escape_around_code_spans(raw.as_str())
}

/// Format a recovery message for a monitor whose pings resumed.
pub fn format_recovery(slug: &str, downtime_secs: u64) -> (r: String)
    ensures
        r@ == escaped_outside_code(recovery_message(slug@, downtime_secs), false),
{
    let downtime = format_duration(downtime_secs);
    let mut raw = String::from_str("\u{2705} RECOVERED: `");
    raw.append(slug);
    raw.append("` \\(was down ");
    raw.append(downtime.as_str());
    raw.append("\\)");
    proof {
        assert(raw@ =~= recovery_message(slug@, downtime_secs));
    }
    escape_around_code_spans(raw.as_str())
}

/// On text with no backtick and no backslash, span-aware escaping (started
/// outside a span) agrees with the span-blind escaper.
pub proof fn lemma_escape_plain_agreement(s: Seq<char>)
    requires
        forall|i: int| 0 <= i < s.len() ==> s[i] != '`' && s[i] != '\\',
    ensures
        escaped_outside_code(s, false) == escaped_text(s),
    decreases s.len(),
{
    if s.len() > 0 {
        lemma_escape_plain_agreement(s.skip(1));
    }
}

} // verus!
