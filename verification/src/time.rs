//! Instants on the UTC time line, the clock, and calendar rendering.

use vstd::prelude::*;

verus! {

/// An instant as seconds and nanoseconds since the Unix epoch, the pair
/// that `chrono::DateTime<Utc>` reports through `timestamp()` and
/// `timestamp_subsec_nanos()`.
#[derive(Clone, Copy, Debug, PartialEq, Eq, Structural)]
pub struct Timestamp {
    pub secs: i64,
    pub nanos: u32,
}

/// Nanoseconds since the epoch.
pub open spec fn ts_nanos(t: Timestamp) -> int {
    t.secs * 1_000_000_000 + t.nanos
}

/// The nanoseconds from `earlier` to `later` (negative when `later` is before).
pub open spec fn nanos_between(later: Timestamp, earlier: Timestamp) -> int {
    ts_nanos(later) - ts_nanos(earlier)
}

/// Whole seconds from `earlier` to `later`, truncated toward zero, as
/// `(later - earlier).num_seconds()`.
pub open spec fn whole_seconds_between(later: Timestamp, earlier: Timestamp) -> int {
    let d = nanos_between(later, earlier);
    if d >= 0 {
        d / 1_000_000_000
    } else {
        -((-d) / 1_000_000_000)
    }
}

/// The nanoseconds from `earlier` to `later`, computed without overflow.
pub fn nanos_diff(later: Timestamp, earlier: Timestamp) -> (d: i128)
    ensures
        d == nanos_between(later, earlier),
{
    let a = (later.secs as i128) * 1_000_000_000 + (later.nanos as i128);
    let b = (earlier.secs as i128) * 1_000_000_000 + (earlier.nanos as i128);
    a - b
}

/// The instant `secs` whole seconds after `t`.
pub open spec fn plus_seconds(t: Timestamp, secs: i64) -> Timestamp {
    Timestamp { secs: (t.secs + secs) as i64, nanos: t.nanos }
}

/// Reads the system clock.
/// Trusted: `chrono::Utc::now()`; of the instant it returns only that its
/// nanoseconds are below one second (chrono builds it from the system time
/// since the epoch, with no leap second).
#[verifier::external_body]
pub(crate) fn utc_now() -> (t: Timestamp)
    ensures
        t.nanos < 1_000_000_000,
{
    let now = chrono::Utc::now();
    Timestamp { secs: now.timestamp(), nanos: now.timestamp_subsec_nanos() }
}

/// The text that chrono's `format(pattern)` renders for the instant with
/// these seconds and nanoseconds, or `None` where chrono has no such instant.
pub uninterp spec fn chrono_format(secs: i64, nanos: u32, pattern: Seq<char>) -> Option<Seq<char>>;

/// Renders an instant with a strftime-like pattern.
/// Trusted: `chrono::DateTime::<Utc>::from_timestamp(secs, nanos)` and then
/// `format(pattern).to_string()`; the text is named `chrono_format`, and
/// `None` stands for an instant outside chrono's range. The pattern must be
/// one of the two this crate uses, both made of valid specifiers.
#[verifier::external_body]
pub(crate) fn format_timestamp(t: Timestamp, pattern: &str) -> (r: Option<String>)
    requires
        pattern@ == "%Y-%m-%d %H:%M:%SZ"@ || pattern@ == "%b %-d, %Y"@,
    ensures
        r matches Some(s) ==> chrono_format(t.secs, t.nanos, pattern@) == Some(s@),
        r is None ==> chrono_format(t.secs, t.nanos, pattern@) is None,
{
    chrono::DateTime::<chrono::Utc>::from_timestamp(t.secs, t.nanos).map(
        |d| d.format(pattern).to_string(),
    )
}

} // verus!
