//! The clock and the calendar.

use vstd::prelude::*;

verus! {

/// A moment: the whole seconds since the Unix epoch, leap seconds not counted,
/// and the nanoseconds since the last of them. A leap second is the second
/// thousand million nanoseconds of the second before it.
#[derive(Debug, Clone, Copy, PartialEq, Eq, Hash, Structural)]
pub struct Moment {
    pub secs: i64,
    pub nanos: u32,
}

/// Whether a moment is one that the calendar covers: from the year -262143 to
/// the year 262142, with a leap second at the end of a minute at most.
pub open spec fn valid_instant(m: Moment) -> bool {
    &&& -8_334_601_228_800 <= m.secs <= 8_210_266_876_799
    &&& m.nanos < 2_000_000_000
    &&& in_leap_second(m) ==> m.secs % 60 == 59
}

/// Whether a moment falls into a leap second.
pub open spec fn in_leap_second(m: Moment) -> bool {
    m.nanos >= 1_000_000_000
}

/// The leap second to be added or taken off between two moments: that of the
/// moment that is earlier in its day counts as over.
pub open spec fn leap_between(from: Moment, to: Moment) -> int {
    if to.secs % 86_400 > from.secs % 86_400 && in_leap_second(from) {
        1
    } else if to.secs % 86_400 < from.secs % 86_400 && in_leap_second(to) {
        -1
    } else {
        0
    }
}

/// The milliseconds since the Unix epoch.
pub open spec fn unix_millis(m: Moment) -> int {
    m.secs * 1000 + m.nanos / 1_000_000
}

/// The nanoseconds from one moment to another.
pub open spec fn nanos_between(from: Moment, to: Moment) -> int {
    (to.secs - from.secs + leap_between(from, to)) * 1_000_000_000 + (to.nanos - from.nanos)
}

/// The whole milliseconds from one moment to another, or back from a later to an
/// earlier one.
pub open spec fn millis_between(from: Moment, to: Moment) -> int {
    let d = nanos_between(from, to);
    if d >= 0 {
        d / 1_000_000
    } else {
        -((-d) / 1_000_000)
    }
}

/// The time between two moments outside leap seconds is the difference of the times
/// since the epoch, in whole milliseconds, and turns its sign when the moments are
/// swapped.
pub proof fn law_time_between(from: Moment, to: Moment)
    requires
        from.nanos < 1_000_000_000,
        to.nanos < 1_000_000_000,
    ensures
        millis_between(from, to) == -millis_between(to, from),
        millis_between(from, from) == 0,
        nanos_between(from, to) == (to.secs * 1_000_000_000 + to.nanos) - (from.secs * 1_000_000_000
            + from.nanos),
        from.secs <= to.secs && from.nanos <= to.nanos ==> millis_between(from, to) == (to.secs
            - from.secs) * 1000 + (to.nanos - from.nanos) / 1_000_000,
{
}

/// A leap second counts as a second that is over where the other moment comes later in
/// its day, and is part of the time between two moments of one second of the day.
pub proof fn law_leap_seconds_count(from: Moment, to: Moment)
    ensures
        from.nanos >= 1_000_000_000 && to.secs % 86_400 > from.secs % 86_400 ==> nanos_between(
            from,
            to,
        ) == (to.secs - from.secs + 1) * 1_000_000_000 + to.nanos - from.nanos,
        to.nanos >= 1_000_000_000 && to.secs % 86_400 < from.secs % 86_400 ==> nanos_between(
            from,
            to,
        ) == (to.secs - from.secs - 1) * 1_000_000_000 + to.nanos - from.nanos,
        to.secs % 86_400 == from.secs % 86_400 ==> nanos_between(from, to) == (to.secs - from.secs)
            * 1_000_000_000 + to.nanos - from.nanos,
        nanos_between(from, to) >= 0 ==> millis_between(from, to) == nanos_between(from, to)
            / 1_000_000,
        nanos_between(from, to) < 0 ==> millis_between(from, to) == -((-nanos_between(from, to))
            / 1_000_000),
{
}

/// The calendar covers the moments from its first to its last second; a leap second ends
/// a minute.
pub proof fn law_what_the_calendar_covers(m: Moment)
    ensures
        valid_instant(m) <==> -8_334_601_228_800 <= m.secs && m.secs <= 8_210_266_876_799 && (m.nanos
            < 1_000_000_000 || (m.nanos < 2_000_000_000 && m.secs % 60 == 59)),
{
}

/// The milliseconds since the epoch count a thousand for every second.
pub proof fn law_unix_millis(m: Moment)
    ensures
        m.nanos == 0 ==> unix_millis(m) == m.secs * 1000,
        unix_millis(m) * 1_000_000 <= m.secs * 1_000_000_000 + m.nanos < (unix_millis(m) + 1)
            * 1_000_000,
{
}

/// `chrono::Utc::now`, by `DateTime::timestamp` and
/// `DateTime::timestamp_subsec_nanos`. Nothing is claimed of the moment but that
/// the calendar covers it, as it does every `DateTime<Utc>`.
#[verifier::external_body]
pub(crate) fn current_moment() -> (r: Moment)
    ensures
        valid_instant(r),
{
    let t = chrono::Utc::now();
    Moment { secs: t.timestamp(), nanos: t.timestamp_subsec_nanos() }
}

/// Whether the calendar covers a moment.
pub fn in_calendar(m: Moment) -> (r: bool)
    ensures
        r == valid_instant(m),
{
    -8_334_601_228_800 <= m.secs && m.secs <= 8_210_266_876_799 && m.nanos < 2_000_000_000 && (
    m.nanos < 1_000_000_000 || second_of_day(m.secs) % 60 == 59)
}

/// The seconds since midnight.
fn second_of_day(secs: i64) -> (r: u64)
    requires
        -8_334_601_228_800 <= secs <= 8_210_266_876_799,
    ensures
        r == secs % 86_400,
        r % 60 == secs % 60,
{
    let since_first_day: u64 = (secs + 8_334_601_228_800) as u64;
    since_first_day % 86_400
}

/// The milliseconds since the Unix epoch.
pub fn to_unix_millis(m: Moment) -> (r: i64)
    requires
        valid_instant(m),
    ensures
        r == unix_millis(m),
{
    m.secs * 1000 + (m.nanos / 1_000_000) as i64
}

/// The whole milliseconds from one moment to another, or back from a later to an
/// earlier one.
pub fn elapsed_millis(from: Moment, to: Moment) -> (r: i64)
    requires
        valid_instant(from),
        valid_instant(to),
    ensures
        r == millis_between(from, to),
{
    let start: u64 = second_of_day(from.secs);
    let end: u64 = second_of_day(to.secs);
    let leap: i128 = if end > start && from.nanos >= 1_000_000_000 {
        1
    } else if end < start && to.nanos >= 1_000_000_000 {
        -1
    } else {
        0
    };
    let d: i128 = (to.secs as i128 - from.secs as i128 + leap) * 1_000_000_000 + (to.nanos as i128
        - from.nanos as i128);
    if d >= 0 {
        (d / 1_000_000) as i64
    } else {
        -(((-d) / 1_000_000) as i64)
    }
}

/// The pattern for a day: year, month and day.
pub open spec fn day_pattern() -> Seq<char> {
    "%Y%m%d"@
}

/// The pattern for date and time to the second.
pub open spec fn moment_pattern() -> Seq<char> {
    "%Y-%m-%d %H:%M:%S"@
}

/// A moment in UTC under a pattern of conversions such as `%Y`.
pub uninterp spec fn utc_text(secs: i64, nanos: u32, pattern: Seq<char>) -> Seq<char>;

/// `chrono::DateTime::format`, of the moment that `DateTime::from_timestamp`
/// gives, under a pattern for a day or for date and time. The text is a function
/// of the moment and the pattern. For a moment outside the calendar there is
/// none.
#[verifier::external_body]
fn format_utc(m: Moment, pattern: &str) -> (r: String)
    requires
        valid_instant(m),
        pattern@ == day_pattern() || pattern@ == moment_pattern(),
    ensures
        r@ == utc_text(m.secs, m.nanos, pattern@),
{
    chrono::DateTime::from_timestamp(m.secs, m.nanos).unwrap().format(pattern).to_string()
}

/// The day of a moment in UTC, as year, month and day.
pub open spec fn utc_day(m: Moment) -> Seq<char> {
    utc_text(m.secs, m.nanos, day_pattern())
}

/// The day of a moment in UTC, as year, month and day.
pub(crate) fn format_day(m: Moment) -> (r: String)
    requires
        valid_instant(m),
    ensures
        r@ == utc_day(m),
{
    format_utc(m, "%Y%m%d")
}

/// A moment in UTC, as date and time to the second.
pub open spec fn utc_moment(m: Moment) -> Seq<char> {
    utc_text(m.secs, m.nanos, moment_pattern())
}

/// A moment in UTC, as date and time to the second.
pub(crate) fn format_moment(m: Moment) -> (r: String)
    requires
        valid_instant(m),
    ensures
        r@ == utc_moment(m),
{
    format_utc(m, "%Y-%m-%d %H:%M:%S")
}

} // verus!
