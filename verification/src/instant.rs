//! Moments in UTC as plain numbers, read from and written as RFC 3339 text.

use vstd::prelude::*;
use chrono::{DateTime, TimeDelta, Utc};

verus! {

/// A moment: whole seconds since 1970-01-01T00:00:00Z and the nanoseconds
/// after them (from one to two billion during a leap second).
#[derive(Clone, Copy, Debug, PartialEq, Eq, Structural)]
pub struct Instant {
    pub seconds: i64,
    pub nanos: u32,
}

/// Seconds of the earliest representable moment, -262143-01-01T00:00:00Z.
pub const EARLIEST_SECONDS: i64 = -8_334_601_228_800;

/// Seconds of the latest representable second, +262142-12-31T23:59:59Z.
pub const LATEST_SECONDS: i64 = 8_210_266_876_799;

/// Whether the calendar can hold the moment: its second is in range and its
/// nanoseconds run past one billion only in the last second of a minute.
pub open spec fn representable(instant: Instant) -> bool {
    &&& EARLIEST_SECONDS <= instant.seconds <= LATEST_SECONDS
    &&& instant.nanos < 2_000_000_000
    &&& (instant.nanos >= 1_000_000_000 ==> instant.seconds % 60 == 59)
}

/// Whether the calendar can hold the moment.
pub fn is_representable(instant: Instant) -> (holds: bool)
    ensures
        holds == representable(instant),
{
    if instant.seconds < EARLIEST_SECONDS || instant.seconds > LATEST_SECONDS || instant.nanos >= 2_000_000_000 {
        return false;
    }
    if instant.nanos < 1_000_000_000 {
        return true;
    }
    let shifted: i64 = instant.seconds - EARLIEST_SECONDS;
    let second = shifted % 60;
    proof {
        assert(EARLIEST_SECONDS % 60 == 0);
        assert((shifted + EARLIEST_SECONDS) % 60 == shifted % 60) by (nonlinear_arith)
            requires
                shifted >= 0,
                EARLIEST_SECONDS == -8_334_601_228_800;
    }
    second == 59
}

/// A representable moment at least a day away from both ends of the
/// calendar's range, so that every zone's wall clock can show it.
pub open spec fn zone_readable(instant: Instant) -> bool {
    &&& representable(instant)
    &&& EARLIEST_SECONDS + 86_400 <= instant.seconds <= LATEST_SECONDS - 86_400
}

/// A moment an RFC 3339 text can denote: its four-digit year and an offset
/// below a day keep it between the year 0000 and the year 9999, give or take a day.
pub open spec fn rfc3339_range(instant: Instant) -> bool {
    -62_167_305_600 <= instant.seconds <= 253_402_387_200
}

/// Whether `a` is no later than `b`.
pub open spec fn not_after(a: Instant, b: Instant) -> bool {
    a.seconds < b.seconds || (a.seconds == b.seconds && a.nanos <= b.nanos)
}

/// Whether `a` is no later than `b`.
pub fn is_not_after(a: Instant, b: Instant) -> (result: bool)
    ensures
        result == not_after(a, b),
{
    a.seconds < b.seconds || (a.seconds == b.seconds && a.nanos <= b.nanos)
}

/// The moment an RFC 3339 text denotes, if it is one.
pub uninterp spec fn rfc3339_instant(text: Seq<char>) -> Option<Instant>;

/// The RFC 3339 text of a moment in UTC (offset written `+00:00`).
pub uninterp spec fn utc_rfc3339(instant: Instant) -> Seq<char>;

/// Whole seconds from `earlier` to `later`, as chrono counts them: the
/// difference of the seconds and of the nanoseconds, where a leap second of
/// the earlier time of day counts once more and one of the later time of day
/// once less when the times of day differ, rounded toward zero.
pub open spec fn whole_seconds_between(later: Instant, earlier: Instant) -> int {
    let later_in_day = later.seconds % 86_400;
    let earlier_in_day = earlier.seconds % 86_400;
    let leap = if later_in_day > earlier_in_day && earlier.nanos >= 1_000_000_000 {
        1int
    } else if later_in_day < earlier_in_day && later.nanos >= 1_000_000_000 {
        -1int
    } else {
        0int
    };
    let frac = later.nanos - earlier.nanos;
    let secs = later.seconds - earlier.seconds + leap + frac / 1_000_000_000;
    if secs < 0 && frac % 1_000_000_000 > 0 {
        secs + 1
    } else {
        secs
    }
}

/// The moment `minutes` minutes before `instant`, when the calendar holds it.
pub uninterp spec fn minutes_before(instant: Instant, minutes: i64) -> Option<Instant>;

/// Reads an RFC 3339 date and time with chrono's `DateTime::parse_from_rfc3339`,
/// then takes its `timestamp` and `timestamp_subsec_nanos`. Claimed: the result
/// is the named moment of the text; any moment read is representable (chrono
/// documents that these two numbers round-trip through `DateTime::from_timestamp`)
/// and lies within a day of the years 0000 to 9999 (the parser takes a
/// four-digit year and an offset below a day).
#[verifier::external_body]
pub(crate) fn parse_instant(text: &str) -> (instant: Option<Instant>)
    ensures
        instant == rfc3339_instant(text@),
        instant matches Some(i) ==> representable(i) && rfc3339_range(i),
{
    match DateTime::parse_from_rfc3339(text) {
        Ok(value) => Some(Instant { seconds: value.timestamp(), nanos: value.timestamp_subsec_nanos() }),
        Err(_) => None,
    }
}

/// Writes a moment with chrono's `DateTime::<Utc>::from_timestamp` and
/// `to_rfc3339`. Claimed: the text is the named one; `from_timestamp` succeeds
/// on every representable moment (its documented range).
#[verifier::external_body]
pub(crate) fn instant_text(instant: Instant) -> (text: String)
    requires
        representable(instant),
    ensures
        text@ == utc_rfc3339(instant),
{
    DateTime::<Utc>::from_timestamp(instant.seconds, instant.nanos).unwrap().to_rfc3339()
}

/// chrono's `signed_duration_since` between two moments, as `num_seconds`.
/// Claimed, as `NaiveDateTime::signed_duration_since` (the days apart plus
/// `NaiveTime::signed_duration_since` of the times of day) and
/// `TimeDelta::num_seconds` compute it: the count above, whose sign follows
/// the order of the moments.
#[verifier::external_body]
pub(crate) fn seconds_between(later: Instant, earlier: Instant) -> (seconds: i64)
    requires
        representable(later),
        representable(earlier),
    ensures
        seconds == whole_seconds_between(later, earlier),
        not_after(earlier, later) ==> seconds >= 0,
        not_after(later, earlier) ==> seconds <= 0,
{
    let later = DateTime::<Utc>::from_timestamp(later.seconds, later.nanos).unwrap();
    let earlier = DateTime::<Utc>::from_timestamp(earlier.seconds, earlier.nanos).unwrap();
    later.signed_duration_since(earlier).num_seconds()
}

/// chrono's `checked_sub_signed` by `TimeDelta::try_minutes`. Claimed: the
/// result is the named one and, when there is one, representable; moving a
/// moderate number of minutes to a second a day inside the range always
/// succeeds, and outside a leap second it keeps the nanoseconds and moves the
/// seconds by sixty per minute. From a leap second a nonzero move first
/// leaves it (`NaiveTime::overflowing_add_signed`): the extra billion
/// nanoseconds are dropped and, moving back, the seconds count one more.
#[verifier::external_body]
pub(crate) fn subtract_minutes(instant: Instant, minutes: i64) -> (shifted: Option<Instant>)
    requires
        representable(instant),
    ensures
        shifted == minutes_before(instant, minutes),
        shifted matches Some(s) ==> representable(s),
        instant.nanos < 1_000_000_000 && -100_000_000_000_000 <= minutes <= 100_000_000_000_000
            && EARLIEST_SECONDS <= instant.seconds - minutes * 60 <= LATEST_SECONDS ==> shifted == Some(
            Instant { seconds: (instant.seconds - minutes * 60) as i64, nanos: instant.nanos },
        ),
        instant.nanos >= 1_000_000_000 && 0 < minutes <= 100_000_000_000_000 && EARLIEST_SECONDS
            <= instant.seconds + 1 - minutes * 60 <= LATEST_SECONDS ==> shifted == Some(
            Instant { seconds: (instant.seconds + 1 - minutes * 60) as i64, nanos: (instant.nanos - 1_000_000_000) as u32 },
        ),
        instant.nanos >= 1_000_000_000 && -100_000_000_000_000 <= minutes < 0 && EARLIEST_SECONDS
            <= instant.seconds - minutes * 60 <= LATEST_SECONDS ==> shifted == Some(
            Instant { seconds: (instant.seconds - minutes * 60) as i64, nanos: (instant.nanos - 1_000_000_000) as u32 },
        ),
        -100_000_000_000_000 <= minutes <= 100_000_000_000_000 && EARLIEST_SECONDS + 86_400
            <= instant.seconds - minutes * 60 <= LATEST_SECONDS - 86_400 ==> shifted is Some,
{
    let value = DateTime::<Utc>::from_timestamp(instant.seconds, instant.nanos).unwrap();
    match TimeDelta::try_minutes(minutes) {
        Some(delta) => match value.checked_sub_signed(delta) {
            Some(s) => Some(Instant { seconds: s.timestamp(), nanos: s.timestamp_subsec_nanos() }),
            None => None,
        },
        None => None,
    }
}

/// The moment that lies as far from `from` as `end` lies from `start`.
pub uninterp spec fn span_added(from: Instant, start: Instant, end: Instant) -> Instant;

/// chrono's `from + (end - start)` on `DateTime<Utc>`: `signed_duration_since`
/// gives the span, adding it uses `checked_add_signed` (the checked form of
/// `+`, which panics only when the sum leaves the range). Claimed: the
/// result is the named one and representable; away from leap seconds it is
/// the plain sum of the nanoseconds, and a leap second moves it by less
/// than two seconds.
#[verifier::external_body]
pub(crate) fn add_span(from: Instant, start: Instant, end: Instant) -> (moved: Instant)
    requires
        representable(from),
        representable(start),
        representable(end),
        EARLIEST_SECONDS + 86_400 <= from.seconds + end.seconds - start.seconds <= LATEST_SECONDS - 86_400,
    ensures
        moved == span_added(from, start, end),
        representable(moved),
        from.seconds + end.seconds - start.seconds - 2 <= moved.seconds <= from.seconds + end.seconds
            - start.seconds + 2,
        from.nanos < 1_000_000_000 && start.nanos < 1_000_000_000 && end.nanos < 1_000_000_000
            ==> moved.nanos < 1_000_000_000 && moved.seconds * 1_000_000_000 + moved.nanos == (
            from.seconds + end.seconds - start.seconds) * 1_000_000_000 + from.nanos + end.nanos
            - start.nanos,
{
    let from = DateTime::<Utc>::from_timestamp(from.seconds, from.nanos).unwrap();
    let start = DateTime::<Utc>::from_timestamp(start.seconds, start.nanos).unwrap();
    let end = DateTime::<Utc>::from_timestamp(end.seconds, end.nanos).unwrap();
    let moved = from.checked_add_signed(end.signed_duration_since(start)).unwrap();
    Instant { seconds: moved.timestamp(), nanos: moved.timestamp_subsec_nanos() }
}

} // verus!
