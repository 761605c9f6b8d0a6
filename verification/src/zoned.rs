//! Wall-clock times in named time zones: reading a moment in a zone,
//! placing a local time on the time line, and stepping over gaps.

use vstd::prelude::*;
use chrono::{Datelike, TimeZone, Timelike};
use crate::calendar::{day_number, is_supported_date, CalendarDate};
use crate::instant::{
    is_not_after, not_after, representable, zone_readable, Instant, EARLIEST_SECONDS, LATEST_SECONDS,
};

verus! {

/// A date and a time of day on a wall clock.
#[derive(Clone, Copy, Debug, PartialEq, Eq, Structural)]
pub struct LocalDateTime {
    pub date: CalendarDate,
    pub hour: u32,
    pub minute: u32,
    pub second: u32,
    pub nanos: u32,
}

/// A date of the calendar's range with an hour, minute and second of a day
/// and nanoseconds below two billion (past one billion in a leap second).
pub open spec fn wall_clock(local: LocalDateTime) -> bool {
    &&& is_supported_date(local.date)
    &&& local.hour < 24
    &&& local.minute < 60
    &&& local.second < 60
    &&& local.nanos < 2_000_000_000
}

/// A wall-clock time with a time of day the clock can show (nanoseconds
/// past one billion stand for a leap second, in the last second of a minute).
pub open spec fn valid_local(local: LocalDateTime) -> bool {
    &&& wall_clock(local)
    &&& (local.nanos >= 1_000_000_000 ==> local.second == 59)
}

/// Seconds from 1970-01-01 00:00:00 to a wall-clock time, reading the wall
/// clock as if it were UTC (0001-01-01 has day number 0, 1970-01-01 719 162).
pub open spec fn local_seconds(local: LocalDateTime) -> int {
    (day_number(local.date) - 719_162) * 86_400 + local.hour * 3_600 + local.minute * 60 + local.second
}

/// Where a wall-clock time falls on the time line of a zone.
#[derive(Clone, Copy, Debug, PartialEq, Eq, Structural)]
pub enum LocalMapping {
    /// Exactly one moment shows this time.
    Single(Instant),
    /// The clock shows this time twice; the earlier moment comes first.
    Ambiguous(Instant, Instant),
    /// The clock skips this time.
    Gap,
}

/// A moment placed from a wall-clock time by a zone's offset: same
/// nanoseconds, second in the calendar's range, less than a day away from the
/// wall-clock time read as UTC.
pub open spec fn placed_from(moment: Instant, local: LocalDateTime) -> bool {
    &&& moment.nanos == local.nanos
    &&& EARLIEST_SECONDS <= moment.seconds <= LATEST_SECONDS
    &&& -86_400 < moment.seconds - local_seconds(local) < 86_400
}

/// The moments a wall-clock time names in a zone; `None` for an unknown zone.
pub uninterp spec fn zone_mapping(zone: Seq<char>, local: LocalDateTime) -> Option<LocalMapping>;

/// What the wall clock of a zone shows at a moment; `None` for an unknown zone.
pub uninterp spec fn zone_reading(zone: Seq<char>, instant: Instant) -> Option<LocalDateTime>;

/// The hour and minute an `HH:MM` text names.
pub uninterp spec fn clock_time(text: Seq<char>) -> Option<(u32, u32)>;

/// Looks the zone up with chrono-tz (`str::parse::<Tz>`) and places the
/// wall-clock time with chrono's `TimeZone::from_local_datetime`, taking the
/// `timestamp` and `timestamp_subsec_nanos` of each moment. Claimed: the
/// result is the named one; every moment given keeps the nanoseconds of the
/// wall-clock time (the offset is subtracted from the seconds only), has its
/// second in the calendar's range (a moment outside it is not given) and
/// lies less than a day from the wall-clock time read as UTC (a zone's
/// offset is below a day). Outside a leap second it is therefore
/// representable; of a leap second nothing more is claimed, since an offset
/// of whole seconds moves it off the last second of a minute.
#[verifier::external_body]
pub(crate) fn map_local(zone: &str, local: LocalDateTime) -> (mapping: Option<LocalMapping>)
    requires
        valid_local(local),
    ensures
        mapping == zone_mapping(zone@, local),
        mapping matches Some(LocalMapping::Single(i)) ==> placed_from(i, local),
        mapping matches Some(LocalMapping::Ambiguous(a, b)) ==> placed_from(a, local) && placed_from(b, local),
{
    let Ok(tz) = zone.parse::<chrono_tz::Tz>() else { return None };
    let date = chrono::NaiveDate::from_ymd_opt(local.date.year, local.date.month, local.date.day).unwrap();
    let naive = date.and_hms_nano_opt(local.hour, local.minute, local.second, local.nanos).unwrap();
    let at = |v: chrono::DateTime<chrono_tz::Tz>| Instant { seconds: v.timestamp(), nanos: v.timestamp_subsec_nanos() };
    match tz.from_local_datetime(&naive) {
        chrono::LocalResult::Single(v) => Some(LocalMapping::Single(at(v))),
        chrono::LocalResult::Ambiguous(a, b) => Some(LocalMapping::Ambiguous(at(a), at(b))),
        chrono::LocalResult::None => Some(LocalMapping::Gap),
    }
}

/// Looks the zone up with chrono-tz and reads the moment with chrono's
/// `with_timezone`, `date_naive` and `time`. Claimed: the result is the named
/// one; its date is a date of chrono's range (a moment a day inside that
/// range stays inside it at any offset); it keeps the moment's nanoseconds
/// (the offset is added to the seconds only); its hour, minute and second are
/// those of a day; and read as UTC it is less than a day from the moment.
/// Outside a leap second it is therefore a time the clock can show; of a leap
/// second nothing more is claimed, since an offset of whole seconds moves it
/// off the last second of a minute.
#[verifier::external_body]
pub(crate) fn read_in_zone(zone: &str, instant: Instant) -> (local: Option<LocalDateTime>)
    requires
        zone_readable(instant),
    ensures
        local == zone_reading(zone@, instant),
        local matches Some(l) ==> wall_clock(l) && l.nanos == instant.nanos && -86_400 < local_seconds(l)
            - instant.seconds < 86_400,
{
    let tz: chrono_tz::Tz = match zone.parse() {
        Ok(tz) => tz,
        Err(_) => return None,
    };
    let local = chrono::DateTime::<chrono::Utc>::from_timestamp(instant.seconds, instant.nanos).unwrap().with_timezone(&tz);
    let date = local.date_naive();
    let time = local.time();
    Some(LocalDateTime {
        date: CalendarDate { year: date.year(), month: date.month(), day: date.day() },
        hour: time.hour(),
        minute: time.minute(),
        second: time.second(),
        nanos: time.nanosecond(),
    })
}

/// Reads an `HH:MM` text with chrono's `NaiveTime::parse_from_str`. Claimed:
/// the result is the named one, and names a time of day.
#[verifier::external_body]
pub(crate) fn parse_clock_time(text: &str) -> (time: Option<(u32, u32)>)
    ensures
        time == clock_time(text@),
        time matches Some(t) ==> t.0 < 24 && t.1 < 60,
{
    match chrono::NaiveTime::parse_from_str(text, "%H:%M") {
        Ok(t) => Some((t.hour(), t.minute())),
        Err(_) => None,
    }
}

/// The wall-clock time one minute later, when the calendar holds it.
pub uninterp spec fn minute_later(local: LocalDateTime) -> Option<LocalDateTime>;

/// chrono's `NaiveDateTime::checked_add_signed` by one minute. Claimed: the
/// result is the named one and, when there is one, a wall-clock time again,
/// sixty seconds later when read as UTC, with the same nanoseconds unless
/// the time was a leap second.
#[verifier::external_body]
pub(crate) fn add_minute(local: LocalDateTime) -> (later: Option<LocalDateTime>)
    requires
        valid_local(local),
    ensures
        later == minute_later(local),
        later matches Some(l) ==> valid_local(l) && local_seconds(l) == local_seconds(local) + 60,
        later matches Some(l) ==> (local.nanos < 1_000_000_000 ==> l.nanos == local.nanos),
{
    let date = chrono::NaiveDate::from_ymd_opt(local.date.year, local.date.month, local.date.day).unwrap();
    let naive = date.and_hms_nano_opt(local.hour, local.minute, local.second, local.nanos).unwrap();
    let later = naive.checked_add_signed(chrono::TimeDelta::minutes(1))?;
    Some(LocalDateTime {
        date: CalendarDate { year: later.year(), month: later.month(), day: later.day() },
        hour: later.hour(),
        minute: later.minute(),
        second: later.second(),
        nanos: later.nanosecond(),
    })
}

/// The moment a wall-clock time names: the earlier one where the clock shows
/// it twice; over a gap, the first minute after it that exists, trying at most
/// `tries` minutes. `None` for an unknown zone or when no minute is found.
pub open spec fn resolve_from(zone: Seq<char>, local: LocalDateTime, tries: nat) -> Option<Instant>
    decreases tries,
{
    if tries == 0 {
        None
    } else {
        match zone_mapping(zone, local) {
            None => None,
            Some(LocalMapping::Single(v)) => Some(v),
            Some(LocalMapping::Ambiguous(a, b)) => Some(if not_after(a, b) { a } else { b }),
            Some(LocalMapping::Gap) => match minute_later(local) {
                Some(next) => resolve_from(zone, next, (tries - 1) as nat),
                None => None,
            },
        }
    }
}

/// A moment within a day before and a few days after the midnight that
/// starts `date` when read as UTC: where a time of that date lands in any zone.
pub open spec fn near_date(moment: Instant, date: CalendarDate) -> bool {
    (day_number(date) - 719_162) * 86_400 - 86_400 < moment.seconds < (day_number(date) - 719_162)
        * 86_400 + 259_260
}

/// How many minutes a gap search tries: a whole day and one more.
pub const GAP_SEARCH_MINUTES: u32 = 1441;

/// The moment a wall-clock time names in a zone, stepping over a gap to its
/// first valid minute and taking the earlier moment of an overlap.
pub fn resolve_in_zone(zone: &str, local: LocalDateTime) -> (moment: Option<Instant>)
    requires
        valid_local(local),
    ensures
        moment == resolve_from(zone@, local, GAP_SEARCH_MINUTES as nat),
        moment matches Some(m) ==> EARLIEST_SECONDS <= m.seconds <= LATEST_SECONDS && local_seconds(
            local,
        ) - 86_400 < m.seconds < local_seconds(local) + 86_400 + 60 * GAP_SEARCH_MINUTES,
        moment matches Some(m) ==> (local.nanos < 1_000_000_000 ==> representable(m)),
{
    let mut current = local;
    let mut tries: u32 = GAP_SEARCH_MINUTES;
    while tries > 0
        invariant
            valid_local(current),
            local.nanos < 1_000_000_000 ==> current.nanos == local.nanos,
            tries <= GAP_SEARCH_MINUTES,
            local_seconds(current) == local_seconds(local) + 60 * (GAP_SEARCH_MINUTES - tries),
            resolve_from(zone@, local, GAP_SEARCH_MINUTES as nat) == resolve_from(zone@, current, tries as nat),
        decreases tries,
    {
        match map_local(zone, current) {
            None => return None,
            Some(LocalMapping::Single(v)) => return Some(v),
            Some(LocalMapping::Ambiguous(a, b)) => {
                return Some(if is_not_after(a, b) { a } else { b });
            },
            Some(LocalMapping::Gap) => {
                match add_minute(current) {
                    Some(next) => {
                        current = next;
                    },
                    None => return None,
                }
            },
        }
        tries = tries - 1;
    }
    None
}

} // verus!
