//! When a one-time alarm rings next, in the alarm's own time zone.

use vstd::prelude::*;
use crate::calendar::{
    day_number, format_iso_date, in_supported_range, is_supported_date, iso_text,
    lemma_day_number_injective, try_shift_day, CalendarDate,
};
use crate::instant::{is_not_after, not_after, zone_readable, Instant};
use crate::planner::{Alarm, AlarmSchedule};
use crate::reminder_time::date_numbered;
use crate::zoned::{
    clock_time, parse_clock_time, read_in_zone, resolve_from, resolve_in_zone, zone_reading,
    LocalDateTime, GAP_SEARCH_MINUTES,
};

verus! {

/// The first of the dates `offset..=2` days after `today` on which the wall
/// time falls strictly after `now`; the search stops at the first date the
/// calendar or the zone cannot place.
pub open spec fn once_search(today: CalendarDate, time: (u32, u32), zone: Seq<char>, now: Instant, offset: int) -> Option<(CalendarDate, Instant)>
    decreases 3 - offset,
{
    if offset > 2 || offset < 0 {
        None
    } else if !in_supported_range(day_number(today) + offset) {
        None
    } else {
        let date = date_numbered(day_number(today) + offset);
        match resolve_from(zone, LocalDateTime { date, hour: time.0, minute: time.1, second: 0, nanos: 0 }, GAP_SEARCH_MINUTES as nat) {
            None => None,
            Some(moment) => if !not_after(moment, now) {
                Some((date, moment))
            } else {
                once_search(today, time, zone, now, offset + 1)
            },
        }
    }
}

/// The next time an `HH:MM` wall time rings in a zone strictly after `now`:
/// today, tomorrow or the day after in that zone.
pub open spec fn next_once_of(time: Seq<char>, zone: Seq<char>, now: Instant) -> Option<(CalendarDate, Instant)> {
    match clock_time(time) {
        Some(t) => match zone_reading(zone, now) {
            Some(local) => once_search(local.date, t, zone, now, 0),
            None => None,
        },
        None => None,
    }
}

/// The local date and the moment of the next strictly future occurrence of
/// an `HH:MM` wall time in a zone.
pub fn next_once(time: &str, zone: &str, now: Instant) -> (next: Option<(CalendarDate, Instant)>)
    requires
        zone_readable(now),
    ensures
        next == next_once_of(time@, zone@, now),
        next matches Some(n) ==> is_supported_date(n.0),
{
    let (hour, minute) = match parse_clock_time(time) {
        Some(t) => t,
        None => return None,
    };
    let today = match read_in_zone(zone, now) {
        Some(local) => local.date,
        None => return None,
    };
    let mut offset: i64 = 0;
    while offset <= 2
        invariant
            0 <= offset <= 3,
            is_supported_date(today),
            hour < 24,
            minute < 60,
            next_once_of(time@, zone@, now) == once_search(today, (hour, minute), zone@, now, offset as int),
        decreases 3 - offset,
    {
        let date = match try_shift_day(today, offset) {
            Some(d) => d,
            None => return None,
        };
        proof {
            lemma_day_number_injective(date, date_numbered(day_number(today) + offset));
        }
        let moment = match resolve_in_zone(zone, LocalDateTime { date, hour, minute, second: 0, nanos: 0 }) {
            Some(m) => m,
            None => return None,
        };
        if !is_not_after(moment, now) {
            return Some((date, moment));
        }
        offset = offset + 1;
    }
    None
}

/// Switches an alarm on or off. Switching a one-time alarm back on moves it
/// to the next time its wall time comes in its zone; when there is none, the
/// alarm is left as it was and `false` is returned.
pub fn set_enabled(alarm: &mut Alarm, enabled: bool, now: Instant) -> (changed: bool)
    requires
        zone_readable(now),
    ensures
        ({
            let rearms = enabled && !old(alarm).enabled && old(alarm).schedule is Once;
            let found = match old(alarm).schedule {
                AlarmSchedule::Once { local_time, .. } => next_once_of(local_time@, old(alarm).time_zone@, now),
                _ => None,
            };
            &&& changed == !(rearms && found is None)
            &&& !changed ==> *final(alarm) == *old(alarm)
            &&& changed && !rearms ==> *final(alarm) == (Alarm { enabled, ..*old(alarm) })
            &&& changed && rearms ==> {
                &&& final(alarm).enabled == enabled
                &&& final(alarm).id == old(alarm).id
                &&& final(alarm).title == old(alarm).title
                &&& final(alarm).time_zone == old(alarm).time_zone
                &&& final(alarm).schedule matches AlarmSchedule::Once { local_date, local_time }
                    && local_date@ == iso_text((found->0).0)
                    && local_time == old(alarm).schedule->Once_local_time
            }
        }),
{
    if enabled && !alarm.enabled {
        let rearmed = match &alarm.schedule {
            AlarmSchedule::Once { local_time, .. } => {
                match next_once(local_time.as_str(), alarm.time_zone.as_str(), now) {
                    Some((date, _)) => Some(AlarmSchedule::Once {
                        local_date: format_iso_date(date),
                        local_time: local_time.clone(),
                    }),
                    None => return false,
                }
            },
            _ => None,
        };
        match rearmed {
            Some(schedule) => {
                alarm.schedule = schedule;
            },
            None => {},
        }
    }
    alarm.set_enabled(enabled);
    true
}

} // verus!
