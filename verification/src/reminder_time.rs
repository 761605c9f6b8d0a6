//! Reminder recurrence, delivery, and recovery after a restart.

use vstd::prelude::*;
use crate::calendar::{
    day_number, in_supported_range, is_supported_date, iso_date, lemma_day_number_injective,
    month_length, parse_iso_date, try_shift_day, weekday_from_monday, weekday_index, CalendarDate, MAX_YEAR,
};
use crate::instant::{
    instant_text, is_not_after, not_after, parse_instant, representable, rfc3339_instant,
    rfc3339_range, utc_rfc3339, zone_readable, Instant,
};
use crate::ids::PlannerId;
use crate::keyed::{find_by_key, index_of_key, lemma_index_of_key};
use crate::planner::{Planner, Reminder, ReminderRecurrence, ReminderSchedule};
use crate::sorting::{ranked_sorted, sort_ranked, strict_order, Ranked};
use crate::views::weekday_chosen;
use crate::zoned::{
    clock_time, near_date, parse_clock_time, read_in_zone, resolve_from, resolve_in_zone, zone_reading,
    LocalDateTime, GAP_SEARCH_MINUTES,
};

verus! {

/// The moment a reminder is due: its time for a one-time reminder, its next
/// occurrence for a repeating one; none for an important date or an
/// unreadable time.
pub open spec fn reminder_due(schedule: ReminderSchedule) -> Option<Instant> {
    match schedule {
        ReminderSchedule::Absolute { at_utc, .. } => rfc3339_instant(at_utc@),
        ReminderSchedule::Recurring { next_at_utc, .. } => rfc3339_instant(next_at_utc@),
        ReminderSchedule::ImportantDate { .. } => None,
    }
}

/// The moment a reminder is due.
pub fn due_utc(schedule: &ReminderSchedule) -> (due: Option<Instant>)
    ensures
        due == reminder_due(*schedule),
        due matches Some(d) ==> representable(d) && rfc3339_range(d),
{
    match schedule {
        ReminderSchedule::Absolute { at_utc, .. } => parse_instant(at_utc.as_str()),
        ReminderSchedule::Recurring { next_at_utc, .. } => parse_instant(next_at_utc.as_str()),
        ReminderSchedule::ImportantDate { .. } => None,
    }
}

/// The moment a date and an `HH:MM` time name in a zone.
pub open spec fn resolved_at(date: CalendarDate, time: Seq<char>, zone: Seq<char>) -> Option<Instant> {
    match clock_time(time) {
        Some(t) => resolve_from(
            zone,
            LocalDateTime { date, hour: t.0, minute: t.1, second: 0, nanos: 0 },
            GAP_SEARCH_MINUTES as nat,
        ),
        None => None,
    }
}

pub(crate) fn resolve_date_time(date: CalendarDate, time: &str, zone: &str) -> (moment: Option<Instant>)
    requires
        is_supported_date(date),
    ensures
        moment == resolved_at(date, time@, zone@),
        moment matches Some(m) ==> representable(m) && near_date(m, date),
{
    match parse_clock_time(time) {
        Some((hour, minute)) => resolve_in_zone(
            zone,
            LocalDateTime { date, hour, minute, second: 0, nanos: 0 },
        ),
        None => None,
    }
}

/// The moment a `%Y-%m-%d` date and an `HH:MM` time name in a zone.
pub open spec fn resolved_local(date: Seq<char>, time: Seq<char>, zone: Seq<char>) -> Option<Instant> {
    match iso_date(date) {
        Some(d) => resolved_at(d, time, zone),
        None => None,
    }
}

/// The moment a local date and time name in a zone: a time the clock skips
/// moves to the first minute that exists, a time it shows twice takes the
/// earlier moment.
pub fn resolve_local(date: &str, time: &str, zone: &str) -> (moment: Option<Instant>)
    ensures
        moment == resolved_local(date@, time@, zone@),
        moment matches Some(m) ==> representable(m) && near_date(m, iso_date(date@)->0),
{
    match parse_iso_date(date) {
        Some(d) => resolve_date_time(d, time, zone),
        None => None,
    }
}

/// The last day of a month up to the preferred one that exists.
pub open spec fn clamped_day(year: i32, month: u32, day: int) -> Option<CalendarDate>
    decreases day,
{
    if day <= 0 {
        None
    } else if is_supported_date(CalendarDate { year, month, day: day as u32 }) {
        Some(CalendarDate { year, month, day: day as u32 })
    } else {
        clamped_day(year, month, day - 1)
    }
}

/// The preferred day of a month, or the month's last day when it is shorter.
pub fn clamped_date(year: i32, month: u32, preferred_day: u8) -> (date: Option<CalendarDate>)
    ensures
        date == clamped_day(year, month, preferred_day as int),
        date matches Some(d) ==> is_supported_date(d),
{
    let mut day: u8 = preferred_day;
    while day > 0
        invariant
            day <= preferred_day,
            clamped_day(year, month, preferred_day as int) == clamped_day(year, month, day as int),
        decreases day,
    {
        match CalendarDate::new(year, month, day as u32) {
            Some(date) => return Some(date),
            None => {},
        }
        day = day - 1;
    }
    None
}

/// The date with a day number, when the calendar holds it.
pub open spec fn date_numbered(n: int) -> CalendarDate {
    choose|d: CalendarDate| is_supported_date(d) && day_number(d) == n
}

/// The first date `first..=last` days after `from` that falls on a chosen weekday.
pub open spec fn chosen_weekday_date(from: CalendarDate, weekdays: Seq<u8>, first: int, last: int) -> Option<CalendarDate>
    decreases last - first + 1,
{
    if first > last {
        None
    } else if in_supported_range(day_number(from) + first) && weekday_chosen(weekdays, (day_number(from) + first) % 7) {
        Some(date_numbered(day_number(from) + first))
    } else {
        chosen_weekday_date(from, weekdays, first + 1, last)
    }
}

/// Whether the day numbered `n` exists and falls on a chosen weekday
/// (weekday `n % 7`, Monday being 0).
pub open spec fn chosen_day_number(weekdays: Seq<u8>, n: int) -> bool {
    in_supported_range(n) && weekday_chosen(weekdays, n % 7)
}

proof fn lemma_chosen_weekday_date_is_first(from: CalendarDate, weekdays: Seq<u8>, first: int, last: int)
    ensures
        match chosen_weekday_date(from, weekdays, first, last) {
            Some(d) => exists|n: int|
                day_number(from) + first <= n <= day_number(from) + last && #[trigger] chosen_day_number(weekdays, n)
                    && d == date_numbered(n) && forall|m: int|
                    day_number(from) + first <= m < n ==> !#[trigger] chosen_day_number(weekdays, m),
            None => forall|m: int|
                day_number(from) + first <= m <= day_number(from) + last ==> !#[trigger] chosen_day_number(weekdays, m),
        },
    decreases last - first + 1,
{
    let base = day_number(from);
    if first <= last {
        lemma_chosen_weekday_date_is_first(from, weekdays, first + 1, last);
        if !chosen_day_number(weekdays, base + first) {
            assert(chosen_weekday_date(from, weekdays, first, last) == chosen_weekday_date(from, weekdays, first + 1, last));
            match chosen_weekday_date(from, weekdays, first + 1, last) {
                Some(d) => {
                    let n = choose|n: int|
                        base + first + 1 <= n <= base + last && #[trigger] chosen_day_number(weekdays, n) && d
                            == date_numbered(n) && forall|m: int|
                            base + first + 1 <= m < n ==> !#[trigger] chosen_day_number(weekdays, m);
                    assert forall|m: int| base + first <= m < n implies !#[trigger] chosen_day_number(weekdays, m) by {
                        if m == base + first {
                        }
                    }
                },
                None => {
                    assert forall|m: int| base + first <= m <= base + last implies !#[trigger] chosen_day_number(weekdays, m) by {
                        if m == base + first {
                        }
                    }
                },
            }
        } else {
            assert(chosen_weekday_date(from, weekdays, first, last) == Some(date_numbered(base + first)));
            assert(chosen_day_number(weekdays, base + first));
        }
    }
}

/// A weekly reminder repeats on the first chosen weekday after the current
/// date: the next date is the day one to seven days later that is the
/// earliest to fall on a chosen weekday (weekday `n % 7` of day number `n`,
/// Monday being 0), and there is none only when no day of that week falls on
/// one (or the calendar ends first). In particular, when the very next day
/// falls on a chosen weekday, it is the next date.
pub proof fn lemma_weekly_next_is_first_chosen_day(weekdays: Vec<u8>, current: CalendarDate)
    ensures
        match next_reminder_date(ReminderRecurrence::Weekly { weekdays }, current) {
            Some(d) => exists|n: int|
                day_number(current) < n <= day_number(current) + 7 && #[trigger] chosen_day_number(weekdays@, n)
                    && d == date_numbered(n) && forall|m: int|
                    day_number(current) < m < n ==> !#[trigger] chosen_day_number(weekdays@, m),
            None => forall|m: int|
                day_number(current) < m <= day_number(current) + 7 ==> !#[trigger] chosen_day_number(weekdays@, m),
        },
        chosen_day_number(weekdays@, day_number(current) + 1) ==> next_reminder_date(
            ReminderRecurrence::Weekly { weekdays },
            current,
        ) == Some(date_numbered(day_number(current) + 1)),
{
    lemma_chosen_weekday_date_is_first(current, weekdays@, 1, 7);
    if chosen_day_number(weekdays@, day_number(current) + 1) {
        let d = next_reminder_date(ReminderRecurrence::Weekly { weekdays }, current)->0;
        let n = choose|n: int|
            day_number(current) < n <= day_number(current) + 7 && #[trigger] chosen_day_number(weekdays@, n)
                && d == date_numbered(n) && forall|m: int|
                day_number(current) < m < n ==> !#[trigger] chosen_day_number(weekdays@, m);
        if n > day_number(current) + 1 {
            assert(!chosen_day_number(weekdays@, day_number(current) + 1));
        }
    }
}

proof fn lemma_clamped_day(year: i32, month: u32, day: int)
    requires
        day <= 255,
    ensures
        clamped_day(year, month, day) matches Some(d) ==> {
            &&& is_supported_date(d)
            &&& d.year == year
            &&& d.month == month
            &&& d.day == if day < month_length(year as int, month as int) { day } else { month_length(year as int, month as int) }
        },
        1 <= day && is_supported_date(CalendarDate { year, month, day: 1 }) ==> clamped_day(year, month, day) is Some,
    decreases day,
{
    if day > 0 && !is_supported_date(CalendarDate { year, month, day: day as u32 }) {
        lemma_clamped_day(year, month, day - 1);
    }
}

/// A monthly reminder repeats in the month after the current date's month, on
/// its preferred day or, in a shorter month, on the month's last day; a
/// yearly one the next year in its month, likewise; a daily one the next day.
/// Each has a next date whenever that month or day exists in the calendar.
pub proof fn lemma_next_dates_by_recurrence(current: CalendarDate, month: u8, day: u8)
    requires
        is_supported_date(current),
    ensures
        next_reminder_date(ReminderRecurrence::Daily, current) matches Some(d) ==> d == date_numbered(
            day_number(current) + 1,
        ),
        in_supported_range(day_number(current) + 1) ==> next_reminder_date(ReminderRecurrence::Daily, current) is Some,
        next_reminder_date(ReminderRecurrence::Monthly { day }, current) matches Some(d) ==> {
            &&& is_supported_date(d)
            &&& d.year * 12 + d.month == current.year * 12 + current.month + 1
            &&& d.day == if day < month_length(d.year as int, d.month as int) { day as int } else { month_length(d.year as int, d.month as int) }
        },
        day >= 1 && current.year < MAX_YEAR ==> next_reminder_date(ReminderRecurrence::Monthly { day }, current) is Some,
        next_reminder_date(ReminderRecurrence::Yearly { month, day }, current) matches Some(d) ==> {
            &&& is_supported_date(d)
            &&& d.year == current.year + 1
            &&& d.month == month
            &&& d.day == if day < month_length(d.year as int, month as int) { day as int } else { month_length(d.year as int, month as int) }
        },
        day >= 1 && 1 <= month <= 12 && current.year < MAX_YEAR ==> next_reminder_date(
            ReminderRecurrence::Yearly { month, day },
            current,
        ) is Some,
{
    if current.month == 12 {
        if current.year < MAX_YEAR {
            lemma_clamped_day((current.year + 1) as i32, 1, day as int);
        }
    } else {
        lemma_clamped_day(current.year, (current.month + 1) as u32, day as int);
    }
    lemma_clamped_day((current.year + 1) as i32, month as u32, day as int);
}

pub(crate) fn has_weekday(weekdays: &Vec<u8>, weekday: u32) -> (chosen: bool)
    ensures
        chosen == weekday_chosen(weekdays@, weekday as int),
{
    let mut i: usize = 0;
    while i < weekdays.len()
        invariant
            0 <= i <= weekdays@.len(),
            forall|k: int| 0 <= k < i ==> weekdays@[k] != weekday,
        decreases weekdays@.len() - i,
    {
        if weekdays[i] as u32 == weekday {
            assert(weekdays@[i as int] == weekday);
            return true;
        }
        i = i + 1;
    }
    false
}

fn first_chosen_weekday(from: CalendarDate, weekdays: &Vec<u8>, first: i64, last: i64) -> (date: Option<CalendarDate>)
    requires
        is_supported_date(from),
        0 <= first <= last + 1,
        last <= 7,
    ensures
        date == chosen_weekday_date(from, weekdays@, first as int, last as int),
        date matches Some(d) ==> is_supported_date(d),
{
    let mut offset: i64 = first;
    while offset <= last
        invariant
            is_supported_date(from),
            first <= offset <= last + 1,
            last <= 7,
            chosen_weekday_date(from, weekdays@, first as int, last as int) == chosen_weekday_date(
                from,
                weekdays@,
                offset as int,
                last as int,
            ),
        decreases last - offset + 1,
    {
        match try_shift_day(from, offset) {
            Some(date) => {
                let weekday = weekday_index(date, true);
                if has_weekday(weekdays, weekday) {
                    proof {
                        lemma_day_number_injective(date, date_numbered(day_number(from) + offset));
                    }
                    return Some(date);
                }
            },
            None => {},
        }
        offset = offset + 1;
    }
    None
}

/// The date of the next occurrence after `current` under a recurrence.
pub open spec fn next_reminder_date(recurrence: ReminderRecurrence, current: CalendarDate) -> Option<CalendarDate> {
    match recurrence {
        ReminderRecurrence::Daily => if in_supported_range(day_number(current) + 1) {
            Some(date_numbered(day_number(current) + 1))
        } else {
            None
        },
        ReminderRecurrence::Weekly { weekdays } => chosen_weekday_date(current, weekdays@, 1, 7),
        ReminderRecurrence::Monthly { day } => if current.month == 12 {
            if current.year < MAX_YEAR {
                clamped_day((current.year + 1) as i32, 1, day as int)
            } else {
                None
            }
        } else {
            clamped_day(current.year, (current.month + 1) as u32, day as int)
        },
        ReminderRecurrence::Yearly { month, day } => clamped_day(
            (current.year + 1) as i32,
            month as u32,
            day as int,
        ),
    }
}

fn next_date_of(recurrence: &ReminderRecurrence, current: CalendarDate) -> (date: Option<CalendarDate>)
    requires
        is_supported_date(current),
    ensures
        date == next_reminder_date(*recurrence, current),
        date matches Some(d) ==> is_supported_date(d),
{
    match recurrence {
        ReminderRecurrence::Daily => match try_shift_day(current, 1) {
            Some(next) => {
                proof {
                    lemma_day_number_injective(next, date_numbered(day_number(current) + 1));
                }
                Some(next)
            },
            None => None,
        },
        ReminderRecurrence::Weekly { weekdays } => first_chosen_weekday(current, weekdays, 1, 7),
        ReminderRecurrence::Monthly { day } => {
            if current.month == 12 {
                if current.year < MAX_YEAR {
                    clamped_date(current.year + 1, 1, *day)
                } else {
                    None
                }
            } else {
                clamped_date(current.year, current.month + 1, *day)
            }
        },
        ReminderRecurrence::Yearly { month, day } => clamped_date(current.year + 1, *month as u32, *day),
    }
}

/// The next occurrence of a repeating reminder after the one due at the
/// moment `next_at` names, at `local_time` in `zone`.
pub open spec fn next_occurrence_after(
    recurrence: ReminderRecurrence,
    local_time: Seq<char>,
    zone: Seq<char>,
    next_at: Seq<char>,
) -> Option<Instant> {
    match rfc3339_instant(next_at) {
        Some(current) => match zone_reading(zone, current) {
            Some(local) => match clock_time(local_time) {
                Some(_) => match next_reminder_date(recurrence, local.date) {
                    Some(date) => resolved_at(date, local_time, zone),
                    None => None,
                },
                None => None,
            },
            None => None,
        },
        None => None,
    }
}

/// The next occurrence of a reminder's schedule; only repeating reminders have one.
pub open spec fn next_occurrence_of(schedule: ReminderSchedule) -> Option<Instant> {
    match schedule {
        ReminderSchedule::Recurring { recurrence, local_time, source_time_zone, next_at_utc } =>
            next_occurrence_after(recurrence, local_time@, source_time_zone@, next_at_utc@),
        _ => None,
    }
}

/// The occurrence of a repeating reminder after the one it is due at.
pub fn next_occurrence(schedule: &ReminderSchedule) -> (next: Option<Instant>)
    ensures
        next == next_occurrence_of(*schedule),
        next matches Some(n) ==> representable(n),
{
    match schedule {
        ReminderSchedule::Recurring { recurrence, local_time, source_time_zone, next_at_utc } => {
            let current = match parse_instant(next_at_utc.as_str()) {
                Some(c) => c,
                None => return None,
            };
            let local = match read_in_zone(source_time_zone.as_str(), current) {
                Some(l) => l,
                None => return None,
            };
            match parse_clock_time(local_time.as_str()) {
                Some(_) => {},
                None => return None,
            }
            let date = match next_date_of(recurrence, local.date) {
                Some(d) => d,
                None => return None,
            };
            resolve_date_time(date, local_time.as_str(), source_time_zone.as_str())
        },
        _ => None,
    }
}

/// The schedule of a reminder that repeats from `first_date` at `time` in
/// `zone`: a weekly one starts on the first chosen weekday within a week.
pub open spec fn recurring_start(recurrence: ReminderRecurrence, first_date: Seq<char>, time: Seq<char>, zone: Seq<char>) -> Option<Instant> {
    match iso_date(first_date) {
        Some(d0) => {
            let start = match recurrence {
                ReminderRecurrence::Weekly { weekdays } => chosen_weekday_date(d0, weekdays@, 0, 6),
                _ => Some(d0),
            };
            match start {
                Some(d) => resolved_at(d, time, zone),
                None => None,
            }
        },
        None => None,
    }
}

/// A repeating schedule whose first occurrence is the first one on or after
/// `first_date`, or `None` when the date, the time or the zone is unreadable.
pub fn recurring_schedule(
    recurrence: ReminderRecurrence,
    first_date: &str,
    time: &str,
    zone: &str,
) -> (schedule: Option<ReminderSchedule>)
    ensures
        match recurring_start(recurrence, first_date@, time@, zone@) {
            Some(first) => schedule matches Some(ReminderSchedule::Recurring {
                recurrence: r,
                local_time,
                source_time_zone,
                next_at_utc,
            }) && r == recurrence && local_time@ == time@ && source_time_zone@ == zone@ && next_at_utc@
                == utc_rfc3339(first),
            None => schedule is None,
        },
{
    let d0 = match parse_iso_date(first_date) {
        Some(d) => d,
        None => return None,
    };
    let start = match &recurrence {
        ReminderRecurrence::Weekly { weekdays } => first_chosen_weekday(d0, weekdays, 0, 6),
        _ => Some(d0),
    };
    let date = match start {
        Some(d) => d,
        None => return None,
    };
    let first = match resolve_date_time(date, time, zone) {
        Some(f) => f,
        None => return None,
    };
    Some(ReminderSchedule::Recurring {
        recurrence,
        local_time: time.to_owned(),
        source_time_zone: zone.to_owned(),
        next_at_utc: instant_text(first),
    })
}

/// How many occurrences an advance steps over at most.
pub const ADVANCE_LIMIT: u32 = 10_000;

/// The text of the due moment of a repeating reminder after stepping through
/// its occurrences (at most `steps` of them) until one lies after `now`, or
/// until there is no next one.
pub open spec fn advanced_next_at(
    recurrence: ReminderRecurrence,
    local_time: Seq<char>,
    zone: Seq<char>,
    next_at: Seq<char>,
    now: Instant,
    steps: nat,
) -> Seq<char>
    decreases steps,
{
    if steps == 0 {
        next_at
    } else {
        match next_occurrence_after(recurrence, local_time, zone, next_at) {
            None => next_at,
            Some(next) => if !not_after(next, now) {
                utc_rfc3339(next)
            } else {
                advanced_next_at(recurrence, local_time, zone, utc_rfc3339(next), now, (steps - 1) as nat)
            },
        }
    }
}

/// A schedule after advancing it past `now`: a repeating schedule keeps
/// everything but its due text; any other schedule is left alone.
pub open spec fn advanced_schedule(before: ReminderSchedule, after: ReminderSchedule, now: Instant) -> bool {
    match before {
        ReminderSchedule::Recurring { recurrence, local_time, source_time_zone, next_at_utc } => after matches ReminderSchedule::Recurring {
            recurrence: r2,
            local_time: l2,
            source_time_zone: z2,
            next_at_utc: n2,
        } && r2 == recurrence && l2 == local_time && z2 == source_time_zone && n2@ == advanced_next_at(
            recurrence,
            local_time@,
            source_time_zone@,
            next_at_utc@,
            now,
            ADVANCE_LIMIT as nat,
        ),
        _ => after == before,
    }
}

/// Steps a repeating schedule through its occurrences until one lies after
/// `now` (at most ten thousand steps).
pub fn advance_past(schedule: &mut ReminderSchedule, now: Instant)
    ensures
        advanced_schedule(*old(schedule), *final(schedule), now),
{
    let mut steps: u32 = ADVANCE_LIMIT;
    while steps > 0
        invariant
            steps <= ADVANCE_LIMIT,
            match *old(schedule) {
                ReminderSchedule::Recurring { recurrence, local_time, source_time_zone, next_at_utc } => *schedule matches ReminderSchedule::Recurring {
                    recurrence: r2,
                    local_time: l2,
                    source_time_zone: z2,
                    next_at_utc: n2,
                } && r2 == recurrence && l2 == local_time && z2 == source_time_zone && advanced_next_at(
                    recurrence,
                    local_time@,
                    source_time_zone@,
                    next_at_utc@,
                    now,
                    ADVANCE_LIMIT as nat,
                ) == advanced_next_at(recurrence, local_time@, source_time_zone@, n2@, now, steps as nat),
                _ => *schedule == *old(schedule),
            },
        decreases steps,
    {
        let next = match next_occurrence(schedule) {
            Some(n) => n,
            None => return,
        };
        let text = instant_text(next);
        match schedule {
            ReminderSchedule::Recurring { next_at_utc, .. } => {
                *next_at_utc = text;
            },
            _ => {},
        }
        if !is_not_after(next, now) {
            return;
        }
        steps = steps - 1;
    }
}


/// What reconciling reads and changes of a reminder: its identifier, the
/// text of the moment it is due, its repetition (recurrence, local time and
/// zone) when it repeats, its switch, whether it waits for attention, and the
/// text of the moment it was delivered for.
pub struct ReminderState {
    pub key: Seq<char>,
    pub due_text: Option<Seq<char>>,
    pub repeats: Option<(ReminderRecurrence, Seq<char>, Seq<char>)>,
    pub enabled: bool,
    pub pending: bool,
    pub attention_due: Option<Seq<char>>,
}

/// The state of a reminder.
pub open spec fn state_of(reminder: Reminder) -> ReminderState {
    ReminderState {
        key: reminder.id@,
        due_text: match reminder.schedule {
            ReminderSchedule::Absolute { at_utc, .. } => Some(at_utc@),
            ReminderSchedule::Recurring { next_at_utc, .. } => Some(next_at_utc@),
            ReminderSchedule::ImportantDate { .. } => None,
        },
        repeats: match reminder.schedule {
            ReminderSchedule::Recurring { recurrence, local_time, source_time_zone, .. } => Some(
                (recurrence, local_time@, source_time_zone@),
            ),
            _ => None,
        },
        enabled: reminder.enabled,
        pending: reminder.attention_pending,
        attention_due: match reminder.attention_due_utc {
            Some(t) => Some(t@),
            None => None,
        },
    }
}

/// The states of a list of reminders.
pub open spec fn states_of(reminders: Seq<Reminder>) -> Seq<ReminderState> {
    reminders.map_values(|r: Reminder| state_of(r))
}

/// Two reminders that differ at most in what reconciling changes.
pub open spec fn same_apart_from_state(a: Reminder, b: Reminder) -> bool {
    &&& a.id == b.id
    &&& a.title == b.title
    &&& a.alerts == b.alerts
    &&& match (a.schedule, b.schedule) {
        (
            ReminderSchedule::Recurring { recurrence: r1, local_time: l1, source_time_zone: z1, .. },
            ReminderSchedule::Recurring { recurrence: r2, local_time: l2, source_time_zone: z2, .. },
        ) => r1 == r2 && l1 == l2 && z1 == z2,
        (ReminderSchedule::Recurring { .. }, _) => false,
        _ => a.schedule == b.schedule,
    }
}

/// The moment a reminder state is due.
pub open spec fn state_due(state: ReminderState) -> Option<Instant> {
    match state.due_text {
        Some(t) => rfc3339_instant(t),
        None => None,
    }
}

/// A state advanced past `now`: only a repeating reminder moves.
pub open spec fn advanced_state(state: ReminderState, now: Instant) -> ReminderState {
    match (state.repeats, state.due_text) {
        (Some(r), Some(t)) => ReminderState {
            due_text: Some(advanced_next_at(r.0, r.1, r.2, t, now, ADVANCE_LIMIT as nat)),
            ..state
        },
        _ => state,
    }
}

/// A state whose occurrence due at the moment written `due_text` is
/// delivered: it waits for attention, and a one-time reminder switches off.
pub open spec fn delivered_state(state: ReminderState, due_text: Seq<char>) -> ReminderState {
    ReminderState {
        pending: true,
        attention_due: Some(due_text),
        enabled: state.enabled && state.repeats is Some,
        ..state
    }
}

/// First a reminder that already waits for attention and is due by `now`
/// moves past `now` (a restart may have missed occurrences).
pub open spec fn recovered_state(state: ReminderState, now: Instant) -> ReminderState {
    if state.pending && (state_due(state) matches Some(d) && not_after(d, now)) {
        advanced_state(state, now)
    } else {
        state
    }
}

/// A due reminder, ranked by its due moment and then by its position.
#[derive(Clone, Copy, Debug)]
pub struct DueRank {
    pub due: Instant,
    pub position: usize,
}

impl Ranked for DueRank {
    open spec fn precedes(&self, other: &Self) -> bool {
        ||| (not_after(self.due, other.due) && self.due != other.due)
        ||| (self.due == other.due && self.position < other.position)
    }

    fn check_precedes(&self, other: &Self) -> (before: bool) {
        (is_not_after(self.due, other.due) && !(self.due.seconds == other.due.seconds && self.due.nanos
            == other.due.nanos)) || (self.due.seconds == other.due.seconds && self.due.nanos
            == other.due.nanos && self.position < other.position)
    }
}

proof fn lemma_due_rank_order()
    ensures
        strict_order::<DueRank>(),
{
}

/// The reminders that are switched on and due by `now`, ranked, in list order.
pub open spec fn due_ranks(states: Seq<ReminderState>, now: Instant) -> Seq<DueRank>
    decreases states.len(),
{
    if states.len() == 0 {
        Seq::empty()
    } else {
        let rest = due_ranks(states.drop_last(), now);
        let s = states.last();
        if s.enabled && (state_due(s) matches Some(d) && not_after(d, now)) {
            rest.push(DueRank { due: state_due(s)->0, position: (states.len() - 1) as usize })
        } else {
            rest
        }
    }
}

/// Position of the first state with the identifier, or the length.
pub open spec fn state_index(states: Seq<ReminderState>, key: Seq<char>) -> int
    decreases states.len(),
{
    if states.len() == 0 {
        0
    } else if states[0].key == key {
        0
    } else {
        1 + state_index(states.drop_first(), key)
    }
}

/// Delivers, in the order of the ranks, the first reminder carrying each
/// ranked identifier, unless it already waits for attention; a delivered
/// repeating reminder then moves past `now`. Gives the states after that and
/// the identifiers delivered.
pub open spec fn deliver_in_turn(states: Seq<ReminderState>, keys: Seq<Seq<char>>, ranks: Seq<DueRank>, now: Instant) -> (
    Seq<ReminderState>,
    Seq<Seq<char>>,
)
    decreases ranks.len(),
{
    if ranks.len() == 0 {
        (states, Seq::empty())
    } else {
        let (current, delivered) = deliver_in_turn(states, keys, ranks.drop_last(), now);
        let rank = ranks.last();
        let key = keys[rank.position as int];
        let k = state_index(current, key);
        if 0 <= k < current.len() && !current[k].pending {
            (
                current.update(k, advanced_state(delivered_state(current[k], utc_rfc3339(rank.due)), now)),
                delivered.push(key),
            )
        } else {
            (current, delivered)
        }
    }
}

/// The reminder states after reconciling at `now`, and the identifiers
/// delivered: waiting reminders are recovered first, then the switched-on
/// reminders due by `now` are delivered earliest first (equal moments in
/// list order).
pub open spec fn reconciled(states: Seq<ReminderState>, now: Instant, order: Seq<DueRank>) -> (Seq<ReminderState>, Seq<Seq<char>>) {
    let recovered = states.map_values(|s: ReminderState| recovered_state(s, now));
    deliver_in_turn(recovered, recovered.map_values(|s: ReminderState| s.key), order, now)
}

proof fn lemma_state_index_matches(reminders: Seq<Reminder>, key: Seq<char>)
    ensures
        state_index(states_of(reminders), key) == index_of_key(reminders, key),
    decreases reminders.len(),
{
    if reminders.len() > 0 {
        assert(states_of(reminders).drop_first() =~= states_of(reminders.drop_first()));
        lemma_state_index_matches(reminders.drop_first(), key);
    }
}

proof fn lemma_due_rank_positions(states: Seq<ReminderState>, now: Instant)
    ensures
        forall|i: int| 0 <= i < due_ranks(states, now).len() ==> #[trigger] due_ranks(states, now)[i].position < states.len(),
    decreases states.len(),
{
    if states.len() > 0 {
        let rest = states.drop_last();
        lemma_due_rank_positions(rest, now);
        let all = due_ranks(states, now);
        let before = due_ranks(rest, now);
        let position = (states.len() - 1) as usize;
        assert(position < states.len()) by {
            if states.len() - 1 > usize::MAX {
                assert(position <= usize::MAX);
            }
        }
        assert forall|i: int| 0 <= i < all.len() implies #[trigger] all[i].position < states.len() by {
            if i < before.len() {
                assert(all[i] == before[i]);
            }
        }
    }
}

fn advance_schedule_of(reminder: &mut Reminder, now: Instant)
    ensures
        same_apart_from_state(*old(reminder), *final(reminder)),
        state_of(*final(reminder)) == advanced_state(state_of(*old(reminder)), now),
{
    advance_past(&mut reminder.schedule, now);
}

/// Delivers the reminders due by `now`: reminders already waiting for
/// attention and due are first moved past `now`; then each switched-on
/// reminder due by `now`, earliest first, is delivered once (a reminder
/// waiting for attention is not delivered again) and, when it repeats, moved
/// past `now`. Returns the reminders delivered, in delivery order.
pub fn reconcile(planner: &mut Planner, now: Instant) -> (delivered: Vec<PlannerId>)
    ensures
        final(planner).reminders@.len() == old(planner).reminders@.len(),
        forall|i: int|
            0 <= i < old(planner).reminders@.len() ==> #[trigger] same_apart_from_state(
                old(planner).reminders@[i],
                final(planner).reminders@[i],
            ),
        exists|order: Seq<DueRank>|
            #![trigger order.to_multiset()]
            {
                let recovered = states_of(old(planner).reminders@).map_values(|s: ReminderState| recovered_state(s, now));
                &&& order.to_multiset() == due_ranks(recovered, now).to_multiset()
                &&& ranked_sorted(order)
                &&& reconciled(states_of(old(planner).reminders@), now, order) == (
                    states_of(final(planner).reminders@),
                    delivered@.map_values(|id: PlannerId| id@),
                )
            },
        final(planner).events == old(planner).events,
        final(planner).event_receipts == old(planner).event_receipts,
        final(planner).event_checked_at_utc == old(planner).event_checked_at_utc,
        final(planner).tasks == old(planner).tasks,
        final(planner).alarms == old(planner).alarms,
        final(planner).alarm_receipts == old(planner).alarm_receipts,
        final(planner).alarm_checked_at_utc == old(planner).alarm_checked_at_utc,
        final(planner).alarm_snoozes == old(planner).alarm_snoozes,
        final(planner).timers == old(planner).timers,
        final(planner).stopwatch == old(planner).stopwatch,
{
    let ghost initial = planner.reminders@;
    let ghost recovered = states_of(initial).map_values(|s: ReminderState| recovered_state(s, now));
    let n = planner.reminders.len();
    // recover reminders that wait for attention
    let mut i: usize = 0;
    while i < n
        invariant
            n == initial.len(),
            planner.reminders@.len() == n,
            0 <= i <= n,
            recovered == states_of(initial).map_values(|s: ReminderState| recovered_state(s, now)),
            forall|k: int| 0 <= k < n ==> #[trigger] same_apart_from_state(initial[k], planner.reminders@[k]),
            forall|k: int| 0 <= k < i ==> #[trigger] state_of(planner.reminders@[k]) == recovered[k],
            forall|k: int| i <= k < n ==> #[trigger] planner.reminders@[k] == initial[k],
            planner.events == old(planner).events,
            planner.event_receipts == old(planner).event_receipts,
            planner.event_checked_at_utc == old(planner).event_checked_at_utc,
            planner.tasks == old(planner).tasks,
            planner.alarms == old(planner).alarms,
            planner.alarm_receipts == old(planner).alarm_receipts,
            planner.alarm_checked_at_utc == old(planner).alarm_checked_at_utc,
            planner.alarm_snoozes == old(planner).alarm_snoozes,
            planner.timers == old(planner).timers,
            planner.stopwatch == old(planner).stopwatch,
        decreases n - i,
    {
        let ghost before = planner.reminders@;
        let due_now = if planner.reminders[i].attention_pending {
            match due_utc(&planner.reminders[i].schedule) {
                Some(d) => is_not_after(d, now),
                None => false,
            }
        } else {
            false
        };
        proof {
            assert(before[i as int] == initial[i as int]);
            assert(states_of(initial)[i as int] == state_of(initial[i as int]));
            assert(recovered[i as int] == recovered_state(state_of(initial[i as int]), now));
        }
        if due_now {
            let mut reminder = planner.reminders.remove(i);
            advance_schedule_of(&mut reminder, now);
            planner.reminders.insert(i, reminder);
            proof {
                assert(planner.reminders@ =~= before.update(i as int, reminder));
            }
        } else {
            proof {
                assert(same_apart_from_state(initial[i as int], initial[i as int]));
            }
        }
        i = i + 1;
    }
    proof {
        assert(states_of(planner.reminders@) =~= recovered);
    }
    // rank the reminders due by now
    let mut ranks: Vec<DueRank> = Vec::new();
    let mut p: usize = 0;
    while p < n
        invariant
            n == initial.len(),
            planner.reminders@.len() == n,
            0 <= p <= n,
            states_of(planner.reminders@) == recovered,
            ranks@ == due_ranks(recovered.take(p as int), now),
            forall|k: int| 0 <= k < ranks@.len() ==> representable(#[trigger] ranks@[k].due),
        decreases n - p,
    {
        proof {
            assert(recovered.take(p as int + 1).drop_last() =~= recovered.take(p as int));
            assert(recovered.take(p as int + 1).last() == recovered[p as int]);
            assert(recovered[p as int] == state_of(planner.reminders@[p as int]));
        }
        let reminder = &planner.reminders[p];
        if reminder.enabled {
            match due_utc(&reminder.schedule) {
                Some(d) => {
                    if is_not_after(d, now) {
                        ranks.push(DueRank { due: d, position: p });
                    }
                },
                None => {},
            }
        }
        p = p + 1;
    }
    proof {
        assert(recovered.take(n as int) =~= recovered);
        lemma_due_rank_order();
        lemma_due_rank_positions(recovered, now);
    }
    let ghost unsorted = ranks@;
    let order = sort_ranked(ranks);
    proof {
        broadcast use vstd::seq_lib::group_to_multiset_ensures;
        assert forall|k: int| 0 <= k < order@.len() implies #[trigger] order@[k].position < n by {
            assert(order@.to_multiset().count(order@[k]) > 0);
            assert(unsorted.contains(order@[k]));
        }
        assert forall|k: int| 0 <= k < order@.len() implies representable(#[trigger] order@[k].due) by {
            assert(order@.to_multiset().count(order@[k]) > 0);
            assert(unsorted.contains(order@[k]));
        }
    }
    let ghost keys = recovered.map_values(|s: ReminderState| s.key);
    // deliver them in order
    let mut delivered: Vec<PlannerId> = Vec::new();
    let mut j: usize = 0;
    while j < order.len()
        invariant
            n == initial.len(),
            planner.reminders@.len() == n,
            0 <= j <= order@.len(),
            keys == recovered.map_values(|s: ReminderState| s.key),
            recovered == states_of(initial).map_values(|s: ReminderState| recovered_state(s, now)),
            recovered.len() == n,
            forall|k: int| 0 <= k < order@.len() ==> #[trigger] order@[k].position < n,
            forall|k: int| 0 <= k < order@.len() ==> representable(#[trigger] order@[k].due),
            forall|k: int| 0 <= k < n ==> #[trigger] same_apart_from_state(initial[k], planner.reminders@[k]),
            deliver_in_turn(recovered, keys, order@.take(j as int), now) == (
                states_of(planner.reminders@),
                delivered@.map_values(|id: PlannerId| id@),
            ),
            planner.events == old(planner).events,
            planner.event_receipts == old(planner).event_receipts,
            planner.event_checked_at_utc == old(planner).event_checked_at_utc,
            planner.tasks == old(planner).tasks,
            planner.alarms == old(planner).alarms,
            planner.alarm_receipts == old(planner).alarm_receipts,
            planner.alarm_checked_at_utc == old(planner).alarm_checked_at_utc,
            planner.alarm_snoozes == old(planner).alarm_snoozes,
            planner.timers == old(planner).timers,
            planner.stopwatch == old(planner).stopwatch,
        decreases order@.len() - j,
    {
        let rank = order[j];
        proof {
            assert(order@.take(j as int + 1).drop_last() =~= order@.take(j as int));
            assert(order@.take(j as int + 1).last() == rank);
        }
        let id = planner.reminders[rank.position].id.duplicate();
        proof {
            assert(same_apart_from_state(initial[rank.position as int], planner.reminders@[rank.position as int]));
            assert(keys[rank.position as int] == recovered[rank.position as int].key);
            assert(states_of(initial)[rank.position as int] == state_of(initial[rank.position as int]));
            assert(recovered[rank.position as int] == recovered_state(state_of(initial[rank.position as int]), now));
            assert(recovered[rank.position as int].key == initial[rank.position as int].id@);
            assert(id@ == keys[rank.position as int]);
            lemma_state_index_matches(planner.reminders@, id@);
            lemma_index_of_key(planner.reminders@, id@);
        }
        let k = find_by_key(&planner.reminders, &id);
        let ghost before = planner.reminders@;
        let ghost before_delivered = delivered@;
        if k < planner.reminders.len() {
            let mut reminder = planner.reminders.remove(k);
            let ghost old_reminder = reminder;
            let text = instant_text(rank.due);
            let done = reminder.deliver(text);
            let ghost after_delivery = reminder;
            if done {
                advance_schedule_of(&mut reminder, now);
                delivered.push(id);
            }
            proof {
                assert(same_apart_from_state(old_reminder, after_delivery));
                if done {
                    lemma_same_apart_transitive(old_reminder, after_delivery, reminder);
                }
                lemma_same_apart_transitive(initial[k as int], old_reminder, reminder);
            }
            planner.reminders.insert(k, reminder);
            proof {
                assert(planner.reminders@ =~= before.update(k as int, reminder));
                assert(states_of(before)[k as int] == state_of(old_reminder));
                assert(same_apart_from_state(initial[k as int], reminder));
                if done {
                    assert(state_of(reminder) == advanced_state(delivered_state(state_of(old_reminder), utc_rfc3339(rank.due)), now));
                    assert(delivered@.map_values(|id: PlannerId| id@) =~= before_delivered.map_values(|id: PlannerId| id@).push(keys[rank.position as int]));
                } else {
                    assert(state_of(reminder) == state_of(old_reminder));
                }
                assert(states_of(planner.reminders@) =~= states_of(before).update(k as int, state_of(reminder)));
            }
        }
        j = j + 1;
    }
    proof {
        assert(order@.take(order@.len() as int) =~= order@);
    }
    delivered
}


proof fn lemma_same_apart_transitive(a: Reminder, b: Reminder, c: Reminder)
    requires
        same_apart_from_state(a, b),
        same_apart_from_state(b, c),
    ensures
        same_apart_from_state(a, c),
{
}

/// A reminder waiting for attention, ranked by the moment it was delivered
/// for (an unreadable one first), then by its position.
#[derive(Clone, Copy, Debug)]
pub struct AttentionRank {
    pub due: Option<Instant>,
    pub position: usize,
}

/// Whether one optional moment sorts before another: none first, then by time.
pub open spec fn optional_moment_before(a: Option<Instant>, b: Option<Instant>) -> bool {
    match (a, b) {
        (None, Some(_)) => true,
        (Some(x), Some(y)) => not_after(x, y) && x != y,
        _ => false,
    }
}

impl Ranked for AttentionRank {
    open spec fn precedes(&self, other: &Self) -> bool {
        ||| optional_moment_before(self.due, other.due)
        ||| (self.due == other.due && self.position < other.position)
    }

    fn check_precedes(&self, other: &Self) -> (before: bool) {
        let due_before = match (self.due, other.due) {
            (None, Some(_)) => true,
            (Some(x), Some(y)) => is_not_after(x, y) && !(x.seconds == y.seconds && x.nanos == y.nanos),
            _ => false,
        };
        let same_due = match (self.due, other.due) {
            (None, None) => true,
            (Some(x), Some(y)) => x.seconds == y.seconds && x.nanos == y.nanos,
            _ => false,
        };
        due_before || (same_due && self.position < other.position)
    }
}

/// The moment a waiting reminder was delivered for, when readable.
pub open spec fn attention_moment(reminder: Reminder) -> Option<Instant> {
    match reminder.attention_due_utc {
        Some(t) => rfc3339_instant(t@),
        None => None,
    }
}

/// The ranks of the reminders waiting for attention, in list order.
pub open spec fn attention_ranks(reminders: Seq<Reminder>) -> Seq<AttentionRank>
    decreases reminders.len(),
{
    if reminders.len() == 0 {
        Seq::empty()
    } else {
        let rest = attention_ranks(reminders.drop_last());
        let r = reminders.last();
        if r.attention_pending {
            rest.push(AttentionRank { due: attention_moment(r), position: (reminders.len() - 1) as usize })
        } else {
            rest
        }
    }
}

proof fn lemma_attention_positions(reminders: Seq<Reminder>)
    ensures
        forall|i: int| 0 <= i < attention_ranks(reminders).len() ==> #[trigger] attention_ranks(reminders)[i].position < reminders.len(),
    decreases reminders.len(),
{
    if reminders.len() > 0 {
        let rest = reminders.drop_last();
        lemma_attention_positions(rest);
        let all = attention_ranks(reminders);
        let before = attention_ranks(rest);
        let position = (reminders.len() - 1) as usize;
        assert(position < reminders.len()) by {
            if reminders.len() - 1 > usize::MAX {
                assert(position <= usize::MAX);
            }
        }
        assert forall|i: int| 0 <= i < all.len() implies #[trigger] all[i].position < reminders.len() by {
            if i < before.len() {
                assert(all[i] == before[i]);
            }
        }
    }
}

/// The identifiers of the reminders waiting for attention, in the order
/// their ranks give (see `AttentionRank`).
pub open spec fn reminder_attention_order(reminders: Seq<Reminder>, ids: Seq<PlannerId>) -> bool {
    exists|ranks: Seq<AttentionRank>|
        #![trigger ranks.to_multiset()]
        {
            &&& ranks.to_multiset() == attention_ranks(reminders).to_multiset()
            &&& ranked_sorted(ranks)
            &&& ranks.len() == ids.len()
            &&& forall|i: int| 0 <= i < ranks.len() ==> #[trigger] ids[i] == reminders[ranks[i].position as int].id
        }
}

/// The reminders waiting for attention, earliest delivered first (one with
/// an unreadable delivery moment first of all); equal moments keep their order.
pub fn pending_attention(planner: &Planner) -> (ids: Vec<PlannerId>)
    ensures
        reminder_attention_order(planner.reminders@, ids@),
{
    let reminders = &planner.reminders;
    let mut ranks: Vec<AttentionRank> = Vec::new();
    let mut i: usize = 0;
    while i < reminders.len()
        invariant
            0 <= i <= reminders@.len(),
            ranks@ == attention_ranks(reminders@.take(i as int)),
        decreases reminders@.len() - i,
    {
        proof {
            assert(reminders@.take(i as int + 1).drop_last() =~= reminders@.take(i as int));
        }
        let r = &reminders[i];
        if r.attention_pending {
            let due = match &r.attention_due_utc {
                Some(text) => parse_instant(text.as_str()),
                None => None,
            };
            ranks.push(AttentionRank { due, position: i });
        }
        i = i + 1;
    }
    proof {
        assert(reminders@.take(reminders@.len() as int) =~= reminders@);
        lemma_attention_positions(reminders@);
    }
    let ghost unsorted = ranks@;
    let sorted = sort_ranked(ranks);
    proof {
        broadcast use vstd::seq_lib::group_to_multiset_ensures;
        assert forall|k: int| 0 <= k < sorted@.len() implies #[trigger] sorted@[k].position < reminders@.len() by {
            assert(sorted@.to_multiset().count(sorted@[k]) > 0);
            assert(unsorted.contains(sorted@[k]));
        }
    }
    let mut ids: Vec<PlannerId> = Vec::new();
    let mut k: usize = 0;
    while k < sorted.len()
        invariant
            0 <= k <= sorted@.len(),
            ids@.len() == k,
            forall|m: int| 0 <= m < sorted@.len() ==> #[trigger] sorted@[m].position < reminders@.len(),
            forall|m: int| 0 <= m < k ==> #[trigger] ids@[m] == reminders@[sorted@[m].position as int].id,
        decreases sorted@.len() - k,
    {
        let position = sorted[k].position;
        ids.push(reminders[position].id.duplicate());
        k = k + 1;
    }
    ids
}
/// Every switched-on reminder that is due by `now` has a reminder waiting
/// for attention under its identifier (the first one carrying it).
pub open spec fn settled(states: Seq<ReminderState>, now: Instant) -> bool {
    forall|i: int|
        0 <= i < states.len() && #[trigger] states[i].enabled && (state_due(states[i]) matches Some(d) && not_after(d, now))
            ==> states[state_index(states, states[i].key)].pending
}

/// The states after the reminders waiting for attention are recovered.
pub open spec fn recovered_states(states: Seq<ReminderState>, now: Instant) -> Seq<ReminderState> {
    states.map_values(|s: ReminderState| recovered_state(s, now))
}

proof fn lemma_state_index_first(states: Seq<ReminderState>, i: int)
    requires
        0 <= i < states.len(),
    ensures
        state_index(states, states[i].key) <= i,
        states[state_index(states, states[i].key)].key == states[i].key,
    decreases states.len(),
{
    if states[0].key != states[i].key {
        let rest = states.drop_first();
        assert(rest[i - 1] == states[i]);
        lemma_state_index_first(rest, i - 1);
        lemma_state_index_of_first(rest, states[i].key);
        assert(state_index(states, states[i].key) == 1 + state_index(rest, states[i].key));
        assert(states[state_index(states, states[i].key)] == rest[state_index(rest, states[i].key)]);
    }
}

proof fn lemma_state_index_of_first(states: Seq<ReminderState>, key: Seq<char>)
    ensures
        0 <= state_index(states, key) <= states.len(),
        state_index(states, key) < states.len() ==> states[state_index(states, key)].key == key,
    decreases states.len(),
{
    if states.len() > 0 && states[0].key != key {
        let rest = states.drop_first();
        lemma_state_index_of_first(rest, key);
        if state_index(rest, key) < rest.len() {
            assert(states[state_index(states, key)] == rest[state_index(rest, key)]);
        }
    }
}

proof fn lemma_state_index_same_keys(a: Seq<ReminderState>, b: Seq<ReminderState>, key: Seq<char>)
    requires
        a.len() == b.len(),
        forall|i: int| 0 <= i < a.len() ==> #[trigger] a[i].key == b[i].key,
    ensures
        state_index(a, key) == state_index(b, key),
    decreases a.len(),
{
    if a.len() > 0 && a[0].key != key {
        lemma_state_index_same_keys(a.drop_first(), b.drop_first(), key);
    }
}

proof fn lemma_due_rank_present(states: Seq<ReminderState>, now: Instant, i: int)
    requires
        0 <= i < states.len(),
        states[i].enabled,
        state_due(states[i]) matches Some(d) && not_after(d, now),
        states.len() <= usize::MAX + 1,
    ensures
        due_ranks(states, now).contains(DueRank { due: state_due(states[i])->0, position: i as usize }),
    decreases states.len(),
{
    let rest = states.drop_last();
    if i < states.len() - 1 {
        assert(rest[i] == states[i]);
        lemma_due_rank_present(rest, now, i);
        let r = DueRank { due: state_due(states[i])->0, position: i as usize };
        let k = choose|k: int| 0 <= k < due_ranks(rest, now).len() && due_ranks(rest, now)[k] == r;
        assert(due_ranks(states, now)[k] == r);
    } else {
        let all = due_ranks(states, now);
        assert(all[all.len() - 1] == DueRank { due: state_due(states[i])->0, position: i as usize });
    }
}

/// What delivering in turn keeps: identifiers stay, a reminder waiting for
/// attention keeps waiting, a changed reminder is the first one carrying
/// its identifier and waits for attention, and every identifier ranked so
/// far has its first reminder waiting.
proof fn lemma_deliver_in_turn_settles(states: Seq<ReminderState>, ranks: Seq<DueRank>, now: Instant)
    requires
        forall|j: int| 0 <= j < ranks.len() ==> #[trigger] ranks[j].position < states.len(),
    ensures
        ({
            let keys = states.map_values(|s: ReminderState| s.key);
            let current = deliver_in_turn(states, keys, ranks, now).0;
            &&& current.len() == states.len()
            &&& forall|i: int| 0 <= i < states.len() ==> #[trigger] current[i].key == states[i].key
            &&& forall|i: int| 0 <= i < states.len() && states[i].pending ==> #[trigger] current[i].pending
            &&& forall|i: int| 0 <= i < states.len() ==> #[trigger] current[i] == states[i] || (current[i].pending
                && i == state_index(states, states[i].key))
            &&& forall|j: int| 0 <= j < ranks.len() ==> #[trigger] current[state_index(
                current,
                keys[ranks[j].position as int],
            )].pending
        }),
    decreases ranks.len(),
{
    let keys = states.map_values(|s: ReminderState| s.key);
    if ranks.len() > 0 {
        let prefix = ranks.drop_last();
        assert forall|j: int| 0 <= j < prefix.len() implies #[trigger] prefix[j].position < states.len() by {
            assert(prefix[j] == ranks[j]);
        }
        lemma_deliver_in_turn_settles(states, prefix, now);
        let (current, delivered) = deliver_in_turn(states, keys, prefix, now);
        let rank = ranks.last();
        let key = keys[rank.position as int];
        let k = state_index(current, key);
        lemma_state_index_same_keys(current, states, key);
        lemma_state_index_first(states, rank.position as int);
        lemma_state_index_of_first(current, key);
        let result = deliver_in_turn(states, keys, ranks, now).0;
        if 0 <= k < current.len() && !current[k].pending {
            let updated = current.update(k, advanced_state(delivered_state(current[k], utc_rfc3339(rank.due)), now));
            assert(result == updated);
            assert forall|i: int| 0 <= i < states.len() implies #[trigger] result[i].key == states[i].key by {}
            lemma_state_index_same_keys(result, states, key);
            assert forall|j: int| 0 <= j < ranks.len() implies #[trigger] result[state_index(
                result,
                keys[ranks[j].position as int],
            )].pending by {
                let position = ranks[j].position as int;
                let other = keys[position];
                lemma_state_index_same_keys(result, current, other);
                lemma_state_index_same_keys(current, states, other);
                lemma_state_index_first(states, position);
                lemma_state_index_of_first(states, other);
                let si = state_index(current, other);
                if j < prefix.len() {
                    assert(prefix[j] == ranks[j]);
                    assert(current[si].pending);
                }
                if si != k {
                    assert(result[si] == current[si]);
                }
            }
            assert forall|i: int| 0 <= i < states.len() implies #[trigger] result[i] == states[i] || (result[i].pending
                && i == state_index(states, states[i].key)) by {
                if i == k {
                    assert(states[k].key == key);
                }
            }
        } else {
            assert(result == current);
            assert forall|j: int| 0 <= j < ranks.len() implies #[trigger] result[state_index(
                result,
                keys[ranks[j].position as int],
            )].pending by {
                if j < prefix.len() {
                    assert(prefix[j] == ranks[j]);
                }
            }
        }
    }
}

/// Recovering keeps identifiers, switches and waiting, and changes only
/// reminders waiting for attention.
proof fn lemma_recovery_keeps_settled(states: Seq<ReminderState>, now: Instant)
    requires
        settled(states, now),
    ensures
        settled(recovered_states(states, now), now),
{
    let rec = recovered_states(states, now);
    assert forall|i: int| 0 <= i < rec.len() implies #[trigger] rec[i].key == states[i].key by {}
    assert forall|i: int|
        0 <= i < rec.len() && #[trigger] rec[i].enabled && (state_due(rec[i]) matches Some(d) && not_after(d, now))
        implies rec[state_index(rec, rec[i].key)].pending by {
        lemma_state_index_same_keys(rec, states, rec[i].key);
        lemma_state_index_first(states, i);
        assert(rec[i] == recovered_state(states[i], now));
        assert(states[i].enabled && (state_due(states[i]) matches Some(d) && not_after(d, now))) by {
            if !(state_due(states[i]) matches Some(d) && not_after(d, now)) {
                assert(rec[i] == states[i]);
            }
        }
        let f = state_index(states, states[i].key);
        lemma_state_index_of_first(states, states[i].key);
        assert(states[f].pending);
        assert(rec[f] == recovered_state(states[f], now));
    }
}

/// A reconcile leaves every switched-on due reminder with a waiting
/// reminder under its identifier.
proof fn lemma_reconciled_settles(states: Seq<ReminderState>, now: Instant, order: Seq<DueRank>)
    requires
        order.to_multiset() == due_ranks(recovered_states(states, now), now).to_multiset(),
        states.len() <= usize::MAX,
    ensures
        settled(reconciled(states, now, order).0, now),
        reconciled(states, now, order).0.len() == states.len(),
{
    broadcast use vstd::seq_lib::group_to_multiset_ensures;
    let base = recovered_states(states, now);
    let keys = base.map_values(|s: ReminderState| s.key);
    lemma_due_rank_positions(base, now);
    assert forall|j: int| 0 <= j < order.len() implies #[trigger] order[j].position < base.len() by {
        assert(order.to_multiset().count(order[j]) > 0);
        assert(due_ranks(base, now).contains(order[j]));
    }
    lemma_deliver_in_turn_settles(base, order, now);
    let result = reconciled(states, now, order).0;
    assert(result == deliver_in_turn(base, keys, order, now).0);
    assert forall|i: int|
        0 <= i < result.len() && #[trigger] result[i].enabled && (state_due(result[i]) matches Some(d) && not_after(d, now))
        implies result[state_index(result, result[i].key)].pending by {
        lemma_state_index_same_keys(result, base, result[i].key);
        if result[i] == base[i] {
            lemma_due_rank_present(base, now, i);
            let r = DueRank { due: state_due(base[i])->0, position: i as usize };
            assert(order.to_multiset().count(r) > 0);
            assert(order.contains(r));
            let j = choose|j: int| 0 <= j < order.len() && order[j] == r;
            assert(keys[order[j].position as int] == base[i].key);
        }
    }
}

/// Once settled, a reconcile delivers nothing.
proof fn lemma_settled_delivers_nothing(states: Seq<ReminderState>, now: Instant, order: Seq<DueRank>)
    requires
        settled(states, now),
        states.len() <= usize::MAX,
        order.to_multiset() == due_ranks(recovered_states(states, now), now).to_multiset(),
    ensures
        reconciled(states, now, order).1.len() == 0,
{
    broadcast use vstd::seq_lib::group_to_multiset_ensures;
    let base = recovered_states(states, now);
    let keys = base.map_values(|s: ReminderState| s.key);
    lemma_recovery_keeps_settled(states, now);
    assert forall|j: int| 0 <= j < order.len() implies due_ranks(base, now).contains(#[trigger] order[j]) by {
        assert(order.to_multiset().count(order[j]) > 0);
    }
    lemma_deliver_nothing(base, keys, order, now);
}

proof fn lemma_deliver_nothing(base: Seq<ReminderState>, keys: Seq<Seq<char>>, ranks: Seq<DueRank>, now: Instant)
    requires
        settled(base, now),
        base.len() <= usize::MAX,
        keys == base.map_values(|s: ReminderState| s.key),
        forall|j: int| 0 <= j < ranks.len() ==> due_ranks(base, now).contains(#[trigger] ranks[j]),
    ensures
        deliver_in_turn(base, keys, ranks, now) == (base, Seq::<Seq<char>>::empty()),
    decreases ranks.len(),
{
    if ranks.len() > 0 {
        let prefix = ranks.drop_last();
        assert forall|j: int| 0 <= j < prefix.len() implies due_ranks(base, now).contains(#[trigger] prefix[j]) by {
            assert(prefix[j] == ranks[j]);
        }
        lemma_deliver_nothing(base, keys, prefix, now);
        let rank = ranks.last();
        assert(due_ranks(base, now).contains(rank));
        lemma_due_rank_fields(base, now, rank);
        let i = rank.position as int;
        lemma_state_index_first(base, i);
    }
}

proof fn lemma_due_rank_fields(states: Seq<ReminderState>, now: Instant, rank: DueRank)
    requires
        due_ranks(states, now).contains(rank),
        states.len() <= usize::MAX,
    ensures
        rank.position < states.len(),
        states[rank.position as int].enabled,
        state_due(states[rank.position as int]) matches Some(d) && not_after(d, now),
    decreases states.len(),
{
    if states.len() > 0 {
        let rest = states.drop_last();
        let all = due_ranks(states, now);
        let rr = due_ranks(rest, now);
        let k = choose|k: int| 0 <= k < all.len() && all[k] == rank;
        let last = states.last();
        let pushed = DueRank { due: state_due(last)->0, position: (states.len() - 1) as usize };
        if last.enabled && (state_due(last) matches Some(d) && not_after(d, now)) {
            assert(all == rr.push(pushed));
        } else {
            assert(all == rr);
        }
        if k < rr.len() {
            assert(rr[k] == rank);
            lemma_due_rank_fields(rest, now, rank);
            assert(rest[rank.position as int] == states[rank.position as int]);
        } else {
            assert(rank == pushed);
        }
    }
}

/// Each due reminder is delivered once: right after a reconcile at `now`,
/// a reconcile at the same moment delivers nothing.
pub proof fn lemma_reminder_delivered_once(
    states: Seq<ReminderState>,
    now: Instant,
    first: Seq<DueRank>,
    second: Seq<DueRank>,
)
    requires
        states.len() <= usize::MAX,
        first.to_multiset() == due_ranks(recovered_states(states, now), now).to_multiset(),
        second.to_multiset() == due_ranks(recovered_states(reconciled(states, now, first).0, now), now).to_multiset(),
    ensures
        reconciled(reconciled(states, now, first).0, now, second).1.len() == 0,
{
    lemma_reconciled_settles(states, now, first);
    lemma_settled_delivers_nothing(reconciled(states, now, first).0, now, second);
}

} // verus!
