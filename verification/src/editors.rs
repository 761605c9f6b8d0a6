//! What the planner's editors decide: checking what was typed and turning it
//! into planner items, stepping the plan view, toggling the stopwatch.

use vstd::prelude::*;
use crate::calendar::{
    day_number, days_in_month, in_supported_range, is_supported_date, month_length, shift_day,
    weekday_from_monday, weekday_index, CalendarDate, MAX_YEAR, MIN_YEAR,
};
use crate::calendar::{format_iso_date, iso_text};
use crate::commands::{execute_planner_command, planner_command_post, PlannerCommand};
use crate::alarm_time::{next_once, next_once_of};
use crate::inputs::{
    alert_with_custom, normalize_alarm_time, normalized_alarm_time, parse_alert_with_custom,
    parse_timer_duration, parsed_part,
};
use crate::instant::{
    instant_text, is_not_after, not_after, rfc3339_instant, utc_rfc3339, zone_readable, Instant,
    EARLIEST_SECONDS, LATEST_SECONDS,
};
use crate::planner::{ReminderRecurrence, ReminderSchedule};
use crate::reminder_time::{chosen_weekday_date, due_utc, recurring_schedule, resolved_at};
use crate::text::{push_char, push_str, text_equals};
use crate::zoned::{read_in_zone, zone_reading};
use crate::calendar::{days_between, iso_date, parse_iso_date};
use crate::inputs::{parse_event_recurrence, recurrence_of_label};
use crate::planner::{EventRecurrence, EventTime};
use crate::planner::{Alarm, AlarmSchedule, Planner, Stopwatch, StopwatchState};
use crate::clock::{first_main_index, Clock};
use crate::views::main_clock_index;
use crate::reminder_time::{resolve_local, resolved_local};
use crate::text::{parse_u32, parsed_u32, trim_text, trimmed};

verus! {

/// The period the plan shows.
#[derive(Clone, Copy, Debug, PartialEq, Eq, Structural)]
pub enum PlanView {
    Week,
    Month,
    Year,
}

/// The first day of the month `index` months after January of year 0, when
/// its year is a year of the calendar.
pub open spec fn month_start(index: int) -> Option<CalendarDate> {
    if MIN_YEAR <= index / 12 <= MAX_YEAR {
        Some(CalendarDate { year: (index / 12) as i32, month: (index % 12 + 1) as u32, day: 1 })
    } else {
        None
    }
}

/// Month position of a date counted from January of year 0.
pub open spec fn month_index(date: CalendarDate) -> int {
    date.year * 12 + date.month - 1
}

/// The date a month-view step starts from: today for `0`, today moved into
/// month `direction - 100` for a month pick (today when that day does not
/// exist there), else the current date.
pub open spec fn month_view_base(current: CalendarDate, today: CalendarDate, direction: i32) -> CalendarDate {
    if direction == 0 {
        today
    } else if direction >= 100 {
        let month = direction - 100;
        if 1 <= month <= 12 && today.day <= month_length(today.year as int, month) {
            CalendarDate { month: month as u32, ..today }
        } else {
            today
        }
    } else {
        current
    }
}

/// The sign of a direction: -1, 0 or 1.
pub open spec fn signum(direction: i32) -> int {
    if direction < 0 {
        -1
    } else if direction > 0 {
        1
    } else {
        0
    }
}

/// The date a plan step leads to. Week: the Monday of today's week for `0`,
/// else seven days back or forward. Month: the first day of the base month,
/// moved a month back or forward for `-1` or `1` when that month exists.
/// Year: January 1st of today's year for `0`, else of the year before or
/// after the current one when that year exists.
pub open spec fn plan_step_ok(
    view: PlanView,
    current: CalendarDate,
    today: CalendarDate,
    direction: i32,
    result: CalendarDate,
) -> bool {
    match view {
        PlanView::Week => is_supported_date(result) && day_number(result) == if direction == 0 {
            day_number(today) - weekday_from_monday(today)
        } else {
            day_number(current) + 7 * signum(direction)
        },
        PlanView::Month => {
            let base = month_view_base(current, today, direction);
            let moved = if direction == -1 || direction == 1 {
                month_start(month_index(base) + direction)
            } else {
                None
            };
            result == match moved {
                Some(first) => first,
                None => CalendarDate { day: 1, ..base },
            }
        },
        PlanView::Year => {
            let base = if direction == 0 { today } else { current };
            let year = base.year + signum(direction);
            result == if MIN_YEAR <= year <= MAX_YEAR {
                CalendarDate { year: year as i32, month: 1, day: 1 }
            } else {
                CalendarDate { year: base.year, month: 1, day: 1 }
            }
        },
    }
}

/// The date the plan view starts on after a step. `direction` is `0` for
/// today, a sign for back or forward, and for the month view `100 + m` to
/// pick month `m` of today's year.
pub fn step_plan_date(view: PlanView, current: CalendarDate, today: CalendarDate, direction: i32) -> (start: CalendarDate)
    requires
        is_supported_date(current),
        is_supported_date(today),
        view == PlanView::Week && direction == 0 ==> in_supported_range(
            day_number(today) - weekday_from_monday(today),
        ),
        view == PlanView::Week && direction != 0 ==> in_supported_range(
            day_number(current) + 7 * signum(direction),
        ),
    ensures
        plan_step_ok(view, current, today, direction, start),
{
    match view {
        PlanView::Week => {
            if direction == 0 {
                let weekday = weekday_index(today, true);
                shift_day(today, -(weekday as i64))
            } else {
                let step: i64 = if direction < 0 { -7 } else { 7 };
                shift_day(current, step)
            }
        },
        PlanView::Month => {
            let base = if direction == 0 {
                today
            } else if direction >= 100 {
                let month = direction - 100;
                if 1 <= month && month <= 12 && today.day <= days_in_month(today.year, month as u32) {
                    CalendarDate { month: month as u32, ..today }
                } else {
                    today
                }
            } else {
                current
            };
            let index: i64 = base.year as i64 * 12 + base.month as i64 - 1;
            if direction == -1 || direction == 1 {
                let moved: i64 = index + direction as i64;
                let year: i64 = if moved >= 0 { moved / 12 } else { -((-moved + 11) / 12) };
                let month: i64 = moved - year * 12;
                proof {
                    assert(year == moved / 12 && month == moved % 12) by (nonlinear_arith)
                        requires
                            year == if moved >= 0 { moved / 12 } else { -((-moved + 11) / 12) },
                            month == moved - year * 12,
                            -10_000_000 <= moved <= 10_000_000,
                    ;
                }
                if MIN_YEAR as i64 <= year && year <= MAX_YEAR as i64 {
                    return CalendarDate { year: year as i32, month: (month + 1) as u32, day: 1 };
                }
            }
            CalendarDate { day: 1, ..base }
        },
        PlanView::Year => {
            let base = if direction == 0 { today } else { current };
            let year: i64 = base.year as i64 + if direction < 0 { -1 } else if direction > 0 { 1 } else { 0 };
            if MIN_YEAR as i64 <= year && year <= MAX_YEAR as i64 {
                CalendarDate { year: year as i32, month: 1, day: 1 }
            } else {
                CalendarDate { year: base.year, month: 1, day: 1 }
            }
        },
    }
}

/// A stopwatch as the toggle creates it: idle, at zero, with no laps.
pub open spec fn fresh_stopwatch(stopwatch: Stopwatch) -> bool {
    &&& stopwatch.state == StopwatchState::Idle
    &&& stopwatch.elapsed_seconds == 0
    &&& stopwatch.elapsed_milliseconds == 0
    &&& stopwatch.laps_seconds@.len() == 0
    &&& stopwatch.laps_milliseconds@.len() == 0
}

/// The command the toggle issues for a stopwatch: pause a running one at the
/// reading `elapsed_milliseconds`, start any other.
pub open spec fn toggle_command(stopwatch: Stopwatch, elapsed_milliseconds: u64) -> PlannerCommand {
    if stopwatch.state == StopwatchState::Running {
        PlannerCommand::PauseStopwatch { elapsed_milliseconds }
    } else {
        PlannerCommand::StartStopwatch
    }
}

/// Starts or pauses the planner's stopwatch, creating an idle one first when
/// there is none; `elapsed_milliseconds` is its current reading.
pub fn toggle_stopwatch(planner: &mut Planner, elapsed_milliseconds: u64) -> (changed: bool)
    ensures
        match old(planner).stopwatch {
            Some(stopwatch) => planner_command_post(
                *old(planner),
                *final(planner),
                toggle_command(stopwatch, elapsed_milliseconds),
                changed,
            ),
            None => exists|fresh: Stopwatch|
                fresh_stopwatch(fresh) && planner_command_post(
                    Planner { stopwatch: Some(fresh), ..*old(planner) },
                    *final(planner),
                    PlannerCommand::StartStopwatch,
                    changed,
                ),
        },
{
    if planner.stopwatch.is_none() {
        planner.stopwatch = Some(Stopwatch {
            state: StopwatchState::Idle,
            elapsed_seconds: 0,
            elapsed_milliseconds: 0,
            laps_seconds: Vec::new(),
            laps_milliseconds: Vec::new(),
        });
    }
    let running = match &planner.stopwatch {
        Some(stopwatch) => stopwatch.state == StopwatchState::Running,
        None => false,
    };
    let command = if running {
        PlannerCommand::PauseStopwatch { elapsed_milliseconds }
    } else {
        PlannerCommand::StartStopwatch
    };
    let ghost ready = *planner;
    let changed = execute_planner_command(planner, command);
    proof {
        if old(planner).stopwatch is None {
            assert(fresh_stopwatch(ready.stopwatch->0));
            assert(ready == Planner { stopwatch: Some(ready.stopwatch->0), ..*old(planner) });
        } else {
            assert(ready == *old(planner));
        }
    }
    changed
}

/// The weekdays ticked in an editor, Monday as `0`, in order.
pub open spec fn chosen_days(flags: Seq<bool>) -> Seq<u8>
    decreases flags.len(),
{
    if flags.len() == 0 {
        Seq::empty()
    } else {
        let rest = chosen_days(flags.drop_last());
        if flags.last() {
            rest.push((flags.len() - 1) as u8)
        } else {
            rest
        }
    }
}

/// The weekdays ticked in an editor.
pub fn chosen_weekdays(flags: &[bool; 7]) -> (days: Vec<u8>)
    ensures
        days@ == chosen_days(flags@),
{
    let mut days: Vec<u8> = Vec::new();
    let mut i: usize = 0;
    while i < 7
        invariant
            0 <= i <= 7,
            flags@.len() == 7,
            days@ == chosen_days(flags@.take(i as int)),
        decreases 7 - i,
    {
        proof {
            assert(flags@.take(i as int + 1).drop_last() =~= flags@.take(i as int));
        }
        if flags[i] {
            days.push(i as u8);
        }
        i = i + 1;
    }
    assert(flags@.take(7) =~= flags@);
    days
}

/// Why the alarm editor refuses what was typed.
#[derive(Clone, Copy, Debug, PartialEq, Eq, Structural)]
pub enum AlarmEditorError {
    /// The time is not `H:M` with hours up to 23 and minutes up to 59.
    InvalidTime,
    /// The name is blank.
    BlankTitle,
    /// A weekly alarm has no weekday ticked.
    NoWeekday,
    /// A one-time alarm has no next time to ring in its zone (the editor then
    /// leaves silently).
    NoNextTime,
}

/// Reads the alarm editor: the name (trimmed) and the schedule. The time is
/// checked first, then the name, then the weekdays of a weekly alarm; a
/// one-time alarm rings on its next occurrence after `now` in `zone`.
pub fn alarm_from_editor(
    title: &str,
    time: &str,
    weekly: bool,
    weekdays: &[bool; 7],
    zone: &str,
    now: Instant,
) -> (result: Result<(String, AlarmSchedule), AlarmEditorError>)
    requires
        zone_readable(now),
    ensures
        match normalized_alarm_time(time@) {
            None => result == Err::<(String, AlarmSchedule), AlarmEditorError>(AlarmEditorError::InvalidTime),
            Some(t) => if trimmed(title@).len() == 0 {
                result == Err::<(String, AlarmSchedule), AlarmEditorError>(AlarmEditorError::BlankTitle)
            } else if weekly && chosen_days(weekdays@).len() == 0 {
                result == Err::<(String, AlarmSchedule), AlarmEditorError>(AlarmEditorError::NoWeekday)
            } else if weekly {
                result matches Ok((name, AlarmSchedule::Weekly { local_time, weekdays: days }))
                    && name@ == trimmed(title@) && local_time@ == t && days@ == chosen_days(weekdays@)
            } else {
                match next_once_of(t, zone@, now) {
                    None => result == Err::<(String, AlarmSchedule), AlarmEditorError>(
                        AlarmEditorError::NoNextTime,
                    ),
                    Some(next) => result matches Ok((name, AlarmSchedule::Once { local_date, local_time }))
                        && name@ == trimmed(title@) && local_time@ == t && local_date@ == iso_text(next.0),
                }
            },
        },
{
    let time = match normalize_alarm_time(time) {
        Some(t) => t,
        None => return Err(AlarmEditorError::InvalidTime),
    };
    let name = trim_text(title);
    if name.unicode_len() == 0 {
        return Err(AlarmEditorError::BlankTitle);
    }
    let days = chosen_weekdays(weekdays);
    if weekly && days.len() == 0 {
        return Err(AlarmEditorError::NoWeekday);
    }
    if weekly {
        Ok((name, AlarmSchedule::Weekly { local_time: time, weekdays: days }))
    } else {
        match next_once(time.as_str(), zone, now) {
            Some((date, _)) => Ok((name, AlarmSchedule::Once { local_date: format_iso_date(date), local_time: time })),
            None => Err(AlarmEditorError::NoNextTime),
        }
    }
}

/// Why the task editor refuses what was typed.
#[derive(Clone, Copy, Debug, PartialEq, Eq, Structural)]
pub enum TaskEditorError {
    /// The name is blank.
    BlankTitle,
    /// A scheduled task's date and time name no moment in the zone.
    InvalidDueTime,
    /// The alert is not a preset, nor a custom one of 1 to 10,080 minutes.
    InvalidAlert,
}

/// What the task editor yields: the trimmed name, the due moment as RFC 3339
/// text, and the alert's minutes before it (both only for a scheduled task).
#[derive(Debug)]
pub struct TaskEditorInput {
    pub title: String,
    pub due_utc: Option<String>,
    pub alert_offset: Option<i32>,
}

/// Reads the task editor. The name is checked first, then (for a scheduled
/// task) the date and time in `zone`, then the alert, where "At due time"
/// means no lead.
pub fn task_from_editor(
    title: &str,
    scheduled: bool,
    date: &str,
    time: &str,
    alert: &str,
    custom_minutes: &str,
    zone: &str,
) -> (result: Result<TaskEditorInput, TaskEditorError>)
    ensures
        trimmed(title@).len() == 0 ==> (result matches Err(e) && e == TaskEditorError::BlankTitle),
        trimmed(title@).len() > 0 && scheduled && resolved_local(date@, time@, zone@) is None
            ==> (result matches Err(e) && e == TaskEditorError::InvalidDueTime),
        trimmed(title@).len() > 0 && (scheduled ==> resolved_local(date@, time@, zone@) is Some)
            && alert_with_custom(alert@, custom_minutes@, "At due time"@) is None
            ==> (result matches Err(e) && e == TaskEditorError::InvalidAlert),
        trimmed(title@).len() > 0 && (scheduled ==> resolved_local(date@, time@, zone@) is Some)
            && alert_with_custom(alert@, custom_minutes@, "At due time"@) is Some ==> (result matches Ok(
            input,
        ) && input.title@ == trimmed(title@) && (if scheduled {
            input.due_utc matches Some(due) && due@ == utc_rfc3339(resolved_local(date@, time@, zone@)->0)
                && input.alert_offset == alert_with_custom(alert@, custom_minutes@, "At due time"@)->0
        } else {
            input.due_utc is None && input.alert_offset is None
        })),
{
    let name = trim_text(title);
    if name.unicode_len() == 0 {
        return Err(TaskEditorError::BlankTitle);
    }
    let due_utc = if scheduled {
        match resolve_local(date, time, zone) {
            Some(due) => Some(instant_text(due)),
            None => return Err(TaskEditorError::InvalidDueTime),
        }
    } else {
        None
    };
    let offset = match parse_alert_with_custom(alert, custom_minutes, "At due time") {
        Some(offset) => offset,
        None => return Err(TaskEditorError::InvalidAlert),
    };
    Ok(TaskEditorInput { title: name, due_utc, alert_offset: if scheduled { offset } else { None } })
}

/// Why the timer editor refuses what was typed.
#[derive(Clone, Copy, Debug, PartialEq, Eq, Structural)]
pub enum TimerEditorError {
    /// The name is blank.
    BlankTitle,
    /// A part of the duration is not a number within its range.
    InvalidDuration,
    /// The duration is zero.
    ZeroDuration,
    /// A limited repeat count is not a number.
    InvalidRepeatCount,
    /// A limited repeat count is zero.
    ZeroRepeatCount,
}

/// What the timer editor yields: the trimmed name, the duration's parts and
/// total seconds, and the repeat count (`Some(0)` without repeats, `None`
/// for unlimited repeats).
#[derive(Debug)]
pub struct TimerEditorInput {
    pub title: String,
    pub days: u16,
    pub hours: u8,
    pub minutes: u8,
    pub seconds: u8,
    pub duration_seconds: u64,
    pub repeat_count: Option<u32>,
}

/// Total seconds of a duration given in parts.
pub open spec fn duration_total(days: int, hours: int, minutes: int, seconds: int) -> int {
    days * 86_400 + hours * 3_600 + minutes * 60 + seconds
}

/// Reads the timer editor. The name is checked first, then the duration,
/// then (for a timer that repeats a limited number of times) the count.
pub fn timer_from_editor(
    title: &str,
    days: &str,
    hours: &str,
    minutes: &str,
    seconds: &str,
    repeat: bool,
    unlimited: bool,
    repeat_count: &str,
) -> (result: Result<TimerEditorInput, TimerEditorError>)
    ensures
        ({
            let blank = trimmed(title@).len() == 0;
            let parts = (parsed_part(days@, 0), parsed_part(hours@, 1), parsed_part(minutes@, 2), parsed_part(seconds@, 3));
            let parsed = parts.0 is Some && parts.1 is Some && parts.2 is Some && parts.3 is Some;
            let total = duration_total(parts.0->0 as int, parts.1->0 as int, parts.2->0 as int, parts.3->0 as int);
            let count = parsed_u32(trimmed(repeat_count@));
            let limited = repeat && !unlimited;
            &&& blank ==> (result matches Err(e) && e == TimerEditorError::BlankTitle)
            &&& !blank && !parsed ==> (result matches Err(e) && e == TimerEditorError::InvalidDuration)
            &&& !blank && parsed && total == 0 ==> (result matches Err(e) && e == TimerEditorError::ZeroDuration)
            &&& !blank && parsed && total > 0 && limited && count is None ==> (result matches Err(e) && e == TimerEditorError::InvalidRepeatCount)
            &&& !blank && parsed && total > 0 && limited && count == Some(0u32) ==> (result matches Err(e) && e == TimerEditorError::ZeroRepeatCount)
            &&& !blank && parsed && total > 0 && !(limited && (count is None || count == Some(0u32)))
                ==> (result matches Ok(input) && input.title@ == trimmed(title@) && input.days == parts.0->0
                && input.hours == parts.1->0 && input.minutes == parts.2->0 && input.seconds == parts.3->0
                && input.duration_seconds == total && input.repeat_count == if !repeat {
                Some(0u32)
            } else if unlimited {
                None
            } else {
                count
            })
        }),
{
    let name = trim_text(title);
    if name.unicode_len() == 0 {
        return Err(TimerEditorError::BlankTitle);
    }
    let (d, h, m, s) = match parse_timer_duration(days, hours, minutes, seconds) {
        Some(parts) => parts,
        None => return Err(TimerEditorError::InvalidDuration),
    };
    let duration_seconds: u64 = d as u64 * 86_400 + h as u64 * 3_600 + m as u64 * 60 + s as u64;
    if duration_seconds == 0 {
        return Err(TimerEditorError::ZeroDuration);
    }
    let count = if !repeat {
        Some(0u32)
    } else if unlimited {
        None
    } else {
        let trimmed_count = trim_text(repeat_count);
        match parse_u32(trimmed_count.as_str()) {
            Some(c) => {
                if c == 0 {
                    return Err(TimerEditorError::ZeroRepeatCount);
                }
                Some(c)
            },
            None => return Err(TimerEditorError::InvalidRepeatCount),
        }
    };
    Ok(TimerEditorInput { title: name, days: d, hours: h, minutes: m, seconds: s, duration_seconds, repeat_count: count })
}

/// Why the reminder editor refuses what was typed.
#[derive(Clone, Copy, Debug, PartialEq, Eq, Structural)]
pub enum ReminderEditorError {
    /// The name is blank.
    BlankTitle,
    /// Hours and minutes are not a time of day.
    InvalidTime,
    /// The date and time name no moment in the zone (nor, for a weekly
    /// reminder, does its first chosen weekday; nor can the calendar read the
    /// due moment back within a day of its ends).
    InvalidDate,
    /// A weekly reminder has no weekday ticked.
    NoWeekday,
    /// The recurrence is none of "Once", "Daily", "Weekly", "Monthly", "Yearly".
    UnknownRecurrence,
    /// The first time it is due is not after now.
    NotInFuture,
}

/// How a reminder repeats, as plain values.
pub enum RecurrenceView {
    Daily,
    Weekly(Seq<u8>),
    Monthly(u8),
    Yearly(u8, u8),
}

/// A repeating rule as plain values.
pub open spec fn recurrence_view(recurrence: ReminderRecurrence) -> RecurrenceView {
    match recurrence {
        ReminderRecurrence::Daily => RecurrenceView::Daily,
        ReminderRecurrence::Weekly { weekdays } => RecurrenceView::Weekly(weekdays@),
        ReminderRecurrence::Monthly { day } => RecurrenceView::Monthly(day),
        ReminderRecurrence::Yearly { month, day } => RecurrenceView::Yearly(month, day),
    }
}

/// What the reminder editor makes of its fields.
pub enum ReminderDraft {
    Refused(ReminderEditorError),
    /// Due once, at the moment.
    Once(Instant),
    /// Repeating by the rule, first due at the moment.
    Repeating(RecurrenceView, Instant),
}

/// The time typed as hours and minutes, normalized to `HH:MM`.
pub open spec fn reminder_time_text(hours: Seq<char>, minutes: Seq<char>) -> Option<Seq<char>> {
    normalized_alarm_time(hours + seq![':'] + minutes)
}

/// The first moment of a weekly reminder: its time on the first chosen
/// weekday within a week from the date.
pub open spec fn weekly_first(date: Seq<char>, days: Seq<u8>, time: Seq<char>, zone: Seq<char>) -> Option<Instant> {
    match iso_date(date) {
        Some(d0) => match chosen_weekday_date(d0, days, 0, 6) {
            Some(d) => resolved_at(d, time, zone),
            None => None,
        },
        None => None,
    }
}

/// A draft that is kept only when its first moment, as stored, is after now.
pub open spec fn if_future(draft: ReminderDraft, first: Instant, now: Instant) -> ReminderDraft {
    match rfc3339_instant(utc_rfc3339(first)) {
        Some(due) => if not_after(due, now) {
            ReminderDraft::Refused(ReminderEditorError::NotInFuture)
        } else {
            draft
        },
        None => ReminderDraft::Refused(ReminderEditorError::NotInFuture),
    }
}

/// What the reminder editor decides. The name is checked first, then the
/// time, then the date in `zone`; then the recurrence: a weekly one needs a
/// weekday, a monthly one repeats on the due moment's day of the month and a
/// yearly one on its month and day, both as the zone's clock reads it.
/// Last, the first due moment must be after `now`.
pub open spec fn reminder_draft(
    title: Seq<char>,
    date: Seq<char>,
    hours: Seq<char>,
    minutes: Seq<char>,
    label: Seq<char>,
    flags: Seq<bool>,
    zone: Seq<char>,
    now: Instant,
) -> ReminderDraft {
    if trimmed(title).len() == 0 {
        ReminderDraft::Refused(ReminderEditorError::BlankTitle)
    } else {
        match reminder_time_text(hours, minutes) {
            None => ReminderDraft::Refused(ReminderEditorError::InvalidTime),
            Some(time) => match resolved_local(date, time, zone) {
                None => ReminderDraft::Refused(ReminderEditorError::InvalidDate),
                Some(due) => if label == "Once"@ {
                    if_future(ReminderDraft::Once(due), due, now)
                } else if label == "Daily"@ {
                    if_future(ReminderDraft::Repeating(RecurrenceView::Daily, due), due, now)
                } else if label == "Weekly"@ {
                    let days = chosen_days(flags);
                    if days.len() == 0 {
                        ReminderDraft::Refused(ReminderEditorError::NoWeekday)
                    } else {
                        match weekly_first(date, days, time, zone) {
                            Some(first) => if_future(ReminderDraft::Repeating(RecurrenceView::Weekly(days), first), first, now),
                            None => ReminderDraft::Refused(ReminderEditorError::InvalidDate),
                        }
                    }
                } else if label == "Monthly"@ || label == "Yearly"@ {
                    if !zone_readable(due) {
                        ReminderDraft::Refused(ReminderEditorError::InvalidDate)
                    } else {
                        match zone_reading(zone, due) {
                            Some(local) => {
                                let rule = if label == "Monthly"@ {
                                    RecurrenceView::Monthly(local.date.day as u8)
                                } else {
                                    RecurrenceView::Yearly(local.date.month as u8, local.date.day as u8)
                                };
                                if_future(ReminderDraft::Repeating(rule, due), due, now)
                            },
                            None => ReminderDraft::Refused(ReminderEditorError::InvalidDate),
                        }
                    }
                } else {
                    ReminderDraft::Refused(ReminderEditorError::UnknownRecurrence)
                },
            },
        }
    }
}

/// Reads the reminder editor: the trimmed name and the schedule, in `zone`
/// (the main clock's). A once reminder is due at its moment; a repeating one
/// keeps the `HH:MM` time, the zone and its first moment.
pub fn reminder_from_editor(
    title: &str,
    date: &str,
    hours: &str,
    minutes: &str,
    recurrence: &str,
    weekdays: &[bool; 7],
    zone: &str,
    now: Instant,
) -> (result: Result<(String, ReminderSchedule), ReminderEditorError>)
    ensures
        match reminder_draft(title@, date@, hours@, minutes@, recurrence@, weekdays@, zone@, now) {
            ReminderDraft::Refused(e) => result == Err::<(String, ReminderSchedule), ReminderEditorError>(e),
            ReminderDraft::Once(due) => result matches Ok((name, ReminderSchedule::Absolute { at_utc, source_time_zone }))
                && name@ == trimmed(title@) && at_utc@ == utc_rfc3339(due) && source_time_zone@ == zone@,
            ReminderDraft::Repeating(rule, first) => result matches Ok(
                (name, ReminderSchedule::Recurring { recurrence: r, local_time, source_time_zone, next_at_utc }),
            ) && name@ == trimmed(title@) && recurrence_view(r) == rule && local_time@
                == reminder_time_text(hours@, minutes@)->0 && source_time_zone@ == zone@ && next_at_utc@
                == utc_rfc3339(first),
        },
{
    let name = trim_text(title);
    if name.unicode_len() == 0 {
        return Err(ReminderEditorError::BlankTitle);
    }
    let mut typed = String::new();
    push_str(&mut typed, hours);
    push_char(&mut typed, ':');
    push_str(&mut typed, minutes);
    assert(typed@ =~= hours@ + seq![':'] + minutes@);
    let time = match normalize_alarm_time(typed.as_str()) {
        Some(t) => t,
        None => return Err(ReminderEditorError::InvalidTime),
    };
    let due = match resolve_local(date, time.as_str(), zone) {
        Some(d) => d,
        None => return Err(ReminderEditorError::InvalidDate),
    };
    let schedule = if text_equals(recurrence, "Once") {
        ReminderSchedule::Absolute { at_utc: instant_text(due), source_time_zone: zone.to_string() }
    } else if text_equals(recurrence, "Daily") {
        match recurring_schedule(ReminderRecurrence::Daily, date, time.as_str(), zone) {
            Some(s) => s,
            None => return Err(ReminderEditorError::InvalidDate),
        }
    } else if text_equals(recurrence, "Weekly") {
        let days = chosen_weekdays(weekdays);
        if days.len() == 0 {
            return Err(ReminderEditorError::NoWeekday);
        }
        match recurring_schedule(ReminderRecurrence::Weekly { weekdays: days }, date, time.as_str(), zone) {
            Some(s) => s,
            None => return Err(ReminderEditorError::InvalidDate),
        }
    } else if text_equals(recurrence, "Monthly") || text_equals(recurrence, "Yearly") {
        if due.seconds < EARLIEST_SECONDS + 86_400 || due.seconds > LATEST_SECONDS - 86_400 {
            return Err(ReminderEditorError::InvalidDate);
        }
        let local = match read_in_zone(zone, due) {
            Some(l) => l,
            None => return Err(ReminderEditorError::InvalidDate),
        };
        let rule = if text_equals(recurrence, "Monthly") {
            ReminderRecurrence::Monthly { day: local.date.day as u8 }
        } else {
            ReminderRecurrence::Yearly { month: local.date.month as u8, day: local.date.day as u8 }
        };
        match recurring_schedule(rule, date, time.as_str(), zone) {
            Some(s) => s,
            None => return Err(ReminderEditorError::InvalidDate),
        }
    } else {
        return Err(ReminderEditorError::UnknownRecurrence);
    };
    match due_utc(&schedule) {
        Some(first) => {
            if is_not_after(first, now) {
                return Err(ReminderEditorError::NotInFuture);
            }
        },
        None => return Err(ReminderEditorError::NotInFuture),
    }
    Ok((name, schedule))
}

/// Why the event editor refuses what was typed.
#[derive(Clone, Copy, Debug, PartialEq, Eq, Structural)]
pub enum EventEditorError {
    /// The title is blank.
    BlankTitle,
    /// The date is not a `%Y-%m-%d` date.
    InvalidDate,
    /// An all-day event's end date is not a `%Y-%m-%d` date.
    InvalidEndDate,
    /// An all-day event ends before it starts.
    EndBeforeStart,
    /// A timed event's start names no moment in the zone.
    InvalidStartTime,
    /// A timed event's end names no moment in the zone.
    InvalidEndTime,
    /// A timed event does not end after it starts.
    EndNotAfterStart,
    /// The repeat option is not one of the labels.
    InvalidRepeat,
    /// The alert is not a preset, nor a custom one of 1 to 10,080 minutes.
    InvalidAlert,
}

/// What the event editor yields: the trimmed title, when it takes place, how
/// it repeats, and its alert's minutes before the start, if any.
#[derive(Debug)]
pub struct EventEditorInput {
    pub title: String,
    pub time: EventTime,
    pub recurrence: EventRecurrence,
    pub alert_offset: Option<i32>,
}

/// Whether the event editor refuses its fields, and why. The title is checked
/// first, then the date; then an all-day event's end date, or a timed event's
/// start and end times on that date in `zone`; then the repeat and the alert
/// ("At start" means no lead).
pub open spec fn event_refusal(
    title: Seq<char>,
    date: Seq<char>,
    end_date: Seq<char>,
    start: Seq<char>,
    end: Seq<char>,
    all_day: bool,
    repeat: Seq<char>,
    alert: Seq<char>,
    custom_minutes: Seq<char>,
    zone: Seq<char>,
) -> Option<EventEditorError> {
    if trimmed(title).len() == 0 {
        Some(EventEditorError::BlankTitle)
    } else if iso_date(date) is None {
        Some(EventEditorError::InvalidDate)
    } else if all_day && iso_date(end_date) is None {
        Some(EventEditorError::InvalidEndDate)
    } else if all_day && day_number(iso_date(end_date)->0) < day_number(iso_date(date)->0) {
        Some(EventEditorError::EndBeforeStart)
    } else if !all_day && resolved_local(date, start, zone) is None {
        Some(EventEditorError::InvalidStartTime)
    } else if !all_day && resolved_local(date, end, zone) is None {
        Some(EventEditorError::InvalidEndTime)
    } else if !all_day && not_after(resolved_local(date, end, zone)->0, resolved_local(date, start, zone)->0) {
        Some(EventEditorError::EndNotAfterStart)
    } else if recurrence_of_label(repeat) is None {
        Some(EventEditorError::InvalidRepeat)
    } else if alert_with_custom(alert, custom_minutes, "At start"@) is None {
        Some(EventEditorError::InvalidAlert)
    } else {
        None
    }
}

/// Reads the event editor in `zone` (the main clock's). An all-day event
/// keeps its two date texts; a timed one stores its start and end moments as
/// RFC 3339 text with the zone.
pub fn event_from_editor(
    title: &str,
    date: &str,
    end_date: &str,
    start: &str,
    end: &str,
    all_day: bool,
    repeat: &str,
    alert: &str,
    custom_minutes: &str,
    zone: &str,
) -> (result: Result<EventEditorInput, EventEditorError>)
    ensures
        match event_refusal(title@, date@, end_date@, start@, end@, all_day, repeat@, alert@, custom_minutes@, zone@) {
            Some(e) => (result matches Err(refused) && refused == e),
            None => (result matches Ok(input) && input.title@ == trimmed(title@) && Some(input.recurrence)
                == recurrence_of_label(repeat@) && Some(input.alert_offset) == alert_with_custom(
                alert@,
                custom_minutes@,
                "At start"@,
            ) && if all_day {
                input.time matches EventTime::AllDay { start_date, end_date: last } && start_date@ == date@
                    && last@ == end_date@
            } else {
                input.time matches EventTime::Timed { start_utc, end_utc, source_time_zone } && start_utc@
                    == utc_rfc3339(resolved_local(date@, start@, zone@)->0) && end_utc@ == utc_rfc3339(
                    resolved_local(date@, end@, zone@)->0,
                ) && source_time_zone@ == zone@
            }),
        },
{
    let name = trim_text(title);
    if name.unicode_len() == 0 {
        return Err(EventEditorError::BlankTitle);
    }
    let first = match parse_iso_date(date) {
        Some(d) => d,
        None => return Err(EventEditorError::InvalidDate),
    };
    let time = if all_day {
        let last = match parse_iso_date(end_date) {
            Some(d) => d,
            None => return Err(EventEditorError::InvalidEndDate),
        };
        if days_between(first, last) < 0 {
            return Err(EventEditorError::EndBeforeStart);
        }
        EventTime::AllDay { start_date: date.to_string(), end_date: end_date.to_string() }
    } else {
        let start_utc = match resolve_local(date, start, zone) {
            Some(m) => m,
            None => return Err(EventEditorError::InvalidStartTime),
        };
        let end_utc = match resolve_local(date, end, zone) {
            Some(m) => m,
            None => return Err(EventEditorError::InvalidEndTime),
        };
        if is_not_after(end_utc, start_utc) {
            return Err(EventEditorError::EndNotAfterStart);
        }
        EventTime::Timed {
            start_utc: instant_text(start_utc),
            end_utc: instant_text(end_utc),
            source_time_zone: zone.to_string(),
        }
    };
    let recurrence = match parse_event_recurrence(repeat) {
        Some(r) => r,
        None => return Err(EventEditorError::InvalidRepeat),
    };
    let alert_offset = match parse_alert_with_custom(alert, custom_minutes, "At start") {
        Some(offset) => offset,
        None => return Err(EventEditorError::InvalidAlert),
    };
    Ok(EventEditorInput { title: name, time, recurrence, alert_offset })
}

/// The zone a saved alarm rings in: an edited alarm keeps its own; a new one
/// takes the main clock's, else the first clock's, else UTC.
pub open spec fn alarm_zone_text(existing: Option<Alarm>, clocks: Seq<Clock>) -> Seq<char> {
    match existing {
        Some(alarm) => alarm.time_zone@,
        None => if clocks.len() == 0 {
            "UTC"@
        } else {
            clocks[first_main_index(clocks)].time_zone@
        },
    }
}

/// The zone a saved alarm rings in.
pub fn alarm_zone(existing: Option<&Alarm>, clocks: &Vec<Clock>) -> (zone: String)
    ensures
        zone@ == alarm_zone_text(
            match existing {
                Some(a) => Some(*a),
                None => None,
            },
            clocks@,
        ),
{
    match existing {
        Some(alarm) => alarm.time_zone.clone(),
        None => {
            if clocks.len() == 0 {
                "UTC".to_string()
            } else {
                let index = main_clock_index(clocks.as_slice());
                proof {
                    crate::clock::lemma_first_main_index(clocks@);
                }
                clocks[index].time_zone.clone()
            }
        },
    }
}

} // verus!
