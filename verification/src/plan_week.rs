//! The plan's week view: which dates a repeating event falls on, and the
//! markers of tasks, reminders and events on the seven days of a week.

use vstd::prelude::*;
use crate::calendar::{
    day_number, days_between, is_supported_date, lemma_day_number_injective,
    lemma_supported_date_in_range, try_shift_day, CalendarDate,
};
use crate::calendar::{format_iso_date, iso_text, lemma_day_number_span};
use crate::event_time::{occurs_on, recurrence_matches};
use crate::inputs::chrono_hour_minute;
use crate::calendar::{weekday_from_monday, weekday_index, first_day_number, iso_date, last_day_number, parse_iso_date, shift_day, in_supported_range};
use crate::instant::{
    add_span, parse_instant, rfc3339_instant, span_added, Instant, zone_readable, representable,
    rfc3339_range,
};
use crate::lanes::{
    arrange_plan_event_lanes, arrange_plan_reminder_lanes, events_in_lanes, reminders_in_lanes,
    PlanEventMarker, PlanReminderMarker,
};
use crate::planner::{Event, EventRecurrence, EventTime, Planner, Reminder, Task, TaskStatus};
use crate::reminder_time::{date_numbered, due_utc, reminder_due, resolve_date_time, resolved_at};
use crate::zoned::near_date;
use crate::sorting::{ranked_sorted, stable_arrangement};
use crate::text::padded2;
use crate::zoned::{local_seconds, read_in_zone, valid_local, wall_clock, zone_reading, LocalDateTime};

verus! {

/// The dates among the first `count` from `first` on which an event first
/// held on `origin` takes place, in order.
pub open spec fn matching_dates(origin: CalendarDate, recurrence: EventRecurrence, first: CalendarDate, count: int) -> Seq<CalendarDate>
    decreases count,
{
    if count <= 0 {
        Seq::empty()
    } else {
        let rest = matching_dates(origin, recurrence, first, count - 1);
        let date = date_numbered(day_number(first) + count - 1);
        if occurs_on(origin, date, recurrence) {
            rest.push(date)
        } else {
            rest
        }
    }
}

/// The dates from `range_start` (or from `origin`, when later) to
/// `range_end` on which an event first held on `origin` takes place.
pub open spec fn occurrence_dates(
    origin: CalendarDate,
    recurrence: EventRecurrence,
    range_start: CalendarDate,
    range_end: CalendarDate,
) -> Seq<CalendarDate> {
    let first = if day_number(range_start) < day_number(origin) { origin } else { range_start };
    matching_dates(origin, recurrence, first, day_number(range_end) - day_number(first) + 1)
}

/// The dates in a range on which an event first held on `origin` takes
/// place, from `range_start` or `origin`, whichever is later, to `range_end`.
pub fn event_occurrence_dates(
    origin: CalendarDate,
    recurrence: EventRecurrence,
    range_start: CalendarDate,
    range_end: CalendarDate,
) -> (dates: Vec<CalendarDate>)
    requires
        is_supported_date(origin),
        is_supported_date(range_start),
        is_supported_date(range_end),
    ensures
        dates@ == occurrence_dates(origin, recurrence, range_start, range_end),
        forall|i: int| 0 <= i < dates@.len() ==> is_supported_date(#[trigger] dates@[i])
            && day_number(range_start) <= day_number(dates@[i]) <= day_number(range_end),
        dates@.len() <= (if day_number(range_end) - day_number(range_start) + 1 > 0 {
            day_number(range_end) - day_number(range_start) + 1
        } else {
            0
        }),
{
    let first = if days_between(origin, range_start) < 0 { origin } else { range_start };
    let ghost count = day_number(range_end) - day_number(first) + 1;
    let mut dates: Vec<CalendarDate> = Vec::new();
    let mut date = first;
    let ghost mut k: int = 0;
    let mut more = days_between(date, range_end) >= 0;
    while more
        invariant
            is_supported_date(first),
            is_supported_date(range_end),
            is_supported_date(date),
            is_supported_date(origin),
            more ==> day_number(date) == day_number(first) + k,
            more ==> day_number(date) <= day_number(range_end),
            count == day_number(range_end) - day_number(first) + 1,
            0 <= k,
            more ==> k < count,
            !more ==> k == (if count > 0 { count } else { 0 }),
            dates@ == matching_dates(origin, recurrence, first, k),
            forall|i: int| 0 <= i < dates@.len() ==> is_supported_date(#[trigger] dates@[i])
                && day_number(first) <= day_number(dates@[i]) < day_number(first) + k,
            dates@.len() <= k,
            day_number(range_start) <= day_number(first),
        decreases count - k,
    {
        proof {
            lemma_day_number_injective(date, date_numbered(day_number(first) + k));
        }
        if recurrence_matches(origin, date, recurrence) {
            dates.push(date);
        }
        proof {
            k = k + 1;
        }
        match try_shift_day(date, 1) {
            Some(next) => {
                date = next;
                more = days_between(date, range_end) >= 0;
            },
            None => {
                more = false;
                proof {
                    lemma_supported_date_in_range(range_end);
                    lemma_supported_date_in_range(date);
                    assert(k == count);
                }
            },
        }
    }
    dates
}

/// What the wall clock of `zone` shows at a moment; an unknown zone reads as UTC.
pub open spec fn reading_or_utc(zone: Seq<char>, moment: Instant) -> Option<LocalDateTime> {
    match zone_reading(zone, moment) {
        Some(local) => Some(local),
        None => zone_reading("UTC"@, moment),
    }
}

pub(crate) fn read_or_utc(zone: &str, moment: Instant) -> (local: Option<LocalDateTime>)
    requires
        zone_readable(moment),
    ensures
        local == reading_or_utc(zone@, moment),
        local matches Some(l) ==> wall_clock(l) && l.nanos == moment.nanos && -86_400 < local_seconds(l)
            - moment.seconds < 86_400,
{
    match read_in_zone(zone, moment) {
        Some(local) => Some(local),
        None => {
            proof {
                reveal_strlit("UTC");
            }
            read_in_zone("UTC", moment)
        },
    }
}

/// `HH:MM` of an hour and a minute.
pub open spec fn hh_mm(hour: u32, minute: u32) -> Seq<char> {
    padded2(hour as nat) + seq![':'] + padded2(minute as nat)
}

/// What a marker in the week view shows, apart from its lane.
pub struct MarkerView {
    pub id: Seq<char>,
    pub title: Seq<char>,
    pub date: Seq<char>,
    pub time: Seq<char>,
    pub day_index: int,
    pub minute_offset: int,
}

/// The marker of an item at a wall-clock time, when its date is one of the
/// seven days from `start`.
pub open spec fn week_marker(id: Seq<char>, title: Seq<char>, local: LocalDateTime, start: CalendarDate) -> Option<MarkerView> {
    let day = day_number(local.date) - day_number(start);
    if 0 <= day < 7 {
        Some(MarkerView {
            id,
            title,
            date: iso_text(local.date),
            time: hh_mm(local.hour, local.minute),
            day_index: day,
            minute_offset: local.hour * 60 + local.minute,
        })
    } else {
        None
    }
}

/// The marker of an item due at a moment, read on the wall clock of `zone`.
pub open spec fn due_marker(id: Seq<char>, title: Seq<char>, due: Option<Instant>, zone: Seq<char>, start: CalendarDate) -> Option<MarkerView> {
    match due {
        Some(moment) => match reading_or_utc(zone, moment) {
            Some(local) => week_marker(id, title, local, start),
            None => None,
        },
        None => None,
    }
}

/// The moment a task text names, when it names one.
pub open spec fn task_due(task: Task) -> Option<Instant> {
    match task.due_utc {
        Some(text) => rfc3339_instant(text@),
        None => None,
    }
}

/// The marker of an open task due in the week.
pub open spec fn task_marker(task: Task, zone: Seq<char>, start: CalendarDate) -> Option<MarkerView> {
    if task.status == TaskStatus::Open {
        due_marker(task.id@, task.title@, task_due(task), zone, start)
    } else {
        None
    }
}

/// The marker of an enabled reminder due in the week.
pub open spec fn reminder_marker(reminder: Reminder, zone: Seq<char>, start: CalendarDate) -> Option<MarkerView> {
    if reminder.enabled {
        due_marker(reminder.id@, reminder.title@, reminder_due(reminder.schedule), zone, start)
    } else {
        None
    }
}

/// An open task drawn in the plan's week view.
#[derive(Clone, Debug)]
pub struct PlanTaskMarker {
    pub id: String,
    pub title: String,
    pub date: String,
    pub time: String,
    pub day_index: i32,
    pub minute_offset: i32,
}

pub open spec fn task_marker_view(m: PlanTaskMarker) -> MarkerView {
    MarkerView {
        id: m.id@,
        title: m.title@,
        date: m.date@,
        time: m.time@,
        day_index: m.day_index as int,
        minute_offset: m.minute_offset as int,
    }
}

pub open spec fn reminder_marker_view(m: PlanReminderMarker) -> MarkerView {
    MarkerView {
        id: m.id@,
        title: m.title@,
        date: m.date@,
        time: m.time@,
        day_index: m.day_index as int,
        minute_offset: m.minute_offset as int,
    }
}

/// The texts and numbers of a marker at a wall-clock time, when it falls in the week.
fn marker_fields(local: LocalDateTime, start: CalendarDate) -> (fields: Option<(String, String, i32, i32)>)
    requires
        wall_clock(local),
        is_supported_date(start),
    ensures
        match week_marker(Seq::empty(), Seq::empty(), local, start) {
            Some(v) => fields matches Some(f) && f.0@ == v.date && f.1@ == v.time && f.2 == v.day_index
                && f.3 == v.minute_offset,
            None => fields is None,
        },
{
    proof {
        crate::calendar::lemma_supported_date_in_range(local.date);
        crate::calendar::lemma_supported_date_in_range(start);
        lemma_day_number_span();
    }
    let day = days_between(start, local.date);
    if day < 0 || day >= 7 {
        return None;
    }
    let date = format_iso_date(local.date);
    let time = match chrono_hour_minute(local.hour, local.minute) {
        Some(t) => t,
        None => String::new(),
    };
    Some((date, time, day as i32, (local.hour * 60 + local.minute) as i32))
}

/// The open tasks due in the seven days from `start`, read on the wall
/// clock of `zone` (UTC when the zone is unknown), in task order.
pub fn plan_task_rows(planner: &Planner, zone: &str, start: CalendarDate) -> (rows: Vec<PlanTaskMarker>)
    requires
        is_supported_date(start),
    ensures
        rows@.map_values(|m: PlanTaskMarker| task_marker_view(m)) == planner.tasks@.filter_map(
            |t: Task| task_marker(t, zone@, start),
        ),
{
    let ghost f = |t: Task| task_marker(t, zone@, start);
    let mut rows: Vec<PlanTaskMarker> = Vec::new();
    let mut i: usize = 0;
    while i < planner.tasks.len()
        invariant
            is_supported_date(start),
            0 <= i <= planner.tasks@.len(),
            f == (|t: Task| task_marker(t, zone@, start)),
            rows@.map_values(|m: PlanTaskMarker| task_marker_view(m)) == planner.tasks@.take(i as int).filter_map(f),
        decreases planner.tasks@.len() - i,
    {
        proof {
            planner.tasks@.lemma_filter_map_take_succ(f, i as int);
        }
        let task = &planner.tasks[i];
        if task.status == TaskStatus::Open {
            let due = match &task.due_utc {
                Some(text) => parse_instant(text.as_str()),
                None => None,
            };
            if let Some(moment) = due {
                if let Some(local) = read_or_utc(zone, moment) {
                    if let Some((date, time, day_index, minute_offset)) = marker_fields(local, start) {
                        rows.push(PlanTaskMarker {
                            id: task.id.to_string(),
                            title: task.title.clone(),
                            date,
                            time,
                            day_index,
                            minute_offset,
                        });
                    }
                }
            }
        }
        i = i + 1;
        assert(rows@.map_values(|m: PlanTaskMarker| task_marker_view(m)) =~= planner.tasks@.take(i as int).filter_map(f));
    }
    assert(planner.tasks@.take(i as int) =~= planner.tasks@);
    rows
}

/// The enabled reminders due in the seven days from `start`, read on the
/// wall clock of `zone` (UTC when the zone is unknown), sorted by day,
/// minute and identifier, overlapping ones side by side in lanes.
pub fn plan_reminder_rows(planner: &Planner, zone: &str, start: CalendarDate) -> (rows: Vec<PlanReminderMarker>)
    requires
        is_supported_date(start),
        planner.reminders@.len() < i32::MAX,
    ensures
        exists|found: Seq<PlanReminderMarker>, sorted: Seq<PlanReminderMarker>|
            {
                &&& found.map_values(|m: PlanReminderMarker| reminder_marker_view(m))
                    == planner.reminders@.filter_map(|r: Reminder| reminder_marker(r, zone@, start))
                &&& sorted.to_multiset() == found.to_multiset()
                &&& ranked_sorted(sorted)
                &&& stable_arrangement(found, sorted)
                &&& rows@ == reminders_in_lanes(sorted)
            },
{
    let ghost f = |r: Reminder| reminder_marker(r, zone@, start);
    let mut found: Vec<PlanReminderMarker> = Vec::new();
    let mut i: usize = 0;
    while i < planner.reminders.len()
        invariant
            is_supported_date(start),
            0 <= i <= planner.reminders@.len(),
            planner.reminders@.len() < i32::MAX,
            found@.len() <= i,
            f == (|r: Reminder| reminder_marker(r, zone@, start)),
            found@.map_values(|m: PlanReminderMarker| reminder_marker_view(m)) == planner.reminders@.take(i as int).filter_map(f),
            forall|k: int| 0 <= k < found@.len() ==> 0 <= #[trigger] found@[k].minute_offset < 1440,
        decreases planner.reminders@.len() - i,
    {
        proof {
            planner.reminders@.lemma_filter_map_take_succ(f, i as int);
        }
        let reminder = &planner.reminders[i];
        if reminder.enabled {
            if let Some(moment) = due_utc(&reminder.schedule) {
                if let Some(local) = read_or_utc(zone, moment) {
                    if let Some((date, time, day_index, minute_offset)) = marker_fields(local, start) {
                        found.push(PlanReminderMarker {
                            id: reminder.id.to_string(),
                            title: reminder.title.clone(),
                            date,
                            time,
                            day_index,
                            minute_offset,
                            lane_index: 0,
                            lane_count: 1,
                        });
                    }
                }
            }
        }
        i = i + 1;
        assert(found@.map_values(|m: PlanReminderMarker| reminder_marker_view(m)) =~= planner.reminders@.take(i as int).filter_map(f));
    }
    assert(planner.reminders@.take(i as int) =~= planner.reminders@);
    let ghost found_markers = found@;
    let rows = arrange_plan_reminder_lanes(found);
    rows
}

/// A week the plan can show: at least 3 700 000 days (about ten thousand
/// years) inside the calendar's range, so that every event span read from
/// RFC 3339 text can be laid from it.
pub open spec fn plan_week_date(week_start: CalendarDate) -> bool {
    &&& is_supported_date(week_start)
    &&& first_day_number() + 3_700_000 <= day_number(week_start) <= last_day_number() - 3_700_000
}

/// What a timed event marker shows, apart from its lane.
pub struct EventMarkerView {
    pub id: Seq<char>,
    pub title: Seq<char>,
    pub date: Seq<char>,
    pub time: Seq<char>,
    pub day_index: int,
    pub minute_offset: int,
    pub duration_minutes: int,
}

pub open spec fn event_marker_view(m: PlanEventMarker) -> EventMarkerView {
    EventMarkerView {
        id: m.id@,
        title: m.title@,
        date: m.date@,
        time: m.time@,
        day_index: m.day_index as int,
        minute_offset: m.minute_offset as int,
        duration_minutes: m.duration_minutes as int,
    }
}

/// The marker of a timed event's occurrence on `date` of its own zone: its
/// start time there placed on that date, its end as far from that start as
/// the event's end from its start, both read in `zone`. It is drawn when
/// its start falls in the week, from its start minute to its end minute (to
/// midnight when it ends on a later day); when that leaves nothing it is
/// not drawn.
pub open spec fn timed_marker(
    event: Event,
    start: Instant,
    end: Instant,
    source: LocalDateTime,
    source_zone: Seq<char>,
    date: CalendarDate,
    zone: Seq<char>,
    week_start: CalendarDate,
) -> Option<EventMarkerView> {
    match resolved_at(date, hh_mm(source.hour, source.minute), source_zone) {
        Some(occurrence) => match (
            reading_or_utc(zone, occurrence),
            reading_or_utc(zone, span_added(occurrence, start, end)),
        ) {
            (Some(first), Some(last)) => {
                let day = day_number(first.date) - day_number(week_start);
                let start_minute = first.hour * 60 + first.minute;
                let end_minute = if last.date == first.date { last.hour * 60 + last.minute } else { 1440 };
                if 0 <= day < 7 && start_minute < end_minute {
                    Some(EventMarkerView {
                        id: event.id@,
                        title: event.title@,
                        date: iso_text(first.date),
                        time: hh_mm(first.hour, first.minute),
                        day_index: day,
                        minute_offset: start_minute,
                        duration_minutes: end_minute - start_minute,
                    })
                } else {
                    None
                }
            },
            _ => None,
        },
        None => None,
    }
}

/// The markers of a timed event in the week: its occurrences from two days
/// before the week to two days after it, taken on its own zone's calendar.
pub open spec fn event_timed(event: Event, zone: Seq<char>, week_start: CalendarDate) -> Seq<EventMarkerView> {
    match event.time {
        EventTime::Timed { start_utc, end_utc, source_time_zone } => match (
            rfc3339_instant(start_utc@),
            rfc3339_instant(end_utc@),
        ) {
            (Some(start), Some(end)) => match reading_or_utc(source_time_zone@, start) {
                Some(source) => occurrence_dates(
                    source.date,
                    event.recurrence,
                    date_numbered(day_number(week_start) - 2),
                    date_numbered(day_number(week_start) + 8),
                ).filter_map(
                    |date: CalendarDate|
                        timed_marker(event, start, end, source, source_time_zone@, date, zone, week_start),
                ),
                None => Seq::empty(),
            },
            _ => Seq::empty(),
        },
        EventTime::AllDay { .. } => Seq::empty(),
    }
}

/// The markers of the timed events, event after event.
pub open spec fn timed_rows_of(events: Seq<Event>, zone: Seq<char>, week_start: CalendarDate) -> Seq<EventMarkerView>
    decreases events.len(),
{
    if events.len() == 0 {
        Seq::empty()
    } else {
        timed_rows_of(events.drop_last(), zone, week_start) + event_timed(events.last(), zone, week_start)
    }
}

proof fn lemma_plan_week_bounds(week_start: CalendarDate)
    requires
        plan_week_date(week_start),
    ensures
        -95_746_130 + 3_700_000 <= day_number(week_start) <= 95_745_398 - 3_700_000,
{
    lemma_day_number_span();
}

fn timed_marker_on(
    event: &Event,
    start: Instant,
    end: Instant,
    source_zone: &str,
    time: &str,
    date: CalendarDate,
    zone: &str,
    week_start: CalendarDate,
) -> (marker: Option<PlanEventMarker>)
    requires
        plan_week_date(week_start),
        -95_746_130 + 3_700_000 <= day_number(week_start) <= 95_745_398 - 3_700_000,
        representable(start) && rfc3339_range(start),
        representable(end) && rfc3339_range(end),
        is_supported_date(date),
        day_number(week_start) - 2 <= day_number(date) <= day_number(week_start) + 8,
    ensures
        ({
            let found = match resolved_at(date, time@, source_zone@) {
                Some(occurrence) => match (
                    reading_or_utc(zone@, occurrence),
                    reading_or_utc(zone@, span_added(occurrence, start, end)),
                ) {
                    (Some(first), Some(last)) => {
                        let day = day_number(first.date) - day_number(week_start);
                        let start_minute = first.hour * 60 + first.minute;
                        let end_minute = if last.date == first.date { last.hour * 60 + last.minute } else { 1440 };
                        if 0 <= day < 7 && start_minute < end_minute {
                            Some(EventMarkerView {
                                id: event.id@,
                                title: event.title@,
                                date: iso_text(first.date),
                                time: hh_mm(first.hour, first.minute),
                                day_index: day,
                                minute_offset: start_minute,
                                duration_minutes: end_minute - start_minute,
                            })
                        } else {
                            None
                        }
                    },
                    _ => None,
                },
                None => None,
            };
            match found {
                Some(v) => marker matches Some(m) && event_marker_view(m) == v && 0 <= m.minute_offset
                    && m.minute_offset + m.duration_minutes <= 1440,
                None => marker is None,
            }
        }),
{
    let occurrence = match resolve_date_time(date, time, source_zone) {
        Some(o) => o,
        None => return None,
    };
    proof {
        crate::day_items::lemma_near_readable(occurrence, date);
    }
    let moved = add_span(occurrence, start, end);
    let first = match read_or_utc(zone, occurrence) {
        Some(l) => l,
        None => return None,
    };
    let last = match read_or_utc(zone, moved) {
        Some(l) => l,
        None => return None,
    };
    proof {
        crate::calendar::lemma_supported_date_in_range(first.date);
    }
    let day = days_between(week_start, first.date);
    let start_minute = first.hour * 60 + first.minute;
    let same_date = last.date.year == first.date.year && last.date.month == first.date.month
        && last.date.day == first.date.day;
    let end_minute = if same_date {
        last.hour * 60 + last.minute
    } else {
        1440
    };
    if 0 <= day && day < 7 && start_minute < end_minute {
        let date_text = format_iso_date(first.date);
        let time_text = match chrono_hour_minute(first.hour, first.minute) {
            Some(t) => t,
            None => String::new(),
        };
        Some(PlanEventMarker {
            id: event.id.to_string(),
            title: event.title.clone(),
            date: date_text,
            time: time_text,
            day_index: day as i32,
            minute_offset: start_minute as i32,
            duration_minutes: (end_minute - start_minute) as i32,
            lane_index: 0,
            lane_count: 1,
        })
    } else {
        None
    }
}

fn push_timed_markers(event: &Event, zone: &str, week_start: CalendarDate, rows: &mut Vec<PlanEventMarker>)
    requires
        plan_week_date(week_start),
    ensures
        final(rows)@.map_values(|m: PlanEventMarker| event_marker_view(m)) == old(rows)@.map_values(
            |m: PlanEventMarker| event_marker_view(m),
        ) + event_timed(*event, zone@, week_start),
        final(rows)@.len() <= old(rows)@.len() + 11,
        forall|k: int| 0 <= k < old(rows)@.len() ==> final(rows)@[k] == old(rows)@[k],
        forall|k: int| old(rows)@.len() <= k < final(rows)@.len() ==> 0 <= #[trigger] final(rows)@[k].minute_offset
            && final(rows)@[k].minute_offset + final(rows)@[k].duration_minutes <= 1440,
{
    let ghost before = rows@;
    let (start_utc, end_utc, source_time_zone) = match &event.time {
        EventTime::Timed { start_utc, end_utc, source_time_zone } => (start_utc, end_utc, source_time_zone),
        EventTime::AllDay { .. } => {
            assert(rows@.map_values(|m: PlanEventMarker| event_marker_view(m)) =~= before.map_values(
                |m: PlanEventMarker| event_marker_view(m),
            ) + event_timed(*event, zone@, week_start));
            return;
        },
    };
    let (start, end) = match (parse_instant(start_utc.as_str()), parse_instant(end_utc.as_str())) {
        (Some(s), Some(e)) => (s, e),
        _ => {
            assert(rows@.map_values(|m: PlanEventMarker| event_marker_view(m)) =~= before.map_values(
                |m: PlanEventMarker| event_marker_view(m),
            ) + event_timed(*event, zone@, week_start));
            return;
        },
    };
    let source = match read_or_utc(source_time_zone.as_str(), start) {
        Some(l) => l,
        None => {
            assert(rows@.map_values(|m: PlanEventMarker| event_marker_view(m)) =~= before.map_values(
                |m: PlanEventMarker| event_marker_view(m),
            ) + event_timed(*event, zone@, week_start));
            return;
        },
    };
    proof {
        lemma_plan_week_bounds(week_start);
        lemma_day_number_span();
    }
    let time = match chrono_hour_minute(source.hour, source.minute) {
        Some(t) => t,
        None => String::new(),
    };
    let range_start = shift_day(week_start, -2);
    let range_end = shift_day(week_start, 8);
    proof {
        lemma_day_number_injective(range_start, date_numbered(day_number(week_start) - 2));
        lemma_day_number_injective(range_end, date_numbered(day_number(week_start) + 8));
    }
    let dates = event_occurrence_dates(source.date, event.recurrence, range_start, range_end);
    let ghost g = |date: CalendarDate|
        timed_marker(*event, start, end, source, source_time_zone@, date, zone@, week_start);
    let mut j: usize = 0;
    while j < dates.len()
        invariant
            plan_week_date(week_start),
            -95_746_130 + 3_700_000 <= day_number(week_start) <= 95_745_398 - 3_700_000,
            representable(start) && rfc3339_range(start),
            representable(end) && rfc3339_range(end),
            time@ == hh_mm(source.hour, source.minute),
            dates@ == occurrence_dates(source.date, event.recurrence, range_start, range_end),
            dates@.len() <= 11,
            forall|q: int| 0 <= q < dates@.len() ==> is_supported_date(#[trigger] dates@[q])
                && day_number(week_start) - 2 <= day_number(dates@[q]) <= day_number(week_start) + 8,
            0 <= j <= dates@.len(),
            g == (|date: CalendarDate|
                timed_marker(*event, start, end, source, source_time_zone@, date, zone@, week_start)),
            rows@.len() <= before.len() + j,
            forall|k: int| 0 <= k < before.len() ==> rows@[k] == before[k],
            forall|k: int| before.len() <= k < rows@.len() ==> 0 <= #[trigger] rows@[k].minute_offset
                && rows@[k].minute_offset + rows@[k].duration_minutes <= 1440,
            rows@.map_values(|m: PlanEventMarker| event_marker_view(m)) == before.map_values(
                |m: PlanEventMarker| event_marker_view(m),
            ) + dates@.take(j as int).filter_map(g),
        decreases dates@.len() - j,
    {
        proof {
            dates@.lemma_filter_map_take_succ(g, j as int);
        }
        let date = dates[j];
        let ghost rows_before = rows@;
        let marker = timed_marker_on(event, start, end, source_time_zone.as_str(), time.as_str(), date, zone, week_start);
        proof {
            assert(g(date) == timed_marker(*event, start, end, source, source_time_zone@, date, zone@, week_start));
        }
        if let Some(m) = marker {
            rows.push(m);
            assert(rows@.map_values(|m: PlanEventMarker| event_marker_view(m)) =~= rows_before.map_values(
                |m: PlanEventMarker| event_marker_view(m),
            ).push(event_marker_view(m)));
        }
        j = j + 1;
        assert(rows@.map_values(|m: PlanEventMarker| event_marker_view(m)) =~= before.map_values(
            |m: PlanEventMarker| event_marker_view(m),
        ) + dates@.take(j as int).filter_map(g));
    }
    assert(dates@.take(j as int) =~= dates@);
}

/// What an all-day event row shows.
pub struct AllDayView {
    pub id: Seq<char>,
    pub title: Seq<char>,
    pub date: Seq<char>,
    pub day_index: int,
}

/// An all-day event on one day of the plan's week view.
#[derive(Clone, Debug)]
pub struct PlanAllDayEvent {
    pub id: String,
    pub title: String,
    pub date: String,
    pub day_index: i32,
}

pub open spec fn all_day_view(r: PlanAllDayEvent) -> AllDayView {
    AllDayView { id: r.id@, title: r.title@, date: r.date@, day_index: r.day_index as int }
}

/// The rows of the `count` days numbered from `low`.
pub open spec fn span_rows(id: Seq<char>, title: Seq<char>, low: int, count: int, week_start: CalendarDate) -> Seq<AllDayView>
    decreases count,
{
    if count <= 0 {
        Seq::empty()
    } else {
        span_rows(id, title, low, count - 1, week_start).push(
            AllDayView {
                id,
                title,
                date: iso_text(date_numbered(low + count - 1)),
                day_index: low + count - 1 - day_number(week_start),
            },
        )
    }
}

/// The rows of an occurrence starting on `occurrence` and ending `days`
/// days later, on the days it shares with the week.
pub open spec fn occurrence_rows(id: Seq<char>, title: Seq<char>, occurrence: CalendarDate, days: int, week_start: CalendarDate) -> Seq<AllDayView> {
    let low = if day_number(occurrence) < day_number(week_start) { day_number(week_start) } else { day_number(occurrence) };
    let high = if day_number(occurrence) + days > day_number(week_start) + 6 {
        day_number(week_start) + 6
    } else {
        day_number(occurrence) + days
    };
    span_rows(id, title, low, high - low + 1, week_start)
}

/// The rows of several occurrences, one after another.
pub open spec fn occurrences_rows(id: Seq<char>, title: Seq<char>, dates: Seq<CalendarDate>, days: int, week_start: CalendarDate) -> Seq<AllDayView>
    decreases dates.len(),
{
    if dates.len() == 0 {
        Seq::empty()
    } else {
        occurrences_rows(id, title, dates.drop_last(), days, week_start) + occurrence_rows(
            id,
            title,
            dates.last(),
            days,
            week_start,
        )
    }
}

/// The rows of an all-day event in the week: each occurrence that may
/// reach into the week, on each of its days inside it.
pub open spec fn event_all_day(event: Event, week_start: CalendarDate) -> Seq<AllDayView> {
    match event.time {
        EventTime::AllDay { start_date, end_date } => match (iso_date(start_date@), iso_date(end_date@)) {
            (Some(first), Some(last)) => {
                let days = day_number(last) - day_number(first);
                occurrences_rows(
                    event.id@,
                    event.title@,
                    occurrence_dates(
                        first,
                        event.recurrence,
                        date_numbered(day_number(week_start) - days),
                        date_numbered(day_number(week_start) + 6),
                    ),
                    days,
                    week_start,
                )
            },
            _ => Seq::empty(),
        },
        EventTime::Timed { .. } => Seq::empty(),
    }
}

/// The rows of the all-day events, event after event.
pub open spec fn all_day_rows_of(events: Seq<Event>, week_start: CalendarDate) -> Seq<AllDayView>
    decreases events.len(),
{
    if events.len() == 0 {
        Seq::empty()
    } else {
        all_day_rows_of(events.drop_last(), week_start) + event_all_day(events.last(), week_start)
    }
}

/// An all-day event whose length, laid back from the week's first day and
/// on from its last, stays inside the calendar's range.
pub open spec fn all_day_fits(event: Event, week_start: CalendarDate) -> bool {
    event.time matches EventTime::AllDay { start_date, end_date } ==> match (iso_date(start_date@), iso_date(end_date@)) {
        (Some(first), Some(last)) => {
            &&& in_supported_range(day_number(week_start) - (day_number(last) - day_number(first)))
            &&& in_supported_range(day_number(week_start) + 6 + (day_number(last) - day_number(first)))
        },
        _ => true,
    }
}

fn push_span_rows(
    event: &Event,
    low: CalendarDate,
    count: i64,
    week_start: CalendarDate,
    rows: &mut Vec<PlanAllDayEvent>,
)
    requires
        plan_week_date(week_start),
        is_supported_date(low),
        day_number(week_start) <= day_number(low),
        day_number(low) + count - 1 <= day_number(week_start) + 6,
    ensures
        final(rows)@.map_values(|r: PlanAllDayEvent| all_day_view(r)) == old(rows)@.map_values(
            |r: PlanAllDayEvent| all_day_view(r),
        ) + span_rows(event.id@, event.title@, day_number(low), count as int, week_start),
        forall|k: int| 0 <= k < old(rows)@.len() ==> final(rows)@[k] == old(rows)@[k],
        forall|k: int| old(rows)@.len() <= k < final(rows)@.len() ==> 0 <= #[trigger] final(rows)@[k].day_index < 7,
{
    let ghost before = rows@;
    let mut k: i64 = 0;
    while k < count
        invariant
            plan_week_date(week_start),
            is_supported_date(low),
            day_number(week_start) <= day_number(low),
            day_number(low) + count - 1 <= day_number(week_start) + 6,
            0 <= k,
            k <= count || k == 0,
            forall|q: int| 0 <= q < before.len() ==> rows@[q] == before[q],
            forall|q: int| before.len() <= q < rows@.len() ==> 0 <= #[trigger] rows@[q].day_index < 7,
            rows@.map_values(|r: PlanAllDayEvent| all_day_view(r)) == before.map_values(
                |r: PlanAllDayEvent| all_day_view(r),
            ) + span_rows(event.id@, event.title@, day_number(low), k as int, week_start),
        decreases count - k,
    {
        proof {
            crate::calendar::lemma_supported_date_in_range(week_start);
        }
        let date = shift_day(low, k);
        proof {
            lemma_day_number_injective(date, date_numbered(day_number(low) + k));
        }
        let ghost rows_before = rows@;
        let row = PlanAllDayEvent {
            id: event.id.to_string(),
            title: event.title.clone(),
            date: format_iso_date(date),
            day_index: days_between(week_start, date) as i32,
        };
        let ghost view = all_day_view(row);
        assert(view == AllDayView {
            id: event.id@,
            title: event.title@,
            date: iso_text(date_numbered(day_number(low) + k)),
            day_index: day_number(low) + k - day_number(week_start),
        });
        rows.push(row);
        assert(rows@.map_values(|r: PlanAllDayEvent| all_day_view(r)) =~= rows_before.map_values(
            |r: PlanAllDayEvent| all_day_view(r),
        ).push(view));
        k = k + 1;
        assert(span_rows(event.id@, event.title@, day_number(low), k as int, week_start) == span_rows(
            event.id@,
            event.title@,
            day_number(low),
            k - 1,
            week_start,
        ).push(view));
        assert(rows@.map_values(|r: PlanAllDayEvent| all_day_view(r)) =~= before.map_values(
            |r: PlanAllDayEvent| all_day_view(r),
        ) + span_rows(event.id@, event.title@, day_number(low), k as int, week_start));
    }
    proof {
        if count <= 0 {
            assert(span_rows(event.id@, event.title@, day_number(low), count as int, week_start) =~= Seq::empty());
        }
    }
}

fn push_all_day_rows(event: &Event, week_start: CalendarDate, rows: &mut Vec<PlanAllDayEvent>)
    requires
        plan_week_date(week_start),
        all_day_fits(*event, week_start),
    ensures
        final(rows)@.map_values(|r: PlanAllDayEvent| all_day_view(r)) == old(rows)@.map_values(
            |r: PlanAllDayEvent| all_day_view(r),
        ) + event_all_day(*event, week_start),
        forall|k: int| 0 <= k < old(rows)@.len() ==> final(rows)@[k] == old(rows)@[k],
        forall|k: int| old(rows)@.len() <= k < final(rows)@.len() ==> 0 <= #[trigger] final(rows)@[k].day_index < 7,
{
    let ghost before = rows@;
    let (start_date, end_date) = match &event.time {
        EventTime::AllDay { start_date, end_date } => (start_date, end_date),
        EventTime::Timed { .. } => {
            assert(rows@.map_values(|r: PlanAllDayEvent| all_day_view(r)) =~= before.map_values(
                |r: PlanAllDayEvent| all_day_view(r),
            ) + event_all_day(*event, week_start));
            return;
        },
    };
    let (first, last) = match (parse_iso_date(start_date.as_str()), parse_iso_date(end_date.as_str())) {
        (Some(f), Some(l)) => (f, l),
        _ => {
            assert(rows@.map_values(|r: PlanAllDayEvent| all_day_view(r)) =~= before.map_values(
                |r: PlanAllDayEvent| all_day_view(r),
            ) + event_all_day(*event, week_start));
            return;
        },
    };
    proof {
        lemma_plan_week_bounds(week_start);
        lemma_day_number_span();
        crate::calendar::lemma_supported_date_in_range(first);
        crate::calendar::lemma_supported_date_in_range(last);
    }
    let days = days_between(first, last);
    let range_start = shift_day(week_start, -days);
    let week_end = shift_day(week_start, 6);
    proof {
        lemma_day_number_injective(range_start, date_numbered(day_number(week_start) - days));
        lemma_day_number_injective(week_end, date_numbered(day_number(week_start) + 6));
    }
    let dates = event_occurrence_dates(first, event.recurrence, range_start, week_end);
    let mut j: usize = 0;
    while j < dates.len()
        invariant
            plan_week_date(week_start),
            -95_746_130 + 3_700_000 <= day_number(week_start) <= 95_745_398 - 3_700_000,
            is_supported_date(week_end),
            day_number(week_end) == day_number(week_start) + 6,
            days == day_number(last) - day_number(first),
            in_supported_range(day_number(week_start) + 6 + days),
            dates@ == occurrence_dates(first, event.recurrence, range_start, week_end),
            forall|q: int| 0 <= q < dates@.len() ==> is_supported_date(#[trigger] dates@[q])
                && day_number(range_start) <= day_number(dates@[q]) <= day_number(week_end),
            day_number(range_start) == day_number(week_start) - days,
            0 <= j <= dates@.len(),
            forall|q: int| 0 <= q < before.len() ==> rows@[q] == before[q],
            forall|q: int| before.len() <= q < rows@.len() ==> 0 <= #[trigger] rows@[q].day_index < 7,
            rows@.map_values(|r: PlanAllDayEvent| all_day_view(r)) == before.map_values(
                |r: PlanAllDayEvent| all_day_view(r),
            ) + occurrences_rows(event.id@, event.title@, dates@.take(j as int), days as int, week_start),
        decreases dates@.len() - j,
    {
        let occurrence = dates[j];
        proof {
            crate::calendar::lemma_supported_date_in_range(occurrence);
            assert(dates@.take(j + 1).drop_last() =~= dates@.take(j as int));
        }
        let low = if days_between(occurrence, week_start) > 0 { week_start } else { occurrence };
        let occurrence_end = shift_day(occurrence, days);
        let high = if days_between(occurrence_end, week_end) < 0 { week_end } else { occurrence_end };
        let count = days_between(low, high) + 1;
        let ghost rows_before = rows@;
        push_span_rows(event, low, count, week_start, rows);
        j = j + 1;
        assert(rows@.map_values(|r: PlanAllDayEvent| all_day_view(r)) =~= before.map_values(
            |r: PlanAllDayEvent| all_day_view(r),
        ) + occurrences_rows(event.id@, event.title@, dates@.take(j as int), days as int, week_start));
    }
    assert(dates@.take(j as int) =~= dates@);
}

/// Rows in order of their day, from the first day to the day before
/// `days`; rows of one day keep their order.
pub open spec fn rows_by_day(rows: Seq<AllDayView>, days: int) -> Seq<AllDayView>
    decreases days,
{
    if days <= 0 {
        Seq::empty()
    } else {
        rows_by_day(rows, days - 1) + rows.filter(|r: AllDayView| r.day_index == days - 1)
    }
}

fn copy_all_day(row: &PlanAllDayEvent) -> (copy: PlanAllDayEvent)
    ensures
        copy == *row,
{
    PlanAllDayEvent { id: row.id.clone(), title: row.title.clone(), date: row.date.clone(), day_index: row.day_index }
}

fn group_by_day(rows: &Vec<PlanAllDayEvent>) -> (grouped: Vec<PlanAllDayEvent>)
    ensures
        grouped@.map_values(|r: PlanAllDayEvent| all_day_view(r)) == rows_by_day(
            rows@.map_values(|r: PlanAllDayEvent| all_day_view(r)),
            7,
        ),
{
    let ghost views = rows@.map_values(|r: PlanAllDayEvent| all_day_view(r));
    let mut grouped: Vec<PlanAllDayEvent> = Vec::new();
    let mut day: i32 = 0;
    while day < 7
        invariant
            0 <= day <= 7,
            views == rows@.map_values(|r: PlanAllDayEvent| all_day_view(r)),
            grouped@.map_values(|r: PlanAllDayEvent| all_day_view(r)) == rows_by_day(views, day as int),
        decreases 7 - day,
    {
        let ghost start = grouped@.map_values(|r: PlanAllDayEvent| all_day_view(r));
        let ghost pred = |r: AllDayView| r.day_index == day;
        let mut k: usize = 0;
        while k < rows.len()
            invariant
                0 <= day < 7,
                0 <= k <= rows@.len(),
                views == rows@.map_values(|r: PlanAllDayEvent| all_day_view(r)),
                pred == (|r: AllDayView| r.day_index == day),
                grouped@.map_values(|r: PlanAllDayEvent| all_day_view(r)) == start + views.take(k as int).filter(pred),
            decreases rows@.len() - k,
        {
            proof {
                assert(views.take(k + 1) =~= views.take(k as int).push(views[k as int]));
                views.take(k as int).lemma_filter_push(views[k as int], pred);
            }
            let ghost before = grouped@;
            if rows[k].day_index == day {
                let copy = copy_all_day(&rows[k]);
                grouped.push(copy);
                assert(grouped@.map_values(|r: PlanAllDayEvent| all_day_view(r)) =~= before.map_values(
                    |r: PlanAllDayEvent| all_day_view(r),
                ).push(views[k as int]));
            }
            k = k + 1;
        }
        assert(views.take(k as int) =~= views);
        day = day + 1;
        assert(grouped@.map_values(|r: PlanAllDayEvent| all_day_view(r)) =~= rows_by_day(views, day as int));
    }
    grouped
}

fn collect_event_rows(planner: &Planner, zone: &str, week_start: CalendarDate) -> (rows: (
    Vec<PlanEventMarker>,
    Vec<PlanAllDayEvent>,
))
    requires
        plan_week_date(week_start),
        planner.events@.len() < 190_000_000,
        forall|i: int| 0 <= i < planner.events@.len() ==> all_day_fits(#[trigger] planner.events@[i], week_start),
    ensures
        rows.0@.map_values(|m: PlanEventMarker| event_marker_view(m)) == timed_rows_of(planner.events@, zone@, week_start),
        rows.0@.len() < i32::MAX,
        forall|k: int| 0 <= k < rows.0@.len() ==> 0 <= #[trigger] rows.0@[k].minute_offset
            && rows.0@[k].minute_offset + rows.0@[k].duration_minutes <= 1440,
        rows.1@.map_values(|r: PlanAllDayEvent| all_day_view(r)) == all_day_rows_of(planner.events@, week_start),
{
    let ghost events = planner.events@;
    let mut timed: Vec<PlanEventMarker> = Vec::new();
    let mut all_day: Vec<PlanAllDayEvent> = Vec::new();
    let mut i: usize = 0;
    while i < planner.events.len()
        invariant
            plan_week_date(week_start),
            events == planner.events@,
            events.len() < 190_000_000,
            forall|q: int| 0 <= q < events.len() ==> all_day_fits(#[trigger] events[q], week_start),
            0 <= i <= events.len(),
            timed@.len() <= 11 * i,
            forall|k: int| 0 <= k < timed@.len() ==> 0 <= #[trigger] timed@[k].minute_offset
                && timed@[k].minute_offset + timed@[k].duration_minutes <= 1440,
            timed@.map_values(|m: PlanEventMarker| event_marker_view(m)) == timed_rows_of(events.take(i as int), zone@, week_start),
            all_day@.map_values(|r: PlanAllDayEvent| all_day_view(r)) == all_day_rows_of(events.take(i as int), week_start),
        decreases events.len() - i,
    {
        proof {
            assert(events.take(i + 1).drop_last() =~= events.take(i as int));
        }
        let event = &planner.events[i];
        push_timed_markers(event, zone, week_start, &mut timed);
        push_all_day_rows(event, week_start, &mut all_day);
        i = i + 1;
    }
    assert(events.take(i as int) =~= events);
    (timed, all_day)
}

/// The events in the seven days from `week_start`, on the wall clock of
/// `zone` (UTC when the zone is unknown): the timed ones sorted by day,
/// minute and identifier with overlapping ones side by side in lanes, and
/// the all-day ones, one row for each day they cover, in order of day (in
/// the order found within a day).
pub fn plan_event_rows(planner: &Planner, zone: &str, week_start: CalendarDate) -> (rows: (
    Vec<PlanEventMarker>,
    Vec<PlanAllDayEvent>,
))
    requires
        plan_week_date(week_start),
        planner.events@.len() < 190_000_000,
        forall|i: int| 0 <= i < planner.events@.len() ==> all_day_fits(#[trigger] planner.events@[i], week_start),
    ensures
        exists|found: Seq<PlanEventMarker>, sorted: Seq<PlanEventMarker>|
            {
                &&& found.map_values(|m: PlanEventMarker| event_marker_view(m)) == timed_rows_of(
                    planner.events@,
                    zone@,
                    week_start,
                )
                &&& sorted.to_multiset() == found.to_multiset()
                &&& ranked_sorted(sorted)
                &&& stable_arrangement(found, sorted)
                &&& rows.0@ == events_in_lanes(sorted)
            },
        rows.1@.map_values(|r: PlanAllDayEvent| all_day_view(r)) == rows_by_day(
            all_day_rows_of(planner.events@, week_start),
            7,
        ),
{
    let (timed, all_day) = collect_event_rows(planner, zone, week_start);
    let arranged = arrange_plan_event_lanes(timed);
    let grouped = group_by_day(&all_day);
    (arranged, grouped)
}

/// The Monday that starts the week of a date.
pub open spec fn week_of(date: CalendarDate) -> CalendarDate {
    date_numbered(day_number(date) - weekday_from_monday(date))
}

/// A date whose week the plan can show.
pub open spec fn plan_date(date: CalendarDate) -> bool {
    &&& is_supported_date(date)
    &&& first_day_number() + 3_700_006 <= day_number(date) <= last_day_number() - 3_700_000
}

pub(crate) fn week_start_of(date: CalendarDate) -> (start: CalendarDate)
    requires
        plan_date(date),
    ensures
        start == week_of(date),
        plan_week_date(start),
        day_number(start) == day_number(date) - weekday_from_monday(date),
{
    proof {
        lemma_day_number_span();
    }
    let weekday = weekday_index(date, true);
    let start = shift_day(date, -(weekday as i64));
    proof {
        lemma_day_number_injective(start, week_of(date));
    }
    start
}

fn count_timed_on(rows: &Vec<PlanEventMarker>, day: i32) -> (count: usize)
    ensures
        count == rows@.map_values(|m: PlanEventMarker| event_marker_view(m)).filter(
            |v: EventMarkerView| v.day_index == day,
        ).len(),
{
    let ghost views = rows@.map_values(|m: PlanEventMarker| event_marker_view(m));
    let ghost pred = |v: EventMarkerView| v.day_index == day;
    let mut count: usize = 0;
    let mut k: usize = 0;
    while k < rows.len()
        invariant
            0 <= k <= rows@.len(),
            views == rows@.map_values(|m: PlanEventMarker| event_marker_view(m)),
            pred == (|v: EventMarkerView| v.day_index == day),
            count == views.take(k as int).filter(pred).len(),
            count <= k,
        decreases rows@.len() - k,
    {
        proof {
            assert(views.take(k + 1) =~= views.take(k as int).push(views[k as int]));
            views.take(k as int).lemma_filter_push(views[k as int], pred);
        }
        if rows[k].day_index == day {
            count = count + 1;
        }
        k = k + 1;
    }
    assert(views.take(k as int) =~= views);
    count
}

fn count_all_day_on(rows: &Vec<PlanAllDayEvent>, day: i32) -> (count: usize)
    ensures
        count == rows@.map_values(|r: PlanAllDayEvent| all_day_view(r)).filter(
            |v: AllDayView| v.day_index == day,
        ).len(),
{
    let ghost views = rows@.map_values(|r: PlanAllDayEvent| all_day_view(r));
    let ghost pred = |v: AllDayView| v.day_index == day;
    let mut count: usize = 0;
    let mut k: usize = 0;
    while k < rows.len()
        invariant
            0 <= k <= rows@.len(),
            views == rows@.map_values(|r: PlanAllDayEvent| all_day_view(r)),
            pred == (|v: AllDayView| v.day_index == day),
            count == views.take(k as int).filter(pred).len(),
            count <= k,
        decreases rows@.len() - k,
    {
        proof {
            assert(views.take(k + 1) =~= views.take(k as int).push(views[k as int]));
            views.take(k as int).lemma_filter_push(views[k as int], pred);
        }
        if rows[k].day_index == day {
            count = count + 1;
        }
        k = k + 1;
    }
    assert(views.take(k as int) =~= views);
    count
}

fn count_tasks_on(rows: &Vec<PlanTaskMarker>, day: i32) -> (count: usize)
    ensures
        count == rows@.map_values(|m: PlanTaskMarker| task_marker_view(m)).filter(
            |v: MarkerView| v.day_index == day,
        ).len(),
{
    let ghost views = rows@.map_values(|m: PlanTaskMarker| task_marker_view(m));
    let ghost pred = |v: MarkerView| v.day_index == day;
    let mut count: usize = 0;
    let mut k: usize = 0;
    while k < rows.len()
        invariant
            0 <= k <= rows@.len(),
            views == rows@.map_values(|m: PlanTaskMarker| task_marker_view(m)),
            pred == (|v: MarkerView| v.day_index == day),
            count == views.take(k as int).filter(pred).len(),
            count <= k,
        decreases rows@.len() - k,
    {
        proof {
            assert(views.take(k + 1) =~= views.take(k as int).push(views[k as int]));
            views.take(k as int).lemma_filter_push(views[k as int], pred);
        }
        if rows[k].day_index == day {
            count = count + 1;
        }
        k = k + 1;
    }
    assert(views.take(k as int) =~= views);
    count
}

/// How many events and how many open tasks the plan shows on a date, on
/// the wall clock of `zone` (counts wrap past `i32::MAX`, as `as` does).
pub fn plan_counts_for_date(planner: &Planner, zone: &str, date: CalendarDate) -> (counts: (i32, i32))
    requires
        plan_date(date),
        planner.events@.len() < 190_000_000,
        forall|i: int| 0 <= i < planner.events@.len() ==> all_day_fits(#[trigger] planner.events@[i], week_of(date)),
    ensures
        ({
            let week = week_of(date);
            let day = weekday_from_monday(date);
            &&& counts.0 == (timed_rows_of(planner.events@, zone@, week).filter(|v: EventMarkerView| v.day_index == day).len()
                + all_day_rows_of(planner.events@, week).filter(|v: AllDayView| v.day_index == day).len()) as i32
            &&& counts.1 == planner.tasks@.filter_map(|t: Task| task_marker(t, zone@, week)).filter(
                |v: MarkerView| v.day_index == day,
            ).len() as i32
        }),
{
    let week = week_start_of(date);
    let day = weekday_index(date, true) as i32;
    let (timed, all_day) = collect_event_rows(planner, zone, week);
    let events = count_timed_on(&timed, day) as u128 + count_all_day_on(&all_day, day) as u128;
    let tasks = plan_task_rows(planner, zone, week);
    let open = count_tasks_on(&tasks, day);
    (events as i32, open as i32)
}

} // verus!
