//! What the calendar lists on a day: events, tasks, reminders and alarms,
//! each with the time it shows on the wall clock of the main zone.

use vstd::prelude::*;
use crate::calendar::{
    day_number, days_between, first_day_number, is_supported_date, last_day_number,
    lemma_day_number_span, lemma_days_before_year_monotone, lemma_month_offsets,
    lemma_supported_date_in_range, lemma_year_length, month_in_range, try_shift_day,
    CalendarDate, MAX_YEAR, MIN_YEAR,
};
use crate::inputs::chrono_hour_minute;
use crate::instant::{parse_instant, representable, rfc3339_instant, zone_readable, Instant};
use crate::calendar::{format_iso_date, iso_text};
use crate::lanes::{events_in_lanes, PlanEventMarker};
use crate::plan_week::{
    all_day_fits, all_day_rows_of, all_day_view, event_marker_view, hh_mm, plan_date,
    plan_event_rows, plan_task_rows, read_or_utc, reading_or_utc, rows_by_day, task_marker,
    task_marker_view, timed_rows_of, week_of, week_start_of, AllDayView, MarkerView,
    PlanAllDayEvent, PlanTaskMarker,
};
use crate::planner::{Planner, Reminder, Task};
use crate::sorting::{ranked_sorted, sort_ranked, strict_order, Ranked};
use crate::text::{lemma_text_before_irreflexive, lemma_text_before_transitive, text_before, text_equals, text_less};
use crate::views::{CalendarItemKind, CalendarState};
use crate::calendar::CalendarDay;
use crate::text::{decimal, decimal_text, padded2, push_char, push_padded2, push_str};
use crate::planner::{Alarm, AlarmSchedule, ReminderRecurrence, ReminderSchedule};
use crate::calendar::{iso_date, weekday_from_monday, weekday_index};
use crate::reminder_time::{
    date_numbered, has_weekday, resolve_date_time, resolve_local, resolved_at, resolved_local,
};
use crate::views::{recurrence_falls_on, recurrence_matches_date, weekday_chosen};
use crate::zoned::{
    local_seconds, map_local, near_date, placed_from, read_in_zone, valid_local, zone_mapping, zone_reading,
    LocalDateTime, LocalMapping,
};

verus! {

/// A date the calendar lists items for: neither in the first nor in the
/// last year of the supported range.
pub open spec fn listed_date(date: CalendarDate) -> bool {
    &&& is_supported_date(date)
    &&& MIN_YEAR < date.year < MAX_YEAR
}

/// A listed date lies a year inside the supported range.
pub proof fn lemma_listed_date_inside(date: CalendarDate)
    requires
        listed_date(date),
    ensures
        first_day_number() + 365 <= day_number(date) <= last_day_number() - 365,
{
    let y = date.year as int;
    lemma_month_offsets(y, date.month as int);
    lemma_days_before_year_monotone(MIN_YEAR as int + 1, y);
    lemma_days_before_year_monotone(y + 1, MAX_YEAR as int);
    lemma_year_length(MIN_YEAR as int);
    lemma_year_length(y);
    lemma_month_offsets(MAX_YEAR as int, 12);
    lemma_year_length(MAX_YEAR as int);
    reveal_with_fuel(crate::calendar::days_before_month, 2);
}

/// A moment that lands near a date at least four days inside the range can
/// be read in every zone.
pub proof fn lemma_near_readable(moment: Instant, date: CalendarDate)
    requires
        representable(moment),
        near_date(moment, date),
        first_day_number() + 4 <= day_number(date) <= last_day_number() - 4,
    ensures
        zone_readable(moment),
{
    lemma_day_number_span();
}

/// The time a moment shows on `target` on the wall clock of `zone`, if it
/// falls on that date there.
pub open spec fn time_on(moment: Instant, target: CalendarDate, zone: Seq<char>) -> Option<Seq<char>> {
    match reading_or_utc(zone, moment) {
        Some(local) => if local.date == target {
            Some(hh_mm(local.hour, local.minute))
        } else {
            None
        },
        None => None,
    }
}

/// The time on `target` of a repeating reminder's occurrence on the date
/// `offset` days from it in its own zone, when there is one on or after
/// the date of its next occurrence.
pub open spec fn recurring_time_on(
    recurrence: ReminderRecurrence,
    local_time: Seq<char>,
    source_zone: Seq<char>,
    anchor: CalendarDate,
    target: CalendarDate,
    zone: Seq<char>,
    offset: int,
) -> Option<Seq<char>> {
    let source_date = date_numbered(day_number(target) + offset);
    if day_number(anchor) <= day_number(source_date) && recurrence_falls_on(recurrence, source_date) {
        match resolved_at(source_date, local_time, source_zone) {
            Some(due) => time_on(due, target, zone),
            None => None,
        }
    } else {
        None
    }
}

/// The time a reminder shows on `target` in the calendar, if it falls on
/// that date: its time on the wall clock of `zone`, or all day for an
/// important date. A repeating reminder is looked for on the day before,
/// the day itself and the day after in its own zone.
pub open spec fn reminder_time_on(schedule: ReminderSchedule, target: CalendarDate, zone: Seq<char>) -> Option<Seq<char>> {
    match schedule {
        ReminderSchedule::Absolute { at_utc, .. } => match rfc3339_instant(at_utc@) {
            Some(moment) => time_on(moment, target, zone),
            None => None,
        },
        ReminderSchedule::ImportantDate { month, day } => if target.month == month && target.day == day {
            Some("All day"@)
        } else {
            None
        },
        ReminderSchedule::Recurring { recurrence, local_time, source_time_zone, next_at_utc } => match rfc3339_instant(next_at_utc@) {
            Some(next) => match zone_reading(source_time_zone@, next) {
                Some(anchor) => {
                    let at = |offset: int| recurring_time_on(recurrence, local_time@, source_time_zone@, anchor.date, target, zone, offset);
                    if at(-1) is Some {
                        at(-1)
                    } else if at(0) is Some {
                        at(0)
                    } else {
                        at(1)
                    }
                },
                None => None,
            },
            None => None,
        },
    }
}

fn time_of_day_on(moment: Instant, target: CalendarDate, zone: &str) -> (time: Option<String>)
    requires
        zone_readable(moment),
    ensures
        match time_on(moment, target, zone@) {
            Some(t) => time matches Some(s) && s@ == t,
            None => time is None,
        },
{
    match read_or_utc(zone, moment) {
        Some(local) => {
            if local.date.year == target.year && local.date.month == target.month && local.date.day == target.day {
                chrono_hour_minute(local.hour, local.minute)
            } else {
                None
            }
        },
        None => None,
    }
}

fn recurring_time(
    recurrence: &ReminderRecurrence,
    local_time: &str,
    source_zone: &str,
    anchor: CalendarDate,
    target: CalendarDate,
    zone: &str,
    offset: i64,
) -> (time: Option<String>)
    requires
        listed_date(target),
        is_supported_date(anchor),
        -1 <= offset <= 1,
    ensures
        match recurring_time_on(*recurrence, local_time@, source_zone@, anchor, target, zone@, offset as int) {
            Some(t) => time matches Some(s) && s@ == t,
            None => time is None,
        },
{
    proof {
        lemma_listed_date_inside(target);
        lemma_day_number_span();
    }
    let source_date = match try_shift_day(target, offset) {
        Some(d) => d,
        None => return None,
    };
    proof {
        crate::calendar::lemma_day_number_injective(source_date, date_numbered(day_number(target) + offset));
    }
    if days_between(anchor, source_date) < 0 {
        return None;
    }
    if !recurrence_matches_date(recurrence, source_date) {
        return None;
    }
    match resolve_date_time(source_date, local_time, source_zone) {
        Some(due) => {
            proof {
                lemma_near_readable(due, source_date);
            }
            time_of_day_on(due, target, zone)
        },
        None => None,
    }
}

/// The time a reminder shows on `target` in the calendar, read on the wall
/// clock of `zone` (UTC when the zone is unknown).
pub fn reminder_time_for_date(schedule: &ReminderSchedule, target: CalendarDate, zone: &str) -> (time: Option<String>)
    requires
        listed_date(target),
    ensures
        match reminder_time_on(*schedule, target, zone@) {
            Some(t) => time matches Some(s) && s@ == t,
            None => time is None,
        },
{
    match schedule {
        ReminderSchedule::Absolute { at_utc, .. } => match parse_instant(at_utc.as_str()) {
            Some(moment) => time_of_day_on(moment, target, zone),
            None => None,
        },
        ReminderSchedule::ImportantDate { month, day } => {
            if target.month == *month as u32 && target.day == *day as u32 {
                Some("All day".to_owned())
            } else {
                None
            }
        },
        ReminderSchedule::Recurring { recurrence, local_time, source_time_zone, next_at_utc } => {
            let next = match parse_instant(next_at_utc.as_str()) {
                Some(n) => n,
                None => return None,
            };
            let anchor = match read_in_zone(source_time_zone.as_str(), next) {
                Some(a) => a,
                None => return None,
            };
            let earlier = recurring_time(recurrence, local_time.as_str(), source_time_zone.as_str(), anchor.date, target, zone, -1);
            if earlier.is_some() {
                return earlier;
            }
            let same = recurring_time(recurrence, local_time.as_str(), source_time_zone.as_str(), anchor.date, target, zone, 0);
            if same.is_some() {
                return same;
            }
            recurring_time(recurrence, local_time.as_str(), source_time_zone.as_str(), anchor.date, target, zone, 1)
        },
    }
}

/// Whether a moment falls on `target` on the wall clock of `zone`.
pub open spec fn lands_on(moment: Instant, target: CalendarDate, zone: Seq<char>) -> bool {
    reading_or_utc(zone, moment) matches Some(local) && local.date == target
}

fn lands_on_date(moment: Instant, target: CalendarDate, zone: &str) -> (lands: bool)
    requires
        zone_readable(moment),
    ensures
        lands == lands_on(moment, target, zone@),
{
    match read_or_utc(zone, moment) {
        Some(local) => local.date.year == target.year && local.date.month == target.month
            && local.date.day == target.day,
        None => false,
    }
}

/// Where a wall-clock time falls in `zone`; an unknown zone is UTC.
pub open spec fn mapping_or_utc(zone: Seq<char>, local: LocalDateTime) -> Option<LocalMapping> {
    match zone_mapping(zone, local) {
        Some(mapping) => Some(mapping),
        None => zone_mapping("UTC"@, local),
    }
}

/// Noon of a date.
pub open spec fn noon(date: CalendarDate) -> LocalDateTime {
    LocalDateTime { date, hour: 12, minute: 0, second: 0, nanos: 0 }
}

/// Whether a weekly alarm rings on `target` in the calendar: noon of
/// `target` in `zone`, seen in the alarm's zone, falls on one of its
/// weekdays, and its time on that date there lands on `target` in `zone`.
pub open spec fn weekly_alarm_on(
    local_time: Seq<char>,
    weekdays: Seq<u8>,
    alarm_zone: Seq<char>,
    target: CalendarDate,
    zone: Seq<char>,
) -> bool {
    match mapping_or_utc(zone, noon(target)) {
        Some(LocalMapping::Single(moment)) => match reading_or_utc(alarm_zone, moment) {
            Some(item) => {
                &&& weekday_chosen(weekdays, weekday_from_monday(item.date))
                &&& resolved_at(item.date, local_time, alarm_zone) matches Some(m) && lands_on(m, target, zone)
            },
            None => false,
        },
        _ => false,
    }
}

/// Whether an enabled alarm rings on `target` in the calendar of `zone`.
pub open spec fn alarm_on(alarm: Alarm, target: CalendarDate, zone: Seq<char>) -> bool {
    &&& alarm.enabled
    &&& match alarm.schedule {
        AlarmSchedule::Once { local_date, local_time } => resolved_local(local_date@, local_time@, alarm.time_zone@)
            matches Some(m) && lands_on(m, target, zone),
        AlarmSchedule::Weekly { local_time, weekdays } => weekly_alarm_on(
            local_time@,
            weekdays@,
            alarm.time_zone@,
            target,
            zone,
        ),
    }
}

/// A one-time alarm whose date lies at least four days inside the range.
pub open spec fn alarm_date_inside(alarm: Alarm) -> bool {
    alarm.schedule matches AlarmSchedule::Once { local_date, .. } ==> (iso_date(local_date@) matches Some(d)
        ==> first_day_number() + 4 <= day_number(d) <= last_day_number() - 4)
}

fn map_or_utc(zone: &str, local: LocalDateTime) -> (mapping: Option<LocalMapping>)
    requires
        valid_local(local),
    ensures
        mapping == mapping_or_utc(zone@, local),
        mapping matches Some(LocalMapping::Single(i)) ==> placed_from(i, local),
{
    match map_local(zone, local) {
        Some(mapping) => Some(mapping),
        None => {
            proof {
                reveal_strlit("UTC");
            }
            map_local("UTC", local)
        },
    }
}

/// Whether an alarm rings on `target` in the calendar of `zone`.
pub fn alarm_on_date(alarm: &Alarm, target: CalendarDate, zone: &str) -> (rings: bool)
    requires
        listed_date(target),
        alarm.enabled ==> alarm_date_inside(*alarm),
    ensures
        rings == alarm_on(*alarm, target, zone@),
{
    if !alarm.enabled {
        return false;
    }
    proof {
        lemma_listed_date_inside(target);
        lemma_day_number_span();
    }
    match &alarm.schedule {
        AlarmSchedule::Once { local_date, local_time } => {
            match resolve_local(local_date.as_str(), local_time.as_str(), alarm.time_zone.as_str()) {
                Some(m) => {
                    proof {
                        lemma_near_readable(m, iso_date(local_date@)->0);
                    }
                    lands_on_date(m, target, zone)
                },
                None => false,
            }
        },
        AlarmSchedule::Weekly { local_time, weekdays } => {
            let noon_local = LocalDateTime { date: target, hour: 12, minute: 0, second: 0, nanos: 0 };
            let moment = match map_or_utc(zone, noon_local) {
                Some(LocalMapping::Single(v)) => v,
                _ => return false,
            };
            let item = match read_or_utc(alarm.time_zone.as_str(), moment) {
                Some(l) => l,
                None => return false,
            };
            if !has_weekday(weekdays, weekday_index(item.date, true)) {
                return false;
            }
            assert(day_number(target) - 3 <= day_number(item.date) <= day_number(target) + 3);
            match resolve_date_time(item.date, local_time.as_str(), alarm.time_zone.as_str()) {
                Some(m) => {
                    proof {
                        lemma_near_readable(m, item.date);
                    }
                    lands_on_date(m, target, zone)
                },
                None => false,
            }
        },
    }
}

/// An item the calendar lists on a day.
#[derive(Clone, Debug)]
pub struct CalendarItem {
    pub kind: CalendarItemKind,
    pub title: String,
    pub time: String,
}

/// What a listed item shows.
pub struct ItemView {
    pub kind: CalendarItemKind,
    pub title: Seq<char>,
    pub time: Seq<char>,
}

pub open spec fn item_view(item: CalendarItem) -> ItemView {
    ItemView { kind: item.kind, title: item.title@, time: item.time@ }
}

/// The time text an alarm rings at.
pub open spec fn alarm_time_text(alarm: Alarm) -> Seq<char> {
    match alarm.schedule {
        AlarmSchedule::Once { local_time, .. } => local_time@,
        AlarmSchedule::Weekly { local_time, .. } => local_time@,
    }
}

/// The timed events drawn on the date with text `id`.
pub open spec fn timed_items(drawn: Seq<PlanEventMarker>, id: Seq<char>) -> Seq<ItemView> {
    drawn.filter_map(
        |m: PlanEventMarker|
            if m.date@ == id {
                Some(ItemView { kind: CalendarItemKind::Event, title: m.title@, time: m.time@ })
            } else {
                None
            },
    )
}

/// The all-day events on the date with text `id`.
pub open spec fn all_day_items(rows: Seq<AllDayView>, id: Seq<char>) -> Seq<ItemView> {
    rows.filter_map(
        |v: AllDayView|
            if v.date == id {
                Some(ItemView { kind: CalendarItemKind::Event, title: v.title, time: "All day"@ })
            } else {
                None
            },
    )
}

/// The tasks due on the date with text `id`.
pub open spec fn task_items(markers: Seq<MarkerView>, id: Seq<char>) -> Seq<ItemView> {
    markers.filter_map(
        |v: MarkerView|
            if v.date == id {
                Some(ItemView { kind: CalendarItemKind::Task, title: v.title, time: v.time })
            } else {
                None
            },
    )
}

/// The enabled reminders that fall on `target`.
pub open spec fn reminder_items(reminders: Seq<Reminder>, target: CalendarDate, zone: Seq<char>) -> Seq<ItemView> {
    reminders.filter_map(
        |r: Reminder|
            if r.enabled {
                match reminder_time_on(r.schedule, target, zone) {
                    Some(t) => Some(ItemView { kind: CalendarItemKind::Reminder, title: r.title@, time: t }),
                    None => None,
                }
            } else {
                None
            },
    )
}

/// The enabled alarms that ring on `target`.
pub open spec fn alarm_items(alarms: Seq<Alarm>, target: CalendarDate, zone: Seq<char>) -> Seq<ItemView> {
    alarms.filter_map(
        |a: Alarm|
            if alarm_on(a, target, zone) {
                Some(ItemView { kind: CalendarItemKind::Alarm, title: a.title@, time: alarm_time_text(a) })
            } else {
                None
            },
    )
}

/// The items of a date, before they are ordered: the week's timed events
/// (in the order the week view draws them) and all-day events on that
/// date, the open tasks due on it, the enabled reminders that fall on it
/// and the enabled alarms that ring on it.
pub open spec fn items_found(
    planner: Planner,
    zone: Seq<char>,
    target: CalendarDate,
    drawn: Seq<PlanEventMarker>,
) -> Seq<ItemView> {
    let week = week_of(target);
    let id = iso_text(target);
    timed_items(drawn, id) + all_day_items(rows_by_day(all_day_rows_of(planner.events@, week), 7), id)
        + task_items(planner.tasks@.filter_map(|t: Task| task_marker(t, zone, week)), id)
        + reminder_items(planner.reminders@, target, zone) + alarm_items(planner.alarms@, target, zone)
}

/// A found item, ranked by its time text, then its title, then its place.
#[derive(Clone, Debug)]
pub struct ItemRank {
    pub time: String,
    pub title: String,
    pub position: usize,
}

impl Ranked for ItemRank {
    open spec fn precedes(&self, other: &Self) -> bool {
        ||| text_before(self.time@, other.time@)
        ||| (self.time@ == other.time@ && text_before(self.title@, other.title@))
        ||| (self.time@ == other.time@ && self.title@ == other.title@ && self.position < other.position)
    }

    fn check_precedes(&self, other: &Self) -> (before: bool) {
        if text_less(self.time.as_str(), other.time.as_str()) {
            return true;
        }
        if self.time != other.time {
            return false;
        }
        if text_less(self.title.as_str(), other.title.as_str()) {
            return true;
        }
        self.title == other.title && self.position < other.position
    }
}

proof fn lemma_item_rank_order()
    ensures
        strict_order::<ItemRank>(),
{
    assert forall|a: ItemRank| !#[trigger] a.precedes(&a) by {
        lemma_text_before_irreflexive(a.time@);
        lemma_text_before_irreflexive(a.title@);
    }
    assert forall|a: ItemRank, b: ItemRank, c: ItemRank|
        #[trigger] a.precedes(&b) && #[trigger] b.precedes(&c) implies a.precedes(&c) by {
        if text_before(a.time@, b.time@) && text_before(b.time@, c.time@) {
            lemma_text_before_transitive(a.time@, b.time@, c.time@);
        }
        if a.time@ == b.time@ && b.time@ == c.time@ && text_before(a.title@, b.title@) && text_before(
            b.title@,
            c.title@,
        ) {
            lemma_text_before_transitive(a.title@, b.title@, c.title@);
        }
    }
}

fn copy_item(item: &CalendarItem) -> (copy: CalendarItem)
    ensures
        item_view(copy) == item_view(*item),
{
    CalendarItem { kind: item.kind, title: item.title.clone(), time: item.time.clone() }
}

fn push_item(items: &mut Vec<CalendarItem>, kind: CalendarItemKind, title: &String, time: &String)
    ensures
        final(items)@.map_values(|i: CalendarItem| item_view(i)) == old(items)@.map_values(
            |i: CalendarItem| item_view(i),
        ).push(ItemView { kind, title: title@, time: time@ }),
{
    let ghost before = items@;
    items.push(CalendarItem { kind, title: title.clone(), time: time.clone() });
    assert(items@.map_values(|i: CalendarItem| item_view(i)) =~= before.map_values(|i: CalendarItem| item_view(i)).push(
        ItemView { kind, title: title@, time: time@ },
    ));
}

fn push_timed_items(items: &mut Vec<CalendarItem>, timed: &Vec<PlanEventMarker>, id: &String)
    ensures
        final(items)@.map_values(|i: CalendarItem| item_view(i)) == old(items)@.map_values(
            |i: CalendarItem| item_view(i),
        ) + timed_items(timed@, id@),
{
    let ghost start = items@.map_values(|i: CalendarItem| item_view(i));
    let ghost f = |m: PlanEventMarker|
        if m.date@ == id@ {
            Some(ItemView { kind: CalendarItemKind::Event, title: m.title@, time: m.time@ })
        } else {
            None
        };
    let mut k: usize = 0;
    while k < timed.len()
        invariant
            0 <= k <= timed@.len(),
            f == (|m: PlanEventMarker|
                if m.date@ == id@ {
                    Some(ItemView { kind: CalendarItemKind::Event, title: m.title@, time: m.time@ })
                } else {
                    None
                }),
            items@.map_values(|i: CalendarItem| item_view(i)) == start + timed@.take(k as int).filter_map(f),
        decreases timed@.len() - k,
    {
        proof {
            timed@.lemma_filter_map_take_succ(f, k as int);
        }
        if text_equals(timed[k].date.as_str(), id.as_str()) {
            push_item(items, CalendarItemKind::Event, &timed[k].title, &timed[k].time);
        }
        k = k + 1;
        assert(items@.map_values(|i: CalendarItem| item_view(i)) =~= start + timed@.take(k as int).filter_map(f));
    }
    assert(timed@.take(k as int) =~= timed@);
}

fn push_all_day_items(items: &mut Vec<CalendarItem>, all_day: &Vec<PlanAllDayEvent>, id: &String)
    ensures
        final(items)@.map_values(|i: CalendarItem| item_view(i)) == old(items)@.map_values(
            |i: CalendarItem| item_view(i),
        ) + all_day_items(all_day@.map_values(|r: PlanAllDayEvent| all_day_view(r)), id@),
{
    let ghost start = items@.map_values(|i: CalendarItem| item_view(i));
    let ghost views = all_day@.map_values(|r: PlanAllDayEvent| all_day_view(r));
    let ghost f = |v: AllDayView|
        if v.date == id@ {
            Some(ItemView { kind: CalendarItemKind::Event, title: v.title, time: "All day"@ })
        } else {
            None
        };
    let all_day_text = "All day".to_owned();
    let mut k: usize = 0;
    while k < all_day.len()
        invariant
            0 <= k <= all_day@.len(),
            all_day_text@ == "All day"@,
            views == all_day@.map_values(|r: PlanAllDayEvent| all_day_view(r)),
            f == (|v: AllDayView|
                if v.date == id@ {
                    Some(ItemView { kind: CalendarItemKind::Event, title: v.title, time: "All day"@ })
                } else {
                    None
                }),
            items@.map_values(|i: CalendarItem| item_view(i)) == start + views.take(k as int).filter_map(f),
        decreases all_day@.len() - k,
    {
        proof {
            views.lemma_filter_map_take_succ(f, k as int);
        }
        if text_equals(all_day[k].date.as_str(), id.as_str()) {
            push_item(items, CalendarItemKind::Event, &all_day[k].title, &all_day_text);
        }
        k = k + 1;
        assert(items@.map_values(|i: CalendarItem| item_view(i)) =~= start + views.take(k as int).filter_map(f));
    }
    assert(views.take(k as int) =~= views);
}

fn push_task_items(items: &mut Vec<CalendarItem>, tasks: &Vec<PlanTaskMarker>, id: &String)
    ensures
        final(items)@.map_values(|i: CalendarItem| item_view(i)) == old(items)@.map_values(
            |i: CalendarItem| item_view(i),
        ) + task_items(tasks@.map_values(|m: PlanTaskMarker| task_marker_view(m)), id@),
{
    let ghost start = items@.map_values(|i: CalendarItem| item_view(i));
    let ghost views = tasks@.map_values(|m: PlanTaskMarker| task_marker_view(m));
    let ghost f = |v: MarkerView|
        if v.date == id@ {
            Some(ItemView { kind: CalendarItemKind::Task, title: v.title, time: v.time })
        } else {
            None
        };
    let mut k: usize = 0;
    while k < tasks.len()
        invariant
            0 <= k <= tasks@.len(),
            views == tasks@.map_values(|m: PlanTaskMarker| task_marker_view(m)),
            f == (|v: MarkerView|
                if v.date == id@ {
                    Some(ItemView { kind: CalendarItemKind::Task, title: v.title, time: v.time })
                } else {
                    None
                }),
            items@.map_values(|i: CalendarItem| item_view(i)) == start + views.take(k as int).filter_map(f),
        decreases tasks@.len() - k,
    {
        proof {
            views.lemma_filter_map_take_succ(f, k as int);
        }
        if text_equals(tasks[k].date.as_str(), id.as_str()) {
            push_item(items, CalendarItemKind::Task, &tasks[k].title, &tasks[k].time);
        }
        k = k + 1;
        assert(items@.map_values(|i: CalendarItem| item_view(i)) =~= start + views.take(k as int).filter_map(f));
    }
    assert(views.take(k as int) =~= views);
}

fn push_reminder_items(items: &mut Vec<CalendarItem>, reminders: &Vec<Reminder>, target: CalendarDate, zone: &str)
    requires
        listed_date(target),
    ensures
        final(items)@.map_values(|i: CalendarItem| item_view(i)) == old(items)@.map_values(
            |i: CalendarItem| item_view(i),
        ) + reminder_items(reminders@, target, zone@),
{
    let ghost start = items@.map_values(|i: CalendarItem| item_view(i));
    let ghost f = |r: Reminder|
        if r.enabled {
            match reminder_time_on(r.schedule, target, zone@) {
                Some(t) => Some(ItemView { kind: CalendarItemKind::Reminder, title: r.title@, time: t }),
                None => None,
            }
        } else {
            None
        };
    let mut k: usize = 0;
    while k < reminders.len()
        invariant
            listed_date(target),
            0 <= k <= reminders@.len(),
            f == (|r: Reminder|
                if r.enabled {
                    match reminder_time_on(r.schedule, target, zone@) {
                        Some(t) => Some(ItemView { kind: CalendarItemKind::Reminder, title: r.title@, time: t }),
                        None => None,
                    }
                } else {
                    None
                }),
            items@.map_values(|i: CalendarItem| item_view(i)) == start + reminders@.take(k as int).filter_map(f),
        decreases reminders@.len() - k,
    {
        proof {
            reminders@.lemma_filter_map_take_succ(f, k as int);
        }
        let reminder = &reminders[k];
        if reminder.enabled {
            if let Some(time) = reminder_time_for_date(&reminder.schedule, target, zone) {
                push_item(items, CalendarItemKind::Reminder, &reminder.title, &time);
            }
        }
        k = k + 1;
        assert(items@.map_values(|i: CalendarItem| item_view(i)) =~= start + reminders@.take(k as int).filter_map(f));
    }
    assert(reminders@.take(k as int) =~= reminders@);
}

fn push_alarm_items(items: &mut Vec<CalendarItem>, alarms: &Vec<Alarm>, target: CalendarDate, zone: &str)
    requires
        listed_date(target),
        forall|i: int| 0 <= i < alarms@.len() ==> (#[trigger] alarms@[i]).enabled ==> alarm_date_inside(alarms@[i]),
    ensures
        final(items)@.map_values(|i: CalendarItem| item_view(i)) == old(items)@.map_values(
            |i: CalendarItem| item_view(i),
        ) + alarm_items(alarms@, target, zone@),
{
    let ghost start = items@.map_values(|i: CalendarItem| item_view(i));
    let ghost f = |a: Alarm|
        if alarm_on(a, target, zone@) {
            Some(ItemView { kind: CalendarItemKind::Alarm, title: a.title@, time: alarm_time_text(a) })
        } else {
            None
        };
    let mut k: usize = 0;
    while k < alarms.len()
        invariant
            listed_date(target),
            forall|i: int| 0 <= i < alarms@.len() ==> (#[trigger] alarms@[i]).enabled ==> alarm_date_inside(alarms@[i]),
            0 <= k <= alarms@.len(),
            f == (|a: Alarm|
                if alarm_on(a, target, zone@) {
                    Some(ItemView { kind: CalendarItemKind::Alarm, title: a.title@, time: alarm_time_text(a) })
                } else {
                    None
                }),
            items@.map_values(|i: CalendarItem| item_view(i)) == start + alarms@.take(k as int).filter_map(f),
        decreases alarms@.len() - k,
    {
        proof {
            alarms@.lemma_filter_map_take_succ(f, k as int);
        }
        let alarm = &alarms[k];
        if alarm_on_date(alarm, target, zone) {
            let time = match &alarm.schedule {
                AlarmSchedule::Once { local_time, .. } => local_time,
                AlarmSchedule::Weekly { local_time, .. } => local_time,
            };
            push_item(items, CalendarItemKind::Alarm, &alarm.title, time);
        }
        k = k + 1;
        assert(items@.map_values(|i: CalendarItem| item_view(i)) =~= start + alarms@.take(k as int).filter_map(f));
    }
    assert(alarms@.take(k as int) =~= alarms@);
}

fn day_items_found(planner: &Planner, zone: &str, target: CalendarDate) -> (items: Vec<CalendarItem>)
    requires
        plan_date(target),
        listed_date(target),
        planner.events@.len() < 190_000_000,
        forall|i: int| 0 <= i < planner.events@.len() ==> all_day_fits(#[trigger] planner.events@[i], week_of(target)),
        forall|i: int| 0 <= i < planner.alarms@.len() ==> (#[trigger] planner.alarms@[i]).enabled ==> alarm_date_inside(
            planner.alarms@[i],
        ),
    ensures
        exists|found: Seq<PlanEventMarker>, sorted: Seq<PlanEventMarker>|
            #![trigger found.to_multiset(), sorted.to_multiset()]
            {
                &&& found.map_values(|m: PlanEventMarker| event_marker_view(m)) == timed_rows_of(
                    planner.events@,
                    zone@,
                    week_of(target),
                )
                &&& sorted.to_multiset() == found.to_multiset()
                &&& ranked_sorted(sorted)
                &&& items@.map_values(|i: CalendarItem| item_view(i)) == items_found(
                    *planner,
                    zone@,
                    target,
                    events_in_lanes(sorted),
                )
            },
{
    let week = week_start_of(target);
    let target_id = format_iso_date(target);
    let (timed, all_day) = plan_event_rows(planner, zone, week);
    let ghost (found_timed, sorted_timed) = choose|found: Seq<PlanEventMarker>, sorted: Seq<PlanEventMarker>|
        {
            &&& found.map_values(|m: PlanEventMarker| event_marker_view(m)) == timed_rows_of(planner.events@, zone@, week)
            &&& sorted.to_multiset() == found.to_multiset()
            &&& ranked_sorted(sorted)
            &&& timed@ == events_in_lanes(sorted)
        };
    let ghost listed = items_found(*planner, zone@, target, events_in_lanes(sorted_timed));
    let mut items: Vec<CalendarItem> = Vec::new();
    push_timed_items(&mut items, &timed, &target_id);
    push_all_day_items(&mut items, &all_day, &target_id);
    let tasks = plan_task_rows(planner, zone, week);
    push_task_items(&mut items, &tasks, &target_id);
    push_reminder_items(&mut items, &planner.reminders, target, zone);
    push_alarm_items(&mut items, &planner.alarms, target, zone);
    assert(items@.map_values(|i: CalendarItem| item_view(i)) =~= listed);
    items
}

/// Everything the calendar lists on `target`, on the wall clock of `zone`
/// (UTC when the zone is unknown), ordered by time text, then by title;
/// items equal in both keep the order in which they were found.
pub fn calendar_items_for_date(planner: &Planner, zone: &str, target: CalendarDate) -> (items: Vec<CalendarItem>)
    requires
        plan_date(target),
        listed_date(target),
        planner.events@.len() < 190_000_000,
        forall|i: int| 0 <= i < planner.events@.len() ==> all_day_fits(#[trigger] planner.events@[i], week_of(target)),
        forall|i: int| 0 <= i < planner.alarms@.len() ==> (#[trigger] planner.alarms@[i]).enabled ==> alarm_date_inside(
            planner.alarms@[i],
        ),
    ensures
        exists|
            found: Seq<PlanEventMarker>,
            sorted: Seq<PlanEventMarker>,
            unsorted: Seq<ItemRank>,
            order: Seq<ItemRank>,
        |
            #![trigger found.to_multiset(), sorted.to_multiset(), unsorted.to_multiset(), order.to_multiset()]
            {
                let listed = items_found(*planner, zone@, target, events_in_lanes(sorted));
                &&& found.map_values(|m: PlanEventMarker| event_marker_view(m)) == timed_rows_of(
                    planner.events@,
                    zone@,
                    week_of(target),
                )
                &&& sorted.to_multiset() == found.to_multiset()
                &&& ranked_sorted(sorted)
                &&& unsorted.len() == listed.len()
                &&& forall|p: int| 0 <= p < unsorted.len() ==> #[trigger] unsorted[p].position == p
                    && unsorted[p].time@ == listed[p].time && unsorted[p].title@ == listed[p].title
                &&& order.to_multiset() == unsorted.to_multiset()
                &&& ranked_sorted(order)
                &&& order.len() == items@.len()
                &&& forall|i: int| 0 <= i < order.len() ==> #[trigger] item_view(items@[i]) == listed[order[i].position as int]
            },
{
    let items = day_items_found(planner, zone, target);
    let ghost (found_timed, sorted_timed) = choose|found: Seq<PlanEventMarker>, sorted: Seq<PlanEventMarker>|
        {
            &&& found.map_values(|m: PlanEventMarker| event_marker_view(m)) == timed_rows_of(
                planner.events@,
                zone@,
                week_of(target),
            )
            &&& sorted.to_multiset() == found.to_multiset()
            &&& ranked_sorted(sorted)
            &&& items@.map_values(|i: CalendarItem| item_view(i)) == items_found(
                *planner,
                zone@,
                target,
                events_in_lanes(sorted),
            )
        };
    let ghost listed = items_found(*planner, zone@, target, events_in_lanes(sorted_timed));
    // order them by time, then title, then the order found
    let mut ranks: Vec<ItemRank> = Vec::new();
    let mut p: usize = 0;
    while p < items.len()
        invariant
            0 <= p <= items@.len(),
            ranks@.len() == p,
            items@.map_values(|i: CalendarItem| item_view(i)) == listed,
            forall|q: int| 0 <= q < p ==> #[trigger] ranks@[q].position == q && ranks@[q].time@ == listed[q].time
                && ranks@[q].title@ == listed[q].title,
        decreases items@.len() - p,
    {
        ranks.push(ItemRank { time: items[p].time.clone(), title: items[p].title.clone(), position: p });
        p = p + 1;
    }
    proof {
        lemma_item_rank_order();
    }
    let ghost unsorted = ranks@;
    let order = sort_ranked(ranks);
    proof {
        broadcast use vstd::seq_lib::group_to_multiset_ensures;
        assert forall|q: int| 0 <= q < order@.len() implies #[trigger] order@[q].position < items@.len() by {
            assert(order@.to_multiset().count(order@[q]) > 0);
            assert(unsorted.contains(order@[q]));
        }
    }
    let mut ordered: Vec<CalendarItem> = Vec::new();
    let mut q: usize = 0;
    while q < order.len()
        invariant
            0 <= q <= order@.len(),
            ordered@.len() == q,
            items@.map_values(|i: CalendarItem| item_view(i)) == listed,
            forall|m: int| 0 <= m < order@.len() ==> #[trigger] order@[m].position < items@.len(),
            forall|m: int| 0 <= m < q ==> #[trigger] item_view(ordered@[m]) == listed[order@[m].position as int],
        decreases order@.len() - q,
    {
        let position = order[q].position;
        ordered.push(copy_item(&items[position]));
        q = q + 1;
    }
    ordered
}

/// A text padded with leading zeros to at least `width` characters.
pub open spec fn zero_padded(text: Seq<char>, width: nat) -> Seq<char>
    decreases width - text.len(),
{
    if text.len() >= width {
        text
    } else {
        zero_padded(seq!['0'] + text, width)
    }
}

/// A date written as `{:04}-{:02}-{:02}` writes it: the year padded to four
/// characters (a negative year keeps its sign in front).
pub open spec fn date_id_text(date: CalendarDate) -> Seq<char> {
    (if date.year >= 0 {
        zero_padded(decimal(date.year as nat), 4)
    } else {
        seq!['-'] + zero_padded(decimal((-date.year) as nat), 3)
    }) + seq!['-'] + padded2(date.month as nat) + seq!['-'] + padded2(date.day as nat)
}

fn push_zero_padded(text: &mut String, n: u128, width: usize)
    ensures
        final(text)@ == old(text)@ + zero_padded(decimal(n as nat), width as nat),
{
    let digits = decimal_text(n);
    let ghost d = digits@;
    let len = digits.as_str().unicode_len();
    let mut zeros: usize = 0;
    let ghost mut padded: Seq<char> = d;
    while zeros < width && len < width - zeros
        invariant
            zeros <= width,
            len == d.len(),
            padded.len() == len + zeros,
            zero_padded(d, width as nat) == zero_padded(padded, width as nat),
            forall|i: int| 0 <= i < zeros ==> #[trigger] padded[i] == '0',
            padded.subrange(zeros as int, padded.len() as int) == d,
        decreases width - zeros - len,
    {
        proof {
            let next = seq!['0'] + padded;
            assert(next.subrange(zeros + 1, next.len() as int) =~= d);
            padded = next;
        }
        zeros = zeros + 1;
    }
    let ghost start = text@;
    let mut k: usize = 0;
    while k < zeros
        invariant
            0 <= k <= zeros,
            text@ == start + Seq::new(k as nat, |i: int| '0'),
        decreases zeros - k,
    {
        push_char(text, '0');
        k = k + 1;
        assert(text@ =~= start + Seq::new(k as nat, |i: int| '0'));
    }
    push_str(text, digits.as_str());
    assert(padded =~= Seq::new(zeros as nat, |i: int| '0') + d);
    assert(text@ =~= start + padded);
}

/// The date id of a date, as `{:04}-{:02}-{:02}` writes it.
pub fn date_id(date: CalendarDate) -> (text: String)
    ensures
        text@ == date_id_text(date),
{
    let mut text = String::new();
    if date.year >= 0 {
        push_zero_padded(&mut text, date.year as u128, 4);
    } else {
        push_char(&mut text, '-');
        let magnitude: i64 = -(date.year as i64);
        push_zero_padded(&mut text, magnitude as u128, 3);
    }
    push_char(&mut text, '-');
    push_padded2(&mut text, date.month as u128);
    push_char(&mut text, '-');
    push_padded2(&mut text, date.day as u128);
    assert(text@ =~= date_id_text(date));
    text
}

/// A day of the calendar's month or week grid.
#[derive(Clone, Debug)]
pub struct DayCell {
    pub text: String,
    pub date_id: String,
    pub weekend: bool,
    pub muted: bool,
    pub selected: bool,
    pub today: bool,
    pub focused: bool,
    pub has_event: bool,
    pub has_reminder: bool,
    pub has_task: bool,
    pub has_alarm: bool,
}

/// Whether some item listed is of a kind.
pub open spec fn has_kind(listed: Seq<ItemView>, kind: CalendarItemKind) -> bool {
    exists|p: int| 0 <= p < listed.len() && #[trigger] listed[p].kind == kind
}

/// What a day cell shows: its day number and date id, where it stands in
/// the grid and the calendar's state, and which kinds of items it lists.
pub open spec fn cell_shows(cell: DayCell, day: CalendarDay, state: CalendarState, today: CalendarDate, listed: Seq<ItemView>) -> bool {
    &&& cell.text@ == decimal(day.date.day as nat)
    &&& cell.date_id@ == date_id_text(day.date)
    &&& cell.weekend == day.weekend
    &&& cell.muted == day.outside_month
    &&& cell.selected == (day.date == state.selected)
    &&& cell.today == (day.date == today)
    &&& cell.focused == (day.date == state.week_focus)
    &&& cell.has_event == has_kind(listed, CalendarItemKind::Event)
    &&& cell.has_reminder == has_kind(listed, CalendarItemKind::Reminder)
    &&& cell.has_task == has_kind(listed, CalendarItemKind::Task)
    &&& cell.has_alarm == has_kind(listed, CalendarItemKind::Alarm)
}

fn lists_kind(items: &Vec<CalendarItem>, kind: CalendarItemKind) -> (found: bool)
    ensures
        found == has_kind(items@.map_values(|i: CalendarItem| item_view(i)), kind),
{
    let ghost views = items@.map_values(|i: CalendarItem| item_view(i));
    let mut k: usize = 0;
    while k < items.len()
        invariant
            0 <= k <= items@.len(),
            views == items@.map_values(|i: CalendarItem| item_view(i)),
            forall|p: int| 0 <= p < k ==> views[p].kind != kind,
        decreases items@.len() - k,
    {
        if items[k].kind == kind {
            assert(views[k as int].kind == kind);
            return true;
        }
        k = k + 1;
    }
    false
}

/// The cell of a day in the calendar grid, with markers for the kinds of
/// items listed on it.
pub fn calendar_day_cell(day: &CalendarDay, state: &CalendarState, today: CalendarDate, planner: &Planner, zone: &str) -> (cell: DayCell)
    requires
        plan_date(day.date),
        listed_date(day.date),
        planner.events@.len() < 190_000_000,
        forall|i: int| 0 <= i < planner.events@.len() ==> all_day_fits(#[trigger] planner.events@[i], week_of(day.date)),
        forall|i: int| 0 <= i < planner.alarms@.len() ==> (#[trigger] planner.alarms@[i]).enabled ==> alarm_date_inside(
            planner.alarms@[i],
        ),
    ensures
        exists|found: Seq<PlanEventMarker>, sorted: Seq<PlanEventMarker>|
            #![trigger found.to_multiset(), sorted.to_multiset()]
            {
                &&& found.map_values(|m: PlanEventMarker| event_marker_view(m)) == timed_rows_of(
                    planner.events@,
                    zone@,
                    week_of(day.date),
                )
                &&& sorted.to_multiset() == found.to_multiset()
                &&& ranked_sorted(sorted)
                &&& cell_shows(cell, *day, *state, today, items_found(*planner, zone@, day.date, events_in_lanes(sorted)))
            },
{
    let date = day.date;
    let items = day_items_found(planner, zone, date);
    let same = |a: CalendarDate, b: CalendarDate| -> (equal: bool)
        ensures
            equal == (a == b),
        { a.year == b.year && a.month == b.month && a.day == b.day };
    DayCell {
        text: decimal_text(date.day as u128),
        date_id: date_id(date),
        weekend: day.weekend,
        muted: day.outside_month,
        selected: same(date, state.selected),
        today: same(date, today),
        focused: same(date, state.week_focus),
        has_event: lists_kind(&items, CalendarItemKind::Event),
        has_reminder: lists_kind(&items, CalendarItemKind::Reminder),
        has_task: lists_kind(&items, CalendarItemKind::Task),
        has_alarm: lists_kind(&items, CalendarItemKind::Alarm),
    }
}

} // verus!
