//! The rows of the planner lists: tasks, alarms, timers and reminders as
//! the planner window lists them.

use vstd::prelude::*;
use crate::calendar::{iso_text, format_iso_date};
use crate::inputs::chrono_hour_minute;
use crate::instant::{parse_instant, representable, rfc3339_instant, Instant};
use crate::models::{
    alarm_schedule_label, alarm_schedule_text, alarm_status, alarm_status_text, duration_text,
    format_duration, timer_display_title, timer_duration_text, weekday_list, weekday_list_text,
};
use crate::planner::{
    Alarm, AlarmReceipt, AlarmSchedule, Planner, Reminder, ReminderRecurrence, ReminderSchedule,
    Task, TaskStatus, Timer, TimerState,
};
use crate::text::{decimal, padded2, push_decimal, push_str};
use crate::timer_time::{remaining_seconds, timer_remaining};
use crate::reminder_time::has_weekday;
use crate::views::weekday_chosen;
use crate::zoned::{read_in_zone, zone_reading};

verus! {

/// How many of the tasks have a status.
pub open spec fn status_count(tasks: Seq<Task>, status: TaskStatus) -> nat {
    tasks.filter(|t: Task| t.status == status).len()
}

fn count_status(tasks: &Vec<Task>, status: TaskStatus) -> (count: usize)
    ensures
        count == status_count(tasks@, status),
{
    let mut count: usize = 0;
    let mut i: usize = 0;
    while i < tasks.len()
        invariant
            0 <= i <= tasks@.len(),
            count == status_count(tasks@.take(i as int), status),
            count <= i,
        decreases tasks@.len() - i,
    {
        proof {
            let pred = |t: Task| t.status == status;
            assert(tasks@.take(i + 1) =~= tasks@.take(i as int).push(tasks@[i as int]));
            tasks@.take(i as int).lemma_filter_push(tasks@[i as int], pred);
        }
        if tasks[i].status == status {
            count = count + 1;
        }
        i = i + 1;
    }
    assert(tasks@.take(i as int) =~= tasks@);
    count
}

/// How many tasks are open (wrapping past `i32::MAX`, as `as` does).
pub fn open_task_count(planner: &Planner) -> (count: i32)
    ensures
        count == status_count(planner.tasks@, TaskStatus::Open) as i32,
{
    count_status(&planner.tasks, TaskStatus::Open) as i32
}

/// How many tasks are completed (wrapping past `i32::MAX`, as `as` does).
pub fn completed_task_count(planner: &Planner) -> (count: i32)
    ensures
        count == status_count(planner.tasks@, TaskStatus::Completed) as i32,
{
    count_status(&planner.tasks, TaskStatus::Completed) as i32
}

/// A task in the task list.
#[derive(Clone, Debug)]
pub struct TaskRow {
    pub id: String,
    pub title: String,
}

/// The identifier and title of each task with a status, in order.
pub open spec fn task_rows_of(tasks: Seq<Task>, status: TaskStatus) -> Seq<(Seq<char>, Seq<char>)> {
    tasks.filter_map(
        |t: Task|
            if t.status == status {
                Some((t.id@, t.title@))
            } else {
                None
            },
    )
}

/// The identifier and title of a row.
pub open spec fn task_row_view(row: TaskRow) -> (Seq<char>, Seq<char>) {
    (row.id@, row.title@)
}

fn rows_with_status(tasks: &Vec<Task>, status: TaskStatus) -> (rows: Vec<TaskRow>)
    ensures
        rows@.map_values(|r: TaskRow| task_row_view(r)) == task_rows_of(tasks@, status),
{
    let ghost f = |t: Task|
        if t.status == status {
            Some((t.id@, t.title@))
        } else {
            None
        };
    let mut rows: Vec<TaskRow> = Vec::new();
    let mut i: usize = 0;
    while i < tasks.len()
        invariant
            0 <= i <= tasks@.len(),
            f == (|t: Task|
                if t.status == status {
                    Some((t.id@, t.title@))
                } else {
                    None
                }),
            rows@.map_values(|r: TaskRow| task_row_view(r)) == tasks@.take(i as int).filter_map(f),
        decreases tasks@.len() - i,
    {
        proof {
            tasks@.lemma_filter_map_take_succ(f, i as int);
        }
        let task = &tasks[i];
        if task.status == status {
            rows.push(TaskRow { id: task.id.to_string(), title: task.title.clone() });
        }
        i = i + 1;
        assert(rows@.map_values(|r: TaskRow| task_row_view(r)) =~= tasks@.take(i as int).filter_map(f));
    }
    assert(tasks@.take(i as int) =~= tasks@);
    rows
}

/// The open tasks, in order.
pub fn planner_task_rows(planner: &Planner) -> (rows: Vec<TaskRow>)
    ensures
        rows@.map_values(|r: TaskRow| task_row_view(r)) == task_rows_of(planner.tasks@, TaskStatus::Open),
{
    rows_with_status(&planner.tasks, TaskStatus::Open)
}

/// The completed tasks, in order.
pub fn planner_completed_task_rows(planner: &Planner) -> (rows: Vec<TaskRow>)
    ensures
        rows@.map_values(|r: TaskRow| task_row_view(r)) == task_rows_of(planner.tasks@, TaskStatus::Completed),
{
    rows_with_status(&planner.tasks, TaskStatus::Completed)
}

/// An alarm in the alarm list.
#[derive(Clone, Debug)]
pub struct AlarmRow {
    pub id: String,
    pub title: String,
    /// The date of a one-time alarm; the label of a weekly one.
    pub schedule: String,
    pub time: String,
    pub status: &'static str,
    pub weekly: bool,
    /// Whether the alarm rings on each weekday, Monday first.
    pub weekdays: Vec<bool>,
    pub enabled: bool,
}

/// What the row of an alarm shows.
pub open spec fn alarm_row_shows(row: AlarmRow, alarm: Alarm, receipts: Seq<AlarmReceipt>) -> bool {
    &&& row.id@ == alarm.id@
    &&& row.title@ == alarm.title@
    &&& row.status@ == alarm_status_text(receipts, alarm.id@)
    &&& row.enabled == alarm.enabled
    &&& row.weekdays@.len() == 7
    &&& match alarm.schedule {
        AlarmSchedule::Once { local_date, local_time } => {
            &&& row.schedule@ == local_date@
            &&& row.time@ == local_time@
            &&& !row.weekly
            &&& forall|d: int| 0 <= d < 7 ==> !#[trigger] row.weekdays@[d]
        },
        AlarmSchedule::Weekly { local_time, weekdays } => {
            &&& row.schedule@ == alarm_schedule_text(alarm.schedule)
            &&& row.time@ == local_time@
            &&& row.weekly
            &&& forall|d: int| 0 <= d < 7 ==> #[trigger] row.weekdays@[d] == weekday_chosen(weekdays@, d)
        },
    }
}

fn alarm_row(alarm: &Alarm, receipts: &Vec<AlarmReceipt>) -> (row: AlarmRow)
    ensures
        alarm_row_shows(row, *alarm, receipts@),
{
    let mut days: Vec<bool> = Vec::new();
    let (schedule, time, weekly) = match &alarm.schedule {
        AlarmSchedule::Once { local_date, local_time } => {
            let mut d: u32 = 0;
            while d < 7
                invariant
                    d <= 7,
                    days@.len() == d,
                    forall|k: int| 0 <= k < d ==> !#[trigger] days@[k],
                decreases 7 - d,
            {
                days.push(false);
                d = d + 1;
            }
            (local_date.clone(), local_time.clone(), false)
        },
        AlarmSchedule::Weekly { local_time, weekdays } => {
            let mut d: u32 = 0;
            while d < 7
                invariant
                    d <= 7,
                    days@.len() == d,
                    forall|k: int| 0 <= k < d ==> #[trigger] days@[k] == weekday_chosen(weekdays@, k),
                decreases 7 - d,
            {
                days.push(has_weekday(weekdays, d));
                d = d + 1;
            }
            (alarm_schedule_label(&alarm.schedule), local_time.clone(), true)
        },
    };
    AlarmRow {
        id: alarm.id.to_string(),
        title: alarm.title.clone(),
        schedule,
        time,
        status: alarm_status(receipts.as_slice(), &alarm.id),
        weekly,
        weekdays: days,
        enabled: alarm.enabled,
    }
}

/// The alarms, in order, each with its schedule and the status of its
/// latest receipt.
pub fn planner_alarm_rows(planner: &Planner) -> (rows: Vec<AlarmRow>)
    ensures
        rows@.len() == planner.alarms@.len(),
        forall|i: int| 0 <= i < rows@.len() ==> alarm_row_shows(#[trigger] rows@[i], planner.alarms@[i], planner.alarm_receipts@),
{
    let mut rows: Vec<AlarmRow> = Vec::new();
    let mut i: usize = 0;
    while i < planner.alarms.len()
        invariant
            0 <= i <= planner.alarms@.len(),
            rows@.len() == i,
            forall|k: int| 0 <= k < i ==> alarm_row_shows(#[trigger] rows@[k], planner.alarms@[k], planner.alarm_receipts@),
        decreases planner.alarms@.len() - i,
    {
        rows.push(alarm_row(&planner.alarms[i], &planner.alarm_receipts));
        i = i + 1;
    }
    rows
}

/// A timer in the timer list.
#[derive(Clone, Debug)]
pub struct TimerRow {
    pub id: String,
    pub title: String,
    pub remaining: String,
    pub running: bool,
    pub finished: bool,
    pub repeat: bool,
    pub repeat_label: String,
}

/// How a repeating timer is labelled: its repeat count, or endless.
pub open spec fn repeat_label_text(timer: Timer) -> Seq<char> {
    if timer.repeat {
        match timer.repeat_count {
            Some(count) => "Repeats ×"@ + decimal(count as nat),
            None => "Repeats ∞"@,
        }
    } else {
        Seq::empty()
    }
}

/// What the row of a timer shows at `now`.
pub open spec fn timer_row_shows(row: TimerRow, timer: Timer, now: Instant) -> bool {
    &&& row.id@ == timer.id@
    &&& row.title@ == timer.title@ + " — "@ + timer_duration_text(timer.duration_seconds as nat)
    &&& row.remaining@ == duration_text(timer_remaining(timer, now) as nat)
    &&& row.running == (timer.state == TimerState::Running)
    &&& row.finished == (timer.state == TimerState::Finished)
    &&& row.repeat == timer.repeat
    &&& row.repeat_label@ == repeat_label_text(timer)
}

fn timer_row(timer: &Timer, now: Instant) -> (row: TimerRow)
    requires
        representable(now),
    ensures
        timer_row_shows(row, *timer, now),
{
    let remaining = remaining_seconds(timer, now);
    let repeat_label = if timer.repeat {
        match timer.repeat_count {
            Some(count) => {
                let mut label = "Repeats ×".to_owned();
                push_decimal(&mut label, count as u128);
                label
            },
            None => "Repeats ∞".to_owned(),
        }
    } else {
        String::new()
    };
    TimerRow {
        id: timer.id.to_string(),
        title: timer_display_title(timer),
        remaining: format_duration(remaining),
        running: timer.state == TimerState::Running,
        finished: timer.state == TimerState::Finished,
        repeat: timer.repeat,
        repeat_label,
    }
}

/// The timers, in order, each with the time it has left at `now`.
pub fn planner_timer_rows(planner: &Planner, now: Instant) -> (rows: Vec<TimerRow>)
    requires
        representable(now),
    ensures
        rows@.len() == planner.timers@.len(),
        forall|i: int| 0 <= i < rows@.len() ==> timer_row_shows(#[trigger] rows@[i], planner.timers@[i], now),
{
    let mut rows: Vec<TimerRow> = Vec::new();
    let mut i: usize = 0;
    while i < planner.timers.len()
        invariant
            representable(now),
            0 <= i <= planner.timers@.len(),
            rows@.len() == i,
            forall|k: int| 0 <= k < i ==> timer_row_shows(#[trigger] rows@[k], planner.timers@[k], now),
        decreases planner.timers@.len() - i,
    {
        rows.push(timer_row(&planner.timers[i], now));
        i = i + 1;
    }
    rows
}

/// How a repeating reminder is labelled.
pub open spec fn recurrence_label_text(recurrence: ReminderRecurrence) -> Seq<char> {
    match recurrence {
        ReminderRecurrence::Daily => "Daily"@,
        ReminderRecurrence::Weekly { weekdays } => "Weekly ("@ + weekday_list_text(weekdays@) + ")"@,
        ReminderRecurrence::Monthly { .. } => "Monthly"@,
        ReminderRecurrence::Yearly { .. } => "Yearly"@,
    }
}

/// Whether every weekday of a weekly reminder is one of the seven days.
pub open spec fn weekdays_named(schedule: ReminderSchedule) -> bool {
    schedule matches ReminderSchedule::Recurring { recurrence: ReminderRecurrence::Weekly { weekdays }, .. }
        ==> forall|i: int| 0 <= i < weekdays@.len() ==> #[trigger] weekdays@[i] < 7
}

/// The line describing a due moment: `[Paused · ]label · date · HH:MM · zone`,
/// read on the wall clock of the reminder's zone.
pub open spec fn schedule_line(at: Seq<char>, zone: Seq<char>, label: Seq<char>, enabled: bool) -> Seq<char> {
    match rfc3339_instant(at) {
        None => "Invalid date"@,
        Some(moment) => match zone_reading(zone, moment) {
            None => "Invalid time zone"@,
            Some(local) => (if enabled {
                Seq::empty()
            } else {
                "Paused · "@
            }) + label + " · "@ + iso_text(local.date) + " · "@ + padded2(local.hour as nat) + seq![':']
                + padded2(local.minute as nat) + " · "@ + zone,
        },
    }
}

/// The description of a reminder's schedule.
pub open spec fn reminder_schedule_text(schedule: ReminderSchedule, enabled: bool) -> Seq<char> {
    match schedule {
        ReminderSchedule::Absolute { at_utc, source_time_zone } => schedule_line(
            at_utc@,
            source_time_zone@,
            "Once"@,
            enabled,
        ),
        ReminderSchedule::Recurring { recurrence, next_at_utc, source_time_zone, .. } => schedule_line(
            next_at_utc@,
            source_time_zone@,
            recurrence_label_text(recurrence),
            enabled,
        ),
        ReminderSchedule::ImportantDate { .. } => "Important date"@,
    }
}

fn schedule_line_of(at: &str, zone: &str, label: &str, enabled: bool) -> (line: String)
    ensures
        line@ == schedule_line(at@, zone@, label@, enabled),
{
    let moment = match parse_instant(at) {
        Some(m) => m,
        None => return "Invalid date".to_owned(),
    };
    let local = match read_in_zone(zone, moment) {
        Some(l) => l,
        None => return "Invalid time zone".to_owned(),
    };
    let mut line = if enabled {
        String::new()
    } else {
        "Paused · ".to_owned()
    };
    push_str(&mut line, label);
    push_str(&mut line, " · ");
    let date = format_iso_date(local.date);
    push_str(&mut line, date.as_str());
    push_str(&mut line, " · ");
    let time = match chrono_hour_minute(local.hour, local.minute) {
        Some(t) => t,
        None => String::new(),
    };
    push_str(&mut line, time.as_str());
    push_str(&mut line, " · ");
    push_str(&mut line, zone);
    assert(line@ =~= schedule_line(at@, zone@, label@, enabled));
    line
}

/// Describes when a reminder is due: once, or how it repeats, then the date,
/// time and zone of its (next) moment on that zone's wall clock; a paused
/// reminder says so first.
pub fn format_reminder_schedule(schedule: &ReminderSchedule, enabled: bool) -> (text: String)
    requires
        weekdays_named(*schedule),
    ensures
        text@ == reminder_schedule_text(*schedule, enabled),
{
    match schedule {
        ReminderSchedule::Absolute { at_utc, source_time_zone } => {
            proof {
                reveal_strlit("Once");
            }
            schedule_line_of(at_utc.as_str(), source_time_zone.as_str(), "Once", enabled)
        },
        ReminderSchedule::Recurring { recurrence, next_at_utc, source_time_zone, .. } => {
            let label = match recurrence {
                ReminderRecurrence::Daily => "Daily".to_owned(),
                ReminderRecurrence::Weekly { weekdays } => {
                    let mut label = "Weekly (".to_owned();
                    let days = weekday_list(weekdays);
                    push_str(&mut label, days.as_str());
                    push_str(&mut label, ")");
                    label
                },
                ReminderRecurrence::Monthly { .. } => "Monthly".to_owned(),
                ReminderRecurrence::Yearly { .. } => "Yearly".to_owned(),
            };
            schedule_line_of(next_at_utc.as_str(), source_time_zone.as_str(), label.as_str(), enabled)
        },
        ReminderSchedule::ImportantDate { .. } => "Important date".to_owned(),
    }
}

/// A reminder in the reminder list.
#[derive(Clone, Debug)]
pub struct ReminderRow {
    pub id: String,
    pub title: String,
    pub due: String,
    pub enabled: bool,
    pub delivered: bool,
}

/// What the row of a reminder shows: a delivered reminder waiting for
/// attention says so in place of its schedule.
pub open spec fn reminder_row_shows(row: ReminderRow, reminder: Reminder) -> bool {
    &&& row.id@ == reminder.id@
    &&& row.title@ == reminder.title@
    &&& row.due@ == if reminder.attention_pending {
        "Delivered"@
    } else {
        reminder_schedule_text(reminder.schedule, reminder.enabled)
    }
    &&& row.enabled == reminder.enabled
    &&& row.delivered == reminder.attention_pending
}

/// The reminders, in order, each with its schedule or its delivery.
pub fn planner_reminder_rows(planner: &Planner) -> (rows: Vec<ReminderRow>)
    requires
        forall|i: int| 0 <= i < planner.reminders@.len() ==> weekdays_named(#[trigger] planner.reminders@[i].schedule),
    ensures
        rows@.len() == planner.reminders@.len(),
        forall|i: int| 0 <= i < rows@.len() ==> reminder_row_shows(#[trigger] rows@[i], planner.reminders@[i]),
{
    let mut rows: Vec<ReminderRow> = Vec::new();
    let mut i: usize = 0;
    while i < planner.reminders.len()
        invariant
            0 <= i <= planner.reminders@.len(),
            forall|k: int| 0 <= k < planner.reminders@.len() ==> weekdays_named(#[trigger] planner.reminders@[k].schedule),
            rows@.len() == i,
            forall|k: int| 0 <= k < i ==> reminder_row_shows(#[trigger] rows@[k], planner.reminders@[k]),
        decreases planner.reminders@.len() - i,
    {
        let reminder = &planner.reminders[i];
        let due = if reminder.attention_pending {
            "Delivered".to_owned()
        } else {
            format_reminder_schedule(&reminder.schedule, reminder.enabled)
        };
        rows.push(ReminderRow {
            id: reminder.id.to_string(),
            title: reminder.title.clone(),
            due,
            enabled: reminder.enabled,
            delivered: reminder.attention_pending,
        });
        i = i + 1;
    }
    rows
}

} // verus!
