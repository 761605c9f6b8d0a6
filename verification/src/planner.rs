//! Planner items (events, tasks, reminders, alarms, timers, the stopwatch)
//! and the state transitions each item allows.

use vstd::prelude::*;
use crate::ids::PlannerId;
use crate::text::{is_blank, is_blank_text, trim_text, trimmed, lemma_trimmed_empty};

verus! {

/// An alert that fires `offset_minutes` before an item starts or is due.
#[derive(Clone, Debug)]
pub struct AlertRule {
    pub id: PlannerId,
    pub offset_minutes: i32,
    pub play_sound: bool,
}

/// When an event takes place.
#[derive(Clone, Debug)]
pub enum EventTime {
    Timed { start_utc: String, end_utc: String, source_time_zone: String },
    AllDay { start_date: String, end_date: String },
}

/// How an event repeats from its first date.
#[derive(Clone, Copy, Debug, PartialEq, Eq, Structural)]
pub enum EventRecurrence {
    NoRepeat,
    Daily,
    Weekly,
    Monthly,
    Yearly,
}

#[derive(Clone, Debug)]
pub struct Event {
    pub id: PlannerId,
    pub title: String,
    pub time: EventTime,
    pub location: Option<String>,
    pub notes: Option<String>,
    pub link: Option<String>,
    pub color: Option<String>,
    pub alerts: Vec<AlertRule>,
    pub recurrence: EventRecurrence,
}

/// Record of one delivered event alert.
#[derive(Clone, Debug)]
pub struct EventReceipt {
    pub event_id: PlannerId,
    pub occurrence_utc: String,
    pub alert_offset_minutes: i32,
    pub delivered_at_utc: String,
    pub acknowledged_at_utc: Option<String>,
}

#[derive(Clone, Copy, Debug, PartialEq, Eq, Structural)]
pub enum TaskStatus {
    Open,
    Completed,
    Cancelled,
    Archived,
}

#[derive(Clone, Debug)]
pub struct Task {
    pub id: PlannerId,
    pub title: String,
    pub status: TaskStatus,
    pub due_utc: Option<String>,
    pub scheduled_start_utc: Option<String>,
    pub scheduled_end_utc: Option<String>,
    pub color: Option<String>,
    pub tags: Vec<String>,
    pub notes: Option<String>,
    pub alerts: Vec<AlertRule>,
    pub attention_pending: bool,
    pub attention_due_utc: Option<String>,
    pub delivered_for_due_utc: Option<String>,
}

/// What completing a task does.
pub open spec fn task_complete_post(before: Task, after: Task, changed: bool) -> bool {
    &&& changed == (before.status == TaskStatus::Open)
    &&& after == (Task {
        status: if changed { TaskStatus::Completed } else { before.status },
        ..before
    })
}

/// What archiving a task does.
pub open spec fn task_archive_post(before: Task, after: Task, changed: bool) -> bool {
    &&& changed == (before.status != TaskStatus::Archived)
    &&& after == (Task { status: TaskStatus::Archived, ..before })
}

/// What reopening a task does.
pub open spec fn task_reopen_post(before: Task, after: Task, changed: bool) -> bool {
    &&& changed == (before.status == TaskStatus::Completed)
    &&& after == (Task {
        status: if changed { TaskStatus::Open } else { before.status },
        ..before
    })
}

/// What renaming a task does.
pub open spec fn task_rename_post(before: Task, after: Task, title: Seq<char>, changed: bool) -> bool {
    &&& changed == !is_blank(title)
    &&& changed ==> after.title@ == trimmed(title)
    &&& !changed ==> after.title == before.title
    &&& after == (Task { title: after.title, ..before })
}

impl Task {
    /// Completes an open task.
    pub fn complete(&mut self) -> (changed: bool)
        ensures
            task_complete_post(*old(self), *final(self), changed),
    {
        if self.status != TaskStatus::Open {
            return false;
        }
        self.status = TaskStatus::Completed;
        true
    }

    /// Archives any task that is not archived yet.
    pub fn archive(&mut self) -> (changed: bool)
        ensures
            task_archive_post(*old(self), *final(self), changed),
    {
        if self.status == TaskStatus::Archived {
            return false;
        }
        self.status = TaskStatus::Archived;
        true
    }

    /// Reopens a completed task.
    pub fn reopen(&mut self) -> (changed: bool)
        ensures
            task_reopen_post(*old(self), *final(self), changed),
    {
        if self.status != TaskStatus::Completed {
            return false;
        }
        self.status = TaskStatus::Open;
        true
    }

    /// Renames the task to the trimmed title, unless that is empty.
    pub fn rename(&mut self, title: String) -> (changed: bool)
        ensures
            task_rename_post(*old(self), *final(self), title@, changed),
    {
        let cleaned = trim_text(title.as_str());
        proof {
            lemma_trimmed_empty(title@);
        }
        if cleaned.as_str().unicode_len() == 0 {
            return false;
        }
        self.title = cleaned;
        true
    }

    /// Clears a pending attention.
    pub fn dismiss_attention(&mut self) -> (changed: bool)
        ensures
            changed == old(self).attention_pending,
            !final(self).attention_pending,
            final(self).attention_due_utc == if changed {
                None
            } else {
                old(self).attention_due_utc
            },
            *final(self) == (Task {
                attention_pending: false,
                attention_due_utc: final(self).attention_due_utc,
                ..*old(self)
            }),
    {
        if !self.attention_pending {
            return false;
        }
        self.attention_pending = false;
        self.attention_due_utc = None;
        true
    }
}

/// How a reminder repeats; weekdays count from Monday (0) to Sunday (6).
#[derive(Clone, Debug)]
pub enum ReminderRecurrence {
    Daily,
    Weekly { weekdays: Vec<u8> },
    Monthly { day: u8 },
    Yearly { month: u8, day: u8 },
}

/// When a reminder is due.
#[derive(Clone, Debug)]
pub enum ReminderSchedule {
    Absolute { at_utc: String, source_time_zone: String },
    Recurring {
        recurrence: ReminderRecurrence,
        local_time: String,
        source_time_zone: String,
        next_at_utc: String,
    },
    ImportantDate { month: u8, day: u8 },
}

#[derive(Clone, Debug)]
pub struct Reminder {
    pub id: PlannerId,
    pub title: String,
    pub schedule: ReminderSchedule,
    pub alerts: Vec<AlertRule>,
    pub enabled: bool,
    pub attention_pending: bool,
    pub attention_due_utc: Option<String>,
}

/// What pausing or resuming a reminder does.
pub open spec fn reminder_set_enabled_post(
    before: Reminder,
    after: Reminder,
    enabled: bool,
    changed: bool,
) -> bool {
    &&& changed == !before.attention_pending
    &&& after == (Reminder { enabled: if changed { enabled } else { before.enabled }, ..before })
}

/// What dismissing a delivered reminder does.
pub open spec fn reminder_dismiss_post(before: Reminder, after: Reminder, changed: bool) -> bool {
    &&& changed == before.attention_pending
    &&& !changed ==> after == before
    &&& changed ==> after == (Reminder {
        attention_pending: false,
        attention_due_utc: None,
        ..before
    })
}

/// What editing a reminder does.
pub open spec fn reminder_update_post(
    before: Reminder,
    after: Reminder,
    title: Seq<char>,
    schedule: ReminderSchedule,
    changed: bool,
) -> bool {
    &&& changed == !is_blank(title)
    &&& !changed ==> after == before
    &&& changed ==> after.title@ == trimmed(title)
    &&& changed ==> after == (Reminder {
        title: after.title,
        schedule: schedule,
        enabled: true,
        attention_pending: false,
        attention_due_utc: None,
        ..before
    })
}

impl Reminder {
    /// Pauses or resumes a reminder; a delivered reminder awaiting dismissal
    /// can only be re-armed by editing it.
    pub fn set_enabled(&mut self, enabled: bool) -> (changed: bool)
        ensures
            reminder_set_enabled_post(*old(self), *final(self), enabled, changed),
    {
        if self.attention_pending {
            return false;
        }
        self.enabled = enabled;
        true
    }

    /// Marks the occurrence due at `due_utc` as delivered; a one-time reminder
    /// is disabled, a recurring one stays enabled for its next occurrence.
    pub fn deliver(&mut self, due_utc: String) -> (delivered: bool)
        ensures
            delivered == !old(self).attention_pending,
            !delivered ==> *final(self) == *old(self),
            delivered ==> *final(self) == (Reminder {
                attention_pending: true,
                attention_due_utc: Some(due_utc),
                enabled: old(self).enabled && old(self).schedule is Recurring,
                ..*old(self)
            }),
    {
        if self.attention_pending {
            return false;
        }
        self.attention_pending = true;
        self.attention_due_utc = Some(due_utc);
        let recurring = match &self.schedule {
            ReminderSchedule::Recurring { .. } => true,
            _ => false,
        };
        self.enabled = self.enabled && recurring;
        true
    }

    /// Acknowledges a delivered reminder.
    pub fn dismiss(&mut self) -> (changed: bool)
        ensures
            reminder_dismiss_post(*old(self), *final(self), changed),
    {
        if !self.attention_pending {
            return false;
        }
        self.attention_pending = false;
        self.attention_due_utc = None;
        true
    }

    /// Replaces the title (trimmed) and schedule and re-arms the reminder;
    /// refused when the title is blank.
    pub fn update(&mut self, title: String, schedule: ReminderSchedule) -> (changed: bool)
        ensures
            reminder_update_post(*old(self), *final(self), title@, schedule, changed),
    {
        let cleaned = trim_text(title.as_str());
        proof {
            lemma_trimmed_empty(title@);
        }
        if cleaned.as_str().unicode_len() == 0 {
            return false;
        }
        self.title = cleaned;
        self.schedule = schedule;
        self.enabled = true;
        self.attention_pending = false;
        self.attention_due_utc = None;
        true
    }
}

/// When an alarm rings, in the alarm's time zone; weekdays count from Monday (0).
#[derive(Clone, Debug, PartialEq, Eq)]
pub enum AlarmSchedule {
    Once { local_date: String, local_time: String },
    Weekly { local_time: String, weekdays: Vec<u8> },
}

#[derive(Clone, Debug)]
pub struct Alarm {
    pub id: PlannerId,
    pub title: String,
    pub schedule: AlarmSchedule,
    pub time_zone: String,
    pub enabled: bool,
}

#[derive(Clone, Copy, Debug, PartialEq, Eq, Structural)]
pub enum AlarmOccurrenceStatus {
    Delivered,
    Missed,
}

#[derive(Clone, Debug)]
pub struct AlarmReceipt {
    pub alarm_id: PlannerId,
    pub occurrence_utc: String,
    pub status: AlarmOccurrenceStatus,
    pub recorded_at_utc: String,
    pub acknowledged_at_utc: Option<String>,
}

#[derive(Clone, Debug)]
pub struct AlarmSnooze {
    pub alarm_id: PlannerId,
    pub due_utc: String,
}

/// A weekly schedule needs at least one weekday, each from 0 to 6.
pub open spec fn valid_alarm_schedule(schedule: AlarmSchedule) -> bool {
    match schedule {
        AlarmSchedule::Once { .. } => true,
        AlarmSchedule::Weekly { weekdays, .. } => weekdays@.len() > 0 && forall|i: int|
            0 <= i < weekdays@.len() ==> #[trigger] weekdays@[i] <= 6,
    }
}

impl Alarm {
    /// Whether the schedule can ever ring.
    #[verifier::loop_isolation(false)]
    pub fn has_valid_schedule(&self) -> (valid: bool)
        ensures
            valid == valid_alarm_schedule(self.schedule),
    {
        match &self.schedule {
            AlarmSchedule::Once { .. } => true,
            AlarmSchedule::Weekly { weekdays, .. } => {
                if weekdays.len() == 0 {
                    return false;
                }
                let mut i: usize = 0;
                while i < weekdays.len()
                    invariant
                        0 <= i <= weekdays@.len(),
                        forall|j: int| 0 <= j < i ==> #[trigger] weekdays@[j] <= 6,
                    decreases weekdays@.len() - i,
                {
                    if weekdays[i] > 6 {
                        assert(weekdays@[i as int] > 6);
                        return false;
                    }
                    i = i + 1;
                }
                true
            },
        }
    }

    pub fn set_enabled(&mut self, enabled: bool)
        ensures
            *final(self) == (Alarm { enabled, ..*old(self) }),
    {
        self.enabled = enabled;
    }
}

#[derive(Clone, Copy, Debug, PartialEq, Eq, Structural)]
pub enum TimerState {
    Idle,
    Running,
    Paused,
    Finished,
}

#[derive(Clone, Debug)]
pub struct Timer {
    pub id: PlannerId,
    pub title: String,
    pub duration_seconds: u64,
    pub remaining_seconds: u64,
    pub state: TimerState,
    pub repeat: bool,
    pub repeat_count: Option<u32>,
    pub repeats_remaining: Option<u32>,
    pub started_at_utc: Option<String>,
    pub attention_pending: bool,
    pub attention_triggered_at_utc: Option<String>,
}

/// The remaining time a start counts from: a spent countdown restarts from its duration.
pub open spec fn timer_start_remaining(timer: Timer) -> u64 {
    if timer.remaining_seconds == 0 {
        timer.duration_seconds
    } else {
        timer.remaining_seconds
    }
}

/// What starting a timer does.
pub open spec fn timer_start_post(
    before: Timer,
    after: Timer,
    started_at_utc: String,
    started: bool,
) -> bool {
    let remaining = timer_start_remaining(before);
    &&& started == (remaining != 0 && before.state != TimerState::Running)
    &&& !started ==> after == (Timer { remaining_seconds: remaining, ..before })
    &&& started ==> after == (Timer {
        remaining_seconds: remaining,
        state: TimerState::Running,
        started_at_utc: Some(started_at_utc),
        attention_pending: false,
        ..before
    })
}

/// What pausing a timer does.
pub open spec fn timer_pause_post(
    before: Timer,
    after: Timer,
    remaining_seconds: u64,
    paused: bool,
) -> bool {
    &&& paused == (before.state == TimerState::Running)
    &&& !paused ==> after == before
    &&& paused ==> after == (Timer {
        state: TimerState::Paused,
        remaining_seconds: if remaining_seconds < before.duration_seconds {
            remaining_seconds
        } else {
            before.duration_seconds
        },
        started_at_utc: None,
        ..before
    })
}

/// What finishing a timer does.
pub open spec fn timer_finish_post(before: Timer, after: Timer) -> bool {
    after == (Timer {
        state: TimerState::Finished,
        remaining_seconds: 0,
        started_at_utc: None,
        attention_pending: true,
        ..before
    })
}

/// What dismissing a timer does.
pub open spec fn timer_dismiss_post(before: Timer, after: Timer, changed: bool) -> bool {
    &&& changed == (before.state == TimerState::Finished || before.attention_pending)
    &&& !changed ==> after == before
    &&& changed ==> after == (Timer {
        state: if before.state == TimerState::Finished {
            TimerState::Idle
        } else {
            before.state
        },
        attention_pending: false,
        ..before
    })
}

/// What restarting a timer does.
pub open spec fn timer_restart_post(
    before: Timer,
    after: Timer,
    started_at_utc: String,
    restarted: bool,
) -> bool {
    &&& restarted == (before.duration_seconds != 0)
    &&& !restarted ==> after == before
    &&& restarted ==> after == (Timer {
        remaining_seconds: before.duration_seconds,
        state: TimerState::Running,
        started_at_utc: Some(started_at_utc),
        attention_pending: false,
        ..before
    })
}

/// What resetting a timer does.
pub open spec fn timer_reset_post(before: Timer, after: Timer, changed: bool) -> bool {
    &&& changed == (before.state != TimerState::Idle || before.remaining_seconds
        != before.duration_seconds || before.started_at_utc is Some || before.attention_pending)
    &&& after == (Timer {
        remaining_seconds: before.duration_seconds,
        state: TimerState::Idle,
        started_at_utc: None,
        attention_pending: false,
        ..before
    })
}

/// What editing a timer does.
pub open spec fn timer_update_post(
    before: Timer,
    after: Timer,
    title: String,
    duration_seconds: u64,
    repeat: bool,
    changed: bool,
) -> bool {
    &&& changed == (!is_blank(title@) && duration_seconds != 0)
    &&& !changed ==> after == before
    &&& changed ==> after == (Timer {
        title,
        duration_seconds,
        remaining_seconds: duration_seconds,
        repeat,
        state: TimerState::Idle,
        started_at_utc: None,
        attention_pending: false,
        ..before
    })
}

impl Timer {
    /// Starts or resumes a countdown; a spent countdown restarts from its
    /// duration. Refused while running or when there is nothing to count.
    pub fn start(&mut self, started_at_utc: String) -> (started: bool)
        ensures
            timer_start_post(*old(self), *final(self), started_at_utc, started),
    {
        if self.remaining_seconds == 0 {
            self.remaining_seconds = self.duration_seconds;
        }
        if self.remaining_seconds == 0 || self.state == TimerState::Running {
            return false;
        }
        self.state = TimerState::Running;
        self.started_at_utc = Some(started_at_utc);
        self.attention_pending = false;
        true
    }

    /// Pauses a running countdown with the given remaining time, capped at the duration.
    pub fn pause(&mut self, remaining_seconds: u64) -> (paused: bool)
        ensures
            timer_pause_post(*old(self), *final(self), remaining_seconds, paused),
    {
        if self.state != TimerState::Running {
            return false;
        }
        self.state = TimerState::Paused;
        self.remaining_seconds = if remaining_seconds < self.duration_seconds {
            remaining_seconds
        } else {
            self.duration_seconds
        };
        self.started_at_utc = None;
        true
    }

    /// Ends the countdown and asks for attention.
    pub fn finish(&mut self)
        ensures
            timer_finish_post(*old(self), *final(self)),
    {
        self.state = TimerState::Finished;
        self.remaining_seconds = 0;
        self.started_at_utc = None;
        self.attention_pending = true;
    }

    /// Acknowledges a finished countdown (back to idle) or a pending attention.
    pub fn dismiss(&mut self) -> (changed: bool)
        ensures
            timer_dismiss_post(*old(self), *final(self), changed),
    {
        if self.state != TimerState::Finished {
            if !self.attention_pending {
                return false;
            }
            self.attention_pending = false;
            return true;
        }
        self.state = TimerState::Idle;
        self.attention_pending = false;
        true
    }

    /// Runs the full duration again from `started_at_utc`.
    pub fn restart(&mut self, started_at_utc: String) -> (restarted: bool)
        ensures
            timer_restart_post(*old(self), *final(self), started_at_utc, restarted),
    {
        if self.duration_seconds == 0 {
            return false;
        }
        self.remaining_seconds = self.duration_seconds;
        self.state = TimerState::Running;
        self.started_at_utc = Some(started_at_utc);
        self.attention_pending = false;
        true
    }

    /// Returns to an idle full countdown; reports whether anything changed.
    pub fn reset(&mut self) -> (changed: bool)
        ensures
            timer_reset_post(*old(self), *final(self), changed),
    {
        let changed = self.state != TimerState::Idle || self.remaining_seconds
            != self.duration_seconds || self.started_at_utc.is_some() || self.attention_pending;
        self.remaining_seconds = self.duration_seconds;
        self.state = TimerState::Idle;
        self.started_at_utc = None;
        self.attention_pending = false;
        changed
    }

    /// Replaces title, duration and repeat flag and idles the countdown;
    /// refused for a blank title or a zero duration.
    pub fn update(&mut self, title: String, duration_seconds: u64, repeat: bool) -> (changed: bool)
        ensures
            timer_update_post(*old(self), *final(self), title, duration_seconds, repeat, changed),
    {
        if is_blank_text(title.as_str()) || duration_seconds == 0 {
            return false;
        }
        self.title = title;
        self.duration_seconds = duration_seconds;
        self.remaining_seconds = duration_seconds;
        self.repeat = repeat;
        self.state = TimerState::Idle;
        self.started_at_utc = None;
        self.attention_pending = false;
        true
    }
}

#[derive(Clone, Copy, Debug, PartialEq, Eq, Structural)]
pub enum StopwatchState {
    Idle,
    Running,
    Paused,
    Interrupted,
}

#[derive(Clone, Debug)]
pub struct Stopwatch {
    pub state: StopwatchState,
    pub elapsed_seconds: u64,
    pub elapsed_milliseconds: u16,
    pub laps_seconds: Vec<u64>,
    pub laps_milliseconds: Vec<u64>,
}

/// Whole seconds as milliseconds, saturating at the largest `u64`.
pub open spec fn seconds_as_millis(seconds: u64) -> u64 {
    if seconds * 1000 > u64::MAX {
        u64::MAX
    } else {
        (seconds * 1000) as u64
    }
}

/// Lap totals in milliseconds: the millisecond laps, or the legacy whole-second
/// laps converted when there are no millisecond laps.
pub open spec fn lap_totals(laps_seconds: Seq<u64>, laps_milliseconds: Seq<u64>) -> Seq<u64> {
    if laps_milliseconds.len() == 0 {
        laps_seconds.map_values(|s: u64| seconds_as_millis(s))
    } else {
        laps_milliseconds
    }
}

/// Converts whole seconds to milliseconds, saturating.
pub fn millis_from_seconds(seconds: u64) -> (millis: u64)
    ensures
        millis == seconds_as_millis(seconds),
{
    match seconds.checked_mul(1000) {
        Some(value) => value,
        None => u64::MAX,
    }
}

/// Converts legacy whole-second laps to millisecond laps.
pub fn laps_to_millis(laps_seconds: &Vec<u64>) -> (millis: Vec<u64>)
    ensures
        millis@ == laps_seconds@.map_values(|s: u64| seconds_as_millis(s)),
{
    let mut millis: Vec<u64> = Vec::new();
    let mut i: usize = 0;
    while i < laps_seconds.len()
        invariant
            0 <= i <= laps_seconds@.len(),
            millis@ == laps_seconds@.subrange(0, i as int).map_values(
                |s: u64| seconds_as_millis(s),
            ),
        decreases laps_seconds@.len() - i,
    {
        millis.push(millis_from_seconds(laps_seconds[i]));
        proof {
            assert(laps_seconds@.subrange(0, i + 1).drop_last() =~= laps_seconds@.subrange(
                0,
                i as int,
            ));
        }
        i = i + 1;
        assert(millis@ =~= laps_seconds@.subrange(0, i as int).map_values(
            |s: u64| seconds_as_millis(s),
        ));
    }
    assert(laps_seconds@.subrange(0, i as int) =~= laps_seconds@);
    millis
}

/// What starting the stopwatch does.
pub open spec fn stopwatch_start_post(before: Stopwatch, after: Stopwatch, started: bool) -> bool {
    &&& started == (before.state != StopwatchState::Running)
    &&& after == (Stopwatch { state: StopwatchState::Running, ..before })
}

/// What pausing the stopwatch does.
pub open spec fn stopwatch_pause_post(
    before: Stopwatch,
    after: Stopwatch,
    elapsed_milliseconds: u64,
    paused: bool,
) -> bool {
    &&& paused == (before.state == StopwatchState::Running)
    &&& !paused ==> after == before
    &&& paused ==> after == (Stopwatch {
        state: StopwatchState::Paused,
        elapsed_seconds: elapsed_milliseconds / 1000,
        elapsed_milliseconds: (elapsed_milliseconds % 1000) as u16,
        ..before
    })
}

/// What resetting the stopwatch does.
pub open spec fn stopwatch_reset_post(before: Stopwatch, after: Stopwatch) -> bool {
    &&& after.state == StopwatchState::Idle
    &&& after.elapsed_seconds == 0
    &&& after.elapsed_milliseconds == 0
    &&& after.laps_seconds@.len() == 0
    &&& after.laps_milliseconds@.len() == 0
}

/// What recording a lap does.
pub open spec fn stopwatch_record_lap_post(
    before: Stopwatch,
    after: Stopwatch,
    elapsed_milliseconds: u64,
    recorded: bool,
) -> bool {
    &&& recorded == (before.state == StopwatchState::Running)
    &&& !recorded ==> after == before
    &&& recorded ==> after.laps_milliseconds@ == lap_totals(
        before.laps_seconds@,
        before.laps_milliseconds@,
    ).push(elapsed_milliseconds)
    &&& recorded ==> after.laps_seconds@ == if before.laps_milliseconds@.len() == 0 {
        Seq::<u64>::empty()
    } else {
        before.laps_seconds@
    }
    &&& recorded ==> after.state == before.state && after.elapsed_seconds == before.elapsed_seconds
        && after.elapsed_milliseconds == before.elapsed_milliseconds
}

/// What undoing the latest lap does.
pub open spec fn stopwatch_undo_lap_post(before: Stopwatch, after: Stopwatch, removed: bool) -> bool {
    &&& removed == (before.laps_milliseconds@.len() > 0 || before.laps_seconds@.len() > 0)
    &&& before.laps_milliseconds@.len() > 0 ==> after.laps_milliseconds@
        == before.laps_milliseconds@.drop_last() && after.laps_seconds@ == before.laps_seconds@
    &&& before.laps_milliseconds@.len() == 0 ==> after.laps_milliseconds@
        == before.laps_milliseconds@ && after.laps_seconds@ == if before.laps_seconds@.len() > 0 {
        before.laps_seconds@.drop_last()
    } else {
        before.laps_seconds@
    }
    &&& after.state == before.state
    &&& after.elapsed_seconds == before.elapsed_seconds
    &&& after.elapsed_milliseconds == before.elapsed_milliseconds
}

/// What clearing the laps does.
pub open spec fn stopwatch_clear_laps_post(before: Stopwatch, after: Stopwatch, cleared: bool) -> bool {
    &&& cleared == (before.laps_milliseconds@.len() > 0 || before.laps_seconds@.len() > 0)
    &&& after.laps_milliseconds@.len() == 0
    &&& after.laps_seconds@.len() == 0
    &&& after.state == before.state
    &&& after.elapsed_seconds == before.elapsed_seconds
    &&& after.elapsed_milliseconds == before.elapsed_milliseconds
}

impl Stopwatch {
    /// Starts or resumes counting.
    pub fn start(&mut self) -> (started: bool)
        ensures
            stopwatch_start_post(*old(self), *final(self), started),
    {
        if self.state == StopwatchState::Running {
            return false;
        }
        self.state = StopwatchState::Running;
        true
    }

    /// Pauses a running stopwatch, keeping the elapsed time to the millisecond.
    pub fn pause(&mut self, elapsed_milliseconds: u64) -> (paused: bool)
        ensures
            stopwatch_pause_post(*old(self), *final(self), elapsed_milliseconds, paused),
    {
        if self.state != StopwatchState::Running {
            return false;
        }
        self.state = StopwatchState::Paused;
        self.elapsed_seconds = elapsed_milliseconds / 1000;
        self.elapsed_milliseconds = (elapsed_milliseconds % 1000) as u16;
        true
    }

    /// Marks a running stopwatch as interrupted (for example by a restart).
    pub fn interrupt(&mut self)
        ensures
            *final(self) == (Stopwatch {
                state: if old(self).state == StopwatchState::Running {
                    StopwatchState::Interrupted
                } else {
                    old(self).state
                },
                ..*old(self)
            }),
    {
        if self.state == StopwatchState::Running {
            self.state = StopwatchState::Interrupted;
        }
    }

    /// Back to zero with no laps.
    pub fn reset(&mut self)
        ensures
            stopwatch_reset_post(*old(self), *final(self)),
    {
        self.state = StopwatchState::Idle;
        self.elapsed_seconds = 0;
        self.elapsed_milliseconds = 0;
        self.laps_seconds.clear();
        self.laps_milliseconds.clear();
    }

    /// Records a lap at the given total elapsed time while running; legacy
    /// whole-second laps are first converted to milliseconds.
    pub fn record_lap(&mut self, elapsed_milliseconds: u64) -> (recorded: bool)
        ensures
            stopwatch_record_lap_post(*old(self), *final(self), elapsed_milliseconds, recorded),
    {
        if self.state != StopwatchState::Running {
            return false;
        }
        if self.laps_milliseconds.len() == 0 && self.laps_seconds.len() != 0 {
            self.laps_milliseconds = laps_to_millis(&self.laps_seconds);
            self.laps_seconds.clear();
        }
        proof {
            if old(self).laps_milliseconds@.len() == 0 && old(self).laps_seconds@.len() == 0 {
                assert(old(self).laps_seconds@.map_values(|s: u64| seconds_as_millis(s))
                    =~= Seq::<u64>::empty());
                assert(old(self).laps_seconds@ =~= Seq::<u64>::empty());
            }
        }
        self.laps_milliseconds.push(elapsed_milliseconds);
        assert(self.laps_milliseconds@ == lap_totals(
            old(self).laps_seconds@,
            old(self).laps_milliseconds@,
        ).push(elapsed_milliseconds));
        assert(self.laps_seconds@ == if old(self).laps_milliseconds@.len() == 0 {
            Seq::<u64>::empty()
        } else {
            old(self).laps_seconds@
        });
        true
    }

    /// Removes the latest lap, if there is one.
    pub fn undo_lap(&mut self) -> (removed: bool)
        ensures
            stopwatch_undo_lap_post(*old(self), *final(self), removed),
    {
        if self.laps_milliseconds.pop().is_some() {
            return true;
        }
        self.laps_seconds.pop().is_some()
    }

    /// Removes every lap; reports whether there was any.
    pub fn clear_laps(&mut self) -> (cleared: bool)
        ensures
            stopwatch_clear_laps_post(*old(self), *final(self), cleared),
    {
        if self.laps_seconds.len() == 0 && self.laps_milliseconds.len() == 0 {
            return false;
        }
        self.laps_seconds.clear();
        self.laps_milliseconds.clear();
        true
    }
}

/// Everything the planner keeps.
#[derive(Clone, Debug)]
pub struct Planner {
    pub events: Vec<Event>,
    pub event_receipts: Vec<EventReceipt>,
    pub event_checked_at_utc: Option<String>,
    pub tasks: Vec<Task>,
    pub reminders: Vec<Reminder>,
    pub alarms: Vec<Alarm>,
    pub alarm_receipts: Vec<AlarmReceipt>,
    pub alarm_checked_at_utc: Option<String>,
    pub alarm_snoozes: Vec<AlarmSnooze>,
    pub timers: Vec<Timer>,
    pub stopwatch: Option<Stopwatch>,
}

impl Default for Planner {
    fn default() -> (planner: Self)
        ensures
            planner.events@.len() == 0,
            planner.event_receipts@.len() == 0,
            planner.event_checked_at_utc is None,
            planner.tasks@.len() == 0,
            planner.reminders@.len() == 0,
            planner.alarms@.len() == 0,
            planner.alarm_receipts@.len() == 0,
            planner.alarm_checked_at_utc is None,
            planner.alarm_snoozes@.len() == 0,
            planner.timers@.len() == 0,
            planner.stopwatch is None,
    {
        Planner {
            events: Vec::new(),
            event_receipts: Vec::new(),
            event_checked_at_utc: None,
            tasks: Vec::new(),
            reminders: Vec::new(),
            alarms: Vec::new(),
            alarm_receipts: Vec::new(),
            alarm_checked_at_utc: None,
            alarm_snoozes: Vec::new(),
            timers: Vec::new(),
            stopwatch: None,
        }
    }
}


/// How a task's status moves. Completing succeeds exactly for an open task
/// and makes it completed; archiving succeeds exactly for a task that is not
/// archived yet (open, completed or cancelled) and makes it archived;
/// reopening succeeds exactly for a completed task and makes it open. A
/// refused step leaves the task as it was, and no step changes anything but
/// the status.
pub proof fn lemma_task_status_steps(before: Task, after: Task, changed: bool)
    ensures
        task_complete_post(before, after, changed) ==> {
            &&& changed <==> before.status == TaskStatus::Open
            &&& changed ==> after.status == TaskStatus::Completed
            &&& !changed ==> after == before
            &&& (Task { status: before.status, ..after }) == before
        },
        task_archive_post(before, after, changed) ==> {
            &&& changed <==> before.status != TaskStatus::Archived
            &&& after.status == TaskStatus::Archived
            &&& !changed ==> after == before
            &&& (Task { status: before.status, ..after }) == before
        },
        task_reopen_post(before, after, changed) ==> {
            &&& changed <==> before.status == TaskStatus::Completed
            &&& changed ==> after.status == TaskStatus::Open
            &&& !changed ==> after == before
            &&& (Task { status: before.status, ..after }) == before
        },
{
}

/// Completing a task and then reopening it gives back the task as it was;
/// archiving an archived task again is refused and changes nothing.
pub proof fn lemma_task_steps_compose(first: Task, second: Task, third: Task, c1: bool, c2: bool)
    ensures
        task_complete_post(first, second, c1) && c1 && task_reopen_post(second, third, c2) ==> c2 && third
            == first,
        task_archive_post(first, second, c1) && task_archive_post(second, third, c2) ==> !c2 && third
            == second,
{
}

/// How a countdown moves. Starting runs a timer that is not running and has
/// time to count (its remaining time, or its whole duration once used up);
/// pausing stops a running timer, keeping no more than its duration;
/// finishing ends it with nothing left and asks for attention; dismissing
/// answers a finished timer or one asking for attention, a finished one
/// becoming idle; restarting runs any timer with a duration from the full
/// duration; resetting makes it idle with its full duration, reporting a
/// change exactly when the timer was not already so. Only the title,
/// duration and repeat settings that an edit gives change on an edit.
pub proof fn lemma_timer_steps(before: Timer, after: Timer, at: String, remaining: u64, changed: bool, title: String, duration: u64, repeat: bool)
    ensures
        timer_start_post(before, after, at, changed) ==> {
            &&& changed <==> (before.state != TimerState::Running && (before.remaining_seconds != 0
                || before.duration_seconds != 0))
            &&& changed ==> after.state == TimerState::Running && after.started_at_utc == Some(at)
                && !after.attention_pending && after.remaining_seconds == if before.remaining_seconds
                == 0 { before.duration_seconds } else { before.remaining_seconds }
            &&& !changed ==> after.state == before.state
            &&& after.duration_seconds == before.duration_seconds
        },
        timer_pause_post(before, after, remaining, changed) ==> {
            &&& changed <==> before.state == TimerState::Running
            &&& changed ==> after.state == TimerState::Paused && after.remaining_seconds <= before.duration_seconds
                && (remaining <= before.duration_seconds ==> after.remaining_seconds == remaining)
            &&& !changed ==> after == before
        },
        timer_finish_post(before, after) ==> after.state == TimerState::Finished && after.remaining_seconds == 0
            && after.attention_pending && after.started_at_utc is None,
        timer_dismiss_post(before, after, changed) ==> {
            &&& changed <==> (before.state == TimerState::Finished || before.attention_pending)
            &&& !after.attention_pending
            &&& after.state != TimerState::Finished
            &&& before.state != TimerState::Finished ==> after.state == before.state
        },
        timer_restart_post(before, after, at, changed) ==> {
            &&& changed <==> before.duration_seconds != 0
            &&& changed ==> after.state == TimerState::Running && after.remaining_seconds == before.duration_seconds
                && after.started_at_utc == Some(at) && !after.attention_pending
            &&& !changed ==> after == before
        },
        timer_reset_post(before, after, changed) ==> {
            &&& after.state == TimerState::Idle
            &&& after.remaining_seconds == after.duration_seconds
            &&& after.duration_seconds == before.duration_seconds
            &&& after.started_at_utc is None
            &&& !after.attention_pending
            &&& !changed <==> (before.state == TimerState::Idle && before.remaining_seconds == before.duration_seconds
                && before.started_at_utc is None && !before.attention_pending)
        },
        timer_update_post(before, after, title, duration, repeat, changed) ==> {
            &&& changed <==> (!is_blank(title@) && duration != 0)
            &&& changed ==> after.title == title && after.duration_seconds == duration && after.repeat == repeat
            &&& !changed ==> after == before
        },
{
}

/// How the stopwatch moves. Starting runs it, reporting whether it was not
/// running yet; pausing stops a running one at the given reading, kept to
/// the millisecond; resetting clears the reading and the laps; undoing and
/// clearing laps leave the reading and state alone.
pub proof fn lemma_stopwatch_steps(before: Stopwatch, after: Stopwatch, elapsed: u64, changed: bool)
    ensures
        stopwatch_start_post(before, after, changed) ==> after.state == StopwatchState::Running && (changed
            <==> before.state != StopwatchState::Running) && after.elapsed_seconds == before.elapsed_seconds
            && after.elapsed_milliseconds == before.elapsed_milliseconds,
        stopwatch_pause_post(before, after, elapsed, changed) ==> {
            &&& changed <==> before.state == StopwatchState::Running
            &&& changed ==> after.state == StopwatchState::Paused && after.elapsed_seconds * 1000
                + after.elapsed_milliseconds == elapsed && after.elapsed_milliseconds < 1000
            &&& !changed ==> after == before
        },
        stopwatch_reset_post(before, after) ==> after.state == StopwatchState::Idle && after.elapsed_seconds == 0
            && after.elapsed_milliseconds == 0 && after.laps_milliseconds@.len() == 0 && after.laps_seconds@.len() == 0,
        stopwatch_undo_lap_post(before, after, changed) ==> after.state == before.state && after.elapsed_seconds
            == before.elapsed_seconds && (changed ==> after.laps_milliseconds@.len() + after.laps_seconds@.len()
            + 1 == before.laps_milliseconds@.len() + before.laps_seconds@.len()) && (!changed
            ==> after.laps_milliseconds@ == before.laps_milliseconds@ && after.laps_seconds@ == before.laps_seconds@),
        stopwatch_clear_laps_post(before, after, changed) ==> after.state == before.state
            && after.laps_milliseconds@.len() == 0 && after.laps_seconds@.len() == 0
            && (changed <==> before.laps_milliseconds@.len() + before.laps_seconds@.len() > 0),
{
}

/// Pausing the stopwatch keeps the elapsed time to the millisecond.
pub proof fn lemma_stopwatch_pause_keeps_time(before: Stopwatch, after: Stopwatch, elapsed_milliseconds: u64)
    requires
        stopwatch_pause_post(before, after, elapsed_milliseconds, true),
    ensures
        after.elapsed_seconds * 1000 + after.elapsed_milliseconds == elapsed_milliseconds,
{
}

/// Undoing a lap just recorded gives back the earlier laps, in milliseconds,
/// and leaves the running time alone.
pub proof fn lemma_lap_then_undo(
    before: Stopwatch,
    middle: Stopwatch,
    after: Stopwatch,
    elapsed_milliseconds: u64,
    removed: bool,
)
    requires
        stopwatch_record_lap_post(before, middle, elapsed_milliseconds, true),
        stopwatch_undo_lap_post(middle, after, removed),
    ensures
        removed,
        after.laps_milliseconds@ == lap_totals(before.laps_seconds@, before.laps_milliseconds@),
        after.state == before.state,
        after.elapsed_seconds == before.elapsed_seconds,
        after.elapsed_milliseconds == before.elapsed_milliseconds,
{
    assert(middle.laps_milliseconds@.drop_last() =~= lap_totals(
        before.laps_seconds@,
        before.laps_milliseconds@,
    ));
}

/// A paused countdown resumes from the time it was paused with (a spent one
/// from its full duration).
pub proof fn lemma_timer_pause_then_start(
    running: Timer,
    paused: Timer,
    resumed: Timer,
    remaining_seconds: u64,
    started_at_utc: String,
    started: bool,
)
    requires
        timer_pause_post(running, paused, remaining_seconds, true),
        timer_start_post(paused, resumed, started_at_utc, started),
    ensures
        paused.remaining_seconds <= running.duration_seconds,
        started == (timer_start_remaining(paused) != 0),
        started ==> resumed.state == TimerState::Running && resumed.remaining_seconds
            == timer_start_remaining(paused),
        paused.remaining_seconds != 0 ==> resumed.remaining_seconds == paused.remaining_seconds,
{
}

/// A reminder waiting for attention cannot be switched on or off; only
/// dismissing or editing it changes that.
pub proof fn lemma_pending_reminder_keeps_switch(before: Reminder, after: Reminder, enabled: bool, changed: bool)
    requires
        before.attention_pending,
        reminder_set_enabled_post(before, after, enabled, changed),
    ensures
        !changed,
        after == before,
{
}
} // verus!
