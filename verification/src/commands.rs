//! Planner use cases issued by presentation adapters.

use vstd::prelude::*;
use crate::ids::PlannerId;
use crate::keyed::{find_by_key, index_of_key, remove_by_key, without_key, Keyed};
use crate::planner::{
    Alarm, Planner, Reminder, ReminderSchedule, Stopwatch, Task, Timer, TimerState,
    reminder_dismiss_post, reminder_set_enabled_post, reminder_update_post, stopwatch_clear_laps_post,
    stopwatch_pause_post, stopwatch_record_lap_post, stopwatch_reset_post, stopwatch_start_post,
    stopwatch_undo_lap_post, task_archive_post, task_complete_post, task_rename_post,
    task_reopen_post, timer_dismiss_post, timer_finish_post, timer_pause_post, timer_reset_post,
    timer_restart_post, timer_start_post, timer_update_post,
};

verus! {

/// Planner intents issued by presentation adapters.
pub enum PlannerCommand {
    SetReminderEnabled { id: PlannerId, enabled: bool },
    DeleteReminder { id: PlannerId },
    DismissReminder { id: PlannerId },
    UpdateReminder { id: PlannerId, title: String, schedule: ReminderSchedule },
    DeleteAlarm { id: PlannerId },
    CompleteTask { id: PlannerId },
    ArchiveTask { id: PlannerId },
    ReopenTask { id: PlannerId },
    DeleteTask { id: PlannerId },
    RenameTask { id: PlannerId, title: String },
    SetAlarmEnabled { id: PlannerId, enabled: bool },
    StartTimer { id: PlannerId, started_at_utc: String },
    PauseTimer { id: PlannerId, remaining_seconds: u64 },
    FinishTimer { id: PlannerId },
    DismissTimer { id: PlannerId },
    RestartTimer { id: PlannerId, started_at_utc: String },
    ResetTimer { id: PlannerId },
    DeleteTimer { id: PlannerId },
    UpdateTimer { id: PlannerId, title: String, duration_seconds: u64, repeat: bool },
    StartStopwatch,
    PauseStopwatch { elapsed_milliseconds: u64 },
    ResetStopwatch,
    RecordStopwatchLap { elapsed_milliseconds: u64 },
    UndoStopwatchLap,
    ClearStopwatchLaps,
}

/// Only position `i` of the sequence may differ.
pub open spec fn updated_at<T>(before: Seq<T>, after: Seq<T>, i: int) -> bool {
    &&& after.len() == before.len()
    &&& forall|j: int| 0 <= j < before.len() && j != i ==> after[j] == before[j]
}

/// The first item with the key takes the step; without such an item nothing changes.
pub open spec fn keyed_step<T: Keyed>(
    before: Seq<T>,
    after: Seq<T>,
    key: Seq<char>,
    changed: bool,
    step: spec_fn(T, T) -> bool,
) -> bool {
    let i = index_of_key(before, key);
    if i < before.len() {
        updated_at(before, after, i) && step(before[i], after[i])
    } else {
        !changed && after == before
    }
}

/// The stopwatch, when there is one, takes the step; otherwise nothing changes.
pub open spec fn stopwatch_step(
    before: Option<Stopwatch>,
    after: Option<Stopwatch>,
    changed: bool,
    step: spec_fn(Stopwatch, Stopwatch) -> bool,
) -> bool {
    match before {
        Option::None => !changed && after == before,
        Option::Some(b) => after matches Option::Some(a) && step(b, a),
    }
}

/// Removing every item with the key; the change flag reports whether one was removed.
pub open spec fn keyed_delete<T: Keyed>(before: Seq<T>, after: Seq<T>, key: Seq<char>, changed: bool) -> bool {
    &&& after == without_key(before, key)
    &&& changed == (after.len() != before.len())
}

/// What each planner command does to the planner, and the change flag it reports.
pub open spec fn planner_command_post(
    before: Planner,
    after: Planner,
    command: PlannerCommand,
    changed: bool,
) -> bool {
    match command {
        PlannerCommand::SetReminderEnabled { id, enabled } => {
            &&& after == (Planner { reminders: after.reminders, ..before })
            &&& keyed_step(before.reminders@, after.reminders@, id@, changed,
                |b: Reminder, a: Reminder| reminder_set_enabled_post(b, a, enabled, changed))
        },
        PlannerCommand::DeleteReminder { id } => {
            &&& after == (Planner { reminders: after.reminders, ..before })
            &&& keyed_delete(before.reminders@, after.reminders@, id@, changed)
        },
        PlannerCommand::DismissReminder { id } => {
            &&& after == (Planner { reminders: after.reminders, ..before })
            &&& keyed_step(before.reminders@, after.reminders@, id@, changed,
                |b: Reminder, a: Reminder| reminder_dismiss_post(b, a, changed))
        },
        PlannerCommand::UpdateReminder { id, title, schedule } => {
            &&& after == (Planner { reminders: after.reminders, ..before })
            &&& keyed_step(before.reminders@, after.reminders@, id@, changed,
                |b: Reminder, a: Reminder| reminder_update_post(b, a, title@, schedule, changed))
        },
        PlannerCommand::DeleteAlarm { id } => {
            &&& after == (Planner {
                alarms: after.alarms,
                alarm_receipts: after.alarm_receipts,
                alarm_snoozes: after.alarm_snoozes,
                ..before
            })
            &&& keyed_delete(before.alarms@, after.alarms@, id@, changed)
            &&& changed ==> after.alarm_receipts@ == without_key(before.alarm_receipts@, id@)
                && after.alarm_snoozes@ == without_key(before.alarm_snoozes@, id@)
            &&& !changed ==> after.alarm_receipts == before.alarm_receipts && after.alarm_snoozes
                == before.alarm_snoozes
        },
        PlannerCommand::CompleteTask { id } => {
            &&& after == (Planner { tasks: after.tasks, ..before })
            &&& keyed_step(before.tasks@, after.tasks@, id@, changed,
                |b: Task, a: Task| task_complete_post(b, a, changed))
        },
        PlannerCommand::ArchiveTask { id } => {
            &&& after == (Planner { tasks: after.tasks, ..before })
            &&& keyed_step(before.tasks@, after.tasks@, id@, changed,
                |b: Task, a: Task| task_archive_post(b, a, changed))
        },
        PlannerCommand::ReopenTask { id } => {
            &&& after == (Planner { tasks: after.tasks, ..before })
            &&& keyed_step(before.tasks@, after.tasks@, id@, changed,
                |b: Task, a: Task| task_reopen_post(b, a, changed))
        },
        PlannerCommand::DeleteTask { id } => {
            &&& after == (Planner { tasks: after.tasks, ..before })
            &&& keyed_delete(before.tasks@, after.tasks@, id@, changed)
        },
        PlannerCommand::RenameTask { id, title } => {
            &&& after == (Planner { tasks: after.tasks, ..before })
            &&& keyed_step(before.tasks@, after.tasks@, id@, changed,
                |b: Task, a: Task| task_rename_post(b, a, title@, changed))
        },
        PlannerCommand::SetAlarmEnabled { id, enabled } => {
            &&& after == (Planner { alarms: after.alarms, ..before })
            &&& keyed_step(before.alarms@, after.alarms@, id@, changed,
                |b: Alarm, a: Alarm| changed && a == (Alarm { enabled, ..b }))
        },
        PlannerCommand::StartTimer { id, started_at_utc } => {
            &&& after == (Planner { timers: after.timers, ..before })
            &&& keyed_step(before.timers@, after.timers@, id@, changed,
                |b: Timer, a: Timer| timer_start_post(b, a, started_at_utc, changed))
        },
        PlannerCommand::PauseTimer { id, remaining_seconds } => {
            &&& after == (Planner { timers: after.timers, ..before })
            &&& keyed_step(before.timers@, after.timers@, id@, changed,
                |b: Timer, a: Timer| timer_pause_post(b, a, remaining_seconds, changed))
        },
        PlannerCommand::FinishTimer { id } => {
            &&& after == (Planner { timers: after.timers, ..before })
            &&& keyed_step(before.timers@, after.timers@, id@, changed,
                |b: Timer, a: Timer| {
                    &&& changed == (b.state == TimerState::Running)
                    &&& changed ==> timer_finish_post(b, a)
                    &&& !changed ==> a == b
                })
        },
        PlannerCommand::DismissTimer { id } => {
            &&& after == (Planner { timers: after.timers, ..before })
            &&& keyed_step(before.timers@, after.timers@, id@, changed,
                |b: Timer, a: Timer| timer_dismiss_post(b, a, changed))
        },
        PlannerCommand::RestartTimer { id, started_at_utc } => {
            &&& after == (Planner { timers: after.timers, ..before })
            &&& keyed_step(before.timers@, after.timers@, id@, changed,
                |b: Timer, a: Timer| timer_restart_post(b, a, started_at_utc, changed))
        },
        PlannerCommand::ResetTimer { id } => {
            &&& after == (Planner { timers: after.timers, ..before })
            &&& keyed_step(before.timers@, after.timers@, id@, changed,
                |b: Timer, a: Timer| timer_reset_post(b, a, changed))
        },
        PlannerCommand::DeleteTimer { id } => {
            &&& after == (Planner { timers: after.timers, ..before })
            &&& keyed_delete(before.timers@, after.timers@, id@, changed)
        },
        PlannerCommand::UpdateTimer { id, title, duration_seconds, repeat } => {
            &&& after == (Planner { timers: after.timers, ..before })
            &&& keyed_step(before.timers@, after.timers@, id@, changed,
                |b: Timer, a: Timer| timer_update_post(b, a, title, duration_seconds, repeat, changed))
        },
        PlannerCommand::StartStopwatch => {
            &&& after == (Planner { stopwatch: after.stopwatch, ..before })
            &&& stopwatch_step(before.stopwatch, after.stopwatch, changed,
                |b: Stopwatch, a: Stopwatch| stopwatch_start_post(b, a, changed))
        },
        PlannerCommand::PauseStopwatch { elapsed_milliseconds } => {
            &&& after == (Planner { stopwatch: after.stopwatch, ..before })
            &&& stopwatch_step(before.stopwatch, after.stopwatch, changed,
                |b: Stopwatch, a: Stopwatch| stopwatch_pause_post(b, a, elapsed_milliseconds, changed))
        },
        PlannerCommand::ResetStopwatch => {
            &&& after == (Planner { stopwatch: after.stopwatch, ..before })
            &&& stopwatch_step(before.stopwatch, after.stopwatch, changed,
                |b: Stopwatch, a: Stopwatch| changed && stopwatch_reset_post(b, a))
        },
        PlannerCommand::RecordStopwatchLap { elapsed_milliseconds } => {
            &&& after == (Planner { stopwatch: after.stopwatch, ..before })
            &&& stopwatch_step(before.stopwatch, after.stopwatch, changed,
                |b: Stopwatch, a: Stopwatch| stopwatch_record_lap_post(b, a, elapsed_milliseconds, changed))
        },
        PlannerCommand::UndoStopwatchLap => {
            &&& after == (Planner { stopwatch: after.stopwatch, ..before })
            &&& stopwatch_step(before.stopwatch, after.stopwatch, changed,
                |b: Stopwatch, a: Stopwatch| stopwatch_undo_lap_post(b, a, changed))
        },
        PlannerCommand::ClearStopwatchLaps => {
            &&& after == (Planner { stopwatch: after.stopwatch, ..before })
            &&& stopwatch_step(before.stopwatch, after.stopwatch, changed,
                |b: Stopwatch, a: Stopwatch| stopwatch_clear_laps_post(b, a, changed))
        },
    }
}

/// The task a task command names, and the transition `Task`'s own method
/// ensures for it (`complete`, `archive`, `reopen`, `rename`).
pub open spec fn task_command(command: PlannerCommand) -> Option<(PlannerId, spec_fn(Task, Task, bool) -> bool)> {
    match command {
        PlannerCommand::CompleteTask { id } => Some((id, |b: Task, a: Task, c: bool| task_complete_post(b, a, c))),
        PlannerCommand::ArchiveTask { id } => Some((id, |b: Task, a: Task, c: bool| task_archive_post(b, a, c))),
        PlannerCommand::ReopenTask { id } => Some((id, |b: Task, a: Task, c: bool| task_reopen_post(b, a, c))),
        PlannerCommand::RenameTask { id, title } => Some(
            (id, |b: Task, a: Task, c: bool| task_rename_post(b, a, title@, c)),
        ),
        _ => None,
    }
}

/// The timer a timer command names, and the transition `Timer`'s own method
/// ensures for it (`start`, `pause`, `dismiss`, `restart`, `reset`, `update`).
pub open spec fn timer_command(command: PlannerCommand) -> Option<(PlannerId, spec_fn(Timer, Timer, bool) -> bool)> {
    match command {
        PlannerCommand::StartTimer { id, started_at_utc } => Some(
            (id, |b: Timer, a: Timer, c: bool| timer_start_post(b, a, started_at_utc, c)),
        ),
        PlannerCommand::PauseTimer { id, remaining_seconds } => Some(
            (id, |b: Timer, a: Timer, c: bool| timer_pause_post(b, a, remaining_seconds, c)),
        ),
        PlannerCommand::DismissTimer { id } => Some((id, |b: Timer, a: Timer, c: bool| timer_dismiss_post(b, a, c))),
        PlannerCommand::RestartTimer { id, started_at_utc } => Some(
            (id, |b: Timer, a: Timer, c: bool| timer_restart_post(b, a, started_at_utc, c)),
        ),
        PlannerCommand::ResetTimer { id } => Some((id, |b: Timer, a: Timer, c: bool| timer_reset_post(b, a, c))),
        PlannerCommand::UpdateTimer { id, title, duration_seconds, repeat } => Some(
            (id, |b: Timer, a: Timer, c: bool| timer_update_post(b, a, title, duration_seconds, repeat, c)),
        ),
        _ => None,
    }
}

/// Only the first task with the id changes, by the transition; without such
/// a task nothing changes.
pub open spec fn went_through_task(
    before: Planner,
    after: Planner,
    id: PlannerId,
    step: spec_fn(Task, Task, bool) -> bool,
    changed: bool,
) -> bool {
    let i = index_of_key(before.tasks@, id@);
    &&& after == (Planner { tasks: after.tasks, ..before })
    &&& i < before.tasks@.len() ==> updated_at(before.tasks@, after.tasks@, i) && step(
        before.tasks@[i],
        after.tasks@[i],
        changed,
    )
    &&& i >= before.tasks@.len() ==> !changed && after.tasks@ == before.tasks@
}

/// Only the first timer with the id changes, by the transition; without such
/// a timer nothing changes.
pub open spec fn went_through_timer(
    before: Planner,
    after: Planner,
    id: PlannerId,
    step: spec_fn(Timer, Timer, bool) -> bool,
    changed: bool,
) -> bool {
    let i = index_of_key(before.timers@, id@);
    &&& after == (Planner { timers: after.timers, ..before })
    &&& i < before.timers@.len() ==> updated_at(before.timers@, after.timers@, i) && step(
        before.timers@[i],
        after.timers@[i],
        changed,
    )
    &&& i >= before.timers@.len() ==> !changed && after.timers@ == before.timers@
}

/// A task or timer command goes through the item's own transition and
/// nothing else: the first task (timer) with the command's id changes
/// exactly as the matching `Task` (`Timer`) method ensures, reporting the
/// method's result; every other task (timer) and every other part of the
/// planner stay as they were; without such an item nothing changes.
pub proof fn lemma_item_commands_use_item_transitions(
    before: Planner,
    after: Planner,
    command: PlannerCommand,
    changed: bool,
)
    requires
        planner_command_post(before, after, command, changed),
    ensures
        match task_command(command) {
            Some(named) => went_through_task(before, after, named.0, named.1, changed),
            None => true,
        },
        match timer_command(command) {
            Some(named) => went_through_timer(before, after, named.0, named.1, changed),
            None => true,
        },
{
}

/// Applies one planner use case through the planner items' own transitions.
pub fn execute_planner_command(planner: &mut Planner, command: PlannerCommand) -> (changed: bool)
    ensures
        planner_command_post(*old(planner), *final(planner), command, changed),
{
    match command {
        PlannerCommand::SetReminderEnabled { id, enabled } => {
            let i = find_by_key(&planner.reminders, &id);
            if i < planner.reminders.len() {
                planner.reminders[i].set_enabled(enabled)
            } else {
                false
            }
        },
        PlannerCommand::DeleteReminder { id } => {
            let count = planner.reminders.len();
            remove_by_key(&mut planner.reminders, &id);
            count != planner.reminders.len()
        },
        PlannerCommand::DismissReminder { id } => {
            let i = find_by_key(&planner.reminders, &id);
            if i < planner.reminders.len() {
                planner.reminders[i].dismiss()
            } else {
                false
            }
        },
        PlannerCommand::UpdateReminder { id, title, schedule } => {
            let i = find_by_key(&planner.reminders, &id);
            if i < planner.reminders.len() {
                planner.reminders[i].update(title, schedule)
            } else {
                false
            }
        },
        PlannerCommand::DeleteAlarm { id } => {
            let count = planner.alarms.len();
            remove_by_key(&mut planner.alarms, &id);
            let changed = count != planner.alarms.len();
            if changed {
                remove_by_key(&mut planner.alarm_receipts, &id);
                remove_by_key(&mut planner.alarm_snoozes, &id);
            }
            changed
        },
        PlannerCommand::CompleteTask { id } => {
            let i = find_by_key(&planner.tasks, &id);
            if i < planner.tasks.len() {
                planner.tasks[i].complete()
            } else {
                false
            }
        },
        PlannerCommand::ArchiveTask { id } => {
            let i = find_by_key(&planner.tasks, &id);
            if i < planner.tasks.len() {
                planner.tasks[i].archive()
            } else {
                false
            }
        },
        PlannerCommand::ReopenTask { id } => {
            let i = find_by_key(&planner.tasks, &id);
            if i < planner.tasks.len() {
                planner.tasks[i].reopen()
            } else {
                false
            }
        },
        PlannerCommand::DeleteTask { id } => {
            let count = planner.tasks.len();
            remove_by_key(&mut planner.tasks, &id);
            count != planner.tasks.len()
        },
        PlannerCommand::RenameTask { id, title } => {
            let i = find_by_key(&planner.tasks, &id);
            if i < planner.tasks.len() {
                planner.tasks[i].rename(title)
            } else {
                false
            }
        },
        PlannerCommand::SetAlarmEnabled { id, enabled } => {
            let i = find_by_key(&planner.alarms, &id);
            if i < planner.alarms.len() {
                planner.alarms[i].set_enabled(enabled);
                true
            } else {
                false
            }
        },
        PlannerCommand::StartTimer { id, started_at_utc } => {
            let i = find_by_key(&planner.timers, &id);
            if i < planner.timers.len() {
                planner.timers[i].start(started_at_utc)
            } else {
                false
            }
        },
        PlannerCommand::PauseTimer { id, remaining_seconds } => {
            let i = find_by_key(&planner.timers, &id);
            if i < planner.timers.len() {
                planner.timers[i].pause(remaining_seconds)
            } else {
                false
            }
        },
        PlannerCommand::FinishTimer { id } => {
            let i = find_by_key(&planner.timers, &id);
            if i >= planner.timers.len() {
                return false;
            }
            if planner.timers[i].state != TimerState::Running {
                return false;
            }
            planner.timers[i].finish();
            true
        },
        PlannerCommand::DismissTimer { id } => {
            let i = find_by_key(&planner.timers, &id);
            if i < planner.timers.len() {
                planner.timers[i].dismiss()
            } else {
                false
            }
        },
        PlannerCommand::RestartTimer { id, started_at_utc } => {
            let i = find_by_key(&planner.timers, &id);
            if i < planner.timers.len() {
                planner.timers[i].restart(started_at_utc)
            } else {
                false
            }
        },
        PlannerCommand::ResetTimer { id } => {
            let i = find_by_key(&planner.timers, &id);
            if i < planner.timers.len() {
                planner.timers[i].reset()
            } else {
                false
            }
        },
        PlannerCommand::DeleteTimer { id } => {
            let count = planner.timers.len();
            remove_by_key(&mut planner.timers, &id);
            count != planner.timers.len()
        },
        PlannerCommand::UpdateTimer { id, title, duration_seconds, repeat } => {
            let i = find_by_key(&planner.timers, &id);
            if i < planner.timers.len() {
                planner.timers[i].update(title, duration_seconds, repeat)
            } else {
                false
            }
        },
        PlannerCommand::StartStopwatch => match &mut planner.stopwatch {
            Option::Some(stopwatch) => stopwatch.start(),
            Option::None => false,
        },
        PlannerCommand::PauseStopwatch { elapsed_milliseconds } => match &mut planner.stopwatch {
            Option::Some(stopwatch) => stopwatch.pause(elapsed_milliseconds),
            Option::None => false,
        },
        PlannerCommand::ResetStopwatch => match &mut planner.stopwatch {
            Option::Some(stopwatch) => {
                stopwatch.reset();
                true
            },
            Option::None => false,
        },
        PlannerCommand::RecordStopwatchLap { elapsed_milliseconds } => match &mut planner.stopwatch {
            Option::Some(stopwatch) => stopwatch.record_lap(elapsed_milliseconds),
            Option::None => false,
        },
        PlannerCommand::UndoStopwatchLap => match &mut planner.stopwatch {
            Option::Some(stopwatch) => stopwatch.undo_lap(),
            Option::None => false,
        },
        PlannerCommand::ClearStopwatchLaps => match &mut planner.stopwatch {
            Option::Some(stopwatch) => stopwatch.clear_laps(),
            Option::None => false,
        },
    }
}

} // verus!
