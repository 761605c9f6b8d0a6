use oziclock::commands::{execute_planner_command, PlannerCommand};
use oziclock::ids::PlannerId;
use oziclock::planner::{
    Alarm, AlarmSchedule, Planner, Reminder, ReminderSchedule, Stopwatch, StopwatchState, Task,
    TaskStatus, Timer, TimerState,
};

fn id(value: &str) -> PlannerId {
    PlannerId::new(value).unwrap()
}

fn task(name: &str, title: &str) -> Task {
    Task {
        id: id(name),
        title: title.into(),
        status: TaskStatus::Open,
        due_utc: None,
        scheduled_start_utc: None,
        scheduled_end_utc: None,
        color: None,
        tags: vec![],
        notes: None,
        alerts: vec![],
        attention_pending: false,
        attention_due_utc: None,
        delivered_for_due_utc: None,
    }
}

fn timer() -> Timer {
    Timer {
        id: id("timer"),
        title: "Focus".into(),
        duration_seconds: 300,
        remaining_seconds: 120,
        state: TimerState::Paused,
        repeat: false,
        repeat_count: None,
        repeats_remaining: None,
        started_at_utc: None,
        attention_pending: true,
        attention_triggered_at_utc: None,
    }
}

#[test]
fn timer_transitions_preserve_remaining_duration() {
    let mut timer = Timer {
        id: id("timer"),
        title: "Focus".into(),
        duration_seconds: 60,
        remaining_seconds: 60,
        state: TimerState::Idle,
        repeat: false,
        repeat_count: None,
        repeats_remaining: None,
        started_at_utc: None,
        attention_pending: false,
        attention_triggered_at_utc: None,
    };
    assert!(timer.start("2026-09-03T10:00:00Z".into()));
    assert!(timer.pause(25));
    assert_eq!(timer.remaining_seconds, 25);
    assert!(timer.start("2026-09-03T10:01:00Z".into()));
    timer.finish();
    assert_eq!(timer.state, TimerState::Finished);
    assert_eq!(timer.remaining_seconds, 0);
    assert!(timer.dismiss());
    assert_eq!(timer.state, TimerState::Idle);
    assert!(timer.start("2026-09-03T10:02:00Z".into()));
    assert_eq!(timer.remaining_seconds, 60);
}

#[test]
fn recurring_alarm_requires_valid_weekdays() {
    let alarm = Alarm {
        id: id("alarm"),
        title: "Wake".into(),
        schedule: AlarmSchedule::Weekly {
            local_time: "07:00".into(),
            weekdays: vec![],
        },
        time_zone: "Europe/Kyiv".into(),
        enabled: true,
    };
    assert!(!alarm.has_valid_schedule());
}

#[test]
fn stopwatch_pause_retains_fractional_seconds() {
    let mut stopwatch = Stopwatch {
        state: StopwatchState::Running,
        elapsed_seconds: 0,
        elapsed_milliseconds: 0,
        laps_seconds: vec![],
        laps_milliseconds: vec![],
    };

    assert!(stopwatch.pause(12_345));
    assert_eq!(stopwatch.elapsed_seconds, 12);
    assert_eq!(stopwatch.elapsed_milliseconds, 345);
    assert!(stopwatch.start());
    assert!(stopwatch.record_lap(12_789));
    assert_eq!(stopwatch.laps_milliseconds, vec![12_789]);
    assert!(stopwatch.undo_lap());
    assert!(stopwatch.laps_milliseconds.is_empty());
    assert!(stopwatch.record_lap(13_000));
    assert!(stopwatch.clear_laps());
    assert!(stopwatch.laps_milliseconds.is_empty());
}

#[test]
fn deletion_removes_only_the_requested_alarm() {
    let mut planner = Planner::default();
    for name in ["a", "b"] {
        planner.alarms.push(Alarm {
            id: id(name),
            title: name.into(),
            enabled: true,
            time_zone: "UTC".into(),
            schedule: AlarmSchedule::Once {
                local_date: "2026-09-04".into(),
                local_time: "07:00".into(),
            },
        });
    }
    assert!(execute_planner_command(
        &mut planner,
        PlannerCommand::DeleteAlarm { id: id("a") }
    ));
    assert_eq!(planner.alarms.len(), 1);
    assert_eq!(planner.alarms[0].id, id("b"));
    assert!(!execute_planner_command(
        &mut planner,
        PlannerCommand::DeleteAlarm { id: id("a") }
    ));
}

#[test]
fn completing_a_task_uses_the_domain_transition() {
    let mut planner = Planner {
        tasks: vec![task("task", "Send invoice")],
        ..Planner::default()
    };

    assert!(execute_planner_command(
        &mut planner,
        PlannerCommand::CompleteTask { id: id("task") }
    ));
    assert_eq!(planner.tasks[0].status, TaskStatus::Completed);
    assert!(execute_planner_command(
        &mut planner,
        PlannerCommand::RenameTask {
            id: id("task"),
            title: "Send final invoice".into(),
        }
    ));
    assert!(execute_planner_command(
        &mut planner,
        PlannerCommand::ReopenTask { id: id("task") }
    ));
    assert_eq!(planner.tasks[0].status, TaskStatus::Open);
    assert!(execute_planner_command(
        &mut planner,
        PlannerCommand::DeleteTask { id: id("task") }
    ));
    assert!(planner.tasks.is_empty());
}

#[test]
fn timer_can_be_updated_reset_restarted_and_deleted() {
    let mut planner = Planner {
        timers: vec![timer()],
        ..Planner::default()
    };
    assert!(execute_planner_command(
        &mut planner,
        PlannerCommand::UpdateTimer {
            id: id("timer"),
            title: "Tea".into(),
            duration_seconds: 600,
            repeat: true,
        }
    ));
    assert_eq!(planner.timers[0].title, "Tea");
    assert_eq!(planner.timers[0].state, TimerState::Idle);
    assert!(planner.timers[0].repeat);

    assert!(execute_planner_command(
        &mut planner,
        PlannerCommand::RestartTimer {
            id: id("timer"),
            started_at_utc: "2026-09-05T10:00:00Z".into(),
        }
    ));
    assert_eq!(planner.timers[0].state, TimerState::Running);
    assert!(execute_planner_command(
        &mut planner,
        PlannerCommand::ResetTimer { id: id("timer") }
    ));
    assert_eq!(planner.timers[0].state, TimerState::Idle);
    assert_eq!(planner.timers[0].remaining_seconds, 600);

    assert!(execute_planner_command(
        &mut planner,
        PlannerCommand::DeleteTimer { id: id("timer") }
    ));
    assert!(planner.timers.is_empty());
}

#[test]
fn delivered_reminder_can_only_be_rearmed_by_editing() {
    let schedule = ReminderSchedule::Absolute {
        at_utc: "2026-09-05T10:00:00Z".into(),
        source_time_zone: "UTC".into(),
    };
    let mut reminder = Reminder {
        id: id("reminder"),
        title: "Stretch".into(),
        schedule: schedule.clone(),
        alerts: vec![],
        enabled: true,
        attention_pending: false,
        attention_due_utc: None,
    };
    assert!(reminder.deliver("2026-09-05T10:00:00Z".into()));
    let mut planner = Planner {
        reminders: vec![reminder],
        ..Planner::default()
    };
    assert!(!execute_planner_command(
        &mut planner,
        PlannerCommand::SetReminderEnabled {
            id: id("reminder"),
            enabled: true,
        }
    ));
    assert!(execute_planner_command(
        &mut planner,
        PlannerCommand::UpdateReminder {
            id: id("reminder"),
            title: "Walk".into(),
            schedule,
        }
    ));
    assert!(planner.reminders[0].enabled);
    assert!(!planner.reminders[0].attention_pending);
}

#[test]
fn blank_identifiers_and_titles_are_refused() {
    assert!(PlannerId::new("   ").is_none());
    assert!(PlannerId::new("").is_none());
    assert!(PlannerId::new("\t\u{3000}").is_none());
    assert_eq!(PlannerId::new(" a ").unwrap().to_string(), " a ");
    let mut t = task("t", "Old");
    assert!(!t.rename("  \n".into()));
    assert_eq!(t.title, "Old");
    assert!(t.rename("  New title \t".into()));
    assert_eq!(t.title, "New title");
}

#[test]
fn task_status_transitions() {
    let mut t = task("t", "x");
    assert!(!t.reopen());
    assert!(t.complete());
    assert!(!t.complete());
    assert!(t.archive());
    assert_eq!(t.status, TaskStatus::Archived);
    assert!(!t.archive());
    assert!(!t.reopen());
}

#[test]
fn timer_edge_transitions() {
    let mut t = timer();
    t.attention_pending = false;
    t.duration_seconds = 0;
    t.remaining_seconds = 0;
    assert!(!t.start("2026-01-01T00:00:00Z".into()));
    assert!(!t.restart("2026-01-01T00:00:00Z".into()));
    assert!(!t.update("  ".into(), 10, false));
    assert!(!t.update("Tea".into(), 0, false));
    assert!(t.update("Tea".into(), 10, false));
    assert!(!t.reset());
    assert!(t.start("2026-01-01T00:00:00Z".into()));
    assert!(!t.start("2026-01-01T00:00:01Z".into()));
    assert!(t.pause(99));
    assert_eq!(t.remaining_seconds, 10);
    assert!(!t.dismiss());
    assert!(t.reset());
}

#[test]
fn legacy_second_laps_are_converted_before_recording() {
    let mut stopwatch = Stopwatch {
        state: StopwatchState::Running,
        elapsed_seconds: 0,
        elapsed_milliseconds: 0,
        laps_seconds: vec![1, 3],
        laps_milliseconds: vec![],
    };
    assert!(stopwatch.record_lap(4_500));
    assert_eq!(stopwatch.laps_milliseconds, vec![1_000, 3_000, 4_500]);
    assert!(stopwatch.laps_seconds.is_empty());
    stopwatch.interrupt();
    assert_eq!(stopwatch.state, StopwatchState::Interrupted);
    assert!(!stopwatch.record_lap(5_000));
    stopwatch.reset();
    assert_eq!(stopwatch.state, StopwatchState::Idle);
    assert!(!stopwatch.clear_laps());
    assert!(!stopwatch.undo_lap());
}

#[test]
fn stopwatch_commands_need_a_stopwatch() {
    let mut planner = Planner::default();
    assert!(!execute_planner_command(&mut planner, PlannerCommand::StartStopwatch));
    assert!(!execute_planner_command(&mut planner, PlannerCommand::ResetStopwatch));
    planner.stopwatch = Some(Stopwatch {
        state: StopwatchState::Idle,
        elapsed_seconds: 5,
        elapsed_milliseconds: 0,
        laps_seconds: vec![],
        laps_milliseconds: vec![],
    });
    assert!(execute_planner_command(&mut planner, PlannerCommand::StartStopwatch));
    assert!(execute_planner_command(
        &mut planner,
        PlannerCommand::PauseStopwatch { elapsed_milliseconds: 7_250 }
    ));
    let stopwatch = planner.stopwatch.as_ref().unwrap();
    assert_eq!((stopwatch.elapsed_seconds, stopwatch.elapsed_milliseconds), (7, 250));
    assert!(execute_planner_command(&mut planner, PlannerCommand::ResetStopwatch));
}

#[test]
fn finishing_requires_a_running_timer_and_alarm_toggle_reports_lookup() {
    let mut planner = Planner {
        timers: vec![timer()],
        ..Planner::default()
    };
    assert!(!execute_planner_command(&mut planner, PlannerCommand::FinishTimer { id: id("timer") }));
    assert!(execute_planner_command(
        &mut planner,
        PlannerCommand::StartTimer { id: id("timer"), started_at_utc: "x".into() }
    ));
    assert!(execute_planner_command(&mut planner, PlannerCommand::FinishTimer { id: id("timer") }));
    assert_eq!(planner.timers[0].state, TimerState::Finished);
    assert!(!execute_planner_command(
        &mut planner,
        PlannerCommand::SetAlarmEnabled { id: id("none"), enabled: false }
    ));
}
