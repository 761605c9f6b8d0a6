use chrono::{DateTime, Duration, Utc};
use oziclock::ids::PlannerId;
use oziclock::instant::Instant;
use oziclock::planner::{AlertRule, Planner, Task, TaskStatus, Timer, TimerState};
use oziclock::{task_time, timer_time};

fn utc(value: &str) -> Instant {
    let moment: DateTime<Utc> = value.parse().unwrap();
    instant_of(moment)
}

fn instant_of(moment: DateTime<Utc>) -> Instant {
    Instant {
        seconds: moment.timestamp(),
        nanos: moment.timestamp_subsec_nanos(),
    }
}

fn running_timer(started_at_utc: &str) -> Timer {
    Timer {
        id: PlannerId::new("timer").unwrap(),
        title: "Focus".into(),
        duration_seconds: 300,
        remaining_seconds: 300,
        state: TimerState::Running,
        repeat: false,
        repeat_count: Some(0),
        repeats_remaining: Some(0),
        started_at_utc: Some(started_at_utc.into()),
        attention_pending: false,
        attention_triggered_at_utc: None,
    }
}

fn planner_with_timers(timers: Vec<Timer>) -> Planner {
    Planner {
        timers,
        ..Planner::default()
    }
}

#[test]
fn reconstructs_remaining_time_after_restart() {
    let timer = running_timer("2026-09-05T10:00:00Z");
    assert_eq!(
        timer_time::remaining_seconds(&timer, utc("2026-09-05T10:02:03Z")),
        177
    );
    assert_eq!(
        timer_time::remaining_seconds(&timer, utc("2026-09-05T09:59:00Z")),
        300
    );
}

#[test]
fn invalid_start_does_not_consume_the_timer() {
    let timer = running_timer("invalid");
    assert_eq!(
        timer_time::remaining_seconds(&timer, utc("2026-09-05T10:10:00Z")),
        300
    );
}

#[test]
fn reconciliation_finishes_each_expired_timer_once() {
    let mut planner = planner_with_timers(vec![running_timer("2026-09-05T10:00:00Z")]);
    let now = utc("2026-09-05T10:05:00Z");
    assert_eq!(timer_time::reconcile(&mut planner, now).len(), 1);
    assert_eq!(planner.timers[0].state, TimerState::Finished);
    assert_eq!(planner.timers[0].remaining_seconds, 0);
    assert!(timer_time::reconcile(&mut planner, now).is_empty());
    assert_eq!(
        timer_time::pending_attention(&planner),
        vec![PlannerId::new("timer").unwrap()]
    );
}

#[test]
fn repeating_timer_restarts_and_keeps_attention_pending() {
    let mut timer = running_timer("2026-09-05T10:00:00Z");
    timer.repeat = true;
    timer.repeat_count = None;
    timer.repeats_remaining = None;
    let mut planner = planner_with_timers(vec![timer]);
    let now = utc("2026-09-05T10:05:00Z");

    assert_eq!(timer_time::reconcile(&mut planner, now).len(), 1);
    assert_eq!(planner.timers[0].state, TimerState::Running);
    assert_eq!(planner.timers[0].remaining_seconds, 300);
    assert_eq!(
        planner.timers[0].started_at_utc.as_deref(),
        Some("2026-09-05T10:05:00+00:00")
    );
    assert!(planner.timers[0].attention_pending);
    assert_eq!(timer_time::pending_attention(&planner).len(), 1);
}

#[test]
fn finite_repeat_count_means_additional_runs_and_survives_pending_attention() {
    let mut timer = running_timer("2026-09-05T10:00:00Z");
    timer.repeat = true;
    timer.repeat_count = Some(2);
    timer.repeats_remaining = Some(2);
    let mut planner = planner_with_timers(vec![timer]);

    assert_eq!(
        timer_time::reconcile(&mut planner, utc("2026-09-05T10:05:00Z")).len(),
        1
    );
    assert_eq!(planner.timers[0].state, TimerState::Running);
    assert_eq!(planner.timers[0].repeats_remaining, Some(1));
    let first_trigger = planner.timers[0].attention_triggered_at_utc.clone();

    assert!(timer_time::reconcile(&mut planner, utc("2026-09-05T10:10:00Z")).is_empty());
    assert_eq!(planner.timers[0].state, TimerState::Running);
    assert_eq!(planner.timers[0].repeats_remaining, Some(0));
    assert_eq!(planner.timers[0].attention_triggered_at_utc, first_trigger);

    assert!(timer_time::reconcile(&mut planner, utc("2026-09-05T10:15:00Z")).is_empty());
    assert_eq!(planner.timers[0].state, TimerState::Finished);
    assert_eq!(planner.timers[0].repeats_remaining, Some(0));
}

#[test]
fn paused_and_fractional_timers() {
    let mut timer = running_timer("2026-09-05T10:00:00.750Z");
    assert_eq!(
        timer_time::remaining_seconds(&timer, utc("2026-09-05T10:00:01.500Z")),
        300
    );
    assert_eq!(
        timer_time::remaining_seconds(&timer, utc("2026-09-05T10:00:01.750Z")),
        299
    );
    timer.state = TimerState::Paused;
    timer.remaining_seconds = 42;
    assert_eq!(
        timer_time::remaining_seconds(&timer, utc("2026-09-06T10:00:00Z")),
        42
    );
    let mut planner = planner_with_timers(vec![timer]);
    assert!(timer_time::reconcile(&mut planner, utc("2026-09-06T10:00:00Z")).is_empty());
    assert!(timer_time::pending_attention(&planner).is_empty());
}

fn task(name: &str, due: &str, offset_minutes: i32) -> Task {
    Task {
        id: PlannerId::new(name).unwrap(),
        title: "Submit report".into(),
        status: TaskStatus::Open,
        due_utc: Some(due.into()),
        scheduled_start_utc: None,
        scheduled_end_utc: None,
        color: None,
        tags: vec![],
        notes: None,
        alerts: vec![AlertRule {
            id: PlannerId::new("alert").unwrap(),
            offset_minutes,
            play_sound: false,
        }],
        attention_pending: false,
        attention_due_utc: None,
        delivered_for_due_utc: None,
    }
}

#[test]
fn scheduled_task_is_delivered_only_once_for_its_due_time() {
    let mut planner = Planner {
        tasks: vec![task("task", "2026-09-07T12:00:00+00:00", 5)],
        ..Planner::default()
    };
    let now: DateTime<Utc> = DateTime::parse_from_rfc3339("2026-09-07T11:55:00+00:00")
        .unwrap()
        .with_timezone(&Utc);
    assert_eq!(task_time::reconcile(&mut planner, instant_of(now)).len(), 1);
    planner.tasks[0].dismiss_attention();
    assert!(task_time::reconcile(&mut planner, instant_of(now + Duration::minutes(1))).is_empty());
}

#[test]
fn task_alerts_wait_for_their_moment_and_sort_by_due_time() {
    let mut planner = Planner {
        tasks: vec![
            task("late", "2026-09-07T13:00:00+00:00", 0),
            task("early", "2026-09-07T12:00:00+00:00", 0),
            task("future", "2026-09-08T12:00:00+00:00", 0),
            task("unreadable", "tomorrow", 0),
        ],
        ..Planner::default()
    };
    let before = utc("2026-09-07T11:59:59Z");
    assert!(task_time::reconcile(&mut planner, before).is_empty());
    let now = utc("2026-09-07T13:00:00Z");
    let delivered = task_time::try_reconcile(&mut planner, now).unwrap();
    assert_eq!(
        delivered,
        vec![PlannerId::new("late").unwrap(), PlannerId::new("early").unwrap()]
    );
    assert_eq!(
        planner.tasks[0].attention_due_utc.as_deref(),
        Some("2026-09-07T13:00:00+00:00")
    );
    assert_eq!(
        task_time::pending_attention(&planner),
        vec![PlannerId::new("early").unwrap(), PlannerId::new("late").unwrap()]
    );
}

#[test]
fn extreme_alert_offsets_stay_in_the_calendar_range() {
    let mut planner = Planner {
        tasks: vec![
            task("ancient", "0001-01-01T00:00:00Z", i32::MAX),
            task("distant", "9999-12-31T23:59:59Z", i32::MIN),
        ],
        ..Planner::default()
    };
    let delivered = task_time::try_reconcile(&mut planner, utc("2026-09-07T13:00:00Z")).unwrap();
    assert_eq!(delivered, vec![PlannerId::new("ancient").unwrap()]);
    assert!(planner.tasks[0].attention_pending);
    assert!(!planner.tasks[1].attention_pending);
}
