use chrono::{DateTime, Utc};
use oziclock::attention::{
    pending_event_attention_items, pending_reminder_attention_items, pending_task_attention_items,
    pending_timer_attention_items, timer_triggered_label,
};
use oziclock::clock::Clock;
use oziclock::clock_views::{
    default_reminder_datetime, initial_ruler_time_step, main_time_zone, move_clock_to,
    move_selected_clock, stopwatch_elapsed_milliseconds, to_clock_tile,
};
use oziclock::colors::Rgb;
use oziclock::ids::PlannerId;
use oziclock::instant::Instant;
use oziclock::planner::{
    Event, EventReceipt, EventRecurrence, EventTime, Planner, Reminder, ReminderSchedule,
    Stopwatch, StopwatchState, Task, TaskStatus, Timer, TimerState,
};

fn id(value: &str) -> PlannerId {
    PlannerId::new(value).unwrap()
}

fn utc(value: &str) -> Instant {
    let moment: DateTime<Utc> = value.parse().unwrap();
    Instant {
        seconds: moment.timestamp(),
        nanos: moment.timestamp_subsec_nanos(),
    }
}

fn clock(label: &str, zone: &str, is_main: bool) -> Clock {
    Clock {
        label: label.into(),
        time_zone: zone.into(),
        color: "#336699".into(),
        is_main,
    }
}

fn labels(clocks: &[Clock]) -> Vec<&str> {
    clocks.iter().map(|c| c.label.as_str()).collect()
}

#[test]
fn main_zone_prefers_the_main_clock_then_the_first() {
    assert_eq!(main_time_zone(&vec![]), "UTC");
    assert_eq!(
        main_time_zone(&vec![clock("a", "Europe/Kyiv", false), clock("b", "Asia/Tokyo", true)]),
        "Asia/Tokyo"
    );
    assert_eq!(
        main_time_zone(&vec![clock("a", "Europe/Kyiv", false), clock("b", "Asia/Tokyo", false)]),
        "Europe/Kyiv"
    );
}

#[test]
fn clocks_move_only_inside_the_list() {
    let mut clocks = vec![clock("a", "UTC", true), clock("b", "UTC", false), clock("c", "UTC", false)];
    assert!(!move_clock_to(&mut clocks, 0, 3));
    assert!(!move_clock_to(&mut clocks, 1, 1));
    assert!(!move_clock_to(&mut clocks, -1, 0));
    assert_eq!(labels(&clocks), vec!["a", "b", "c"]);
    assert!(move_clock_to(&mut clocks, 0, 2));
    assert_eq!(clocks.len(), 3);
    assert_eq!(move_selected_clock(&mut clocks, 0, -1), None);
    assert_eq!(move_selected_clock(&mut clocks, 2, 1), None);
    assert_eq!(move_selected_clock(&mut clocks, 1, 1), Some(2));
}

#[test]
fn clock_tile_reads_its_own_zone() {
    let now = utc("2026-09-05T22:07:09Z");
    let tile = to_clock_tile(&clock("Tokyo", "Asia/Tokyo", true), now, true).unwrap();
    assert_eq!((tile.month.as_str(), tile.day.as_str()), ("09/", "06"));
    assert_eq!((tile.hour.as_str(), tile.minute.as_str(), tile.second.as_str()), ("07", "07", "09"));
    assert_eq!(tile.accent, Rgb { red: 0x33, green: 0x66, blue: 0x99 });
    assert!(tile.main_zone);
    let quiet = to_clock_tile(&clock("Nowhere", "Mars/Base", false), now, false).unwrap();
    assert_eq!((quiet.hour.as_str(), quiet.second.as_str()), ("22", ""));
}

#[test]
fn reminder_default_is_ten_minutes_ahead_on_the_main_clock() {
    let clocks = vec![clock("Kyiv", "Europe/Kyiv", true)];
    assert_eq!(
        default_reminder_datetime(&clocks, utc("2026-09-05T20:55:00Z")),
        Some(("2026-09-06".to_owned(), "00:05".to_owned()))
    );
}

#[test]
fn ruler_starts_at_the_nearest_hour() {
    let clocks = vec![clock("UTC", "UTC", true)];
    assert_eq!(initial_ruler_time_step(&clocks, utc("2026-09-05T10:29:00Z")), Some(120));
    assert_eq!(initial_ruler_time_step(&clocks, utc("2026-09-05T10:30:00Z")), Some(132));
    assert_eq!(initial_ruler_time_step(&clocks, utc("2026-09-05T23:45:00Z")), Some(0));
}

#[test]
fn stopwatch_reading_adds_the_running_part() {
    let stopwatch = Stopwatch {
        state: StopwatchState::Paused,
        elapsed_seconds: 12,
        elapsed_milliseconds: 345,
        laps_seconds: vec![],
        laps_milliseconds: vec![],
    };
    assert_eq!(stopwatch_elapsed_milliseconds(&Some(stopwatch), Some(655)), 13_000);
    assert_eq!(stopwatch_elapsed_milliseconds(&None, None), 0);
}

fn timer(name: &str, triggered: Option<&str>) -> Timer {
    Timer {
        id: id(name),
        title: "Tea".into(),
        duration_seconds: 300,
        remaining_seconds: 0,
        state: TimerState::Finished,
        repeat: false,
        repeat_count: None,
        repeats_remaining: None,
        started_at_utc: None,
        attention_pending: true,
        attention_triggered_at_utc: triggered.map(|t| t.to_owned()),
    }
}

#[test]
fn timer_label_shows_when_it_rang_on_the_main_clock() {
    let clocks = vec![clock("Kyiv", "Europe/Kyiv", true)];
    assert_eq!(timer_triggered_label(&timer("t", Some("2026-01-05T10:05:00Z")), &clocks), "05 Jan · 12:05");
    assert_eq!(timer_triggered_label(&timer("t", None), &clocks), "");
    assert_eq!(timer_triggered_label(&timer("t", Some("later")), &clocks), "");
    let planner = Planner {
        timers: vec![timer("t", Some("2026-09-05T10:05:00Z"))],
        ..Planner::default()
    };
    let items = pending_timer_attention_items(&planner, &vec![]);
    assert_eq!(items.len(), 1);
    assert_eq!(items[0].title, "Tea — 05:00");
    assert_eq!(items[0].triggered_at, "05 Sep · 10:05");
}

#[test]
fn attention_items_name_their_items_on_the_main_clock() {
    let clocks = vec![clock("UTC", "UTC", true)];
    let planner = Planner {
        tasks: vec![Task {
            id: id("task"),
            title: "Invoice".into(),
            status: TaskStatus::Open,
            due_utc: Some("2026-09-07T12:00:00Z".into()),
            scheduled_start_utc: None,
            scheduled_end_utc: None,
            color: None,
            tags: vec![],
            notes: None,
            alerts: vec![],
            attention_pending: true,
            attention_due_utc: Some("2026-09-07T12:00:00Z".into()),
            delivered_for_due_utc: None,
        }],
        events: vec![Event {
            id: id("standup"),
            title: "Standup".into(),
            time: EventTime::Timed {
                start_utc: "2026-09-07T09:00:00Z".into(),
                end_utc: "2026-09-07T09:30:00Z".into(),
                source_time_zone: "UTC".into(),
            },
            location: None,
            notes: None,
            link: None,
            color: None,
            alerts: vec![],
            recurrence: EventRecurrence::Daily,
        }],
        event_receipts: vec![
            EventReceipt {
                event_id: id("standup"),
                occurrence_utc: "2026-09-08T09:00:00+00:00".into(),
                alert_offset_minutes: 15,
                delivered_at_utc: "2026-09-08T08:45:00+00:00".into(),
                acknowledged_at_utc: None,
            },
            EventReceipt {
                event_id: id("gone"),
                occurrence_utc: "2026-09-08T10:00:00+00:00".into(),
                alert_offset_minutes: 0,
                delivered_at_utc: "2026-09-08T10:00:00+00:00".into(),
                acknowledged_at_utc: None,
            },
        ],
        reminders: vec![Reminder {
            id: id("call"),
            title: "Call".into(),
            schedule: ReminderSchedule::ImportantDate { month: 9, day: 5 },
            alerts: vec![],
            enabled: false,
            attention_pending: true,
            attention_due_utc: Some("2026-09-05T00:00:00Z".into()),
        }],
        ..Planner::default()
    };
    let tasks = pending_task_attention_items(&planner, &clocks);
    assert_eq!(tasks.len(), 1);
    assert_eq!(tasks[0].time, "Due 07 Sep · 12:00");
    let events = pending_event_attention_items(&planner, &clocks);
    assert_eq!(events.len(), 1);
    assert_eq!(events[0].title, "Standup");
    assert_eq!(events[0].time, "Starts 08 Sep · 09:00");
    let reminders = pending_reminder_attention_items(&planner);
    assert_eq!(reminders.len(), 1);
    assert_eq!(reminders[0].title, "Call");
}
