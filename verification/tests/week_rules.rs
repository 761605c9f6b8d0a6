use chrono::{DateTime, Utc};
use oziclock::calendar::CalendarDate;
use oziclock::calendar::CalendarDay;
use oziclock::day_items::{
    alarm_on_date, calendar_day_cell, calendar_items_for_date, date_id, reminder_time_for_date,
};
use oziclock::views::CalendarState;
use oziclock::ids::PlannerId;
use oziclock::instant::Instant;
use oziclock::plan_week::{
    event_occurrence_dates, plan_counts_for_date, plan_event_rows, plan_reminder_rows,
    plan_task_rows,
};
use oziclock::planner::{
    AlarmOccurrenceStatus, AlarmReceipt, Alarm, AlarmSchedule, Event, EventRecurrence, EventTime,
    Planner, Reminder, ReminderRecurrence, ReminderSchedule, Task, TaskStatus, Timer, TimerState,
};
use oziclock::rows::{
    completed_task_count, format_reminder_schedule, open_task_count, planner_alarm_rows,
    planner_completed_task_rows, planner_reminder_rows, planner_task_rows, planner_timer_rows,
};
use oziclock::views::CalendarItemKind;

fn id(value: &str) -> PlannerId {
    PlannerId::new(value).unwrap()
}

fn date(year: i32, month: u32, day: u32) -> CalendarDate {
    CalendarDate { year, month, day }
}

fn utc(value: &str) -> Instant {
    let moment: DateTime<Utc> = value.parse().unwrap();
    Instant {
        seconds: moment.timestamp(),
        nanos: moment.timestamp_subsec_nanos(),
    }
}

fn task(name: &str, status: TaskStatus, due: Option<&str>) -> Task {
    Task {
        id: id(name),
        title: name.into(),
        status,
        due_utc: due.map(|d| d.to_owned()),
        scheduled_start_utc: None,
        scheduled_end_utc: None,
        color: None,
        tags: vec![],
        notes: None,
        alerts: vec![],
        attention_pending: false,
        attention_due_utc: None,
        delivered_for_due_utc: None,
    }
}

fn reminder(name: &str, schedule: ReminderSchedule) -> Reminder {
    Reminder {
        id: id(name),
        title: name.into(),
        schedule,
        alerts: vec![],
        enabled: true,
        attention_pending: false,
        attention_due_utc: None,
    }
}

fn timed_event(name: &str, start: &str, end: &str, recurrence: EventRecurrence) -> Event {
    Event {
        id: id(name),
        title: name.into(),
        time: EventTime::Timed {
            start_utc: start.into(),
            end_utc: end.into(),
            source_time_zone: "UTC".into(),
        },
        location: None,
        notes: None,
        link: None,
        color: None,
        alerts: vec![],
        recurrence,
    }
}

fn all_day_event(name: &str, start: &str, end: &str) -> Event {
    Event {
        id: id(name),
        title: name.into(),
        time: EventTime::AllDay {
            start_date: start.into(),
            end_date: end.into(),
        },
        location: None,
        notes: None,
        link: None,
        color: None,
        alerts: vec![],
        recurrence: EventRecurrence::NoRepeat,
    }
}

#[test]
fn evt_08_recurrence_expands_only_matching_dates_after_the_origin() {
    let origin = date(2026, 9, 7);
    let range_end = date(2026, 9, 20);
    assert_eq!(
        event_occurrence_dates(origin, EventRecurrence::Weekly, origin, range_end),
        vec![origin, date(2026, 9, 14)]
    );
    assert_eq!(
        event_occurrence_dates(origin, EventRecurrence::Daily, date(2026, 9, 4), date(2026, 9, 9)),
        vec![origin, date(2026, 9, 8), date(2026, 9, 9)]
    );
}

#[test]
fn single_occurrence_only_inside_the_range() {
    let origin = date(2026, 9, 7);
    assert_eq!(
        event_occurrence_dates(origin, EventRecurrence::NoRepeat, date(2026, 9, 1), date(2026, 9, 30)),
        vec![origin]
    );
    assert!(event_occurrence_dates(origin, EventRecurrence::NoRepeat, date(2026, 9, 8), date(2026, 9, 30)).is_empty());
    assert!(event_occurrence_dates(origin, EventRecurrence::Daily, date(2026, 9, 1), date(2026, 9, 6)).is_empty());
    assert_eq!(
        event_occurrence_dates(date(2026, 1, 31), EventRecurrence::Monthly, date(2026, 2, 1), date(2026, 5, 31)),
        vec![date(2026, 3, 31), date(2026, 5, 31)]
    );
}

#[test]
fn cal_11_recurring_reminder_marks_its_local_calendar_day() {
    let schedule = ReminderSchedule::Recurring {
        recurrence: ReminderRecurrence::Weekly { weekdays: vec![0] },
        local_time: "09:30".into(),
        source_time_zone: "Europe/Kyiv".into(),
        next_at_utc: "2026-09-07T06:30:00Z".into(),
    };
    let monday = date(2026, 9, 14);
    assert_eq!(reminder_time_for_date(&schedule, monday, "Europe/Kyiv"), Some("09:30".into()));
    assert_eq!(reminder_time_for_date(&schedule, date(2026, 9, 15), "Europe/Kyiv"), None);
}

#[test]
fn reminder_times_follow_the_calendar_zone() {
    let once = ReminderSchedule::Absolute {
        at_utc: "2026-09-05T22:30:00Z".into(),
        source_time_zone: "UTC".into(),
    };
    assert_eq!(reminder_time_for_date(&once, date(2026, 9, 6), "Asia/Tokyo"), Some("07:30".into()));
    assert_eq!(reminder_time_for_date(&once, date(2026, 9, 5), "UTC"), Some("22:30".into()));
    assert_eq!(reminder_time_for_date(&once, date(2026, 9, 5), "Asia/Tokyo"), None);
    let important = ReminderSchedule::ImportantDate { month: 9, day: 5 };
    assert_eq!(reminder_time_for_date(&important, date(2027, 9, 5), "UTC"), Some("All day".into()));
    assert_eq!(reminder_time_for_date(&important, date(2027, 9, 6), "UTC"), None);
}

#[test]
fn task_counts_and_rows_follow_status() {
    let planner = Planner {
        tasks: vec![
            task("a", TaskStatus::Open, None),
            task("b", TaskStatus::Completed, None),
            task("c", TaskStatus::Open, None),
            task("d", TaskStatus::Archived, None),
        ],
        ..Planner::default()
    };
    assert_eq!(open_task_count(&planner), 2);
    assert_eq!(completed_task_count(&planner), 1);
    let open = planner_task_rows(&planner);
    assert_eq!(open.iter().map(|r| r.id.as_str()).collect::<Vec<_>>(), vec!["a", "c"]);
    let done = planner_completed_task_rows(&planner);
    assert_eq!(done.len(), 1);
    assert_eq!(done[0].title, "b");
}

#[test]
fn alarm_rows_show_schedule_weekdays_and_latest_status() {
    let planner = Planner {
        alarms: vec![
            Alarm {
                id: id("once"),
                title: "Flight".into(),
                schedule: AlarmSchedule::Once {
                    local_date: "2026-09-05".into(),
                    local_time: "06:00".into(),
                },
                time_zone: "UTC".into(),
                enabled: true,
            },
            Alarm {
                id: id("weekly"),
                title: "Gym".into(),
                schedule: AlarmSchedule::Weekly {
                    local_time: "07:15".into(),
                    weekdays: vec![0, 2, 4],
                },
                time_zone: "UTC".into(),
                enabled: false,
            },
        ],
        alarm_receipts: vec![AlarmReceipt {
            alarm_id: id("once"),
            occurrence_utc: "2026-09-05T06:00:00+00:00".into(),
            status: AlarmOccurrenceStatus::Missed,
            recorded_at_utc: "2026-09-05T06:01:00+00:00".into(),
            acknowledged_at_utc: None,
        }],
        ..Planner::default()
    };
    let rows = planner_alarm_rows(&planner);
    assert_eq!(rows[0].schedule, "2026-09-05");
    assert_eq!(rows[0].time, "06:00");
    assert_eq!(rows[0].status, "Missed");
    assert!(!rows[0].weekly);
    assert_eq!(rows[0].weekdays, vec![false; 7]);
    assert_eq!(rows[1].schedule, "Weekly · Mon, Wed, Fri at 07:15");
    assert_eq!(rows[1].status, "");
    assert!(rows[1].weekly);
    assert_eq!(rows[1].weekdays, vec![true, false, true, false, true, false, false]);
    assert!(!rows[1].enabled);
}

#[test]
fn timer_rows_show_remaining_time_and_repeats() {
    let base = Timer {
        id: id("tea"),
        title: "Tea".into(),
        duration_seconds: 600,
        remaining_seconds: 600,
        state: TimerState::Running,
        repeat: true,
        repeat_count: Some(3),
        repeats_remaining: Some(3),
        started_at_utc: Some("2026-09-05T10:00:00Z".into()),
        attention_pending: false,
        attention_triggered_at_utc: None,
    };
    let endless = Timer {
        id: id("loop"),
        repeat_count: None,
        state: TimerState::Paused,
        remaining_seconds: 61,
        ..base.clone()
    };
    let planner = Planner {
        timers: vec![base, endless],
        ..Planner::default()
    };
    let rows = planner_timer_rows(&planner, utc("2026-09-05T10:02:03Z"));
    assert_eq!(rows[0].title, "Tea — 10:00");
    assert_eq!(rows[0].remaining, "07:57");
    assert!(rows[0].running);
    assert_eq!(rows[0].repeat_label, "Repeats ×3");
    assert_eq!(rows[1].remaining, "01:01");
    assert!(!rows[1].running);
    assert_eq!(rows[1].repeat_label, "Repeats ∞");
}

#[test]
fn reminder_schedule_descriptions() {
    let once = ReminderSchedule::Absolute {
        at_utc: "2026-09-05T09:30:00Z".into(),
        source_time_zone: "Europe/Kyiv".into(),
    };
    assert_eq!(
        format_reminder_schedule(&once, true),
        "Once · 2026-09-05 · 12:30 · Europe/Kyiv"
    );
    assert_eq!(
        format_reminder_schedule(&once, false),
        "Paused · Once · 2026-09-05 · 12:30 · Europe/Kyiv"
    );
    let weekly = ReminderSchedule::Recurring {
        recurrence: ReminderRecurrence::Weekly { weekdays: vec![0, 6] },
        local_time: "08:00".into(),
        source_time_zone: "UTC".into(),
        next_at_utc: "2026-09-07T08:00:00Z".into(),
    };
    assert_eq!(
        format_reminder_schedule(&weekly, true),
        "Weekly (Mon, Sun) · 2026-09-07 · 08:00 · UTC"
    );
    let bad_date = ReminderSchedule::Absolute {
        at_utc: "soon".into(),
        source_time_zone: "UTC".into(),
    };
    assert_eq!(format_reminder_schedule(&bad_date, true), "Invalid date");
    let bad_zone = ReminderSchedule::Absolute {
        at_utc: "2026-09-05T09:30:00Z".into(),
        source_time_zone: "Mars/Base".into(),
    };
    assert_eq!(format_reminder_schedule(&bad_zone, true), "Invalid time zone");
    assert_eq!(
        format_reminder_schedule(&ReminderSchedule::ImportantDate { month: 1, day: 1 }, true),
        "Important date"
    );
}

#[test]
fn delivered_reminder_row_says_delivered() {
    let mut pending = reminder(
        "call",
        ReminderSchedule::Absolute {
            at_utc: "2026-09-05T09:30:00Z".into(),
            source_time_zone: "UTC".into(),
        },
    );
    pending.attention_pending = true;
    let planner = Planner {
        reminders: vec![pending],
        ..Planner::default()
    };
    let rows = planner_reminder_rows(&planner);
    assert_eq!(rows[0].due, "Delivered");
    assert!(rows[0].delivered);
}

#[test]
fn plan_tasks_and_reminders_fall_on_their_local_days() {
    let planner = Planner {
        tasks: vec![
            task("due", TaskStatus::Open, Some("2026-09-08T23:30:00Z")),
            task("done", TaskStatus::Completed, Some("2026-09-08T10:00:00Z")),
            task("later", TaskStatus::Open, Some("2026-09-20T10:00:00Z")),
        ],
        reminders: vec![
            reminder(
                "b",
                ReminderSchedule::Absolute {
                    at_utc: "2026-09-09T10:00:00Z".into(),
                    source_time_zone: "UTC".into(),
                },
            ),
            reminder(
                "a",
                ReminderSchedule::Absolute {
                    at_utc: "2026-09-09T10:15:00Z".into(),
                    source_time_zone: "UTC".into(),
                },
            ),
        ],
        ..Planner::default()
    };
    let monday = date(2026, 9, 7);
    let tasks = plan_task_rows(&planner, "Asia/Tokyo", monday);
    assert_eq!(tasks.len(), 1);
    assert_eq!(tasks[0].date, "2026-09-09");
    assert_eq!(tasks[0].time, "08:30");
    assert_eq!((tasks[0].day_index, tasks[0].minute_offset), (2, 510));
    let reminders = plan_reminder_rows(&planner, "UTC", monday);
    assert_eq!(reminders[0].id, "b");
    assert_eq!((reminders[0].lane_index, reminders[0].lane_count), (0, 2));
    assert_eq!((reminders[1].lane_index, reminders[1].lane_count), (1, 2));
    let unknown_zone = plan_task_rows(&planner, "Nowhere/Else", monday);
    assert_eq!(unknown_zone[0].time, "23:30");
    assert_eq!(unknown_zone[0].day_index, 1);
}

#[test]
fn plan_events_are_drawn_per_day_with_all_day_spans() {
    let planner = Planner {
        events: vec![
            timed_event("standup", "2026-09-01T09:00:00Z", "2026-09-01T09:30:00Z", EventRecurrence::Daily),
            timed_event("late", "2026-09-08T23:00:00Z", "2026-09-09T01:00:00Z", EventRecurrence::NoRepeat),
            all_day_event("trip", "2026-09-05", "2026-09-08"),
        ],
        ..Planner::default()
    };
    let (timed, all_day) = plan_event_rows(&planner, "UTC", date(2026, 9, 7));
    let standups = timed.iter().filter(|m| m.id == "standup").count();
    assert_eq!(standups, 7);
    let late = timed.iter().find(|m| m.id == "late").unwrap();
    assert_eq!((late.day_index, late.minute_offset, late.duration_minutes), (1, 1380, 60));
    let days: Vec<i32> = all_day.iter().map(|r| r.day_index).collect();
    assert_eq!(days, vec![0, 1]);
    assert_eq!(all_day[1].date, "2026-09-08");
    assert_eq!(plan_counts_for_date(&planner, "UTC", date(2026, 9, 8)), (3, 0));
    assert_eq!(plan_counts_for_date(&planner, "UTC", date(2026, 9, 10)), (1, 0));
}

#[test]
fn calendar_day_lists_every_kind_in_time_order() {
    let planner = Planner {
        events: vec![timed_event("Standup", "2026-09-08T09:00:00Z", "2026-09-08T09:30:00Z", EventRecurrence::NoRepeat)],
        tasks: vec![task("Invoice", TaskStatus::Open, Some("2026-09-08T08:00:00Z"))],
        reminders: vec![reminder(
            "Call",
            ReminderSchedule::Absolute {
                at_utc: "2026-09-08T12:00:00Z".into(),
                source_time_zone: "UTC".into(),
            },
        )],
        alarms: vec![Alarm {
            id: id("wake"),
            title: "Wake".into(),
            schedule: AlarmSchedule::Weekly {
                local_time: "07:00".into(),
                weekdays: vec![1],
            },
            time_zone: "UTC".into(),
            enabled: true,
        }],
        ..Planner::default()
    };
    let items = calendar_items_for_date(&planner, "UTC", date(2026, 9, 8));
    let listed: Vec<(CalendarItemKind, &str, &str)> =
        items.iter().map(|i| (i.kind, i.title.as_str(), i.time.as_str())).collect();
    assert_eq!(
        listed,
        vec![
            (CalendarItemKind::Alarm, "Wake", "07:00"),
            (CalendarItemKind::Task, "Invoice", "08:00"),
            (CalendarItemKind::Event, "Standup", "09:00"),
            (CalendarItemKind::Reminder, "Call", "12:00"),
        ]
    );
    assert!(calendar_items_for_date(&planner, "UTC", date(2026, 9, 9)).is_empty());
}

#[test]
fn once_alarm_rings_on_its_date_in_the_calendar_zone() {
    let alarm = Alarm {
        id: id("flight"),
        title: "Flight".into(),
        schedule: AlarmSchedule::Once {
            local_date: "2026-09-05".into(),
            local_time: "23:30".into(),
        },
        time_zone: "UTC".into(),
        enabled: true,
    };
    assert!(alarm_on_date(&alarm, date(2026, 9, 5), "UTC"));
    assert!(alarm_on_date(&alarm, date(2026, 9, 6), "Asia/Tokyo"));
    assert!(!alarm_on_date(&alarm, date(2026, 9, 5), "Asia/Tokyo"));
    let paused = Alarm { enabled: false, ..alarm };
    assert!(!alarm_on_date(&paused, date(2026, 9, 5), "UTC"));
}

#[test]
fn date_ids_pad_years_to_four_places() {
    assert_eq!(date_id(date(2026, 9, 5)), "2026-09-05");
    assert_eq!(date_id(date(987, 12, 31)), "0987-12-31");
    assert_eq!(date_id(date(-5, 1, 1)), "-005-01-01");
    assert_eq!(date_id(date(12345, 1, 1)), "12345-01-01");
}

#[test]
fn day_cell_marks_the_kinds_it_lists() {
    let planner = Planner {
        tasks: vec![task("Invoice", TaskStatus::Open, Some("2026-09-08T08:00:00Z"))],
        ..Planner::default()
    };
    let day = CalendarDay {
        date: date(2026, 9, 8),
        outside_month: false,
        weekend: false,
    };
    let state = CalendarState::new(date(2026, 9, 8));
    let cell = calendar_day_cell(&day, &state, date(2026, 9, 7), &planner, "UTC");
    assert_eq!(cell.text, "8");
    assert_eq!(cell.date_id, "2026-09-08");
    assert!(cell.selected);
    assert!(!cell.today);
    assert!(cell.has_task);
    assert!(!cell.has_event && !cell.has_reminder && !cell.has_alarm);
}
