use chrono::DateTime;
use oziclock::clock_views::default_reminder_datetime;
use oziclock::colors::{parse_color, Rgb};
use oziclock::commands::{execute_planner_command, PlannerCommand};
use oziclock::ids::PlannerId;
use oziclock::inputs::default_alarm_time;
use oziclock::calendar::CalendarDate;
use oziclock::instant::{is_representable, Instant, EARLIEST_SECONDS, LATEST_SECONDS};
use oziclock::planner::{Planner, Task, TaskStatus, Timer, TimerState};
use oziclock::zoned::LocalDateTime;

fn id(value: &str) -> PlannerId {
    PlannerId::new(value).unwrap()
}

#[test]
fn representable_range_is_the_range_chrono_accepts() {
    assert!(DateTime::from_timestamp(EARLIEST_SECONDS, 0).is_some());
    assert!(DateTime::from_timestamp(EARLIEST_SECONDS - 1, 999_999_999).is_none());
    assert!(DateTime::from_timestamp(LATEST_SECONDS, 999_999_999).is_some());
    assert!(DateTime::from_timestamp(LATEST_SECONDS + 1, 0).is_none());
    assert!(is_representable(Instant { seconds: EARLIEST_SECONDS, nanos: 0 }));
    assert!(!is_representable(Instant { seconds: EARLIEST_SECONDS - 1, nanos: 0 }));
    assert!(is_representable(Instant { seconds: LATEST_SECONDS, nanos: 1_500_000_000 }));
    assert!(!is_representable(Instant { seconds: LATEST_SECONDS - 1, nanos: 1_500_000_000 }));
    for seconds in [-62_i64, -61, -1, 59, 60] {
        let chrono_accepts = DateTime::from_timestamp(seconds, 1_000_000_000).is_some();
        assert_eq!(is_representable(Instant { seconds, nanos: 1_000_000_000 }), chrono_accepts);
    }
    assert!(!is_representable(Instant { seconds: -62, nanos: 1_000_000_000 }));
    assert!(is_representable(Instant { seconds: -61, nanos: 1_000_000_000 }));
}

#[test]
fn reminder_default_from_a_leap_second_leaves_it() {
    // 2016-12-31T23:59:60.5Z
    let now = Instant { seconds: 1_483_228_799, nanos: 1_500_000_000 };
    assert_eq!(
        default_reminder_datetime(&vec![], now),
        Some(("2017-01-01".to_owned(), "00:09".to_owned()))
    );
}

#[test]
fn hexadecimal_colors_read_their_bytes() {
    assert_eq!(parse_color("#FF0000"), Rgb { red: 255, green: 0, blue: 0 });
    assert_eq!(parse_color("#ff8001"), Rgb { red: 255, green: 128, blue: 1 });
    assert_eq!(parse_color("#80FF8001"), Rgb { red: 255, green: 128, blue: 1 });
    assert_eq!(parse_color("#FF00G0"), Rgb { red: 255, green: 255, blue: 255 });
}

#[test]
fn default_alarm_time_reads_the_wall_clock_time_of_day() {
    let at = |hour, minute, second| LocalDateTime {
        date: CalendarDate { year: 2026, month: 9, day: 5 },
        hour,
        minute,
        second,
        nanos: 0,
    };
    assert_eq!(default_alarm_time(at(7, 0, 0)), "07:05");
    assert_eq!(default_alarm_time(at(7, 0, 1)), "07:10");
    assert_eq!(default_alarm_time(at(23, 55, 30)), "00:05");
}

#[test]
fn task_and_timer_commands_match_the_item_methods() {
    let task = Task {
        id: id("task"),
        title: "Send invoice".into(),
        status: TaskStatus::Open,
        due_utc: None,
        scheduled_start_utc: None,
        scheduled_end_utc: None,
        color: None,
        tags: vec![],
        notes: None,
        alerts: vec![],
        attention_pending: false,
        attention_due_utc: None,
        delivered_for_due_utc: None,
    };
    let mut planner = Planner { tasks: vec![task.clone(), Task { id: id("other"), ..task.clone() }], ..Planner::default() };
    let mut direct = task.clone();
    let expected = direct.rename("Pay invoice".into());
    let changed = execute_planner_command(
        &mut planner,
        PlannerCommand::RenameTask { id: id("task"), title: "Pay invoice".into() },
    );
    assert_eq!(changed, expected);
    assert_eq!(format!("{:?}", planner.tasks[0]), format!("{:?}", direct));
    assert_eq!(planner.tasks[1].title, "Send invoice");

    let timer = Timer {
        id: id("timer"),
        title: "Focus".into(),
        duration_seconds: 300,
        remaining_seconds: 120,
        state: TimerState::Paused,
        repeat: false,
        repeat_count: None,
        repeats_remaining: None,
        started_at_utc: None,
        attention_pending: false,
        attention_triggered_at_utc: None,
    };
    let mut planner = Planner { timers: vec![timer.clone()], ..Planner::default() };
    let mut direct = timer.clone();
    let expected = direct.start("2026-09-05T10:00:00Z".into());
    let changed = execute_planner_command(
        &mut planner,
        PlannerCommand::StartTimer { id: id("timer"), started_at_utc: "2026-09-05T10:00:00Z".into() },
    );
    assert_eq!(changed, expected);
    assert_eq!(format!("{:?}", planner.timers[0]), format!("{:?}", direct));
}

#[test]
fn dates_outside_four_digit_years_carry_a_sign() {
    for (year, text) in [(-1, "-0001-06-01"), (10_000, "+10000-06-01"), (2026, "2026-06-01")] {
        let moment = chrono::NaiveDate::from_ymd_opt(year, 6, 1)
            .unwrap()
            .and_hms_opt(0, 0, 0)
            .unwrap()
            .and_utc()
            .timestamp();
        assert_eq!(
            default_reminder_datetime(&vec![], Instant { seconds: moment, nanos: 0 }),
            Some((text.to_owned(), "00:10".to_owned()))
        );
    }
}
