use chrono::DateTime;
use oziclock::calendar::CalendarDate;
use oziclock::clock::{execute_clock_command, Clock, ClockCommand};
use oziclock::editors::{
    alarm_from_editor, alarm_zone, event_from_editor, reminder_from_editor, step_plan_date, task_from_editor,
    timer_from_editor, toggle_stopwatch, AlarmEditorError, EventEditorError, PlanView,
    ReminderEditorError, TaskEditorError, TimerEditorError,
};
use oziclock::ids::PlannerId;
use oziclock::instant::Instant;
use oziclock::lanes::{arrange_plan_reminder_lanes, PlanReminderMarker};
use oziclock::planner::{
    Alarm, AlarmSchedule, EventRecurrence, EventTime, Planner, ReminderRecurrence, ReminderSchedule,
    StopwatchState,
};

fn utc(text: &str) -> Instant {
    let moment = DateTime::parse_from_rfc3339(text).unwrap();
    Instant { seconds: moment.timestamp(), nanos: moment.timestamp_subsec_nanos() }
}

fn date(year: i32, month: u32, day: u32) -> CalendarDate {
    CalendarDate { year, month, day }
}

const NO_DAYS: [bool; 7] = [false; 7];

#[test]
fn adding_a_main_clock_makes_it_the_only_main_clock() {
    let clock = |label: &str, is_main| Clock {
        label: label.into(),
        time_zone: "UTC".into(),
        color: "#000000".into(),
        is_main,
    };
    let mut clocks = vec![clock("A", true), clock("B", false)];
    assert!(execute_clock_command(&mut clocks, ClockCommand::Add(clock("C", true))));
    let mains: Vec<bool> = clocks.iter().map(|c| c.is_main).collect();
    assert_eq!(mains, vec![false, false, true]);
    assert!(execute_clock_command(&mut clocks, ClockCommand::Add(clock("D", false))));
    assert_eq!(clocks.iter().filter(|c| c.is_main).count(), 1);
    assert!(clocks[2].is_main);
}

#[test]
fn reminder_editor_reports_each_refusal() {
    let now = utc("2026-09-05T10:00:00Z");
    let read = |title, date, hours, minutes, recurrence, days: &[bool; 7]| {
        reminder_from_editor(title, date, hours, minutes, recurrence, days, "UTC", now)
    };
    assert_eq!(read("  ", "2026-09-06", "9", "30", "Once", &NO_DAYS).unwrap_err(), ReminderEditorError::BlankTitle);
    assert_eq!(read("Call", "2026-09-06", "25", "30", "Once", &NO_DAYS).unwrap_err(), ReminderEditorError::InvalidTime);
    assert_eq!(read("Call", "2026-02-30", "9", "30", "Once", &NO_DAYS).unwrap_err(), ReminderEditorError::InvalidDate);
    assert_eq!(read("Call", "2026-09-06", "9", "30", "Weekly", &NO_DAYS).unwrap_err(), ReminderEditorError::NoWeekday);
    assert_eq!(read("Call", "2026-09-06", "9", "30", "Hourly", &NO_DAYS).unwrap_err(), ReminderEditorError::UnknownRecurrence);
    assert_eq!(read("Call", "2026-09-05", "9", "30", "Once", &NO_DAYS).unwrap_err(), ReminderEditorError::NotInFuture);
}

#[test]
fn reminder_editor_builds_once_and_repeating_schedules() {
    let now = utc("2026-09-05T10:00:00Z");
    let (title, schedule) =
        reminder_from_editor(" Call ", "2026-09-06", "9", "5", "Once", &NO_DAYS, "UTC", now).unwrap();
    assert_eq!(title, "Call");
    match schedule {
        ReminderSchedule::Absolute { at_utc, source_time_zone } => {
            assert_eq!(at_utc, "2026-09-06T09:05:00+00:00");
            assert_eq!(source_time_zone, "UTC");
        }
        other => panic!("unexpected schedule {other:?}"),
    }
    let (_, schedule) =
        reminder_from_editor("Rent", "2026-09-06", "9", "5", "Monthly", &NO_DAYS, "UTC", now).unwrap();
    match schedule {
        ReminderSchedule::Recurring { recurrence, local_time, next_at_utc, .. } => {
            assert!(matches!(recurrence, ReminderRecurrence::Monthly { day: 6 }));
            assert_eq!(local_time, "09:05");
            assert_eq!(next_at_utc, "2026-09-06T09:05:00+00:00");
        }
        other => panic!("unexpected schedule {other:?}"),
    }
    // 2026-09-06 is a Sunday; the first ticked weekday on or after it is Tuesday.
    let mut days = NO_DAYS;
    days[1] = true;
    let (_, schedule) =
        reminder_from_editor("Gym", "2026-09-06", "18", "0", "Weekly", &days, "UTC", now).unwrap();
    match schedule {
        ReminderSchedule::Recurring { recurrence, next_at_utc, .. } => {
            assert!(matches!(recurrence, ReminderRecurrence::Weekly { ref weekdays } if weekdays == &vec![1]));
            assert_eq!(next_at_utc, "2026-09-08T18:00:00+00:00");
        }
        other => panic!("unexpected schedule {other:?}"),
    }
}

#[test]
fn alarm_editor_checks_time_then_name_then_weekdays() {
    let now = utc("2026-09-05T10:00:00Z");
    assert_eq!(alarm_from_editor("Wake", "24:00", false, &NO_DAYS, "UTC", now).unwrap_err(), AlarmEditorError::InvalidTime);
    assert_eq!(alarm_from_editor(" ", "7:00", false, &NO_DAYS, "UTC", now).unwrap_err(), AlarmEditorError::BlankTitle);
    assert_eq!(alarm_from_editor("Wake", "7:00", true, &NO_DAYS, "UTC", now).unwrap_err(), AlarmEditorError::NoWeekday);
    let (title, schedule) = alarm_from_editor(" Wake ", "7:0", false, &NO_DAYS, "UTC", now).unwrap();
    assert_eq!(title, "Wake");
    match schedule {
        AlarmSchedule::Once { local_date, local_time } => {
            assert_eq!(local_date, "2026-09-06");
            assert_eq!(local_time, "07:00");
        }
        other => panic!("unexpected schedule {other:?}"),
    }
    let mut days = NO_DAYS;
    days[0] = true;
    days[4] = true;
    match alarm_from_editor("Work", "8:30", true, &days, "UTC", now).unwrap().1 {
        AlarmSchedule::Weekly { local_time, weekdays } => {
            assert_eq!(local_time, "08:30");
            assert_eq!(weekdays, vec![0, 4]);
        }
        other => panic!("unexpected schedule {other:?}"),
    }
}

#[test]
fn task_editor_checks_name_due_time_and_alert() {
    assert_eq!(task_from_editor("", false, "", "", "No alert", "", "UTC").unwrap_err(), TaskEditorError::BlankTitle);
    assert_eq!(
        task_from_editor("Pay", true, "2026-13-01", "10:00", "No alert", "", "UTC").unwrap_err(),
        TaskEditorError::InvalidDueTime
    );
    assert_eq!(
        task_from_editor("Pay", true, "2026-09-06", "10:00", "Custom", "0", "UTC").unwrap_err(),
        TaskEditorError::InvalidAlert
    );
    let task = task_from_editor("Pay", true, "2026-09-06", "10:00", "15 minutes before", "", "UTC").unwrap();
    assert_eq!(task.due_utc.as_deref(), Some("2026-09-06T10:00:00+00:00"));
    assert_eq!(task.alert_offset, Some(15));
    let task = task_from_editor("Pay", true, "2026-09-06", "10:00", "At due time", "", "UTC").unwrap();
    assert_eq!(task.alert_offset, Some(0));
    let task = task_from_editor("Pay", false, "", "", "Custom", "45", "UTC").unwrap();
    assert_eq!(task.due_utc, None);
    assert_eq!(task.alert_offset, None);
}

#[test]
fn timer_editor_checks_each_field() {
    let read = |title, d, h, m, s, repeat, unlimited, count| timer_from_editor(title, d, h, m, s, repeat, unlimited, count);
    assert_eq!(read(" ", "0", "0", "5", "0", false, false, "").unwrap_err(), TimerEditorError::BlankTitle);
    assert_eq!(read("Tea", "0", "24", "5", "0", false, false, "").unwrap_err(), TimerEditorError::InvalidDuration);
    assert_eq!(read("Tea", "0", "0", "0", "0", false, false, "").unwrap_err(), TimerEditorError::ZeroDuration);
    assert_eq!(read("Tea", "0", "0", "5", "0", true, false, "x").unwrap_err(), TimerEditorError::InvalidRepeatCount);
    assert_eq!(read("Tea", "0", "0", "5", "0", true, false, "0").unwrap_err(), TimerEditorError::ZeroRepeatCount);
    let timer = read("Tea", "1", "2", "3", "4", true, false, " 3 ").unwrap();
    assert_eq!(timer.duration_seconds, 86_400 + 2 * 3_600 + 3 * 60 + 4);
    assert_eq!(timer.repeat_count, Some(3));
    assert_eq!(read("Tea", "0", "0", "5", "0", false, false, "x").unwrap().repeat_count, Some(0));
    assert_eq!(read("Tea", "0", "0", "5", "0", true, true, "x").unwrap().repeat_count, None);
}

#[test]
fn event_editor_checks_each_field() {
    let read = |title, day, end_day, start, end, all_day, repeat, alert, custom| {
        event_from_editor(title, day, end_day, start, end, all_day, repeat, alert, custom, "UTC")
    };
    let refusal = |result: Result<_, EventEditorError>| result.err();
    assert_eq!(refusal(read(" ", "2026-09-06", "", "9:00", "10:00", false, "Daily", "No alert", "")), Some(EventEditorError::BlankTitle));
    assert_eq!(refusal(read("Sync", "06/09/2026", "", "9:00", "10:00", false, "Daily", "No alert", "")), Some(EventEditorError::InvalidDate));
    assert_eq!(refusal(read("Trip", "2026-09-06", "x", "", "", true, "Daily", "No alert", "")), Some(EventEditorError::InvalidEndDate));
    assert_eq!(refusal(read("Trip", "2026-09-06", "2026-09-05", "", "", true, "Daily", "No alert", "")), Some(EventEditorError::EndBeforeStart));
    assert_eq!(refusal(read("Sync", "2026-09-06", "", "9:60", "10:00", false, "Daily", "No alert", "")), Some(EventEditorError::InvalidStartTime));
    assert_eq!(refusal(read("Sync", "2026-09-06", "", "09:00", "x", false, "Daily", "No alert", "")), Some(EventEditorError::InvalidEndTime));
    assert_eq!(refusal(read("Sync", "2026-09-06", "", "10:00", "10:00", false, "Daily", "No alert", "")), Some(EventEditorError::EndNotAfterStart));
    assert_eq!(refusal(read("Sync", "2026-09-06", "", "09:00", "10:00", false, "Hourly", "No alert", "")), Some(EventEditorError::InvalidRepeat));
    assert_eq!(refusal(read("Sync", "2026-09-06", "", "09:00", "10:00", false, "Daily", "Custom", "10081")), Some(EventEditorError::InvalidAlert));
    let event = read(" Sync ", "2026-09-06", "", "09:00", "10:30", false, "Weekly", "At start", "").unwrap();
    assert_eq!(event.title, "Sync");
    assert_eq!(event.recurrence, EventRecurrence::Weekly);
    assert_eq!(event.alert_offset, Some(0));
    match event.time {
        EventTime::Timed { start_utc, end_utc, source_time_zone } => {
            assert_eq!(start_utc, "2026-09-06T09:00:00+00:00");
            assert_eq!(end_utc, "2026-09-06T10:30:00+00:00");
            assert_eq!(source_time_zone, "UTC");
        }
        other => panic!("unexpected time {other:?}"),
    }
    let trip = read("Trip", "2026-09-06", "2026-09-08", "", "", true, "Does not repeat", "No alert", "").unwrap();
    assert!(matches!(trip.time, EventTime::AllDay { ref start_date, ref end_date } if start_date == "2026-09-06" && end_date == "2026-09-08"));
    assert_eq!(trip.alert_offset, None);
}

#[test]
fn plan_steps_by_week_month_and_year() {
    let today = date(2026, 9, 5);
    assert_eq!(step_plan_date(PlanView::Week, date(2026, 1, 1), today, 0), date(2026, 8, 31));
    assert_eq!(step_plan_date(PlanView::Week, date(2026, 8, 31), today, 1), date(2026, 9, 7));
    assert_eq!(step_plan_date(PlanView::Week, date(2026, 8, 31), today, -3), date(2026, 8, 24));
    assert_eq!(step_plan_date(PlanView::Month, date(2026, 1, 15), today, -1), date(2025, 12, 1));
    assert_eq!(step_plan_date(PlanView::Month, date(2026, 1, 15), today, 0), date(2026, 9, 1));
    assert_eq!(step_plan_date(PlanView::Month, date(2026, 1, 15), today, 103), date(2026, 3, 1));
    assert_eq!(step_plan_date(PlanView::Month, date(2026, 1, 15), date(2026, 1, 31), 102), date(2026, 1, 1));
    assert_eq!(step_plan_date(PlanView::Year, date(2026, 5, 5), today, 1), date(2027, 1, 1));
    assert_eq!(step_plan_date(PlanView::Year, date(2020, 5, 5), today, 0), date(2026, 1, 1));
}

#[test]
fn stopwatch_toggle_creates_starts_and_pauses() {
    let mut planner = Planner::default();
    assert!(toggle_stopwatch(&mut planner, 0));
    assert_eq!(planner.stopwatch.as_ref().unwrap().state, StopwatchState::Running);
    assert!(toggle_stopwatch(&mut planner, 1_500));
    let stopwatch = planner.stopwatch.as_ref().unwrap();
    assert_eq!(stopwatch.state, StopwatchState::Paused);
    assert_eq!((stopwatch.elapsed_seconds, stopwatch.elapsed_milliseconds), (1, 500));
}

#[test]
fn tied_plan_reminders_keep_their_order() {
    let marker = |title: &str, minute| PlanReminderMarker {
        id: "r".into(),
        title: title.into(),
        date: "2026-09-06".into(),
        time: "09:00".into(),
        day_index: 1,
        minute_offset: minute,
        lane_index: 0,
        lane_count: 1,
    };
    let arranged = arrange_plan_reminder_lanes(vec![marker("second", 600), marker("first", 540), marker("third", 600)]);
    let titles: Vec<&str> = arranged.iter().map(|m| m.title.as_str()).collect();
    assert_eq!(titles, vec!["first", "second", "third"]);
    assert_eq!(arranged[1].lane_index, 0);
    assert_eq!(arranged[2].lane_index, 1);
}

#[test]
fn alarm_zone_keeps_the_edited_alarms_zone_else_the_main_clocks() {
    let clock = |zone: &str, is_main| Clock {
        label: zone.into(),
        time_zone: zone.into(),
        color: "#000000".into(),
        is_main,
    };
    let alarm = Alarm {
        id: PlannerId::new("a").unwrap(),
        title: "Wake".into(),
        schedule: AlarmSchedule::Once { local_date: "2026-09-06".into(), local_time: "07:00".into() },
        time_zone: "Asia/Tokyo".into(),
        enabled: true,
    };
    let clocks = vec![clock("Europe/Paris", false), clock("America/New_York", true)];
    assert_eq!(alarm_zone(Some(&alarm), &clocks), "Asia/Tokyo");
    assert_eq!(alarm_zone(None, &clocks), "America/New_York");
    assert_eq!(alarm_zone(None, &vec![clock("Europe/Paris", false)]), "Europe/Paris");
    assert_eq!(alarm_zone(None, &vec![]), "UTC");
}
