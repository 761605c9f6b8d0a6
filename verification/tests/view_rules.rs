use chrono::{TimeZone, Utc};
use oziclock::calendar::CalendarDate;
use oziclock::clock::Clock;
use oziclock::ids::PlannerId;
use oziclock::instant::Instant;
use oziclock::planner::{Alarm, AlarmSchedule, ReminderRecurrence};
use oziclock::views::{
    alarm_time_label, entry_bytes_written, filter_time_zone_options, filtered_time_zone_index,
    format_date, log_entry, log_needs_rotation, main_clock_index, next_refresh_delay_millis,
    normalize_alert_sound_duration_seconds, normalize_border_color, recurrence_matches_date,
    sanitize, slider_hour_labels, time_zone_display_name, time_zone_options, timestamp,
    week_start, CalendarItemKind, CalendarState, CalendarView, TimeZoneOption,
};

#[test]
fn seconds_refresh_aligns_to_the_next_second() {
    assert_eq!(next_refresh_delay_millis(true, 17, 250), 750);
}

#[test]
fn minute_refresh_aligns_to_the_next_minute() {
    assert_eq!(next_refresh_delay_millis(false, 17, 250), 42_750);
}

fn options() -> Vec<TimeZoneOption> {
    let moment = Utc.with_ymd_and_hms(2026, 1, 15, 12, 0, 0).unwrap();
    time_zone_options(Instant {
        seconds: moment.timestamp(),
        nanos: moment.timestamp_subsec_nanos(),
    })
}

#[test]
fn clk_08b_filter_selects_japan_immediately_from_utc() {
    let options = options();
    let filtered = filter_time_zone_options(&options, "japa");
    let index = filtered_time_zone_index(&filtered, "UTC");
    assert_eq!(index, 0);
    assert_eq!(filtered[index as usize].id, "Japan");
    assert_eq!(filtered[index as usize].offset_seconds, 9 * 3600);
}

#[test]
fn clk_08b_multiple_matches_keep_active_zone_or_select_first() {
    let options = options();
    let filtered = filter_time_zone_options(&options, "america/");
    let index = filtered_time_zone_index(&filtered, "America/New_York");
    assert_eq!(filtered[index as usize].id, "America/New_York");
    assert_eq!(filtered_time_zone_index(&filtered, "UTC"), 0);
    let empty = filter_time_zone_options(&options, "no-such-zone");
    assert_eq!(filtered_time_zone_index(&empty, "America/New_York"), -1);
}

#[test]
fn clk_08d_full_list_preserves_each_clocks_configured_zone() {
    let options = options();
    let restored = filter_time_zone_options(&options, "");
    assert_eq!(restored.len(), options.len());
    for zone in ["UTC", "Japan", "America/New_York"] {
        let index = filtered_time_zone_index(&restored, zone);
        assert_eq!(restored[index as usize].id, zone);
    }
}

#[test]
fn empty_query_returns_every_time_zone_in_original_order() {
    let options = options();
    let filtered = filter_time_zone_options(&options, "  ");

    assert_eq!(filtered.len(), options.len());
    assert!(
        filtered
            .iter()
            .zip(&options)
            .all(|(filtered, original)| filtered.id == original.id)
    );
}

#[test]
fn search_is_case_insensitive_and_matches_iana_identifier() {
    let options = options();
    let filtered = filter_time_zone_options(&options, "new_YORK");

    assert!(
        filtered
            .iter()
            .any(|option| option.id == "America/New_York")
    );
}

#[test]
fn search_matches_visible_utc_offset() {
    let options = options();
    let filtered = filter_time_zone_options(&options, "utc+05:45");

    assert!(filtered.iter().any(|option| option.id == "Asia/Kathmandu"));
}

#[test]
fn filtered_results_preserve_offset_then_identifier_order() {
    let options = options();
    let filtered = filter_time_zone_options(&options, "america/");

    assert!(filtered.windows(2).all(|pair| {
        pair[0].offset_seconds < pair[1].offset_seconds
            || pair[0].offset_seconds == pair[1].offset_seconds && pair[0].id <= pair[1].id
    }));
}

#[test]
fn unmatched_query_returns_no_results() {
    assert!(filter_time_zone_options(&options(), "not-a-real-time-zone").is_empty());
}

#[test]
fn zone_labels_show_signed_offsets() {
    assert_eq!(
        time_zone_display_name("Asia/Kathmandu", 5 * 3600 + 45 * 60),
        "(UTC+05:45) Asia/Kathmandu"
    );
    assert_eq!(
        time_zone_display_name("America/St_Johns", -(3 * 3600 + 30 * 60)),
        "(UTC-03:30) America/St_Johns"
    );
    assert_eq!(time_zone_display_name("UTC", 0), "(UTC+00:00) UTC");
}

#[test]
fn calendar_views_and_item_kinds_round_trip_their_indexes() {
    for view in [CalendarView::Month, CalendarView::Week, CalendarView::Year] {
        assert_eq!(CalendarView::from_index(view.index()), view);
    }
    assert_eq!(CalendarView::from_index(7), CalendarView::Month);
    assert_eq!(CalendarItemKind::Reminder.label(), "Reminder");
    assert_eq!(CalendarItemKind::Alarm.index(), 3);
}

#[test]
fn calendar_state_navigates_by_the_shown_period() {
    let today = CalendarDate::new(2026, 8, 30).unwrap();
    let mut state = CalendarState::new(today);
    state.navigate(1);
    assert_eq!(state.cursor, CalendarDate::new(2026, 9, 30).unwrap());
    state.show_week(today);
    assert_eq!(state.view, CalendarView::Week);
    assert_eq!(state.cursor, CalendarDate::new(2026, 8, 24).unwrap());
    state.navigate(-1);
    assert_eq!(state.cursor, CalendarDate::new(2026, 8, 17).unwrap());
    assert_eq!(state.week_focus, CalendarDate::new(2026, 8, 23).unwrap());
    state.select_month(1);
    assert_eq!(state.view, CalendarView::Month);
    assert_eq!(state.cursor, CalendarDate::new(2026, 2, 1).unwrap());
    state.select_month(12);
    assert_eq!(state.cursor, CalendarDate::new(2026, 2, 1).unwrap());
    state.view = CalendarView::Year;
    state.navigate(2);
    assert_eq!(state.cursor, CalendarDate::new(2028, 2, 1).unwrap());
    state.select_date("2024-02-29");
    assert_eq!(state.selected, CalendarDate::new(2024, 2, 29).unwrap());
    state.select_date("not a date");
    assert_eq!(state.selected, CalendarDate::new(2024, 2, 29).unwrap());
}

#[test]
fn week_start_and_headings() {
    let sunday = CalendarDate::new(2026, 8, 30).unwrap();
    assert_eq!(week_start(sunday), CalendarDate::new(2026, 8, 24).unwrap());
    assert_eq!(format_date(sunday), "Sunday, 30 August 2026");
    assert_eq!(
        format_date(CalendarDate::new(-44, 3, 15).unwrap()),
        "Thursday, 15 March -44"
    );
}

#[test]
fn reminder_recurrences_fall_on_their_days() {
    let monday = CalendarDate::new(2026, 9, 14).unwrap();
    let weekly = ReminderRecurrence::Weekly { weekdays: vec![0, 4] };
    assert!(recurrence_matches_date(&weekly, monday));
    assert!(!recurrence_matches_date(
        &weekly,
        CalendarDate::new(2026, 9, 15).unwrap()
    ));
    let end_of_month = ReminderRecurrence::Monthly { day: 31 };
    assert!(recurrence_matches_date(
        &end_of_month,
        CalendarDate::new(2026, 2, 28).unwrap()
    ));
    assert!(!recurrence_matches_date(
        &end_of_month,
        CalendarDate::new(2026, 3, 30).unwrap()
    ));
    let leap = ReminderRecurrence::Yearly { month: 2, day: 29 };
    assert!(recurrence_matches_date(&leap, CalendarDate::new(2025, 2, 28).unwrap()));
    assert!(recurrence_matches_date(&leap, CalendarDate::new(2024, 2, 29).unwrap()));
    assert!(!recurrence_matches_date(&leap, CalendarDate::new(2024, 2, 28).unwrap()));
    assert!(recurrence_matches_date(&ReminderRecurrence::Daily, monday));
}

#[test]
fn settings_values_are_normalized() {
    assert_eq!(normalize_alert_sound_duration_seconds(5), 5);
    assert_eq!(normalize_alert_sound_duration_seconds(7), 20);
    assert_eq!(normalize_border_color("  ##a1b2C3 ").as_deref(), Some("#A1B2C3"));
    assert_eq!(normalize_border_color("#12345"), None);
    assert_eq!(normalize_border_color("#12345G"), None);
    assert_eq!(slider_hour_labels(1), vec![0, 12, 24]);
    assert_eq!(slider_hour_labels(2), vec![0, 6, 12, 18, 24]);
    assert_eq!(slider_hour_labels(5), (0..=24).step_by(2).collect::<Vec<i32>>());
}

#[test]
fn alarm_and_clock_labels() {
    let alarm = Alarm {
        id: PlannerId::new("alarm").unwrap(),
        title: "Wake".into(),
        schedule: AlarmSchedule::Weekly {
            local_time: "07:30".into(),
            weekdays: vec![0],
        },
        time_zone: "Europe/Kyiv".into(),
        enabled: true,
    };
    assert_eq!(alarm_time_label(&alarm), "07:30 · Europe/Kyiv");
    let clock = |is_main| Clock {
        label: "c".into(),
        time_zone: "UTC".into(),
        color: "#000000".into(),
        is_main,
    };
    assert_eq!(main_clock_index(&[clock(false), clock(true), clock(true)]), 1);
    assert_eq!(main_clock_index(&[clock(false)]), 0);
    assert_eq!(main_clock_index(&[]), 0);
}

#[test]
fn bl_082_log_entries_are_single_line_and_bounded() {
    assert_eq!(sanitize("first\nsecond\rthird"), "first second third");
    assert_eq!(timestamp(Some(1_234)), "unix-ms=1234");
    assert_eq!(timestamp(None), "unix-ms=before-epoch");
    assert_eq!(log_entry("unix-ms=5", "start"), "unix-ms=5 start\n");
    assert!(log_needs_rotation(256 * 1024));
    assert!(!log_needs_rotation(256 * 1024 - 1));
    assert_eq!(entry_bytes_written(10), 10);
    assert_eq!(entry_bytes_written(100_000), 8 * 1024);
}
