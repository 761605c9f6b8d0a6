use oziclock::ids::PlannerId;
use oziclock::inputs::{
    adjust_timer_part, event_recurrence_label, mask_clock_time, mask_timer_part,
    normalize_alarm_time, parse_alert_with_custom, parse_event_recurrence, parse_timer_duration,
    task_alert_label,
};
use oziclock::lanes::{
    arrange_plan_event_lanes, arrange_plan_reminder_lanes, PlanEventMarker, PlanReminderMarker,
};
use oziclock::models::{
    alarm_status, format_lap, format_stopwatch, format_timer_duration, stopwatch_lap_rows_from,
};
use oziclock::planner::{
    AlarmOccurrenceStatus, AlarmReceipt, EventRecurrence, Stopwatch, StopwatchState,
};

fn plan_marker(id: &str, day: i32, minute: i32) -> PlanReminderMarker {
    PlanReminderMarker {
        id: id.to_string(),
        title: id.to_string(),
        date: "2026-09-07".to_string(),
        time: "10:00".to_string(),
        day_index: day,
        minute_offset: minute,
        lane_index: 0,
        lane_count: 1,
    }
}

fn plan_event(id: &str, day: i32, minute: i32, duration: i32) -> PlanEventMarker {
    PlanEventMarker {
        id: id.to_string(),
        title: id.to_string(),
        date: "2026-09-07".to_string(),
        time: "10:00".to_string(),
        day_index: day,
        minute_offset: minute,
        duration_minutes: duration,
        lane_index: 0,
        lane_count: 1,
    }
}

#[test]
fn evt_07_overlapping_plan_events_share_lanes_until_the_cluster_ends() {
    let rows = arrange_plan_event_lanes(vec![
        plan_event("long", 0, 60, 90),
        plan_event("short", 0, 90, 30),
        plan_event("later", 0, 180, 30),
    ]);
    assert_eq!((rows[0].lane_index, rows[0].lane_count), (0, 2));
    assert_eq!((rows[1].lane_index, rows[1].lane_count), (1, 2));
    assert_eq!((rows[2].lane_index, rows[2].lane_count), (0, 1));
}

#[test]
fn pln_06_overlapping_plan_reminders_share_deterministic_lanes() {
    let rows = arrange_plan_reminder_lanes(vec![
        plan_marker("later", 1, 80),
        plan_marker("first", 0, 60),
        plan_marker("overlap", 0, 75),
        plan_marker("separate", 0, 120),
    ]);

    assert_eq!(rows[0].id.as_str(), "first");
    assert_eq!((rows[0].lane_index, rows[0].lane_count), (0, 2));
    assert_eq!((rows[1].lane_index, rows[1].lane_count), (1, 2));
    assert_eq!((rows[2].lane_index, rows[2].lane_count), (0, 1));
    assert_eq!((rows[3].lane_index, rows[3].lane_count), (0, 1));
}

#[test]
fn markers_with_equal_times_are_ordered_by_identifier() {
    let rows = arrange_plan_reminder_lanes(vec![
        plan_marker("b", 0, 60),
        plan_marker("a", 0, 60),
        plan_marker("c", 0, 89),
    ]);
    assert_eq!(rows[0].id, "a");
    assert_eq!(rows[1].id, "b");
    assert_eq!(rows[2].id, "c");
    assert_eq!((rows[0].lane_index, rows[0].lane_count), (0, 3));
    assert_eq!((rows[1].lane_index, rows[1].lane_count), (1, 3));
    assert_eq!((rows[2].lane_index, rows[2].lane_count), (2, 3));
}

#[test]
fn freed_lane_is_reused_within_a_cluster() {
    let rows = arrange_plan_event_lanes(vec![
        plan_event("a", 2, 0, 120),
        plan_event("b", 2, 10, 20),
        plan_event("c", 2, 30, 20),
        plan_event("d", 3, 30, 20),
    ]);
    assert_eq!((rows[0].lane_index, rows[0].lane_count), (0, 2));
    assert_eq!((rows[1].lane_index, rows[1].lane_count), (1, 2));
    assert_eq!((rows[2].lane_index, rows[2].lane_count), (1, 2));
    assert_eq!((rows[3].lane_index, rows[3].lane_count), (0, 1));
    assert!(arrange_plan_event_lanes(Vec::new()).is_empty());
}

#[test]
fn alm_17_alarm_status_uses_latest_receipt_for_that_alarm() {
    let alarm_id = PlannerId::new("alarm").unwrap();
    let other_id = PlannerId::new("other").unwrap();
    let receipt = |id: PlannerId, recorded: &str, status: AlarmOccurrenceStatus| AlarmReceipt {
        alarm_id: id,
        occurrence_utc: recorded.into(),
        status,
        recorded_at_utc: recorded.into(),
        acknowledged_at_utc: None,
    };
    let receipts = vec![
        receipt(
            alarm_id.clone(),
            "2026-09-05T09:00:00+00:00",
            AlarmOccurrenceStatus::Missed,
        ),
        receipt(
            other_id,
            "2026-09-05T11:00:00+00:00",
            AlarmOccurrenceStatus::Missed,
        ),
        receipt(
            alarm_id.clone(),
            "2026-09-05T10:00:00+00:00",
            AlarmOccurrenceStatus::Delivered,
        ),
    ];
    assert_eq!(alarm_status(&receipts, &alarm_id), "Delivered");
    assert_eq!(
        alarm_status(&receipts, &PlannerId::new("none").unwrap()),
        ""
    );
}

#[test]
fn tmr_06_duration_label_keeps_the_original_scale_visible() {
    assert_eq!(format_timer_duration(300), "05:00");
    assert_eq!(format_timer_duration(3_661), "01:01:01");
    assert_eq!(format_timer_duration(90_061), "1d 01:01:01");
}

#[test]
fn sw_02_sw_04_sw_05_laps_keep_centiseconds_splits_and_extremes() {
    let stopwatch = Stopwatch {
        state: StopwatchState::Paused,
        elapsed_seconds: 10,
        elapsed_milliseconds: 0,
        laps_seconds: vec![],
        laps_milliseconds: vec![1_250, 3_750, 5_000],
    };
    let rows = stopwatch_lap_rows_from(&stopwatch);
    assert_eq!(rows[0].number, 3);
    assert_eq!(rows[0].split.as_str(), "00:00:01.25");
    assert!(rows[0].fastest);
    assert_eq!(rows[1].split.as_str(), "00:00:02.50");
    assert!(rows[1].slowest);
    assert_eq!(rows[2].total.as_str(), "00:00:01.25");
}

#[test]
fn sw_10_stopwatch_format_supports_sessions_longer_than_a_day() {
    assert_eq!(format_stopwatch(90_061_230).0, "1d 01:01:01");
    assert_eq!(format_lap(90_061_230), "1d 01:01:01.23");
}

#[test]
fn stopwatch_format_shows_centiseconds_apart() {
    let (main, fraction) = format_stopwatch(3_723_456);
    assert_eq!(main, "01:02:03");
    assert_eq!(fraction, ".45");
}

#[test]
fn legacy_second_laps_are_listed_and_equal_splits_are_not_extremes() {
    let stopwatch = Stopwatch {
        state: StopwatchState::Paused,
        elapsed_seconds: 4,
        elapsed_milliseconds: 0,
        laps_seconds: vec![2, 4],
        laps_milliseconds: vec![],
    };
    let rows = stopwatch_lap_rows_from(&stopwatch);
    assert_eq!(rows.len(), 2);
    assert_eq!(rows[0].number, 2);
    assert_eq!(rows[0].total, "00:00:04.00");
    assert_eq!(rows[1].split, "00:00:02.00");
    assert!(!rows[0].fastest && !rows[0].slowest);
    assert!(!rows[1].fastest && !rows[1].slowest);
}

#[test]
fn alm_01_accepts_single_digits_and_normalizes_storage() {
    assert_eq!(normalize_alarm_time("6:0").as_deref(), Some("06:00"));
    assert_eq!(normalize_alarm_time("0:0").as_deref(), Some("00:00"));
    assert_eq!(normalize_alarm_time("23:59").as_deref(), Some("23:59"));
    for invalid in ["24:00", "12:60", "-1:30", ":30", "7:", "7:00:00"] {
        assert_eq!(normalize_alarm_time(invalid), None);
    }
}

#[test]
fn tmr_01_tmr_02_input_masks_remove_invalid_characters_and_enforce_ranges() {
    assert_eq!(mask_timer_part("0a7", 1).as_deref(), Some("07"));
    assert_eq!(mask_timer_part("99", 2).as_deref(), Some("59"));
    assert_eq!(mask_timer_part("1234", 0).as_deref(), Some("123"));
    assert_eq!(mask_clock_time("1"), "1");
    assert_eq!(mask_clock_time("12"), "12:");
    assert_eq!(mask_clock_time("12x34"), "12:34");
    assert_eq!(mask_clock_time("2968"), "23:59");
}

#[test]
fn tmr_01_tmr_02_adjustment_uses_current_text_and_stops_at_limits() {
    assert_eq!(adjust_timer_part("17", 2, 1), Some(18));
    assert_eq!(adjust_timer_part("0", 0, -1), Some(0));
    assert_eq!(adjust_timer_part("23", 1, 1), Some(23));
    assert_eq!(adjust_timer_part("59", 3, 1), Some(59));
    assert_eq!(adjust_timer_part("", 2, 1), Some(1));
    assert_eq!(adjust_timer_part("invalid", 2, 1), None);
}

#[test]
fn tmr_02_duration_rejects_invalid_parts_without_silent_truncation() {
    assert_eq!(parse_timer_duration("0", "0", "5", "0"), Some((0, 0, 5, 0)));
    assert_eq!(
        parse_timer_duration("999", "23", "59", "59"),
        Some((999, 23, 59, 59))
    );
    for parts in [
        ["1000", "0", "0", "0"],
        ["0", "24", "0", "0"],
        ["0", "0", "60", "0"],
        ["0", "0", "0", "-1"],
        ["", "0", "5", "0"],
    ] {
        assert_eq!(
            parse_timer_duration(parts[0], parts[1], parts[2], parts[3]),
            None
        );
    }
}

#[test]
fn evt_08_recurrence_labels_round_trip() {
    for (label, recurrence) in [
        ("Does not repeat", EventRecurrence::NoRepeat),
        ("Daily", EventRecurrence::Daily),
        ("Weekly", EventRecurrence::Weekly),
        ("Monthly", EventRecurrence::Monthly),
        ("Yearly", EventRecurrence::Yearly),
    ] {
        assert_eq!(parse_event_recurrence(label), Some(recurrence));
        assert_eq!(event_recurrence_label(recurrence), label);
    }
    assert_eq!(parse_event_recurrence("Unknown"), None);
}

#[test]
fn evt_09_evt_12_tsk_12_alert_mapping_accepts_presets_and_custom_limits() {
    assert_eq!(
        parse_alert_with_custom("No alert", "", "At start"),
        Some(None)
    );
    assert_eq!(
        parse_alert_with_custom("At start", "", "At start"),
        Some(Some(0))
    );
    assert_eq!(
        parse_alert_with_custom("Custom", "10080", "At start"),
        Some(Some(10_080))
    );
    assert_eq!(parse_alert_with_custom("Custom", "0", "At start"), None);
    assert_eq!(parse_alert_with_custom("Custom", "10081", "At start"), None);
    assert_eq!(task_alert_label(0), "At due time");
    assert_eq!(task_alert_label(61), "Custom");
}

#[test]
fn normalized_alarm_time_normalizes_to_itself() {
    for typed in ["6:0", " 7 : 05 ", "23:9", "00:00"] {
        let once = normalize_alarm_time(typed).expect("a valid alarm time");
        assert_eq!(normalize_alarm_time(&once), Some(once.clone()));
    }
    assert_eq!(normalize_alarm_time(" 7 : 05 ").as_deref(), Some("07:05"));
}
