use chrono::{Datelike, NaiveDateTime, Timelike};
use oziclock::calendar::CalendarDate;
use oziclock::colors::{parse_color, type_colors, valid_color, Rgb};
use oziclock::inputs::default_alarm_time;
use oziclock::sync::PlannerAppearance;
use oziclock::zoned::LocalDateTime;
use oziclock::views::{date_picker_days, drag_moved, position_changed};

fn rgb(red: u8, green: u8, blue: u8) -> Rgb {
    Rgb { red, green, blue }
}

fn date(year: i32, month: u32, day: u32) -> CalendarDate {
    CalendarDate { year, month, day }
}

#[test]
fn invalid_hex_uses_white_fallback() {
    assert_eq!(parse_color("invalid"), rgb(255, 255, 255));
}

#[test]
fn hex_colors_read_six_or_eight_digits() {
    assert_eq!(parse_color("#FF0000"), rgb(255, 0, 0));
    assert_eq!(parse_color("##123456"), rgb(0x12, 0x34, 0x56));
    assert_eq!(parse_color("#80112233"), rgb(0x11, 0x22, 0x33));
    assert_eq!(parse_color("#12345"), rgb(255, 255, 255));
    assert_eq!(valid_color("b99655", "#000000"), rgb(0xB9, 0x96, 0x55));
    assert_eq!(valid_color("nope", "#547D78"), rgb(0x54, 0x7D, 0x78));
}

#[test]
fn set_10_accent_override_preserves_individual_colors() {
    let mut appearance = PlannerAppearance::default();
    let accent = parse_color("#123456");
    assert_eq!(type_colors(&appearance, accent), [accent; 5]);
    appearance.use_accent_color = false;
    let individual = type_colors(&appearance, accent);
    assert_eq!(individual[3], parse_color("#B99655"));
    assert_eq!(individual[4], parse_color("#547D78"));
    appearance.use_accent_color = true;
    assert_eq!(type_colors(&appearance, accent), [accent; 5]);
    appearance.use_accent_color = false;
    assert_eq!(type_colors(&appearance, accent), individual);
    appearance.event_color = "invalid".into();
    assert_eq!(type_colors(&appearance, accent)[3], parse_color("#B99655"));
}

#[test]
fn detects_only_a_real_window_move() {
    let origin = (100, 200);
    assert!(!position_changed(Some(origin), Some(origin)));
    assert!(position_changed(Some(origin), Some((101, 200))));
    assert!(!position_changed(None, Some(origin)));
}

#[test]
fn drag_counts_a_reported_move_or_a_new_position() {
    assert!(drag_moved(true, None, None));
    assert!(!drag_moved(false, None, Some((1, 1))));
    assert!(drag_moved(false, Some((0, 0)), Some((0, 1))));
    assert!(!drag_moved(false, Some((0, 0)), None));
}

#[test]
fn rem_11_date_picker_is_six_monday_first_weeks_with_past_dates_disabled() {
    let today = date(2026, 9, 8);
    let selected = date(2026, 9, 14);
    let days = date_picker_days(today, Some(selected), today);

    assert_eq!(days.len(), 42);
    assert_eq!(days.first().unwrap().date.as_str(), "2026-08-31");
    assert_eq!(days.last().unwrap().date.as_str(), "2026-10-11");
    assert!(!days[7].enabled);
    assert!(days[8].today);
    assert!(days[14].selected);
    assert!(!days.first().unwrap().in_month);
    assert!(days[8].in_month);
    assert_eq!(days[8].label, "8");
}

#[test]
fn alm_14_default_rounds_up_to_five_minutes_then_adds_five() {
    let at = |value| {
        let now = NaiveDateTime::parse_from_str(value, "%Y-%m-%d %H:%M:%S").unwrap();
        LocalDateTime {
            date: date(now.year(), now.month(), now.day()),
            hour: now.hour(),
            minute: now.minute(),
            second: now.second(),
            nanos: now.nanosecond(),
        }
    };
    assert_eq!(default_alarm_time(at("2026-09-05 10:02:00")), "10:10");
    assert_eq!(default_alarm_time(at("2026-09-05 10:05:00")), "10:10");
    assert_eq!(default_alarm_time(at("2026-09-05 10:05:01")), "10:15");
    assert_eq!(default_alarm_time(at("2026-09-05 23:58:00")), "00:05");
}
