use oziclock::calendar::{
    days_in_month, is_leap, month_grid, rolling_week_grid, shift_day, shift_month, shift_year,
    week_grid, weekday_index, CalendarDate,
};

#[test]
fn month_grid_is_six_complete_weeks_with_adjacent_dates() {
    let days = month_grid(2026, 8, true);
    assert_eq!(days.len(), 42);
    assert_eq!(days[0].date, CalendarDate::new(2026, 7, 27).unwrap());
    assert!(days[0].outside_month);
    assert_eq!(days[41].date, CalendarDate::new(2026, 9, 6).unwrap());
}

#[test]
fn week_grid_respects_configured_first_day() {
    let selected = CalendarDate::new(2026, 8, 30).unwrap();
    assert_eq!(week_grid(selected, true)[0].date.day, 24);
    assert_eq!(week_grid(selected, false)[0].date.day, 30);
}

#[test]
fn rolling_week_advances_one_day_at_a_time() {
    let start = CalendarDate::new(2026, 8, 30).unwrap();
    let days = rolling_week_grid(start);

    assert_eq!(days[0].date, start);
    assert_eq!(days[6].date, CalendarDate::new(2026, 9, 5).unwrap());
    assert!(days[0].weekend);
    assert!(days[6].weekend);
}

#[test]
fn shift_day_crosses_month_boundaries() {
    let date = CalendarDate::new(2026, 8, 31).unwrap();
    assert_eq!(shift_day(date, 1), CalendarDate::new(2026, 9, 1).unwrap());
    assert_eq!(
        shift_day(date, -31),
        CalendarDate::new(2026, 7, 31).unwrap()
    );
}

#[test]
fn month_navigation_clamps_end_of_month() {
    let january = CalendarDate::new(2025, 1, 31).unwrap();
    assert_eq!(
        shift_month(january, 1),
        CalendarDate::new(2025, 2, 28).unwrap()
    );
}

#[test]
fn year_navigation_clamps_leap_day() {
    let leap_day = CalendarDate::new(2024, 2, 29).unwrap();
    assert_eq!(
        shift_year(leap_day, 1),
        CalendarDate::new(2025, 2, 28).unwrap()
    );
}

#[test]
fn invalid_dates_are_refused() {
    assert_eq!(CalendarDate::new(2025, 2, 29), None);
    assert_eq!(CalendarDate::new(2025, 13, 1), None);
    assert_eq!(CalendarDate::new(2025, 4, 0), None);
    assert!(CalendarDate::new(2024, 2, 29).is_some());
}

#[test]
fn leap_years_and_month_lengths() {
    assert!(is_leap(2000));
    assert!(!is_leap(1900));
    assert!(is_leap(2024));
    assert!(!is_leap(2025));
    assert_eq!(days_in_month(2024, 2), 29);
    assert_eq!(days_in_month(2025, 2), 28);
    assert_eq!(days_in_month(2025, 4), 30);
    assert_eq!(days_in_month(2025, 12), 31);
}

#[test]
fn weekday_index_counts_from_the_first_day_of_the_week() {
    let sunday = CalendarDate::new(2026, 8, 30).unwrap();
    assert_eq!(weekday_index(sunday, true), 6);
    assert_eq!(weekday_index(sunday, false), 0);
    let monday = CalendarDate::new(2026, 8, 31).unwrap();
    assert_eq!(weekday_index(monday, true), 0);
    assert_eq!(weekday_index(monday, false), 1);
}

#[test]
fn month_and_year_shifts_cross_years_and_round_trip() {
    let date = CalendarDate::new(2025, 12, 15).unwrap();
    assert_eq!(shift_month(date, 1), CalendarDate::new(2026, 1, 15).unwrap());
    assert_eq!(shift_month(date, -12), CalendarDate::new(2024, 12, 15).unwrap());
    assert_eq!(shift_month(shift_month(date, 5), -5), date);
    assert_eq!(shift_year(date, 0), date);
    assert_eq!(shift_day(shift_day(date, 400), -400), date);
}
