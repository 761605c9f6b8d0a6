use chrono::{DateTime, Utc};
use oziclock::alarm_time::{next_once, set_enabled};
use oziclock::ids::PlannerId;
use oziclock::instant::Instant;
use oziclock::planner::{Alarm, AlarmSchedule};

fn utc(value: &str) -> Instant {
    let moment: DateTime<Utc> = value.parse().unwrap();
    Instant {
        seconds: moment.timestamp(),
        nanos: moment.timestamp_subsec_nanos(),
    }
}

#[test]
fn chooses_today_or_tomorrow_and_rolls_over_year() {
    let now = utc("2026-12-31T10:00:00Z");
    assert_eq!(
        next_once("11:00", "UTC", now).unwrap().1,
        utc("2026-12-31T11:00:00Z")
    );
    assert_eq!(
        next_once("10:00", "UTC", now).unwrap().1,
        utc("2027-01-01T10:00:00Z")
    );
    assert_eq!(
        next_once("09:00", "UTC", now).unwrap().1,
        utc("2027-01-01T09:00:00Z")
    );
}

#[test]
fn uses_alarm_zone_not_utc_date() {
    let (date, instant) = next_once("08:00", "Asia/Tokyo", utc("2026-09-04T23:30:00Z")).unwrap();
    assert_eq!(
        (date.year, date.month, date.day),
        (2026, 9, 6)
    );
    assert_eq!(instant, utc("2026-09-05T23:00:00Z"));
}

#[test]
fn dst_gap_uses_first_valid_minute() {
    assert_eq!(
        next_once("02:30", "Europe/Berlin", utc("2026-03-29T00:00:00Z"))
            .unwrap()
            .1,
        utc("2026-03-29T01:00:00Z")
    );
}

#[test]
fn dst_overlap_uses_earlier_occurrence_only() {
    assert_eq!(
        next_once("02:30", "Europe/Berlin", utc("2026-10-25T00:00:00Z"))
            .unwrap()
            .1,
        utc("2026-10-25T00:30:00Z")
    );
    assert_eq!(
        next_once("02:30", "Europe/Berlin", utc("2026-10-25T00:45:00Z"))
            .unwrap()
            .1,
        utc("2026-10-26T01:30:00Z")
    );
}

#[test]
fn rejects_invalid_inputs() {
    let now = utc("2026-09-04T00:00:00Z");
    assert!(next_once("25:00", "UTC", now).is_none());
    assert!(next_once("12:00", "invalid", now).is_none());
}

#[test]
fn rearming_once_updates_date_but_disabling_does_not() {
    let mut alarm = Alarm {
        id: PlannerId::new("a").unwrap(),
        title: "Alarm".into(),
        enabled: true,
        time_zone: "UTC".into(),
        schedule: AlarmSchedule::Once {
            local_date: "2020-01-01".into(),
            local_time: "07:00".into(),
        },
    };
    let original = alarm.schedule.clone();
    let now = utc("2026-09-04T08:00:00Z");
    assert!(set_enabled(&mut alarm, false, now));
    assert_eq!(alarm.schedule, original);
    assert!(set_enabled(&mut alarm, true, now));
    assert_eq!(
        alarm.schedule,
        AlarmSchedule::Once {
            local_date: "2026-09-05".into(),
            local_time: "07:00".into()
        }
    );
    assert!(alarm.enabled);
}

#[test]
fn rearming_in_an_unknown_zone_is_refused() {
    let mut alarm = Alarm {
        id: PlannerId::new("a").unwrap(),
        title: "Alarm".into(),
        enabled: false,
        time_zone: "Nowhere/Special".into(),
        schedule: AlarmSchedule::Once {
            local_date: "2020-01-01".into(),
            local_time: "07:00".into(),
        },
    };
    assert!(!set_enabled(&mut alarm, true, utc("2026-09-04T08:00:00Z")));
    assert!(!alarm.enabled);
    let mut weekly = Alarm {
        schedule: AlarmSchedule::Weekly {
            local_time: "07:00".into(),
            weekdays: vec![1],
        },
        ..alarm
    };
    assert!(set_enabled(&mut weekly, true, utc("2026-09-04T08:00:00Z")));
    assert!(weekly.enabled);
}
