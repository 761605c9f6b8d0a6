use chrono::{DateTime, Utc};
use oziclock::calendar::CalendarDate;
use oziclock::event_time::{pending_attention, reconcile, recurrence_matches, starts_between};
use oziclock::ids::PlannerId;
use oziclock::instant::Instant;
use oziclock::planner::{AlertRule, Event, EventRecurrence, EventTime, Planner};

fn id(value: &str) -> PlannerId {
    PlannerId::new(value).unwrap()
}

fn utc(value: &str) -> Instant {
    let moment: DateTime<Utc> = value.parse().unwrap();
    Instant {
        seconds: moment.timestamp(),
        nanos: moment.timestamp_subsec_nanos(),
    }
}

fn standup(recurrence: EventRecurrence) -> Event {
    Event {
        id: id("standup"),
        title: "Standup".into(),
        time: EventTime::Timed {
            start_utc: "2026-09-07T09:00:00Z".into(),
            end_utc: "2026-09-07T09:30:00Z".into(),
            source_time_zone: "UTC".into(),
        },
        location: None,
        notes: None,
        link: None,
        color: None,
        alerts: vec![AlertRule {
            id: id("alert"),
            offset_minutes: 15,
            play_sound: false,
        }],
        recurrence,
    }
}

#[test]
fn recurring_event_alert_is_delivered_once_and_restored_until_acknowledged() {
    let mut planner = Planner::default();
    planner.events.push(standup(EventRecurrence::Daily));
    let after = utc("2026-09-08T08:44:00Z");
    let now = utc("2026-09-08T08:45:00Z");
    assert_eq!(reconcile(&mut planner, after, now, "UTC").len(), 1);
    assert!(reconcile(&mut planner, after, now, "UTC").is_empty());
    assert_eq!(pending_attention(&planner).len(), 1);
    planner.event_receipts[0].acknowledged_at_utc = Some("2026-09-08T08:45:00+00:00".into());
    assert!(pending_attention(&planner).is_empty());
}

#[test]
fn delivered_receipt_names_the_occurrence_and_the_check_moment() {
    let mut planner = Planner::default();
    planner.events.push(standup(EventRecurrence::Daily));
    let after = utc("2026-09-08T08:44:00Z");
    let now = utc("2026-09-08T08:45:00Z");
    let delivered = reconcile(&mut planner, after, now, "UTC");
    assert_eq!(delivered.len(), 1);
    assert_eq!(delivered[0].occurrence_utc, "2026-09-08T09:00:00+00:00");
    assert_eq!(delivered[0].alert_offset_minutes, 15);
    assert_eq!(delivered[0].delivered_at_utc, "2026-09-08T08:45:00+00:00");
    assert_eq!(planner.event_checked_at_utc.as_deref(), Some("2026-09-08T08:45:00+00:00"));
}

#[test]
fn alert_outside_the_window_is_not_delivered() {
    let mut planner = Planner::default();
    planner.events.push(standup(EventRecurrence::Daily));
    let after = utc("2026-09-08T08:45:00Z");
    let now = utc("2026-09-08T08:50:00Z");
    assert!(reconcile(&mut planner, after, now, "UTC").is_empty());
    assert_eq!(planner.event_checked_at_utc.as_deref(), Some("2026-09-08T08:50:00+00:00"));
}

#[test]
fn single_event_fires_only_on_its_own_date() {
    let mut planner = Planner::default();
    planner.events.push(standup(EventRecurrence::NoRepeat));
    let after = utc("2026-09-08T08:44:00Z");
    let now = utc("2026-09-08T08:45:00Z");
    assert!(reconcile(&mut planner, after, now, "UTC").is_empty());
    let after = utc("2026-09-07T08:44:00Z");
    let now = utc("2026-09-07T08:45:00Z");
    assert_eq!(reconcile(&mut planner, after, now, "UTC").len(), 1);
}

#[test]
fn occurrence_starts_follow_the_recurrence() {
    let event = standup(EventRecurrence::Weekly);
    let starts = starts_between(&event, utc("2026-09-07T00:00:00Z"), utc("2026-09-20T00:00:00Z"), "UTC");
    assert!(starts.contains(&utc("2026-09-07T09:00:00Z")));
    assert!(starts.contains(&utc("2026-09-14T09:00:00Z")));
    assert!(!starts.contains(&utc("2026-09-08T09:00:00Z")));
}

#[test]
fn recurrence_matching_by_kind() {
    let origin = CalendarDate { year: 2026, month: 1, day: 31 };
    let feb = CalendarDate { year: 2026, month: 2, day: 28 };
    let mar = CalendarDate { year: 2026, month: 3, day: 31 };
    let before = CalendarDate { year: 2025, month: 12, day: 31 };
    assert!(!recurrence_matches(origin, feb, EventRecurrence::Monthly));
    assert!(recurrence_matches(origin, mar, EventRecurrence::Monthly));
    assert!(!recurrence_matches(origin, before, EventRecurrence::Daily));
    assert!(recurrence_matches(origin, origin, EventRecurrence::NoRepeat));
    assert!(!recurrence_matches(origin, mar, EventRecurrence::NoRepeat));
    assert!(recurrence_matches(origin, CalendarDate { year: 2027, month: 1, day: 31 }, EventRecurrence::Yearly));
}
