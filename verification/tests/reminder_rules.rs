use chrono::{DateTime, Utc};
use oziclock::ids::PlannerId;
use oziclock::instant::Instant;
use oziclock::planner::{Planner, Reminder, ReminderRecurrence, ReminderSchedule};
use oziclock::reminder_time::{
    due_utc, next_occurrence, pending_attention, reconcile, recurring_schedule, resolve_local,
};

fn utc(value: &str) -> Instant {
    let moment: DateTime<Utc> = value.parse().unwrap();
    Instant {
        seconds: moment.timestamp(),
        nanos: moment.timestamp_subsec_nanos(),
    }
}

fn moment(instant: Instant) -> DateTime<Utc> {
    DateTime::from_timestamp(instant.seconds, instant.nanos).unwrap()
}

fn reminder(at: &str) -> Reminder {
    Reminder {
        id: PlannerId::new("reminder").unwrap(),
        title: "Stretch".into(),
        schedule: ReminderSchedule::Absolute {
            at_utc: at.into(),
            source_time_zone: "UTC".into(),
        },
        alerts: vec![],
        enabled: true,
        attention_pending: false,
        attention_due_utc: None,
    }
}

#[test]
fn due_reminder_is_delivered_once_and_restored_until_dismissed() {
    let mut planner = Planner {
        reminders: vec![reminder("2026-09-05T10:00:00Z")],
        ..Planner::default()
    };
    let now = utc("2026-09-05T10:00:01Z");
    assert_eq!(reconcile(&mut planner, now).len(), 1);
    assert!(!planner.reminders[0].enabled);
    assert_eq!(pending_attention(&planner).len(), 1);
    assert!(reconcile(&mut planner, now).is_empty());
}

#[test]
fn invalid_and_future_reminders_do_not_fire() {
    let now = utc("2026-09-05T10:00:00Z");
    for at in ["invalid", "2026-09-05T10:00:01Z"] {
        let mut planner = Planner {
            reminders: vec![reminder(at)],
            ..Planner::default()
        };
        assert!(reconcile(&mut planner, now).is_empty());
    }
}

#[test]
fn resolves_local_date_and_time_in_the_selected_zone() {
    assert_eq!(
        moment(resolve_local("2026-09-05", "12:30", "Europe/Kyiv").unwrap()).to_rfc3339(),
        "2026-09-05T09:30:00+00:00"
    );
    assert!(resolve_local("invalid", "12:30", "UTC").is_none());
    assert!(resolve_local("2026-09-05", "25:00", "UTC").is_none());
}

#[test]
fn recurring_reminder_advances_and_stays_enabled_after_delivery() {
    let schedule =
        recurring_schedule(ReminderRecurrence::Daily, "2026-09-05", "10:00", "UTC").unwrap();
    let mut reminder = reminder("2026-09-05T10:00:00Z");
    reminder.schedule = schedule;
    let mut planner = Planner {
        reminders: vec![reminder],
        ..Planner::default()
    };
    let now = utc("2026-09-05T10:00:01Z");
    assert_eq!(reconcile(&mut planner, now).len(), 1);
    assert!(planner.reminders[0].enabled);
    assert!(planner.reminders[0].attention_pending);
    assert_eq!(
        moment(due_utc(&planner.reminders[0].schedule).unwrap()).to_rfc3339(),
        "2026-09-06T10:00:00+00:00"
    );
}

#[test]
fn weekly_uses_selected_days_and_monthly_clamps_then_recovers_day() {
    let weekly = recurring_schedule(
        ReminderRecurrence::Weekly {
            weekdays: vec![0, 4],
        },
        "2026-09-05",
        "09:00",
        "UTC",
    )
    .unwrap();
    assert_eq!(
        moment(due_utc(&weekly).unwrap()).date_naive().to_string(),
        "2026-09-07"
    );

    let mut monthly = recurring_schedule(
        ReminderRecurrence::Monthly { day: 31 },
        "2027-01-31",
        "09:00",
        "UTC",
    )
    .unwrap();
    let february = moment(next_occurrence(&monthly).unwrap());
    assert_eq!(february.date_naive().to_string(), "2027-02-28");
    if let ReminderSchedule::Recurring { next_at_utc, .. } = &mut monthly {
        *next_at_utc = february.to_rfc3339();
    }
    assert_eq!(
        moment(next_occurrence(&monthly).unwrap())
            .date_naive()
            .to_string(),
        "2027-03-31"
    );
}

#[test]
fn yearly_february_29_clamps_in_non_leap_years() {
    let yearly = recurring_schedule(
        ReminderRecurrence::Yearly { month: 2, day: 29 },
        "2028-02-29",
        "08:00",
        "UTC",
    )
    .unwrap();
    assert_eq!(
        moment(next_occurrence(&yearly).unwrap())
            .date_naive()
            .to_string(),
        "2029-02-28"
    );
}

#[test]
fn missed_occurrences_are_skipped_after_a_restart() {
    let schedule =
        recurring_schedule(ReminderRecurrence::Daily, "2026-09-01", "10:00", "UTC").unwrap();
    let mut waiting = reminder("2026-09-01T10:00:00Z");
    waiting.schedule = schedule;
    waiting.attention_pending = true;
    waiting.attention_due_utc = Some("2026-09-01T10:00:00+00:00".into());
    let mut planner = Planner {
        reminders: vec![waiting],
        ..Planner::default()
    };
    assert!(reconcile(&mut planner, utc("2026-09-05T12:00:00Z")).is_empty());
    assert_eq!(
        moment(due_utc(&planner.reminders[0].schedule).unwrap()).to_rfc3339(),
        "2026-09-06T10:00:00+00:00"
    );
}

#[test]
fn due_reminders_are_delivered_earliest_first_and_gaps_move_forward() {
    let mut later = reminder("2026-09-05T11:00:00Z");
    later.id = PlannerId::new("later").unwrap();
    let mut earlier = reminder("2026-09-05T09:00:00Z");
    earlier.id = PlannerId::new("earlier").unwrap();
    let mut planner = Planner {
        reminders: vec![later, earlier],
        ..Planner::default()
    };
    let delivered = reconcile(&mut planner, utc("2026-09-05T12:00:00Z"));
    assert_eq!(
        delivered,
        vec![PlannerId::new("earlier").unwrap(), PlannerId::new("later").unwrap()]
    );
    assert_eq!(
        pending_attention(&planner),
        vec![PlannerId::new("earlier").unwrap(), PlannerId::new("later").unwrap()]
    );
    assert_eq!(
        moment(resolve_local("2026-03-29", "02:30", "Europe/Berlin").unwrap()).to_rfc3339(),
        "2026-03-29T01:00:00+00:00"
    );
}
