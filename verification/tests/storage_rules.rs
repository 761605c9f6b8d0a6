use chrono::{DateTime, Utc};
use oziclock::clock::Clock;
use oziclock::ids::PlannerId;
use oziclock::instant::Instant;
use oziclock::planner::{
    AlarmOccurrenceStatus, AlarmReceipt, EventReceipt, Planner,
};
use oziclock::settings::{
    check_settings_move, default_alert_sound_duration_seconds, default_border_color,
    default_timer_draft_minutes, prune_alarm_receipts, prune_event_receipts, SettingsMoveError,
};
use oziclock::sync::{
    configure_sync_profile, load_sync_state, preview_receive_sync_profile,
    preview_send_sync_profile, receive_sync_profile, send_sync_profile, PlannerAppearance,
    PortablePlanner, PortableSettings, SyncError, SyncGroups, SyncProfile, SyncState,
};

fn utc(value: &str) -> Instant {
    let moment: DateTime<Utc> = value.parse().unwrap();
    Instant {
        seconds: moment.timestamp(),
        nanos: moment.timestamp_subsec_nanos(),
    }
}

fn clock(label: &str, is_main: bool) -> Clock {
    Clock {
        label: label.into(),
        time_zone: "UTC".into(),
        color: "#010203".into(),
        is_main,
    }
}

fn local_settings(clocks: Vec<Clock>) -> PortableSettings {
    PortableSettings {
        planner: PortablePlanner {
            events: vec![],
            tasks: vec![],
            reminders: vec![],
        },
        clocks,
        appearance: PlannerAppearance::default(),
    }
}

#[test]
fn alarm_receipts_are_retained_for_thirty_days() {
    let mut planner = Planner::default();
    let alarm_id = PlannerId::new("alarm").unwrap();
    let receipt = |recorded_at_utc: &str| AlarmReceipt {
        alarm_id: alarm_id.clone(),
        occurrence_utc: recorded_at_utc.into(),
        status: AlarmOccurrenceStatus::Delivered,
        recorded_at_utc: recorded_at_utc.into(),
        acknowledged_at_utc: None,
    };
    planner.alarm_receipts = vec![
        receipt("2026-08-05T11:59:59Z"),
        receipt("2026-08-05T12:00:00Z"),
        receipt("2026-09-04T12:00:00Z"),
        receipt("invalid"),
    ];

    prune_alarm_receipts(&mut planner, utc("2026-09-04T12:00:00Z"));

    assert_eq!(planner.alarm_receipts.len(), 3);
    assert_eq!(
        planner.alarm_receipts[0].recorded_at_utc,
        "2026-08-05T12:00:00Z"
    );
    assert_eq!(planner.alarm_receipts[2].recorded_at_utc, "invalid");
}

#[test]
fn acknowledged_event_history_expires_after_thirty_days() {
    let mut planner = Planner::default();
    let receipt = |delivered: &str, acknowledged: bool| EventReceipt {
        event_id: PlannerId::new("event").unwrap(),
        occurrence_utc: delivered.into(),
        alert_offset_minutes: 0,
        delivered_at_utc: delivered.into(),
        acknowledged_at_utc: if acknowledged { Some(delivered.into()) } else { None },
    };
    planner.event_receipts = vec![
        receipt("2026-08-01T00:00:00Z", true),
        receipt("2026-08-01T00:00:00Z", false),
        receipt("2026-09-01T00:00:00Z", true),
        receipt("garbled", true),
    ];
    prune_event_receipts(&mut planner, utc("2026-09-04T12:00:00Z"));
    assert_eq!(planner.event_receipts.len(), 3);
    assert!(planner.event_receipts[0].acknowledged_at_utc.is_none());
    assert_eq!(planner.event_receipts[2].delivered_at_utc, "garbled");
}

#[test]
fn configuring_a_profile_needs_a_folder_and_a_group() {
    let groups = SyncGroups {
        planner: true,
        ..SyncGroups::default()
    };
    assert_eq!(
        configure_sync_profile("/missing".into(), false, groups).unwrap_err(),
        SyncError::FolderNotFound
    );
    assert_eq!(
        configure_sync_profile("/profile".into(), true, SyncGroups::default()).unwrap_err(),
        SyncError::NoGroupSelected
    );
    let state = configure_sync_profile("/profile".into(), true, groups).unwrap();
    assert_eq!(state.profile_directory.as_deref(), Some("/profile"));
    assert_eq!(state.groups, groups);
    assert_eq!(state.last_common_revision, None);
    assert_eq!(
        SyncError::NoGroupSelected.message(),
        "select at least one group for the sync profile"
    );
}

#[test]
fn previews_report_the_profile_without_changes() {
    let state = load_sync_state(None);
    assert_eq!(
        preview_send_sync_profile(&state, true, None).unwrap_err(),
        SyncError::NotConfigured
    );
    let state = configure_sync_profile(
        "/profile".into(),
        true,
        SyncGroups {
            clocks: true,
            ..SyncGroups::default()
        },
    )
    .unwrap();
    assert_eq!(
        preview_receive_sync_profile(&state, false, None).unwrap_err(),
        SyncError::FolderUnavailable
    );
    let missing = preview_send_sync_profile(&state, true, None).unwrap();
    assert!(!missing.profile_exists);
    assert_eq!(missing.available_groups, SyncGroups::default());
    let profile = SyncProfile {
        revision: 4,
        clocks: Some(vec![clock("Remote", true)]),
        ..SyncProfile::default()
    };
    let found = preview_receive_sync_profile(&state, true, Some(&profile)).unwrap();
    assert!(found.profile_exists);
    assert_eq!(found.profile_revision, Some(4));
    assert!(found.available_groups.clocks && !found.available_groups.planner);
}

#[test]
fn set_11_send_preserves_profile_groups_not_owned_by_this_device() {
    let remote_clocks = vec![clock("Remote", true)];
    let existing_profile = SyncProfile {
        clocks: Some(remote_clocks.clone()),
        ..SyncProfile::default()
    };
    let mut state = configure_sync_profile(
        "/profile".into(),
        true,
        SyncGroups {
            planner: true,
            ..SyncGroups::default()
        },
    )
    .unwrap();

    let profile = send_sync_profile(
        &mut state,
        true,
        Some(existing_profile),
        local_settings(vec![clock("Local", true)]),
    )
    .unwrap();

    assert_eq!(profile.clocks.as_ref().unwrap()[0].label, "Remote");
    assert!(profile.planner.is_some());
    assert_eq!(profile.revision, 1);
    assert_eq!(state.last_common_revision, Some(1));
}

#[test]
fn set_11_receive_keeps_local_only_settings() {
    let remote_appearance = PlannerAppearance {
        light_theme: true,
        ..PlannerAppearance::default()
    };
    let profile = SyncProfile {
        revision: 7,
        appearance: Some(remote_appearance),
        clocks: Some(vec![clock("Remote", false)]),
        ..SyncProfile::default()
    };
    let mut state = configure_sync_profile(
        "/profile".into(),
        true,
        SyncGroups {
            appearance: true,
            ..SyncGroups::default()
        },
    )
    .unwrap();
    let mut planner = Planner::default();
    let mut clocks = vec![clock("Local", true)];
    let mut appearance = PlannerAppearance::default();

    receive_sync_profile(&mut state, Some(profile), &mut planner, &mut clocks, &mut appearance)
        .unwrap();

    assert!(appearance.light_theme);
    assert_eq!(clocks[0].label, "Local");
    assert_eq!(state.last_common_revision, Some(7));
}

#[test]
fn received_clocks_get_exactly_one_main_clock_and_empty_clocks_are_refused() {
    let groups = SyncGroups {
        clocks: true,
        ..SyncGroups::default()
    };
    let mut state = configure_sync_profile("/profile".into(), true, groups).unwrap();
    let mut planner = Planner::default();
    let mut clocks = vec![clock("Local", true)];
    let mut appearance = PlannerAppearance::default();
    let profile = SyncProfile {
        revision: 3,
        clocks: Some(vec![clock("A", false), clock("B", true), clock("C", true)]),
        ..SyncProfile::default()
    };
    receive_sync_profile(&mut state, Some(profile), &mut planner, &mut clocks, &mut appearance)
        .unwrap();
    assert_eq!(
        clocks.iter().map(|c| c.is_main).collect::<Vec<_>>(),
        vec![false, true, false]
    );
    let empty = SyncProfile {
        revision: 9,
        clocks: Some(vec![]),
        ..SyncProfile::default()
    };
    assert_eq!(
        receive_sync_profile(&mut state, Some(empty), &mut planner, &mut clocks, &mut appearance),
        Err(SyncError::NoClocks)
    );
    assert_eq!(clocks.len(), 3);
    assert_eq!(state.last_common_revision, Some(3));
    assert_eq!(
        receive_sync_profile(&mut state, None, &mut planner, &mut clocks, &mut appearance),
        Err(SyncError::ProfileMissing)
    );
    let mut unconfigured = SyncState::default();
    assert_eq!(
        receive_sync_profile(&mut unconfigured, None, &mut planner, &mut clocks, &mut appearance),
        Err(SyncError::NotConfigured)
    );
}

#[test]
fn settings_moves_and_defaults() {
    assert_eq!(
        check_settings_move("/x".into(), false, false, false).unwrap_err(),
        SettingsMoveError::FolderNotFound
    );
    assert_eq!(
        check_settings_move("/x".into(), true, false, true).unwrap_err(),
        SettingsMoveError::DocumentExists
    );
    let moved = check_settings_move("/x".into(), true, false, false).unwrap();
    assert_eq!(moved.directory, "/x");
    assert!(!moved.uses_default);
    assert!(check_settings_move("/d".into(), true, true, true).unwrap().uses_default);
    assert_eq!(default_border_color(), "#000000");
    assert_eq!(default_alert_sound_duration_seconds(), 20);
    assert_eq!(default_timer_draft_minutes(), 5);
}
