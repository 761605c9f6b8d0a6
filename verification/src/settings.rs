//! Settings defaults, the settings folder rules, and how long delivery
//! history is kept.

use vstd::prelude::*;
use crate::instant::{
    is_not_after, not_after, parse_instant, representable, rfc3339_instant, subtract_minutes,
    Instant, EARLIEST_SECONDS,
};
use crate::planner::{AlarmReceipt, EventReceipt, Planner};

verus! {

/// Schema version of a settings document written by this version.
pub fn default_schema_version() -> (version: u32)
    ensures
        version == 1,
{
    1
}

/// Minutes a new countdown draft starts with.
pub fn default_timer_draft_minutes() -> (minutes: u8)
    ensures
        minutes == 5,
{
    5
}

/// Border color of the clock window when none is set.
pub fn default_border_color() -> (color: String)
    ensures
        color@ == "#000000"@,
{
    "#000000".to_owned()
}

/// The calendar starts in its light theme.
pub fn default_calendar_light_theme() -> (light: bool)
    ensures
        light,
{
    true
}

/// Calendar weeks start on Monday unless chosen otherwise.
pub fn default_calendar_monday_first() -> (monday_first: bool)
    ensures
        monday_first,
{
    true
}

/// Each kind of calendar item is shown unless filtered out.
pub fn default_calendar_indicator_filter() -> (shown: bool)
    ensures
        shown,
{
    true
}

/// Seconds an alert sound plays unless chosen otherwise.
pub fn default_alert_sound_duration_seconds() -> (seconds: u8)
    ensures
        seconds == 20,
{
    20
}

/// Where the settings document lives.
#[derive(Clone, Debug)]
pub struct SettingsLocation {
    pub directory: String,
    pub uses_default: bool,
}

/// Why the settings document cannot move.
#[derive(Clone, Copy, Debug, PartialEq, Eq, Structural)]
pub enum SettingsMoveError {
    /// The chosen folder does not exist.
    FolderNotFound,
    /// The chosen folder already holds another settings document.
    DocumentExists,
}

/// The message shown for a refused move.
pub open spec fn settings_move_error_text(error: SettingsMoveError) -> Seq<char> {
    match error {
        SettingsMoveError::FolderNotFound => "choose an existing folder for the settings file"@,
        SettingsMoveError::DocumentExists => "the selected folder already contains settings.json"@,
    }
}

impl SettingsMoveError {
    /// The message shown for this refusal.
    pub fn message(self) -> (text: &'static str)
        ensures
            text@ == settings_move_error_text(self),
    {
        match self {
            SettingsMoveError::FolderNotFound => "choose an existing folder for the settings file",
            SettingsMoveError::DocumentExists => "the selected folder already contains settings.json",
        }
    }
}

/// Decides a move of the settings document into `directory`: the folder
/// must exist, and unless it is the default folder it must not hold a
/// settings document yet. Gives the location the document then has.
pub fn check_settings_move(
    directory: String,
    directory_is_folder: bool,
    target_is_default: bool,
    target_exists: bool,
) -> (location: Result<SettingsLocation, SettingsMoveError>)
    ensures
        !directory_is_folder ==> location == Err::<SettingsLocation, SettingsMoveError>(SettingsMoveError::FolderNotFound),
        directory_is_folder && !target_is_default && target_exists ==> location == Err::<SettingsLocation, SettingsMoveError>(SettingsMoveError::DocumentExists),
        directory_is_folder && (target_is_default || !target_exists) ==> location == Ok::<SettingsLocation, SettingsMoveError>(SettingsLocation { directory, uses_default: target_is_default }),
{
    if !directory_is_folder {
        return Err(SettingsMoveError::FolderNotFound);
    }
    if !target_is_default && target_exists {
        return Err(SettingsMoveError::DocumentExists);
    }
    Ok(SettingsLocation { directory, uses_default: target_is_default })
}

/// Minutes of delivery history that are kept: thirty days.
pub const RETENTION_MINUTES: i64 = 43_200;

/// A moment from which thirty days back is still a moment the calendar holds.
pub open spec fn retention_in_range(now: Instant) -> bool {
    &&& representable(now)
    &&& EARLIEST_SECONDS <= now.seconds - RETENTION_MINUTES * 60
}

/// The oldest moment whose history is kept at `now`.
/// From a leap second, the step back first leaves it: the extra billion
/// nanoseconds are dropped and the seconds count one more.
pub open spec fn oldest_retained(now: Instant) -> Instant {
    if now.nanos >= 1_000_000_000 {
        Instant { seconds: (now.seconds + 1 - RETENTION_MINUTES * 60) as i64, nanos: (now.nanos - 1_000_000_000) as u32 }
    } else {
        Instant { seconds: (now.seconds - RETENTION_MINUTES * 60) as i64, nanos: now.nanos }
    }
}

/// An alarm receipt is kept unless it was recorded, readably, before the boundary.
pub open spec fn keeps_alarm_receipt(oldest: Instant) -> spec_fn(AlarmReceipt) -> bool {
    |receipt: AlarmReceipt| match rfc3339_instant(receipt.recorded_at_utc@) {
        Some(recorded) => not_after(oldest, recorded),
        None => true,
    }
}

/// An event receipt is kept while unacknowledged, and otherwise unless it
/// was delivered, readably, before the boundary.
pub open spec fn keeps_event_receipt(oldest: Instant) -> spec_fn(EventReceipt) -> bool {
    |receipt: EventReceipt| receipt.acknowledged_at_utc is None || match rfc3339_instant(
        receipt.delivered_at_utc@,
    ) {
        Some(delivered) => not_after(oldest, delivered),
        None => true,
    }
}

fn retention_boundary(now: Instant) -> (oldest: Instant)
    requires
        retention_in_range(now),
    ensures
        oldest == oldest_retained(now),
{
    match subtract_minutes(now, RETENTION_MINUTES) {
        Some(oldest) => oldest,
        None => now,
    }
}

/// Removes alarm history recorded more than thirty days before `now`;
/// unreadable records are kept.
pub fn prune_alarm_receipts(planner: &mut Planner, now: Instant)
    requires
        retention_in_range(now),
    ensures
        final(planner).alarm_receipts@ == old(planner).alarm_receipts@.filter(keeps_alarm_receipt(oldest_retained(now))),
        final(planner).events == old(planner).events,
        final(planner).event_receipts == old(planner).event_receipts,
        final(planner).event_checked_at_utc == old(planner).event_checked_at_utc,
        final(planner).tasks == old(planner).tasks,
        final(planner).reminders == old(planner).reminders,
        final(planner).alarms == old(planner).alarms,
        final(planner).alarm_checked_at_utc == old(planner).alarm_checked_at_utc,
        final(planner).alarm_snoozes == old(planner).alarm_snoozes,
        final(planner).timers == old(planner).timers,
        final(planner).stopwatch == old(planner).stopwatch,
{
    let oldest = retention_boundary(now);
    let ghost source = planner.alarm_receipts@;
    let ghost keep = keeps_alarm_receipt(oldest);
    let mut pending: Vec<AlarmReceipt> = Vec::new();
    std::mem::swap(&mut pending, &mut planner.alarm_receipts);
    let mut kept: Vec<AlarmReceipt> = Vec::new();
    let ghost mut done: int = 0;
    while pending.len() > 0
        invariant
            0 <= done <= source.len(),
            pending@ == source.subrange(done, source.len() as int),
            kept@ == source.subrange(0, done).filter(keep),
            keep == keeps_alarm_receipt(oldest),
        decreases pending@.len(),
    {
        let receipt = pending.remove(0);
        proof {
            assert(receipt == source[done]);
            assert(source.subrange(0, done + 1) =~= source.subrange(0, done).push(receipt));
            source.subrange(0, done).lemma_filter_push(receipt, keep);
        }
        let keeps = match parse_instant(receipt.recorded_at_utc.as_str()) {
            Some(recorded) => is_not_after(oldest, recorded),
            None => true,
        };
        if keeps {
            kept.push(receipt);
        }
        proof {
            done = done + 1;
            assert(pending@ =~= source.subrange(done, source.len() as int));
        }
    }
    assert(source.subrange(0, done) =~= source);
    planner.alarm_receipts = kept;
}

/// Removes acknowledged event history delivered more than thirty days
/// before `now`; unacknowledged and unreadable records are kept.
pub fn prune_event_receipts(planner: &mut Planner, now: Instant)
    requires
        retention_in_range(now),
    ensures
        final(planner).event_receipts@ == old(planner).event_receipts@.filter(keeps_event_receipt(oldest_retained(now))),
        final(planner).events == old(planner).events,
        final(planner).event_checked_at_utc == old(planner).event_checked_at_utc,
        final(planner).tasks == old(planner).tasks,
        final(planner).reminders == old(planner).reminders,
        final(planner).alarms == old(planner).alarms,
        final(planner).alarm_receipts == old(planner).alarm_receipts,
        final(planner).alarm_checked_at_utc == old(planner).alarm_checked_at_utc,
        final(planner).alarm_snoozes == old(planner).alarm_snoozes,
        final(planner).timers == old(planner).timers,
        final(planner).stopwatch == old(planner).stopwatch,
{
    let oldest = retention_boundary(now);
    let ghost source = planner.event_receipts@;
    let ghost keep = keeps_event_receipt(oldest);
    let mut pending: Vec<EventReceipt> = Vec::new();
    std::mem::swap(&mut pending, &mut planner.event_receipts);
    let mut kept: Vec<EventReceipt> = Vec::new();
    let ghost mut done: int = 0;
    while pending.len() > 0
        invariant
            0 <= done <= source.len(),
            pending@ == source.subrange(done, source.len() as int),
            kept@ == source.subrange(0, done).filter(keep),
            keep == keeps_event_receipt(oldest),
        decreases pending@.len(),
    {
        let receipt = pending.remove(0);
        proof {
            assert(receipt == source[done]);
            assert(source.subrange(0, done + 1) =~= source.subrange(0, done).push(receipt));
            source.subrange(0, done).lemma_filter_push(receipt, keep);
        }
        let keeps = receipt.acknowledged_at_utc.is_none() || match parse_instant(
            receipt.delivered_at_utc.as_str(),
        ) {
            Some(delivered) => is_not_after(oldest, delivered),
            None => true,
        };
        if keeps {
            kept.push(receipt);
        }
        proof {
            done = done + 1;
            assert(pending@ =~= source.subrange(done, source.len() as int));
        }
    }
    assert(source.subrange(0, done) =~= source);
    planner.event_receipts = kept;
}

} // verus!
