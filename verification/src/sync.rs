//! The optional sync profile: which portable groups a device shares, what a
//! transfer previews, and how sending and receiving change the profile and
//! the local settings. Reading and writing the files is left to the caller.

use vstd::prelude::*;
use crate::clock::{
    first_main_index, has_single_main, lemma_single_main_is_normalized, normalize_main_clock,
    only_main, Clock,
};
use crate::planner::{Event, Planner, Reminder, Task};

verus! {

/// Portable data groups that a device can independently include in a profile.
#[derive(Clone, Copy, Debug, PartialEq, Eq, Structural)]
pub struct SyncGroups {
    pub planner: bool,
    pub clocks: bool,
    pub appearance: bool,
}

impl Default for SyncGroups {
    fn default() -> (groups: Self)
        ensures
            groups == (SyncGroups { planner: false, clocks: false, appearance: false }),
    {
        SyncGroups { planner: false, clocks: false, appearance: false }
    }
}

/// Local-only state of a provider-managed sync profile.
#[derive(Clone, Debug)]
pub struct SyncState {
    pub profile_directory: Option<String>,
    pub groups: SyncGroups,
    pub last_common_revision: Option<u64>,
    pub unresolved_conflict: Option<String>,
}

impl Default for SyncState {
    fn default() -> (state: Self)
        ensures
            state.profile_directory is None,
            state.groups == (SyncGroups { planner: false, clocks: false, appearance: false }),
            state.last_common_revision is None,
            state.unresolved_conflict is None,
    {
        SyncState {
            profile_directory: None,
            groups: SyncGroups::default(),
            last_common_revision: None,
            unresolved_conflict: None,
        }
    }
}

/// Independent planner appearance.
#[derive(Clone, Debug)]
pub struct PlannerAppearance {
    pub light_theme: bool,
    pub follow_main_clock: bool,
    pub custom_accent: String,
    pub use_accent_color: bool,
    pub alarm_color: String,
    pub timer_color: String,
    pub reminder_color: String,
    pub event_color: String,
    pub task_color: String,
}

impl Default for PlannerAppearance {
    fn default() -> (appearance: Self)
        ensures
            !appearance.light_theme,
            appearance.follow_main_clock,
            appearance.use_accent_color,
            appearance.custom_accent@ == "#77D7CB"@,
            appearance.alarm_color@ == "#77D7CB"@,
            appearance.timer_color@ == "#77D7CB"@,
            appearance.reminder_color@ == "#77D7CB"@,
            appearance.event_color@ == "#B99655"@,
            appearance.task_color@ == "#547D78"@,
    {
        PlannerAppearance {
            light_theme: false,
            follow_main_clock: true,
            custom_accent: "#77D7CB".to_owned(),
            use_accent_color: true,
            alarm_color: "#77D7CB".to_owned(),
            timer_color: "#77D7CB".to_owned(),
            reminder_color: "#77D7CB".to_owned(),
            event_color: "#B99655".to_owned(),
            task_color: "#547D78".to_owned(),
        }
    }
}

/// The portable part of the planner.
#[derive(Clone, Debug)]
pub struct PortablePlanner {
    pub events: Vec<Event>,
    pub tasks: Vec<Task>,
    pub reminders: Vec<Reminder>,
}

/// The versioned document shared through a cloud-provider desktop folder.
#[derive(Clone, Debug)]
pub struct SyncProfile {
    pub schema_version: u32,
    pub revision: u64,
    pub planner: Option<PortablePlanner>,
    pub clocks: Option<Vec<Clock>>,
    pub appearance: Option<PlannerAppearance>,
}

/// Schema version of a sync profile written by this version.
pub fn default_sync_schema_version() -> (version: u32)
    ensures
        version == 1,
{
    1
}

impl Default for SyncProfile {
    fn default() -> (profile: Self)
        ensures
            profile.schema_version == 1,
            profile.revision == 0,
            profile.planner is None,
            profile.clocks is None,
            profile.appearance is None,
    {
        SyncProfile {
            schema_version: default_sync_schema_version(),
            revision: 0,
            planner: None,
            clocks: None,
            appearance: None,
        }
    }
}

/// A read-only summary shown before a one-time profile transfer.
#[derive(Clone, Copy, Debug, PartialEq, Eq, Structural)]
pub struct SyncPreview {
    pub profile_exists: bool,
    pub profile_revision: Option<u64>,
    pub selected_groups: SyncGroups,
    pub available_groups: SyncGroups,
}

/// Why a sync step is refused.
#[derive(Clone, Copy, Debug, PartialEq, Eq, Structural)]
pub enum SyncError {
    /// The folder chosen for a profile does not exist.
    FolderNotFound,
    /// A profile needs at least one group.
    NoGroupSelected,
    /// No profile folder is configured yet.
    NotConfigured,
    /// The configured profile folder is unavailable.
    FolderUnavailable,
    /// The configured folder holds no profile.
    ProfileMissing,
    /// The profile's clock group is empty.
    NoClocks,
}

/// The message shown for a refused sync step.
pub open spec fn sync_error_text(error: SyncError) -> Seq<char> {
    match error {
        SyncError::FolderNotFound => "choose an existing folder for the sync profile"@,
        SyncError::NoGroupSelected => "select at least one group for the sync profile"@,
        SyncError::NotConfigured => "configure a sync profile folder first"@,
        SyncError::FolderUnavailable => "the sync profile folder is unavailable"@,
        SyncError::ProfileMissing => "the sync profile does not exist"@,
        SyncError::NoClocks => "the sync profile contains no clocks"@,
    }
}

impl SyncError {
    /// The message shown for this refusal.
    pub fn message(self) -> (text: &'static str)
        ensures
            text@ == sync_error_text(self),
    {
        match self {
            SyncError::FolderNotFound => "choose an existing folder for the sync profile",
            SyncError::NoGroupSelected => "select at least one group for the sync profile",
            SyncError::NotConfigured => "configure a sync profile folder first",
            SyncError::FolderUnavailable => "the sync profile folder is unavailable",
            SyncError::ProfileMissing => "the sync profile does not exist",
            SyncError::NoClocks => "the sync profile contains no clocks",
        }
    }
}

/// Whether any group is selected.
pub open spec fn any_group(groups: SyncGroups) -> bool {
    groups.planner || groups.clocks || groups.appearance
}

/// The stored sync state, or the empty state when none is stored.
pub fn load_sync_state(stored: Option<SyncState>) -> (state: SyncState)
    ensures
        match stored {
            Some(s) => state == s,
            None => state.profile_directory is None && state.groups == (SyncGroups {
                planner: false,
                clocks: false,
                appearance: false,
            }) && state.last_common_revision is None && state.unresolved_conflict is None,
        },
{
    match stored {
        Some(s) => s,
        None => SyncState::default(),
    }
}

/// Selects a profile folder and the portable groups this device owns. The
/// folder must exist and at least one group must be selected; the new state
/// has no common revision and no conflict.
pub fn configure_sync_profile(directory: String, directory_is_folder: bool, groups: SyncGroups) -> (configured: Result<SyncState, SyncError>)
    ensures
        !directory_is_folder ==> configured == Err::<SyncState, SyncError>(SyncError::FolderNotFound),
        directory_is_folder && !any_group(groups) ==> configured == Err::<SyncState, SyncError>(SyncError::NoGroupSelected),
        directory_is_folder && any_group(groups) ==> configured == Ok::<SyncState, SyncError>(SyncState {
            profile_directory: Some(directory),
            groups,
            last_common_revision: None,
            unresolved_conflict: None,
        }),
{
    if !directory_is_folder {
        return Err(SyncError::FolderNotFound);
    }
    if !groups.planner && !groups.clocks && !groups.appearance {
        return Err(SyncError::NoGroupSelected);
    }
    Ok(SyncState { profile_directory: Some(directory), groups, last_common_revision: None, unresolved_conflict: None })
}

/// The groups a profile holds.
pub open spec fn profile_groups(profile: SyncProfile) -> SyncGroups {
    SyncGroups {
        planner: profile.planner is Some,
        clocks: profile.clocks is Some,
        appearance: profile.appearance is Some,
    }
}

/// The summary of a pending transfer.
pub open spec fn sync_preview(state: SyncState, folder_available: bool, profile: Option<SyncProfile>) -> Result<SyncPreview, SyncError> {
    if state.profile_directory is None {
        Err(SyncError::NotConfigured)
    } else if !folder_available {
        Err(SyncError::FolderUnavailable)
    } else {
        match profile {
            None => Ok(SyncPreview {
                profile_exists: false,
                profile_revision: None,
                selected_groups: state.groups,
                available_groups: SyncGroups { planner: false, clocks: false, appearance: false },
            }),
            Some(p) => Ok(SyncPreview {
                profile_exists: true,
                profile_revision: Some(p.revision),
                selected_groups: state.groups,
                available_groups: profile_groups(p),
            }),
        }
    }
}

fn preview_sync_profile(state: &SyncState, folder_available: bool, profile: Option<&SyncProfile>) -> (preview: Result<SyncPreview, SyncError>)
    ensures
        preview == sync_preview(*state, folder_available, match profile { Some(p) => Some(*p), None => None }),
{
    if state.profile_directory.is_none() {
        return Err(SyncError::NotConfigured);
    }
    if !folder_available {
        return Err(SyncError::FolderUnavailable);
    }
    match profile {
        None => Ok(SyncPreview {
            profile_exists: false,
            profile_revision: None,
            selected_groups: state.groups,
            available_groups: SyncGroups::default(),
        }),
        Some(p) => Ok(SyncPreview {
            profile_exists: true,
            profile_revision: Some(p.revision),
            selected_groups: state.groups,
            available_groups: SyncGroups {
                planner: p.planner.is_some(),
                clocks: p.clocks.is_some(),
                appearance: p.appearance.is_some(),
            },
        }),
    }
}

/// Summarizes a pending upload without changing anything: `profile` is the
/// profile found in the configured folder, if any.
pub fn preview_send_sync_profile(state: &SyncState, folder_available: bool, profile: Option<&SyncProfile>) -> (preview: Result<SyncPreview, SyncError>)
    ensures
        preview == sync_preview(*state, folder_available, match profile { Some(p) => Some(*p), None => None }),
{
    preview_sync_profile(state, folder_available, profile)
}

/// Summarizes a pending download without changing anything: `profile` is
/// the profile found in the configured folder, if any.
pub fn preview_receive_sync_profile(state: &SyncState, folder_available: bool, profile: Option<&SyncProfile>) -> (preview: Result<SyncPreview, SyncError>)
    ensures
        preview == sync_preview(*state, folder_available, match profile { Some(p) => Some(*p), None => None }),
{
    preview_sync_profile(state, folder_available, profile)
}

/// What this device shares: the portable planner, the clocks and the appearance.
pub struct PortableSettings {
    pub planner: PortablePlanner,
    pub clocks: Vec<Clock>,
    pub appearance: PlannerAppearance,
}

/// The profile after a send: the selected groups are replaced by this
/// device's data, the others stay as they were, and the revision moves on by
/// one (staying at the largest value once there).
pub open spec fn sent_profile(profile: SyncProfile, groups: SyncGroups, local: PortableSettings) -> SyncProfile {
    SyncProfile {
        schema_version: profile.schema_version,
        revision: if profile.revision == u64::MAX { u64::MAX } else { (profile.revision + 1) as u64 },
        planner: if groups.planner { Some(local.planner) } else { profile.planner },
        clocks: if groups.clocks { Some(local.clocks) } else { profile.clocks },
        appearance: if groups.appearance { Some(local.appearance) } else { profile.appearance },
    }
}

/// Writes this device's selected groups into the profile found in the
/// configured folder (a new profile when there is none). Returns the profile
/// to write; the state then records its revision as the common one.
pub fn send_sync_profile(state: &mut SyncState, folder_available: bool, existing: Option<SyncProfile>, local: PortableSettings) -> (sent: Result<SyncProfile, SyncError>)
    ensures
        old(state).profile_directory is None ==> sent == Err::<SyncProfile, SyncError>(SyncError::NotConfigured) && *final(state) == *old(state),
        old(state).profile_directory is Some && !folder_available ==> sent == Err::<SyncProfile, SyncError>(SyncError::FolderUnavailable) && *final(state) == *old(state),
        old(state).profile_directory is Some && folder_available ==> {
            let base = match existing {
                Some(p) => p,
                None => SyncProfile { schema_version: 1, revision: 0, planner: None, clocks: None, appearance: None },
            };
            &&& sent == Ok::<SyncProfile, SyncError>(sent_profile(base, old(state).groups, local))
            &&& *final(state) == (SyncState {
                last_common_revision: Some(sent_profile(base, old(state).groups, local).revision),
                unresolved_conflict: None,
                ..*old(state)
            })
        },
{
    if state.profile_directory.is_none() {
        return Err(SyncError::NotConfigured);
    }
    if !folder_available {
        return Err(SyncError::FolderUnavailable);
    }
    let mut profile = match existing {
        Some(p) => p,
        None => SyncProfile::default(),
    };
    let PortableSettings { planner, clocks, appearance } = local;
    if state.groups.planner {
        profile.planner = Some(planner);
    }
    if state.groups.clocks {
        profile.clocks = Some(clocks);
    }
    if state.groups.appearance {
        profile.appearance = Some(appearance);
    }
    profile.revision = profile.revision.saturating_add(1);
    state.last_common_revision = Some(profile.revision);
    state.unresolved_conflict = None;
    Ok(profile)
}

/// Applies the selected groups of the profile found in the configured folder
/// (`None` when there is no profile file). Portable planner data, clocks
/// (with exactly one main clock) and appearance are replaced only for the
/// selected groups the profile holds; everything else stays local. An empty
/// clock group is refused after the planner group was applied.
pub fn receive_sync_profile(
    state: &mut SyncState,
    profile: Option<SyncProfile>,
    planner: &mut Planner,
    clocks: &mut Vec<Clock>,
    appearance: &mut PlannerAppearance,
) -> (received: Result<(), SyncError>)
    ensures
        old(state).profile_directory is None ==> {
            &&& received == Err::<(), SyncError>(SyncError::NotConfigured)
            &&& *final(state) == *old(state)
            &&& *final(planner) == *old(planner)
            &&& *final(clocks) == *old(clocks)
            &&& *final(appearance) == *old(appearance)
        },
        old(state).profile_directory is Some && profile is None ==> {
            &&& received == Err::<(), SyncError>(SyncError::ProfileMissing)
            &&& *final(state) == *old(state)
            &&& *final(planner) == *old(planner)
            &&& *final(clocks) == *old(clocks)
            &&& *final(appearance) == *old(appearance)
        },
        old(state).profile_directory is Some && profile is Some ==> {
            let p = profile->0;
            let groups = old(state).groups;
            let takes_planner = groups.planner && p.planner is Some;
            let takes_clocks = groups.clocks && p.clocks is Some;
            let empty_clocks = takes_clocks && p.clocks->0@.len() == 0;
            &&& takes_planner ==> final(planner).events == p.planner->0.events
                && final(planner).tasks == p.planner->0.tasks
                && final(planner).reminders == p.planner->0.reminders
            &&& !takes_planner ==> final(planner).events == old(planner).events
                && final(planner).tasks == old(planner).tasks
                && final(planner).reminders == old(planner).reminders
            &&& final(planner).event_receipts == old(planner).event_receipts
            &&& final(planner).event_checked_at_utc == old(planner).event_checked_at_utc
            &&& final(planner).alarms == old(planner).alarms
            &&& final(planner).alarm_receipts == old(planner).alarm_receipts
            &&& final(planner).alarm_checked_at_utc == old(planner).alarm_checked_at_utc
            &&& final(planner).alarm_snoozes == old(planner).alarm_snoozes
            &&& final(planner).timers == old(planner).timers
            &&& final(planner).stopwatch == old(planner).stopwatch
            &&& empty_clocks ==> {
                &&& received == Err::<(), SyncError>(SyncError::NoClocks)
                &&& *final(state) == *old(state)
                &&& *final(clocks) == *old(clocks)
                &&& *final(appearance) == *old(appearance)
            }
            &&& !empty_clocks ==> {
                &&& received == Ok::<(), SyncError>(())
                &&& takes_clocks ==> final(clocks)@ == only_main(p.clocks->0@, first_main_index(p.clocks->0@))
                &&& !takes_clocks ==> *final(clocks) == *old(clocks)
                &&& (groups.appearance && p.appearance is Some) ==> *final(appearance) == p.appearance->0
                &&& !(groups.appearance && p.appearance is Some) ==> *final(appearance) == *old(appearance)
                &&& *final(state) == (SyncState {
                    last_common_revision: Some(p.revision),
                    unresolved_conflict: None,
                    ..*old(state)
                })
            }
        },
{
    if state.profile_directory.is_none() {
        return Err(SyncError::NotConfigured);
    }
    let profile = match profile {
        Some(p) => p,
        None => return Err(SyncError::ProfileMissing),
    };
    let SyncProfile { schema_version: _, revision, planner: shared_planner, clocks: shared_clocks, appearance: shared_appearance } = profile;
    if state.groups.planner {
        if let Some(portable) = shared_planner {
            let PortablePlanner { events, tasks, reminders } = portable;
            planner.events = events;
            planner.tasks = tasks;
            planner.reminders = reminders;
        }
    }
    if state.groups.clocks {
        if let Some(mut received_clocks) = shared_clocks {
            if received_clocks.len() == 0 {
                return Err(SyncError::NoClocks);
            }
            normalize_main_clock(&mut received_clocks);
            *clocks = received_clocks;
        }
    }
    if state.groups.appearance {
        if let Some(received_appearance) = shared_appearance {
            *appearance = received_appearance;
        }
    }
    state.last_common_revision = Some(revision);
    state.unresolved_conflict = None;
    Ok(())
}


/// A receive with the groups of the last send gives back what was sent:
/// the sent groups hold this device's data, the other groups keep what the
/// profile had, and clocks that had exactly one main clock come back as they
/// were sent.
pub proof fn lemma_receive_gives_back_what_was_sent(base: SyncProfile, groups: SyncGroups, local: PortableSettings)
    ensures
        groups.planner ==> sent_profile(base, groups, local).planner == Some(local.planner),
        groups.clocks ==> sent_profile(base, groups, local).clocks == Some(local.clocks),
        groups.appearance ==> sent_profile(base, groups, local).appearance == Some(local.appearance),
        !groups.planner ==> sent_profile(base, groups, local).planner == base.planner,
        !groups.clocks ==> sent_profile(base, groups, local).clocks == base.clocks,
        !groups.appearance ==> sent_profile(base, groups, local).appearance == base.appearance,
        has_single_main(local.clocks@) ==> only_main(local.clocks@, first_main_index(local.clocks@))
            == local.clocks@,
{
    if has_single_main(local.clocks@) {
        lemma_single_main_is_normalized(local.clocks@);
    }
}

/// Every send moves the revision on, until it reaches the largest value.
pub proof fn lemma_send_advances_revision(base: SyncProfile, groups: SyncGroups, local: PortableSettings)
    ensures
        base.revision < u64::MAX ==> sent_profile(base, groups, local).revision == base.revision + 1,
        base.revision == u64::MAX ==> sent_profile(base, groups, local).revision == u64::MAX,
{
}
} // verus!
