//! What the clock window and the settings show of the configured clocks:
//! the main zone, the clock tiles, reordering from the settings, and the
//! times that follow the main clock.

use vstd::prelude::*;
use crate::calendar::{format_iso_date, iso_text};
use crate::clock::{clock_command_outcome, execute_clock_command, first_main_index, Clock, ClockCommand};
use crate::colors::{color_of, parse_color, Rgb};
use crate::inputs::chrono_hour_minute;
use crate::instant::{
    minutes_before, representable, subtract_minutes, zone_readable, Instant, EARLIEST_SECONDS,
    LATEST_SECONDS,
};
use crate::plan_week::{hh_mm, read_or_utc, reading_or_utc};
use crate::planner::Stopwatch;
use crate::text::{padded2, push_char, push_padded2};
use crate::zoned::LocalDateTime;

verus! {

/// The zone of the main clock, else of the first clock, else UTC.
pub open spec fn main_zone_text(clocks: Seq<Clock>) -> Seq<char> {
    if clocks.len() == 0 {
        "UTC"@
    } else {
        clocks[first_main_index(clocks)].time_zone@
    }
}

/// The zone of the main clock, else of the first clock, else UTC.
pub fn main_time_zone(clocks: &Vec<Clock>) -> (zone: String)
    ensures
        zone@ == main_zone_text(clocks@),
{
    if clocks.len() == 0 {
        return "UTC".to_owned();
    }
    proof {
        crate::clock::lemma_first_main_index(clocks@);
    }
    let index = crate::views::main_clock_index(clocks.as_slice());
    clocks[index].time_zone.clone()
}

/// Moves the clock at `from` to `to` when both are positions of the list
/// and differ; says whether it did.
pub fn move_clock_to(clocks: &mut Vec<Clock>, from: i32, to: i32) -> (moved: bool)
    requires
        old(clocks)@.len() < usize::MAX,
    ensures
        moved == (0 <= from < old(clocks)@.len() && 0 <= to < old(clocks)@.len() && from != to),
        !moved ==> final(clocks)@ == old(clocks)@,
        moved ==> final(clocks)@ == clock_command_outcome(
            old(clocks)@,
            ClockCommand::Move { from: from as usize, to: to as usize },
        ).0,
{
    if from < 0 || to < 0 || from as usize >= clocks.len() || to as usize >= clocks.len() || from == to {
        return false;
    }
    execute_clock_command(clocks, ClockCommand::Move { from: from as usize, to: to as usize });
    true
}

/// Moves the selected clock one step by `direction`; the new selection, or
/// `None` when the move would leave the list.
pub fn move_selected_clock(clocks: &mut Vec<Clock>, selected: i32, direction: i32) -> (selection: Option<i32>)
    requires
        old(clocks)@.len() < usize::MAX,
        i32::MIN <= selected + direction <= i32::MAX,
    ensures
        selection == (if 0 <= selected && 0 <= selected + direction < old(clocks)@.len() {
            Some((selected + direction) as i32)
        } else {
            None
        }),
        selection is None ==> final(clocks)@ == old(clocks)@,
        selection is Some ==> {
            &&& old(clocks)@.len() > 0
            &&& final(clocks)@ == clock_command_outcome(
                old(clocks)@,
                ClockCommand::Move { from: selected as usize, to: (selected + direction) as usize },
            ).0
        },
{
    let to = selected + direction;
    if selected < 0 || to < 0 || to as usize >= clocks.len() {
        return None;
    }
    execute_clock_command(clocks, ClockCommand::Move { from: selected as usize, to: to as usize });
    Some(to)
}

/// A clock as its tile shows it.
#[derive(Clone, Debug)]
pub struct ClockTile {
    pub label: String,
    pub month: String,
    pub day: String,
    pub hour: String,
    pub minute: String,
    pub second: String,
    pub accent: Rgb,
    pub main_zone: bool,
}

/// What a clock's tile shows at a wall-clock time of its zone: `MM/`, the
/// day, hour and minute padded to two digits, and the seconds when shown.
pub open spec fn tile_shows(tile: ClockTile, clock: Clock, local: LocalDateTime, show_seconds: bool) -> bool {
    &&& tile.label@ == clock.label@
    &&& tile.month@ == padded2(local.date.month as nat) + seq!['/']
    &&& tile.day@ == padded2(local.date.day as nat)
    &&& tile.hour@ == padded2(local.hour as nat)
    &&& tile.minute@ == padded2(local.minute as nat)
    &&& tile.second@ == if show_seconds { padded2(local.second as nat) } else { Seq::empty() }
    &&& tile.accent == color_of(clock.color@)
    &&& tile.main_zone == clock.is_main
}

fn padded(n: u32) -> (text: String)
    ensures
        text@ == padded2(n as nat),
{
    let mut text = String::new();
    push_padded2(&mut text, n as u128);
    text
}

/// The tile of a clock at `now`, read in the clock's zone (UTC when the
/// zone is unknown); `None` only when no wall clock can be read.
pub fn to_clock_tile(clock: &Clock, now: Instant, show_seconds: bool) -> (tile: Option<ClockTile>)
    requires
        zone_readable(now),
    ensures
        match reading_or_utc(clock.time_zone@, now) {
            Some(local) => tile matches Some(t) && tile_shows(t, *clock, local, show_seconds),
            None => tile is None,
        },
{
    let local = match read_or_utc(clock.time_zone.as_str(), now) {
        Some(l) => l,
        None => return None,
    };
    let mut month = padded(local.date.month);
    push_char(&mut month, '/');
    let second = if show_seconds {
        padded(local.second)
    } else {
        String::new()
    };
    let tile = ClockTile {
        label: clock.label.clone(),
        month,
        day: padded(local.date.day),
        hour: padded(local.hour),
        minute: padded(local.minute),
        second,
        accent: parse_color(clock.color.as_str()),
        main_zone: clock.is_main,
    };
    assert(tile.month@ =~= padded2(local.date.month as nat) + seq!['/']);
    assert(tile.second@ =~= if show_seconds { padded2(local.second as nat) } else { Seq::empty() });
    Some(tile)
}

/// The date and time offered for a new reminder: ten minutes after `now`
/// on the wall clock of the main clock's zone (UTC when it is unknown).
pub open spec fn reminder_default_of(clocks: Seq<Clock>, now: Instant) -> Option<(Seq<char>, Seq<char>)> {
    match minutes_before(now, -10i64) {
        Some(later) => match reading_or_utc(main_zone_text(clocks), later) {
            Some(local) => Some((iso_text(local.date), hh_mm(local.hour, local.minute))),
            None => None,
        },
        None => None,
    }
}

/// The `%Y-%m-%d` date and `HH:MM` time offered for a new reminder.
pub fn default_reminder_datetime(clocks: &Vec<Clock>, now: Instant) -> (texts: Option<(String, String)>)
    requires
        zone_readable(now),
        now.seconds + 600 <= LATEST_SECONDS - 86_400,
    ensures
        match reminder_default_of(clocks@, now) {
            Some((date, time)) => texts matches Some(t) && t.0@ == date && t.1@ == time,
            None => texts is None,
        },
{
    let zone = main_time_zone(clocks);
    let later = match subtract_minutes(now, -10) {
        Some(l) => l,
        None => return None,
    };
    let local = match read_or_utc(zone.as_str(), later) {
        Some(l) => l,
        None => return None,
    };
    proof {
        crate::calendar::lemma_day_number_span();
    }
    let date = format_iso_date(local.date);
    let time = match chrono_hour_minute(local.hour, local.minute) {
        Some(t) => t,
        None => String::new(),
    };
    Some((date, time))
}

/// The stopwatch reading in milliseconds: what it had counted, plus the
/// milliseconds of the run in progress.
pub open spec fn stopwatch_reading(stopwatch: Option<Stopwatch>, running: Option<u128>) -> int {
    (match stopwatch {
        Some(s) => s.elapsed_seconds * 1000 + s.elapsed_milliseconds,
        None => 0,
    }) + (match running {
        Some(ms) => ms as int,
        None => 0,
    })
}

/// The stopwatch reading in milliseconds, given how long the current run
/// has lasted (if one is in progress).
pub fn stopwatch_elapsed_milliseconds(stopwatch: &Option<Stopwatch>, running: Option<u128>) -> (milliseconds: u128)
    requires
        stopwatch_reading(*stopwatch, running) <= u128::MAX,
    ensures
        milliseconds == stopwatch_reading(*stopwatch, running),
{
    let counted: u128 = match stopwatch {
        Some(s) => s.elapsed_seconds as u128 * 1000 + s.elapsed_milliseconds as u128,
        None => 0,
    };
    let current: u128 = match running {
        Some(ms) => ms,
        None => 0,
    };
    counted + current
}

/// The time step the ruler starts at: the hour of the main clock rounded
/// to the nearest, as twelve five-minute steps per hour.
pub open spec fn ruler_start_of(clocks: Seq<Clock>, now: Instant) -> Option<u32> {
    match reading_or_utc(main_zone_text(clocks), now) {
        Some(local) => Some((((local.hour + if local.minute >= 30 { 1int } else { 0int }) % 24) * 12) as u32),
        None => None,
    }
}

/// The ruler's first time step at `now`, in five-minute steps from midnight.
pub fn initial_ruler_time_step(clocks: &Vec<Clock>, now: Instant) -> (step: Option<u32>)
    requires
        zone_readable(now),
    ensures
        step == ruler_start_of(clocks@, now),
{
    let zone = main_time_zone(clocks);
    match read_or_utc(zone.as_str(), now) {
        Some(local) => {
            let rounded = (local.hour + if local.minute >= 30 { 1 } else { 0 }) % 24;
            Some(rounded * 12)
        },
        None => None,
    }
}

} // verus!
