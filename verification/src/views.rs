//! Presentation rules of the desktop windows: refresh timing, calendar
//! navigation, labels and normalized settings values.

use vstd::prelude::*;
use chrono::{Offset, TimeZone};
use crate::calendar::{
    day_number, days_in_month, in_supported_range, is_supported_date, month_in_range, month_length,
    parse_iso_date, iso_date, shifted_month_index, clamp_day, shift_day, shift_month, shift_year,
    weekday_from_monday, weekday_index, CalendarDate, MAX_YEAR, MIN_YEAR,
};
use crate::calendar::{
    days_between, format_iso_date, iso_text, lemma_day_number_injective, lemma_supported_date_in_range,
    month_grid, month_grid_start,
};
use crate::reminder_time::date_numbered;
use crate::clock::{first_main_index, lemma_first_main_index, Clock};
use crate::planner::{Alarm, AlarmSchedule, ReminderRecurrence};
use crate::instant::{representable, Instant};
use crate::sorting::{ranked_sorted, sort_ranked, strict_order, Ranked};
use crate::text::{
    decimal, is_space, lemma_text_before_irreflexive, lemma_text_before_transitive, padded2,
    decimal_text, push_char, push_decimal, push_padded2, push_str, text_before, text_equals, text_less, trim_text, trimmed,
};

verus! {

/// Milliseconds until the clock face next needs redrawing: the next second
/// when seconds are shown, the next minute otherwise.
pub fn next_refresh_delay_millis(show_seconds: bool, second: u32, millisecond: u32) -> (delay: i64)
    ensures
        delay == if show_seconds {
            1_000 - millisecond
        } else {
            (60 - second) * 1_000 - millisecond
        },
{
    if show_seconds {
        1_000 - millisecond as i64
    } else {
        (60 - second as i64) * 1_000 - millisecond as i64
    }
}

/// The kinds of items the calendar lists for a day.
#[derive(Clone, Copy, Debug, PartialEq, Eq, Structural)]
pub enum CalendarItemKind {
    Event,
    Reminder,
    Task,
    Alarm,
}

/// The word shown for a kind of calendar item.
pub open spec fn item_kind_label(kind: CalendarItemKind) -> Seq<char> {
    match kind {
        CalendarItemKind::Event => "Event"@,
        CalendarItemKind::Reminder => "Reminder"@,
        CalendarItemKind::Task => "Task"@,
        CalendarItemKind::Alarm => "Alarm"@,
    }
}

/// The position of a kind in the calendar's filters and lists.
pub open spec fn item_kind_index(kind: CalendarItemKind) -> usize {
    match kind {
        CalendarItemKind::Event => 0,
        CalendarItemKind::Reminder => 1,
        CalendarItemKind::Task => 2,
        CalendarItemKind::Alarm => 3,
    }
}

impl CalendarItemKind {
    /// The word shown for this kind.
    pub fn label(self) -> (label: &'static str)
        ensures
            label@ == item_kind_label(self),
    {
        match self {
            CalendarItemKind::Event => "Event",
            CalendarItemKind::Reminder => "Reminder",
            CalendarItemKind::Task => "Task",
            CalendarItemKind::Alarm => "Alarm",
        }
    }

    /// The position of this kind.
    pub fn index(self) -> (index: usize)
        ensures
            index == item_kind_index(self),
    {
        match self {
            CalendarItemKind::Event => 0,
            CalendarItemKind::Reminder => 1,
            CalendarItemKind::Task => 2,
            CalendarItemKind::Alarm => 3,
        }
    }
}

/// The calendar's views.
#[derive(Clone, Copy, Debug, PartialEq, Eq, Structural)]
pub enum CalendarView {
    Month,
    Week,
    Year,
}

/// The view a tab index selects; any other index shows the month.
pub open spec fn view_of_index(index: i32) -> CalendarView {
    if index == 1 {
        CalendarView::Week
    } else if index == 2 {
        CalendarView::Year
    } else {
        CalendarView::Month
    }
}

/// The tab index of a view.
pub open spec fn index_of_view(view: CalendarView) -> i32 {
    match view {
        CalendarView::Month => 0,
        CalendarView::Week => 1,
        CalendarView::Year => 2,
    }
}

impl CalendarView {
    /// The view a tab index selects.
    pub fn from_index(index: i32) -> (view: CalendarView)
        ensures
            view == view_of_index(index),
    {
        if index == 1 {
            CalendarView::Week
        } else if index == 2 {
            CalendarView::Year
        } else {
            CalendarView::Month
        }
    }

    /// The tab index of this view.
    pub fn index(self) -> (index: i32)
        ensures
            index == index_of_view(self),
    {
        match self {
            CalendarView::Month => 0,
            CalendarView::Week => 1,
            CalendarView::Year => 2,
        }
    }
}

/// Day number of the Monday that starts the week of `date`.
pub open spec fn week_start_number(date: CalendarDate) -> int {
    day_number(date) - weekday_from_monday(date)
}

/// The Monday that starts the week of `date`.
pub fn week_start(date: CalendarDate) -> (start: CalendarDate)
    requires
        is_supported_date(date),
        in_supported_range(week_start_number(date)),
    ensures
        is_supported_date(start),
        day_number(start) == week_start_number(date),
{
    let offset = weekday_index(date, true);
    shift_day(date, -(offset as i64))
}

/// What the calendar window shows: the view, the period it shows (`cursor`),
/// the day the week view follows, and the selected day.
#[derive(Clone, Copy, Debug, PartialEq, Eq, Structural)]
pub struct CalendarState {
    pub view: CalendarView,
    pub cursor: CalendarDate,
    pub week_focus: CalendarDate,
    pub selected: CalendarDate,
    pub monday_first: bool,
    pub light_theme: bool,
}

/// Moving by `delta` periods is possible from this state: the dates it
/// moves to are in the calendar's range.
pub open spec fn can_navigate(state: CalendarState, delta: i32) -> bool {
    match state.view {
        CalendarView::Week => {
            &&& is_supported_date(state.cursor)
            &&& is_supported_date(state.week_focus)
            &&& in_supported_range(day_number(state.cursor) + delta * 7)
            &&& in_supported_range(day_number(state.week_focus) + delta * 7)
        },
        CalendarView::Month => {
            &&& state.cursor.month <= i32::MAX
            &&& i32::MIN <= state.cursor.year * 12
            &&& state.cursor.year * 12 + state.cursor.month <= i32::MAX
            &&& i32::MIN <= shifted_month_index(state.cursor, delta as int) <= i32::MAX
            &&& month_in_range(
                shifted_month_index(state.cursor, delta as int) / 12,
                shifted_month_index(state.cursor, delta as int) % 12 + 1,
            )
        },
        CalendarView::Year => {
            &&& 1 <= state.cursor.month <= 12
            &&& i32::MIN <= state.cursor.year + delta <= i32::MAX
            &&& month_in_range(state.cursor.year + delta, state.cursor.month as int)
        },
    }
}

impl CalendarState {
    /// The month view of today.
    pub fn new(today: CalendarDate) -> (state: CalendarState)
        ensures
            state == (CalendarState {
                view: CalendarView::Month,
                cursor: today,
                week_focus: today,
                selected: today,
                monday_first: true,
                light_theme: true,
            }),
    {
        CalendarState {
            view: CalendarView::Month,
            cursor: today,
            week_focus: today,
            selected: today,
            monday_first: true,
            light_theme: true,
        }
    }

    /// Moves `delta` weeks, months or years, as the view shows; a month or
    /// year move keeps the day, clamped to the end of the month.
    pub fn navigate(&mut self, delta: i32)
        requires
            can_navigate(*old(self), delta),
        ensures
            final(self).view == old(self).view,
            final(self).selected == old(self).selected,
            final(self).monday_first == old(self).monday_first,
            final(self).light_theme == old(self).light_theme,
            old(self).view != CalendarView::Week ==> final(self).week_focus == old(self).week_focus,
            old(self).view == CalendarView::Week ==> {
                &&& is_supported_date(final(self).cursor)
                &&& is_supported_date(final(self).week_focus)
                &&& day_number(final(self).cursor) == day_number(old(self).cursor) + delta * 7
                &&& day_number(final(self).week_focus) == day_number(old(self).week_focus) + delta
                    * 7
            },
            old(self).view == CalendarView::Month ==> {
                &&& final(self).cursor.year == shifted_month_index(old(self).cursor, delta as int)
                    / 12
                &&& final(self).cursor.month == shifted_month_index(old(self).cursor, delta as int)
                    % 12 + 1
                &&& final(self).cursor.day == clamp_day(
                    old(self).cursor.day as int,
                    month_length(final(self).cursor.year as int, final(self).cursor.month as int),
                )
            },
            old(self).view == CalendarView::Year ==> {
                &&& final(self).cursor.year == old(self).cursor.year + delta
                &&& final(self).cursor.month == old(self).cursor.month
                &&& final(self).cursor.day == clamp_day(
                    old(self).cursor.day as int,
                    month_length(final(self).cursor.year as int, old(self).cursor.month as int),
                )
            },
    {
        match self.view {
            CalendarView::Week => {
                let days = delta as i64 * 7;
                self.cursor = shift_day(self.cursor, days);
                self.week_focus = shift_day(self.week_focus, days);
            },
            CalendarView::Month => {
                self.cursor = shift_month(self.cursor, delta);
            },
            CalendarView::Year => {
                self.cursor = shift_year(self.cursor, delta);
            },
        }
    }

    /// Switches to the week of `today`.
    pub fn show_week(&mut self, today: CalendarDate)
        requires
            is_supported_date(today),
            in_supported_range(week_start_number(today)),
        ensures
            final(self).view == CalendarView::Week,
            is_supported_date(final(self).cursor),
            day_number(final(self).cursor) == week_start_number(today),
            final(self).week_focus == today,
            final(self).selected == old(self).selected,
            final(self).monday_first == old(self).monday_first,
            final(self).light_theme == old(self).light_theme,
    {
        self.view = CalendarView::Week;
        self.cursor = week_start(today);
        self.week_focus = today;
    }

    /// Shows the month with index `month_index` (0 for January) of the
    /// current year; other indexes change nothing.
    pub fn select_month(&mut self, month_index: i32)
        requires
            0 <= month_index < 12 ==> MIN_YEAR <= old(self).cursor.year <= MAX_YEAR,
        ensures
            0 <= month_index < 12 ==> *final(self) == (CalendarState {
                view: CalendarView::Month,
                cursor: CalendarDate { year: old(self).cursor.year, month: (month_index + 1) as u32, day: 1 },
                ..*old(self)
            }),
            !(0 <= month_index < 12) ==> *final(self) == *old(self),
    {
        if 0 <= month_index && month_index < 12 {
            let first = CalendarDate::new(self.cursor.year, month_index as u32 + 1, 1);
            match first {
                Some(date) => {
                    self.cursor = date;
                    self.view = CalendarView::Month;
                },
                None => {},
            }
        }
    }

    /// Selects the date a `%Y-%m-%d` text names and moves the views to it;
    /// any other text changes nothing.
    pub fn select_date(&mut self, date_id: &str)
        ensures
            match iso_date(date_id@) {
                Some(date) => *final(self) == (CalendarState {
                    selected: date,
                    cursor: date,
                    week_focus: date,
                    ..*old(self)
                }),
                None => *final(self) == *old(self),
            },
    {
        match parse_iso_date(date_id) {
            Some(date) => {
                self.selected = date;
                self.cursor = date;
                self.week_focus = date;
            },
            None => {},
        }
    }
}

/// English name of a month, 1 for January.
pub open spec fn month_name(month: int) -> Seq<char> {
    if month == 1 {
        "January"@
    } else if month == 2 {
        "February"@
    } else if month == 3 {
        "March"@
    } else if month == 4 {
        "April"@
    } else if month == 5 {
        "May"@
    } else if month == 6 {
        "June"@
    } else if month == 7 {
        "July"@
    } else if month == 8 {
        "August"@
    } else if month == 9 {
        "September"@
    } else if month == 10 {
        "October"@
    } else if month == 11 {
        "November"@
    } else {
        "December"@
    }
}

/// English name of a weekday, 0 for Monday.
pub open spec fn weekday_name(weekday: int) -> Seq<char> {
    if weekday == 0 {
        "Monday"@
    } else if weekday == 1 {
        "Tuesday"@
    } else if weekday == 2 {
        "Wednesday"@
    } else if weekday == 3 {
        "Thursday"@
    } else if weekday == 4 {
        "Friday"@
    } else if weekday == 5 {
        "Saturday"@
    } else {
        "Sunday"@
    }
}

fn month_word(month: u32) -> (word: &'static str)
    requires
        1 <= month <= 12,
    ensures
        word@ == month_name(month as int),
{
    if month == 1 {
        "January"
    } else if month == 2 {
        "February"
    } else if month == 3 {
        "March"
    } else if month == 4 {
        "April"
    } else if month == 5 {
        "May"
    } else if month == 6 {
        "June"
    } else if month == 7 {
        "July"
    } else if month == 8 {
        "August"
    } else if month == 9 {
        "September"
    } else if month == 10 {
        "October"
    } else if month == 11 {
        "November"
    } else {
        "December"
    }
}

fn weekday_word(weekday: u32) -> (word: &'static str)
    requires
        weekday < 7,
    ensures
        word@ == weekday_name(weekday as int),
{
    if weekday == 0 {
        "Monday"
    } else if weekday == 1 {
        "Tuesday"
    } else if weekday == 2 {
        "Wednesday"
    } else if weekday == 3 {
        "Thursday"
    } else if weekday == 4 {
        "Friday"
    } else if weekday == 5 {
        "Saturday"
    } else {
        "Sunday"
    }
}

/// A whole number in decimal, with a minus sign when negative.
pub open spec fn signed_decimal(n: int) -> Seq<char> {
    if n < 0 {
        seq!['-'] + decimal((-n) as nat)
    } else {
        decimal(n as nat)
    }
}

/// The heading of a day: `Monday, 7 September 2026`.
pub open spec fn date_heading(date: CalendarDate) -> Seq<char> {
    weekday_name(weekday_from_monday(date)) + ", "@ + decimal(date.day as nat) + seq![' ']
        + month_name(date.month as int) + seq![' '] + signed_decimal(date.year as int)
}

/// The heading of a day, such as `Monday, 7 September 2026`.
pub fn format_date(date: CalendarDate) -> (heading: String)
    requires
        is_supported_date(date),
    ensures
        heading@ == date_heading(date),
{
    let weekday = weekday_index(date, true);
    let mut heading = String::new();
    push_str(&mut heading, weekday_word(weekday));
    push_str(&mut heading, ", ");
    push_decimal(&mut heading, date.day as u128);
    push_char(&mut heading, ' ');
    push_str(&mut heading, month_word(date.month));
    push_char(&mut heading, ' ');
    if date.year < 0 {
        push_char(&mut heading, '-');
        push_decimal(&mut heading, (-(date.year as i64)) as u128);
    } else {
        push_decimal(&mut heading, date.year as u128);
    }
    proof {
        reveal_strlit(", ");
    }
    assert(heading@ =~= date_heading(date));
    heading
}

/// Whether a weekday number is among the chosen weekdays.
pub open spec fn weekday_chosen(weekdays: Seq<u8>, weekday: int) -> bool {
    exists|i: int| 0 <= i < weekdays.len() && weekdays[i] == weekday
}

/// Whether a repeating reminder falls on `date`: a monthly or yearly day
/// beyond the end of a month falls on its last day.
pub open spec fn recurrence_falls_on(recurrence: ReminderRecurrence, date: CalendarDate) -> bool {
    match recurrence {
        ReminderRecurrence::Daily => true,
        ReminderRecurrence::Weekly { weekdays } => weekday_chosen(weekdays@, weekday_from_monday(date)),
        ReminderRecurrence::Monthly { day } => date.day == clamp_day(
            day as int,
            month_length(date.year as int, date.month as int),
        ),
        ReminderRecurrence::Yearly { month, day } => date.month == month && date.day == clamp_day(
            day as int,
            month_length(date.year as int, month as int),
        ),
    }
}

/// Which dates a repeating reminder falls on: a daily one on every date; a
/// weekly one on the dates whose weekday (Monday being 0) is chosen; a
/// monthly one on its day of every month, or on the last day of a shorter
/// month; a yearly one only in its month, on its day or the month's last day.
pub proof fn lemma_reminder_days(date: CalendarDate, weekdays: Vec<u8>, month: u8, day: u8)
    requires
        is_supported_date(date),
    ensures
        recurrence_falls_on(ReminderRecurrence::Daily, date),
        recurrence_falls_on(ReminderRecurrence::Weekly { weekdays }, date) <==> exists|i: int|
            0 <= i < weekdays@.len() && weekdays@[i] == day_number(date) % 7,
        recurrence_falls_on(ReminderRecurrence::Monthly { day }, date) <==> (date.day == day || (day
            > month_length(date.year as int, date.month as int) && date.day == month_length(
            date.year as int,
            date.month as int,
        ))),
        recurrence_falls_on(ReminderRecurrence::Yearly { month, day }, date) ==> date.month == month,
        recurrence_falls_on(ReminderRecurrence::Yearly { month, day }, date) <==> date.month == month
            && (date.day == day || (day > month_length(date.year as int, month as int) && date.day
            == month_length(date.year as int, month as int))),
{
}

/// Whether a repeating reminder falls on `date`.
pub fn recurrence_matches_date(recurrence: &ReminderRecurrence, date: CalendarDate) -> (falls: bool)
    requires
        is_supported_date(date),
        (recurrence is Monthly || recurrence is Yearly) ==> month_in_range(
            date.year as int,
            date.month as int,
        ),
    ensures
        falls == recurrence_falls_on(*recurrence, date),
{
    match recurrence {
        ReminderRecurrence::Daily => true,
        ReminderRecurrence::Weekly { weekdays } => {
            let weekday = weekday_index(date, true);
            let mut i: usize = 0;
            while i < weekdays.len()
                invariant
                    0 <= i <= weekdays@.len(),
                    weekday < 7,
                    weekday == weekday_from_monday(date),
                    *recurrence == (ReminderRecurrence::Weekly { weekdays: *weekdays }),
                    forall|k: int| 0 <= k < i ==> weekdays@[k] != weekday,
                decreases weekdays@.len() - i,
            {
                if weekdays[i] as u32 == weekday {
                    assert(weekdays@[i as int] == weekday_from_monday(date));
                    assert(weekday_chosen(weekdays@, weekday_from_monday(date)));
                    return true;
                }
                i = i + 1;
            }
            false
        },
        ReminderRecurrence::Monthly { day } => {
            let last = days_in_month(date.year, date.month);
            let wanted = if (*day as u32) < last { *day as u32 } else { last };
            date.day == wanted
        },
        ReminderRecurrence::Yearly { month, day } => {
            if date.month != *month as u32 {
                false
            } else {
                let last = days_in_month(date.year, *month as u32);
                let wanted = if (*day as u32) < last { *day as u32 } else { last };
                date.day == wanted
            }
        },
    }
}

/// The alert sound lengths offered; anything else falls back to twenty seconds.
pub open spec fn allowed_alert_seconds(seconds: u8) -> bool {
    seconds == 0 || seconds == 1 || seconds == 5 || seconds == 10 || seconds == 20 || seconds == 30
}

/// An alert sound length the settings offer: an offered one is kept,
/// anything else becomes twenty seconds.
pub fn normalize_alert_sound_duration_seconds(seconds: u8) -> (normalized: u8)
    ensures
        normalized == if allowed_alert_seconds(seconds) {
            seconds
        } else {
            20
        },
{
    if seconds == 0 || seconds == 1 || seconds == 5 || seconds == 10 || seconds == 20 || seconds
        == 30 {
        seconds
    } else {
        20
    }
}

/// The hours the time slider labels for a number of clock columns.
pub open spec fn hour_labels(clock_count: nat) -> Seq<i32> {
    if clock_count <= 1 {
        seq![0, 12, 24]
    } else if clock_count == 2 {
        seq![0, 6, 12, 18, 24]
    } else if clock_count == 3 {
        seq![0, 3, 6, 9, 12, 15, 18, 21, 24]
    } else {
        Seq::new(13, |i: int| (2 * i) as i32)
    }
}

/// The hours the time slider labels: fewer labels when more clocks share the width.
pub fn slider_hour_labels(clock_count: usize) -> (labels: Vec<i32>)
    ensures
        labels@ == hour_labels(clock_count as nat),
{
    if clock_count <= 1 {
        vec![0, 12, 24]
    } else if clock_count == 2 {
        vec![0, 6, 12, 18, 24]
    } else if clock_count == 3 {
        vec![0, 3, 6, 9, 12, 15, 18, 21, 24]
    } else {
        let mut labels: Vec<i32> = Vec::new();
        let mut hour: i32 = 0;
        while hour <= 24
            invariant
                0 <= hour <= 26,
                hour % 2 == 0,
                labels@ =~= Seq::new((hour / 2) as nat, |i: int| (2 * i) as i32),
            decreases 26 - hour,
        {
            labels.push(hour);
            hour = hour + 2;
        }
        labels
    }
}

/// The local time of an alarm's schedule.
pub open spec fn alarm_local_time(alarm: Alarm) -> Seq<char> {
    match alarm.schedule {
        AlarmSchedule::Once { local_time, .. } => local_time@,
        AlarmSchedule::Weekly { local_time, .. } => local_time@,
    }
}

/// An alarm's time and zone, such as `07:30 · Europe/Kyiv`.
pub fn alarm_time_label(alarm: &Alarm) -> (label: String)
    ensures
        label@ == alarm_local_time(*alarm) + " · "@ + alarm.time_zone@,
{
    let local_time = match &alarm.schedule {
        AlarmSchedule::Once { local_time, .. } => local_time,
        AlarmSchedule::Weekly { local_time, .. } => local_time,
    };
    let mut label = String::new();
    push_str(&mut label, local_time.as_str());
    push_str(&mut label, " · ");
    push_str(&mut label, alarm.time_zone.as_str());
    label
}

/// The index of the first main clock, or 0 when none is main.
pub fn main_clock_index(clocks: &[Clock]) -> (index: usize)
    ensures
        index == first_main_index(clocks@),
{
    if clocks.len() == 0 {
        return 0;
    }
    proof {
        lemma_first_main_index(clocks@);
    }
    let mut i: usize = 0;
    while i < clocks.len()
        invariant
            0 <= i <= clocks@.len(),
            forall|k: int| 0 <= k < i ==> !#[trigger] clocks@[k].is_main,
            clocks@.len() > 0,
            0 <= first_main_index(clocks@) < clocks@.len(),
            (exists|k: int| 0 <= k < clocks@.len() && clocks@[k].is_main) ==> {
                &&& clocks@[first_main_index(clocks@)].is_main
                &&& forall|k: int| 0 <= k < first_main_index(clocks@) ==> !#[trigger] clocks@[k].is_main
            },
            !(exists|k: int| 0 <= k < clocks@.len() && clocks@[k].is_main) ==> first_main_index(clocks@) == 0,
        decreases clocks@.len() - i,
    {
        if clocks[i].is_main {
            assert(clocks@[i as int].is_main);
            return i;
        }
        i = i + 1;
    }
    0
}

/// The text without the `#` signs it starts with.
pub open spec fn without_leading_hashes(s: Seq<char>) -> Seq<char>
    decreases s.len(),
{
    if s.len() > 0 && s[0] == '#' {
        without_leading_hashes(s.drop_first())
    } else {
        s
    }
}

/// A hexadecimal digit, in either case.
pub open spec fn is_hex_digit(c: char) -> bool {
    ('0' <= c && c <= '9') || ('a' <= c && c <= 'f') || ('A' <= c && c <= 'F')
}

/// A hexadecimal digit in upper case.
pub open spec fn hex_upper(c: char) -> char {
    if c == 'a' {
        'A'
    } else if c == 'b' {
        'B'
    } else if c == 'c' {
        'C'
    } else if c == 'd' {
        'D'
    } else if c == 'e' {
        'E'
    } else if c == 'f' {
        'F'
    } else {
        c
    }
}

/// The border color a text names: six hexadecimal digits after optional
/// `#` signs and surrounding white space, written `#RRGGBB` in upper case.
pub open spec fn border_color(value: Seq<char>) -> Option<Seq<char>> {
    let digits = without_leading_hashes(trimmed(value));
    if digits.len() == 6 && forall|i: int| 0 <= i < 6 ==> is_hex_digit(#[trigger] digits[i]) {
        Some(seq!['#'] + digits.map_values(|c: char| hex_upper(c)))
    } else {
        None
    }
}

fn upper_hex_char(c: char) -> (upper: char)
    ensures
        upper == hex_upper(c),
{
    if c == 'a' {
        'A'
    } else if c == 'b' {
        'B'
    } else if c == 'c' {
        'C'
    } else if c == 'd' {
        'D'
    } else if c == 'e' {
        'E'
    } else if c == 'f' {
        'F'
    } else {
        c
    }
}

/// The border color a text names, as `#RRGGBB`; `None` when it names none.
pub fn normalize_border_color(value: &str) -> (color: Option<String>)
    ensures
        match color {
            Some(c) => border_color(value@) == Some(c@),
            None => border_color(value@) is None,
        },
{
    let trimmed_value = trim_text(value);
    let t = trimmed_value.as_str();
    let n = t.unicode_len();
    let mut start: usize = 0;
    assert(t@.skip(0) =~= t@);
    while start < n && t.get_char(start) == '#'
        invariant
            n == t@.len(),
            0 <= start <= n,
            without_leading_hashes(t@.skip(start as int)) == without_leading_hashes(t@),
        decreases n - start,
    {
        proof {
            assert(t@.skip(start as int + 1) =~= t@.skip(start as int).drop_first());
        }
        start = start + 1;
    }
    let ghost digits = t@.skip(start as int);
    assert(without_leading_hashes(digits) == digits);
    if n - start != 6 {
        return None;
    }
    let mut color = String::new();
    push_char(&mut color, '#');
    let mut i: usize = start;
    while i < n
        invariant
            n == t@.len(),
            0 <= start <= i <= n,
            n - start == 6,
            digits == t@.skip(start as int),
            digits == without_leading_hashes(trimmed(value@)),
            forall|k: int| 0 <= k < i - start ==> is_hex_digit(#[trigger] digits[k]),
            color@ == seq!['#'] + digits.take(i - start).map_values(|c: char| hex_upper(c)),
        decreases n - i,
    {
        let c = t.get_char(i);
        if !(('0' <= c && c <= '9') || ('a' <= c && c <= 'f') || ('A' <= c && c <= 'F')) {
            assert(!is_hex_digit(digits[i - start]));
            return None;
        }
        push_char(&mut color, upper_hex_char(c));
        proof {
            assert(digits.take(i - start + 1) =~= digits.take(i - start).push(c));
        }
        i = i + 1;
        assert(color@ =~= seq!['#'] + digits.take(i - start).map_values(|c: char| hex_upper(c)));
    }
    assert(digits.take(6) =~= digits);
    Some(color)
}

/// A time zone offered in the settings: its IANA identifier, the label
/// shown, and its offset from UTC at the moment the list was built.
#[derive(Clone, Debug)]
pub struct TimeZoneOption {
    pub id: String,
    pub display_name: String,
    pub offset_seconds: i32,
}

/// The label of a zone: its offset from UTC as `(UTC+hh:mm)`, then its identifier.
pub open spec fn zone_label(offset_seconds: i32, id: Seq<char>) -> Seq<char> {
    let minutes = (if offset_seconds < 0 { -(offset_seconds as int) } else { offset_seconds as int }) / 60;
    "(UTC"@ + seq![if offset_seconds < 0 { '-' } else { '+' }] + padded2((minutes / 60) as nat)
        + seq![':'] + padded2((minutes % 60) as nat) + ") "@ + id
}

/// The label of a zone, such as `(UTC+05:45) Asia/Kathmandu`.
pub fn time_zone_display_name(id: &str, offset_seconds: i32) -> (label: String)
    ensures
        label@ == zone_label(offset_seconds, id@),
{
    let magnitude: u32 = if offset_seconds < 0 {
        (-(offset_seconds as i64)) as u32
    } else {
        offset_seconds as u32
    };
    let minutes = magnitude / 60;
    let mut label = String::new();
    push_str(&mut label, "(UTC");
    push_char(&mut label, if offset_seconds < 0 { '-' } else { '+' });
    push_padded2(&mut label, (minutes / 60) as u128);
    push_char(&mut label, ':');
    push_padded2(&mut label, (minutes % 60) as u128);
    push_str(&mut label, ") ");
    push_str(&mut label, id);
    proof {
        reveal_strlit("(UTC");
        reveal_strlit(") ");
    }
    assert(label@ =~= zone_label(offset_seconds, id@));
    label
}

/// The offsets from UTC of the bundled time zones at `now`, in the order the
/// time zone database lists them.
pub uninterp spec fn zone_offsets_at(now: Instant) -> Seq<(Seq<char>, i32)>;

/// Lists chrono-tz's `TZ_VARIANTS` with each zone's name and its offset from
/// UTC at `now` (`offset_from_utc_datetime`, then `fix().local_minus_utc()`).
/// Claimed: the list is the named one.
#[verifier::external_body]
fn bundled_zone_offsets(now: Instant) -> (zones: Vec<(String, i32)>)
    requires
        representable(now),
    ensures
        zones@.len() == zone_offsets_at(now).len(),
        forall|i: int|
            0 <= i < zones@.len() ==> #[trigger] zones@[i].0@ == zone_offsets_at(now)[i].0
                && zones@[i].1 == zone_offsets_at(now)[i].1,
{
    let moment = chrono::DateTime::<chrono::Utc>::from_timestamp(now.seconds, now.nanos).unwrap();
    chrono_tz::TZ_VARIANTS
        .iter()
        .map(|zone| (zone.name().to_string(), zone.offset_from_utc_datetime(&moment.naive_utc()).fix().local_minus_utc()))
        .collect()
}

impl Ranked for TimeZoneOption {
    open spec fn precedes(&self, other: &Self) -> bool {
        ||| self.offset_seconds < other.offset_seconds
        ||| (self.offset_seconds == other.offset_seconds && text_before(self.id@, other.id@))
    }

    fn check_precedes(&self, other: &Self) -> (before: bool) {
        self.offset_seconds < other.offset_seconds || (self.offset_seconds == other.offset_seconds
            && text_less(self.id.as_str(), other.id.as_str()))
    }
}

proof fn lemma_zone_order()
    ensures
        strict_order::<TimeZoneOption>(),
{
    assert forall|a: TimeZoneOption| !#[trigger] a.precedes(&a) by {
        lemma_text_before_irreflexive(a.id@);
    }
    assert forall|a: TimeZoneOption, b: TimeZoneOption, c: TimeZoneOption|
        #[trigger] a.precedes(&b) && #[trigger] b.precedes(&c) implies a.precedes(&c) by {
        if a.offset_seconds == b.offset_seconds && b.offset_seconds == c.offset_seconds {
            lemma_text_before_transitive(a.id@, b.id@, c.id@);
        }
    }
}

/// The option built for a bundled zone.
pub open spec fn zone_option_matches(option: TimeZoneOption, zone: (Seq<char>, i32)) -> bool {
    &&& option.id@ == zone.0
    &&& option.offset_seconds == zone.1
    &&& option.display_name@ == zone_label(zone.1, zone.0)
}

/// The zones offered in the settings at `now`, by offset and then identifier.
pub fn time_zone_options(now: Instant) -> (options: Vec<TimeZoneOption>)
    requires
        representable(now),
    ensures
        exists|unsorted: Seq<TimeZoneOption>|
            #![trigger unsorted.to_multiset()]
            {
                &&& unsorted.len() == zone_offsets_at(now).len()
                &&& forall|i: int| 0 <= i < unsorted.len() ==> #[trigger] zone_option_matches(unsorted[i], zone_offsets_at(now)[i])
                &&& options@.to_multiset() == unsorted.to_multiset()
                &&& ranked_sorted(options@)
            },
{
    let zones = bundled_zone_offsets(now);
    let mut unsorted: Vec<TimeZoneOption> = Vec::new();
    let mut i: usize = 0;
    while i < zones.len()
        invariant
            0 <= i <= zones@.len(),
            zones@.len() == zone_offsets_at(now).len(),
            forall|k: int|
                0 <= k < zones@.len() ==> #[trigger] zones@[k].0@ == zone_offsets_at(now)[k].0
                    && zones@[k].1 == zone_offsets_at(now)[k].1,
            unsorted@.len() == i,
            forall|k: int| 0 <= k < i ==> #[trigger] zone_option_matches(unsorted@[k], zone_offsets_at(now)[k]),
        decreases zones@.len() - i,
    {
        let zone = &zones[i];
        let display_name = time_zone_display_name(zone.0.as_str(), zone.1);
        unsorted.push(TimeZoneOption { id: zone.0.clone(), display_name, offset_seconds: zone.1 });
        proof {
            assert(zones@[i as int].0@ == zone_offsets_at(now)[i as int].0);
        }
        i = i + 1;
    }
    proof {
        lemma_zone_order();
    }
    let ghost built = unsorted@;
    let options = sort_ranked(unsorted);
    assert(options@.to_multiset() == built.to_multiset());
    options
}

/// The lower-case form of a text, by Unicode's rules.
pub uninterp spec fn lower_case(text: Seq<char>) -> Seq<char>;

/// std's `str::to_lowercase`. Claimed: the result is the named lower-case form.
#[verifier::external_body]
fn to_lower_case(text: &str) -> (lower: String)
    ensures
        lower@ == lower_case(text@),
{
    text.to_lowercase()
}

/// Whether `needle` occurs in `haystack`.
pub open spec fn contains_text(haystack: Seq<char>, needle: Seq<char>) -> bool {
    exists|i: int| 0 <= i <= haystack.len() - needle.len() && #[trigger] haystack.subrange(i, i + needle.len()) == needle
}

/// Whether `needle` occurs in `haystack`.
pub fn text_contains(haystack: &str, needle: &str) -> (found: bool)
    ensures
        found == contains_text(haystack@, needle@),
{
    let n = haystack.unicode_len();
    let m = needle.unicode_len();
    if m > n {
        return false;
    }
    let mut i: usize = 0;
    while i <= n - m
        invariant
            n == haystack@.len(),
            m == needle@.len(),
            m <= n,
            0 <= i <= n - m + 1,
            forall|k: int| 0 <= k < i ==> #[trigger] haystack@.subrange(k, k + m) != needle@,
        decreases n - m + 1 - i,
    {
        let mut j: usize = 0;
        while j < m && haystack.get_char(i + j) == needle.get_char(j)
            invariant
                n == haystack@.len(),
                m == needle@.len(),
                i + m <= n,
                0 <= j <= m,
                forall|k: int| 0 <= k < j ==> haystack@[i + k] == needle@[k],
            decreases m - j,
        {
            j = j + 1;
        }
        if j == m {
            assert(haystack@.subrange(i as int, i + m) =~= needle@);
            return true;
        }
        assert(haystack@.subrange(i as int, i + m)[j as int] != needle@[j as int]);
        i = i + 1;
    }
    false
}

/// Whether an option answers a lower-case query: an empty query matches
/// everything, otherwise the identifier or the label must contain it.
pub open spec fn option_matches(option: TimeZoneOption, query: Seq<char>) -> bool {
    query.len() == 0 || contains_text(lower_case(option.id@), query) || contains_text(
        lower_case(option.display_name@),
        query,
    )
}

/// The options that answer a query, in their order.
pub open spec fn matching_options(options: Seq<TimeZoneOption>, query: Seq<char>) -> Seq<TimeZoneOption>
    decreases options.len(),
{
    if options.len() == 0 {
        Seq::empty()
    } else {
        let rest = matching_options(options.drop_last(), query);
        if option_matches(options.last(), query) {
            rest.push(options.last())
        } else {
            rest
        }
    }
}

fn copy_option(option: &TimeZoneOption) -> (copy: TimeZoneOption)
    ensures
        copy == *option,
{
    TimeZoneOption {
        id: option.id.clone(),
        display_name: option.display_name.clone(),
        offset_seconds: option.offset_seconds,
    }
}

/// The options whose identifier or label contains the query, ignoring case
/// and the white space around the query; all of them for a blank query.
pub fn filter_time_zone_options(time_zones: &Vec<TimeZoneOption>, query: &str) -> (filtered: Vec<TimeZoneOption>)
    ensures
        filtered@ == matching_options(time_zones@, lower_case(trimmed(query@))),
{
    let trimmed_query = trim_text(query);
    let lowered = to_lower_case(trimmed_query.as_str());
    let q = lowered.as_str();
    let empty = q.unicode_len() == 0;
    let mut filtered: Vec<TimeZoneOption> = Vec::new();
    let mut i: usize = 0;
    while i < time_zones.len()
        invariant
            0 <= i <= time_zones@.len(),
            q@ == lower_case(trimmed(query@)),
            empty == (q@.len() == 0),
            filtered@ == matching_options(time_zones@.take(i as int), q@),
        decreases time_zones@.len() - i,
    {
        proof {
            assert(time_zones@.take(i as int + 1).drop_last() =~= time_zones@.take(i as int));
        }
        let option = &time_zones[i];
        let keep = if empty {
            true
        } else {
            let id_lower = to_lower_case(option.id.as_str());
            if text_contains(id_lower.as_str(), q) {
                true
            } else {
                let label_lower = to_lower_case(option.display_name.as_str());
                text_contains(label_lower.as_str(), q)
            }
        };
        if keep {
            filtered.push(copy_option(option));
        }
        i = i + 1;
    }
    proof {
        assert(time_zones@.take(time_zones@.len() as int) =~= time_zones@);
    }
    filtered
}

/// Position of the first option with the identifier, or none.
pub open spec fn option_position(options: Seq<TimeZoneOption>, id: Seq<char>) -> Option<int>
    decreases options.len(),
{
    if options.len() == 0 {
        None
    } else if options[0].id@ == id {
        Some(0)
    } else {
        match option_position(options.drop_first(), id) {
            Some(p) => Some(p + 1),
            None => None,
        }
    }
}

/// The option the zone list selects: the active zone when listed, else the
/// first option, else `-1` for an empty list.
pub fn filtered_time_zone_index(filtered: &Vec<TimeZoneOption>, active_zone: &str) -> (index: i32)
    requires
        filtered@.len() <= i32::MAX,
    ensures
        index == match option_position(filtered@, active_zone@) {
            Some(p) => p,
            None => if filtered@.len() > 0 {
                0
            } else {
                -1
            },
        },
{
    let mut i: usize = 0;
    assert(filtered@.skip(0) =~= filtered@);
    while i < filtered.len()
        invariant
            0 <= i <= filtered@.len(),
            filtered@.len() <= i32::MAX,
            option_position(filtered@, active_zone@) == match option_position(filtered@.skip(i as int), active_zone@) {
                Some(p) => Some(p + i),
                None => None,
            },
        decreases filtered@.len() - i,
    {
        proof {
            assert(filtered@.skip(i as int).drop_first() =~= filtered@.skip(i as int + 1));
            assert(filtered@.skip(i as int)[0] == filtered@[i as int]);
        }
        if text_equals(filtered[i].id.as_str(), active_zone) {
            return i as i32;
        }
        i = i + 1;
    }
    if filtered.len() > 0 {
        0
    } else {
        -1
    }
}

/// A log entry on one line: every line break becomes a space.
pub open spec fn single_line(value: Seq<char>) -> Seq<char> {
    value.map_values(|c: char| if c == '\n' || c == '\r' { ' ' } else { c })
}

/// The text with each line break replaced by a space.
pub fn sanitize(value: &str) -> (clean: String)
    ensures
        clean@ == single_line(value@),
{
    let n = value.unicode_len();
    let mut clean = String::new();
    let mut i: usize = 0;
    while i < n
        invariant
            n == value@.len(),
            0 <= i <= n,
            clean@ == single_line(value@.take(i as int)),
        decreases n - i,
    {
        let c = value.get_char(i);
        push_char(&mut clean, if c == '\n' || c == '\r' { ' ' } else { c });
        proof {
            assert(value@.take(i as int + 1) =~= value@.take(i as int).push(c));
        }
        i = i + 1;
        assert(clean@ =~= single_line(value@.take(i as int)));
    }
    assert(value@.take(n as int) =~= value@);
    clean
}

/// The time stamp of a log entry: milliseconds since the Unix epoch, or a
/// note that the clock reads a time before it.
pub open spec fn log_timestamp(millis_since_epoch: Option<u128>) -> Seq<char> {
    match millis_since_epoch {
        Some(ms) => "unix-ms="@ + decimal(ms as nat),
        None => "unix-ms=before-epoch"@,
    }
}

/// The time stamp of a log entry for the clock reading given.
pub fn timestamp(millis_since_epoch: Option<u128>) -> (stamp: String)
    ensures
        stamp@ == log_timestamp(millis_since_epoch),
{
    let mut stamp = String::new();
    match millis_since_epoch {
        Some(ms) => {
            push_str(&mut stamp, "unix-ms=");
            push_decimal(&mut stamp, ms);
        },
        None => {
            push_str(&mut stamp, "unix-ms=before-epoch");
        },
    }
    stamp
}

/// Size at which the diagnostics log starts over.
pub const MAX_LOG_BYTES: u64 = 262_144;

/// Bytes of one entry that are written at most.
pub const MAX_ENTRY_BYTES: usize = 8_192;

/// A log entry: the time stamp, a space, the event and a line break.
pub fn log_entry(stamp: &str, event: &str) -> (entry: String)
    ensures
        entry@ == stamp@ + seq![' '] + event@ + seq!['\n'],
{
    let mut entry = String::new();
    push_str(&mut entry, stamp);
    push_char(&mut entry, ' ');
    push_str(&mut entry, event);
    push_char(&mut entry, '\n');
    entry
}

/// Whether a log of this size is emptied before the next entry.
pub fn log_needs_rotation(size: u64) -> (rotate: bool)
    ensures
        rotate == (size >= MAX_LOG_BYTES),
{
    size >= MAX_LOG_BYTES
}

/// How many bytes of an entry of `len` bytes are written.
pub fn entry_bytes_written(len: usize) -> (written: usize)
    ensures
        written == if len < MAX_ENTRY_BYTES { len } else { MAX_ENTRY_BYTES },
{
    if len < MAX_ENTRY_BYTES {
        len
    } else {
        MAX_ENTRY_BYTES
    }
}

/// A day of the date picker.
#[derive(Clone, Debug)]
pub struct PickerDay {
    pub label: String,
    pub date: String,
    pub in_month: bool,
    pub enabled: bool,
    pub selected: bool,
    pub today: bool,
}

/// What a day of the date picker shows for `date`: its day number, its
/// `%Y-%m-%d` text, whether it lies in the shown month, whether it can be
/// picked (today or later), and whether it is the selected date or today.
pub open spec fn picker_day_shows(
    cell: PickerDay,
    date: CalendarDate,
    anchor: CalendarDate,
    selected: Option<CalendarDate>,
    today: CalendarDate,
) -> bool {
    &&& cell.label@ == decimal(date.day as nat)
    &&& cell.date@ == iso_text(date)
    &&& cell.in_month == (date.month == anchor.month && date.year == anchor.year)
    &&& cell.enabled == (day_number(date) >= day_number(today))
    &&& cell.selected == (selected == Some(date))
    &&& cell.today == (date == today)
}

/// The six Monday-first weeks that hold the month of `anchor`, for
/// picking a date: days before `today` cannot be picked.
pub fn date_picker_days(anchor: CalendarDate, selected: Option<CalendarDate>, today: CalendarDate) -> (days: Vec<PickerDay>)
    requires
        is_supported_date(anchor),
        is_supported_date(today),
        in_supported_range(month_grid_start(anchor.year, anchor.month, true)),
        in_supported_range(month_grid_start(anchor.year, anchor.month, true) + 42),
    ensures
        days@.len() == 42,
        forall|i: int| 0 <= i < 42 ==> picker_day_shows(
            #[trigger] days@[i],
            date_numbered(month_grid_start(anchor.year, anchor.month, true) + i),
            anchor,
            selected,
            today,
        ),
{
    let grid = month_grid(anchor.year, anchor.month, true);
    let ghost start = month_grid_start(anchor.year, anchor.month, true);
    let mut days: Vec<PickerDay> = Vec::new();
    let mut i: usize = 0;
    while i < 42
        invariant
            is_supported_date(today),
            grid@.len() == 42,
            start == month_grid_start(anchor.year, anchor.month, true),
            forall|k: int| 0 <= k < 42 ==> #[trigger] crate::calendar::grid_day_ok(grid@[k], start, k, Some(anchor.month)),
            0 <= i <= 42,
            days@.len() == i,
            forall|k: int| 0 <= k < i ==> picker_day_shows(#[trigger] days@[k], date_numbered(start + k), anchor, selected, today),
        decreases 42 - i,
    {
        let cell = grid[i];
        let date = cell.date;
        proof {
            assert(crate::calendar::grid_day_ok(grid@[i as int], start, i as int, Some(anchor.month)));
            lemma_day_number_injective(date, date_numbered(start + i));
        }
        let is_selected = match selected {
            Some(s) => s.year == date.year && s.month == date.month && s.day == date.day,
            None => false,
        };
        days.push(PickerDay {
            label: decimal_text(date.day as u128),
            date: format_iso_date(date),
            in_month: !cell.outside_month && date.year == anchor.year,
            enabled: days_between(today, date) >= 0,
            selected: is_selected,
            today: date.year == today.year && date.month == today.month && date.day == today.day,
        });
        i = i + 1;
    }
    days
}

/// Whether a window stands somewhere else than where it stood: both
/// positions known and different.
pub open spec fn moved_between(before: Option<(i32, i32)>, after: Option<(i32, i32)>) -> bool {
    before matches Some(b) && after matches Some(a) && a != b
}

/// Whether a window stands somewhere else than where it stood.
pub fn position_changed(before: Option<(i32, i32)>, after: Option<(i32, i32)>) -> (changed: bool)
    ensures
        changed == moved_between(before, after),
{
    match (before, after) {
        (Some(b), Some(a)) => b.0 != a.0 || b.1 != a.1,
        _ => false,
    }
}

/// Whether a drag moved the window: it reported a move, or the window
/// stands elsewhere than where the drag started.
pub fn drag_moved(moved_during_drag: bool, start: Option<(i32, i32)>, current: Option<(i32, i32)>) -> (moved: bool)
    ensures
        moved == match start {
            Some(_) => moved_during_drag || moved_between(start, current),
            None => moved_during_drag,
        },
{
    match start {
        Some(_) => moved_during_drag || position_changed(start, current),
        None => moved_during_drag,
    }
}

} // verus!
