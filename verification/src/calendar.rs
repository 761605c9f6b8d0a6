//! Gregorian calendar dates, the grids the calendar shows, and date navigation.

use vstd::prelude::*;
use chrono::Datelike;
use crate::text::{decimal, padded2};

verus! {

/// Earliest year a date can have.
pub const MIN_YEAR: i32 = -262143;

/// Latest year a date can have.
pub const MAX_YEAR: i32 = 262142;

/// A calendar date; every value built by this library is a valid date in range.
#[derive(Clone, Copy, Debug, PartialEq, Eq, Structural)]
pub struct CalendarDate {
    pub year: i32,
    pub month: u32,
    pub day: u32,
}

/// One cell of a calendar grid.
#[derive(Clone, Copy, Debug, PartialEq, Eq, Structural)]
pub struct CalendarDay {
    pub date: CalendarDate,
    pub outside_month: bool,
    pub weekend: bool,
}

/// Leap years of the proleptic Gregorian calendar.
pub open spec fn is_leap_year(year: int) -> bool {
    (year % 4 == 0 && year % 100 != 0) || year % 400 == 0
}

/// Number of days in a month (1 to 12).
pub open spec fn month_length(year: int, month: int) -> int {
    if month == 2 {
        if is_leap_year(year) {
            29
        } else {
            28
        }
    } else if month == 4 || month == 6 || month == 9 || month == 11 {
        30
    } else {
        31
    }
}

/// A date that exists in the proleptic Gregorian calendar.
pub open spec fn is_valid_ymd(year: int, month: int, day: int) -> bool {
    1 <= month <= 12 && 1 <= day <= month_length(year, month)
}

/// A date that exists and lies in the supported year range.
pub open spec fn is_supported_date(date: CalendarDate) -> bool {
    &&& is_valid_ymd(date.year as int, date.month as int, date.day as int)
    &&& MIN_YEAR <= date.year <= MAX_YEAR
}

/// Days from 0001-01-01 to the first day of `year`.
pub open spec fn days_before_year(year: int) -> int {
    let y = year - 1;
    365 * y + y / 4 - y / 100 + y / 400
}

/// Days from the first of January to the first day of `month`.
pub open spec fn days_before_month(year: int, month: int) -> int
    decreases month,
{
    if month <= 1 {
        0
    } else {
        days_before_month(year, month - 1) + month_length(year, month - 1)
    }
}

/// Consecutive day number of a date; 0001-01-01 has number 0.
pub open spec fn day_number(date: CalendarDate) -> int {
    days_before_year(date.year as int) + days_before_month(date.year as int, date.month as int)
        + date.day - 1
}

/// Day of the week counted from Monday (0) to Sunday (6); 0001-01-01 was a Monday.
pub open spec fn weekday_from_monday(date: CalendarDate) -> int {
    day_number(date) % 7
}

/// Day of the week counted from Sunday (0) to Saturday (6).
pub open spec fn weekday_from_sunday(date: CalendarDate) -> int {
    (day_number(date) + 1) % 7
}

/// Position of a date in a week that starts on Monday or on Sunday.
pub open spec fn week_position(date: CalendarDate, monday_first: bool) -> int {
    if monday_first {
        weekday_from_monday(date)
    } else {
        weekday_from_sunday(date)
    }
}

/// Saturday or Sunday.
pub open spec fn is_weekend(date: CalendarDate) -> bool {
    weekday_from_monday(date) >= 5
}

/// Day numbers of the first and the last supported dates.
pub open spec fn first_day_number() -> int {
    day_number(CalendarDate { year: MIN_YEAR, month: 1, day: 1 })
}

pub open spec fn last_day_number() -> int {
    day_number(CalendarDate { year: MAX_YEAR, month: 12, day: 31 })
}

/// A day number that belongs to a supported date.
pub open spec fn in_supported_range(n: int) -> bool {
    first_day_number() <= n <= last_day_number()
}

/// A year holds 365 days, plus one in a leap year.
pub proof fn lemma_year_length(year: int)
    ensures
        days_before_year(year + 1) == days_before_year(year) + 365 + if is_leap_year(year) {
            1int
        } else {
            0int
        },
{
    let y = year - 1;
    assert(year / 4 - y / 4 == if year % 4 == 0 { 1int } else { 0int });
    assert(year / 100 - y / 100 == if year % 100 == 0 { 1int } else { 0int });
    assert(year / 400 - y / 400 == if year % 400 == 0 { 1int } else { 0int });
}

/// Later years start later.
pub proof fn lemma_days_before_year_monotone(a: int, b: int)
    requires
        a <= b,
    ensures
        days_before_year(a) <= days_before_year(b),
        days_before_year(a) + 365 * (b - a) <= days_before_year(b),
{
    let x = a - 1;
    let y = b - 1;
    assert(y / 4 >= x / 4);
    assert(y / 400 >= x / 400);
    assert(y / 4 == 25 * (y / 100) + (y % 100) / 4);
    assert(x / 4 == 25 * (x / 100) + (x % 100) / 4);
    assert(y / 100 >= x / 100);
    assert(y / 100 - x / 100 <= y / 4 - x / 4);
}

/// The months of a year fit in the year.
pub proof fn lemma_month_offsets(year: int, month: int)
    requires
        1 <= month <= 12,
    ensures
        0 <= days_before_month(year, month),
        days_before_month(year, month) + month_length(year, month) <= 365 + if is_leap_year(
            year,
        ) {
            1int
        } else {
            0int
        },
        days_before_month(year, 12) == 334 + if is_leap_year(year) {
            1int
        } else {
            0int
        },
{
    reveal_with_fuel(days_before_month, 13);
}

/// Every supported date has a day number between the first and the last supported day.
pub proof fn lemma_supported_date_in_range(date: CalendarDate)
    requires
        is_supported_date(date),
    ensures
        in_supported_range(day_number(date)),
{
    let y = date.year as int;
    lemma_month_offsets(y, date.month as int);
    lemma_month_offsets(MAX_YEAR as int, 12);
    lemma_days_before_year_monotone(MIN_YEAR as int, y);
    lemma_days_before_year_monotone(y + 1, MAX_YEAR as int + 1);
    lemma_year_length(y);
    lemma_year_length(MAX_YEAR as int);
    reveal_with_fuel(days_before_month, 2);
}

/// The day numbers of the first and the last supported dates.
pub proof fn lemma_day_number_span()
    ensures
        first_day_number() == -95_746_130,
        last_day_number() == 95_745_398,
{
    reveal_with_fuel(days_before_month, 12);
}

/// The date `year`-`month`-`day`, or `None` when it does not exist or is out of range.
#[verifier::external_body]
fn chrono_date(year: i32, month: u32, day: u32) -> (found: Option<CalendarDate>)
    ensures
        found is Some <==> (is_valid_ymd(year as int, month as int, day as int) && MIN_YEAR <= year
            <= MAX_YEAR),
        found matches Some(d) ==> d == (CalendarDate { year, month, day }),
{
    match chrono::NaiveDate::from_ymd_opt(year, month, day) {
        Some(_) => Some(CalendarDate { year, month, day }),
        None => None,
    }
}

/// The date `delta` days after `date`, or `None` when that leaves the supported range.
#[verifier::external_body]
fn chrono_add_days(date: CalendarDate, delta: i64) -> (shifted: Option<CalendarDate>)
    requires
        is_supported_date(date),
    ensures
        shifted is Some <==> in_supported_range(day_number(date) + delta),
        shifted matches Some(s) ==> is_supported_date(s) && day_number(s) == day_number(date)
            + delta,
{
    let naive = chrono::NaiveDate::from_ymd_opt(date.year, date.month, date.day)?;
    let moved = naive.checked_add_signed(chrono::TimeDelta::try_days(delta)?)?;
    Some(CalendarDate { year: moved.year(), month: moved.month(), day: moved.day() })
}

/// Days from `from` to `to` with chrono's `NaiveDate::signed_duration_since`
/// and `TimeDelta::num_days`. Claimed: the difference of the day numbers.
#[verifier::external_body]
pub(crate) fn days_between(from: CalendarDate, to: CalendarDate) -> (days: i64)
    requires
        is_supported_date(from),
        is_supported_date(to),
    ensures
        days == day_number(to) - day_number(from),
{
    let from = chrono::NaiveDate::from_ymd_opt(from.year, from.month, from.day).unwrap();
    let to = chrono::NaiveDate::from_ymd_opt(to.year, to.month, to.day).unwrap();
    to.signed_duration_since(from).num_days()
}

/// Day of the week of a date, counted from Monday.
#[verifier::external_body]
fn chrono_weekday_from_monday(date: CalendarDate) -> (weekday: u32)
    requires
        is_supported_date(date),
    ensures
        weekday == weekday_from_monday(date),
{
    match chrono::NaiveDate::from_ymd_opt(date.year, date.month, date.day) {
        Some(naive) => naive.weekday().num_days_from_monday(),
        None => 0,
    }
}

/// The date a `%Y-%m-%d` text denotes, if it is one.
pub uninterp spec fn iso_date(text: Seq<char>) -> Option<CalendarDate>;

/// Reads a date with chrono's `NaiveDate::parse_from_str` and the format
/// `%Y-%m-%d`. Claimed: the result is the named date of the text, and a date
/// read is a real date of chrono's range.
#[verifier::external_body]
pub(crate) fn parse_iso_date(text: &str) -> (date: Option<CalendarDate>)
    ensures
        date == iso_date(text@),
        date matches Some(d) ==> is_supported_date(d),
{
    match chrono::NaiveDate::parse_from_str(text, "%Y-%m-%d") {
        Ok(naive) => Some(CalendarDate { year: naive.year(), month: naive.month(), day: naive.day() }),
        Err(_) => None,
    }
}

/// Decimal notation of a natural number, padded with zeros to four digits.
pub open spec fn padded4(n: nat) -> Seq<char> {
    if n < 10 {
        seq!['0', '0', '0'] + decimal(n)
    } else if n < 100 {
        seq!['0', '0'] + decimal(n)
    } else if n < 1000 {
        seq!['0'] + decimal(n)
    } else {
        decimal(n)
    }
}

/// A year as `%Y` writes it: four digits for the years 0 to 9999, otherwise
/// a sign and at least four digits.
pub open spec fn year_text(year: int) -> Seq<char> {
    if 0 <= year <= 9999 {
        padded4(year as nat)
    } else if year < 0 {
        seq!['-'] + padded4((-year) as nat)
    } else {
        seq!['+'] + padded4(year as nat)
    }
}

/// The `%Y-%m-%d` text of a date.
pub open spec fn iso_text(date: CalendarDate) -> Seq<char> {
    year_text(date.year as int) + seq!['-'] + padded2(date.month as nat) + seq!['-'] + padded2(date.day as nat)
}

/// Writes a date with chrono's `Display` for `NaiveDate`, which writes the
/// year with four digits for the years 0 to 9999 and otherwise as
/// `{:+05}` (a sign and at least four digits), then the month and the day
/// with two digits each, joined by `-`. Claimed: the text is that one.
#[verifier::external_body]
pub(crate) fn format_iso_date(date: CalendarDate) -> (text: String)
    requires
        is_supported_date(date),
    ensures
        text@ == iso_text(date),
{
    chrono::NaiveDate::from_ymd_opt(date.year, date.month, date.day).unwrap().to_string()
}

impl CalendarDate {
    /// The date, or `None` when it does not exist or lies outside the supported years.
    pub fn new(year: i32, month: u32, day: u32) -> (date: Option<CalendarDate>)
        ensures
            date is Some <==> is_supported_date(CalendarDate { year, month, day }),
            date matches Some(d) ==> d == (CalendarDate { year, month, day }),
    {
        chrono_date(year, month, day)
    }
}

/// Whether a year is a leap year.
pub fn is_leap(year: i32) -> (leap: bool)
    ensures
        leap == is_leap_year(year as int),
{
    // shifting by a multiple of 400 years keeps the leap rule and makes the year non-negative
    let shifted: i64 = year as i64 + 2_147_484_000;
    assert(shifted % 4 == (year as int) % 4);
    assert(shifted % 100 == (year as int) % 100);
    assert(shifted % 400 == (year as int) % 400);
    (shifted % 4 == 0 && shifted % 100 != 0) || shifted % 400 == 0
}

/// Number of days in a month.
pub fn days_in_month(year: i32, month: u32) -> (days: u32)
    requires
        1 <= month <= 12,
    ensures
        days == month_length(year as int, month as int),
{
    if month == 2 {
        if is_leap(year) {
            29
        } else {
            28
        }
    } else if month == 4 || month == 6 || month == 9 || month == 11 {
        30
    } else {
        31
    }
}

/// Position of a date in a week that starts on Monday or on Sunday.
pub fn weekday_index(date: CalendarDate, monday_first: bool) -> (index: u32)
    requires
        is_supported_date(date),
    ensures
        index == week_position(date, monday_first),
        index < 7,
{
    let from_monday = chrono_weekday_from_monday(date);
    if monday_first {
        from_monday
    } else {
        (from_monday + 1) % 7
    }
}

/// The date `delta` days away.
pub fn shift_day(date: CalendarDate, delta: i64) -> (shifted: CalendarDate)
    requires
        is_supported_date(date),
        in_supported_range(day_number(date) + delta),
    ensures
        is_supported_date(shifted),
        day_number(shifted) == day_number(date) + delta,
{
    match chrono_add_days(date, delta) {
        Some(shifted) => shifted,
        None => date,
    }
}

/// The date `delta` days away, or `None` when that leaves the supported range.
pub fn try_shift_day(date: CalendarDate, delta: i64) -> (shifted: Option<CalendarDate>)
    requires
        is_supported_date(date),
    ensures
        shifted is Some <==> in_supported_range(day_number(date) + delta),
        shifted matches Some(s) ==> is_supported_date(s) && day_number(s) == day_number(date) + delta,
{
    chrono_add_days(date, delta)
}

/// Years and months whose length the calendar can look up: the month after
/// them must still be a supported date.
pub open spec fn month_in_range(year: int, month: int) -> bool {
    &&& MIN_YEAR <= year <= MAX_YEAR
    &&& (month == 12 ==> year < MAX_YEAR)
}

/// Month position counted from January of year 0, moved by `delta` months.
pub open spec fn shifted_month_index(date: CalendarDate, delta: int) -> int {
    date.year * 12 + date.month - 1 + delta
}

/// The smaller of two day numbers within a month.
pub open spec fn clamp_day(day: int, last: int) -> int {
    if day < last {
        day
    } else {
        last
    }
}

/// The same day `delta` months away, clamped to the end of the target month.
pub fn shift_month(date: CalendarDate, delta: i32) -> (shifted: CalendarDate)
    requires
        date.month <= i32::MAX,
        i32::MIN <= date.year * 12,
        date.year * 12 + date.month <= i32::MAX,
        i32::MIN <= shifted_month_index(date, delta as int) <= i32::MAX,
        month_in_range(
            shifted_month_index(date, delta as int) / 12,
            shifted_month_index(date, delta as int) % 12 + 1,
        ),
    ensures
        shifted.year == shifted_month_index(date, delta as int) / 12,
        shifted.month == shifted_month_index(date, delta as int) % 12 + 1,
        shifted.day == clamp_day(date.day as int, month_length(shifted.year as int, shifted.month as int)),
{
    let month_index: i32 = date.year * 12 + date.month as i32 - 1 + delta;
    // shift by a multiple of 12 months to work with a non-negative index
    let lifted: i64 = month_index as i64 + 2_147_483_652;
    assert(lifted / 12 == (month_index as int) / 12 + 178_956_971);
    assert(lifted % 12 == (month_index as int) % 12);
    let year: i32 = (lifted / 12 - 178_956_971) as i32;
    let month: u32 = (lifted % 12) as u32 + 1;
    let last_day = days_in_month(year, month);
    CalendarDate { year, month, day: if date.day < last_day { date.day } else { last_day } }
}

/// The same day `delta` years away; the 29th of February becomes the 28th
/// in a common year.
pub fn shift_year(date: CalendarDate, delta: i32) -> (shifted: CalendarDate)
    requires
        1 <= date.month <= 12,
        i32::MIN <= date.year + delta <= i32::MAX,
        month_in_range(date.year + delta, date.month as int),
    ensures
        shifted.year == date.year + delta,
        shifted.month == date.month,
        shifted.day == clamp_day(date.day as int, month_length(shifted.year as int, date.month as int)),
{
    let year = date.year + delta;
    let last_day = days_in_month(year, date.month);
    CalendarDate {
        year,
        month: date.month,
        day: if date.day < last_day { date.day } else { last_day },
    }
}

/// The dates `first`, `first + 1`, ... as grid cells, `count` of them.
pub open spec fn grid_day_ok(day: CalendarDay, start: int, index: int, month: Option<u32>) -> bool {
    &&& is_supported_date(day.date)
    &&& day_number(day.date) == start + index
    &&& day.outside_month == match month {
        Option::Some(m) => day.date.month != m,
        Option::None => false,
    }
    &&& day.weekend == is_weekend(day.date)
}

/// Builds `count` consecutive days from `start`.
fn consecutive_days(start: CalendarDate, count: usize, month: Option<u32>) -> (days: Vec<CalendarDay>)
    requires
        is_supported_date(start),
        count == 0 || in_supported_range(day_number(start) + count - 1),
        count <= 42,
    ensures
        days@.len() == count,
        forall|i: int| 0 <= i < count ==> #[trigger] grid_day_ok(days@[i], day_number(start), i, month),
{
    let mut days: Vec<CalendarDay> = Vec::new();
    let mut index: usize = 0;
    while index < count
        invariant
            is_supported_date(start),
            count == 0 || in_supported_range(day_number(start) + count - 1),
            count <= 42,
            0 <= index <= count,
            days@.len() == index,
            forall|i: int| 0 <= i < index ==> #[trigger] grid_day_ok(days@[i], day_number(start), i, month),
        decreases count - index,
    {
        proof {
            lemma_supported_date_in_range(start);
        }
        let date = shift_day(start, index as i64);
        let weekend = chrono_weekday_from_monday(date) >= 5;
        let outside_month = match month {
            Some(m) => date.month != m,
            None => false,
        };
        days.push(CalendarDay { date, outside_month, weekend });
        index = index + 1;
    }
    days
}

/// Day number of the first cell of a month grid.
pub open spec fn month_grid_start(year: i32, month: u32, monday_first: bool) -> int {
    let first = CalendarDate { year, month, day: 1 };
    day_number(first) - week_position(first, monday_first)
}

/// Six complete weeks that contain the month, starting on the configured first weekday.
pub fn month_grid(year: i32, month: u32, monday_first: bool) -> (days: Vec<CalendarDay>)
    requires
        1 <= month <= 12,
        MIN_YEAR <= year <= MAX_YEAR,
        in_supported_range(month_grid_start(year, month, monday_first)),
        in_supported_range(month_grid_start(year, month, monday_first) + 41),
    ensures
        days@.len() == 42,
        forall|i: int|
            0 <= i < 42 ==> #[trigger] grid_day_ok(
                days@[i],
                month_grid_start(year, month, monday_first),
                i,
                Some(month),
            ),
{
    let first = CalendarDate { year, month, day: 1 };
    let offset = weekday_index(first, monday_first);
    let start = shift_day(first, -(offset as i64));
    consecutive_days(start, 42, Some(month))
}

/// Day number of the first cell of the week containing `selected`.
pub open spec fn week_grid_start(selected: CalendarDate, monday_first: bool) -> int {
    day_number(selected) - week_position(selected, monday_first)
}

/// The week that contains `selected`, starting on the configured first weekday.
pub fn week_grid(selected: CalendarDate, monday_first: bool) -> (days: Vec<CalendarDay>)
    requires
        is_supported_date(selected),
        in_supported_range(week_grid_start(selected, monday_first)),
        in_supported_range(week_grid_start(selected, monday_first) + 6),
    ensures
        days@.len() == 7,
        forall|i: int|
            0 <= i < 7 ==> #[trigger] grid_day_ok(
                days@[i],
                week_grid_start(selected, monday_first),
                i,
                None,
            ),
{
    let offset = weekday_index(selected, monday_first);
    let start = shift_day(selected, -(offset as i64));
    consecutive_days(start, 7, None)
}

/// Seven days starting at `start`.
pub fn rolling_week_grid(start: CalendarDate) -> (days: Vec<CalendarDay>)
    requires
        is_supported_date(start),
        in_supported_range(day_number(start) + 6),
    ensures
        days@.len() == 7,
        forall|i: int| 0 <= i < 7 ==> #[trigger] grid_day_ok(days@[i], day_number(start), i, None),
{
    consecutive_days(start, 7, None)
}

/// Different supported dates have different day numbers.
pub proof fn lemma_day_number_injective(a: CalendarDate, b: CalendarDate)
    requires
        is_supported_date(a),
        is_supported_date(b),
        day_number(a) == day_number(b),
    ensures
        a == b,
{
    if a.year < b.year || (a.year == b.year && a.month < b.month) || (a.year == b.year && a.month
        == b.month && a.day < b.day) {
        lemma_day_number_order(a, b);
    } else if b.year < a.year || (a.year == b.year && b.month < a.month) || (a.year == b.year
        && a.month == b.month && b.day < a.day) {
        lemma_day_number_order(b, a);
    }
}

/// Dates earlier in the calendar have smaller day numbers.
pub proof fn lemma_day_number_order(a: CalendarDate, b: CalendarDate)
    requires
        is_supported_date(a),
        is_supported_date(b),
        a.year < b.year || (a.year == b.year && a.month < b.month) || (a.year == b.year && a.month
            == b.month && a.day < b.day),
    ensures
        day_number(a) < day_number(b),
{
    let ya = a.year as int;
    let yb = b.year as int;
    lemma_month_offsets(ya, a.month as int);
    lemma_month_offsets(yb, b.month as int);
    if ya < yb {
        lemma_year_length(ya);
        lemma_days_before_year_monotone(ya + 1, yb);
    } else if a.month < b.month {
        lemma_days_before_month_monotone(ya, a.month as int, b.month as int);
    }
}

/// Later months of a year start later.
pub proof fn lemma_days_before_month_monotone(year: int, m1: int, m2: int)
    requires
        1 <= m1 < m2 <= 12,
    ensures
        days_before_month(year, m1) + month_length(year, m1) <= days_before_month(year, m2),
    decreases m2 - m1,
{
    if m1 + 1 < m2 {
        lemma_days_before_month_monotone(year, m1 + 1, m2);
    }
}

/// Shifting by `a` days and then by `b` days is shifting by `a + b` days.
pub proof fn lemma_shift_day_composes(date: CalendarDate, first: CalendarDate, second: CalendarDate, a: int, b: int)
    requires
        is_supported_date(date),
        is_supported_date(first),
        is_supported_date(second),
        day_number(first) == day_number(date) + a,
        day_number(second) == day_number(first) + b,
    ensures
        forall|c: CalendarDate| is_supported_date(c) && day_number(c) == day_number(date) + a + b ==> c == second,
{
    assert forall|c: CalendarDate| is_supported_date(c) && day_number(c) == day_number(date) + a + b implies c == second by {
        lemma_day_number_injective(c, second);
    }
}

/// The month grid shows every day of the month, in order, inside the month:
/// day `k` sits at position (weekday of the first) + k - 1.
pub proof fn lemma_month_grid_covers_month(year: i32, month: u32, monday_first: bool, days: Seq<CalendarDay>, k: int)
    requires
        1 <= month <= 12,
        MIN_YEAR <= year <= MAX_YEAR,
        days.len() == 42,
        forall|i: int|
            0 <= i < 42 ==> #[trigger] grid_day_ok(
                days[i],
                month_grid_start(year, month, monday_first),
                i,
                Some(month),
            ),
        1 <= k <= month_length(year as int, month as int),
    ensures
        ({
            let first = CalendarDate { year, month, day: 1 };
            let i = week_position(first, monday_first) + k - 1;
            &&& 0 <= i < 42
            &&& days[i].date == (CalendarDate { year, month, day: k as u32 })
            &&& !days[i].outside_month
        }),
{
    let first = CalendarDate { year, month, day: 1 };
    let target = CalendarDate { year, month, day: k as u32 };
    let i = week_position(first, monday_first) + k - 1;
    assert(0 <= week_position(first, monday_first) < 7);
    assert(month_length(year as int, month as int) <= 31);
    assert(grid_day_ok(days[i], month_grid_start(year, month, monday_first), i, Some(month)));
    assert(day_number(target) == day_number(first) + k - 1);
    lemma_day_number_injective(days[i].date, target);
}


/// Moving a date by zero months or zero years gives the same date.
pub proof fn lemma_shift_by_zero(date: CalendarDate)
    requires
        is_supported_date(date),
    ensures
        shifted_month_index(date, 0) / 12 == date.year,
        shifted_month_index(date, 0) % 12 + 1 == date.month,
        clamp_day(date.day as int, month_length(date.year as int, date.month as int)) == date.day,
{
}

/// Moving a real date by months or years gives a real date: the day is
/// clamped to the length of the month it lands in.
pub proof fn lemma_shift_keeps_dates_real(date: CalendarDate, year: i32, month: u32)
    requires
        is_supported_date(date),
        1 <= month <= 12,
        MIN_YEAR <= year <= MAX_YEAR,
    ensures
        is_supported_date(CalendarDate {
            year,
            month,
            day: clamp_day(date.day as int, month_length(year as int, month as int)) as u32,
        }),
{
}
} // verus!
