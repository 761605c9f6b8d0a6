//! What the planner views show: duration labels, alarm status and schedule
//! labels, stopwatch lap rows and the lanes of overlapping plan markers.

use vstd::prelude::*;
use crate::ids::PlannerId;
use crate::planner::{
    lap_totals, laps_to_millis, AlarmOccurrenceStatus, AlarmReceipt, AlarmSchedule, Stopwatch,
    Timer,
};
use crate::text::{
    decimal, padded2, push_char, push_decimal, push_padded2, push_str, text_before, text_less,
};

verus! {

/// `HH:MM:SS` with each part padded to two digits.
pub open spec fn hms_text(h: nat, m: nat, s: nat) -> Seq<char> {
    padded2(h) + seq![':'] + padded2(m) + seq![':'] + padded2(s)
}

fn push_hms(text: &mut String, h: u128, m: u128, s: u128)
    ensures
        final(text)@ == old(text)@ + hms_text(h as nat, m as nat, s as nat),
{
    push_padded2(text, h);
    push_char(text, ':');
    push_padded2(text, m);
    push_char(text, ':');
    push_padded2(text, s);
    assert(final(text)@ =~= old(text)@ + hms_text(h as nat, m as nat, s as nat));
}

/// `MM:SS` of a number of seconds; the minutes may exceed 59.
pub open spec fn duration_text(total: nat) -> Seq<char> {
    padded2(total / 60) + seq![':'] + padded2(total % 60)
}

/// Formats a duration as minutes and seconds.
pub fn format_duration(total_seconds: u64) -> (text: String)
    ensures
        text@ == duration_text(total_seconds as nat),
{
    let mut text = String::new();
    push_padded2(&mut text, (total_seconds / 60) as u128);
    push_char(&mut text, ':');
    push_padded2(&mut text, (total_seconds % 60) as u128);
    assert(text@ =~= duration_text(total_seconds as nat));
    text
}

/// A countdown duration at its own scale: `Nd HH:MM:SS`, `HH:MM:SS` or `MM:SS`.
pub open spec fn timer_duration_text(total: nat) -> Seq<char> {
    let days = total / 86_400;
    let hours = total % 86_400 / 3_600;
    let minutes = total % 3_600 / 60;
    let seconds = total % 60;
    if days > 0 {
        decimal(days) + seq!['d', ' '] + hms_text(hours, minutes, seconds)
    } else if hours > 0 {
        hms_text(hours, minutes, seconds)
    } else {
        padded2(minutes) + seq![':'] + padded2(seconds)
    }
}

/// Formats a countdown duration.
pub fn format_timer_duration(total_seconds: u64) -> (text: String)
    ensures
        text@ == timer_duration_text(total_seconds as nat),
{
    let days = total_seconds / 86_400;
    let hours = total_seconds % 86_400 / 3_600;
    let minutes = total_seconds % 3_600 / 60;
    let seconds = total_seconds % 60;
    let mut text = String::new();
    if days > 0 {
        push_decimal(&mut text, days as u128);
        push_char(&mut text, 'd');
        push_char(&mut text, ' ');
        push_hms(&mut text, hours as u128, minutes as u128, seconds as u128);
    } else if hours > 0 {
        push_hms(&mut text, hours as u128, minutes as u128, seconds as u128);
    } else {
        push_padded2(&mut text, minutes as u128);
        push_char(&mut text, ':');
        push_padded2(&mut text, seconds as u128);
    }
    assert(text@ =~= timer_duration_text(total_seconds as nat));
    text
}

/// The title shown for a timer: its title, a dash and its duration.
pub fn timer_display_title(timer: &Timer) -> (text: String)
    ensures
        text@ == timer.title@ + " — "@ + timer_duration_text(timer.duration_seconds as nat),
{
    let mut text = String::new();
    push_str(&mut text, timer.title.as_str());
    push_str(&mut text, " — ");
    let duration = format_timer_duration(timer.duration_seconds);
    push_str(&mut text, duration.as_str());
    assert(text@ =~= timer.title@ + " — "@ + timer_duration_text(timer.duration_seconds as nat));
    text
}

/// The stopwatch reading: `[Nd ]HH:MM:SS` and the centiseconds as `.CC`.
pub open spec fn stopwatch_text(milliseconds: nat) -> (Seq<char>, Seq<char>) {
    let total = milliseconds / 1000;
    let days = total / 86_400;
    let hours = total % 86_400 / 3_600;
    let minutes = total % 3_600 / 60;
    let seconds = total % 60;
    (
        if days > 0 {
            decimal(days) + seq!['d', ' '] + hms_text(hours, minutes, seconds)
        } else {
            hms_text(hours, minutes, seconds)
        },
        seq!['.'] + padded2(milliseconds % 1000 / 10),
    )
}

/// Formats a stopwatch reading.
pub fn format_stopwatch(milliseconds: u128) -> (texts: (String, String))
    ensures
        (texts.0@, texts.1@) == stopwatch_text(milliseconds as nat),
{
    let total = milliseconds / 1000;
    let days = total / 86_400;
    let hours = total % 86_400 / 3_600;
    let minutes = total % 3_600 / 60;
    let seconds = total % 60;
    let mut main = String::new();
    if days > 0 {
        push_decimal(&mut main, days);
        push_char(&mut main, 'd');
        push_char(&mut main, ' ');
    }
    push_hms(&mut main, hours, minutes, seconds);
    let mut fraction = String::new();
    push_char(&mut fraction, '.');
    push_padded2(&mut fraction, milliseconds % 1000 / 10);
    assert(main@ =~= stopwatch_text(milliseconds as nat).0);
    assert(fraction@ =~= stopwatch_text(milliseconds as nat).1);
    (main, fraction)
}

/// A lap time: `[Nd ]HH:MM:SS.CC`.
pub open spec fn lap_text(milliseconds: nat) -> Seq<char> {
    let (main, fraction) = stopwatch_text(milliseconds);
    main + fraction
}

/// Formats a lap time.
pub fn format_lap(milliseconds: u64) -> (text: String)
    ensures
        text@ == lap_text(milliseconds as nat),
{
    let (main, fraction) = format_stopwatch(milliseconds as u128);
    let mut text = main;
    push_str(&mut text, fraction.as_str());
    text
}

/// Position of the latest receipt of the alarm among the first `n` receipts
/// (by recording time; of equally late ones the last), or -1 when there is none.
pub open spec fn latest_receipt(receipts: Seq<AlarmReceipt>, alarm_id: Seq<char>, n: int) -> int
    decreases n,
{
    if n <= 0 {
        -1
    } else {
        let best = latest_receipt(receipts, alarm_id, n - 1);
        let r = receipts[n - 1];
        if r.alarm_id@ != alarm_id {
            best
        } else if best >= 0 && text_before(r.recorded_at_utc@, receipts[best].recorded_at_utc@) {
            best
        } else {
            n - 1
        }
    }
}

proof fn lemma_latest_receipt_range(receipts: Seq<AlarmReceipt>, alarm_id: Seq<char>, n: int)
    requires
        0 <= n <= receipts.len(),
    ensures
        -1 <= latest_receipt(receipts, alarm_id, n) < n,
    decreases n,
{
    if n > 0 {
        lemma_latest_receipt_range(receipts, alarm_id, n - 1);
    }
}

/// The status label of an alarm: the status of its latest receipt, or empty.
pub open spec fn alarm_status_text(receipts: Seq<AlarmReceipt>, alarm_id: Seq<char>) -> Seq<char> {
    let i = latest_receipt(receipts, alarm_id, receipts.len() as int);
    if i < 0 {
        ""@
    } else {
        match receipts[i].status {
            AlarmOccurrenceStatus::Delivered => "Delivered"@,
            AlarmOccurrenceStatus::Missed => "Missed"@,
        }
    }
}

/// The status label of an alarm from its latest receipt.
pub fn alarm_status(receipts: &[AlarmReceipt], alarm_id: &PlannerId) -> (status: &'static str)
    ensures
        status@ == alarm_status_text(receipts@, alarm_id@),
{
    let mut best: usize = 0;
    let mut found = false;
    let mut i: usize = 0;
    while i < receipts.len()
        invariant
            0 <= i <= receipts@.len(),
            found == (latest_receipt(receipts@, alarm_id@, i as int) >= 0),
            found ==> best as int == latest_receipt(receipts@, alarm_id@, i as int),
        decreases receipts@.len() - i,
    {
        proof {
            lemma_latest_receipt_range(receipts@, alarm_id@, i as int);
        }
        let receipt = &receipts[i];
        if receipt.alarm_id.same(alarm_id) {
            if !(found && text_less(
                receipt.recorded_at_utc.as_str(),
                receipts[best].recorded_at_utc.as_str(),
            )) {
                best = i;
                found = true;
            }
        }
        i = i + 1;
    }
    proof {
        lemma_latest_receipt_range(receipts@, alarm_id@, i as int);
    }
    if !found {
        return "";
    }
    match receipts[best].status {
        AlarmOccurrenceStatus::Delivered => "Delivered",
        AlarmOccurrenceStatus::Missed => "Missed",
    }
}

/// Short English weekday names from Monday.
pub open spec fn weekday_short(day: int) -> Seq<char> {
    if day == 0 {
        "Mon"@
    } else if day == 1 {
        "Tue"@
    } else if day == 2 {
        "Wed"@
    } else if day == 3 {
        "Thu"@
    } else if day == 4 {
        "Fri"@
    } else if day == 5 {
        "Sat"@
    } else {
        "Sun"@
    }
}

fn weekday_short_name(day: u8) -> (name: &'static str)
    requires
        day < 7,
    ensures
        name@ == weekday_short(day as int),
{
    if day == 0 {
        "Mon"
    } else if day == 1 {
        "Tue"
    } else if day == 2 {
        "Wed"
    } else if day == 3 {
        "Thu"
    } else if day == 4 {
        "Fri"
    } else if day == 5 {
        "Sat"
    } else {
        "Sun"
    }
}

/// The names of the valid weekdays of a list (0 to 6), joined by `", "`;
/// entries above 6 are skipped.
pub open spec fn weekday_list_text(weekdays: Seq<u8>) -> Seq<char>
    decreases weekdays.len(),
{
    if weekdays.len() == 0 {
        Seq::empty()
    } else {
        let rest = weekday_list_text(weekdays.drop_last());
        let day = weekdays.last();
        if day >= 7 {
            rest
        } else if rest.len() == 0 {
            weekday_short(day as int)
        } else {
            rest + ", "@ + weekday_short(day as int)
        }
    }
}

/// The names of the valid weekdays of a list, joined by `", "`.
pub(crate) fn weekday_list(weekdays: &Vec<u8>) -> (days: String)
    ensures
        days@ == weekday_list_text(weekdays@),
{
    let mut days = String::new();
    let mut i: usize = 0;
    while i < weekdays.len()
        invariant
            0 <= i <= weekdays@.len(),
            days@ == weekday_list_text(weekdays@.subrange(0, i as int)),
        decreases weekdays@.len() - i,
    {
        let day = weekdays[i];
        let ghost prefix = weekdays@.subrange(0, i as int);
        assert(weekdays@.subrange(0, i + 1).drop_last() =~= prefix);
        if day < 7 {
            if days.as_str().unicode_len() > 0 {
                push_str(&mut days, ", ");
            }
            push_str(&mut days, weekday_short_name(day));
        }
        i = i + 1;
    }
    assert(weekdays@.subrange(0, i as int) =~= weekdays@);
    days
}

/// The label of an alarm schedule.
pub open spec fn alarm_schedule_text(schedule: AlarmSchedule) -> Seq<char> {
    match schedule {
        AlarmSchedule::Once { local_date, local_time } => "Once · "@ + local_date@ + " at "@
            + local_time@,
        AlarmSchedule::Weekly { local_time, weekdays } => "Weekly · "@ + weekday_list_text(
            weekdays@,
        ) + " at "@ + local_time@,
    }
}

/// Describes an alarm schedule.
pub fn alarm_schedule_label(schedule: &AlarmSchedule) -> (label: String)
    ensures
        label@ == alarm_schedule_text(*schedule),
{
    let mut label = String::new();
    match schedule {
        AlarmSchedule::Once { local_date, local_time } => {
            push_str(&mut label, "Once · ");
            push_str(&mut label, local_date.as_str());
            push_str(&mut label, " at ");
            push_str(&mut label, local_time.as_str());
        },
        AlarmSchedule::Weekly { local_time, weekdays } => {
            push_str(&mut label, "Weekly · ");
            let days = weekday_list(weekdays);
            push_str(&mut label, days.as_str());
            push_str(&mut label, " at ");
            push_str(&mut label, local_time.as_str());
        },
    }
    assert(label@ =~= alarm_schedule_text(*schedule));
    label
}

/// One row of the lap list.
#[derive(Clone, Debug)]
pub struct StopwatchLap {
    pub number: i32,
    pub total: String,
    pub split: String,
    pub fastest: bool,
    pub slowest: bool,
}

/// Time between a lap and the previous one (the first lap counts from zero),
/// never negative.
pub open spec fn lap_split(totals: Seq<u64>, i: int) -> int {
    let previous = if i == 0 {
        0
    } else {
        totals[i - 1] as int
    };
    if totals[i] >= previous {
        totals[i] - previous
    } else {
        0
    }
}

/// Smallest split among the first `n` laps.
pub open spec fn min_split(totals: Seq<u64>, n: int) -> int
    decreases n,
{
    if n <= 1 {
        lap_split(totals, 0)
    } else {
        let rest = min_split(totals, n - 1);
        let s = lap_split(totals, n - 1);
        if s < rest {
            s
        } else {
            rest
        }
    }
}

/// Largest split among the first `n` laps.
pub open spec fn max_split(totals: Seq<u64>, n: int) -> int
    decreases n,
{
    if n <= 1 {
        lap_split(totals, 0)
    } else {
        let rest = max_split(totals, n - 1);
        let s = lap_split(totals, n - 1);
        if s > rest {
            s
        } else {
            rest
        }
    }
}

/// The row shown for lap `i` (0-based) of `totals`: its number, total and
/// split, and whether it is the single fastest or slowest of several laps.
pub open spec fn lap_row_ok(row: StopwatchLap, totals: Seq<u64>, i: int) -> bool {
    let n = totals.len() as int;
    let split = lap_split(totals, i);
    let distinguish = n > 1 && min_split(totals, n) != max_split(totals, n);
    &&& row.number == i + 1
    &&& row.total@ == lap_text(totals[i] as nat)
    &&& row.split@ == lap_text(split as nat)
    &&& row.fastest == (distinguish && split == min_split(totals, n))
    &&& row.slowest == (distinguish && split == max_split(totals, n))
}

/// The lap rows of a stopwatch, latest lap first.
pub fn stopwatch_lap_rows_from(stopwatch: &Stopwatch) -> (rows: Vec<StopwatchLap>)
    requires
        lap_totals(stopwatch.laps_seconds@, stopwatch.laps_milliseconds@).len() < i32::MAX,
    ensures
        ({
            let totals = lap_totals(stopwatch.laps_seconds@, stopwatch.laps_milliseconds@);
            &&& rows@.len() == totals.len()
            &&& forall|j: int|
                0 <= j < rows@.len() ==> #[trigger] lap_row_ok(
                    rows@[j],
                    totals,
                    totals.len() - 1 - j,
                )
        }),
{
    let totals = if stopwatch.laps_milliseconds.len() == 0 {
        laps_to_millis(&stopwatch.laps_seconds)
    } else {
        stopwatch.laps_milliseconds.clone()
    };
    let ghost t = totals@;
    assert(t == lap_totals(stopwatch.laps_seconds@, stopwatch.laps_milliseconds@));
    let n = totals.len();
    // splits, then the extremes
    let mut splits: Vec<u64> = Vec::new();
    let mut i: usize = 0;
    while i < n
        invariant
            n == t.len(),
            totals@ == t,
            0 <= i <= n,
            splits@.len() == i,
            forall|j: int| 0 <= j < i ==> #[trigger] splits@[j] == lap_split(t, j),
        decreases n - i,
    {
        let previous: u64 = if i == 0 { 0 } else { totals[i - 1] };
        let split = if totals[i] >= previous { totals[i] - previous } else { 0 };
        splits.push(split);
        i = i + 1;
    }
    let mut fastest: u64 = 0;
    let mut slowest: u64 = 0;
    if n > 0 {
        fastest = splits[0];
        slowest = splits[0];
        let mut k: usize = 1;
        while k < n
            invariant
                n == t.len(),
                n > 0,
                1 <= k <= n,
                splits@.len() == n,
                forall|j: int| 0 <= j < n ==> #[trigger] splits@[j] == lap_split(t, j),
                fastest == min_split(t, k as int),
                slowest == max_split(t, k as int),
            decreases n - k,
        {
            if splits[k] < fastest {
                fastest = splits[k];
            }
            if splits[k] > slowest {
                slowest = splits[k];
            }
            k = k + 1;
        }
    }
    let distinguish = n > 1 && fastest != slowest;
    let mut rows: Vec<StopwatchLap> = Vec::new();
    let mut j: usize = 0;
    while j < n
        invariant
            n == t.len(),
            n < i32::MAX,
            totals@ == t,
            splits@.len() == n,
            forall|x: int| 0 <= x < n ==> #[trigger] splits@[x] == lap_split(t, x),
            n > 0 ==> fastest == min_split(t, n as int) && slowest == max_split(t, n as int),
            distinguish == (n > 1 && min_split(t, n as int) != max_split(t, n as int)),
            0 <= j <= n,
            rows@.len() == j,
            forall|x: int| 0 <= x < j ==> #[trigger] lap_row_ok(rows@[x], t, n - 1 - x),
        decreases n - j,
    {
        let index = n - 1 - j;
        let split = splits[index];
        rows.push(
            StopwatchLap {
                number: (index + 1) as i32,
                total: format_lap(totals[index]),
                split: format_lap(split),
                fastest: distinguish && split == fastest,
                slowest: distinguish && split == slowest,
            },
        );
        j = j + 1;
    }
    rows
}

} // verus!
