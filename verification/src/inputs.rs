//! Input masks, parsers and labels for the planner editors.

use vstd::prelude::*;
use crate::zoned::LocalDateTime;
use crate::planner::{AlertRule, EventRecurrence};
use crate::text::{
    all_digits, decimal, decimal_text, digit_char, digit_value, digits_value, is_blank, is_blank_text,
    is_digit, padded2, parse_i32, parse_u16, parsed_i32, parsed_u16, push_char, push_decimal,
    push_padded2, text_equals, trim_text, trimmed,
};

verus! {

/// A countdown draft as days, hours, minutes and seconds.
#[derive(Clone, Copy, Debug, PartialEq, Eq, Structural)]
pub struct TimerDraft {
    pub days: u16,
    pub hours: u8,
    pub minutes: u8,
    pub seconds: u8,
}

/// Splits a duration into days (capped at `u16::MAX`), hours, minutes and seconds.
pub fn duration_parts(total_seconds: u64) -> (parts: (u16, u8, u8, u8))
    ensures
        parts.0 == if total_seconds / 86_400 < u16::MAX {
            total_seconds / 86_400
        } else {
            u16::MAX as u64
        },
        parts.1 == (total_seconds % 86_400) / 3_600,
        parts.2 == (total_seconds % 3_600) / 60,
        parts.3 == total_seconds % 60,
{
    let whole_days = total_seconds / 86_400;
    let days: u16 = if whole_days < 65_535 { whole_days as u16 } else { 65_535 };
    let hours = ((total_seconds % 86_400) / 3_600) as u8;
    let minutes = ((total_seconds % 3_600) / 60) as u8;
    let seconds = (total_seconds % 60) as u8;
    (days, hours, minutes, seconds)
}

/// Largest value of each countdown part: days, hours, minutes, seconds.
pub open spec fn part_limit(part: i32) -> Option<u16> {
    if part == 0 {
        Some(999u16)
    } else if part == 1 {
        Some(23u16)
    } else if part == 2 || part == 3 {
        Some(59u16)
    } else {
        None
    }
}

/// Largest value of a countdown part, `None` for an unknown part.
pub fn timer_part_limit(part: i32) -> (limit: Option<u16>)
    ensures
        limit == part_limit(part),
{
    match part {
        0 => Some(999),
        1 => Some(23),
        2 | 3 => Some(59),
        _ => None,
    }
}

/// A countdown part typed by the user: its trimmed text read as a number no
/// larger than the part's limit.
pub open spec fn parsed_part(text: Seq<char>, part: i32) -> Option<u16> {
    match part_limit(part) {
        None => None,
        Some(max) => match parsed_u16(trimmed(text)) {
            Some(v) => if v <= max {
                Some(v)
            } else {
                None
            },
            None => None,
        },
    }
}

/// Reads one countdown part.
pub fn parse_timer_part(text: &str, part: i32) -> (value: Option<u16>)
    ensures
        value == parsed_part(text@, part),
{
    let maximum = match timer_part_limit(part) {
        Some(maximum) => maximum,
        None => return None,
    };
    let cleaned = trim_text(text);
    let value = match parse_u16(cleaned.as_str()) {
        Some(value) => value,
        None => return None,
    };
    if value <= maximum {
        Some(value)
    } else {
        None
    }
}

/// The ASCII digits of a text, in order.
pub open spec fn digits_of(s: Seq<char>) -> Seq<char> {
    s.filter(|c: char| is_digit(c))
}

/// The first `n` characters, or all of them when there are fewer.
pub open spec fn first_n(s: Seq<char>, n: int) -> Seq<char> {
    if s.len() <= n {
        s
    } else {
        s.take(n)
    }
}

/// The first `max` ASCII digits of a text.
pub fn leading_digits(text: &str, max: usize) -> (digits: String)
    ensures
        digits@ == first_n(digits_of(text@), max as int),
        all_digits(digits@),
{
    let n = text.unicode_len();
    let mut digits = String::new();
    let mut count: usize = 0;
    let mut i: usize = 0;
    while i < n
        invariant
            n == text@.len(),
            0 <= i <= n,
            count == digits@.len(),
            digits@ == first_n(digits_of(text@.subrange(0, i as int)), max as int),
            all_digits(digits@),
        decreases n - i,
    {
        let c = text.get_char(i);
        let ghost before = text@.subrange(0, i as int);
        proof {
            assert(text@.subrange(0, i + 1) =~= before.push(c));
            before.lemma_filter_push(c, |c: char| is_digit(c));
        }
        if '0' <= c && c <= '9' && count < max {
            push_char(&mut digits, c);
            count = count + 1;
        }
        i = i + 1;
        proof {
            let all = digits_of(text@.subrange(0, i as int));
            let prev = digits_of(before);
            if is_digit(c) {
                assert(all =~= prev.push(c));
                if prev.len() < max {
                    assert(first_n(all, max as int) =~= first_n(prev, max as int).push(c));
                } else {
                    assert(first_n(all, max as int) =~= first_n(prev, max as int));
                }
            } else {
                assert(all =~= prev);
            }
        }
    }
    assert(text@.subrange(0, n as int) =~= text@);
    digits
}

/// What masking a countdown part leaves: at most three (days) or two digits,
/// replaced by the limit when they exceed it.
pub open spec fn masked_part(text: Seq<char>, part: i32) -> Option<Seq<char>> {
    match part_limit(part) {
        None => None,
        Some(max) => {
            let digits = first_n(digits_of(text), if part == 0 { 3 } else { 2 });
            if digits.len() == 0 {
                Some(Seq::<char>::empty())
            } else if digits_value(digits) <= max {
                Some(digits)
            } else {
                Some(decimal(max as nat))
            }
        },
    }
}

/// A digit string of at most four digits fits in a `u16`.
proof fn lemma_short_digits_value(s: Seq<char>)
    requires
        all_digits(s),
    ensures
        digits_value(s) < pow10(s.len()),
    decreases s.len(),
{
    if s.len() > 0 {
        assert(all_digits(s.drop_last())) by {
            assert forall|i: int| 0 <= i < s.len() - 1 implies is_digit(#[trigger] s.drop_last()[i]) by {
                assert(s.drop_last()[i] == s[i]);
            }
        }
        lemma_short_digits_value(s.drop_last());
        assert(is_digit(s[s.len() - 1]));
    }
}

/// Ten to the power `n`.
pub open spec fn pow10(n: nat) -> nat
    decreases n,
{
    if n == 0 {
        1
    } else {
        10 * pow10((n - 1) as nat)
    }
}

/// Masks a countdown part while the user types.
pub fn mask_timer_part(text: &str, part: i32) -> (masked: Option<String>)
    ensures
        match masked {
            Some(m) => masked_part(text@, part) == Some(m@),
            None => masked_part(text@, part) is None,
        },
{
    let maximum = match timer_part_limit(part) {
        Some(maximum) => maximum,
        None => return None,
    };
    let maximum_digits: usize = if part == 0 { 3 } else { 2 };
    let digits = leading_digits(text, maximum_digits);
    if digits.as_str().unicode_len() == 0 {
        return Some(String::new());
    }
    proof {
        lemma_short_digits_value(digits@);
        reveal_with_fuel(pow10, 4);
    }
    let value = match parse_u16(digits.as_str()) {
        Some(value) => value,
        None => return None,
    };
    proof {
        assert(digits@.len() > 0 && digits@[0] != '+') by {
            assert(is_digit(digits@[0]));
        }
    }
    if value <= maximum {
        Some(digits)
    } else {
        Some(decimal_text(maximum as u128))
    }
}

/// The smaller of two numbers.
pub open spec fn min_nat(a: nat, b: nat) -> nat {
    if a < b {
        a
    } else {
        b
    }
}

/// What the clock-time mask shows for the typed text: up to four digits, the
/// hours (at most 23) padded and followed by a colon once two digits are typed,
/// then the minutes (at most 59), padded when two minute digits are typed.
pub open spec fn masked_clock_time(text: Seq<char>) -> Seq<char> {
    let d = first_n(digits_of(text), 4);
    let head = if d.len() >= 2 {
        padded2(min_nat(digits_value(d.take(2)), 23)) + seq![':']
    } else {
        d
    };
    if d.len() > 2 {
        let md = d.skip(2);
        let minutes = min_nat(digits_value(md), 59);
        head + if md.len() == 1 {
            decimal(minutes)
        } else {
            padded2(minutes)
        }
    } else {
        head
    }
}

/// Value of a string of one or two ASCII digits.
fn small_digits_value(digits: &str) -> (value: u16)
    requires
        1 <= digits@.len() <= 2,
        all_digits(digits@),
    ensures
        value == digits_value(digits@),
{
    proof {
        lemma_short_digits_value(digits@);
        reveal_with_fuel(pow10, 3);
        assert(is_digit(digits@[0]));
    }
    match parse_u16(digits) {
        Some(value) => value,
        None => 0,
    }
}

/// Masks a clock time (`HH:MM`) while the user types.
pub fn mask_clock_time(text: &str) -> (masked: String)
    ensures
        masked@ == masked_clock_time(text@),
{
    let digits = leading_digits(text, 4);
    let n = digits.as_str().unicode_len();
    let ghost d = digits@;
    let mut result = String::new();
    if n >= 2 {
        let hour_text = digits.as_str().substring_char(0, 2);
        proof {
            assert(hour_text@ =~= d.take(2));
            assert forall|i: int| 0 <= i < 2 implies is_digit(#[trigger] hour_text@[i]) by {
                assert(hour_text@[i] == d[i]);
            }
        }
        let hours = small_digits_value(hour_text);
        push_padded2(&mut result, if hours < 23 { hours as u128 } else { 23 });
        push_char(&mut result, ':');
    } else {
        let all = digits.as_str().substring_char(0, n);
        assert(all@ =~= d);
        result = all.to_owned();
    }
    let ghost head = result@;
    if n > 2 {
        let minute_text = digits.as_str().substring_char(2, n);
        proof {
            assert(minute_text@ =~= d.skip(2));
            assert forall|i: int| 0 <= i < minute_text@.len() implies is_digit(
                #[trigger] minute_text@[i],
            ) by {
                assert(minute_text@[i] == d[i + 2]);
            }
        }
        let minutes = small_digits_value(minute_text);
        let shown: u128 = if minutes < 59 { minutes as u128 } else { 59 };
        if n == 3 {
            push_decimal(&mut result, shown);
        } else {
            push_padded2(&mut result, shown);
        }
    }
    assert(result@ =~= masked_clock_time(text@));
    result
}

/// The recurrence chosen from its label.
pub open spec fn recurrence_of_label(label: Seq<char>) -> Option<EventRecurrence> {
    if label == "Does not repeat"@ {
        Some(EventRecurrence::NoRepeat)
    } else if label == "Daily"@ {
        Some(EventRecurrence::Daily)
    } else if label == "Weekly"@ {
        Some(EventRecurrence::Weekly)
    } else if label == "Monthly"@ {
        Some(EventRecurrence::Monthly)
    } else if label == "Yearly"@ {
        Some(EventRecurrence::Yearly)
    } else {
        None
    }
}

/// The label shown for a recurrence.
pub open spec fn label_of_recurrence(recurrence: EventRecurrence) -> Seq<char> {
    match recurrence {
        EventRecurrence::NoRepeat => "Does not repeat"@,
        EventRecurrence::Daily => "Daily"@,
        EventRecurrence::Weekly => "Weekly"@,
        EventRecurrence::Monthly => "Monthly"@,
        EventRecurrence::Yearly => "Yearly"@,
    }
}

/// Reads a recurrence from its label.
pub fn parse_event_recurrence(value: &str) -> (recurrence: Option<EventRecurrence>)
    ensures
        recurrence == recurrence_of_label(value@),
{
    if text_equals(value, "Does not repeat") {
        Some(EventRecurrence::NoRepeat)
    } else if text_equals(value, "Daily") {
        Some(EventRecurrence::Daily)
    } else if text_equals(value, "Weekly") {
        Some(EventRecurrence::Weekly)
    } else if text_equals(value, "Monthly") {
        Some(EventRecurrence::Monthly)
    } else if text_equals(value, "Yearly") {
        Some(EventRecurrence::Yearly)
    } else {
        None
    }
}

/// The label of a recurrence.
pub fn event_recurrence_label(recurrence: EventRecurrence) -> (label: &'static str)
    ensures
        label@ == label_of_recurrence(recurrence),
{
    match recurrence {
        EventRecurrence::NoRepeat => "Does not repeat",
        EventRecurrence::Daily => "Daily",
        EventRecurrence::Weekly => "Weekly",
        EventRecurrence::Monthly => "Monthly",
        EventRecurrence::Yearly => "Yearly",
    }
}

/// The alert offset chosen from a preset label: `Some(None)` is "no alert".
pub open spec fn alert_of_label(label: Seq<char>) -> Option<Option<i32>> {
    if label == "No alert"@ {
        Some(None)
    } else if label == "At start"@ {
        Some(Some(0i32))
    } else if label == "5 minutes before"@ {
        Some(Some(5i32))
    } else if label == "15 minutes before"@ {
        Some(Some(15i32))
    } else if label == "30 minutes before"@ {
        Some(Some(30i32))
    } else if label == "1 hour before"@ {
        Some(Some(60i32))
    } else {
        None
    }
}

/// Reads a preset alert label.
pub fn parse_event_alert(value: &str) -> (alert: Option<Option<i32>>)
    ensures
        alert == alert_of_label(value@),
{
    if text_equals(value, "No alert") {
        Some(None)
    } else if text_equals(value, "At start") {
        Some(Some(0))
    } else if text_equals(value, "5 minutes before") {
        Some(Some(5))
    } else if text_equals(value, "15 minutes before") {
        Some(Some(15))
    } else if text_equals(value, "30 minutes before") {
        Some(Some(30))
    } else if text_equals(value, "1 hour before") {
        Some(Some(60))
    } else {
        None
    }
}

/// The alert chosen in an editor: the zero label means "at the time", "Custom"
/// takes the typed minutes (1 to 10 080, a week), anything else is a preset.
pub open spec fn alert_with_custom(value: Seq<char>, custom: Seq<char>, zero_label: Seq<char>) -> Option<
    Option<i32>,
> {
    if value == zero_label {
        Some(Some(0i32))
    } else if value == "Custom"@ {
        match parsed_i32(trimmed(custom)) {
            Some(m) => if 1 <= m <= 10_080 {
                Some(Some(m))
            } else {
                None
            },
            None => None,
        }
    } else {
        alert_of_label(value)
    }
}

/// Reads the alert chosen in an editor.
pub fn parse_alert_with_custom(value: &str, custom: &str, zero_label: &str) -> (alert: Option<
    Option<i32>,
>)
    ensures
        alert == alert_with_custom(value@, custom@, zero_label@),
{
    if text_equals(value, zero_label) {
        return Some(Some(0));
    }
    if text_equals(value, "Custom") {
        let cleaned = trim_text(custom);
        let minutes = match parse_i32(cleaned.as_str()) {
            Some(minutes) => minutes,
            None => return None,
        };
        return if 1 <= minutes && minutes <= 10_080 {
            Some(Some(minutes))
        } else {
            None
        };
    }
    parse_event_alert(value)
}

/// The label of an alert offset in the event editor.
pub open spec fn event_alert_text(offset: Option<i32>) -> Seq<char> {
    match offset {
        None => "No alert"@,
        Some(m) => if m == 0 {
            "At start"@
        } else if m == 5 {
            "5 minutes before"@
        } else if m == 15 {
            "15 minutes before"@
        } else if m == 30 {
            "30 minutes before"@
        } else if m == 60 {
            "1 hour before"@
        } else {
            "Custom"@
        },
    }
}

/// The label of an event's alert.
pub fn event_alert_label(alert: Option<&AlertRule>) -> (label: &'static str)
    ensures
        label@ == event_alert_text(
            match alert {
                Some(rule) => Some(rule.offset_minutes),
                None => None,
            },
        ),
{
    match alert {
        None => "No alert",
        Some(rule) => {
            let m = rule.offset_minutes;
            if m == 0 {
                "At start"
            } else if m == 5 {
                "5 minutes before"
            } else if m == 15 {
                "15 minutes before"
            } else if m == 30 {
                "30 minutes before"
            } else if m == 60 {
                "1 hour before"
            } else {
                "Custom"
            }
        },
    }
}

/// The label of a task alert offset.
pub open spec fn task_alert_text(offset: i32) -> Seq<char> {
    if offset == 0 {
        "At due time"@
    } else if offset == 5 {
        "5 minutes before"@
    } else if offset == 15 {
        "15 minutes before"@
    } else if offset == 30 {
        "30 minutes before"@
    } else if offset == 60 {
        "1 hour before"@
    } else {
        "Custom"@
    }
}

/// The label of a task alert offset.
pub fn task_alert_label(offset_minutes: i32) -> (label: &'static str)
    ensures
        label@ == task_alert_text(offset_minutes),
{
    if offset_minutes == 0 {
        "At due time"
    } else if offset_minutes == 5 {
        "5 minutes before"
    } else if offset_minutes == 15 {
        "15 minutes before"
    } else if offset_minutes == 30 {
        "30 minutes before"
    } else if offset_minutes == 60 {
        "1 hour before"
    } else {
        "Custom"
    }
}

/// A countdown part stepped up or down by one from the typed value (blank
/// counts as zero), kept between zero and the part's limit.
pub open spec fn adjusted_part(text: Seq<char>, part: i32, direction: i32) -> Option<u16> {
    let current = if is_blank(text) {
        Some(0u16)
    } else {
        parsed_part(text, part)
    };
    match (current, part_limit(part)) {
        (Some(value), Some(max)) => {
            let step = if direction > 0 {
                1int
            } else if direction < 0 {
                -1int
            } else {
                0int
            };
            let moved = value + step;
            Some(
                if moved < 0 {
                    0u16
                } else if moved > max {
                    max
                } else {
                    moved as u16
                },
            )
        },
        _ => None,
    }
}

/// Steps a countdown part by one in the direction's sign.
pub fn adjust_timer_part(text: &str, part: i32, direction: i32) -> (value: Option<u16>)
    ensures
        value == adjusted_part(text@, part, direction),
{
    proof {
        lemma_trimmed_blank(text@);
    }
    let value: u16 = if is_blank_text(text) {
        0
    } else {
        match parse_timer_part(text, part) {
            Some(value) => value,
            None => return None,
        }
    };
    let maximum = match timer_part_limit(part) {
        Some(maximum) => maximum,
        None => return None,
    };
    let step: i32 = if direction > 0 {
        1
    } else if direction < 0 {
        -1
    } else {
        0
    };
    let moved: i32 = value as i32 + step;
    Some(
        if moved < 0 {
            0
        } else if moved > maximum as i32 {
            maximum
        } else {
            moved as u16
        },
    )
}

/// A blank text trims to the empty text (so it is what `trimmed(..).len() == 0` means).
proof fn lemma_trimmed_blank(s: Seq<char>)
    ensures
        is_blank(s) == (trimmed(s).len() == 0),
{
    crate::text::lemma_trimmed_empty(s);
}

/// Stores one countdown part in the draft; unknown parts are ignored.
pub fn store_timer_part(draft: &mut TimerDraft, part: i32, value: u16)
    ensures
        *final(draft) == if part == 0 {
            TimerDraft { days: value, ..*old(draft) }
        } else if part == 1 {
            TimerDraft { hours: value as u8, ..*old(draft) }
        } else if part == 2 {
            TimerDraft { minutes: value as u8, ..*old(draft) }
        } else if part == 3 {
            TimerDraft { seconds: value as u8, ..*old(draft) }
        } else {
            *old(draft)
        },
{
    match part {
        0 => draft.days = value,
        1 => draft.hours = value as u8,
        2 => draft.minutes = value as u8,
        3 => draft.seconds = value as u8,
        _ => {},
    }
}

/// Reads a whole countdown; any invalid part rejects it.
pub fn parse_timer_duration(days: &str, hours: &str, minutes: &str, seconds: &str) -> (duration: Option<
    (u16, u8, u8, u8),
>)
    ensures
        duration is Some <==> (parsed_part(days@, 0) is Some && parsed_part(hours@, 1) is Some
            && parsed_part(minutes@, 2) is Some && parsed_part(seconds@, 3) is Some),
        duration matches Some(d) ==> Some(d.0) == parsed_part(days@, 0) && Some(d.1 as u16)
            == parsed_part(hours@, 1) && Some(d.2 as u16) == parsed_part(minutes@, 2) && Some(
            d.3 as u16,
        ) == parsed_part(seconds@, 3),
{
    let days = match parse_timer_part(days, 0) {
        Some(v) => v,
        None => return None,
    };
    let hours = match parse_timer_part(hours, 1) {
        Some(v) => v,
        None => return None,
    };
    let minutes = match parse_timer_part(minutes, 2) {
        Some(v) => v,
        None => return None,
    };
    let seconds = match parse_timer_part(seconds, 3) {
        Some(v) => v,
        None => return None,
    };
    Some((days, hours as u8, minutes as u8, seconds as u8))
}

/// Position of the first `c` in `s`, or the length when there is none.
pub open spec fn first_position(s: Seq<char>, c: char) -> int
    decreases s.len(),
{
    if s.len() == 0 {
        0
    } else if s[0] == c {
        0
    } else {
        1 + first_position(s.drop_first(), c)
    }
}

proof fn lemma_first_position(s: Seq<char>, c: char)
    ensures
        0 <= first_position(s, c) <= s.len(),
        first_position(s, c) < s.len() ==> s[first_position(s, c)] == c,
        forall|j: int| 0 <= j < first_position(s, c) ==> #[trigger] s[j] != c,
    decreases s.len(),
{
    if s.len() > 0 && s[0] != c {
        lemma_first_position(s.drop_first(), c);
        assert forall|j: int| 0 <= j < first_position(s, c) implies #[trigger] s[j] != c by {
            if j > 0 {
                assert(s[j] == s.drop_first()[j - 1]);
            }
        }
    }
}

/// Finds the first `c` in the text.
fn find_char(text: &str, c: char) -> (index: usize)
    ensures
        index == first_position(text@, c),
{
    proof {
        lemma_first_position(text@, c);
    }
    let n = text.unicode_len();
    let mut i: usize = 0;
    while i < n
        invariant
            n == text@.len(),
            0 <= i <= first_position(text@, c),
            first_position(text@, c) <= n,
            first_position(text@, c) < n ==> text@[first_position(text@, c)] == c,
            forall|j: int| 0 <= j < first_position(text@, c) ==> #[trigger] text@[j] != c,
        decreases n - i,
    {
        if text.get_char(i) == c {
            return i;
        }
        i = i + 1;
    }
    i
}

/// `HH:MM` for an hour and a minute, or `None` when they are not a time of day.
#[verifier::external_body]
pub(crate) fn chrono_hour_minute(hours: u32, minutes: u32) -> (text: Option<String>)
    ensures
        text is Some <==> (hours < 24 && minutes < 60),
        text matches Some(t) ==> t@ == padded2(hours as nat) + seq![':'] + padded2(minutes as nat),
{
    chrono::NaiveTime::from_hms_opt(hours, minutes, 0).map(|time| time.format("%H:%M").to_string())
}

/// The stored form of an alarm time typed as `H:M`: hours up to 23 and
/// minutes up to 59, each padded to two digits.
pub open spec fn normalized_alarm_time(text: Seq<char>) -> Option<Seq<char>> {
    let colon = first_position(text, ':');
    if colon >= text.len() {
        None
    } else {
        match (parsed_part(text.take(colon), 1), parsed_part(text.skip(colon + 1), 2)) {
            (Some(h), Some(m)) => Some(padded2(h as nat) + seq![':'] + padded2(m as nat)),
            _ => None,
        }
    }
}

/// Normalizes an alarm time typed as `H:M` to `HH:MM`.
pub fn normalize_alarm_time(text: &str) -> (normalized: Option<String>)
    ensures
        match normalized {
            Some(t) => normalized_alarm_time(text@) == Some(t@),
            None => normalized_alarm_time(text@) is None,
        },
{
    let n = text.unicode_len();
    let colon = find_char(text, ':');
    if colon >= n {
        return None;
    }
    let hours_text = text.substring_char(0, colon);
    let minutes_text = text.substring_char(colon + 1, n);
    assert(hours_text@ =~= text@.take(colon as int));
    assert(minutes_text@ =~= text@.skip(colon + 1));
    let hours = match parse_timer_part(hours_text, 1) {
        Some(h) => h,
        None => return None,
    };
    let minutes = match parse_timer_part(minutes_text, 2) {
        Some(m) => m,
        None => return None,
    };
    chrono_hour_minute(hours as u32, minutes as u32)
}

/// Two-digit padding of a number below sixty reads back as that number.
proof fn lemma_padded2_reads_back(n: nat)
    requires
        n < 60,
    ensures
        padded2(n).len() == 2,
        is_digit(padded2(n)[0]),
        is_digit(padded2(n)[1]),
        trimmed(padded2(n)) == padded2(n),
        parsed_u16(padded2(n)) == Some(n as u16),
{
    let s = padded2(n);
    if n >= 10 {
        assert(decimal(n / 10) == seq![digit_char((n / 10) as int)]);
        assert(s =~= seq![digit_char((n / 10) as int), digit_char((n % 10) as int)]);
    }
    assert(all_digits(s));
    let first = s.drop_last();
    assert(first.drop_last() =~= Seq::<char>::empty());
    assert(digits_value(first.drop_last()) == 0);
    assert(first.last() == s[0]);
    assert(digits_value(first) == digit_value(s[0]));
    assert(digits_value(s) == digit_value(s[0]) * 10 + digit_value(s[1]));
}

/// Normalizing an alarm time that is already normalized gives it back
/// unchanged.
pub proof fn lemma_normalized_alarm_time_is_stable(text: Seq<char>, normalized: Seq<char>)
    requires
        normalized_alarm_time(text) == Some(normalized),
    ensures
        normalized_alarm_time(normalized) == Some(normalized),
{
    let colon = first_position(text, ':');
    let h = parsed_part(text.take(colon), 1)->0;
    let m = parsed_part(text.skip(colon + 1), 2)->0;
    lemma_padded2_reads_back(h as nat);
    lemma_padded2_reads_back(m as nat);
    let hs = padded2(h as nat);
    let ms = padded2(m as nat);
    assert(normalized == hs + seq![':'] + ms);
    assert(normalized[0] != ':' && normalized[1] != ':' && normalized[2] == ':');
    assert(normalized.drop_first().drop_first()[0] == ':');
    assert(first_position(normalized.drop_first().drop_first(), ':') == 0);
    assert(first_position(normalized.drop_first(), ':') == 1);
    assert(first_position(normalized, ':') == 2);
    assert(normalized.take(2) =~= hs);
    assert(normalized.skip(3) =~= ms);
}

/// Default alarm time for a moment `seconds` after midnight: round up to the
/// next five minutes, then add five more (wrapping past midnight).
pub open spec fn default_alarm_minutes(seconds: int) -> int {
    let rounded = (seconds + 299) / 300 * 300;
    (rounded / 60 + 5) % 1440
}

/// The default alarm time, as `HH:MM`, for a moment `seconds` after midnight.
pub fn default_alarm_time_at(seconds: u32) -> (text: String)
    requires
        seconds < 86_400,
    ensures
        text@ == padded2((default_alarm_minutes(seconds as int) / 60) as nat) + seq![':'] + padded2(
            (default_alarm_minutes(seconds as int) % 60) as nat,
        ),
{
    let rounded_five_minutes = (seconds + 299) / 300 * 300;
    let target_minutes = (rounded_five_minutes / 60 + 5) % 1440;
    let mut text = String::new();
    push_padded2(&mut text, (target_minutes / 60) as u128);
    push_char(&mut text, ':');
    push_padded2(&mut text, (target_minutes % 60) as u128);
    assert(text@ =~= padded2((default_alarm_minutes(seconds as int) / 60) as nat) + seq![':']
        + padded2((default_alarm_minutes(seconds as int) % 60) as nat));
    text
}

/// Seconds since midnight of a wall-clock time (a leap second counts as the
/// second it extends).
pub open spec fn seconds_of_day(now: LocalDateTime) -> int {
    now.hour * 3_600 + now.minute * 60 + now.second
}

/// The default time offered for a new alarm at the local moment `now`.
pub fn default_alarm_time(now: LocalDateTime) -> (text: String)
    requires
        now.hour < 24,
        now.minute < 60,
        now.second < 60,
    ensures
        text@ == padded2((default_alarm_minutes(seconds_of_day(now)) / 60) as nat) + seq![':']
            + padded2((default_alarm_minutes(seconds_of_day(now)) % 60) as nat),
{
    let seconds = now.hour * 3_600 + now.minute * 60 + now.second;
    default_alarm_time_at(seconds)
}

/// Every recurrence is read back from its own label.
pub proof fn lemma_recurrence_label_round_trip(recurrence: EventRecurrence)
    ensures
        recurrence_of_label(label_of_recurrence(recurrence)) == Some(recurrence),
{
    reveal_strlit("Does not repeat");
    reveal_strlit("Daily");
    reveal_strlit("Weekly");
    reveal_strlit("Monthly");
    reveal_strlit("Yearly");
    let none = "Does not repeat"@;
    let daily = "Daily"@;
    let weekly = "Weekly"@;
    let monthly = "Monthly"@;
    let yearly = "Yearly"@;
    assert(none.len() == 15 && daily.len() == 5 && weekly.len() == 6 && monthly.len() == 7 && yearly.len() == 6);
    assert(weekly[0] != yearly[0]);
}

/// Every preset alert is read back from its own label; any other offset
/// shows as "Custom", which is no preset.
pub proof fn lemma_event_alert_label_round_trip(offset: Option<i32>)
    ensures
        offset matches Some(m) && m != 0 && m != 5 && m != 15 && m != 30 && m != 60 ==> alert_of_label(
            event_alert_text(offset),
        ) is None,
        !(offset matches Some(m) && m != 0 && m != 5 && m != 15 && m != 30 && m != 60) ==> alert_of_label(
            event_alert_text(offset),
        ) == Some(offset),
{
    reveal_strlit("No alert");
    reveal_strlit("At start");
    reveal_strlit("5 minutes before");
    reveal_strlit("15 minutes before");
    reveal_strlit("30 minutes before");
    reveal_strlit("1 hour before");
    reveal_strlit("Custom");
    let no_alert = "No alert"@;
    let at_start = "At start"@;
    let five = "5 minutes before"@;
    let fifteen = "15 minutes before"@;
    let thirty = "30 minutes before"@;
    let hour = "1 hour before"@;
    let custom = "Custom"@;
    assert(no_alert.len() == 8 && at_start.len() == 8 && five.len() == 16 && fifteen.len() == 17
        && thirty.len() == 17 && hour.len() == 13 && custom.len() == 6);
    assert(no_alert[0] != at_start[0]);
    assert(fifteen[0] != thirty[0]);
}

} // verus!
