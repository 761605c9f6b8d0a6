//! Colors of the planner: reading `#RRGGBB` texts and the color each kind
//! of planner item is drawn in.

use vstd::prelude::*;
use crate::sync::PlannerAppearance;
use crate::views::{border_color, normalize_border_color, without_leading_hashes};

verus! {

/// A color as its red, green and blue parts.
#[derive(Clone, Copy, Debug, PartialEq, Eq, Structural)]
pub struct Rgb {
    pub red: u8,
    pub green: u8,
    pub blue: u8,
}

/// Whether a character is a hexadecimal digit, either case.
pub open spec fn is_hex_digit(c: char) -> bool {
    ('0' <= c && c <= '9') || ('a' <= c && c <= 'f') || ('A' <= c && c <= 'F')
}

/// Value of a hexadecimal digit.
pub open spec fn hex_digit_value(c: char) -> int {
    if '0' <= c && c <= '9' {
        c as int - 48
    } else if 'a' <= c && c <= 'f' {
        c as int - 87
    } else {
        c as int - 55
    }
}

/// Value of a string of hexadecimal digits.
pub open spec fn hex_digits_value(s: Seq<char>) -> nat
    decreases s.len(),
{
    if s.len() == 0 {
        0
    } else {
        (hex_digits_value(s.drop_last()) * 16 + hex_digit_value(s.last())) as nat
    }
}

/// The number a text denotes in base 16: an optional `+`, then at least one
/// hexadecimal digit and nothing else, with a value that fits in a `u32`.
pub open spec fn hex_number(text: Seq<char>) -> Option<u32> {
    let digits = if text.len() > 0 && text[0] == '+' {
        text.drop_first()
    } else {
        text
    };
    if digits.len() > 0 && (forall|i: int| 0 <= i < digits.len() ==> is_hex_digit(#[trigger] digits[i]))
        && hex_digits_value(digits) <= u32::MAX {
        Some(hex_digits_value(digits) as u32)
    } else {
        None
    }
}

/// std's `u32::from_str_radix` in base 16. Claimed, as its documentation
/// states: an optional `+` sign followed by only digits `0-9`, `a-f`, `A-F`
/// is read as a number, which is returned when it fits in a `u32`; any other
/// text (white space included) is an error.
#[verifier::external_body]
pub(crate) fn parse_hex(text: &str) -> (value: Option<u32>)
    ensures
        value == hex_number(text@),
{
    u32::from_str_radix(text, 16).ok()
}

/// The color a text names: six (`RRGGBB`) or eight (`AARRGGBB`)
/// hexadecimal digits after any `#` signs, the low three bytes giving red,
/// green and blue; white for anything else.
pub open spec fn color_of(value: Seq<char>) -> Rgb {
    let digits = without_leading_hashes(value);
    let parsed = if digits.len() == 6 || digits.len() == 8 {
        hex_number(digits)
    } else {
        None
    };
    match parsed {
        Some(v) => Rgb { red: ((v / 65_536) % 256) as u8, green: ((v / 256) % 256) as u8, blue: (v % 256) as u8 },
        None => Rgb { red: 255, green: 255, blue: 255 },
    }
}

/// Reads a color, white when the text names none.
pub fn parse_color(value: &str) -> (rgb: Rgb)
    ensures
        rgb == color_of(value@),
{
    let n = value.unicode_len();
    let mut start: usize = 0;
    assert(value@.skip(0) =~= value@);
    while start < n && value.get_char(start) == '#'
        invariant
            n == value@.len(),
            0 <= start <= n,
            without_leading_hashes(value@.skip(start as int)) == without_leading_hashes(value@),
        decreases n - start,
    {
        proof {
            assert(value@.skip(start as int + 1) =~= value@.skip(start as int).drop_first());
        }
        start = start + 1;
    }
    let digits = value.substring_char(start, n);
    assert(digits@ =~= value@.skip(start as int));
    assert(without_leading_hashes(digits@) == digits@);
    let count = n - start;
    let parsed = if count == 6 || count == 8 {
        parse_hex(digits)
    } else {
        None
    };
    match parsed {
        Some(v) => Rgb { red: ((v / 65_536) % 256) as u8, green: ((v / 256) % 256) as u8, blue: (v % 256) as u8 },
        None => Rgb { red: 255, green: 255, blue: 255 },
    }
}

/// The color a setting names, or the fallback's color when it names none.
pub open spec fn valid_color_of(value: Seq<char>, fallback: Seq<char>) -> Rgb {
    match border_color(value) {
        Some(normalized) => color_of(normalized),
        None => color_of(fallback),
    }
}

/// The color a setting names, or the fallback's color when it names none.
pub fn valid_color(value: &str, fallback: &str) -> (rgb: Rgb)
    ensures
        rgb == valid_color_of(value@, fallback@),
{
    match normalize_border_color(value) {
        Some(normalized) => parse_color(normalized.as_str()),
        None => parse_color(fallback),
    }
}

/// The colors of alarms, timers, reminders, events and tasks: the accent
/// for all of them when the appearance says so, else each its own setting
/// (or its default when the setting names no color).
pub open spec fn type_colors_of(appearance: PlannerAppearance, accent: Rgb) -> Seq<Rgb> {
    if appearance.use_accent_color {
        seq![accent, accent, accent, accent, accent]
    } else {
        seq![
            valid_color_of(appearance.alarm_color@, "#77D7CB"@),
            valid_color_of(appearance.timer_color@, "#77D7CB"@),
            valid_color_of(appearance.reminder_color@, "#77D7CB"@),
            valid_color_of(appearance.event_color@, "#B99655"@),
            valid_color_of(appearance.task_color@, "#547D78"@),
        ]
    }
}

/// The colors of alarms, timers, reminders, events and tasks, in that order.
pub fn type_colors(appearance: &PlannerAppearance, accent: Rgb) -> (colors: [Rgb; 5])
    ensures
        colors@ == type_colors_of(*appearance, accent),
{
    if appearance.use_accent_color {
        let colors = [accent, accent, accent, accent, accent];
        assert(colors@ =~= type_colors_of(*appearance, accent));
        return colors;
    }
    let colors = [
        valid_color(appearance.alarm_color.as_str(), "#77D7CB"),
        valid_color(appearance.timer_color.as_str(), "#77D7CB"),
        valid_color(appearance.reminder_color.as_str(), "#77D7CB"),
        valid_color(appearance.event_color.as_str(), "#B99655"),
        valid_color(appearance.task_color.as_str(), "#547D78"),
    ];
    assert(colors@ =~= type_colors_of(*appearance, accent));
    colors
}

} // verus!
