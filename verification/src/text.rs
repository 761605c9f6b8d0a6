//! Character-level text rules shared by the planner and the input masks.

use vstd::prelude::*;
use vstd::string::*;

verus! {

/// Unicode `White_Space` code points, the set that `char::is_whitespace` documents.
pub open spec fn is_space(c: char) -> bool {
    ||| ('\u{9}' <= c && c <= '\u{d}')
    ||| c == ' '
    ||| c == '\u{85}'
    ||| c == '\u{a0}'
    ||| c == '\u{1680}'
    ||| ('\u{2000}' <= c && c <= '\u{200a}')
    ||| c == '\u{2028}'
    ||| c == '\u{2029}'
    ||| c == '\u{202f}'
    ||| c == '\u{205f}'
    ||| c == '\u{3000}'
}

/// Every character is white space (this includes the empty text).
pub open spec fn is_blank(s: Seq<char>) -> bool {
    forall|i: int| 0 <= i < s.len() ==> is_space(#[trigger] s[i])
}

/// The text without leading and trailing white space.
pub open spec fn trimmed(s: Seq<char>) -> Seq<char>
    decreases s.len(),
{
    if s.len() == 0 {
        s
    } else if is_space(s[0]) {
        trimmed(s.drop_first())
    } else if is_space(s.last()) {
        trimmed(s.drop_last())
    } else {
        s
    }
}

/// Whether a character is white space.
pub fn is_space_char(c: char) -> (space: bool)
    ensures
        space == is_space(c),
{
    ('\u{9}' <= c && c <= '\u{d}') || c == ' ' || c == '\u{85}' || c == '\u{a0}' || c == '\u{1680}'
        || ('\u{2000}' <= c && c <= '\u{200a}') || c == '\u{2028}' || c == '\u{2029}' || c
        == '\u{202f}' || c == '\u{205f}' || c == '\u{3000}'
}

/// Trimming the subrange between the first and the last non-space characters.
proof fn lemma_trimmed_subrange(s: Seq<char>, start: int, end: int)
    requires
        0 <= start <= end <= s.len(),
        forall|i: int| 0 <= i < start ==> is_space(#[trigger] s[i]),
        forall|i: int| end <= i < s.len() ==> is_space(#[trigger] s[i]),
        start < end ==> !is_space(s[start]) && !is_space(s[end - 1]),
    ensures
        trimmed(s) == s.subrange(start, end),
    decreases s.len(),
{
    if s.len() == 0 {
        assert(s.subrange(start, end) =~= s);
    } else if is_space(s[0]) {
        if start == 0 {
            // then start == end and every character is white space
            assert(end == 0);
        }
        let rest = s.drop_first();
        if start == 0 {
            lemma_trimmed_subrange(rest, 0, 0);
            assert(s.subrange(0, 0) =~= rest.subrange(0, 0));
        } else {
            lemma_trimmed_subrange(rest, start - 1, end - 1);
            assert(s.subrange(start, end) =~= rest.subrange(start - 1, end - 1));
        }
    } else if is_space(s.last()) {
        assert(start == 0);
        assert(end < s.len());
        let rest = s.drop_last();
        lemma_trimmed_subrange(rest, start, end);
        assert(s.subrange(start, end) =~= rest.subrange(start, end));
    } else {
        assert(start == 0);
        assert(end == s.len());
        assert(s.subrange(start, end) =~= s);
    }
}

/// A text trims to nothing exactly when it is blank.
pub proof fn lemma_trimmed_empty(s: Seq<char>)
    ensures
        (trimmed(s).len() == 0) == is_blank(s),
    decreases s.len(),
{
    if s.len() == 0 {
    } else if is_space(s[0]) {
        lemma_trimmed_empty(s.drop_first());
        if is_blank(s.drop_first()) {
            assert forall|i: int| 0 <= i < s.len() implies is_space(#[trigger] s[i]) by {
                if i > 0 {
                    assert(s[i] == s.drop_first()[i - 1]);
                }
            }
        }
        if is_blank(s) {
            assert forall|i: int| 0 <= i < s.len() - 1 implies is_space(
                #[trigger] s.drop_first()[i],
            ) by {
                assert(s.drop_first()[i] == s[i + 1]);
            }
        }
    } else if is_space(s.last()) {
        lemma_trimmed_empty(s.drop_last());
        assert(!is_blank(s));
        assert(!is_blank(s.drop_last())) by {
            assert(s.drop_last()[0] == s[0]);
        }
    } else {
    }
}

/// Whether the text holds nothing but white space.
pub fn is_blank_text(s: &str) -> (blank: bool)
    ensures
        blank == is_blank(s@),
{
    let n = s.unicode_len();
    let mut i: usize = 0;
    while i < n
        invariant
            n == s@.len(),
            0 <= i <= n,
            forall|j: int| 0 <= j < i ==> is_space(#[trigger] s@[j]),
        decreases n - i,
    {
        if !is_space_char(s.get_char(i)) {
            return false;
        }
        i = i + 1;
    }
    true
}

/// The text with leading and trailing white space removed.
pub fn trim_text(s: &str) -> (result: String)
    ensures
        result@ == trimmed(s@),
{
    let n = s.unicode_len();
    let mut start: usize = 0;
    while start < n && is_space_char(s.get_char(start))
        invariant
            n == s@.len(),
            0 <= start <= n,
            forall|j: int| 0 <= j < start ==> is_space(#[trigger] s@[j]),
        decreases n - start,
    {
        start = start + 1;
    }
    let mut end: usize = n;
    while end > start && is_space_char(s.get_char(end - 1))
        invariant
            n == s@.len(),
            0 <= start <= end <= n,
            forall|j: int| end <= j < n ==> is_space(#[trigger] s@[j]),
            start < n ==> !is_space(s@[start as int]),
        decreases end,
    {
        end = end - 1;
    }
    proof {
        lemma_trimmed_subrange(s@, start as int, end as int);
    }
    let part = s.substring_char(start, end);
    part.to_owned()
}

/// Appends one character to a string.
#[verifier::external_body]
pub(crate) fn push_char(text: &mut String, c: char)
    ensures
        final(text)@ == old(text)@.push(c),
{
    text.push(c);
}

/// Appends a string slice.
pub fn push_str(text: &mut String, tail: &str)
    ensures
        final(text)@ == old(text)@ + tail@,
{
    let n = tail.unicode_len();
    let ghost start = text@;
    let mut i: usize = 0;
    while i < n
        invariant
            n == tail@.len(),
            0 <= i <= n,
            text@ == start + tail@.subrange(0, i as int),
        decreases n - i,
    {
        push_char(text, tail.get_char(i));
        i = i + 1;
        assert(text@ =~= start + tail@.subrange(0, i as int));
    }
    assert(tail@.subrange(0, n as int) =~= tail@);
}

/// Whether two texts are equal.
pub fn text_equals(a: &str, b: &str) -> (same: bool)
    ensures
        same == (a@ == b@),
{
    let n = a.unicode_len();
    if n != b.unicode_len() {
        return false;
    }
    let mut i: usize = 0;
    while i < n
        invariant
            n == a@.len(),
            n == b@.len(),
            0 <= i <= n,
            forall|j: int| 0 <= j < i ==> a@[j] == b@[j],
        decreases n - i,
    {
        if a.get_char(i) != b.get_char(i) {
            return false;
        }
        i = i + 1;
    }
    assert(a@ =~= b@);
    true
}

/// The ASCII digit character for 0..9.
pub open spec fn digit_char(d: int) -> char {
    (48 + d) as char
}

/// Whether a character is an ASCII digit.
pub open spec fn is_digit(c: char) -> bool {
    '0' <= c && c <= '9'
}

/// Value of an ASCII digit character.
pub open spec fn digit_value(c: char) -> int {
    c as int - 48
}

/// Decimal notation of a natural number, without leading zeros.
pub open spec fn decimal(n: nat) -> Seq<char>
    decreases n,
{
    if n < 10 {
        seq![digit_char(n as int)]
    } else {
        decimal(n / 10).push(digit_char((n % 10) as int))
    }
}

/// Decimal notation with at least two digits (a leading zero below ten).
pub open spec fn padded2(n: nat) -> Seq<char> {
    if n < 10 {
        seq!['0', digit_char(n as int)]
    } else {
        decimal(n)
    }
}

/// Value of a string of decimal digits (leading zeros allowed).
pub open spec fn digits_value(s: Seq<char>) -> nat
    decreases s.len(),
{
    if s.len() == 0 {
        0
    } else {
        (digits_value(s.drop_last()) * 10 + digit_value(s.last())) as nat
    }
}

/// Every character is an ASCII digit.
pub open spec fn all_digits(s: Seq<char>) -> bool {
    forall|i: int| 0 <= i < s.len() ==> is_digit(#[trigger] s[i])
}

/// The unsigned integer that standard decimal parsing reads from the text: an
/// optional `+`, then at least one ASCII digit and nothing else.
pub open spec fn parsed_unsigned(s: Seq<char>) -> Option<nat> {
    let digits = if s.len() > 0 && s[0] == '+' {
        s.drop_first()
    } else {
        s
    };
    if digits.len() > 0 && all_digits(digits) {
        Some(digits_value(digits))
    } else {
        None
    }
}

/// What parsing the text as a `u16` gives.
pub open spec fn parsed_u16(s: Seq<char>) -> Option<u16> {
    match parsed_unsigned(s) {
        Some(v) => if v <= u16::MAX {
            Some(v as u16)
        } else {
            None
        },
        None => None,
    }
}

/// The signed integer that standard decimal parsing reads from the text: an
/// optional sign, then at least one ASCII digit and nothing else.
pub open spec fn parsed_signed(s: Seq<char>) -> Option<int> {
    if s.len() > 0 && s[0] == '-' {
        let digits = s.drop_first();
        if digits.len() > 0 && all_digits(digits) {
            Some(-(digits_value(digits) as int))
        } else {
            None
        }
    } else {
        match parsed_unsigned(s) {
            Some(v) => Some(v as int),
            None => None,
        }
    }
}

/// What parsing the text as an `i32` gives.
pub open spec fn parsed_i32(s: Seq<char>) -> Option<i32> {
    match parsed_signed(s) {
        Some(v) => if i32::MIN <= v <= i32::MAX {
            Some(v as i32)
        } else {
            None
        },
        None => None,
    }
}

/// Appends the decimal notation of `n`.
pub fn push_decimal(text: &mut String, n: u128)
    ensures
        final(text)@ == old(text)@ + decimal(n as nat),
    decreases n,
{
    if n >= 10 {
        push_decimal(text, n / 10);
    }
    let d = (n % 10) as u32;
    let c = char_of_digit(d);
    push_char(text, c);
    proof {
        if n >= 10 {
            assert(decimal(n as nat) == decimal((n / 10) as nat).push(digit_char((n % 10) as int)));
        }
    }
    assert(final(text)@ =~= old(text)@ + decimal(n as nat));
}

/// The character of a digit.
pub fn char_of_digit(d: u32) -> (c: char)
    requires
        d < 10,
    ensures
        c == digit_char(d as int),
        is_digit(c),
        digit_value(c) == d,
{
    let code: u8 = 48 + d as u8;
    code as char
}

/// Appends `n` with at least two digits.
pub fn push_padded2(text: &mut String, n: u128)
    ensures
        final(text)@ == old(text)@ + padded2(n as nat),
{
    if n < 10 {
        push_char(text, '0');
        push_char(text, char_of_digit(n as u32));
        assert(final(text)@ =~= old(text)@ + padded2(n as nat));
    } else {
        push_decimal(text, n);
    }
}

/// Decimal text of a number.
pub fn decimal_text(n: u128) -> (text: String)
    ensures
        text@ == decimal(n as nat),
{
    let mut text = String::new();
    push_decimal(&mut text, n);
    assert(text@ =~= decimal(n as nat));
    text
}

/// Reads the digits of `s` (all ASCII digits), saturating above `cap`.
fn digits_capped(text: &str, from: usize, cap: u64) -> (value: u64)
    requires
        from <= text@.len(),
        all_digits(text@.subrange(from as int, text@.len() as int)),
        0 < cap < u64::MAX / 20,
    ensures
        value == if digits_value(text@.subrange(from as int, text@.len() as int)) > cap {
            cap + 1int
        } else {
            digits_value(text@.subrange(from as int, text@.len() as int)) as int
        },
{
    let n = text.unicode_len();
    let mut acc: u64 = 0;
    let mut i: usize = from;
    while i < n
        invariant
            n == text@.len(),
            from <= i <= n,
            0 < cap < u64::MAX / 20,
            all_digits(text@.subrange(from as int, text@.len() as int)),
            acc == if digits_value(text@.subrange(from as int, i as int)) > cap {
                cap + 1int
            } else {
                digits_value(text@.subrange(from as int, i as int)) as int
            },
        decreases n - i,
    {
        let c = text.get_char(i);
        assert(text@.subrange(from as int, text@.len() as int)[i - from] == c);
        let d = (c as u32 - 48) as u64;
        let ghost prefix = text@.subrange(from as int, i as int);
        let ghost next = text@.subrange(from as int, i + 1);
        assert(next.drop_last() =~= prefix);
        assert(next.last() == c);
        assert(digits_value(next) == digits_value(prefix) * 10 + d);
        let grown = acc * 10 + d;
        acc = if grown > cap { cap + 1 } else { grown };
        i = i + 1;
    }
    acc
}

/// Whether every character from `from` on is an ASCII digit.
fn digits_from(text: &str, from: usize) -> (ok: bool)
    requires
        from <= text@.len(),
    ensures
        ok == all_digits(text@.subrange(from as int, text@.len() as int)),
{
    let n = text.unicode_len();
    let mut i: usize = from;
    while i < n
        invariant
            n == text@.len(),
            from <= i <= n,
            forall|j: int| from <= j < i ==> is_digit(#[trigger] text@[j]),
        decreases n - i,
    {
        let c = text.get_char(i);
        if !('0' <= c && c <= '9') {
            assert(!is_digit(text@.subrange(from as int, text@.len() as int)[i - from]));
            return false;
        }
        i = i + 1;
    }
    assert forall|j: int| 0 <= j < text@.len() - from implies is_digit(
        #[trigger] text@.subrange(from as int, text@.len() as int)[j],
    ) by {
        assert(text@.subrange(from as int, text@.len() as int)[j] == text@[from + j]);
    }
    true
}

/// Parses the text as a `u16` the way standard decimal parsing does.
pub fn parse_u16(text: &str) -> (value: Option<u16>)
    ensures
        value == parsed_u16(text@),
{
    let n = text.unicode_len();
    let from: usize = if n > 0 && text.get_char(0) == '+' { 1 } else { 0 };
    proof {
        let digits = if text@.len() > 0 && text@[0] == '+' {
            text@.drop_first()
        } else {
            text@
        };
        assert(digits =~= text@.subrange(from as int, text@.len() as int));
    }
    if from >= n || !digits_from(text, from) {
        return None;
    }
    let value = digits_capped(text, from, 65535);
    if value > 65535 {
        None
    } else {
        Some(value as u16)
    }
}

/// The `u32` that standard decimal parsing reads from the text.
pub open spec fn parsed_u32(s: Seq<char>) -> Option<u32> {
    match parsed_unsigned(s) {
        Some(v) => if v <= u32::MAX {
            Some(v as u32)
        } else {
            None
        },
        None => None,
    }
}

/// Parses the text as a `u32` the way standard decimal parsing does.
pub fn parse_u32(text: &str) -> (value: Option<u32>)
    ensures
        value == parsed_u32(text@),
{
    let n = text.unicode_len();
    let from: usize = if n > 0 && text.get_char(0) == '+' { 1 } else { 0 };
    proof {
        let digits = if text@.len() > 0 && text@[0] == '+' {
            text@.drop_first()
        } else {
            text@
        };
        assert(digits =~= text@.subrange(from as int, text@.len() as int));
    }
    if from >= n || !digits_from(text, from) {
        return None;
    }
    let value = digits_capped(text, from, 4_294_967_295);
    if value > 4_294_967_295 {
        None
    } else {
        Some(value as u32)
    }
}

/// Parses the text as an `i32` the way standard decimal parsing does.
pub fn parse_i32(text: &str) -> (value: Option<i32>)
    ensures
        value == parsed_i32(text@),
{
    let n = text.unicode_len();
    let negative = n > 0 && text.get_char(0) == '-';
    let from: usize = if n > 0 && (text.get_char(0) == '+' || text.get_char(0) == '-') {
        1
    } else {
        0
    };
    proof {
        if text@.len() > 0 && text@[0] == '-' {
            assert(text@.drop_first() =~= text@.subrange(1, text@.len() as int));
        } else if text@.len() > 0 && text@[0] == '+' {
            assert(text@.drop_first() =~= text@.subrange(1, text@.len() as int));
        } else {
            assert(text@ =~= text@.subrange(0, text@.len() as int));
        }
    }
    if from >= n || !digits_from(text, from) {
        return None;
    }
    let magnitude = digits_capped(text, from, 2_147_483_648);
    if negative {
        if magnitude > 2_147_483_648 {
            None
        } else {
            Some((0 - magnitude as i64) as i32)
        }
    } else {
        if magnitude > 2_147_483_647 {
            None
        } else {
            Some(magnitude as i32)
        }
    }
}

/// Whether `a` sorts before `b`, character by character (the order of `str`).
pub open spec fn text_before(a: Seq<char>, b: Seq<char>) -> bool
    decreases a.len(),
{
    if a.len() == 0 {
        b.len() > 0
    } else if b.len() == 0 {
        false
    } else if a[0] != b[0] {
        a[0] < b[0]
    } else {
        text_before(a.drop_first(), b.drop_first())
    }
}

/// Whether `a` sorts before `b`.
pub fn text_less(a: &str, b: &str) -> (less: bool)
    ensures
        less == text_before(a@, b@),
{
    let n = a.unicode_len();
    let m = b.unicode_len();
    let mut i: usize = 0;
    assert(a@.skip(0) =~= a@);
    assert(b@.skip(0) =~= b@);
    while i < n && i < m
        invariant
            n == a@.len(),
            m == b@.len(),
            0 <= i <= n,
            i <= m,
            forall|j: int| 0 <= j < i ==> a@[j] == b@[j],
            text_before(a@, b@) == text_before(a@.skip(i as int), b@.skip(i as int)),
        decreases n - i,
    {
        let x = a.get_char(i);
        let y = b.get_char(i);
        if x != y {
            assert(a@.skip(i as int)[0] == x);
            assert(b@.skip(i as int)[0] == y);
            return x < y;
        }
        assert(a@.skip(i as int).drop_first() =~= a@.skip(i + 1));
        assert(b@.skip(i as int).drop_first() =~= b@.skip(i + 1));
        i = i + 1;
    }
    assert(a@.skip(i as int).len() == n - i);
    assert(b@.skip(i as int).len() == m - i);
    i == n && i < m
}

/// The character order of texts is transitive.
pub proof fn lemma_text_before_transitive(a: Seq<char>, b: Seq<char>, c: Seq<char>)
    requires
        text_before(a, b),
        text_before(b, c),
    ensures
        text_before(a, c),
    decreases a.len(),
{
    if a.len() > 0 && b.len() > 0 && c.len() > 0 && a[0] == b[0] && b[0] == c[0] {
        lemma_text_before_transitive(a.drop_first(), b.drop_first(), c.drop_first());
    }
}

/// Of two different texts one sorts before the other.
pub proof fn lemma_text_before_total(a: Seq<char>, b: Seq<char>)
    ensures
        !text_before(a, b) && !text_before(b, a) ==> a == b,
    decreases a.len(),
{
    if a.len() > 0 && b.len() > 0 && a[0] == b[0] {
        lemma_text_before_total(a.drop_first(), b.drop_first());
        if !text_before(a, b) && !text_before(b, a) {
            assert(a =~= seq![a[0]] + a.drop_first());
            assert(b =~= seq![b[0]] + b.drop_first());
        }
    } else if a.len() == 0 && b.len() == 0 {
        assert(a =~= b);
    }
}

/// No text sorts before itself.
pub proof fn lemma_text_before_irreflexive(a: Seq<char>)
    ensures
        !text_before(a, a),
    decreases a.len(),
{
    if a.len() > 0 {
        lemma_text_before_irreflexive(a.drop_first());
    }
}

} // verus!
