//! Formatting of catalog fields for display: descriptions freed of markup
//! and cut to length, optional values, and dates that may lack parts.
use crate::text::{signed_decimal, signed_decimal_string, str_chars, string_from_chars};
use vstd::prelude::*;
use vstd::string::StringExecFns;
use vstd::utf8::encode_utf8;

verus! {

/// What is shown for a value that is missing.
pub const UNKNOWN_EMBED_FIELD: &'static str = "Unknown";

/// `s` with every occurrence of `from` replaced by `to`, found from left to
/// right and never overlapping. An empty `from` replaces nothing.
pub open spec fn replaced(s: Seq<char>, from: Seq<char>, to: Seq<char>) -> Seq<char>
    decreases s.len(),
{
    if from.len() == 0 || s.len() < from.len() {
        s
    } else if from.is_prefix_of(s) {
        to + replaced(s.skip(from.len() as int), from, to)
    } else {
        seq![s[0]] + replaced(s.skip(1), from, to)
    }
}

/// How often `pattern` occurs in `s`, counted from left to right without
/// overlap. An empty pattern does not occur.
pub open spec fn occurrences(s: Seq<char>, pattern: Seq<char>) -> nat
    decreases s.len(),
{
    if pattern.len() == 0 || s.len() < pattern.len() {
        0
    } else if pattern.is_prefix_of(s) {
        1 + occurrences(s.skip(pattern.len() as int), pattern)
    } else {
        occurrences(s.skip(1), pattern)
    }
}

/// Whether `pattern` stands in `text` at position `at`.
fn occurs_at(text: &Vec<char>, at: usize, pattern: &Vec<char>) -> (r: bool)
    requires
        at <= text@.len(),
    ensures
        r == pattern@.is_prefix_of(text@.skip(at as int)),
{
    if pattern.len() > text.len() - at {
        return false;
    }
    let total = text.len();
    let mut i: usize = 0;
    while i < pattern.len()
        invariant
            at <= text@.len(),
            total == text@.len(),
            i <= pattern@.len() <= text@.len() - at,
            forall|j: int| 0 <= j < i ==> pattern@[j] == text@.skip(at as int)[j],
        decreases pattern@.len() - i,
    {
        if pattern[i] != text[at + i] {
            assert(pattern@[i as int] != text@.skip(at as int)[i as int]);
            return false;
        }
        i += 1;
    }
    assert(pattern@ =~= text@.skip(at as int).subrange(0, pattern@.len() as int));
    true
}

/// Replaces every occurrence of `from` in `text` by `to`.
pub fn replace_chars(text: &Vec<char>, from: &Vec<char>, to: &Vec<char>) -> (r: Vec<char>)
    ensures
        r@ == replaced(text@, from@, to@),
{
    let mut out: Vec<char> = Vec::new();
    let mut i: usize = 0;
    if from.len() == 0 {
        return text.clone();
    }
    assert(text@.skip(0) =~= text@);
    assert(out@ + replaced(text@, from@, to@) =~= replaced(text@, from@, to@));
    while i < text.len()
        invariant
            i <= text@.len(),
            from@.len() > 0,
            out@ + replaced(text@.skip(i as int), from@, to@) == replaced(text@, from@, to@),
        decreases text@.len() - i,
    {
        let ghost rest = text@.skip(i as int);
        if occurs_at(text, i, from) {
            let mut k: usize = 0;
            let ghost before = out@;
            while k < to.len()
                invariant
                    k <= to@.len(),
                    out@ == before + to@.take(k as int),
                decreases to@.len() - k,
            {
                out.push(to[k]);
                assert(to@.take(k + 1) =~= to@.take(k as int).push(to@[k as int]));
                k += 1;
            }
            assert(to@.take(k as int) =~= to@);
            assert(rest.skip(from@.len() as int) =~= text@.skip(i + from@.len()));
            assert(out@ + replaced(text@.skip(i + from@.len()), from@, to@) =~= before + replaced(
                rest,
                from@,
                to@,
            ));
            i += from.len();
        } else {
            let ghost before = out@;
            out.push(text[i]);
            assert(rest.skip(1) =~= text@.skip(i + 1));
            if text.len() - i < from.len() {
                assert(replaced(rest, from@, to@) == rest);
                assert(replaced(rest.skip(1), from@, to@) == rest.skip(1));
                assert(seq![rest[0]] + rest.skip(1) =~= rest);
            }
            assert(out@ + replaced(text@.skip(i + 1), from@, to@) =~= before + replaced(
                rest,
                from@,
                to@,
            ));
            i += 1;
        }
    }
    assert(text@.skip(i as int) =~= Seq::<char>::empty());
    assert(out@ + Seq::<char>::empty() =~= out@);
    out
}

/// Counts the occurrences of `pattern` in the first `end` characters of
/// `text`.
pub fn count_occurrences(text: &Vec<char>, end: usize, pattern: &Vec<char>) -> (r: usize)
    requires
        end <= text@.len(),
    ensures
        r == occurrences(text@.take(end as int), pattern@),
{
    if pattern.len() == 0 {
        return 0;
    }
    let ghost whole = text@.take(end as int);
    let mut count: usize = 0;
    let mut i: usize = 0;
    assert(whole.skip(0) =~= whole);
    while i < end
        invariant
            i <= end <= text@.len(),
            whole == text@.take(end as int),
            pattern@.len() > 0,
            count <= i,
            count + occurrences(whole.skip(i as int), pattern@) == occurrences(whole, pattern@),
        decreases end - i,
    {
        let ghost rest = whole.skip(i as int);
        if pattern.len() <= end - i && occurs_at(text, i, pattern) {
            assert(pattern@.is_prefix_of(rest)) by {
                assert(pattern@ =~= rest.subrange(0, pattern@.len() as int));
            }
            assert(rest.skip(pattern@.len() as int) =~= whole.skip(i + pattern@.len()));
            count += 1;
            i += pattern.len();
        } else {
            if pattern.len() <= end - i {
                assert(!pattern@.is_prefix_of(rest)) by {
                    if pattern@.is_prefix_of(rest) {
                        assert(pattern@ =~= text@.skip(i as int).subrange(
                            0,
                            pattern@.len() as int,
                        ));
                    }
                }
            }
            assert(rest.skip(1) =~= whole.skip(i + 1));
            i += 1;
        }
    }
    assert(whole.skip(i as int) =~= Seq::<char>::empty());
    count
}

/// The pattern that matches a markup tag: an opening angle bracket, as few
/// characters as possible, and a closing angle bracket.
pub const TAG_PATTERN: &'static str = "<.*?>";

/// Where a markup tag closes whose inside begins at `from`: at the first
/// `>` from there on, unless the line ends before it.
pub open spec fn tag_end(s: Seq<char>, from: int) -> Option<int>
    decreases s.len() - from,
{
    if from < 0 || from >= s.len() {
        None
    } else if s[from] == '>' {
        Some(from)
    } else if s[from] == '\n' {
        None
    } else {
        tag_end(s, from + 1)
    }
}

/// `text` without its markup tags. A tag goes from a `<` to the next `>`
/// on the same line; tags are found from left to right and never overlap.
/// This is what is left when every match of the tag pattern is taken out.
pub open spec fn html_stripped(text: Seq<char>) -> Seq<char>
    decreases text.len(),
{
    if text.len() == 0 {
        text
    } else {
        let end = tag_end(text, 1);
        if text[0] == '<' && end is Some && 1 <= end.unwrap() < text.len() {
            html_stripped(text.skip(end.unwrap() + 1))
        } else {
            seq![text[0]] + html_stripped(text.skip(1))
        }
    }
}

/// Puts `nothing` in the place of what matches `pattern` in `text`.
/// Trusted: `Regex::new` and `Regex::replace_all` of the `regex` crate.
/// `Regex::new` refuses what is no regular expression, so only the tag
/// pattern, which it accepts, is admitted, and only the empty replacement.
/// The contract says what the crate documents of this pattern: a `<`, as
/// few characters as possible of which none ends a line, and a `>`; every
/// match, the leftmost first and none overlapping, is replaced.
#[verifier::external_body]
fn remove_matches(pattern: &str, text: &str, nothing: &str) -> (r: String)
    requires
        pattern@ == TAG_PATTERN@,
        nothing@.len() == 0,
    ensures
        r@ == html_stripped(text@),
{
    regex::Regex::new(pattern).unwrap().replace_all(text, nothing).to_string()
}

/// Takes the markup tags out of `text`.
fn clean_html(text: &str) -> (r: String)
    ensures
        r@ == html_stripped(text@),
{
    proof {
        reveal_strlit("");
    }
    remove_matches(TAG_PATTERN, text, "")
}

/// `s` without emphasis marks and with spoiler marks in the form that the
/// chat client understands.
pub open spec fn unmarked(s: Seq<char>) -> Seq<char> {
    replaced(
        replaced(replaced(replaced(s, "**"@, ""@), "__"@, ""@), "~!"@, "||"@),
        "!~"@,
        "||"@,
    )
}

/// A description without markup tags, made fit for display: emphasis marks
/// are dropped and spoiler marks rewritten. Where the result takes more than
/// `length` bytes, only its first `length` characters are kept, followed by
/// an ellipsis, and by a closing spoiler mark where one was left open.
pub open spec fn sanitized(cleaned: Seq<char>, length: nat) -> Seq<char> {
    let s = unmarked(cleaned);
    if encode_utf8(s).len() > length {
        let cut = s.take(
            if length <= s.len() {
                length as int
            } else {
                s.len() as int
            },
        );
        if occurrences(cut, "||"@) % 2 != 0 {
            cut + "...||"@
        } else {
            cut + "..."@
        }
    } else {
        s
    }
}

/// Makes a description that is free of markup tags fit for display.
pub fn sanitize_cleaned(cleaned: &str, length: usize) -> (r: String)
    ensures
        r@ == sanitized(cleaned@, length as nat),
{
    let empty = str_chars("");
    let bars = str_chars("||");
    let mut chars = str_chars(cleaned);
    chars = replace_chars(&chars, &str_chars("**"), &empty);
    chars = replace_chars(&chars, &str_chars("__"), &empty);
    chars = replace_chars(&chars, &str_chars("~!"), &bars);
    chars = replace_chars(&chars, &str_chars("!~"), &bars);
    assert(chars@ == unmarked(cleaned@));
    let whole = string_from_chars(&chars, 0, chars.len());
    assert(whole@ =~= chars@);
    let bytes = whole.as_str().as_bytes().len();
    assert(bytes == encode_utf8(chars@).len());
    if bytes > length {
        let keep = if length <= chars.len() {
            length
        } else {
            chars.len()
        };
        let mut cut = string_from_chars(&chars, 0, keep);
        assert(cut@ =~= chars@.take(keep as int));
        if count_occurrences(&chars, keep, &bars) % 2 != 0 {
            cut.append("...||");
        } else {
            cut.append("...");
        }
        cut
    } else {
        whole
    }
}

/// Frees a description of markup and cuts it to length.
pub fn sanitize_description(description: &str, length: usize) -> (r: String)
    ensures
        r@ == sanitized(html_stripped(description@), length as nat),
{
    let cleaned = clean_html(description);
    sanitize_cleaned(cleaned.as_str(), length)
}

/// The text of a value that may be missing, given the text of the value
/// where it is there.
pub fn text_or_unknown(text: Option<String>) -> (r: String)
    ensures
        r@ == match text {
            Some(t) => t@,
            None => UNKNOWN_EMBED_FIELD@,
        },
{
    match text {
        Some(t) => t,
        None => String::from_str(UNKNOWN_EMBED_FIELD),
    }
}

/// The text of a value that may be missing: its own text where it is there,
/// and `"Unknown"` where it is not.
pub fn format_opt<T: core::fmt::Display>(value: Option<T>) -> (r: String)
    ensures
        match value {
            Some(v) => vstd::string::to_string_from_display_ensures::<T>(&v, r),
            None => r@ == UNKNOWN_EMBED_FIELD@,
        },
{
    match value {
        Some(v) => v.to_string(),
        None => String::from_str(UNKNOWN_EMBED_FIELD),
    }
}

/// The value of a hexadecimal digit, or `None` for any other character.
pub open spec fn hex_digit(c: char) -> Option<nat> {
    if '0' <= c && c <= '9' {
        Some((c as u32 - 48) as nat)
    } else if 'a' <= c && c <= 'f' {
        Some((c as u32 - 87) as nat)
    } else if 'A' <= c && c <= 'F' {
        Some((c as u32 - 55) as nat)
    } else {
        None
    }
}

/// Whether every character of `s` is a hexadecimal digit.
pub open spec fn all_hex(s: Seq<char>) -> bool {
    forall|i: int| 0 <= i < s.len() ==> hex_digit(#[trigger] s[i]) is Some
}

/// The number that a sequence of hexadecimal digits denotes.
pub open spec fn hex_value(s: Seq<char>) -> nat
    decreases s.len(),
{
    if s.len() == 0 {
        0
    } else {
        hex_value(s.drop_last()) * 16 + hex_digit(s.last()).unwrap_or(0)
    }
}

/// The colour that a text names: a number sign, an optional plus sign, and
/// then hexadecimal digits, at least one, that denote a number of 32 bits.
pub open spec fn colour_of(text: Seq<char>) -> Option<u32> {
    if text.len() > 0 && text[0] == '#' {
        let digits = crate::text::numeral_digits(text.drop_first());
        if digits.len() > 0 && all_hex(digits) && hex_value(digits) <= u32::MAX {
            Some(hex_value(digits) as u32)
        } else {
            None
        }
    } else {
        None
    }
}

proof fn lemma_hex_value_prefix(s: Seq<char>, k: int)
    requires
        0 <= k <= s.len(),
    ensures
        hex_value(s.take(k)) <= hex_value(s),
    decreases s.len(),
{
    if k == s.len() {
        assert(s.take(k) == s);
    } else {
        lemma_hex_value_prefix(s.drop_last(), k);
        assert(s.drop_last().take(k) == s.take(k));
    }
}

/// Reads a colour of the form `#rrggbb`.
pub fn convert_to_color(color: &str) -> (r: Option<u32>)
    ensures
        r == colour_of(color@),
{
    let chars = str_chars(color);
    if chars.len() == 0 || chars[0] != '#' {
        return None;
    }
    let start: usize = if chars.len() > 1 && chars[1] == '+' {
        2
    } else {
        1
    };
    let ghost digits = crate::text::numeral_digits(color@.drop_first());
    assert(digits == chars@.subrange(start as int, chars@.len() as int));
    if start == chars.len() {
        return None;
    }
    let mut value: u32 = 0;
    let mut i: usize = start;
    while i < chars.len()
        invariant
            1 <= start <= i <= chars@.len(),
            chars@ == color@,
            chars@[0] == '#',
            digits == crate::text::numeral_digits(color@.drop_first()),
            digits == chars@.subrange(start as int, chars@.len() as int),
            digits.len() > 0,
            all_hex(digits.take(i - start)),
            value == hex_value(digits.take(i - start)),
        decreases chars@.len() - i,
    {
        let c = chars[i];
        let ghost next = digits.take(i - start + 1);
        assert(next.drop_last() == digits.take(i - start));
        assert(next.last() == c);
        let d: u32 = if '0' <= c && c <= '9' {
            c as u32 - 48
        } else if 'a' <= c && c <= 'f' {
            c as u32 - 87
        } else if 'A' <= c && c <= 'F' {
            c as u32 - 55
        } else {
            assert(hex_digit(digits[i - start]) is None);
            return None;
        };
        assert(hex_digit(c) == Some(d as nat));
        let scaled = match value.checked_mul(16) {
            Some(v) => v,
            None => {
                proof {
                    lemma_hex_value_prefix(digits, i - start + 1);
                }
                return None;
            },
        };
        value = match scaled.checked_add(d) {
            Some(v) => v,
            None => {
                proof {
                    lemma_hex_value_prefix(digits, i - start + 1);
                }
                return None;
            },
        };
        assert forall|j: int| 0 <= j < next.len() implies hex_digit(#[trigger] next[j]) is Some by {
            if j < next.len() - 1 {
                assert(next[j] == digits.take(i - start)[j]);
            }
        }
        i += 1;
    }
    assert(digits.take(i - start) == digits);
    Some(value)
}

/// Month, day and year, as in "Jan 05, 2020".
pub const FULL_DATE: &'static str = "%b %d, %Y";

/// Month and year, as in "Jan, 2020".
pub const MONTH_YEAR: &'static str = "%b, %Y";

/// Month and day, as in "Jan 05".
pub const MONTH_DAY: &'static str = "%b %d";

/// Whether `pattern` is one of the three date patterns of this library.
pub open spec fn is_date_pattern(pattern: Seq<char>) -> bool {
    pattern == FULL_DATE@ || pattern == MONTH_YEAR@ || pattern == MONTH_DAY@
}

/// The text of the calendar date with the given year, month and day under a
/// `strftime` pattern, or `None` where there is no such date.
pub uninterp spec fn date_text(year: i32, month: u32, day: u32, pattern: Seq<char>) -> Option<
    Seq<char>,
>;

/// The character sequence of an optional string.
pub open spec fn option_text(text: Option<String>) -> Option<Seq<char>> {
    match text {
        Some(t) => Some(t@),
        None => None,
    }
}

/// Writes a calendar date under a pattern. Trusted: `NaiveDate::from_ymd_opt`
/// of the `chrono` crate, which gives no date where the day does not exist
/// or the year is out of range, and `NaiveDate::format`, whose result is
/// turned into a string. Formatting panics on a pattern that is no valid
/// `strftime` pattern, so only this library's three patterns are admitted.
/// The contract only gives the result its name.
#[verifier::external_body]
fn render_date(year: i32, month: u32, day: u32, pattern: &str) -> (r: Option<String>)
    requires
        is_date_pattern(pattern@),
    ensures
        option_text(r) == date_text(year, month, day, pattern@),
{
    match chrono::NaiveDate::from_ymd_opt(year, month, day) {
        Some(date) => Some(date.format(pattern).to_string()),
        None => None,
    }
}

/// Which parts of a date are known.
#[derive(Clone, Copy, Debug, PartialEq, Eq, Structural)]
pub enum DateShape {
    Full { year: i64, month: i64, day: i64 },
    MonthYear { year: i64, month: i64 },
    Year { year: i64 },
    MonthDay { month: i64, day: i64 },
    Unknown,
}

/// The shape of a date whose parts may be missing. A day without a month,
/// and a year with a day but no month, tell nothing.
pub open spec fn date_shape(year: Option<i64>, month: Option<i64>, day: Option<i64>) -> DateShape {
    match (year, month, day) {
        (Some(y), Some(m), Some(d)) => DateShape::Full { year: y, month: m, day: d },
        (Some(y), Some(m), None) => DateShape::MonthYear { year: y, month: m },
        (Some(y), None, None) => DateShape::Year { year: y },
        (None, Some(m), Some(d)) => DateShape::MonthDay { month: m, day: d },
        _ => DateShape::Unknown,
    }
}

pub fn classify_date(year: Option<i64>, month: Option<i64>, day: Option<i64>) -> (r: DateShape)
    ensures
        r == date_shape(year, month, day),
{
    match (year, month, day) {
        (Some(y), Some(m), Some(d)) => DateShape::Full { year: y, month: m, day: d },
        (Some(y), Some(m), None) => DateShape::MonthYear { year: y, month: m },
        (Some(y), None, None) => DateShape::Year { year: y },
        (None, Some(m), Some(d)) => DateShape::MonthDay { month: m, day: d },
        _ => DateShape::Unknown,
    }
}

/// The text of a date under a pattern, or `"Unknown"` where there is no such
/// date. Year, month and day are cut to 32 bits first.
pub open spec fn date_or_unknown(year: i64, month: i64, day: i64, pattern: Seq<char>) -> Seq<
    char,
> {
    match date_text(year as i32, month as u32, day as u32, pattern) {
        Some(t) => t,
        None => UNKNOWN_EMBED_FIELD@,
    }
}

fn date_with_fallback(year: i64, month: i64, day: i64, fmt: &str) -> (r: String)
    requires
        is_date_pattern(fmt@),
    ensures
        r@ == date_or_unknown(year, month, day, fmt@),
{
    text_or_unknown(
        render_date(
            #[verifier::truncate]
            (year as i32),
            #[verifier::truncate]
            (month as u32),
            #[verifier::truncate]
            (day as u32),
            fmt,
        ),
    )
}

/// What is shown for a date of the given shape.
pub open spec fn shape_text(shape: DateShape) -> Seq<char> {
    match shape {
        DateShape::Full { year, month, day } => date_or_unknown(year, month, day, FULL_DATE@),
        DateShape::MonthYear { year, month } => date_or_unknown(year, month, 1, MONTH_YEAR@),
        DateShape::Year { year } => signed_decimal(year as int),
        DateShape::MonthDay { month, day } => date_or_unknown(0, month, day, MONTH_DAY@),
        DateShape::Unknown => UNKNOWN_EMBED_FIELD@,
    }
}

/// What is shown for a date whose parts may be missing.
pub fn format_date(year: Option<i64>, month: Option<i64>, day: Option<i64>) -> (r: String)
    ensures
        r@ == shape_text(date_shape(year, month, day)),
{
    match classify_date(year, month, day) {
        DateShape::Full { year, month, day } => date_with_fallback(year, month, day, FULL_DATE),
        DateShape::MonthYear { year, month } => date_with_fallback(year, month, 1, MONTH_YEAR),
        DateShape::Year { year } => signed_decimal_string(year),
        DateShape::MonthDay { month, day } => date_with_fallback(0, month, day, MONTH_DAY),
        DateShape::Unknown => String::from_str(UNKNOWN_EMBED_FIELD),
    }
}

} // verus!
