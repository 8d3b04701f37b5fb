//! Extraction of an event's own timestamp from a line of free text.
//!
//! A format, where one is configured, or else one of a fixed list of common
//! shapes, is turned into a regular expression and searched for in the
//! line. What it finds is completed by a year and a zone offset where the
//! format has none, and parsed into milliseconds since the epoch.

use vstd::prelude::*;
use crate::pattern::{contains_directive, has_directive, pattern_of, to_pattern};
use crate::text::push_char;

verus! {

/// What a case-insensitive search for the regular expression `pattern` finds
/// first in `line`: the text of the leftmost match, or nothing where there is
/// no match or `pattern` is no regular expression.
pub uninterp spec fn regex_first_match(pattern: Seq<char>, line: Seq<char>) -> Option<Seq<char>>;

/// The instant, in milliseconds since the epoch, that `text` denotes when it
/// is read by the strftime-style `format`, or nothing where it does not fit
/// the format or names no instant with a zone offset.
pub uninterp spec fn parsed_epoch_millis(text: Seq<char>, format: Seq<char>) -> Option<i64>;

/// Searches `line` for `pattern`, ignoring case.
///
/// Trusted: the pattern is compiled by `regex::RegexBuilder` with
/// `case_insensitive(true)` and searched for by `regex::Regex::find`, whose
/// result is a function of the pattern and the haystack alone. The contract
/// gives that result a name and claims nothing else of it.
#[verifier::external_body]
fn first_match(pattern: &str, line: &str) -> (r: Option<String>)
    ensures
        r is Some <==> regex_first_match(pattern@, line@) is Some,
        r is Some ==> r->Some_0@ == regex_first_match(pattern@, line@)->Some_0,
{
    match regex::RegexBuilder::new(pattern).case_insensitive(true).build() {
        Ok(re) => match re.find(line) {
            Some(found) => Some(found.as_str().to_string()),
            None => None,
        },
        Err(_) => None,
    }
}

/// Parses `text` by `format` into milliseconds since the epoch.
///
/// Trusted: this is `chrono::DateTime::parse_from_str` followed by
/// `timestamp_millis`, whose result is a function of the two strings alone.
/// The contract gives that result a name and claims nothing else of it.
#[verifier::external_body]
fn parse_epoch_millis(text: &str, format: &str) -> (r: Option<i64>)
    ensures
        r == parsed_epoch_millis(text@, format@),
{
    match chrono::DateTime::parse_from_str(text, format) {
        Ok(instant) => Some(instant.timestamp_millis()),
        Err(_) => None,
    }
}

/// The current year in UTC and the current instant in milliseconds since
/// the epoch.
///
/// Trusted: this is `chrono::Utc::now`, read by `Datelike::year` and by
/// `timestamp_millis`. It depends on the clock, so nothing is claimed of it.
#[verifier::external_body]
pub(crate) fn utc_clock() -> (i32, i64) {
    let now = chrono::Utc::now();
    (chrono::Datelike::year(&now), now.timestamp_millis())
}

/// The number of shapes that are tried where no format is configured or the
/// configured one finds nothing.
pub const FALLBACK_COUNT: usize = 5;

/// The formats of those shapes, in the order in which they are tried: syslog,
/// ISO 8601 with an offset, ISO 8601 with a space, the style of an
/// Nginx or Apache error log, and the style of a combined access log.
pub open spec fn fallback_formats() -> Seq<Seq<char>> {
    seq![
        "%b %d %H:%M:%S"@,
        "%Y-%m-%dT%H:%M:%S%z"@,
        "%Y-%m-%d %H:%M:%S"@,
        "%Y/%m/%d %H:%M:%S"@,
        "%d/%b/%Y:%H:%M:%S %z"@,
    ]
}

/// The `i`-th fallback format.
pub fn fallback_format(i: usize) -> (r: &'static str)
    requires
        i < FALLBACK_COUNT,
    ensures
        r@ == fallback_formats()[i as int],
{
    if i == 0 {
        "%b %d %H:%M:%S"
    } else if i == 1 {
        "%Y-%m-%dT%H:%M:%S%z"
    } else if i == 2 {
        "%Y-%m-%d %H:%M:%S"
    } else if i == 3 {
        "%Y/%m/%d %H:%M:%S"
    } else {
        "%d/%b/%Y:%H:%M:%S %z"
    }
}

/// What `format` finds in `line`.
pub open spec fn matched_by(line: Seq<char>, format: Seq<char>) -> Option<Seq<char>> {
    regex_first_match(pattern_of(format), line)
}

/// The first fallback format from the `from`-th on that finds something in
/// `line`, with what it finds.
pub open spec fn first_fallback(line: Seq<char>, from: int) -> Option<(Seq<char>, Seq<char>)>
    decreases FALLBACK_COUNT - from,
{
    if from < 0 || from >= FALLBACK_COUNT as int {
        None
    } else if matched_by(line, fallback_formats()[from]) is Some {
        Some((fallback_formats()[from], matched_by(line, fallback_formats()[from])->Some_0))
    } else {
        first_fallback(line, from + 1)
    }
}

/// The format that applies to `line`, with what it finds there: the
/// configured one where it finds something, else the first fallback that
/// does.
pub open spec fn selection(line: Seq<char>, format: Option<Seq<char>>) -> Option<(Seq<char>, Seq<char>)> {
    if format is Some && matched_by(line, format->Some_0) is Some {
        Some((format->Some_0, matched_by(line, format->Some_0)->Some_0))
    } else {
        first_fallback(line, 0)
    }
}

/// Whether `format` names the year.
pub open spec fn has_year(format: Seq<char>) -> bool {
    has_directive(format, 'Y') || has_directive(format, 'y')
}

/// Whether `format` names the zone offset.
pub open spec fn has_zone(format: Seq<char>) -> bool {
    has_directive(format, 'z')
}

/// The decimal digit `d`.
pub open spec fn digit_char(d: int) -> char {
    if d == 0 {
        '0'
    } else if d == 1 {
        '1'
    } else if d == 2 {
        '2'
    } else if d == 3 {
        '3'
    } else if d == 4 {
        '4'
    } else if d == 5 {
        '5'
    } else if d == 6 {
        '6'
    } else if d == 7 {
        '7'
    } else if d == 8 {
        '8'
    } else {
        '9'
    }
}

/// `n` in decimal, without leading zeros.
pub open spec fn decimal(n: nat) -> Seq<char>
    decreases n,
{
    if n < 10 {
        seq![digit_char(n as int)]
    } else {
        decimal(n / 10).push(digit_char((n % 10) as int))
    }
}

/// What is parsed in place of `matched`: the year before it and the offset
/// behind it, each where `format` does not name it.
pub open spec fn augmented_text(matched: Seq<char>, format: Seq<char>, year: nat, offset: Seq<char>) -> Seq<char> {
    let head = if has_year(format) { Seq::<char>::empty() } else { decimal(year).push(' ') };
    let tail = if has_zone(format) { Seq::<char>::empty() } else { seq![' '] + offset };
    head + matched + tail
}

/// The format by which the augmented text is parsed.
pub open spec fn augmented_format(format: Seq<char>) -> Seq<char> {
    let head = if has_year(format) { Seq::<char>::empty() } else { "%Y "@ };
    let tail = if has_zone(format) { Seq::<char>::empty() } else { " %z"@ };
    head + format + tail
}

/// The timestamp of `line`: what its selected format finds, augmented and
/// parsed; nothing where no format finds anything or the parse fails.
pub open spec fn extracted(line: Seq<char>, format: Option<Seq<char>>, year: nat, offset: Seq<char>) -> Option<i64> {
    match selection(line, format) {
        None => None,
        Some(pair) => parsed_epoch_millis(
            augmented_text(pair.1, pair.0, year, offset),
            augmented_format(pair.0),
        ),
    }
}

/// The view of an optional format.
pub open spec fn format_view(format: Option<&str>) -> Option<Seq<char>> {
    match format {
        None => None,
        Some(f) => Some(f@),
    }
}

/// The offset that is assumed where a timestamp names none.
pub open spec fn default_offset() -> Seq<char> {
    "+01:00"@
}

/// The offset that is assumed where a timestamp names none.
pub fn default_offset_text() -> (r: &'static str)
    ensures
        r@ == default_offset(),
{
    "+01:00"
}

fn digit(d: u32) -> (c: char)
    requires
        d < 10,
    ensures
        c == digit_char(d as int),
{
    if d == 0 {
        '0'
    } else if d == 1 {
        '1'
    } else if d == 2 {
        '2'
    } else if d == 3 {
        '3'
    } else if d == 4 {
        '4'
    } else if d == 5 {
        '5'
    } else if d == 6 {
        '6'
    } else if d == 7 {
        '7'
    } else if d == 8 {
        '8'
    } else {
        '9'
    }
}

/// Appends `n` in decimal to `out`.
pub fn push_decimal(out: &mut String, n: u32)
    ensures
        final(out)@ == old(out)@ + decimal(n as nat),
    decreases n,
{
    if n < 10 {
        push_char(out, digit(n));
        proof {
            assert(final(out)@ =~= old(out)@ + decimal(n as nat));
        }
    } else {
        push_decimal(out, n / 10);
        push_char(out, digit(n % 10));
        proof {
            assert(final(out)@ =~= old(out)@ + decimal(n as nat));
        }
    }
}

/// Completes what `format` found, `matched`, by the year and the offset that
/// it lacks; returns the text to parse and the format to parse it by.
pub fn augment(matched: &str, format: &str, year: u32, offset: &str) -> (r: (String, String))
    ensures
        r.0@ == augmented_text(matched@, format@, year as nat, offset@),
        r.1@ == augmented_format(format@),
{
    let with_year = contains_directive(format, 'Y') || contains_directive(format, 'y');
    let with_zone = contains_directive(format, 'z');
    let mut text = String::new();
    let mut full = String::new();
    if !with_year {
        push_decimal(&mut text, year);
        push_char(&mut text, ' ');
        full.append("%Y ");
    }
    text.append(matched);
    full.append(format);
    if !with_zone {
        push_char(&mut text, ' ');
        text.append(offset);
        full.append(" %z");
    }
    proof {
        assert(text@ =~= augmented_text(matched@, format@, year as nat, offset@));
        assert(full@ =~= augmented_format(format@));
    }
    (text, full)
}

/// Selects the format that applies to `line` and returns it with what it
/// finds there.
pub fn select(line: &str, format: Option<&str>) -> (r: Option<(String, String)>)
    ensures
        r is Some <==> selection(line@, format_view(format)) is Some,
        r is Some ==> (r->Some_0.0@, r->Some_0.1@) == selection(line@, format_view(format))->Some_0,
{
    if let Some(configured) = format {
        let expression = to_pattern(configured);
        if let Some(found) = first_match(expression.as_str(), line) {
            return Some((configured.to_owned(), found));
        }
    }
    let mut i: usize = 0;
    while i < FALLBACK_COUNT
        invariant
            i <= FALLBACK_COUNT,
            first_fallback(line@, i as int) == selection(line@, format_view(format)),
        decreases FALLBACK_COUNT - i,
    {
        let candidate = fallback_format(i);
        let expression = to_pattern(candidate);
        if let Some(found) = first_match(expression.as_str(), line) {
            return Some((candidate.to_owned(), found));
        }
        i += 1;
    }
    None
}

/// Parses what `format` found, `matched`, after completing it.
pub fn resolve(matched: &str, format: &str, year: u32, offset: &str) -> (r: Option<i64>)
    ensures
        r == parsed_epoch_millis(
            augmented_text(matched@, format@, year as nat, offset@),
            augmented_format(format@),
        ),
{
    let pair = augment(matched, format, year, offset);
    parse_epoch_millis(pair.0.as_str(), pair.1.as_str())
}

/// The timestamp of `line` in milliseconds since the epoch, where a year and
/// an offset that the line does not name are `year` and `offset`.
pub fn extract_at(line: &str, format: Option<&str>, year: u32, offset: &str) -> (r: Option<i64>)
    ensures
        r == extracted(line@, format_view(format), year as nat, offset@),
{
    match select(line, format) {
        None => None,
        Some(pair) => resolve(pair.1.as_str(), pair.0.as_str(), year, offset),
    }
}

/// The year that `extract` assumes when the clock reads `clock_year`.
pub open spec fn assumed_year(clock_year: i32) -> nat {
    if clock_year < 0 {
        0
    } else {
        clock_year as nat
    }
}

/// The timestamp of `line` in milliseconds since the epoch. A year that the
/// line does not name is the current one in UTC, an offset that it does not
/// name is the default one.
pub fn extract(line: &str, format: Option<&str>) -> (r: Option<i64>)
    ensures
        exists|clock_year: i32|
            r == extracted(line@, format_view(format), assumed_year(clock_year), default_offset()),
{
    let clock_year = utc_clock().0;
    let year: u32 = if clock_year < 0 { 0 } else { clock_year as u32 };
    let r = extract_at(line, format, year, default_offset_text());
    proof {
        assert(r == extracted(line@, format_view(format), assumed_year(clock_year), default_offset()));
    }
    r
}

} // verus!
