//! What the library takes from outside crates and from the standard library:
//! regular expressions, globs, durations, timestamps, TOML syntax, quoting,
//! case and numbers. Each function here is believed, not proved.

use crate::text::{is_space, opt_view};
use vstd::prelude::*;
use vstd::string::*;

verus! {

/// The message with which `regex::Regex::new` refuses a pattern.
pub uninterp spec fn regex_fault(pattern: Seq<char>) -> Option<Seq<char>>;

/// Whether `regex::Regex::is_match` finds a pattern in a text; a pattern that
/// does not compile is found nowhere.
pub uninterp spec fn regex_matches(pattern: Seq<char>, text: Seq<char>) -> bool;

/// The message with which `globset::Glob::new` refuses a pattern.
pub uninterp spec fn glob_fault(pattern: Seq<char>) -> Option<Seq<char>>;

/// The message with which `regex::bytes::RegexBuilder::build` refuses the
/// expression that `globset::Glob::regex` gives for a pattern, or the parse
/// message of a pattern that has none.
pub uninterp spec fn glob_build_fault(pattern: Seq<char>) -> Option<Seq<char>>;

/// Whether `globset::GlobMatcher::is_match` accepts a text for a pattern whose
/// expression can be built.
pub uninterp spec fn glob_matches(pattern: Seq<char>, text: Seq<char>) -> bool;

/// What `humantime::parse_duration` reads: whole seconds and the nanoseconds
/// beyond them, or its message.
pub uninterp spec fn parsed_duration(text: Seq<char>) -> Result<(u64, u32), Seq<char>>;

/// A text as Rust's `Debug` formatting of `str` quotes it.
pub uninterp spec fn quoted(text: Seq<char>) -> Seq<char>;

/// Calls `regex::Regex::new`. The contract claims only that whether a pattern
/// is refused, and with which message, depends on the pattern alone.
#[verifier::external_body]
pub(crate) fn regex_error(pattern: &str) -> (fault: Option<String>)
    ensures
        opt_view(fault) == regex_fault(pattern@),
{
    regex::Regex::new(pattern).err().map(|error| error.to_string())
}

/// Calls `regex::Regex::is_match` on the compiled pattern. The contract claims
/// only that the answer depends on the pattern and the text alone.
#[verifier::external_body]
pub(crate) fn regex_is_match(pattern: &str, text: &str) -> (found: bool)
    ensures
        found == regex_matches(pattern@, text@),
{
    regex::Regex::new(pattern).is_ok_and(|regex| regex.is_match(text))
}

/// Calls `globset::Glob::new`. The contract claims only that whether a pattern
/// is refused, and with which message, depends on the pattern alone.
#[verifier::external_body]
pub(crate) fn glob_error(pattern: &str) -> (fault: Option<String>)
    ensures
        opt_view(fault) == glob_fault(pattern@),
{
    globset::Glob::new(pattern).err().map(|error| error.to_string())
}

/// Compiles the expression that `globset::Glob::regex` gives for a pattern with
/// `regex::bytes::RegexBuilder::build`, the dot matching new lines as well;
/// `globset::Glob::compile_matcher` compiles the same expression but does not
/// return where that fails. The contract claims that the outcome depends on the
/// pattern alone, and that a pattern which does not parse is refused with its
/// parse message.
#[verifier::external_body]
pub(crate) fn glob_build_error(pattern: &str) -> (fault: Option<String>)
    ensures
        opt_view(fault) == glob_build_fault(pattern@),
        glob_fault(pattern@) is Some ==> opt_view(fault) == glob_fault(pattern@),
{
    match globset::Glob::new(pattern) {
        Ok(glob) => {
            let mut builder = regex::bytes::RegexBuilder::new(glob.regex());
            builder.dot_matches_new_line(true);
            builder.build().err().map(|error| error.to_string())
        },
        Err(error) => Some(error.to_string()),
    }
}

/// Calls `globset::Glob::compile_matcher` and `globset::GlobMatcher::is_match`.
/// Compiling does not return for a pattern whose expression cannot be built, so
/// such a pattern is left out. The contract claims only that the answer depends
/// on the pattern and the text alone; what counts as a separator is settled when
/// the library is built.
#[verifier::external_body]
pub(crate) fn glob_is_match(pattern: &str, text: &str) -> (found: bool)
    requires
        glob_build_fault(pattern@) is None,
    ensures
        found == glob_matches(pattern@, text@),
{
    globset::Glob::new(pattern).is_ok_and(|glob| glob.compile_matcher().is_match(text))
}

/// The nanoseconds of a unit that durations are written in.
pub open spec fn unit_nanos(unit: Seq<char>) -> Option<nat> {
    if unit == "nanos"@ || unit == "nsec"@ || unit == "ns"@ {
        Some(1)
    } else if unit == "usec"@ || unit == "us"@ || unit == "\u{b5}s"@ {
        Some(1_000)
    } else if unit == "millis"@ || unit == "msec"@ || unit == "ms"@ {
        Some(1_000_000)
    } else if unit == "seconds"@ || unit == "second"@ || unit == "secs"@ || unit == "sec"@ || unit
        == "s"@ {
        Some(1_000_000_000)
    } else if unit == "minutes"@ || unit == "minute"@ || unit == "min"@ || unit == "mins"@ || unit
        == "m"@ {
        Some(60_000_000_000)
    } else if unit == "hours"@ || unit == "hour"@ || unit == "hr"@ || unit == "hrs"@ || unit
        == "h"@ {
        Some(3_600_000_000_000)
    } else if unit == "days"@ || unit == "day"@ || unit == "d"@ {
        Some(86_400_000_000_000)
    } else if unit == "weeks"@ || unit == "week"@ || unit == "wk"@ || unit == "wks"@ || unit
        == "w"@ {
        Some(604_800_000_000_000)
    } else if unit == "months"@ || unit == "month"@ || unit == "M"@ {
        Some(2_630_016_000_000_000)
    } else if unit == "years"@ || unit == "year"@ || unit == "yr"@ || unit == "yrs"@ || unit
        == "y"@ {
        Some(31_557_600_000_000_000)
    } else {
        None
    }
}

/// Where the reading of a written duration stands.
#[derive(Debug, Clone, Copy, PartialEq, Eq, Structural)]
pub enum DurationPlace {
    /// Before a number.
    Gap,
    /// In a number, before any decimal point.
    Whole,
    /// In a number, behind its decimal point.
    Part,
    /// In a unit.
    Unit,
    /// Behind something that no duration holds, or too much of it.
    Refused,
    /// Behind spans that add up to exactly one second more than a `u64` of
    /// seconds holds.
    Overrun,
}

/// What a written duration has come to so far: the current number with `part`
/// of `scale` behind its decimal point, the current unit, and the nanoseconds
/// of the spans before.
pub struct DurationWalk {
    pub place: DurationPlace,
    pub whole: nat,
    pub part: nat,
    pub scale: nat,
    pub unit: Seq<char>,
    pub total: nat,
}

/// The nanoseconds of one second more than a `u64` of seconds holds.
pub const DURATION_END: u128 = 18_446_744_073_709_551_616_000_000_000;

/// A walk that has come to the total of its spans.
pub open spec fn come_to(walk: DurationWalk, total: nat) -> DurationWalk {
    DurationWalk {
        place: if total == DURATION_END {
            DurationPlace::Overrun
        } else if total > DURATION_END {
            DurationPlace::Refused
        } else {
            DurationPlace::Gap
        },
        total,
        ..walk
    }
}

/// A walk at the end of a span: the whole number counts first, then what
/// stands behind its decimal point.
pub open spec fn span_ended(walk: DurationWalk) -> DurationWalk {
    match unit_nanos(walk.unit) {
        None => DurationWalk { place: DurationPlace::Refused, ..walk },
        Some(nanos) => {
            let counted = come_to(walk, walk.total + walk.whole * nanos);
            if counted.place == DurationPlace::Gap && walk.scale > 1 {
                come_to(counted, counted.total + walk.part * nanos / walk.scale)
            } else {
                counted
            }
        },
    }
}

/// Whether a unit can hold a character.
pub open spec fn is_unit_char(character: char) -> bool {
    'a' <= character <= 'z' || 'A' <= character <= 'Z' || character == '\u{b5}'
}

/// A walk at the first digit of a number.
pub open spec fn number_begun(walk: DurationWalk, character: char) -> DurationWalk {
    DurationWalk {
        place: DurationPlace::Whole,
        whole: digit_value(character),
        part: 0,
        scale: 1,
        unit: Seq::empty(),
        ..walk
    }
}

/// A walk one character further.
pub open spec fn walked_on(walk: DurationWalk, character: char) -> DurationWalk {
    let digit = '0' <= character <= '9';
    let refused = DurationWalk { place: DurationPlace::Refused, ..walk };
    match walk.place {
        DurationPlace::Gap => if digit {
            number_begun(walk, character)
        } else if is_space(character) {
            walk
        } else {
            refused
        },
        DurationPlace::Whole => if digit {
            let whole = walk.whole * 10 + digit_value(character);
            if whole > u64::MAX {
                refused
            } else {
                DurationWalk { whole, ..walk }
            }
        } else if is_space(character) {
            walk
        } else if is_unit_char(character) {
            DurationWalk { place: DurationPlace::Unit, unit: seq![character], ..walk }
        } else if character == '.' {
            DurationWalk { place: DurationPlace::Part, ..walk }
        } else {
            refused
        },
        DurationPlace::Part => if digit {
            if walk.scale * 10 > u64::MAX {
                refused
            } else {
                DurationWalk {
                    part: walk.part * 10 + digit_value(character),
                    scale: walk.scale * 10,
                    ..walk
                }
            }
        } else if is_space(character) {
            walk
        } else if is_unit_char(character) && walk.scale > 1 {
            DurationWalk { place: DurationPlace::Unit, unit: seq![character], ..walk }
        } else {
            refused
        },
        DurationPlace::Unit => if is_unit_char(character) {
            DurationWalk { unit: walk.unit.push(character), ..walk }
        } else if digit {
            let ended = span_ended(walk);
            if ended.place == DurationPlace::Gap {
                number_begun(ended, character)
            } else {
                ended
            }
        } else if is_space(character) {
            span_ended(walk)
        } else {
            refused
        },
        DurationPlace::Refused | DurationPlace::Overrun => walk,
    }
}

/// The walk through a written duration.
pub open spec fn duration_walk(text: Seq<char>) -> DurationWalk
    decreases text.len(),
{
    if text.len() == 0 {
        DurationWalk {
            place: DurationPlace::Gap,
            whole: 0,
            part: 0,
            scale: 1,
            unit: Seq::empty(),
            total: 0,
        }
    } else {
        walked_on(duration_walk(text.drop_last()), text.last())
    }
}

/// Whether the spans of a written duration, added up one by one, come to
/// exactly one second more than a `u64` of seconds holds.
#[verifier::opaque]
pub open spec fn overruns(text: Seq<char>) -> bool {
    let walk = duration_walk(text);
    if walk.place == DurationPlace::Unit {
        span_ended(walk).place == DurationPlace::Overrun
    } else {
        walk.place == DurationPlace::Overrun
    }
}

/// Calls `humantime::parse_duration`. Where the seconds add up to the largest
/// `u64` and the nanoseconds to a full second, it does not return; the total is
/// then one second more than a `u64` of seconds holds. The contract claims only
/// that the outcome depends on the text alone.
#[verifier::external_body]
pub(crate) fn parse_duration(text: &str) -> (parsed: Result<(u64, u32), String>)
    requires
        !overruns(text@),
    ensures
        match parsed {
            Ok(span) => parsed_duration(text@) == Ok::<(u64, u32), Seq<char>>(span),
            Err(message) => parsed_duration(text@) == Err::<(u64, u32), Seq<char>>(message@),
        },
{
    match humantime::parse_duration(text) {
        Ok(duration) => Ok((duration.as_secs(), duration.subsec_nanos())),
        Err(error) => Err(error.to_string()),
    }
}

/// Formats a text with the `Debug` formatting of `str`. The contract claims
/// only that the outcome depends on the text alone.
#[verifier::external_body]
pub(crate) fn quote(text: &str) -> (shown: String)
    ensures
        shown@ == quoted(text@),
{
    format!("{text:?}")
}

/// What `toml_edit::DocumentMut` answers to a text that it does not parse.
pub uninterp spec fn document_fault(source: Seq<char>) -> Option<Seq<char>>;

/// Parses a text with `<toml_edit::DocumentMut as FromStr>::from_str` and keeps
/// the error's message alone. The contract claims only that the outcome
/// depends on the text alone.
#[verifier::external_body]
pub(crate) fn document_error(source: &str) -> (fault: Option<String>)
    ensures
        opt_view(fault) == document_fault(source@),
{
    match source.parse::<toml_edit::DocumentMut>() {
        Ok(_) => None,
        Err(error) => Some(error.to_string()),
    }
}

/// Whether a character has a meaning of its own in a regular expression.
pub open spec fn regex_meta(character: char) -> bool {
    seq![
        '\\', '.', '+', '*', '?', '(', ')', '|', '[', ']', '{', '}', '^', '$', '#', '&', '-', '~',
    ].contains(character)
}

/// A text with a backslash before every character that a regular expression
/// would read.
pub open spec fn regex_escaped(text: Seq<char>) -> Seq<char>
    decreases text.len(),
{
    if text.len() == 0 {
        text
    } else if regex_meta(text.last()) {
        regex_escaped(text.drop_last()).push('\\').push(text.last())
    } else {
        regex_escaped(text.drop_last()).push(text.last())
    }
}

/// Escapes a text with `regex::escape`: a backslash goes before each of the
/// meta characters, and nothing else changes.
#[verifier::external_body]
pub(crate) fn regex_escape(text: &str) -> (escaped: String)
    ensures
        escaped@ == regex_escaped(text@),
{
    regex::escape(text)
}

/// The seconds since the epoch that `humantime::parse_rfc3339` reads from a
/// timestamp, where it reads one.
pub uninterp spec fn rfc3339_seconds(text: Seq<char>) -> Option<u64>;

/// Reads a timestamp with `humantime::parse_rfc3339` and counts it in whole
/// seconds since the epoch. The contract claims only that the outcome depends
/// on the text alone.
#[verifier::external_body]
pub(crate) fn parse_rfc3339(text: &str) -> (seconds: Option<u64>)
    ensures
        seconds == rfc3339_seconds(text@),
{
    let moment = humantime::parse_rfc3339(text).ok()?;
    let since = moment.duration_since(std::time::UNIX_EPOCH).ok()?;
    Some(since.as_secs())
}

/// The first second that `humantime` writes no timestamp for: the year ten
/// thousand.
pub const TIMESTAMP_END: u64 = 253_402_300_800;

/// The timestamp that `humantime::format_rfc3339_seconds` writes for a number
/// of seconds since the epoch.
pub uninterp spec fn rfc3339_text(seconds: u64) -> Seq<char>;

/// Writes a timestamp with `humantime::format_rfc3339_seconds`, which has no
/// form for years of five digits. The contract claims only that the outcome
/// depends on the seconds alone.
#[verifier::external_body]
pub(crate) fn format_rfc3339(seconds: u64) -> (text: String)
    requires
        seconds < TIMESTAMP_END,
    ensures
        text@ == rfc3339_text(seconds),
{
    let moment = std::time::UNIX_EPOCH + std::time::Duration::from_secs(seconds);
    humantime::format_rfc3339_seconds(moment).to_string()
}

/// The lowercase mapping that `char::to_lowercase` yields.
pub uninterp spec fn lowered(character: char) -> Seq<char>;

/// Maps a character with `char::to_lowercase`, which yields one character or
/// more. Beyond that the contract claims only that the outcome depends on the
/// character alone.
#[verifier::external_body]
pub(crate) fn lowercase(character: char) -> (letters: Vec<char>)
    ensures
        letters@ == lowered(character),
        letters@.len() >= 1,
{
    character.to_lowercase().collect()
}

/// The value of a decimal digit.
pub open spec fn digit_value(character: char) -> nat {
    (character as u32 - 0x30) as nat
}

/// The value of decimal digits.
pub open spec fn digits_value(digits: Seq<char>) -> nat
    decreases digits.len(),
{
    if digits.len() == 0 {
        0
    } else {
        digits_value(digits.drop_last()) * 10 + digit_value(digits.last())
    }
}

/// A text without the plus sign that it may begin with.
pub open spec fn unsigned_part(text: Seq<char>) -> Seq<char> {
    if text.len() > 0 && text[0] == '+' {
        text.drop_first()
    } else {
        text
    }
}

/// Whether a text holds decimal digits only.
pub open spec fn all_digits(text: Seq<char>) -> bool {
    forall|i: int| 0 <= i < text.len() ==> '0' <= #[trigger] text[i] <= '9'
}

/// The number that a text writes: an optional plus sign, then only decimal
/// digits, of a value that fits into 64 bits.
pub open spec fn number_of(text: Seq<char>) -> Option<u64> {
    let digits = unsigned_part(text);
    if digits.len() > 0 && all_digits(digits) && digits_value(digits) <= u64::MAX {
        Some(digits_value(digits) as u64)
    } else {
        None
    }
}

/// The message with which `u64::from_str` refuses a text.
pub uninterp spec fn number_fault(text: Seq<char>) -> Seq<char>;

/// Reads a number with `<u64 as FromStr>::from_str`: an optional plus sign and
/// decimal digits, as far as the value fits. Of the message that refuses any
/// other text the contract claims only that it depends on the text alone.
#[verifier::external_body]
pub(crate) fn parse_number(text: &str) -> (outcome: Result<u64, String>)
    ensures
        match outcome {
            Ok(number) => number_of(text@) == Some(number),
            Err(message) => number_of(text@) is None && message@ == number_fault(text@),
        },
{
    match text.parse::<u64>() {
        Ok(number) => Ok(number),
        Err(error) => Err(error.to_string()),
    }
}

} // verus!
