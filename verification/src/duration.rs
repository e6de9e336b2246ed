//! Durations as they are written in configuration, and as they are shown.

use crate::outside::{
    come_to, duration_walk, is_unit_char, number_begun, overruns, parse_duration, parsed_duration,
    span_ended, unit_nanos, walked_on, DurationPlace, DurationWalk, DURATION_END,
};
use crate::text::{chars_of, concat2, decimal, decimal_text, space, text_eq};
use vstd::prelude::*;
use vstd::string::*;

verus! {

/// What is said of a duration that no number of seconds can hold.
pub const DURATION_OVERFLOW: &'static str =
    "number is too large or cannot be represented without a lack of precision (values below 1ns are not supported)";

/// What a written duration means: whole seconds and the nanoseconds beyond
/// them, or why it is refused. One that comes to exactly one second more than a
/// `u64` of seconds holds is refused as every longer one is.
pub open spec fn duration_of(text: Seq<char>) -> Result<(u64, u32), Seq<char>> {
    if overruns(text) {
        Err(DURATION_OVERFLOW@)
    } else {
        parsed_duration(text)
    }
}

/// The whole seconds of a written duration, 0 where it is refused.
pub open spec fn duration_seconds(text: Seq<char>) -> u64 {
    match duration_of(text) {
        Ok(span) => span.0,
        Err(_) => 0,
    }
}

/// Why a written duration is refused.
pub open spec fn duration_fault(text: Seq<char>) -> Option<Seq<char>> {
    match duration_of(text) {
        Ok(_) => None,
        Err(message) => Some(message),
    }
}

/// A walk through a written duration.
struct Walk {
    place: DurationPlace,
    whole: u64,
    part: u64,
    scale: u64,
    unit: String,
    total: u128,
}

impl View for Walk {
    type V = DurationWalk;

    closed spec fn view(&self) -> DurationWalk {
        DurationWalk {
            place: self.place,
            whole: self.whole as nat,
            part: self.part as nat,
            scale: self.scale as nat,
            unit: self.unit@,
            total: self.total as nat,
        }
    }
}

impl Walk {
    /// Between characters the part is smaller than its scale, and the total is
    /// below the end unless the walk is over.
    closed spec fn holds(self) -> bool {
        &&& self.part < self.scale
        &&& self.place is Refused || self.place is Overrun || self.total < DURATION_END
    }

    fn start() -> (walk: Self)
        ensures
            walk.holds(),
            walk@ == duration_walk(Seq::empty()),
    {
        let walk = Walk {
            place: DurationPlace::Gap,
            whole: 0,
            part: 0,
            scale: 1,
            unit: String::new(),
            total: 0,
        };
        assert(walk@.unit =~= Seq::<char>::empty());
        walk
    }

    fn reach(&mut self, total: u128)
        ensures
            final(self)@ == come_to(old(self)@, total as nat),
            final(self).part == old(self).part,
            final(self).scale == old(self).scale,
    {
        self.total = total;
        if total == DURATION_END {
            self.place = DurationPlace::Overrun;
        } else if total > DURATION_END {
            self.place = DurationPlace::Refused;
        } else {
            self.place = DurationPlace::Gap;
        }
    }

    fn end_span(&mut self)
        requires
            old(self).holds(),
            old(self)@.place == DurationPlace::Unit,
        ensures
            final(self).holds(),
            final(self)@ == span_ended(old(self)@),
    {
        match nanos_of(self.unit.as_str()) {
            None => {
                self.place = DurationPlace::Refused;
            },
            Some(nanos) => {
                let counted = span(self.whole, nanos);
                let total = self.total + counted;
                self.reach(total);
                if self.place == DurationPlace::Gap && self.scale > 1 {
                    let counted = span(self.part, nanos);
                    let share = counted / (self.scale as u128);
                    let total = self.total + share;
                    self.reach(total);
                }
            },
        }
    }
}

fn span(number: u64, nanos: u64) -> (product: u128)
    requires
        nanos <= 31_557_600_000_000_000,
    ensures
        product == number * nanos,
        product <= 600_000_000_000_000_000_000_000_000_000_000_000,
{
    assert(number * nanos <= 18_446_744_073_709_551_615 * 31_557_600_000_000_000) by (nonlinear_arith)
        requires
            number <= 18_446_744_073_709_551_615,
            nanos <= 31_557_600_000_000_000,
    ;
    (number as u128) * (nanos as u128)
}

fn is_any_of(word: &str, first: &str, second: &str, third: &str) -> (found: bool)
    ensures
        found == (word@ == first@ || word@ == second@ || word@ == third@),
{
    text_eq(word, first) || text_eq(word, second) || text_eq(word, third)
}

fn nanos_of(unit: &str) -> (nanos: Option<u64>)
    ensures
        match nanos {
            Some(count) => unit_nanos(unit@) == Some(count as nat) && count
                <= 31_557_600_000_000_000,
            None => unit_nanos(unit@) is None,
        },
{
    if is_any_of(unit, "nanos", "nsec", "ns") {
        Some(1)
    } else if is_any_of(unit, "usec", "us", "\u{b5}s") {
        Some(1_000)
    } else if is_any_of(unit, "millis", "msec", "ms") {
        Some(1_000_000)
    } else if is_any_of(unit, "seconds", "second", "secs") || is_any_of(unit, "sec", "s", "s") {
        Some(1_000_000_000)
    } else if is_any_of(unit, "minutes", "minute", "min") || is_any_of(unit, "mins", "m", "m") {
        Some(60_000_000_000)
    } else if is_any_of(unit, "hours", "hour", "hr") || is_any_of(unit, "hrs", "h", "h") {
        Some(3_600_000_000_000)
    } else if is_any_of(unit, "days", "day", "d") {
        Some(86_400_000_000_000)
    } else if is_any_of(unit, "weeks", "week", "wk") || is_any_of(unit, "wks", "w", "w") {
        Some(604_800_000_000_000)
    } else if is_any_of(unit, "months", "month", "M") {
        Some(2_630_016_000_000_000)
    } else if is_any_of(unit, "years", "year", "yr") || is_any_of(unit, "yrs", "y", "y") {
        Some(31_557_600_000_000_000)
    } else {
        None
    }
}

fn in_unit(character: char) -> (found: bool)
    ensures
        found == is_unit_char(character),
{
    ('a' <= character && character <= 'z') || ('A' <= character && character <= 'Z') || character
        == '\u{b5}'
}

impl Walk {
    fn begin_number(&mut self, character: char)
        requires
            old(self).holds(),
            old(self)@.place == DurationPlace::Gap,
            '0' <= character <= '9',
        ensures
            final(self).holds(),
            final(self)@ == number_begun(old(self)@, character),
    {
        self.place = DurationPlace::Whole;
        self.whole = character as u64 - 0x30;
        self.part = 0;
        self.scale = 1;
        self.unit = String::new();
        assert(self@.unit =~= Seq::<char>::empty());
    }

    fn begin_unit(&mut self, character: char)
        requires
            old(self).holds(),
            old(self)@.place == DurationPlace::Whole || old(self)@.place == DurationPlace::Part,
        ensures
            final(self).holds(),
            final(self)@ == (DurationWalk {
                place: DurationPlace::Unit,
                unit: seq![character],
                ..old(self)@
            }),
    {
        self.place = DurationPlace::Unit;
        self.unit = String::new();
        self.unit.push(character);
        assert(self@.unit =~= seq![character]);
    }

    fn go_on(&mut self, character: char)
        requires
            old(self).holds(),
        ensures
            final(self).holds(),
            final(self)@ == walked_on(old(self)@, character),
    {
        let digit = '0' <= character && character <= '9';
        match self.place {
            DurationPlace::Gap => {
                if digit {
                    self.begin_number(character);
                } else if !space(character) {
                    self.place = DurationPlace::Refused;
                }
            },
            DurationPlace::Whole => {
                if digit {
                    let whole = (self.whole as u128) * 10 + (character as u128 - 0x30);
                    if whole > u64::MAX as u128 {
                        self.place = DurationPlace::Refused;
                    } else {
                        self.whole = whole as u64;
                    }
                } else if space(character) {
                } else if in_unit(character) {
                    self.begin_unit(character);
                } else if character == '.' {
                    self.place = DurationPlace::Part;
                } else {
                    self.place = DurationPlace::Refused;
                }
            },
            DurationPlace::Part => {
                if digit {
                    let scale = (self.scale as u128) * 10;
                    if scale > u64::MAX as u128 {
                        self.place = DurationPlace::Refused;
                    } else {
                        self.part = self.part * 10 + (character as u64 - 0x30);
                        self.scale = scale as u64;
                    }
                } else if space(character) {
                } else if in_unit(character) && self.scale > 1 {
                    self.begin_unit(character);
                } else {
                    self.place = DurationPlace::Refused;
                }
            },
            DurationPlace::Unit => {
                if in_unit(character) {
                    self.unit.push(character);
                } else if digit {
                    self.end_span();
                    if self.place == DurationPlace::Gap {
                        self.begin_number(character);
                    }
                } else if space(character) {
                    self.end_span();
                } else {
                    self.place = DurationPlace::Refused;
                }
            },
            DurationPlace::Refused | DurationPlace::Overrun => {},
        }
    }
}

fn comes_to_the_end(text: &str) -> (found: bool)
    ensures
        found == overruns(text@),
{
    reveal(overruns);

    let characters = chars_of(text);
    let mut walk = Walk::start();
    let mut index: usize = 0;
    assert(text@.take(0) =~= Seq::<char>::empty());
    while index < characters.len()
        invariant
            index <= characters@.len(),
            characters@ == text@,
            walk.holds(),
            walk@ == duration_walk(text@.take(index as int)),
        decreases characters@.len() - index,
    {
        assert(text@.take(index as int + 1).drop_last() =~= text@.take(index as int));
        assert(text@.take(index as int + 1).last() == characters@[index as int]);
        walk.go_on(characters[index]);
        index += 1;
    }
    assert(text@.take(index as int) =~= text@);
    if walk.place == DurationPlace::Unit {
        walk.end_span();
    }
    walk.place == DurationPlace::Overrun
}

/// Reads a written duration.
pub fn read_duration(text: &str) -> (span: Result<(u64, u32), String>)
    ensures
        match span {
            Ok(value) => duration_of(text@) == Ok::<(u64, u32), Seq<char>>(value),
            Err(message) => duration_of(text@) == Err::<(u64, u32), Seq<char>>(message@),
        },
{
    if comes_to_the_end(text) {
        Err(DURATION_OVERFLOW.to_owned())
    } else {
        parse_duration(text)
    }
}

/// The seconds between an earlier moment and now, unless the moment lies in
/// the future or further back than the clock can measure.
pub open spec fn elapsed(now: i64, since: i64) -> Option<u64> {
    if 0 <= now - since <= i64::MAX {
        Some((now - since) as u64)
    } else {
        None
    }
}

/// The seconds since a known moment.
pub open spec fn age_of(now: i64, since: Option<i64>) -> Option<u64> {
    match since {
        Some(moment) => elapsed(now, moment),
        None => None,
    }
}

/// The seconds since a known moment.
pub fn age_seconds(now: i64, timestamp: Option<i64>) -> (age: Option<u64>)
    ensures
        age == age_of(now, timestamp),
{
    match timestamp {
        Some(moment) => match now.checked_sub(moment) {
            Some(difference) => if difference >= 0 {
                Some(difference as u64)
            } else {
                None
            },
            None => None,
        },
        None => None,
    }
}

/// A duration in its largest whole unit: days, hours, minutes or seconds.
pub open spec fn short_duration(seconds: u64) -> Seq<char> {
    if seconds >= 86_400 {
        decimal((seconds / 86_400) as nat) + "d"@
    } else if seconds >= 3_600 {
        decimal((seconds / 3_600) as nat) + "h"@
    } else if seconds >= 60 {
        decimal((seconds / 60) as nat) + "m"@
    } else {
        decimal(seconds as nat) + "s"@
    }
}

/// Shows a duration in its largest whole unit.
pub fn format_duration(seconds: u64) -> (text: String)
    ensures
        text@ == short_duration(seconds),
{
    if seconds >= 86_400 {
        concat2(decimal_text(seconds / 86_400).as_str(), "d")
    } else if seconds >= 3_600 {
        concat2(decimal_text(seconds / 3_600).as_str(), "h")
    } else if seconds >= 60 {
        concat2(decimal_text(seconds / 60).as_str(), "m")
    } else {
        concat2(decimal_text(seconds).as_str(), "s")
    }
}

} // verus!
