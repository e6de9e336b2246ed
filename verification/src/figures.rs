//! What is read from and shown of moments, spans and sizes.

use crate::candidate::ConfiguratorError;
use crate::duration::{age_seconds, format_duration};
use crate::inventory::rfc3339_epoch;
use crate::outside::{number_of, rfc3339_seconds};
use crate::present::{budget_parts, compact, ends_in, format_bytes, parse_byte_budget};
use crate::text::{decimal, trimmed};
use vstd::prelude::*;

verus! {

/// The character of a digit.
pub open spec fn figure(value: int) -> char {
    (0x30 + value) as char
}

/// An offset from UTC as it is written behind a local time.
pub open spec fn written_offset(ahead: bool, hours: int, minutes: int) -> Seq<char> {
    seq![
        if ahead {
            '+'
        } else {
            '-'
        },
        figure(hours / 10),
        figure(hours % 10),
        ':',
        figure(minutes / 10),
        figure(minutes % 10),
    ]
}

/// A timestamp in UTC is read as it stands; the same local time with an offset is
/// that many hours and minutes earlier where the offset is ahead, and later where
/// it is behind; hours past 23 and minutes past 59 are no offset.
pub proof fn an_offset_shifts_the_moment(
    local: Seq<char>,
    ahead: bool,
    hours: int,
    minutes: int,
    shifted: &str,
    plain: &str,
    moment: Option<i64>,
    utc: Option<i64>,
)
    requires
        0 <= hours < 100,
        0 <= minutes < 100,
        shifted@ == local + written_offset(ahead, hours, minutes),
        plain@ == local.push('Z'),
        call_ensures(rfc3339_epoch, (shifted,), moment),
        call_ensures(rfc3339_epoch, (plain,), utc),
    ensures
        utc == match rfc3339_seconds(plain@) {
            Some(seconds) => if seconds <= i64::MAX {
                Some(seconds as i64)
            } else {
                None
            },
            None => None,
        },
        utc is None ==> moment is None,
        hours > 23 || minutes > 59 ==> moment is None,
        hours <= 23 && minutes <= 59 && ahead && utc is Some ==> moment is Some && moment->0
            == utc->0 - (hours * 60 + minutes) * 60,
        hours <= 23 && minutes <= 59 && !ahead && utc is Some ==> (if utc->0 + (hours * 60
            + minutes) * 60 <= i64::MAX {
            moment is Some && moment->0 == utc->0 + (hours * 60 + minutes) * 60
        } else {
            moment is None
        }),
{
    let value = shifted@;
    let start = local.len() as int;
    let offset = written_offset(ahead, hours, minutes);
    reveal_strlit("Z");
    assert(value.take(start) + "Z"@ =~= plain@);
    assert(plain@.last() == 'Z');
    assert(value.len() == start + 6);
    assert(value[start] == offset[0]);
    assert(value[start + 1] == offset[1]);
    assert(value[start + 2] == offset[2]);
    assert(value[start + 3] == offset[3]);
    assert(value[start + 4] == offset[4]);
    assert(value[start + 5] == offset[5]);
    assert(value.last() == offset[5]);
    assert(figure(minutes % 10) != 'Z');
}

/// The age of a moment is how long ago it was; a moment that is not known, lies
/// ahead or further back than can be counted has none.
pub proof fn an_age_runs_from_a_moment_to_now(now: i64, moment: Option<i64>, age: Option<u64>)
    requires
        call_ensures(age_seconds, (now, moment), age),
    ensures
        age is Some <==> moment is Some && moment->0 <= now && now - moment->0 <= i64::MAX,
        age is Some ==> moment->0 + age->0 == now,
{
}

/// Whether a text counts a value in whole units, none of which is left over.
pub open spec fn counts_whole(text: Seq<char>, value: int, unit: nat, word: Seq<char>) -> bool {
    exists|count: nat|
        #![trigger decimal(count)]
        text == decimal(count) + word && count * unit <= value < (count + 1) * unit
}

/// A span is shown in the largest of days, hours, minutes and seconds that it
/// fills, rounded down.
pub proof fn a_span_is_shown_in_its_largest_unit(seconds: u64, text: String)
    requires
        call_ensures(format_duration, (seconds,), text),
    ensures
        seconds < 60 ==> counts_whole(text@, seconds as int, 1, "s"@),
        60 <= seconds < 60 * 60 ==> counts_whole(text@, seconds as int, 60, "m"@),
        60 * 60 <= seconds < 24 * 60 * 60 ==> counts_whole(text@, seconds as int, 60 * 60, "h"@),
        24 * 60 * 60 <= seconds ==> counts_whole(text@, seconds as int, 24 * 60 * 60, "d"@),
{
    let days = (seconds / 86_400) as nat;
    let hours = (seconds / 3_600) as nat;
    let minutes = (seconds / 60) as nat;
    assert(days * 86_400 <= seconds < (days + 1) * 86_400);
    assert(hours * 3_600 <= seconds < (hours + 1) * 3_600);
    assert(minutes * 60 <= seconds < (minutes + 1) * 60);
    assert(decimal(days) == decimal(days));
    assert(decimal(hours) == decimal(hours));
    assert(decimal(minutes) == decimal(minutes));
    assert(decimal(seconds as nat) == decimal(seconds as nat));
}

/// Whether a text counts a value in units and tenths of a unit.
pub open spec fn counts_tenths(text: Seq<char>, value: int, unit: nat, word: Seq<char>) -> bool {
    exists|count: nat, tenths: nat|
        #![trigger decimal(count), decimal(tenths)]
        {
            &&& text == decimal(count) + "."@ + decimal(tenths) + word
            &&& tenths < 10
            &&& (count * 10 + tenths) * unit <= value * 10 < (count * 10 + tenths + 1) * unit
        }
}

proof fn lemma_tenths(bytes: u64, unit: u64)
    requires
        unit > 0,
    ensures
        ({
            let count = (bytes / unit) as nat;
            let tenths = ((bytes % unit) * 10 / unit as int) as nat;
            &&& tenths < 10
            &&& (count * 10 + tenths) * unit <= bytes * 10 < (count * 10 + tenths + 1) * unit
        }),
{
    let size = unit as int;
    let count = bytes as int / size;
    let rest = bytes as int % size;
    let tenths = rest * 10 / size;
    vstd::arithmetic::div_mod::lemma_fundamental_div_mod(bytes as int, size);
    vstd::arithmetic::div_mod::lemma_fundamental_div_mod(rest * 10, size);
    vstd::arithmetic::div_mod::lemma_mod_bound(bytes as int, size);
    vstd::arithmetic::div_mod::lemma_mod_bound(rest * 10, size);
    assert(tenths < 10 && tenths >= 0) by (nonlinear_arith)
        requires
            0 <= rest < size,
            rest * 10 == size * tenths + (rest * 10) % size,
            0 <= (rest * 10) % size < size,
    ;
    assert((count * 10 + tenths) * size <= bytes * 10 < (count * 10 + tenths + 1) * size)
        by (nonlinear_arith)
        requires
            bytes as int == size * count + rest,
            rest * 10 == size * tenths + (rest * 10) % size,
            0 <= (rest * 10) % size < size,
    ;
}

/// A size is shown in the largest binary unit that it fills, in whole and tenths,
/// rounded down; below that in bytes.
pub proof fn a_size_is_shown_in_its_largest_unit(bytes: u64, text: String)
    requires
        call_ensures(format_bytes, (bytes,), text),
    ensures
        bytes < 1024 ==> counts_whole(text@, bytes as int, 1, " B"@),
        1024 <= bytes < 1024 * 1024 ==> counts_tenths(text@, bytes as int, 1024, " KiB"@),
        1024 * 1024 <= bytes < 1024 * 1024 * 1024 ==> counts_tenths(
            text@,
            bytes as int,
            1024 * 1024,
            " MiB"@,
        ),
        1024 * 1024 * 1024 <= bytes < 1024 * 1024 * 1024 * 1024 ==> counts_tenths(
            text@,
            bytes as int,
            1024 * 1024 * 1024,
            " GiB"@,
        ),
        1024 * 1024 * 1024 * 1024 <= bytes ==> counts_tenths(
            text@,
            bytes as int,
            1024 * 1024 * 1024 * 1024,
            " TiB"@,
        ),
{
    if bytes < 1024 {
        assert(decimal(bytes as nat) == decimal(bytes as nat));
    } else {
        let unit: u64 = if bytes < 0x10_0000 {
            0x400
        } else if bytes < 0x4000_0000 {
            0x10_0000
        } else if bytes < 0x100_0000_0000 {
            0x4000_0000
        } else {
            0x100_0000_0000
        };
        lemma_tenths(bytes, unit);
        let count = (bytes / unit) as nat;
        let tenths = ((bytes % unit) * 10 / unit as int) as nat;
        assert(decimal(count) == decimal(count) && decimal(tenths) == decimal(tenths));
    }
}

/// How many bytes a unit of a budget stands for.
pub open spec fn unit_bytes(unit: Seq<char>) -> Option<nat> {
    if unit == "kib"@ {
        Some(1024)
    } else if unit == "mib"@ {
        Some(1024 * 1024)
    } else if unit == "gib"@ {
        Some(1024 * 1024 * 1024)
    } else if unit == "kb"@ {
        Some(1000)
    } else if unit == "mb"@ {
        Some(1000 * 1000)
    } else if unit == "gb"@ {
        Some(1000 * 1000 * 1000)
    } else {
        None
    }
}

/// A budget is its number times its unit, set aside blanks around it, underscores
/// and case; it is refused where the number cannot be read or the bytes cannot be
/// counted.
pub proof fn a_budget_is_its_number_times_its_unit(
    value: &str,
    number: Seq<char>,
    unit: Seq<char>,
    outcome: Result<u64, ConfiguratorError>,
)
    requires
        call_ensures(parse_byte_budget, (value,), outcome),
        compact(value@) == number + unit,
        unit_bytes(unit) is Some,
    ensures
        outcome is Ok <==> number_of(trimmed(number)) is Some && number_of(trimmed(number))->0
            * unit_bytes(unit)->0 <= u64::MAX,
        outcome is Ok ==> outcome->Ok_0 == number_of(trimmed(number))->0 * unit_bytes(unit)->0,
{
    lemma_units(number + unit);
}

proof fn lemma_ends(text: Seq<char>, tail: Seq<char>)
    ensures
        ends_in(text, tail) && tail.len() == 2 ==> text.len() >= 2 && text[text.len() - 2] == tail[0]
            && text[text.len() - 1] == tail[1],
        ends_in(text, tail) && tail.len() == 3 ==> text.len() >= 3 && text[text.len() - 3] == tail[0]
            && text[text.len() - 2] == tail[1] && text[text.len() - 1] == tail[2],
{
    if ends_in(text, tail) {
        let end = text.skip(text.len() - tail.len());
        if tail.len() == 2 {
            assert(end[0] == tail[0] && end[1] == tail[1]);
        }
        if tail.len() == 3 {
            assert(end[0] == tail[0] && end[1] == tail[1] && end[2] == tail[2]);
        }
    }
}

proof fn lemma_units(text: Seq<char>)
    ensures
        text.len() == 0 || text.last() != 'b' ==> budget_parts(text) == (text, 1u64),
        forall|number: Seq<char>, unit: Seq<char>|
            text == #[trigger] (number + unit) && unit_bytes(unit) is Some ==> budget_parts(text)
                == (trimmed(number), unit_bytes(unit)->0 as u64),
{
    reveal_strlit("kib");
    reveal_strlit("mib");
    reveal_strlit("gib");
    reveal_strlit("kb");
    reveal_strlit("mb");
    reveal_strlit("gb");
    lemma_ends(text, "gib"@);
    lemma_ends(text, "mib"@);
    lemma_ends(text, "kib"@);
    lemma_ends(text, "gb"@);
    lemma_ends(text, "mb"@);
    lemma_ends(text, "kb"@);
    assert("gib"@[0] == 'g' && "gib"@[1] == 'i' && "gib"@[2] == 'b');
    assert("mib"@[0] == 'm' && "mib"@[1] == 'i' && "mib"@[2] == 'b');
    assert("kib"@[0] == 'k' && "kib"@[1] == 'i' && "kib"@[2] == 'b');
    assert("gb"@[0] == 'g' && "gb"@[1] == 'b');
    assert("mb"@[0] == 'm' && "mb"@[1] == 'b');
    assert("kb"@[0] == 'k' && "kb"@[1] == 'b');
    assert forall|number: Seq<char>, unit: Seq<char>|
        text == #[trigger] (number + unit) && unit_bytes(unit) is Some implies budget_parts(text)
        == (trimmed(number), unit_bytes(unit)->0 as u64) by {
        let end = text.len() as int;
        assert(text.take(end - unit.len()) =~= number);
        assert(text.skip(end - unit.len()) =~= unit);
        assert(ends_in(text, unit));
        lemma_ends(text, unit);
        if unit == "gib"@ {
            assert(budget_parts(text).1 == 0x4000_0000);
        } else if unit == "mib"@ {
            assert(budget_parts(text).1 == 0x10_0000);
        } else if unit == "kib"@ {
            assert(budget_parts(text).1 == 0x400);
        } else if unit == "gb"@ {
            assert(budget_parts(text).1 == 1_000_000_000);
        } else if unit == "mb"@ {
            assert(budget_parts(text).1 == 1_000_000);
        } else {
            assert(unit == "kb"@);
            assert(budget_parts(text).1 == 1_000);
        }
    }
}

/// A budget that names no unit is a number of bytes.
pub proof fn a_bare_budget_is_in_bytes(value: &str, outcome: Result<u64, ConfiguratorError>)
    requires
        call_ensures(parse_byte_budget, (value,), outcome),
        compact(value@).len() > 0 ==> compact(value@).last() != 'b',
    ensures
        outcome is Ok <==> number_of(compact(value@)) is Some,
        outcome is Ok ==> outcome->Ok_0 == number_of(compact(value@))->0,
{
    let text = compact(value@);
    let number = number_of(text)->0;
    let unit = budget_parts(text).1;
    lemma_units(text);
    assert(number * unit == number) by (nonlinear_arith)
        requires
            unit == 1,
    ;
}

} // verus!
