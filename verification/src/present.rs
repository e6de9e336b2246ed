//! How the dashboard writes values for a person to read.

use crate::candidate::ConfiguratorError;
use crate::duration::{format_duration, short_duration};
use crate::labels::{compose_entry, compose_project_key, is_known};
use crate::naming::{first_chars, small, take_chars, to_small};
use crate::outside::{
    format_rfc3339, lowercase, lowered, number_fault, number_of, parse_number, quote, quoted,
    rfc3339_text, TIMESTAMP_END,
};
use crate::plan::Disposition;
use crate::resource::{InventoryItem, ResourceKind};
use crate::state::ProtectionKind;
use crate::survey::agent_label;
use crate::text::{
    blank, char_count, chars_of, concat2, concat3, concat4, decimal, decimal_text, group_views,
    is_blank, is_empty_text, nonempty, pieces, split, text_eq, text_of, trim, trimmed, views,
};
use crate::text_map::value_of;
use vstd::prelude::*;
use vstd::string::*;

verus! {

/// What a disposition is called on screen.
pub open spec fn disposition_words(disposition: Disposition) -> Seq<char> {
    match disposition {
        Disposition::Protected => "you protected this"@,
        Disposition::Owned => "a rule covers this"@,
        Disposition::AuthorizedUnscoped => "you authorized this without a rule"@,
        Disposition::Unowned => "no rule covers this"@,
    }
}

/// What a disposition is called on screen.
pub fn plain_disposition(disposition: Disposition) -> (words: &'static str)
    ensures
        words@ == disposition_words(disposition),
{
    match disposition {
        Disposition::Protected => "you protected this",
        Disposition::Owned => "a rule covers this",
        Disposition::AuthorizedUnscoped => "you authorized this without a rule",
        Disposition::Unowned => "no rule covers this",
    }
}

/// A flag as a person reads it.
pub open spec fn flag_words(value: bool) -> Seq<char> {
    if value {
        "yes"@
    } else {
        "no"@
    }
}

/// A flag as a person reads it.
pub fn yes_no(value: bool) -> (word: &'static str)
    ensures
        word@ == flag_words(value),
{
    if value {
        "yes"
    } else {
        "no"
    }
}

/// A text in lower case.
pub open spec fn lowered_text(text: Seq<char>) -> Seq<char>
    decreases text.len(),
{
    if text.len() == 0 {
        text
    } else {
        lowered_text(text.drop_last()) + lowered(text.last())
    }
}

/// Whether the characters of one text can be found in another from left to
/// right, others between them.
pub open spec fn found_in_turn(needle: Seq<char>, haystack: Seq<char>) -> bool
    decreases haystack.len(),
{
    if needle.len() == 0 {
        true
    } else if haystack.len() == 0 {
        false
    } else if needle[0] == haystack[0] {
        found_in_turn(needle.drop_first(), haystack.drop_first())
    } else {
        found_in_turn(needle, haystack.drop_first())
    }
}

/// Whether a text matches what was typed, as far as case is set aside.
pub open spec fn fuzzy(haystack: Seq<char>, needle: Seq<char>) -> bool {
    found_in_turn(lowered_text(needle), lowered_text(haystack))
}

/// Whether places ascend and hold the characters of a needle.
pub open spec fn holds_at(haystack: Seq<char>, needle: Seq<char>, places: Seq<int>) -> bool {
    &&& places.len() == needle.len()
    &&& forall|i: int|
        0 <= i < places.len() ==> 0 <= #[trigger] places[i] < haystack.len() && haystack[places[i]]
            == needle[i]
    &&& forall|i: int, j: int| 0 <= i < j < places.len() ==> places[i] < places[j]
}

proof fn lemma_found_has_places(needle: Seq<char>, haystack: Seq<char>) -> (places: Seq<int>)
    requires
        found_in_turn(needle, haystack),
    ensures
        holds_at(haystack, needle, places),
    decreases haystack.len(),
{
    if needle.len() == 0 {
        Seq::empty()
    } else if needle[0] == haystack[0] {
        let rest = lemma_found_has_places(needle.drop_first(), haystack.drop_first());
        let places = Seq::new(
            needle.len(),
            |i: int|
                if i == 0 {
                    0int
                } else {
                    rest[i - 1] + 1
                },
        );
        assert forall|i: int| 0 <= i < places.len() implies 0 <= #[trigger] places[i]
            < haystack.len() && haystack[places[i]] == needle[i] by {
            if i > 0 {
                assert(haystack.drop_first()[rest[i - 1]] == needle.drop_first()[i - 1]);
            }
        }
        assert forall|i: int, j: int| 0 <= i < j < places.len() implies places[i] < places[j] by {
            if i > 0 {
                assert(rest[i - 1] < rest[j - 1]);
            } else {
                assert(0 <= rest[j - 1]);
            }
        }
        places
    } else {
        let rest = lemma_found_has_places(needle, haystack.drop_first());
        let places = Seq::new(needle.len(), |i: int| rest[i] + 1);
        assert forall|i: int| 0 <= i < places.len() implies 0 <= #[trigger] places[i]
            < haystack.len() && haystack[places[i]] == needle[i] by {
            assert(haystack.drop_first()[rest[i]] == needle[i]);
        }
        assert forall|i: int, j: int| 0 <= i < j < places.len() implies places[i] < places[j] by {
            assert(rest[i] < rest[j]);
        }
        places
    }
}

proof fn lemma_places_are_found(needle: Seq<char>, haystack: Seq<char>, places: Seq<int>)
    requires
        holds_at(haystack, needle, places),
    ensures
        found_in_turn(needle, haystack),
    decreases haystack.len(),
{
    if needle.len() == 0 {
    } else {
        assert(0 <= places[0] < haystack.len());
        let tail = haystack.drop_first();
        if needle[0] == haystack[0] {
            let rest = Seq::new((needle.len() - 1) as nat, |i: int| places[i + 1] - 1);
            assert forall|i: int| 0 <= i < rest.len() implies 0 <= #[trigger] rest[i] < tail.len()
                && tail[rest[i]] == needle.drop_first()[i] by {
                assert(places[0] < places[i + 1]);
                assert(haystack[places[i + 1]] == needle[i + 1]);
            }
            assert forall|i: int, j: int| 0 <= i < j < rest.len() implies rest[i] < rest[j] by {
                assert(places[i + 1] < places[j + 1]);
            }
            lemma_places_are_found(needle.drop_first(), tail, rest);
        } else {
            let rest = Seq::new(needle.len(), |i: int| places[i] - 1);
            assert forall|i: int| 0 <= i < rest.len() implies 0 <= #[trigger] rest[i] < tail.len()
                && tail[rest[i]] == needle[i] by {
                if i > 0 {
                    assert(places[0] < places[i]);
                }
                assert(haystack[places[i]] == needle[i]);
            }
            assert forall|i: int, j: int| 0 <= i < j < rest.len() implies rest[i] < rest[j] by {
                assert(places[i] < places[j]);
            }
            lemma_places_are_found(needle, tail, rest);
        }
    }
}

/// A text matches what was typed exactly where the typed characters, in lower
/// case, stand in it in their order.
pub proof fn a_match_is_a_subsequence(haystack: Seq<char>, needle: Seq<char>)
    ensures
        fuzzy(haystack, needle) == exists|places: Seq<int>|
            holds_at(lowered_text(haystack), lowered_text(needle), places),
{
    let wanted = lowered_text(needle);
    let given = lowered_text(haystack);
    if fuzzy(haystack, needle) {
        let places = lemma_found_has_places(wanted, given);
        assert(holds_at(given, wanted, places));
    }
    if exists|places: Seq<int>| holds_at(given, wanted, places) {
        let places = choose|places: Seq<int>| holds_at(given, wanted, places);
        lemma_places_are_found(wanted, given, places);
    }
}

fn lower_letters(text: &str) -> (letters: Vec<char>)
    ensures
        letters@ == lowered_text(text@),
{
    let characters = chars_of(text);
    let mut letters: Vec<char> = Vec::new();
    let mut index: usize = 0;
    assert(text@.take(0) =~= Seq::empty());
    while index < characters.len()
        invariant
            index <= characters@.len(),
            characters@ == text@,
            letters@ == lowered_text(text@.take(index as int)),
        decreases characters@.len() - index,
    {
        assert(text@.take(index as int + 1).drop_last() =~= text@.take(index as int));
        assert(text@.take(index as int + 1).last() == text@[index as int]);
        let mut mapped = lowercase(characters[index]);
        letters.append(&mut mapped);
        index += 1;
    }
    assert(text@.take(index as int) =~= text@);
    letters
}

/// Whether a text matches what was typed.
pub fn fuzzy_match(haystack: &str, needle: &str) -> (found: bool)
    ensures
        found == fuzzy(haystack@, needle@),
{
    let wanted = lower_letters(needle);
    let given = lower_letters(haystack);
    let mut matched: usize = 0;
    let mut index: usize = 0;
    assert(wanted@.skip(0) =~= wanted@);
    assert(given@.skip(0) =~= given@);
    while index < given.len()
        invariant
            matched <= wanted@.len(),
            index <= given@.len(),
            wanted@ == lowered_text(needle@),
            given@ == lowered_text(haystack@),
            found_in_turn(wanted@, given@) == found_in_turn(
                wanted@.skip(matched as int),
                given@.skip(index as int),
            ),
        decreases given@.len() - index,
    {
        if matched == wanted.len() {
            return true;
        }
        assert(given@.skip(index as int).drop_first() =~= given@.skip(index as int + 1));
        assert(wanted@.skip(matched as int).drop_first() =~= wanted@.skip(matched as int + 1));
        if wanted[matched] == given[index] {
            matched += 1;
        }
        index += 1;
    }
    matched == wanted.len()
}

/// Texts without the white space around them.
pub open spec fn all_trimmed(items: Seq<Seq<char>>) -> Seq<Seq<char>> {
    items.map_values(|item: Seq<char>| trimmed(item))
}

/// The clauses of a reason, which the planner parts by semicolons.
pub open spec fn clauses_of(reason: Seq<char>) -> Seq<Seq<char>> {
    let clauses = nonempty(all_trimmed(pieces(reason, ';')));
    if clauses.len() == 0 {
        seq![reason]
    } else {
        clauses
    }
}

/// Splits a reason into its clauses.
pub fn reason_clauses(reason: &str) -> (clauses: Vec<String>)
    ensures
        views(clauses@) == clauses_of(reason@),
{
    broadcast use group_views;

    let parts = split(reason, ';');
    let ghost all = all_trimmed(views(parts@));
    let mut clauses: Vec<String> = Vec::new();
    let mut index: usize = 0;
    assert(views(clauses@) =~= nonempty(all.take(0)));
    while index < parts.len()
        invariant
            index <= parts@.len(),
            all == all_trimmed(views(parts@)),
            views(clauses@) == nonempty(all.take(index as int)),
        decreases parts@.len() - index,
    {
        let clause = trim(parts[index].as_str());
        assert(all.take(index as int + 1).drop_last() =~= all.take(index as int));
        assert(all.take(index as int + 1).last() == clause@);
        if !is_empty_text(clause.as_str()) {
            clauses.push(clause);
        }
        index += 1;
    }
    assert(all.take(index as int) =~= all);
    if clauses.len() == 0 {
        clauses.push(reason.to_owned());
        assert(views(clauses@) =~= seq![reason@]);
    }
    clauses
}

/// A text cut to a number of characters, the last one an ellipsis where any
/// were cut.
pub open spec fn cut(text: Seq<char>, limit: nat) -> Seq<char> {
    if text.len() <= limit {
        text
    } else {
        first_chars(
            text,
            if limit == 0 {
                0
            } else {
                (limit - 1) as nat
            },
        ) + "\u{2026}"@
    }
}

/// Cuts a text to a number of characters.
pub fn truncate(value: &str, max_chars: usize) -> (text: String)
    ensures
        text@ == cut(value@, max_chars as nat),
{
    if char_count(value) <= max_chars {
        return value.to_owned();
    }
    let keep: usize = if max_chars == 0 {
        0
    } else {
        max_chars - 1
    };
    concat2(take_chars(value, keep).as_str(), "\u{2026}")
}

/// The end of a text that is typed, behind an ellipsis where the rest does not
/// fit.
pub open spec fn visible_tail(text: Seq<char>, limit: nat) -> Seq<char> {
    if text.len() <= limit {
        text
    } else if limit == 0 {
        "\u{2026}"@
    } else {
        "\u{2026}"@ + text.skip(text.len() - (limit - 1))
    }
}

/// Shows the end of a text that is typed.
pub fn visible_input_tail(value: &str, max_chars: usize) -> (text: String)
    ensures
        text@ == visible_tail(value@, max_chars as nat),
{
    let characters = chars_of(value);
    let count: usize = characters.len();
    if count <= max_chars {
        return value.to_owned();
    }
    let keep: usize = if max_chars == 0 {
        0
    } else {
        max_chars - 1
    };
    let tail = text_of(&characters, count - keep, count);
    let text = concat2("\u{2026}", tail.as_str());
    assert(max_chars != 0 ==> tail@ =~= value@.skip(count - keep));
    assert(max_chars == 0 ==> tail@ =~= Seq::empty());
    assert(max_chars == 0 ==> text@ =~= "\u{2026}"@);
    text
}

/// A shortened text fits where it is shown.
pub proof fn shortened_text_fits(text: Seq<char>, limit: nat)
    requires
        limit >= 1,
    ensures
        cut(text, limit).len() <= limit,
        visible_tail(text, limit).len() <= limit,
{
    reveal_strlit("\u{2026}");
}

/// An age as a person reads it.
pub open spec fn age_text(seconds: Option<u64>) -> Seq<char> {
    match seconds {
        Some(value) => short_duration(value),
        None => "unknown"@,
    }
}

/// Shows an age: days, hours, minutes or seconds.
pub fn format_age(seconds: Option<u64>) -> (text: String)
    ensures
        text@ == age_text(seconds),
{
    match seconds {
        Some(value) => format_duration(value),
        None => "unknown".to_owned(),
    }
}

/// A number of bytes in whole and tenths of a unit.
pub open spec fn tenths_text(bytes: u64, size: u64, unit: Seq<char>) -> Seq<char> {
    decimal((bytes / size) as nat) + "."@ + decimal(((bytes % size) * 10 / size as int) as nat)
        + unit
}

/// A number of bytes in the largest binary unit that it fills, up to
/// tebibytes.
pub open spec fn bytes_text(bytes: u64) -> Seq<char> {
    if bytes < 0x400 {
        decimal(bytes as nat) + " B"@
    } else if bytes < 0x10_0000 {
        tenths_text(bytes, 0x400, " KiB"@)
    } else if bytes < 0x4000_0000 {
        tenths_text(bytes, 0x10_0000, " MiB"@)
    } else if bytes < 0x100_0000_0000 {
        tenths_text(bytes, 0x4000_0000, " GiB"@)
    } else {
        tenths_text(bytes, 0x100_0000_0000, " TiB"@)
    }
}

fn format_tenths(bytes: u64, size: u64, unit: &str) -> (text: String)
    requires
        0 < size <= 0x100_0000_0000,
    ensures
        text@ == tenths_text(bytes, size, unit@),
{
    let rest: u64 = bytes % size;
    let whole = decimal_text(bytes / size);
    let tenth = decimal_text(rest * 10 / size);
    concat4(whole.as_str(), ".", tenth.as_str(), unit)
}

/// Shows a number of bytes.
pub fn format_bytes(bytes: u64) -> (text: String)
    ensures
        text@ == bytes_text(bytes),
{
    if bytes < 0x400 {
        concat2(decimal_text(bytes).as_str(), " B")
    } else if bytes < 0x10_0000 {
        format_tenths(bytes, 0x400, " KiB")
    } else if bytes < 0x4000_0000 {
        format_tenths(bytes, 0x10_0000, " MiB")
    } else if bytes < 0x100_0000_0000 {
        format_tenths(bytes, 0x4000_0000, " GiB")
    } else {
        format_tenths(bytes, 0x100_0000_0000, " TiB")
    }
}

/// A size as a person reads it, or a stand-in where it is not known.
pub open spec fn size_words(size: Option<u64>, unknown: Seq<char>) -> Seq<char> {
    match size {
        Some(bytes) => bytes_text(bytes),
        None => unknown,
    }
}

/// Shows a size, or a stand-in where it is not known.
pub fn format_size(size: Option<u64>, unknown: &str) -> (text: String)
    ensures
        text@ == size_words(size, unknown@),
{
    match size {
        Some(bytes) => format_bytes(bytes),
        None => unknown.to_owned(),
    }
}

/// A moment as a person reads it.
pub open spec fn timestamp_text(epoch_seconds: i64) -> Seq<char> {
    if epoch_seconds < 0 {
        "unknown time"@
    } else {
        rfc3339_text(epoch_seconds as u64)
    }
}

/// Shows a moment as a timestamp, which has no form beyond the year 9999.
pub fn format_timestamp(epoch_seconds: i64) -> (text: String)
    requires
        epoch_seconds < TIMESTAMP_END,
    ensures
        text@ == timestamp_text(epoch_seconds),
{
    if epoch_seconds < 0 {
        "unknown time".to_owned()
    } else {
        format_rfc3339(epoch_seconds as u64)
    }
}

/// A scroll position moved by a step, held between its ends.
pub open spec fn scrolled(current: u16, delta: int) -> u16 {
    let next = current + delta;
    if next < 0 {
        0
    } else if next > u16::MAX {
        u16::MAX
    } else {
        next as u16
    }
}

/// Moves a scroll position.
pub fn move_scroll(current: u16, delta: isize) -> (next: u16)
    ensures
        next == scrolled(current, delta as int),
{
    if delta < 0 {
        let reach: i64 = current as i64 + delta.max(-0x10000) as i64;
        if reach < 0 {
            0
        } else {
            reach as u16
        }
    } else {
        let reach: i64 = current as i64 + delta.min(0x10000) as i64;
        if reach > 0xffff {
            0xffff
        } else {
            reach as u16
        }
    }
}

/// A rectangle of terminal cells.
#[derive(Debug, Clone, Copy, PartialEq, Eq, Structural)]
pub struct Area {
    pub x: u16,
    pub y: u16,
    pub width: u16,
    pub height: u16,
}

/// Whether one rectangle lies inside another.
pub open spec fn inside(inner: Area, outer: Area) -> bool {
    &&& outer.x <= inner.x
    &&& outer.y <= inner.y
    &&& inner.x + inner.width <= outer.x + outer.width
    &&& inner.y + inner.height <= outer.y + outer.height
}

/// Where a side that is inset on both ends begins, and how long it is.
pub open spec fn inset(start: u16, length: u16, margin: u16) -> (u16, u16) {
    let held = if margin <= length / 2 {
        margin as int
    } else {
        length as int / 2
    };
    let first = start + held;
    let rest = length - 2 * held;
    (
        if first > u16::MAX {
            u16::MAX
        } else {
            first as u16
        },
        if rest < 1 {
            1
        } else {
            rest as u16
        },
    )
}

fn inset_side(start: u16, length: u16, margin: u16) -> (side: (u16, u16))
    ensures
        side == inset(start, length, margin),
{
    let half: u16 = length / 2;
    let held: u16 = if margin <= half {
        margin
    } else {
        half
    };
    let first: u32 = start as u32 + held as u32;
    let rest: u16 = length - 2 * held;
    let at: u16 = if first > 0xffff {
        0xffff
    } else {
        first as u16
    };
    let long: u16 = if rest < 1 {
        1
    } else {
        rest
    };
    (at, long)
}

/// The rectangle of an overlay: the body less a number of cells on each side,
/// one cell at least.
pub fn overlay_area(body: Area, margin_x: u16, margin_y: u16) -> (area: Area)
    ensures
        (area.x, area.width) == inset(body.x, body.width, margin_x),
        (area.y, area.height) == inset(body.y, body.height, margin_y),
        body.width >= 1 && body.height >= 1 && body.x + body.width <= u16::MAX && body.y
            + body.height <= u16::MAX ==> inside(area, body),
{
    let across = inset_side(body.x, body.width, margin_x);
    let down = inset_side(body.y, body.height, margin_y);
    Area { x: across.0, y: down.0, width: across.1, height: down.1 }
}

/// A text without one character.
pub open spec fn without_char(text: Seq<char>, dropped: char) -> Seq<char>
    decreases text.len(),
{
    if text.len() == 0 {
        text
    } else if text.last() == dropped {
        without_char(text.drop_last(), dropped)
    } else {
        without_char(text.drop_last(), dropped).push(text.last())
    }
}

/// A budget as it is read: trimmed, without underscores, in small letters.
pub open spec fn compact(value: Seq<char>) -> Seq<char> {
    without_char(trimmed(value), '_').map_values(|character: char| small(character))
}

/// Whether a text ends with another.
pub open spec fn ends_in(text: Seq<char>, tail: Seq<char>) -> bool {
    tail.len() <= text.len() && text.skip(text.len() - tail.len()) == tail
}

/// The number before a suffix.
pub open spec fn before_suffix(text: Seq<char>, suffix: Seq<char>) -> Seq<char> {
    trimmed(text.take(text.len() - suffix.len()))
}

/// The number and the unit of a budget.
pub open spec fn budget_parts(text: Seq<char>) -> (Seq<char>, u64) {
    if ends_in(text, "gib"@) {
        (before_suffix(text, "gib"@), 0x4000_0000)
    } else if ends_in(text, "mib"@) {
        (before_suffix(text, "mib"@), 0x10_0000)
    } else if ends_in(text, "kib"@) {
        (before_suffix(text, "kib"@), 0x400)
    } else if ends_in(text, "gb"@) {
        (before_suffix(text, "gb"@), 1_000_000_000)
    } else if ends_in(text, "mb"@) {
        (before_suffix(text, "mb"@), 1_000_000)
    } else if ends_in(text, "kb"@) {
        (before_suffix(text, "kb"@), 1_000)
    } else {
        (text, 1)
    }
}

/// What a budget of bytes amounts to, or why it cannot be read.
pub open spec fn budget_of(value: Seq<char>) -> Result<u64, Seq<char>> {
    let parts = budget_parts(compact(value));
    match number_of(parts.0) {
        None => Err(
            "byte budget "@ + quoted(value)
                + " is invalid; use bytes or a suffix such as 10GiB: "@ + number_fault(parts.0),
        ),
        Some(number) => if number * parts.1 > u64::MAX {
            Err("byte budget "@ + quoted(value) + " is too large"@)
        } else {
            Ok((number * parts.1) as u64)
        },
    }
}

fn compact_text(value: &str) -> (text: String)
    ensures
        text@ == compact(value@),
{
    let inner = trim(value);
    let characters = chars_of(inner.as_str());
    let mut text = String::new();
    let mut index: usize = 0;
    assert(inner@.take(0) =~= Seq::empty());
    assert(text@ =~= without_char(inner@.take(0), '_').map_values(|character: char| small(character)));
    while index < characters.len()
        invariant
            index <= characters@.len(),
            characters@ == inner@,
            text@ == without_char(inner@.take(index as int), '_').map_values(
                |character: char| small(character),
            ),
        decreases characters@.len() - index,
    {
        let character = characters[index];
        let ghost before = without_char(inner@.take(index as int), '_');
        assert(inner@.take(index as int + 1).drop_last() =~= inner@.take(index as int));
        assert(inner@.take(index as int + 1).last() == character);
        if character != '_' {
            text.push(to_small(character));
            assert(text@ =~= before.push(character).map_values(|letter: char| small(letter)));
        }
        index += 1;
    }
    assert(inner@.take(index as int) =~= inner@);
    text
}

fn strip_suffix(text: &str, suffix: &str) -> (rest: Option<String>)
    ensures
        rest is Some <==> ends_in(text@, suffix@),
        rest matches Some(inner) ==> inner@ == before_suffix(text@, suffix@),
{
    let characters = chars_of(text);
    let count: usize = characters.len();
    let length: usize = char_count(suffix);
    if length > count {
        return None;
    }
    let tail = text_of(&characters, count - length, count);
    assert(tail@ =~= text@.skip(count - length));
    if text_eq(tail.as_str(), suffix) {
        let head = text_of(&characters, 0, count - length);
        assert(head@ =~= text@.take(count - length));
        Some(trim(head.as_str()))
    } else {
        None
    }
}

fn split_budget(text: &str) -> (parts: (String, u64))
    ensures
        (parts.0@, parts.1) == budget_parts(text@),
{
    if let Some(number) = strip_suffix(text, "gib") {
        return (number, 0x4000_0000);
    }
    if let Some(number) = strip_suffix(text, "mib") {
        return (number, 0x10_0000);
    }
    if let Some(number) = strip_suffix(text, "kib") {
        return (number, 0x400);
    }
    if let Some(number) = strip_suffix(text, "gb") {
        return (number, 1_000_000_000);
    }
    if let Some(number) = strip_suffix(text, "mb") {
        return (number, 1_000_000);
    }
    if let Some(number) = strip_suffix(text, "kb") {
        return (number, 1_000);
    }
    (text.to_owned(), 1)
}

/// Reads a budget of bytes: a number, with a binary or decimal suffix or none.
pub fn parse_byte_budget(value: &str) -> (outcome: Result<u64, ConfiguratorError>)
    ensures
        match outcome {
            Ok(bytes) => budget_of(value@) == Ok::<u64, Seq<char>>(bytes),
            Err(error) => error matches ConfiguratorError::Invalid(message) && budget_of(value@)
                == Err::<u64, Seq<char>>(message@),
        },
{
    let text = compact_text(value);
    let parts = split_budget(text.as_str());
    match parse_number(parts.0.as_str()) {
        Err(message) => Err(
            ConfiguratorError::Invalid(
                concat4(
                    "byte budget ",
                    quote(value).as_str(),
                    " is invalid; use bytes or a suffix such as 10GiB: ",
                    message.as_str(),
                ),
            ),
        ),
        Ok(number) => match number.checked_mul(parts.1) {
            Some(bytes) => Ok(bytes),
            None => Err(
                ConfiguratorError::Invalid(
                    concat3("byte budget ", quote(value).as_str(), " is too large"),
                ),
            ),
        },
    }
}

/// The first label that an agent or this tool left, in the order of the keys.
pub open spec fn first_agent_label(labels: Seq<(Seq<char>, Seq<char>)>) -> Option<
    (Seq<char>, Seq<char>),
>
    decreases labels.len(),
{
    if labels.len() == 0 {
        None
    } else if agent_label(labels[0].0) {
        Some(labels[0])
    } else {
        first_agent_label(labels.drop_first())
    }
}

/// The label that tells which family an item belongs to: its Compose project
/// where it names one, else the first agent label.
pub open spec fn family_pair(labels: Seq<(Seq<char>, Seq<char>)>) -> Option<(Seq<char>, Seq<char>)> {
    match value_of(labels, compose_entry().key) {
        Some(project) => if is_blank(project) {
            first_agent_label(labels)
        } else {
            Some((compose_entry().key, project))
        },
        None => first_agent_label(labels),
    }
}

/// The label that tells which family an item belongs to.
pub fn family_label(item: &InventoryItem) -> (label: Option<(&str, &str)>)
    ensures
        match label {
            Some((key, value)) => family_pair(item@.labels) == Some((key@, value@)),
            None => family_pair(item@.labels) is None,
        },
{
    let compose = compose_project_key();
    if let Some(project) = item.labels.get(compose) {
        if !blank(project.as_str()) {
            return Some((compose, project.as_str()));
        }
    }
    let ghost labels = item@.labels;
    let count: usize = item.labels.len();
    let mut index: usize = 0;
    assert(labels.skip(0) =~= labels);
    while index < count
        invariant
            index <= count,
            count == labels.len(),
            labels == item@.labels,
            labels == item.labels@,
            compose@ == compose_entry().key,
            first_agent_label(labels) == first_agent_label(labels.skip(index as int)),
            family_pair(labels) == first_agent_label(labels),
        decreases count - index,
    {
        let key = item.labels.key_at(index);
        assert(labels.skip(index as int).drop_first() =~= labels.skip(index as int + 1));
        if is_known(key.as_str()) && !text_eq(key.as_str(), compose) {
            assert(labels[index as int] == (key@, item.labels@[index as int].1));
            return Some((key.as_str(), item.labels.value_at(index).as_str()));
        }
        index += 1;
    }
    None
}

/// The kind of protection that one resource takes. Build cache takes none.
pub open spec fn protection_for(kind: ResourceKind) -> Option<ProtectionKind> {
    match kind {
        ResourceKind::Container => Some(ProtectionKind::Container),
        ResourceKind::Image => Some(ProtectionKind::Image),
        ResourceKind::Volume => Some(ProtectionKind::Volume),
        ResourceKind::Network => Some(ProtectionKind::Network),
        ResourceKind::BuildCache => None,
    }
}

/// The kind of protection that one resource takes.
pub fn protection_kind(kind: ResourceKind) -> (protection: Option<ProtectionKind>)
    ensures
        protection == protection_for(kind),
{
    match kind {
        ResourceKind::Container => Some(ProtectionKind::Container),
        ResourceKind::Image => Some(ProtectionKind::Image),
        ResourceKind::Volume => Some(ProtectionKind::Volume),
        ResourceKind::Network => Some(ProtectionKind::Network),
        ResourceKind::BuildCache => None,
    }
}

} // verus!
