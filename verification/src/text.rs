//! Text as sequences of characters: views, comparison, trimming, searching,
//! splitting and number formatting.

use vstd::prelude::*;
use vstd::string::*;
use vstd::utf8::*;

verus! {

/// The views of the elements of a sequence.
pub open spec fn views<T: View>(items: Seq<T>) -> Seq<T::V> {
    items.map_values(|item: T| item@)
}

/// The view of the value inside an option.
pub open spec fn opt_view<T: View>(value: Option<T>) -> Option<T::V> {
    match value {
        Some(inner) => Some(inner@),
        None => None,
    }
}

pub broadcast proof fn lemma_views_push<T: View>(items: Seq<T>, item: T)
    ensures
        #[trigger] views(items.push(item)) == views(items).push(item@),
{
    assert(views(items.push(item)) =~= views(items).push(item@));
}

pub broadcast proof fn lemma_views_len<T: View>(items: Seq<T>)
    ensures
        #[trigger] views(items).len() == items.len(),
{
}

pub broadcast proof fn lemma_views_index<T: View>(items: Seq<T>, index: int)
    requires
        0 <= index < items.len(),
    ensures
        #[trigger] views(items)[index] == items[index]@,
{
}

pub broadcast group group_views {
    lemma_views_push,
    lemma_views_len,
    lemma_views_index,
}

/// `String::push` appends one character.
pub assume_specification[ String::push ](text: &mut String, character: char)
    ensures
        final(text)@ == old(text)@.push(character),
;

/// Copies a list of texts.
pub fn clone_texts(items: &Vec<String>) -> (copy: Vec<String>)
    ensures
        copy@ == items@,
{
    let copy = items.clone();
    assert(copy@ =~= items@);
    copy
}

/// Copies an optional text.
pub fn clone_opt_text(value: &Option<String>) -> (copy: Option<String>)
    ensures
        copy == *value,
{
    match value {
        Some(inner) => Some(inner.clone()),
        None => None,
    }
}

/// Whether two texts hold the same characters.
pub fn text_eq(left: &str, right: &str) -> (same: bool)
    ensures
        same == (left@ == right@),
{
    let left_bytes = left.as_bytes();
    let right_bytes = right.as_bytes();
    proof {
        encode_utf8_decode_utf8(left@);
        encode_utf8_decode_utf8(right@);
    }
    if left_bytes.len() != right_bytes.len() {
        return false;
    }
    let mut index: usize = 0;
    while index < left_bytes.len()
        invariant
            index <= left_bytes@.len(),
            left_bytes@.len() == right_bytes@.len(),
            left_bytes@ == left.spec_bytes(),
            right_bytes@ == right.spec_bytes(),
            forall|i: int| 0 <= i < index ==> left_bytes@[i] == right_bytes@[i],
        decreases left_bytes@.len() - index,
    {
        if left_bytes[index] != right_bytes[index] {
            return false;
        }
        index += 1;
    }
    assert(left_bytes@ =~= right_bytes@);
    true
}

/// Whether an optional text holds exactly the given characters.
pub fn opt_text_is(value: &Option<String>, expected: &str) -> (same: bool)
    ensures
        same == (opt_view(*value) == Some(expected@)),
{
    match value {
        Some(inner) => text_eq(inner.as_str(), expected),
        None => false,
    }
}

/// Whether two optional texts are both absent or hold the same characters.
pub fn opt_text_eq(left: &Option<String>, right: &Option<String>) -> (same: bool)
    ensures
        same == (opt_view(*left) == opt_view(*right)),
{
    match (left, right) {
        (Some(a), Some(b)) => text_eq(a.as_str(), b.as_str()),
        (None, None) => true,
        _ => false,
    }
}

/// Whether two lists of texts are equal element by element.
pub fn texts_eq(left: &Vec<String>, right: &Vec<String>) -> (same: bool)
    ensures
        same == (views(left@) == views(right@)),
{
    broadcast use group_views;

    if left.len() != right.len() {
        assert(views(left@).len() != views(right@).len());
        return false;
    }
    let mut index: usize = 0;
    while index < left.len()
        invariant
            index <= left@.len(),
            left@.len() == right@.len(),
            forall|i: int| 0 <= i < index ==> left@[i]@ == right@[i]@,
        decreases left@.len() - index,
    {
        if !text_eq(left[index].as_str(), right[index].as_str()) {
            proof {
                assert(views(left@)[index as int] != views(right@)[index as int]);
            }
            return false;
        }
        index += 1;
    }
    assert(views(left@) =~= views(right@));
    true
}

/// The characters of a text, in order.
pub fn chars_of(text: &str) -> (characters: Vec<char>)
    ensures
        characters@ == text@,
{
    let mut characters: Vec<char> = Vec::new();
    for character in iter: text.chars()
        invariant
            iter.seq() == text@,
            characters@ == text@.take(iter.index() as int),
    {
        characters.push(character);
        assert(text@.take(iter.index() as int).push(character) =~= text@.take(iter.index() as int + 1));
    }
    assert(text@.take(text@.len() as int) =~= text@);
    characters
}

/// The text made of the characters from `start` up to, not including, `end`.
pub fn text_of(characters: &Vec<char>, start: usize, end: usize) -> (text: String)
    requires
        start <= end <= characters@.len(),
    ensures
        text@ == characters@.subrange(start as int, end as int),
{
    let mut text = String::new();
    let mut index: usize = start;
    assert(text@ =~= characters@.subrange(start as int, start as int));
    while index < end
        invariant
            start <= index <= end <= characters@.len(),
            text@ == characters@.subrange(start as int, index as int),
        decreases end - index,
    {
        text.push(characters[index]);
        index += 1;
        assert(text@ =~= characters@.subrange(start as int, index as int));
    }
    text
}

/// The number of characters in a text.
pub fn char_count(text: &str) -> (count: usize)
    ensures
        count == text@.len(),
{
    chars_of(text).len()
}

/// Whether a text holds no character.
pub fn is_empty_text(text: &str) -> (empty: bool)
    ensures
        empty == (text@.len() == 0),
{
    text.is_empty()
}

/// Characters with the Unicode `White_Space` property.
pub open spec fn is_space(character: char) -> bool {
    let code = character as u32;
    ||| 0x9 <= code <= 0xd
    ||| code == 0x20
    ||| code == 0x85
    ||| code == 0xa0
    ||| code == 0x1680
    ||| 0x2000 <= code <= 0x200a
    ||| code == 0x2028
    ||| code == 0x2029
    ||| code == 0x202f
    ||| code == 0x205f
    ||| code == 0x3000
}

/// Whether a character is white space.
pub fn space(character: char) -> (found: bool)
    ensures
        found == is_space(character),
{
    let code: u32 = character as u32;
    (0x9 <= code && code <= 0xd) || code == 0x20 || code == 0x85 || code == 0xa0 || code == 0x1680
        || (0x2000 <= code && code <= 0x200a) || code == 0x2028 || code == 0x2029 || code == 0x202f
        || code == 0x205f || code == 0x3000
}

/// Whether a text holds nothing but white space.
pub open spec fn is_blank(text: Seq<char>) -> bool {
    forall|i: int| 0 <= i < text.len() ==> is_space(#[trigger] text[i])
}

/// A text without its leading white space.
pub open spec fn trimmed_start(text: Seq<char>) -> Seq<char>
    decreases text.len(),
{
    if text.len() > 0 && is_space(text[0]) {
        trimmed_start(text.drop_first())
    } else {
        text
    }
}

/// A text without its trailing white space.
pub open spec fn trimmed_end(text: Seq<char>) -> Seq<char>
    decreases text.len(),
{
    if text.len() > 0 && is_space(text.last()) {
        trimmed_end(text.drop_last())
    } else {
        text
    }
}

/// A text without leading and trailing white space.
pub open spec fn trimmed(text: Seq<char>) -> Seq<char> {
    trimmed_end(trimmed_start(text))
}

/// Trimming leaves nothing exactly when the text is blank.
pub proof fn lemma_trimmed_blank(text: Seq<char>)
    ensures
        (trimmed(text).len() == 0) == is_blank(text),
{
    lemma_trimmed_start_blank(text);
    lemma_trimmed_end_blank(trimmed_start(text));
}

proof fn lemma_trimmed_start_blank(text: Seq<char>)
    ensures
        is_blank(trimmed_start(text)) == is_blank(text),
        (trimmed_start(text).len() == 0) == is_blank(text),
    decreases text.len(),
{
    if text.len() > 0 && is_space(text[0]) {
        lemma_trimmed_start_blank(text.drop_first());
        let rest = text.drop_first();
        if is_blank(rest) {
            assert forall|i: int| 0 <= i < text.len() implies is_space(#[trigger] text[i]) by {
                if i > 0 {
                    assert(rest[i - 1] == text[i]);
                }
            }
        } else {
            let i = choose|i: int| 0 <= i < rest.len() && !is_space(#[trigger] rest[i]);
            assert(!is_space(text[i + 1]));
        }
    }
}

proof fn lemma_trimmed_end_blank(text: Seq<char>)
    ensures
        (trimmed_end(text).len() == 0) == is_blank(text),
    decreases text.len(),
{
    if text.len() > 0 && is_space(text.last()) {
        lemma_trimmed_end_blank(text.drop_last());
        let rest = text.drop_last();
        if is_blank(rest) {
            assert forall|i: int| 0 <= i < text.len() implies is_space(#[trigger] text[i]) by {
                if i < text.len() - 1 {
                    assert(rest[i] == text[i]);
                }
            }
        } else {
            let i = choose|i: int| 0 <= i < rest.len() && !is_space(#[trigger] rest[i]);
            assert(!is_space(text[i]));
        }
    }
}

/// Removes leading and trailing white space.
pub fn trim(text: &str) -> (inner: String)
    ensures
        inner@ == trimmed(text@),
{
    let characters = chars_of(text);
    let mut start: usize = 0;
    assert(text@.skip(0) =~= text@);
    while start < characters.len() && space(characters[start])
        invariant
            start <= characters@.len(),
            characters@ == text@,
            trimmed_start(text@) == trimmed_start(text@.skip(start as int)),
        decreases characters@.len() - start,
    {
        assert(text@.skip(start as int).drop_first() =~= text@.skip(start as int + 1));
        start += 1;
    }
    assert(trimmed_start(text@) == text@.skip(start as int));
    let mut end: usize = characters.len();
    assert(text@.subrange(start as int, end as int) =~= text@.skip(start as int));
    while start < end && space(characters[end - 1])
        invariant
            start <= end <= characters@.len(),
            characters@ == text@,
            trimmed(text@) == trimmed_end(text@.subrange(start as int, end as int)),
        decreases end - start,
    {
        assert(text@.subrange(start as int, end as int).drop_last() =~= text@.subrange(
            start as int,
            end as int - 1,
        ));
        end -= 1;
    }
    text_of(&characters, start, end)
}

/// Whether a text holds nothing but white space.
pub fn blank(text: &str) -> (found: bool)
    ensures
        found == is_blank(text@),
{
    let characters = chars_of(text);
    let mut index: usize = 0;
    while index < characters.len()
        invariant
            index <= characters@.len(),
            characters@ == text@,
            forall|i: int| 0 <= i < index ==> is_space(#[trigger] text@[i]),
        decreases characters@.len() - index,
    {
        if !space(characters[index]) {
            assert(!is_space(text@[index as int]));
            return false;
        }
        index += 1;
    }
    true
}

/// Whether a list of texts holds a blank one.
pub open spec fn has_blank(items: Seq<Seq<char>>) -> bool {
    exists|i: int| 0 <= i < items.len() && is_blank(#[trigger] items[i])
}

/// Whether a list of texts holds a blank one.
pub fn any_blank(items: &Vec<String>) -> (found: bool)
    ensures
        found == has_blank(views(items@)),
{
    broadcast use group_views;

    let mut index: usize = 0;
    while index < items.len()
        invariant
            index <= items@.len(),
            forall|i: int| 0 <= i < index ==> !is_blank(#[trigger] views(items@)[i]),
        decreases items@.len() - index,
    {
        if blank(items[index].as_str()) {
            assert(is_blank(views(items@)[index as int]));
            return true;
        }
        index += 1;
    }
    false
}

/// Whether `part` stands in `characters` from `start` on.
pub open spec fn stands_at(characters: Seq<char>, part: Seq<char>, start: int) -> bool {
    &&& 0 <= start
    &&& start + part.len() <= characters.len()
    &&& characters.subrange(start, start + part.len()) == part
}

/// Whether `part` occurs in `text`.
pub open spec fn occurs_in(text: Seq<char>, part: Seq<char>) -> bool {
    exists|start: int| #[trigger] stands_at(text, part, start)
}

/// Whether `part` stands in `characters` from `start` on.
pub fn stands(characters: &Vec<char>, part: &Vec<char>, start: usize) -> (found: bool)
    ensures
        found == stands_at(characters@, part@, start as int),
{
    if start > characters.len() || part.len() > characters.len() - start {
        return false;
    }
    let total: usize = characters.len();
    let mut index: usize = 0;
    while index < part.len()
        invariant
            index <= part@.len(),
            total == characters@.len(),
            start + part@.len() <= characters@.len(),
            forall|i: int| 0 <= i < index ==> characters@[start + i] == part@[i],
        decreases part@.len() - index,
    {
        if characters[start + index] != part[index] {
            proof {
                let window = characters@.subrange(start as int, start + part@.len());
                assert(window[index as int] == characters@[start + index]);
            }
            return false;
        }
        index += 1;
    }
    assert(characters@.subrange(start as int, start + part@.len()) =~= part@);
    true
}

/// Whether `part` occurs in `text`.
pub fn contains_text(text: &str, part: &str) -> (found: bool)
    ensures
        found == occurs_in(text@, part@),
{
    let characters = chars_of(text);
    let wanted = chars_of(part);
    let mut start: usize = 0;
    while start < characters.len()
        invariant
            start <= characters@.len(),
            characters@ == text@,
            wanted@ == part@,
            forall|s: int| 0 <= s < start ==> !(#[trigger] stands_at(text@, part@, s)),
        decreases characters@.len() - start,
    {
        if stands(&characters, &wanted, start) {
            return true;
        }
        start += 1;
    }
    stands(&characters, &wanted, start)
}

/// Whether `text` begins with `prefix`.
pub fn starts_with(text: &str, prefix: &str) -> (found: bool)
    ensures
        found == prefix@.is_prefix_of(text@),
{
    let characters = chars_of(text);
    let wanted = chars_of(prefix);
    stands(&characters, &wanted, 0)
}

/// The part of `text` behind `prefix`, where `text` begins with it.
pub open spec fn without_prefix(text: Seq<char>, prefix: Seq<char>) -> Option<Seq<char>> {
    if prefix.is_prefix_of(text) {
        Some(text.skip(prefix.len() as int))
    } else {
        None
    }
}

/// The part of `text` behind `prefix`, where `text` begins with it.
pub fn strip_prefix(text: &str, prefix: &str) -> (rest: Option<String>)
    ensures
        opt_view(rest) == without_prefix(text@, prefix@),
{
    let characters = chars_of(text);
    let wanted = chars_of(prefix);
    if stands(&characters, &wanted, 0) {
        let rest = text_of(&characters, wanted.len(), characters.len());
        assert(rest@ =~= text@.skip(prefix@.len() as int));
        Some(rest)
    } else {
        None
    }
}

/// Whether some element of a list equals `wanted`.
pub fn contains_item(items: &Vec<String>, wanted: &str) -> (found: bool)
    ensures
        found == views(items@).contains(wanted@),
{
    broadcast use group_views;

    let mut index: usize = 0;
    while index < items.len()
        invariant
            index <= items@.len(),
            forall|i: int| 0 <= i < index ==> #[trigger] views(items@)[i] != wanted@,
        decreases items@.len() - index,
    {
        if text_eq(items[index].as_str(), wanted) {
            assert(views(items@)[index as int] == wanted@);
            return true;
        }
        index += 1;
    }
    false
}

/// The pieces of `text` between occurrences of `separator`: one more than
/// there are separators.
pub open spec fn pieces(text: Seq<char>, separator: char) -> Seq<Seq<char>>
    decreases text.len(),
{
    if text.len() == 0 {
        seq![Seq::empty()]
    } else {
        let before = pieces(text.drop_last(), separator);
        if text.last() == separator {
            before.push(Seq::empty())
        } else {
            before.update(before.len() - 1, before.last().push(text.last()))
        }
    }
}

pub proof fn lemma_pieces_nonempty(text: Seq<char>, separator: char)
    ensures
        pieces(text, separator).len() >= 1,
    decreases text.len(),
{
    if text.len() > 0 {
        lemma_pieces_nonempty(text.drop_last(), separator);
    }
}

/// Splits a text at every `separator`.
pub fn split(text: &str, separator: char) -> (parts: Vec<String>)
    ensures
        views(parts@) == pieces(text@, separator),
{
    broadcast use group_views;

    let characters = chars_of(text);
    let mut parts: Vec<String> = Vec::new();
    let mut current = String::new();
    let mut index: usize = 0;
    assert(views(parts@).push(current@) =~= pieces(text@.take(0), separator));
    while index < characters.len()
        invariant
            index <= characters@.len(),
            characters@ == text@,
            views(parts@).push(current@) == pieces(text@.take(index as int), separator),
        decreases characters@.len() - index,
    {
        let character = characters[index];
        let ghost before = views(parts@);
        let ghost part = current@;
        proof {
            assert(text@.take(index as int + 1).drop_last() =~= text@.take(index as int));
            assert(before.push(part).last() == part);
            assert(before.push(part).update(before.len() as int, part.push(character))
                =~= before.push(part.push(character)));
        }
        if character == separator {
            parts.push(current);
            current = String::new();
        } else {
            current.push(character);
        }
        index += 1;
    }
    assert(text@.take(index as int) =~= text@);
    parts.push(current);
    parts
}

/// The texts written one after the other with `separator` between them.
pub open spec fn joined(items: Seq<Seq<char>>, separator: Seq<char>) -> Seq<char>
    decreases items.len(),
{
    if items.len() == 0 {
        Seq::empty()
    } else if items.len() == 1 {
        items[0]
    } else {
        joined(items.drop_last(), separator) + separator + items.last()
    }
}

/// Joins texts with a separator between them.
pub fn join(items: &Vec<String>, separator: &str) -> (text: String)
    ensures
        text@ == joined(views(items@), separator@),
{
    broadcast use group_views;

    let mut text = String::new();
    let mut index: usize = 0;
    let ghost all = views(items@);
    assert(all.take(0).len() == 0);
    while index < items.len()
        invariant
            index <= items@.len(),
            all == views(items@),
            text@ == joined(all.take(index as int), separator@),
        decreases items@.len() - index,
    {
        assert(all.take(index as int + 1).drop_last() =~= all.take(index as int));
        assert(all.take(index as int + 1).last() == items@[index as int]@);
        if index > 0 {
            text.append(separator);
            text.append(items[index].as_str());
        } else {
            text = items[index].clone();
        }
        index += 1;
    }
    assert(all.take(index as int) =~= all);
    text
}

/// The character of a decimal digit.
pub open spec fn digit(value: nat) -> char {
    if value == 0 {
        '0'
    } else if value == 1 {
        '1'
    } else if value == 2 {
        '2'
    } else if value == 3 {
        '3'
    } else if value == 4 {
        '4'
    } else if value == 5 {
        '5'
    } else if value == 6 {
        '6'
    } else if value == 7 {
        '7'
    } else if value == 8 {
        '8'
    } else {
        '9'
    }
}

/// A number in decimal, without leading zeros.
pub open spec fn decimal(value: nat) -> Seq<char>
    decreases value,
{
    if value < 10 {
        seq![digit(value)]
    } else {
        decimal(value / 10).push(digit(value % 10))
    }
}

/// A signed number in decimal.
pub open spec fn signed_decimal(value: int) -> Seq<char> {
    if value < 0 {
        seq!['-'] + decimal((-value) as nat)
    } else {
        decimal(value as nat)
    }
}

fn digit_char(value: u64) -> (character: char)
    requires
        value < 10,
    ensures
        character == digit(value as nat),
{
    if value == 0 {
        '0'
    } else if value == 1 {
        '1'
    } else if value == 2 {
        '2'
    } else if value == 3 {
        '3'
    } else if value == 4 {
        '4'
    } else if value == 5 {
        '5'
    } else if value == 6 {
        '6'
    } else if value == 7 {
        '7'
    } else if value == 8 {
        '8'
    } else {
        '9'
    }
}

/// Appends a number in decimal.
pub fn push_decimal(text: &mut String, value: u64)
    ensures
        final(text)@ == old(text)@ + decimal(value as nat),
    decreases value,
{
    if value >= 10 {
        push_decimal(text, value / 10);
        text.push(digit_char(value % 10));
        assert(text@ =~= old(text)@ + decimal(value as nat));
    } else {
        text.push(digit_char(value));
        assert(text@ =~= old(text)@ + decimal(value as nat));
    }
}

/// A number in decimal.
pub fn decimal_text(value: u64) -> (text: String)
    ensures
        text@ == decimal(value as nat),
{
    let mut text = String::new();
    push_decimal(&mut text, value);
    assert(text@ =~= decimal(value as nat));
    text
}

/// A count in decimal.
pub fn count_text(value: usize) -> (text: String)
    ensures
        text@ == decimal(value as nat),
{
    decimal_text(value as u64)
}

/// A signed number in decimal.
pub fn signed_text(value: i64) -> (text: String)
    ensures
        text@ == signed_decimal(value as int),
{
    if value >= 0 {
        decimal_text(value as u64)
    } else {
        let mut text = String::new();
        text.push('-');
        let magnitude: u64 = (-(value as i128)) as u64;
        push_decimal(&mut text, magnitude);
        assert(text@ =~= seq!['-'] + decimal((-value) as nat));
        text
    }
}

/// `count` spaces.
pub open spec fn spaces(count: nat) -> Seq<char> {
    Seq::new(count, |i: int| ' ')
}

/// Appends `count` spaces.
pub fn push_spaces(text: &mut String, count: usize)
    ensures
        final(text)@ == old(text)@ + spaces(count as nat),
{
    let mut done: usize = 0;
    assert(text@ =~= old(text)@ + spaces(0));
    while done < count
        invariant
            done <= count,
            text@ == old(text)@ + spaces(done as nat),
        decreases count - done,
    {
        text.push(' ');
        done += 1;
        assert(text@ =~= old(text)@ + spaces(done as nat));
    }
}

/// The text of an option, or a stand-in where there is none.
pub open spec fn or_text(value: Option<Seq<char>>, absent: Seq<char>) -> Seq<char> {
    match value {
        Some(inner) => inner,
        None => absent,
    }
}

/// The text of an option, or a stand-in where there is none.
pub fn text_or(value: &Option<String>, absent: &str) -> (text: String)
    ensures
        text@ == or_text(opt_view(*value), absent@),
{
    match value {
        Some(inner) => inner.clone(),
        None => absent.to_owned(),
    }
}

/// Joins two texts.
pub fn concat2(a: &str, b: &str) -> (text: String)
    ensures
        text@ == a@ + b@,
{
    let mut text = a.to_owned();
    text.append(b);
    text
}

/// Joins three texts.
pub fn concat3(a: &str, b: &str, c: &str) -> (text: String)
    ensures
        text@ == a@ + b@ + c@,
{
    let mut text = a.to_owned();
    text.append(b);
    text.append(c);
    text
}

/// Joins four texts.
pub fn concat4(a: &str, b: &str, c: &str, d: &str) -> (text: String)
    ensures
        text@ == a@ + b@ + c@ + d@,
{
    let mut text = a.to_owned();
    text.append(b);
    text.append(c);
    text.append(d);
    text
}

/// Joins five texts.
pub fn concat5(a: &str, b: &str, c: &str, d: &str, e: &str) -> (text: String)
    ensures
        text@ == a@ + b@ + c@ + d@ + e@,
{
    let mut text = a.to_owned();
    text.append(b);
    text.append(c);
    text.append(d);
    text.append(e);
    text
}

/// The pieces of a text between white space, the empty ones with them.
pub open spec fn space_pieces(text: Seq<char>) -> Seq<Seq<char>>
    decreases text.len(),
{
    if text.len() == 0 {
        seq![Seq::empty()]
    } else {
        let before = space_pieces(text.drop_last());
        if is_space(text.last()) {
            before.push(Seq::empty())
        } else {
            before.update(before.len() - 1, before.last().push(text.last()))
        }
    }
}

/// The texts of a list that are not empty.
pub open spec fn nonempty(items: Seq<Seq<char>>) -> Seq<Seq<char>>
    decreases items.len(),
{
    if items.len() == 0 {
        items
    } else {
        let before = nonempty(items.drop_last());
        if items.last().len() > 0 {
            before.push(items.last())
        } else {
            before
        }
    }
}

/// The words of a text.
pub open spec fn words(text: Seq<char>) -> Seq<Seq<char>> {
    nonempty(space_pieces(text))
}

proof fn lemma_nonempty_push(items: Seq<Seq<char>>, item: Seq<char>)
    ensures
        nonempty(items.push(item)) == if item.len() > 0 {
            nonempty(items).push(item)
        } else {
            nonempty(items)
        },
{
    assert(items.push(item).drop_last() =~= items);
}

/// Splits a text into its words.
pub fn split_words(text: &str) -> (parts: Vec<String>)
    ensures
        views(parts@) == words(text@),
{
    broadcast use group_views;

    let characters = chars_of(text);
    let mut parts: Vec<String> = Vec::new();
    let mut current = String::new();
    let mut filled = false;
    let mut index: usize = 0;
    let ghost mut closed: Seq<Seq<char>> = Seq::empty();
    assert(closed.push(current@) =~= space_pieces(text@.take(0)));
    assert(views(parts@) =~= nonempty(closed));
    while index < characters.len()
        invariant
            index <= characters@.len(),
            characters@ == text@,
            filled == (current@.len() > 0),
            closed.push(current@) == space_pieces(text@.take(index as int)),
            views(parts@) == nonempty(closed),
        decreases characters@.len() - index,
    {
        let character = characters[index];
        let ghost part = current@;
        proof {
            assert(text@.take(index as int + 1).drop_last() =~= text@.take(index as int));
            assert(closed.push(part).last() == part);
            assert(closed.push(part).update(closed.len() as int, part.push(character))
                =~= closed.push(part.push(character)));
        }
        if space(character) {
            proof {
                lemma_nonempty_push(closed, part);
                closed = closed.push(part);
            }
            if filled {
                parts.push(current);
            }
            current = String::new();
            filled = false;
        } else {
            current.push(character);
            filled = true;
        }
        index += 1;
    }
    assert(text@.take(index as int) =~= text@);
    proof {
        lemma_nonempty_push(closed, current@);
    }
    if filled {
        parts.push(current);
    }
    parts
}

/// Characters without white space lengthen the last piece.
proof fn lemma_space_pieces_grow(text: Seq<char>, tail: Seq<char>)
    requires
        forall|i: int| 0 <= i < tail.len() ==> !is_space(#[trigger] tail[i]),
    ensures
        space_pieces(text).len() >= 1,
        space_pieces(text + tail) == space_pieces(text).update(
            space_pieces(text).len() - 1,
            space_pieces(text).last() + tail,
        ),
    decreases text.len() + tail.len(),
{
    if tail.len() == 0 {
        assert(text + tail =~= text);
        if text.len() > 0 {
            assert(text.drop_last() + tail =~= text.drop_last());
            lemma_space_pieces_grow(text.drop_last(), tail);
        }
        assert(space_pieces(text).last() + tail =~= space_pieces(text).last());
        assert(space_pieces(text) =~= space_pieces(text).update(
            space_pieces(text).len() - 1,
            space_pieces(text).last() + tail,
        ));
    } else {
        let whole = text + tail;
        assert(whole.drop_last() =~= text + tail.drop_last());
        lemma_space_pieces_grow(text, tail.drop_last());
        let before = space_pieces(text);
        assert((before.last() + tail.drop_last()).push(tail.last()) =~= before.last() + tail);
        assert(space_pieces(whole) =~= before.update(before.len() - 1, before.last() + tail));
    }
}

proof fn lemma_space_pieces_of_joined(items: Seq<Seq<char>>)
    requires
        items.len() >= 1,
        forall|i: int, j: int|
            0 <= i < items.len() && 0 <= j < items[i].len() ==> !is_space(#[trigger] items[i][j]),
    ensures
        space_pieces(joined(items, " "@)) == items,
    decreases items.len(),
{
    reveal_strlit(" ");
    let last = items.last();
    assert forall|j: int| 0 <= j < last.len() implies !is_space(#[trigger] last[j]) by {
        assert(items[items.len() - 1][j] == last[j]);
    }
    if items.len() == 1 {
        let none = Seq::<char>::empty();
        lemma_space_pieces_grow(none, last);
        assert(none + last =~= last);
        assert(space_pieces(none) =~= seq![none]);
        assert(space_pieces(last) =~= items);
    } else {
        let rest = items.drop_last();
        assert forall|i: int, j: int| 0 <= i < rest.len() && 0 <= j < rest[i].len() implies !is_space(
            #[trigger] rest[i][j],
        ) by {
            assert(rest[i][j] == items[i][j]);
        }
        lemma_space_pieces_of_joined(rest);
        let front = joined(rest, " "@) + " "@;
        assert(front.drop_last() =~= joined(rest, " "@));
        assert(is_space(' '));
        assert(space_pieces(front) =~= rest.push(Seq::empty()));
        lemma_space_pieces_grow(front, last);
        assert(Seq::<char>::empty() + last =~= last);
        assert(space_pieces(front + last) =~= items);
    }
}

proof fn lemma_nonempty_keeps(items: Seq<Seq<char>>)
    requires
        forall|i: int| 0 <= i < items.len() ==> (#[trigger] items[i]).len() > 0,
    ensures
        nonempty(items) == items,
    decreases items.len(),
{
    if items.len() > 0 {
        let rest = items.drop_last();
        assert forall|i: int| 0 <= i < rest.len() implies (#[trigger] rest[i]).len() > 0 by {
            assert(rest[i] == items[i]);
        }
        lemma_nonempty_keeps(rest);
        assert(items.last() == items[items.len() - 1]);
        assert(rest.push(items.last()) =~= items);
    }
}

/// Words that are joined by single spaces come back when the text is split.
pub proof fn lemma_words_of_joined(items: Seq<Seq<char>>)
    requires
        forall|i: int| 0 <= i < items.len() ==> (#[trigger] items[i]).len() > 0,
        forall|i: int, j: int|
            0 <= i < items.len() && 0 <= j < items[i].len() ==> !is_space(#[trigger] items[i][j]),
    ensures
        words(joined(items, " "@)) == items,
{
    if items.len() == 0 {
        let none = Seq::<char>::empty();
        assert(space_pieces(none) =~= seq![none]);
        lemma_nonempty_push(items, none);
        assert(items.push(none) =~= seq![none]);
    } else {
        lemma_space_pieces_of_joined(items);
        lemma_nonempty_keeps(items);
    }
}

/// Removes trailing white space.
pub fn trim_end(text: &str) -> (inner: String)
    ensures
        inner@ == trimmed_end(text@),
{
    let characters = chars_of(text);
    let mut end: usize = characters.len();
    assert(text@.take(end as int) =~= text@);
    while end > 0 && space(characters[end - 1])
        invariant
            end <= characters@.len(),
            characters@ == text@,
            trimmed_end(text@) == trimmed_end(text@.take(end as int)),
        decreases end,
    {
        assert(text@.take(end as int).drop_last() =~= text@.take(end as int - 1));
        end -= 1;
    }
    assert(text@.subrange(0, end as int) =~= text@.take(end as int));
    text_of(&characters, 0, end)
}

/// Whether the first occurrence of `part` in `text` starts at `start`.
pub open spec fn starts_first(text: Seq<char>, part: Seq<char>, start: int) -> bool {
    &&& stands_at(text, part, start)
    &&& forall|s: int| 0 <= s < start ==> !(#[trigger] stands_at(text, part, s))
}

/// Where `part` first occurs in `text`.
pub open spec fn first_at(text: Seq<char>, part: Seq<char>) -> Option<int> {
    if occurs_in(text, part) {
        Some(choose|start: int| starts_first(text, part, start))
    } else {
        None
    }
}

pub proof fn lemma_first_at(text: Seq<char>, part: Seq<char>, start: int)
    requires
        starts_first(text, part, start),
    ensures
        first_at(text, part) == Some(start),
{
    assert(occurs_in(text, part));
    let other = choose|other: int| starts_first(text, part, other);
    assert(starts_first(text, part, other));
    if other < start {
        assert(!stands_at(text, part, other));
    } else if start < other {
        assert(!stands_at(text, part, start));
    }
}

/// Finds the first occurrence of `part` in `text`.
pub fn find_text(text: &str, part: &str) -> (start: Option<usize>)
    ensures
        match start {
            Some(at) => first_at(text@, part@) == Some(at as int) && stands_at(
                text@,
                part@,
                at as int,
            ),
            None => first_at(text@, part@) is None,
        },
{
    let characters = chars_of(text);
    let wanted = chars_of(part);
    let mut at: usize = 0;
    while at < characters.len()
        invariant
            at <= characters@.len(),
            characters@ == text@,
            wanted@ == part@,
            forall|s: int| 0 <= s < at ==> !(#[trigger] stands_at(text@, part@, s)),
        decreases characters@.len() - at,
    {
        if stands(&characters, &wanted, at) {
            proof {
                lemma_first_at(text@, part@, at as int);
            }
            return Some(at);
        }
        at += 1;
    }
    if stands(&characters, &wanted, at) {
        proof {
            lemma_first_at(text@, part@, at as int);
        }
        Some(at)
    } else {
        None
    }
}

/// What is left of a text when its end is trimmed does not end in white
/// space, and white space behind it changes nothing.
pub proof fn lemma_trimmed_end_tail(text: Seq<char>, tail: Seq<char>)
    requires
        is_blank(tail),
    ensures
        trimmed_end(text + tail) == trimmed_end(text),
    decreases tail.len(),
{
    if tail.len() == 0 {
        assert(text + tail =~= text);
    } else {
        let rest = tail.drop_last();
        assert(is_blank(rest)) by {
            assert forall|i: int| 0 <= i < rest.len() implies is_space(#[trigger] rest[i]) by {
                assert(rest[i] == tail[i]);
            }
        }
        lemma_trimmed_end_tail(text, rest);
        assert((text + tail).last() == tail[tail.len() - 1]);
        assert((text + tail).drop_last() =~= text + rest);
    }
}

/// Trimming the end twice does no more than trimming it once.
pub proof fn lemma_trimmed_end_once(text: Seq<char>)
    ensures
        trimmed_end(trimmed_end(text)) == trimmed_end(text),
    decreases text.len(),
{
    if text.len() > 0 && is_space(text.last()) {
        lemma_trimmed_end_once(text.drop_last());
    }
}

/// A text without its trailing white space is a beginning of it.
pub proof fn lemma_trimmed_end_piece(text: Seq<char>)
    ensures
        trimmed_end(text).len() <= text.len(),
        trimmed_end(text) == text.take(trimmed_end(text).len() as int),
    decreases text.len(),
{
    if text.len() > 0 && is_space(text.last()) {
        lemma_trimmed_end_piece(text.drop_last());
    }
    assert(trimmed_end(text) =~= text.take(trimmed_end(text).len() as int));
}

proof fn lemma_trimmed_start_piece(text: Seq<char>)
    ensures
        trimmed_start(text).len() <= text.len(),
        trimmed_start(text) == text.skip(text.len() - trimmed_start(text).len()),
    decreases text.len(),
{
    if text.len() > 0 && is_space(text[0]) {
        lemma_trimmed_start_piece(text.drop_first());
    }
    assert(trimmed_start(text) =~= text.skip(text.len() - trimmed_start(text).len()));
}

/// A trimmed text stands in the text as it was.
pub proof fn lemma_trimmed_piece(text: Seq<char>) -> (from: int)
    ensures
        0 <= from,
        from + trimmed(text).len() <= text.len(),
        trimmed(text) == text.subrange(from, from + trimmed(text).len()),
{
    let start = trimmed_start(text);
    let from = text.len() - start.len();
    lemma_trimmed_start_piece(text);
    lemma_trimmed_end_piece(start);
    assert(trimmed(text) =~= text.subrange(from, from + trimmed(text).len()));
    from
}

/// Removes leading white space.
pub fn trim_start(text: &str) -> (rest: String)
    ensures
        rest@ == trimmed_start(text@),
{
    let characters = chars_of(text);
    let mut start: usize = 0;
    assert(text@.skip(0) =~= text@);
    while start < characters.len() && space(characters[start])
        invariant
            start <= characters@.len(),
            characters@ == text@,
            trimmed_start(text@) == trimmed_start(text@.skip(start as int)),
        decreases characters@.len() - start,
    {
        assert(text@.skip(start as int).drop_first() =~= text@.skip(start as int + 1));
        start += 1;
    }
    assert(text@.subrange(start as int, text@.len() as int) =~= text@.skip(start as int));
    text_of(&characters, start, characters.len())
}

} // verus!
