//! Names and sizes that the configurator derives: slugs, short hashes, glob
//! escapes and byte totals.

use crate::journal::{stable_config_hash, text_hash};
use crate::text::{chars_of, text_of};
use vstd::prelude::*;
use vstd::string::*;

verus! {

/// Whether a character is an ASCII letter or digit.
pub open spec fn alphanumeric(character: char) -> bool {
    let code = character as u32;
    ||| 0x30 <= code <= 0x39
    ||| 0x41 <= code <= 0x5a
    ||| 0x61 <= code <= 0x7a
}

fn is_alphanumeric(character: char) -> (found: bool)
    ensures
        found == alphanumeric(character),
{
    let code: u32 = character as u32;
    (0x30 <= code && code <= 0x39) || (0x41 <= code && code <= 0x5a) || (0x61 <= code && code
        <= 0x7a)
}

/// The small letters in their order.
pub open spec fn small_letters() -> Seq<char> {
    seq![
        'a', 'b', 'c', 'd', 'e', 'f', 'g', 'h', 'i', 'j', 'k', 'l', 'm', 'n', 'o', 'p', 'q', 'r',
        's', 't', 'u', 'v', 'w', 'x', 'y', 'z',
    ]
}

/// An ASCII capital as its small letter, any other character as it is.
pub open spec fn small(character: char) -> char {
    let code = character as u32;
    if 0x41 <= code <= 0x5a {
        small_letters()[code - 0x41]
    } else {
        character
    }
}

pub fn to_small(character: char) -> (letter: char)
    ensures
        letter == small(character),
{
    let code: u32 = character as u32;
    if 0x41 <= code && code <= 0x5a {
        let letters = [
            'a', 'b', 'c', 'd', 'e', 'f', 'g', 'h', 'i', 'j', 'k', 'l', 'm', 'n', 'o', 'p', 'q',
            'r', 's', 't', 'u', 'v', 'w', 'x', 'y', 'z',
        ];
        assert(letters@ =~= small_letters());
        letters[(code - 0x41) as usize]
    } else {
        character
    }
}

/// The letters and digits of a text, small, with one dash wherever other
/// characters stand between two of them.
pub open spec fn dashed(text: Seq<char>) -> Seq<char>
    decreases text.len(),
{
    if text.len() == 0 {
        text
    } else {
        let before = dashed(text.drop_last());
        if !alphanumeric(text.last()) {
            before
        } else if before.len() > 0 && !alphanumeric(text[text.len() - 2]) {
            before.push('-').push(small(text.last()))
        } else {
            before.push(small(text.last()))
        }
    }
}

/// The longest slug.
pub const SLUG_LENGTH: usize = 40;

/// At most the first `count` characters of a text.
pub open spec fn first_chars(text: Seq<char>, count: nat) -> Seq<char> {
    if text.len() <= count {
        text
    } else {
        text.take(count as int)
    }
}

/// At most the first `count` characters of a text.
pub fn take_chars(text: &str, count: usize) -> (head: String)
    ensures
        head@ == first_chars(text@, count as nat),
{
    let characters = chars_of(text);
    if characters.len() <= count {
        text.to_owned()
    } else {
        assert(text@.subrange(0, count as int) =~= text@.take(count as int));
        text_of(&characters, 0, count)
    }
}

/// A text made fit for an identifier.
pub open spec fn slug_of(text: Seq<char>) -> Seq<char> {
    if dashed(text).len() == 0 {
        "candidate"@
    } else {
        first_chars(dashed(text), SLUG_LENGTH as nat)
    }
}

/// Makes a text fit for an identifier.
pub fn slug(text: &str) -> (name: String)
    ensures
        name@ == slug_of(text@),
{
    let characters = chars_of(text);
    let mut name = String::new();
    let mut filled = false;
    let mut index: usize = 0;
    assert(text@.take(0) =~= Seq::<char>::empty());
    while index < characters.len()
        invariant
            index <= characters@.len(),
            characters@ == text@,
            name@ == dashed(text@.take(index as int)),
            filled == (name@.len() > 0),
        decreases characters@.len() - index,
    {
        let character = characters[index];
        let ghost part = text@.take(index as int + 1);
        proof {
            assert(part.drop_last() =~= text@.take(index as int));
            assert(part.last() == character);
            if index > 0 {
                assert(part[part.len() - 2] == text@[index - 1]);
            }
        }
        if is_alphanumeric(character) {
            if filled {
                proof {
                    if index == 0 {
                        assert(text@.take(0).len() == 0);
                        assert(dashed(text@.take(0)).len() == 0);
                    }
                }
                if !is_alphanumeric(characters[index - 1]) {
                    name.push('-');
                }
            }
            name.push(to_small(character));
            filled = true;
        }
        index += 1;
    }
    assert(text@.take(index as int) =~= text@);
    if filled {
        take_chars(name.as_str(), SLUG_LENGTH)
    } else {
        "candidate".to_owned()
    }
}

/// The first eight digits of a text's hash.
pub open spec fn short_hash_of(text: Seq<char>) -> Seq<char> {
    first_chars(text_hash(text), 8)
}

/// A short mark by which a text is told apart.
pub fn short_hash(text: &str) -> (hash: String)
    ensures
        hash@ == short_hash_of(text@),
{
    let full = stable_config_hash(text);
    take_chars(full.as_str(), 8)
}

/// Whether a character has a meaning of its own in a glob.
pub open spec fn glob_meta(character: char) -> bool {
    ||| character == '*'
    ||| character == '?'
    ||| character == '['
    ||| character == ']'
    ||| character == '{'
    ||| character == '}'
    ||| character == '\\'
}

/// A text with a backslash before every character that a glob would read.
pub open spec fn glob_escaped(text: Seq<char>) -> Seq<char>
    decreases text.len(),
{
    if text.len() == 0 {
        text
    } else if glob_meta(text.last()) {
        glob_escaped(text.drop_last()).push('\\').push(text.last())
    } else {
        glob_escaped(text.drop_last()).push(text.last())
    }
}

/// Puts a backslash before every character that a glob would read.
pub fn escape_glob(text: &str) -> (escaped: String)
    ensures
        escaped@ == glob_escaped(text@),
{
    let characters = chars_of(text);
    let mut escaped = String::new();
    let mut index: usize = 0;
    assert(text@.take(0) =~= Seq::<char>::empty());
    while index < characters.len()
        invariant
            index <= characters@.len(),
            characters@ == text@,
            escaped@ == glob_escaped(text@.take(index as int)),
        decreases characters@.len() - index,
    {
        let character = characters[index];
        assert(text@.take(index as int + 1).drop_last() =~= text@.take(index as int));
        assert(text@.take(index as int + 1).last() == character);
        if character == '*' || character == '?' || character == '[' || character == ']' || character
            == '{' || character == '}' || character == '\\' {
            escaped.push('\\');
        }
        escaped.push(character);
        index += 1;
    }
    assert(text@.take(index as int) =~= text@);
    escaped
}

/// The sum of the known sizes.
pub open spec fn size_sum(sizes: Seq<Option<u64>>) -> nat
    decreases sizes.len(),
{
    if sizes.len() == 0 {
        0
    } else {
        size_sum(sizes.drop_last()) + match sizes.last() {
            Some(size) => size as nat,
            None => 0,
        }
    }
}

/// The sum of the known sizes, as far as it can be counted.
pub open spec fn known_bytes(sizes: Seq<Option<u64>>) -> u64 {
    if size_sum(sizes) <= u64::MAX {
        size_sum(sizes) as u64
    } else {
        u64::MAX
    }
}

/// One more size on top of a total.
pub(crate) fn add_size(total: u64, size: Option<u64>, Ghost(sizes): Ghost<Seq<Option<u64>>>) -> (next: u64)
    requires
        total == known_bytes(sizes),
    ensures
        next == known_bytes(sizes.push(size)),
{
    assert(sizes.push(size).drop_last() =~= sizes);
    match size {
        Some(bytes) => total.saturating_add(bytes),
        None => total,
    }
}

} // verus!
