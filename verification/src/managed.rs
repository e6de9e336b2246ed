//! The region of a configuration source that holds the generated rules.
//!
//! What stands outside the region was written by hand and is kept.

use crate::outside::{document_error, document_fault};
use crate::text::{
    chars_of, find_text, first_at, is_blank, is_empty_text, is_space, lemma_first_at,
    lemma_trimmed_blank, lemma_trimmed_end_once, lemma_trimmed_end_piece, lemma_trimmed_end_tail,
    lemma_trimmed_piece, occurs_in, stands_at, starts_first, text_of, trim, trim_end, trimmed,
    trimmed_end,
};
use vstd::prelude::*;
use vstd::string::*;

verus! {

/// The line that opens the region.
pub const MANAGED_START: &'static str =
    "# >>> docker_maid managed rules; edit with `docker_maid tui` >>>";

/// The line that closes the region.
pub const MANAGED_END: &'static str = "# <<< docker_maid managed rules <<<";

/// The line below the opening one.
pub const MANAGED_NOTE: &'static str =
    "# Stable IDs below are owned by the configurator. Manual rules above are untouched.";

/// A source with the region taken out; none where the region is incomplete.
pub open spec fn without_region(source: Seq<char>) -> Option<Seq<char>> {
    match (first_at(source, MANAGED_START@), first_at(source, MANAGED_END@)) {
        (None, None) => Some(source),
        (Some(start), Some(end)) => if start < end {
            let head = trimmed_end(source.take(start));
            let rest = trimmed(source.skip(end + MANAGED_END@.len()));
            let body = if rest.len() > 0 {
                head + "\n\n"@ + rest
            } else {
                head
            };
            Some(
                if body.len() > 0 {
                    body + "\n"@
                } else {
                    body
                },
            )
        } else {
            None
        },
        _ => None,
    }
}

/// Takes the region out of a source.
pub fn strip_managed_region(source: &str) -> (manual: Option<String>)
    ensures
        match manual {
            Some(text) => without_region(source@) == Some(text@),
            None => without_region(source@) is None,
        },
{
    let start = find_text(source, MANAGED_START);
    let end = find_text(source, MANAGED_END);
    match (start, end) {
        (None, None) => Some(source.to_owned()),
        (Some(start), Some(end)) => {
            if start >= end {
                return None;
            }
            let characters = chars_of(source);
            let marker = chars_of(MANAGED_END);
            let suffix: usize = end + marker.len();
            let before = text_of(&characters, 0, start);
            let behind = text_of(&characters, suffix, characters.len());
            assert(before@ =~= source@.take(start as int));
            assert(behind@ =~= source@.skip(end + MANAGED_END@.len()));
            let mut body = trim_end(before.as_str());
            let rest = trim(behind.as_str());
            if !is_empty_text(rest.as_str()) {
                body.append("\n\n");
                body.append(rest.as_str());
            }
            if !is_empty_text(body.as_str()) {
                body.append("\n");
            }
            Some(body)
        },
        _ => None,
    }
}

/// What stands before the region.
pub open spec fn region_head(manual: Seq<char>) -> Seq<char> {
    let head = trimmed_end(manual);
    if head.len() > 0 {
        head + "\n\n"@
    } else {
        head
    }
}

/// A manual source with the generated rules in the region behind it.
pub open spec fn with_region(manual: Seq<char>, generated: Seq<char>) -> Seq<char> {
    region_head(manual) + MANAGED_START@ + "\n"@ + MANAGED_NOTE@ + "\n"@ + trimmed(generated)
        + "\n"@ + MANAGED_END@ + "\n"@
}

/// Writes the generated rules, rendered as TOML, behind the manual source; an
/// error where the whole is no TOML document.
pub fn render_managed_source(manual: &str, generated: &str) -> (outcome: Result<String, String>)
    ensures
        match outcome {
            Ok(source) => source@ == with_region(manual@, generated@) && document_fault(source@)
                is None,
            Err(message) => document_fault(with_region(manual@, generated@)) is Some && message@
                == "generated TOML cannot be edited safely: "@ + document_fault(
                with_region(manual@, generated@),
            )->0,
        },
{
    let mut source = trim_end(manual);
    if !is_empty_text(source.as_str()) {
        source.append("\n\n");
    }
    source.append(MANAGED_START);
    source.append("\n");
    source.append(MANAGED_NOTE);
    source.append("\n");
    source.append(trim(generated).as_str());
    source.append("\n");
    source.append(MANAGED_END);
    source.append("\n");
    match document_error(source.as_str()) {
        Some(fault) => {
            let mut message = "generated TOML cannot be edited safely: ".to_owned();
            message.append(fault.as_str());
            Err(message)
        },
        None => Ok(source),
    }
}

/// An occurrence of a text without line breaks lies within one line.
proof fn lemma_within_line(front: Seq<char>, back: Seq<char>, part: Seq<char>, start: int)
    requires
        part.len() > 0,
        forall|i: int| 0 <= i < part.len() ==> #[trigger] part[i] != '\n',
        stands_at(front + "\n"@ + back, part, start),
    ensures
        stands_at(front, part, start) || stands_at(back, part, start - front.len() - 1),
{
    reveal_strlit("\n");
    let whole = front + "\n"@ + back;
    let window = whole.subrange(start, start + part.len());
    let break_at = front.len() as int;
    assert(whole[break_at] == '\n');
    if start <= break_at < start + part.len() {
        assert(window[break_at - start] == whole[break_at]);
        assert(part[break_at - start] != '\n');
        assert(false);
    }
    if start + part.len() <= break_at {
        assert(front.subrange(start, start + part.len()) =~= window);
    } else {
        let moved = start - front.len() - 1;
        assert(back.subrange(moved, moved + part.len()) =~= window);
    }
}

/// Where a text occurs in neither part, nothing of it stands before `back`.
proof fn lemma_no_marker_in(text: Seq<char>, part: Seq<char>, at: int, character: char)
    requires
        0 <= at < part.len(),
        part[at] == character,
        forall|i: int| 0 <= i < text.len() ==> #[trigger] text[i] != character,
    ensures
        !occurs_in(text, part),
{
    if occurs_in(text, part) {
        let start = choose|start: int| #[trigger] stands_at(text, part, start);
        let window = text.subrange(start, start + part.len());
        assert(window[at] == text[start + at]);
    }
}

/// The first occurrence behind a line that holds none.
proof fn lemma_first_behind(front: Seq<char>, back: Seq<char>, part: Seq<char>, start: int)
    requires
        part.len() > 0,
        forall|i: int| 0 <= i < part.len() ==> #[trigger] part[i] != '\n',
        !occurs_in(front, part),
        starts_first(back, part, start),
    ensures
        starts_first(front + "\n"@ + back, part, front.len() + 1 + start),
{
    reveal_strlit("\n");
    let whole = front + "\n"@ + back;
    let moved = front.len() + 1 + start;
    assert(whole.subrange(moved, moved + part.len()) =~= back.subrange(start, start + part.len()));
    assert forall|s: int| 0 <= s < moved implies !(#[trigger] stands_at(whole, part, s)) by {
        if stands_at(whole, part, s) {
            lemma_within_line(front, back, part, s);
            assert(!stands_at(front, part, s));
            assert(!stands_at(back, part, s - front.len() - 1));
        }
    }
}

/// The start marker first occurs behind the manual text, and the end marker
/// first occurs behind the generated rules.
proof fn lemma_markers(manual: Seq<char>, generated: Seq<char>)
    requires
        !occurs_in(trimmed_end(manual), MANAGED_START@),
        !occurs_in(trimmed_end(manual), MANAGED_END@),
        !occurs_in(trimmed(generated), MANAGED_END@),
    ensures
        starts_first(
            with_region(manual, generated),
            MANAGED_START@,
            region_head(manual).len() as int,
        ),
        starts_first(
            with_region(manual, generated),
            MANAGED_END@,
            with_region(manual, generated).len() - MANAGED_END@.len() - 1,
        ),
        region_head(manual).len() < with_region(manual, generated).len() - MANAGED_END@.len() - 1,
{
    reveal_strlit("\n");
    reveal_strlit("\n\n");
    reveal_strlit("# >>> docker_maid managed rules; edit with `docker_maid tui` >>>");
    reveal_strlit("# <<< docker_maid managed rules <<<");
    reveal_strlit(
        "# Stable IDs below are owned by the configurator. Manual rules above are untouched.",
    );
    let opening = MANAGED_START@;
    let closing = MANAGED_END@;
    let note = MANAGED_NOTE@;
    let head = trimmed_end(manual);
    let rules = trimmed(generated);
    let none = Seq::<char>::empty();
    let whole = with_region(manual, generated);
    assert(closing[2] == '<');
    assert(opening[2] == '>');
    lemma_no_marker_in(opening, closing, 2, '<');
    lemma_no_marker_in(note, closing, 2, '<');
    lemma_no_marker_in(none, closing, 2, '<');
    lemma_no_marker_in(none, opening, 2, '>');

    // The end marker, line by line from the last one up.
    let closed = closing + "\n"@;
    assert(closed.subrange(0, closing.len() as int) =~= closing);
    assert(starts_first(closed, closing, 0));
    lemma_first_behind(rules, closed, closing, 0);
    let below = rules + "\n"@ + closed;
    lemma_first_behind(note, below, closing, (rules.len() + 1) as int);
    let noted = note + "\n"@ + below;
    lemma_first_behind(opening, noted, closing, (note.len() + 1 + rules.len() + 1) as int);
    let region = opening + "\n"@ + noted;
    let end = opening.len() + 1 + note.len() + 1 + rules.len() + 1;
    assert(starts_first(region, closing, end as int));

    assert(region.subrange(0, opening.len() as int) =~= opening);
    assert(starts_first(region, opening, 0));

    if head.len() == 0 {
        assert(whole =~= region);
    } else {
        lemma_first_behind(none, region, closing, end as int);
        lemma_first_behind(none, region, opening, 0);
        let spaced = none + "\n"@ + region;
        lemma_first_behind(head, spaced, closing, (none.len() + 1 + end) as int);
        lemma_first_behind(head, spaced, opening, (none.len() + 1) as int);
        assert(whole =~= head + "\n"@ + spaced);
    }
}

/// Whether a text stands at one place alone.
pub open spec fn stands_only_at(text: Seq<char>, part: Seq<char>, start: int) -> bool {
    forall|s: int| #[trigger] stands_at(text, part, s) <==> s == start
}

proof fn lemma_in_no_line(front: Seq<char>, back: Seq<char>, part: Seq<char>)
    requires
        part.len() > 0,
        forall|i: int| 0 <= i < part.len() ==> #[trigger] part[i] != '\n',
        !occurs_in(front, part),
        !occurs_in(back, part),
    ensures
        !occurs_in(front + "\n"@ + back, part),
{
    let whole = front + "\n"@ + back;
    if occurs_in(whole, part) {
        let s = choose|s: int| #[trigger] stands_at(whole, part, s);
        lemma_within_line(front, back, part, s);
        assert(!stands_at(front, part, s));
        assert(!stands_at(back, part, s - front.len() - 1));
    }
}

proof fn lemma_only_behind(front: Seq<char>, back: Seq<char>, part: Seq<char>, start: int)
    requires
        part.len() > 0,
        forall|i: int| 0 <= i < part.len() ==> #[trigger] part[i] != '\n',
        !occurs_in(front, part),
        stands_only_at(back, part, start),
    ensures
        stands_only_at(front + "\n"@ + back, part, front.len() + 1 + start),
{
    reveal_strlit("\n");
    let whole = front + "\n"@ + back;
    let moved = front.len() + 1 + start;
    assert(stands_at(back, part, start));
    assert(whole.subrange(moved, moved + part.len()) =~= back.subrange(start, start + part.len()));
    assert forall|s: int| #[trigger] stands_at(whole, part, s) implies s == moved by {
        lemma_within_line(front, back, part, s);
        assert(!stands_at(front, part, s));
        assert(stands_at(back, part, s - front.len() - 1));
    }
}

proof fn lemma_only_line(part: Seq<char>, back: Seq<char>)
    requires
        part.len() > 0,
        forall|i: int| 0 <= i < part.len() ==> #[trigger] part[i] != '\n',
        !occurs_in(back, part),
    ensures
        stands_only_at(part + "\n"@ + back, part, 0),
{
    reveal_strlit("\n");
    let whole = part + "\n"@ + back;
    assert(whole.subrange(0, part.len() as int) =~= part);
    assert forall|s: int| #[trigger] stands_at(whole, part, s) implies s == 0 by {
        lemma_within_line(part, back, part, s);
        assert(!stands_at(back, part, s - part.len() - 1));
    }
}

/// What is written holds each marker once: the region opens behind all of the
/// manual text and closes at the end.
pub proof fn the_region_stands_once(manual: Seq<char>, generated: Seq<char>)
    requires
        !occurs_in(trimmed_end(manual), MANAGED_START@),
        !occurs_in(trimmed_end(manual), MANAGED_END@),
        !occurs_in(trimmed(generated), MANAGED_START@),
        !occurs_in(trimmed(generated), MANAGED_END@),
    ensures
        trimmed_end(manual).is_prefix_of(with_region(manual, generated)),
        trimmed_end(manual).len() <= region_head(manual).len(),
        stands_only_at(
            with_region(manual, generated),
            MANAGED_START@,
            region_head(manual).len() as int,
        ),
        stands_only_at(
            with_region(manual, generated),
            MANAGED_END@,
            with_region(manual, generated).len() - MANAGED_END@.len() - 1,
        ),
{
    reveal_strlit("\n");
    reveal_strlit("\n\n");
    reveal_strlit("# >>> docker_maid managed rules; edit with `docker_maid tui` >>>");
    reveal_strlit("# <<< docker_maid managed rules <<<");
    reveal_strlit(
        "# Stable IDs below are owned by the configurator. Manual rules above are untouched.",
    );
    let opening = MANAGED_START@;
    let closing = MANAGED_END@;
    let note = MANAGED_NOTE@;
    let head = trimmed_end(manual);
    let rules = trimmed(generated);
    let none = Seq::<char>::empty();
    let whole = with_region(manual, generated);
    assert(closing[2] == '<');
    assert(opening[2] == '>');
    lemma_no_marker_in(opening, closing, 2, '<');
    lemma_no_marker_in(note, closing, 2, '<');
    lemma_no_marker_in(none, closing, 2, '<');
    lemma_no_marker_in(closing, opening, 2, '>');
    lemma_no_marker_in(note, opening, 2, '>');
    lemma_no_marker_in(none, opening, 2, '>');
    let closed = closing + "\n"@ + none;
    let below = rules + "\n"@ + closed;
    let noted = note + "\n"@ + below;
    let region = opening + "\n"@ + noted;

    lemma_only_line(closing, none);
    lemma_only_behind(rules, closed, closing, 0);
    lemma_only_behind(note, below, closing, (rules.len() + 1) as int);
    lemma_only_behind(opening, noted, closing, (note.len() + 1 + rules.len() + 1) as int);
    let end = opening.len() + 1 + note.len() + 1 + rules.len() + 1;

    lemma_in_no_line(closing, none, opening);
    lemma_in_no_line(rules, closed, opening);
    lemma_in_no_line(note, below, opening);
    lemma_only_line(opening, noted);

    if head.len() == 0 {
        assert(whole =~= region);
    } else {
        let spaced = none + "\n"@ + region;
        lemma_only_behind(none, region, closing, end as int);
        lemma_only_behind(none, region, opening, 0);
        lemma_only_behind(head, spaced, closing, (none.len() + 1 + end) as int);
        lemma_only_behind(head, spaced, opening, (none.len() + 1) as int);
        assert(whole =~= head + "\n"@ + spaced);
    }
    assert(head =~= whole.subrange(0, head.len() as int));
}

/// Whether a text holds another at most once.
pub open spec fn stands_at_most_once(text: Seq<char>, part: Seq<char>) -> bool {
    forall|s: int, t: int|
        #![trigger stands_at(text, part, s), stands_at(text, part, t)]
        stands_at(text, part, s) && stands_at(text, part, t) ==> s == t
}

proof fn lemma_only_first(text: Seq<char>, part: Seq<char>)
    requires
        stands_at_most_once(text, part),
        occurs_in(text, part),
    ensures
        first_at(text, part) is Some,
        stands_only_at(text, part, first_at(text, part)->0),
{
    let start = choose|start: int| #[trigger] stands_at(text, part, start);
    assert forall|s: int| 0 <= s < start implies !(#[trigger] stands_at(text, part, s)) by {
        assert(stands_at(text, part, start));
    }
    lemma_first_at(text, part, start);
}

proof fn lemma_stands_in_piece(text: Seq<char>, from: int, to: int, part: Seq<char>, start: int)
    requires
        0 <= from <= to <= text.len(),
        stands_at(text.subrange(from, to), part, start),
    ensures
        stands_at(text, part, from + start),
        from + start + part.len() <= to,
{
    let piece = text.subrange(from, to);
    assert(text.subrange(from + start, from + start + part.len()) =~= piece.subrange(
        start,
        start + part.len(),
    ));
}

/// What is left of a source around its region holds nothing that stands within
/// the region alone.
proof fn lemma_none_around(source: Seq<char>, start: int, end: int, part: Seq<char>, place: int)
    requires
        0 <= start <= place < end <= source.len(),
        part.len() > 0,
        forall|i: int| 0 <= i < part.len() ==> #[trigger] part[i] != '\n',
        stands_only_at(source, part, place),
    ensures
        !occurs_in(trimmed_end(source.take(start)), part),
        !occurs_in(trimmed(source.skip(end)), part),
{
    let head = trimmed_end(source.take(start));
    lemma_trimmed_end_piece(source.take(start));
    assert(head =~= source.subrange(0, head.len() as int));
    if occurs_in(head, part) {
        let s = choose|s: int| #[trigger] stands_at(head, part, s);
        lemma_stands_in_piece(source, 0, head.len() as int, part, s);
        assert(stands_at(source, part, s));
    }
    let rest = trimmed(source.skip(end));
    let from = lemma_trimmed_piece(source.skip(end));
    assert(rest =~= source.subrange(end + from, end + from + rest.len()));
    if occurs_in(rest, part) {
        let s = choose|s: int| #[trigger] stands_at(rest, part, s);
        lemma_stands_in_piece(source, end + from, end + from + rest.len(), part, s);
        assert(stands_at(source, part, end + from + s));
    }
}

/// In a source that holds each marker at most once, the text outside the region
/// holds none.
pub proof fn the_manual_text_holds_no_marker(source: Seq<char>)
    requires
        stands_at_most_once(source, MANAGED_START@),
        stands_at_most_once(source, MANAGED_END@),
        without_region(source) is Some,
    ensures
        !occurs_in(trimmed_end(without_region(source)->0), MANAGED_START@),
        !occurs_in(trimmed_end(without_region(source)->0), MANAGED_END@),
{
    reveal_strlit("\n");
    reveal_strlit("\n\n");
    reveal_strlit("# >>> docker_maid managed rules; edit with `docker_maid tui` >>>");
    reveal_strlit("# <<< docker_maid managed rules <<<");
    let opening = MANAGED_START@;
    let closing = MANAGED_END@;
    let none = Seq::<char>::empty();
    let manual = without_region(source)->0;
    if occurs_in(source, opening) && occurs_in(source, closing) {
        lemma_only_first(source, opening);
        lemma_only_first(source, closing);
        let start = first_at(source, opening)->0;
        let end = first_at(source, closing)->0;
        assert(stands_at(source, opening, start));
        assert(stands_at(source, closing, end));
        let behind = (end + closing.len()) as int;
        let head = trimmed_end(source.take(start));
        let rest = trimmed(source.skip(behind));
        lemma_none_around(source, start, behind, opening, start);
        lemma_none_around(source, start, behind, closing, end);
        lemma_no_marker_in(none, closing, 2, '<');
        lemma_no_marker_in(none, opening, 2, '>');
        let spaced = none + "\n"@ + rest;
        lemma_in_no_line(none, rest, opening);
        lemma_in_no_line(none, rest, closing);
        lemma_in_no_line(head, spaced, opening);
        lemma_in_no_line(head, spaced, closing);
        let body = if rest.len() > 0 {
            head + "\n\n"@ + rest
        } else {
            head
        };
        assert(head + "\n\n"@ + rest =~= head + "\n"@ + spaced);
        lemma_in_no_line(body, none, opening);
        lemma_in_no_line(body, none, closing);
        assert(body + "\n"@ =~= body + "\n"@ + none);
    }
    let kept = trimmed_end(manual);
    lemma_trimmed_end_piece(manual);
    assert(kept =~= manual.subrange(0, kept.len() as int));
    if occurs_in(kept, opening) {
        let s = choose|s: int| #[trigger] stands_at(kept, opening, s);
        lemma_stands_in_piece(manual, 0, kept.len() as int, opening, s);
    }
    if occurs_in(kept, closing) {
        let s = choose|s: int| #[trigger] stands_at(kept, closing, s);
        lemma_stands_in_piece(manual, 0, kept.len() as int, closing, s);
    }
}

/// Taking the region out of what was written gives the manual text back: what
/// stood there is kept, its trailing white space becomes one line break. It
/// holds of every manual text and rules that do not themselves hold a marker.
pub proof fn manual_text_survives(manual: Seq<char>, generated: Seq<char>)
    requires
        !occurs_in(trimmed_end(manual), MANAGED_START@),
        !occurs_in(trimmed_end(manual), MANAGED_END@),
        !occurs_in(trimmed(generated), MANAGED_END@),
    ensures
        without_region(with_region(manual, generated)) == Some(
            if is_blank(manual) {
                Seq::<char>::empty()
            } else {
                trimmed_end(manual) + "\n"@
            },
        ),
{
    lemma_markers(manual, generated);
    let whole = with_region(manual, generated);
    let start = region_head(manual).len() as int;
    let end = whole.len() - MANAGED_END@.len() - 1;
    lemma_first_at(whole, MANAGED_START@, start);
    lemma_first_at(whole, MANAGED_END@, end);
    reveal_strlit("\n");
    reveal_strlit("\n\n");
    let head = trimmed_end(manual);
    assert(whole.take(start) =~= region_head(manual));
    assert(whole.skip(end + MANAGED_END@.len()) =~= "\n"@);
    assert(is_space('\n'));
    assert(is_blank("\n"@));
    assert(is_blank("\n\n"@));
    lemma_trimmed_blank("\n"@);
    lemma_trimmed_end_once(manual);
    lemma_trimmed_end_tail(head, "\n\n"@);
    assert(trimmed_end(region_head(manual)) == head);
    lemma_blank_end(manual);
}

proof fn lemma_blank_end(text: Seq<char>)
    ensures
        (trimmed_end(text).len() == 0) == is_blank(text),
    decreases text.len(),
{
    if text.len() > 0 && is_space(text.last()) {
        let rest = text.drop_last();
        lemma_blank_end(rest);
        if is_blank(rest) {
            assert forall|i: int| 0 <= i < text.len() implies is_space(#[trigger] text[i]) by {
                if i < text.len() - 1 {
                    assert(rest[i] == text[i]);
                }
            }
        } else if is_blank(text) {
            assert forall|i: int| 0 <= i < rest.len() implies is_space(#[trigger] rest[i]) by {
                assert(rest[i] == text[i]);
            }
        }
    } else if text.len() > 0 {
        assert(!is_space(text[text.len() - 1]));
    }
}

/// Writing rules, taking them out and writing other rules leaves the source
/// as if only the last had been written.
pub proof fn rewriting_replaces_only_the_region(
    manual: Seq<char>,
    generated: Seq<char>,
    next: Seq<char>,
)
    requires
        !occurs_in(trimmed_end(manual), MANAGED_START@),
        !occurs_in(trimmed_end(manual), MANAGED_END@),
        !occurs_in(trimmed(generated), MANAGED_END@),
    ensures
        without_region(with_region(manual, generated)) is Some,
        with_region(without_region(with_region(manual, generated))->0, next) == with_region(
            manual,
            next,
        ),
        is_blank(without_region(with_region(manual, generated))->0) == is_blank(manual),
{
    manual_text_survives(manual, generated);
    reveal_strlit("\n");
    lemma_blank_end(manual);
    lemma_trimmed_end_once(manual);
    assert(is_space('\n'));
    assert(is_blank("\n"@));
    lemma_trimmed_end_tail(trimmed_end(manual), "\n"@);
    assert(trimmed_end(without_region(with_region(manual, generated))->0) =~= trimmed_end(manual));
    lemma_blank_end(without_region(with_region(manual, generated))->0);
}

} // verus!
