//! The lines of the journal: reading them, keeping the newest, and the hashes
//! and names that stand in them.

use crate::activity::{
    ActivityError, ActivityEvent, EventView, MAX_BYTES, MAX_EVENTS, SCHEMA_VERSION,
};
use crate::text::{concat4, decimal, decimal_text, group_views, text_eq, views};
use vstd::prelude::*;
use vstd::string::*;
use vstd::utf8::*;

verus! {

/// The lines of a journal file: what stands between line feeds, the empty ones
/// left out.
pub open spec fn lines_of(bytes: Seq<u8>) -> Seq<Seq<u8>> {
    filled(byte_pieces(bytes))
}

/// What stands between line feeds.
pub open spec fn byte_pieces(bytes: Seq<u8>) -> Seq<Seq<u8>>
    decreases bytes.len(),
{
    if bytes.len() == 0 {
        seq![Seq::empty()]
    } else {
        let before = byte_pieces(bytes.drop_last());
        if bytes.last() == 10 {
            before.push(Seq::empty())
        } else {
            before.update(before.len() - 1, before.last().push(bytes.last()))
        }
    }
}

/// The lines of a list that are not empty.
pub open spec fn filled(lines: Seq<Seq<u8>>) -> Seq<Seq<u8>>
    decreases lines.len(),
{
    if lines.len() == 0 {
        lines
    } else {
        let before = filled(lines.drop_last());
        if lines.last().len() > 0 {
            before.push(lines.last())
        } else {
            before
        }
    }
}

proof fn lemma_filled_push(lines: Seq<Seq<u8>>, line: Seq<u8>)
    ensures
        filled(lines.push(line)) == if line.len() > 0 {
            filled(lines).push(line)
        } else {
            filled(lines)
        },
{
    assert(lines.push(line).drop_last() =~= lines);
}

/// Splits the bytes of a journal file into its lines.
pub fn split_lines(bytes: &Vec<u8>) -> (lines: Vec<Vec<u8>>)
    ensures
        views(lines@) == lines_of(bytes@),
{
    broadcast use group_views;

    let mut lines: Vec<Vec<u8>> = Vec::new();
    let mut current: Vec<u8> = Vec::new();
    let ghost mut closed: Seq<Seq<u8>> = Seq::empty();
    let mut index: usize = 0;
    assert(closed.push(current@) =~= byte_pieces(bytes@.take(0)));
    assert(views(lines@) =~= filled(closed));
    while index < bytes.len()
        invariant
            index <= bytes@.len(),
            closed.push(current@) == byte_pieces(bytes@.take(index as int)),
            views(lines@) == filled(closed),
        decreases bytes@.len() - index,
    {
        let byte = bytes[index];
        let ghost part = current@;
        proof {
            assert(bytes@.take(index as int + 1).drop_last() =~= bytes@.take(index as int));
            assert(closed.push(part).last() == part);
            assert(closed.push(part).update(closed.len() as int, part.push(byte)) =~= closed.push(
                part.push(byte),
            ));
        }
        if byte == 10 {
            proof {
                lemma_filled_push(closed, part);
                closed = closed.push(part);
            }
            if current.len() > 0 {
                lines.push(current);
            }
            current = Vec::new();
        } else {
            current.push(byte);
        }
        index += 1;
    }
    assert(bytes@.take(index as int) =~= bytes@);
    proof {
        lemma_filled_push(closed, current@);
    }
    if current.len() > 0 {
        lines.push(current);
    }
    lines
}

/// How many lines a journal file holds.
pub fn count_lines(bytes: &Vec<u8>) -> (count: usize)
    ensures
        count == lines_of(bytes@).len(),
{
    broadcast use group_views;

    split_lines(bytes).len()
}

/// The bytes that lines take, each with its line feed.
pub open spec fn stored_size(lines: Seq<Seq<u8>>) -> nat
    decreases lines.len(),
{
    if lines.len() == 0 {
        0
    } else {
        stored_size(lines.drop_last()) + lines.last().len() + 1
    }
}

/// How many of the newest lines are kept: one after the other from the end, for
/// as long as neither limit is passed.
pub open spec fn kept_count(lines: Seq<Seq<u8>>, max_events: nat, max_bytes: nat) -> nat
    decreases lines.len(),
{
    if lines.len() == 0 || max_events == 0 || lines.last().len() + 1 > max_bytes {
        0
    } else {
        1 + kept_count(
            lines.drop_last(),
            (max_events - 1) as nat,
            (max_bytes - lines.last().len() - 1) as nat,
        )
    }
}

/// The newest lines that stay within both limits.
pub open spec fn newest_lines(lines: Seq<Seq<u8>>, max_events: nat, max_bytes: nat) -> Seq<
    Seq<u8>,
> {
    lines.skip(lines.len() - kept_count(lines, max_events, max_bytes))
}

proof fn lemma_stored_size_push(lines: Seq<Seq<u8>>, line: Seq<u8>)
    ensures
        stored_size(lines.push(line)) == stored_size(lines) + line.len() + 1,
{
    assert(lines.push(line).drop_last() =~= lines);
}

proof fn lemma_stored_size_skip(lines: Seq<Seq<u8>>, more: int, fewer: int)
    requires
        0 <= more <= fewer <= lines.len(),
    ensures
        stored_size(lines.skip(fewer)) <= stored_size(lines.skip(more)),
    decreases lines.len(),
{
    if fewer == lines.len() {
        assert(lines.skip(fewer) =~= Seq::empty());
    } else {
        let rest = lines.drop_last();
        lemma_stored_size_skip(rest, more, fewer);
        assert(lines.skip(more) =~= rest.skip(more).push(lines.last()));
        assert(lines.skip(fewer) =~= rest.skip(fewer).push(lines.last()));
        lemma_stored_size_push(rest.skip(more), lines.last());
        lemma_stored_size_push(rest.skip(fewer), lines.last());
    }
}

/// What is kept stays within both limits, and nothing longer would.
pub proof fn retention_keeps_the_longest_tail_within_both_limits(
    lines: Seq<Seq<u8>>,
    max_events: nat,
    max_bytes: nat,
    longer: int,
)
    requires
        kept_count(lines, max_events, max_bytes) < longer <= lines.len(),
    ensures
        newest_lines(lines, max_events, max_bytes).len() <= max_events,
        stored_size(newest_lines(lines, max_events, max_bytes)) <= max_bytes,
        longer > max_events || stored_size(lines.skip(lines.len() - longer)) > max_bytes,
    decreases lines.len(),
{
    retention_stays_within_both_limits(lines, max_events, max_bytes);
    let rest = lines.drop_last();
    let tail = lines.skip(lines.len() - longer);
    assert(tail =~= rest.skip(rest.len() - (longer - 1)).push(lines.last()));
    lemma_stored_size_push(rest.skip(rest.len() - (longer - 1)), lines.last());
    if max_events == 0 || lines.last().len() + 1 > max_bytes {
    } else {
        retention_keeps_the_longest_tail_within_both_limits(
            rest,
            (max_events - 1) as nat,
            (max_bytes - lines.last().len() - 1) as nat,
            longer - 1,
        );
    }
}

/// What is kept stays within both limits.
pub proof fn retention_stays_within_both_limits(
    lines: Seq<Seq<u8>>,
    max_events: nat,
    max_bytes: nat,
)
    ensures
        kept_count(lines, max_events, max_bytes) <= lines.len(),
        newest_lines(lines, max_events, max_bytes).len() <= max_events,
        stored_size(newest_lines(lines, max_events, max_bytes)) <= max_bytes,
    decreases lines.len(),
{
    if lines.len() == 0 || max_events == 0 || lines.last().len() + 1 > max_bytes {
        assert(newest_lines(lines, max_events, max_bytes) =~= Seq::empty());
    } else {
        let rest = lines.drop_last();
        let events = (max_events - 1) as nat;
        let bytes = (max_bytes - lines.last().len() - 1) as nat;
        retention_stays_within_both_limits(rest, events, bytes);
        assert(newest_lines(lines, max_events, max_bytes) =~= newest_lines(
            rest,
            events,
            bytes,
        ).push(lines.last()));
        lemma_stored_size_push(newest_lines(rest, events, bytes), lines.last());
    }
}

/// Keeps the newest lines, at most `max_events` of them in at most `max_bytes`.
pub fn retain_newest_lines(lines: Vec<Vec<u8>>, max_events: usize, max_bytes: usize) -> (kept: Vec<
    Vec<u8>,
>)
    ensures
        views(kept@) == newest_lines(views(lines@), max_events as nat, max_bytes as nat),
{
    broadcast use group_views;

    let ghost all = views(lines@);
    let total: usize = lines.len();
    let mut count: usize = 0;
    let mut bytes_left: usize = max_bytes;
    assert(all.take(total as int) =~= all);
    while count < total && count < max_events && lines[total - count - 1].len() < bytes_left
        invariant
            count <= total,
            count <= max_events,
            total == lines@.len(),
            all == views(lines@),
            kept_count(all, max_events as nat, max_bytes as nat) == count + kept_count(
                all.take(total - count),
                (max_events - count) as nat,
                bytes_left as nat,
            ),
        decreases total - count,
    {
        assert(all.take(total - count).last() == lines@[total - count - 1]@);
        assert(all.take(total - count).drop_last() =~= all.take(total - count - 1));
        bytes_left = bytes_left - lines[total - count - 1].len() - 1;
        count += 1;
    }
    proof {
        if count < total {
            assert(all.take(total - count).last() == lines@[total - count - 1]@);
        }
    }
    let mut lines = lines;
    let kept = lines.split_off(total - count);
    assert(views(kept@) =~= all.skip(total - count));
    kept
}

/// Lines written one after the other, each with its line feed.
pub open spec fn lines_written(lines: Seq<Seq<u8>>) -> Seq<u8>
    decreases lines.len(),
{
    if lines.len() == 0 {
        Seq::empty()
    } else {
        lines_written(lines.drop_last()) + lines.last() + seq![10u8]
    }
}

fn write_lines(lines: &Vec<Vec<u8>>) -> (payload: Vec<u8>)
    ensures
        payload@ == lines_written(views(lines@)),
{
    broadcast use group_views;

    let ghost all = views(lines@);
    let mut payload: Vec<u8> = Vec::new();
    let mut index: usize = 0;
    assert(payload@ =~= lines_written(all.take(0)));
    while index < lines.len()
        invariant
            index <= lines@.len(),
            all == views(lines@),
            payload@ == lines_written(all.take(index as int)),
        decreases lines@.len() - index,
    {
        assert(all.take(index as int + 1).drop_last() =~= all.take(index as int));
        assert(all.take(index as int + 1).last() == lines@[index as int]@);
        let ghost before = payload@;
        let line = &lines[index];
        let mut place: usize = 0;
        assert(before + line@.take(0) =~= before);
        while place < line.len()
            invariant
                place <= line@.len(),
                payload@ == before + line@.take(place as int),
            decreases line@.len() - place,
        {
            payload.push(line[place]);
            place += 1;
            assert(payload@ =~= before + line@.take(place as int));
        }
        assert(line@.take(place as int) =~= line@);
        payload.push(10);
        assert(payload@ =~= before + line@ + seq![10u8]);
        index += 1;
    }
    assert(all.take(index as int) =~= all);
    payload
}

/// Whether the journal has outgrown a limit.
pub open spec fn outgrown(active: Seq<u8>, rotated: Seq<u8>) -> bool {
    active.len() + rotated.len() > MAX_BYTES || lines_of(active).len() + lines_of(rotated).len()
        > MAX_EVENTS
}

/// What the rotated file is to hold once the journal has outgrown a limit: the
/// newest lines of both files; the active file is then emptied. `None` where
/// both files stay as they are.
pub fn rotation(active: &Vec<u8>, rotated: &Vec<u8>) -> (payload: Option<Vec<u8>>)
    ensures
        match payload {
            Some(bytes) => {
                &&& outgrown(active@, rotated@)
                &&& bytes@ == lines_written(
                    newest_lines(
                        lines_of(rotated@) + lines_of(active@),
                        MAX_EVENTS as nat,
                        MAX_BYTES as nat,
                    ),
                )
            },
            None => !outgrown(active@, rotated@),
        },
{
    broadcast use group_views;

    let within = active.len() <= MAX_BYTES && rotated.len() <= MAX_BYTES - active.len();
    let mut newer = split_lines(active);
    let mut lines = split_lines(rotated);
    if within && newer.len() <= MAX_EVENTS && lines.len() <= MAX_EVENTS - newer.len() {
        return None;
    }
    let ghost older_lines = lines@;
    let ghost newer_lines = newer@;
    lines.append(&mut newer);
    assert(views(lines@) =~= views(older_lines) + views(newer_lines));
    Some(write_lines(&retain_newest_lines(lines, MAX_EVENTS, MAX_BYTES)))
}

/// A line of a journal file, with what decoding it gave.
#[derive(Debug, PartialEq, Eq)]
pub struct DecodedLine {
    pub path: String,
    /// Counted from 1.
    pub line: usize,
    pub event: Result<ActivityEvent, String>,
}

/// Whether an event has the pass and the sequence of an earlier one.
pub open spec fn repeats(events: Seq<EventView>, event: EventView) -> bool {
    exists|i: int|
        0 <= i < events.len() && (#[trigger] events[i]).pass_id == event.pass_id
            && events[i].sequence == event.sequence
}

/// Whether a line is a readable event of this version.
pub open spec fn line_is_good(line: DecodedLine) -> bool {
    line.event is Ok && line.event->Ok_0.schema_version == SCHEMA_VERSION
}

/// The events of good lines, those that repeat an earlier one left out.
pub open spec fn distinct_events(lines: Seq<DecodedLine>) -> Seq<EventView>
    decreases lines.len(),
{
    if lines.len() == 0 {
        Seq::empty()
    } else {
        let before = distinct_events(lines.drop_last());
        let event = lines.last().event->Ok_0@;
        if repeats(before, event) {
            before
        } else {
            before.push(event)
        }
    }
}

/// The error of a line that is not good.
pub open spec fn line_error_is(line: DecodedLine, error: ActivityError) -> bool {
    match (line.event, error) {
        (Err(reason), ActivityError::Decode { path, line: number, message }) => {
            &&& path@ == line.path@
            &&& number == line.line
            &&& message@ == reason@
        },
        (Ok(event), ActivityError::Invalid(message)) => message@
            == "unsupported activity schema_version "@ + decimal(event.schema_version as nat)
            + " in "@ + line.path@ + " line "@ + decimal(line.line as nat) + "; expected "@
            + decimal(SCHEMA_VERSION as nat),
        _ => false,
    }
}

fn repeats_one(events: &Vec<ActivityEvent>, event: &ActivityEvent) -> (found: bool)
    ensures
        found == repeats(views(events@), event@),
{
    broadcast use group_views;

    let mut index: usize = 0;
    while index < events.len()
        invariant
            index <= events@.len(),
            forall|i: int|
                0 <= i < index ==> (#[trigger] views(events@)[i]).pass_id != event@.pass_id
                    || views(events@)[i].sequence != event@.sequence,
        decreases events@.len() - index,
    {
        if events[index].sequence == event.sequence && text_eq(
            events[index].pass_id.as_str(),
            event.pass_id.as_str(),
        ) {
            assert(views(events@)[index as int].pass_id == event@.pass_id);
            return true;
        }
        index += 1;
    }
    false
}

/// The events of a journal, from its decoded lines in their order. The first
/// line that is not a readable event of this version is an error.
pub fn accept_events(lines: &Vec<DecodedLine>) -> (outcome: Result<
    Vec<ActivityEvent>,
    ActivityError,
>)
    ensures
        match outcome {
            Ok(events) => {
                &&& forall|i: int| 0 <= i < lines@.len() ==> line_is_good(#[trigger] lines@[i])
                &&& views(events@) == distinct_events(lines@)
            },
            Err(error) => exists|i: int|
                0 <= i < lines@.len() && !line_is_good(#[trigger] lines@[i]) && line_error_is(
                    lines@[i],
                    error,
                ) && forall|j: int| 0 <= j < i ==> line_is_good(#[trigger] lines@[j]),
        },
{
    broadcast use group_views;

    let mut events: Vec<ActivityEvent> = Vec::new();
    let mut index: usize = 0;
    assert(views(events@) =~= distinct_events(lines@.take(0)));
    while index < lines.len()
        invariant
            index <= lines@.len(),
            forall|i: int| 0 <= i < index ==> line_is_good(#[trigger] lines@[i]),
            views(events@) == distinct_events(lines@.take(index as int)),
        decreases lines@.len() - index,
    {
        let line = &lines[index];
        match &line.event {
            Err(reason) => {
                assert(!line_is_good(lines@[index as int]));
                let error = ActivityError::Decode {
                    path: line.path.clone(),
                    line: line.line,
                    message: reason.clone(),
                };
                assert(line_error_is(lines@[index as int], error));
                return Err(error);
            },
            Ok(event) => {
                if event.schema_version != SCHEMA_VERSION {
                    let mut words = concat4(
                        "unsupported activity schema_version ",
                        decimal_text(event.schema_version as u64).as_str(),
                        " in ",
                        line.path.as_str(),
                    );
                    words.append(" line ");
                    words.append(decimal_text(line.line as u64).as_str());
                    words.append("; expected ");
                    words.append(decimal_text(SCHEMA_VERSION as u64).as_str());
                    assert(!line_is_good(lines@[index as int]));
                    let error = ActivityError::Invalid(words);
                    assert(line_error_is(lines@[index as int], error));
                    return Err(error);
                }
                assert(lines@.take(index as int + 1).drop_last() =~= lines@.take(index as int));
                assert(lines@.take(index as int + 1).last() == lines@[index as int]);
                if !repeats_one(&events, event) {
                    events.push(event.clone());
                }
            },
        }
        index += 1;
    }
    assert(lines@.take(index as int) =~= lines@);
    Ok(events)
}

/// The character of a hexadecimal digit.
pub open spec fn hex_digit(value: int) -> char {
    if value == 0 { '0' } else if value == 1 { '1' } else if value == 2 { '2' }
    else if value == 3 { '3' } else if value == 4 { '4' } else if value == 5 { '5' }
    else if value == 6 { '6' } else if value == 7 { '7' } else if value == 8 { '8' }
    else if value == 9 { '9' } else if value == 10 { 'a' } else if value == 11 { 'b' }
    else if value == 12 { 'c' } else if value == 13 { 'd' } else if value == 14 { 'e' }
    else { 'f' }
}

/// The last `digits` hexadecimal digits of a number.
pub open spec fn hexadecimal(value: nat, digits: nat) -> Seq<char>
    decreases digits,
{
    if digits == 0 {
        Seq::empty()
    } else {
        hexadecimal(value / 16, (digits - 1) as nat).push(hex_digit((value % 16) as int))
    }
}

fn hex_char(value: u128) -> (character: char)
    requires
        value < 16,
    ensures
        character == hex_digit(value as int),
{
    if value == 0 { '0' } else if value == 1 { '1' } else if value == 2 { '2' }
    else if value == 3 { '3' } else if value == 4 { '4' } else if value == 5 { '5' }
    else if value == 6 { '6' } else if value == 7 { '7' } else if value == 8 { '8' }
    else if value == 9 { '9' } else if value == 10 { 'a' } else if value == 11 { 'b' }
    else if value == 12 { 'c' } else if value == 13 { 'd' } else if value == 14 { 'e' }
    else { 'f' }
}

/// Appends the last `digits` hexadecimal digits of a number.
pub fn push_hexadecimal(text: &mut String, value: u128, digits: usize)
    ensures
        final(text)@ == old(text)@ + hexadecimal(value as nat, digits as nat),
    decreases digits,
{
    if digits > 0 {
        push_hexadecimal(text, value / 16, digits - 1);
        text.push(hex_char(value % 16));
    }
    assert(text@ =~= old(text)@ + hexadecimal(value as nat, digits as nat));
}

/// The starting value of the hash.
pub const HASH_START: u64 = 0xcbf2_9ce4_8422_2325;

/// The factor of the hash.
pub const HASH_FACTOR: u64 = 0x0000_0100_0000_01b3;

/// The FNV-1a hash of bytes.
pub open spec fn byte_hash(bytes: Seq<u8>) -> u64
    decreases bytes.len(),
{
    if bytes.len() == 0 {
        HASH_START
    } else {
        (byte_hash(bytes.drop_last()) ^ (bytes.last() as u64)).wrapping_mul(HASH_FACTOR)
    }
}

/// The hash of a text: sixteen hexadecimal digits.
pub open spec fn text_hash(text: Seq<char>) -> Seq<char> {
    hexadecimal(byte_hash(encode_utf8(text)) as nat, 16)
}

/// The hash by which a configuration, or any text, is told apart.
pub fn stable_config_hash(source: &str) -> (hash: String)
    ensures
        hash@ == text_hash(source@),
{
    let bytes = source.as_bytes();
    let mut hash: u64 = HASH_START;
    let mut index: usize = 0;
    assert(bytes@.take(0) =~= Seq::empty());
    while index < bytes.len()
        invariant
            index <= bytes@.len(),
            hash == byte_hash(bytes@.take(index as int)),
        decreases bytes@.len() - index,
    {
        assert(bytes@.take(index as int + 1).drop_last() =~= bytes@.take(index as int));
        hash = (hash ^ (bytes[index] as u64)).wrapping_mul(HASH_FACTOR);
        index += 1;
    }
    assert(bytes@.take(index as int) =~= bytes@);
    let mut text = String::new();
    push_hexadecimal(&mut text, hash as u128, 16);
    assert(text@ =~= text_hash(source@));
    text
}

/// The name of a pass, from the moment, the process and a running number.
pub open spec fn pass_name(nanoseconds: u128, process: u32, sequence: u64) -> Seq<char> {
    hexadecimal(nanoseconds as nat, 32) + "-"@ + hexadecimal(process as nat, 8) + "-"@
        + hexadecimal(sequence as nat, 16)
}

/// The name of a pass.
pub fn pass_id(nanoseconds: u128, process: u32, sequence: u64) -> (name: String)
    ensures
        name@ == pass_name(nanoseconds, process, sequence),
{
    let mut name = String::new();
    push_hexadecimal(&mut name, nanoseconds, 32);
    assert(name@ =~= hexadecimal(nanoseconds as nat, 32));
    name.append("-");
    push_hexadecimal(&mut name, process as u128, 8);
    name.append("-");
    push_hexadecimal(&mut name, sequence as u128, 16);
    name
}

} // verus!
