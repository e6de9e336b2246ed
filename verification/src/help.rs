//! The keyboard help.

use crate::keys::{key_symbol, meaning, symbols, Key, Pane, MIN_HEIGHT, MIN_WIDTH};
use crate::lines::{pad, padded};
use crate::text::{concat3, concat4, decimal, decimal_text, group_views, join, joined, views};
use vstd::prelude::*;
use vstd::string::*;

verus! {

/// One line of the help.
#[derive(Debug, PartialEq, Eq)]
pub struct HelpEntry {
    pub keys: Vec<Key>,
    pub description: &'static str,
}

/// What a line of the help says.
#[verifier::ext_equal]
pub struct HelpView {
    pub keys: Seq<Key>,
    pub description: Seq<char>,
}

impl View for HelpEntry {
    type V = HelpView;

    open spec fn view(&self) -> HelpView {
        HelpView { keys: self.keys@, description: self.description@ }
    }
}

pub open spec fn helped(keys: Seq<Key>, description: Seq<char>) -> HelpView {
    HelpView { keys, description }
}

/// Every key, with what it does.
pub open spec fn help_table() -> Seq<HelpView> {
    seq![
        helped(seq![Key::Char('1'), Key::Char('2'), Key::Char('3')], "Review, Keeping, Setup"@),
        helped(seq![Key::Up, Key::Down, Key::Char('j'), Key::Char('k')], "Move the selection"@),
        helped(seq![Key::PageUp, Key::PageDown], "Review, Keeping: jump ten rows"@),
        helped(seq![Key::PageUp, Key::PageDown], "Setup: scroll the preview pane"@),
        helped(seq![Key::Char(' ')], "Review, Keeping: protect or release this object"@),
        helped(seq![Key::Char(' ')], "Setup: use or drop this ownership candidate"@),
        helped(seq![Key::Char('P')], "Protect or release this object's whole label family"@),
        helped(seq![Key::Enter], "Open or close the details pane"@),
        helped(seq![Key::Char('/')], "Narrow the list by name, id, or rule"@),
        helped(seq![Key::Char('c')], "Approve a name prefix as ownership evidence"@),
        helped(seq![Key::Char('a')], "Review the exact removal set, then apply it"@),
        helped(seq![Key::Char('l')], "Open the activity log"@),
        helped(seq![Key::Char('r')], "Re-read configuration, state, and Docker"@),
        helped(seq![Key::Left, Key::Right], "Setup: change the policy profile"@),
        helped(seq![Key::Char('['), Key::Char(']')], "Setup: choose a policy value; e edits it"@),
        helped(seq![Key::Char('e')], "Setup: edit the chosen policy value"@),
        helped(seq![Key::Char('v')], "Setup: preview the proposed configuration"@),
        helped(seq![Key::Char('s')], "Setup: save a previewed proposal"@),
        helped(seq![Key::Char('?')], "Open this help; esc closes it"@),
        helped(seq![Key::Char('q')], "Quit"@),
    ]
}

fn entry(keys: Vec<Key>, description: &'static str) -> (line: HelpEntry)
    ensures
        line@ == helped(keys@, description@),
{
    HelpEntry { keys, description }
}

fn one(key: Key) -> (keys: Vec<Key>)
    ensures
        keys@ == seq![key],
{
    let mut keys: Vec<Key> = Vec::new();
    keys.push(key);
    assert(keys@ =~= seq![key]);
    keys
}

fn two(first: Key, second: Key) -> (keys: Vec<Key>)
    ensures
        keys@ == seq![first, second],
{
    let mut keys = one(first);
    keys.push(second);
    assert(keys@ =~= seq![first, second]);
    keys
}

/// Every key, with what it does.
pub fn help_entries() -> (entries: Vec<HelpEntry>)
    ensures
        views(entries@) == help_table(),
{
    let mut panes = two(Key::Char('1'), Key::Char('2'));
    panes.push(Key::Char('3'));
    assert(panes@ =~= seq![Key::Char('1'), Key::Char('2'), Key::Char('3')]);
    let mut moves = two(Key::Up, Key::Down);
    moves.push(Key::Char('j'));
    moves.push(Key::Char('k'));
    assert(moves@ =~= seq![Key::Up, Key::Down, Key::Char('j'), Key::Char('k')]);
    let mut entries: Vec<HelpEntry> = Vec::new();
    entries.push(entry(panes, "Review, Keeping, Setup"));
    entries.push(entry(moves, "Move the selection"));
    entries.push(entry(two(Key::PageUp, Key::PageDown), "Review, Keeping: jump ten rows"));
    entries.push(entry(two(Key::PageUp, Key::PageDown), "Setup: scroll the preview pane"));
    entries.push(entry(one(Key::Char(' ')), "Review, Keeping: protect or release this object"));
    entries.push(entry(one(Key::Char(' ')), "Setup: use or drop this ownership candidate"));
    entries.push(
        entry(one(Key::Char('P')), "Protect or release this object's whole label family"),
    );
    entries.push(entry(one(Key::Enter), "Open or close the details pane"));
    entries.push(entry(one(Key::Char('/')), "Narrow the list by name, id, or rule"));
    entries.push(entry(one(Key::Char('c')), "Approve a name prefix as ownership evidence"));
    entries.push(entry(one(Key::Char('a')), "Review the exact removal set, then apply it"));
    entries.push(entry(one(Key::Char('l')), "Open the activity log"));
    entries.push(entry(one(Key::Char('r')), "Re-read configuration, state, and Docker"));
    entries.push(entry(two(Key::Left, Key::Right), "Setup: change the policy profile"));
    entries.push(
        entry(two(Key::Char('['), Key::Char(']')), "Setup: choose a policy value; e edits it"),
    );
    entries.push(entry(one(Key::Char('e')), "Setup: edit the chosen policy value"));
    entries.push(entry(one(Key::Char('v')), "Setup: preview the proposed configuration"));
    entries.push(entry(one(Key::Char('s')), "Setup: save a previewed proposal"));
    entries.push(entry(one(Key::Char('?')), "Open this help; esc closes it"));
    entries.push(entry(one(Key::Char('q')), "Quit"));
    assert(views(entries@) =~= help_table());
    entries
}

/// Whether a line of the help names a key.
pub open spec fn explains(index: int, key: Key) -> bool {
    0 <= index < help_table().len() && help_table()[index].keys.contains(key)
}

/// The first line of the help that names a key.
pub open spec fn help_line(key: Key) -> int {
    match key {
        Key::Char('1') => 0,
        Key::Char('2') => 0,
        Key::Char('3') => 0,
        Key::Up => 1,
        Key::Down => 1,
        Key::Char('j') => 1,
        Key::Char('k') => 1,
        Key::PageUp => 2,
        Key::PageDown => 2,
        Key::Char(' ') => 4,
        Key::Char('P') => 6,
        Key::Enter => 7,
        Key::Char('/') => 8,
        Key::Char('c') => 9,
        Key::Char('a') => 10,
        Key::Char('l') => 11,
        Key::Char('r') => 12,
        Key::Left => 13,
        Key::Right => 13,
        Key::Char('[') => 14,
        Key::Char(']') => 14,
        Key::Char('e') => 15,
        Key::Char('v') => 16,
        Key::Char('s') => 17,
        Key::Char('?') => 18,
        _ => 19,
    }
}

/// The help names every key that means anything in any pane.
pub proof fn every_bound_key_is_in_the_help(pane: Pane, key: Key)
    requires
        meaning(pane, key) is Some,
    ensures
        exists|index: int| explains(index, key),
{
    let index = help_line(key);
    let keys = help_table()[index].keys;
    assert(explains(index, key)) by {
        if key == Key::Char('2') || key == Key::Down || key == Key::PageDown || key == Key::Right
            || key == Key::Char(']') {
            assert(keys[1] == key);
        } else if key == Key::Char('3') || key == Key::Char('j') {
            assert(keys[2] == key);
        } else if key == Key::Char('k') {
            assert(keys[3] == key);
        } else {
            assert(keys[0] == key);
        }
    }
}

/// A key that means one thing in one pane and another in another has a line of
/// the help for each.
pub proof fn every_meaning_has_a_line(first: Pane, second: Pane, key: Key)
    requires
        meaning(first, key) is Some,
        meaning(second, key) is Some,
        meaning(first, key) != meaning(second, key),
    ensures
        exists|one: int, other: int|
            one != other && explains(one, key) && #[trigger] explains(other, key)
                && #[trigger] explains(one, key),
{
    assert(key == Key::Char(' ') || key == Key::PageUp || key == Key::PageDown);
    if key == Key::Char(' ') {
        assert(help_table()[4].keys[0] == key);
        assert(help_table()[5].keys[0] == key);
        assert(explains(4, key) && explains(5, key));
    } else if key == Key::PageUp {
        assert(help_table()[2].keys[0] == key);
        assert(help_table()[3].keys[0] == key);
        assert(explains(2, key) && explains(3, key));
    } else {
        assert(help_table()[2].keys[1] == key);
        assert(help_table()[3].keys[1] == key);
        assert(explains(2, key) && explains(3, key));
    }
}

/// The keys of a line, by their names.
pub open spec fn keys_text(keys: Seq<Key>) -> Seq<char> {
    joined(symbols(keys), " "@)
}

/// Names the keys of a line of the help.
pub fn help_keys(line: &HelpEntry) -> (text: String)
    ensures
        text@ == keys_text(line@.keys),
{
    broadcast use group_views;

    let ghost wanted = symbols(line.keys@);
    let mut names: Vec<String> = Vec::new();
    let mut index: usize = 0;
    assert(views(names@) =~= wanted.take(0));
    while index < line.keys.len()
        invariant
            index <= line.keys@.len(),
            wanted == symbols(line.keys@),
            views(names@) == wanted.take(index as int),
        decreases line.keys@.len() - index,
    {
        let name = key_symbol(line.keys[index]);
        assert(wanted.take(index as int + 1) =~= wanted.take(index as int).push(name@));
        names.push(name);
        index += 1;
    }
    assert(wanted.take(index as int) =~= wanted);
    join(&names, " ")
}

/// The lines of the table.
pub open spec fn table_lines(table: Seq<HelpView>) -> Seq<Seq<char>> {
    table.map_values(
        |line: HelpView| padded(keys_text(line.keys), 10) + "  "@ + line.description,
    )
}

/// The help, line by line.
pub open spec fn help_text() -> Seq<Seq<char>> {
    seq!["docker_maid keyboard help"@, ""@] + table_lines(help_table()) + seq![
        ""@,
        "No key deletes one object. Apply can only execute the confirmed set."@,
    ]
}

/// The help, line by line.
pub fn help_lines() -> (lines: Vec<String>)
    ensures
        views(lines@) == help_text(),
        lines@.len() == help_table().len() + 4,
{
    broadcast use group_views;

    let entries = help_entries();
    let ghost wanted = table_lines(help_table());
    let ghost head = seq!["docker_maid keyboard help"@, ""@];
    let mut lines: Vec<String> = Vec::new();
    lines.push("docker_maid keyboard help".to_owned());
    lines.push("".to_owned());
    assert(views(lines@) =~= head + wanted.take(0));
    let mut index: usize = 0;
    while index < entries.len()
        invariant
            index <= entries@.len(),
            views(entries@) == help_table(),
            wanted == table_lines(help_table()),
            views(lines@) == head + wanted.take(index as int),
        decreases entries@.len() - index,
    {
        let keys = help_keys(&entries[index]);
        let line = concat3(pad(keys.as_str(), 10).as_str(), "  ", entries[index].description);
        assert(views(entries@)[index as int] == entries@[index as int]@);
        assert(line@ == wanted[index as int]);
        let ghost listed = views(lines@);
        lines.push(line);
        assert(views(lines@) == listed.push(line@));
        assert(views(lines@) =~= head + wanted.take(index as int + 1));
        index += 1;
    }
    assert(wanted.take(index as int) =~= wanted);
    lines.push("".to_owned());
    lines.push("No key deletes one object. Apply can only execute the confirmed set.".to_owned());
    assert(views(lines@) =~= help_text());
    lines
}

/// What is said in a terminal that is too small to draw into.
pub open spec fn too_small_text(width: u16, height: u16) -> Seq<Seq<char>> {
    seq![
        "docker_maid"@,
        ""@,
        "This terminal is too small."@,
        "Now:    "@ + decimal(width as nat) + " x "@ + decimal(height as nat),
        "Needed: "@ + decimal(MIN_WIDTH as nat) + " x "@ + decimal(MIN_HEIGHT as nat),
        ""@,
        "Make the window bigger, or press q to quit."@,
    ]
}

/// Says how small the terminal is, where it is too small to draw into.
pub fn too_small_lines(width: u16, height: u16) -> (lines: Option<Vec<String>>)
    ensures
        lines is Some <==> width < MIN_WIDTH || height < MIN_HEIGHT,
        lines matches Some(list) ==> views(list@) == too_small_text(width, height),
{
    if width >= MIN_WIDTH && height >= MIN_HEIGHT {
        return None;
    }
    let mut lines: Vec<String> = Vec::new();
    lines.push("docker_maid".to_owned());
    lines.push("".to_owned());
    lines.push("This terminal is too small.".to_owned());
    lines.push(
        concat4(
            "Now:    ",
            decimal_text(width as u64).as_str(),
            " x ",
            decimal_text(height as u64).as_str(),
        ),
    );
    lines.push(
        concat4(
            "Needed: ",
            decimal_text(MIN_WIDTH as u64).as_str(),
            " x ",
            decimal_text(MIN_HEIGHT as u64).as_str(),
        ),
    );
    lines.push("".to_owned());
    lines.push("Make the window bigger, or press q to quit.".to_owned());
    assert(views(lines@) =~= too_small_text(width, height));
    Some(lines)
}

} // verus!
