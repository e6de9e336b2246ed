//! What every key of the dashboard means, and what the footer says of it.
//!
//! The footer is made from the same tables that the meanings are held to, so
//! it cannot name a key that does nothing.

use crate::text::{char_count, concat3, group_views, join, joined, views};
use vstd::prelude::*;
use vstd::string::*;

verus! {

/// The narrowest terminal that is drawn into.
pub const MIN_WIDTH: u16 = 60;

/// The shortest terminal that is drawn into.
pub const MIN_HEIGHT: u16 = 20;

/// What the dashboard shows.
#[derive(Debug, Clone, Copy, PartialEq, Eq, Structural)]
pub enum Pane {
    /// What the policy would remove, and why.
    Review,
    /// What it keeps.
    Keeping,
    /// The guided configurator.
    Setup,
}

/// The name of a pane.
pub open spec fn pane_title(pane: Pane) -> Seq<char> {
    match pane {
        Pane::Review => "Review"@,
        Pane::Keeping => "Keeping"@,
        Pane::Setup => "Setup"@,
    }
}

/// The place of a pane in their order.
pub open spec fn pane_index(pane: Pane) -> int {
    match pane {
        Pane::Review => 0,
        Pane::Keeping => 1,
        Pane::Setup => 2,
    }
}

impl Pane {
    /// Every pane, in order.
    pub fn all() -> (panes: [Pane; 3])
        ensures
            panes@ == seq![Pane::Review, Pane::Keeping, Pane::Setup],
    {
        let panes = [Pane::Review, Pane::Keeping, Pane::Setup];
        assert(panes@ =~= seq![Pane::Review, Pane::Keeping, Pane::Setup]);
        panes
    }

    /// The place of the pane in their order.
    pub fn index(self) -> (place: usize)
        ensures
            place == pane_index(self),
    {
        match self {
            Pane::Review => 0,
            Pane::Keeping => 1,
            Pane::Setup => 2,
        }
    }

    /// The name of the pane.
    pub fn title(self) -> (words: &'static str)
        ensures
            words@ == pane_title(self),
    {
        match self {
            Pane::Review => "Review",
            Pane::Keeping => "Keeping",
            Pane::Setup => "Setup",
        }
    }
}

/// What lies over a pane.
#[derive(Debug, Clone, Copy, PartialEq, Eq, Structural)]
pub enum Overlay {
    /// Nothing does.
    Hidden,
    Help,
    Activity,
    Confirm,
    CacheConfirm,
    ConfigSave,
}

/// What is being typed.
#[derive(Debug, Clone, Copy, PartialEq, Eq, Structural)]
pub enum Editor {
    /// Nothing is.
    Closed,
    Filter,
    Prefix,
    Policy,
}

/// A key that the dashboard knows.
#[derive(Debug, Clone, Copy, PartialEq, Eq, Structural)]
pub enum Key {
    Char(char),
    Enter,
    Esc,
    Backspace,
    Up,
    Down,
    Left,
    Right,
    PageUp,
    PageDown,
}

/// A key as it was pressed.
#[derive(Debug, Clone, Copy, PartialEq, Eq, Structural)]
pub struct KeyPress {
    pub key: Key,
    /// Whether the control key was held.
    pub control: bool,
    /// Whether no key but shift was held.
    pub plain: bool,
}

/// What a key press means.
#[derive(Debug, Clone, Copy, PartialEq, Eq, Structural)]
pub enum Intent {
    Quit,
    Help,
    Show(Pane),
    ActivityLog,
    Move(isize),
    ScrollPreview(isize),
    ToggleDetail,
    StartFilter,
    Protect,
    ProtectFamily,
    NamePrefix,
    Apply,
    Refresh,
    CycleProfile(isize),
    CyclePolicyField(isize),
    EditPolicy,
    ToggleCandidate,
    PreviewProposal,
    SaveProposal,
}

/// What a key means in every pane.
pub open spec fn global_meaning(key: Key) -> Option<Intent> {
    match key {
        Key::Char('q') => Some(Intent::Quit),
        Key::Char('?') => Some(Intent::Help),
        Key::Char('1') => Some(Intent::Show(Pane::Review)),
        Key::Char('2') => Some(Intent::Show(Pane::Keeping)),
        Key::Char('3') => Some(Intent::Show(Pane::Setup)),
        Key::Char('l') => Some(Intent::ActivityLog),
        Key::Char('r') => Some(Intent::Refresh),
        Key::Down => Some(Intent::Move(1)),
        Key::Char('j') => Some(Intent::Move(1)),
        Key::Up => Some(Intent::Move(-1isize)),
        Key::Char('k') => Some(Intent::Move(-1isize)),
        _ => None,
    }
}

/// What a key means in a list of resources.
pub open spec fn list_meaning(key: Key) -> Option<Intent> {
    match key {
        Key::Char(' ') => Some(Intent::Protect),
        Key::Char('P') => Some(Intent::ProtectFamily),
        Key::Char('c') => Some(Intent::NamePrefix),
        Key::Enter => Some(Intent::ToggleDetail),
        Key::Char('/') => Some(Intent::StartFilter),
        Key::PageDown => Some(Intent::Move(10)),
        Key::PageUp => Some(Intent::Move(-10isize)),
        _ => None,
    }
}

/// What a key means in the configurator. Enter has no meaning here: it opens
/// the details in the other panes, and one key has one job.
pub open spec fn setup_meaning(key: Key) -> Option<Intent> {
    match key {
        Key::Char(' ') => Some(Intent::ToggleCandidate),
        Key::Left => Some(Intent::CycleProfile(-1isize)),
        Key::Right => Some(Intent::CycleProfile(1)),
        Key::Char('[') => Some(Intent::CyclePolicyField(-1isize)),
        Key::Char(']') => Some(Intent::CyclePolicyField(1)),
        Key::Char('e') => Some(Intent::EditPolicy),
        Key::Char('v') => Some(Intent::PreviewProposal),
        Key::Char('s') => Some(Intent::SaveProposal),
        Key::PageDown => Some(Intent::ScrollPreview(3)),
        Key::PageUp => Some(Intent::ScrollPreview(-3isize)),
        _ => None,
    }
}

/// What a key means in a pane.
pub open spec fn meaning(pane: Pane, key: Key) -> Option<Intent> {
    if global_meaning(key) is Some {
        global_meaning(key)
    } else {
        match pane {
            Pane::Review => if key == Key::Char('a') {
                Some(Intent::Apply)
            } else {
                list_meaning(key)
            },
            Pane::Keeping => list_meaning(key),
            Pane::Setup => setup_meaning(key),
        }
    }
}

fn global_intent(key: Key) -> (intent: Option<Intent>)
    ensures
        intent == global_meaning(key),
{
    match key {
        Key::Char('q') => Some(Intent::Quit),
        Key::Char('?') => Some(Intent::Help),
        Key::Char('1') => Some(Intent::Show(Pane::Review)),
        Key::Char('2') => Some(Intent::Show(Pane::Keeping)),
        Key::Char('3') => Some(Intent::Show(Pane::Setup)),
        Key::Char('l') => Some(Intent::ActivityLog),
        Key::Char('r') => Some(Intent::Refresh),
        Key::Down => Some(Intent::Move(1)),
        Key::Char('j') => Some(Intent::Move(1)),
        Key::Up => Some(Intent::Move(-1)),
        Key::Char('k') => Some(Intent::Move(-1)),
        _ => None,
    }
}

fn list_intent(key: Key) -> (intent: Option<Intent>)
    ensures
        intent == list_meaning(key),
{
    match key {
        Key::Char(' ') => Some(Intent::Protect),
        Key::Char('P') => Some(Intent::ProtectFamily),
        Key::Char('c') => Some(Intent::NamePrefix),
        Key::Enter => Some(Intent::ToggleDetail),
        Key::Char('/') => Some(Intent::StartFilter),
        Key::PageDown => Some(Intent::Move(10)),
        Key::PageUp => Some(Intent::Move(-10)),
        _ => None,
    }
}

/// What a key means in the configurator alone.
pub fn setup_intent(key: Key) -> (intent: Option<Intent>)
    ensures
        intent == setup_meaning(key),
{
    match key {
        Key::Char(' ') => Some(Intent::ToggleCandidate),
        Key::Left => Some(Intent::CycleProfile(-1)),
        Key::Right => Some(Intent::CycleProfile(1)),
        Key::Char('[') => Some(Intent::CyclePolicyField(-1)),
        Key::Char(']') => Some(Intent::CyclePolicyField(1)),
        Key::Char('e') => Some(Intent::EditPolicy),
        Key::Char('v') => Some(Intent::PreviewProposal),
        Key::Char('s') => Some(Intent::SaveProposal),
        Key::PageDown => Some(Intent::ScrollPreview(3)),
        Key::PageUp => Some(Intent::ScrollPreview(-3)),
        _ => None,
    }
}

/// What a key means in a pane, where it means anything.
pub fn intent_for(pane: Pane, key: Key) -> (intent: Option<Intent>)
    ensures
        intent == meaning(pane, key),
{
    let global = global_intent(key);
    if global.is_some() {
        return global;
    }
    match pane {
        Pane::Review => if key == Key::Char('a') {
            Some(Intent::Apply)
        } else {
            list_intent(key)
        },
        Pane::Keeping => list_intent(key),
        Pane::Setup => setup_intent(key),
    }
}

/// Whether a key press ends the dashboard wherever it stands.
pub fn is_global_quit(press: KeyPress) -> (quit: bool)
    ensures
        quit == (press.control && (press.key == Key::Char('c') || press.key == Key::Char('C'))),
{
    press.control && (press.key == Key::Char('c') || press.key == Key::Char('C'))
}

/// What a key is called on screen.
pub open spec fn symbol(key: Key) -> Seq<char> {
    match key {
        Key::Enter => "enter"@,
        Key::Esc => "esc"@,
        Key::Backspace => "backspace"@,
        Key::Up => "\u{2191}"@,
        Key::Down => "\u{2193}"@,
        Key::Left => "\u{2190}"@,
        Key::Right => "\u{2192}"@,
        Key::PageUp => "pgup"@,
        Key::PageDown => "pgdn"@,
        Key::Char(character) => if character == ' ' {
            "space"@
        } else {
            seq![character]
        },
    }
}

/// What a key is called on screen.
pub fn key_symbol(key: Key) -> (name: String)
    ensures
        name@ == symbol(key),
{
    match key {
        Key::Enter => "enter".to_owned(),
        Key::Esc => "esc".to_owned(),
        Key::Backspace => "backspace".to_owned(),
        Key::Up => "\u{2191}".to_owned(),
        Key::Down => "\u{2193}".to_owned(),
        Key::Left => "\u{2190}".to_owned(),
        Key::Right => "\u{2192}".to_owned(),
        Key::PageUp => "pgup".to_owned(),
        Key::PageDown => "pgdn".to_owned(),
        Key::Char(character) => if character == ' ' {
            "space".to_owned()
        } else {
            let mut name = String::new();
            name.push(character);
            assert(name@ =~= seq![character]);
            name
        },
    }
}

/// One entry of the footer.
#[derive(Debug, PartialEq, Eq)]
pub struct KeyHint {
    pub label: &'static str,
    pub keys: Vec<Key>,
}

/// What an entry of the footer says.
#[verifier::ext_equal]
pub struct KeyHintView {
    pub label: Seq<char>,
    pub keys: Seq<Key>,
}

impl View for KeyHint {
    type V = KeyHintView;

    open spec fn view(&self) -> KeyHintView {
        KeyHintView { label: self.label@, keys: self.keys@ }
    }
}

pub open spec fn one_key(label: Seq<char>, key: Key) -> KeyHintView {
    KeyHintView { label, keys: seq![key] }
}

pub open spec fn two_keys(label: Seq<char>, first: Key, second: Key) -> KeyHintView {
    KeyHintView { label, keys: seq![first, second] }
}

fn hint(label: &'static str, key: Key) -> (entry: KeyHint)
    ensures
        entry@ == one_key(label@, key),
{
    let mut keys: Vec<Key> = Vec::new();
    keys.push(key);
    assert(keys@ =~= seq![key]);
    KeyHint { label, keys }
}

fn pair_hint(label: &'static str, first: Key, second: Key) -> (entry: KeyHint)
    ensures
        entry@ == two_keys(label@, first, second),
{
    let mut keys: Vec<Key> = Vec::new();
    keys.push(first);
    keys.push(second);
    assert(keys@ =~= seq![first, second]);
    KeyHint { label, keys }
}

pub open spec fn review_table() -> Seq<KeyHintView> {
    seq![
        one_key("protect"@, Key::Char(' ')),
        one_key("apply"@, Key::Char('a')),
        one_key("details"@, Key::Enter),
        one_key("filter"@, Key::Char('/')),
        one_key("keeping"@, Key::Char('2')),
        one_key("log"@, Key::Char('l')),
        one_key("refresh"@, Key::Char('r')),
        one_key("help"@, Key::Char('?')),
        one_key("quit"@, Key::Char('q')),
    ]
}

pub open spec fn keeping_table() -> Seq<KeyHintView> {
    seq![
        one_key("protect"@, Key::Char(' ')),
        one_key("protect family"@, Key::Char('P')),
        one_key("details"@, Key::Enter),
        one_key("filter"@, Key::Char('/')),
        one_key("review"@, Key::Char('1')),
        one_key("log"@, Key::Char('l')),
        one_key("help"@, Key::Char('?')),
        one_key("quit"@, Key::Char('q')),
    ]
}

pub open spec fn setup_table() -> Seq<KeyHintView> {
    seq![
        one_key("use this"@, Key::Char(' ')),
        two_keys("profile"@, Key::Left, Key::Right),
        two_keys("field"@, Key::Char('['), Key::Char(']')),
        one_key("edit"@, Key::Char('e')),
        one_key("preview"@, Key::Char('v')),
        one_key("save"@, Key::Char('s')),
        one_key("help"@, Key::Char('?')),
        one_key("quit"@, Key::Char('q')),
    ]
}

pub open spec fn editor_table() -> Seq<KeyHintView> {
    seq![one_key("save"@, Key::Enter), one_key("cancel"@, Key::Esc)]
}

pub open spec fn scroll_table() -> Seq<KeyHintView> {
    seq![two_keys("scroll"@, Key::Up, Key::Down), one_key("close"@, Key::Esc)]
}

pub open spec fn confirm_table() -> Seq<KeyHintView> {
    seq![
        one_key("apply"@, Key::Enter),
        two_keys("scroll"@, Key::Up, Key::Down),
        one_key("cancel"@, Key::Esc),
    ]
}

pub open spec fn yes_no_table() -> Seq<KeyHintView> {
    seq![two_keys("yes"@, Key::Char('y'), Key::Enter), one_key("cancel"@, Key::Esc)]
}

/// The table of keys for what is on screen.
pub open spec fn key_table(pane: Pane, editor: Editor, overlay: Overlay) -> Seq<KeyHintView> {
    if editor != Editor::Closed {
        editor_table()
    } else {
        match overlay {
            Overlay::Help => scroll_table(),
            Overlay::Activity => scroll_table(),
            Overlay::Confirm => confirm_table(),
            Overlay::CacheConfirm => yes_no_table(),
            Overlay::ConfigSave => yes_no_table(),
            Overlay::Hidden => match pane {
                Pane::Review => review_table(),
                Pane::Keeping => keeping_table(),
                Pane::Setup => setup_table(),
            },
        }
    }
}

fn review_hints() -> (table: Vec<KeyHint>)
    ensures
        views(table@) == review_table(),
{
    let mut table: Vec<KeyHint> = Vec::new();
    table.push(hint("protect", Key::Char(' ')));
    table.push(hint("apply", Key::Char('a')));
    table.push(hint("details", Key::Enter));
    table.push(hint("filter", Key::Char('/')));
    table.push(hint("keeping", Key::Char('2')));
    table.push(hint("log", Key::Char('l')));
    table.push(hint("refresh", Key::Char('r')));
    table.push(hint("help", Key::Char('?')));
    table.push(hint("quit", Key::Char('q')));
    assert(views(table@) =~= review_table());
    table
}

fn keeping_hints() -> (table: Vec<KeyHint>)
    ensures
        views(table@) == keeping_table(),
{
    let mut table: Vec<KeyHint> = Vec::new();
    table.push(hint("protect", Key::Char(' ')));
    table.push(hint("protect family", Key::Char('P')));
    table.push(hint("details", Key::Enter));
    table.push(hint("filter", Key::Char('/')));
    table.push(hint("review", Key::Char('1')));
    table.push(hint("log", Key::Char('l')));
    table.push(hint("help", Key::Char('?')));
    table.push(hint("quit", Key::Char('q')));
    assert(views(table@) =~= keeping_table());
    table
}

fn setup_hints() -> (table: Vec<KeyHint>)
    ensures
        views(table@) == setup_table(),
{
    let mut table: Vec<KeyHint> = Vec::new();
    table.push(hint("use this", Key::Char(' ')));
    table.push(pair_hint("profile", Key::Left, Key::Right));
    table.push(pair_hint("field", Key::Char('['), Key::Char(']')));
    table.push(hint("edit", Key::Char('e')));
    table.push(hint("preview", Key::Char('v')));
    table.push(hint("save", Key::Char('s')));
    table.push(hint("help", Key::Char('?')));
    table.push(hint("quit", Key::Char('q')));
    assert(views(table@) =~= setup_table());
    table
}

/// The table of keys for what is on screen.
pub fn hints_for(pane: Pane, editor: Editor, overlay: Overlay) -> (table: Vec<KeyHint>)
    ensures
        views(table@) == key_table(pane, editor, overlay),
{
    let mut table: Vec<KeyHint> = Vec::new();
    if editor != Editor::Closed {
        table.push(hint("save", Key::Enter));
        table.push(hint("cancel", Key::Esc));
        assert(views(table@) =~= editor_table());
        return table;
    }
    match overlay {
        Overlay::Help | Overlay::Activity => {
            table.push(pair_hint("scroll", Key::Up, Key::Down));
            table.push(hint("close", Key::Esc));
            assert(views(table@) =~= scroll_table());
        },
        Overlay::Confirm => {
            table.push(hint("apply", Key::Enter));
            table.push(pair_hint("scroll", Key::Up, Key::Down));
            table.push(hint("cancel", Key::Esc));
            assert(views(table@) =~= confirm_table());
        },
        Overlay::CacheConfirm | Overlay::ConfigSave => {
            table.push(pair_hint("yes", Key::Char('y'), Key::Enter));
            table.push(hint("cancel", Key::Esc));
            assert(views(table@) =~= yes_no_table());
        },
        Overlay::Hidden => {
            return match pane {
                Pane::Review => review_hints(),
                Pane::Keeping => keeping_hints(),
                Pane::Setup => setup_hints(),
            };
        },
    }
    table
}

/// Every key that a pane's footer names means something in that pane.
pub proof fn every_advertised_key_means_something(pane: Pane, entry: int, key: int)
    requires
        0 <= entry < key_table(pane, Editor::Closed, Overlay::Hidden).len(),
        0 <= key < key_table(pane, Editor::Closed, Overlay::Hidden)[entry].keys.len(),
    ensures
        meaning(pane, key_table(pane, Editor::Closed, Overlay::Hidden)[entry].keys[key]) is Some,
{
    let table = key_table(pane, Editor::Closed, Overlay::Hidden);
    if entry == 0 {
    } else if entry == 1 {
    } else if entry == 2 {
    } else if entry == 3 {
    } else if entry == 4 {
    } else if entry == 5 {
    } else if entry == 6 {
    } else if entry == 7 {
    } else {
        assert(entry == 8);
    }
}

/// The keys `q` and `r` quit and refresh in every pane.
pub proof fn quit_and_refresh_work_everywhere(pane: Pane)
    ensures
        meaning(pane, Key::Char('q')) == Some(Intent::Quit),
        meaning(pane, Key::Char('r')) == Some(Intent::Refresh),
{
}

/// The names of keys.
pub open spec fn symbols(keys: Seq<Key>) -> Seq<Seq<char>> {
    keys.map_values(|key: Key| symbol(key))
}

/// What the footer prints for one entry.
pub open spec fn hint_line(entry: KeyHintView) -> Seq<char> {
    joined(symbols(entry.keys), "/"@) + " "@ + entry.label
}

/// What the footer prints for one entry.
pub fn hint_text(entry: &KeyHint) -> (text: String)
    ensures
        text@ == hint_line(entry@),
{
    broadcast use group_views;

    let mut names: Vec<String> = Vec::new();
    let ghost wanted = symbols(entry.keys@);
    let mut index: usize = 0;
    assert(views(names@) =~= wanted.take(0));
    while index < entry.keys.len()
        invariant
            index <= entry.keys@.len(),
            wanted == symbols(entry.keys@),
            views(names@) == wanted.take(index as int),
        decreases entry.keys@.len() - index,
    {
        let name = key_symbol(entry.keys[index]);
        assert(wanted.take(index as int + 1) =~= wanted.take(index as int).push(name@));
        names.push(name);
        index += 1;
    }
    assert(wanted.take(index as int) =~= wanted);
    concat3(join(&names, "/").as_str(), " ", entry.label)
}

/// The text of every entry.
pub open spec fn hint_pieces(table: Seq<KeyHintView>) -> Seq<Seq<char>> {
    table.map_values(|entry: KeyHintView| hint_line(entry))
}

/// What stands between two entries on one line.
pub const HINT_GAP: &'static str = " \u{b7} ";

/// Pieces packed into lines: a piece joins the line before it where both fit
/// into the width, else it starts a line of its own.
pub open spec fn packed(list: Seq<Seq<char>>, width: nat) -> Seq<Seq<char>>
    decreases list.len(),
{
    if list.len() == 0 {
        Seq::empty()
    } else {
        let before = packed(list.drop_last(), width);
        let piece = list.last();
        if before.len() > 0 && before.last().len() + HINT_GAP@.len() + piece.len() <= width {
            before.update(before.len() - 1, before.last() + HINT_GAP@ + piece)
        } else {
            before.push(piece)
        }
    }
}

/// Packs a table of keys into lines, so that no key stands off the edge.
pub fn hint_lines(hints: &Vec<KeyHint>, width: u16) -> (lines: Vec<String>)
    ensures
        views(lines@) == packed(
            hint_pieces(views(hints@)),
            if width == 0 {
                1
            } else {
                width as nat
            },
        ),
{
    broadcast use group_views;

    proof {
        reveal_strlit(" \u{b7} ");
    }
    let limit: usize = if width == 0 {
        1
    } else {
        width as usize
    };
    let ghost all = hint_pieces(views(hints@));
    let mut lines: Vec<String> = Vec::new();
    let mut index: usize = 0;
    assert(views(lines@) =~= packed(all.take(0), limit as nat));
    while index < hints.len()
        invariant
            index <= hints@.len(),
            limit >= 1,
            limit <= 65535,
            HINT_GAP@.len() == 3,
            all == hint_pieces(views(hints@)),
            views(lines@) == packed(all.take(index as int), limit as nat),
        decreases hints@.len() - index,
    {
        let piece = hint_text(&hints[index]);
        let length: usize = char_count(piece.as_str());
        let ghost before = views(lines@);
        proof {
            assert(all[index as int] == piece@);
            assert(all.take(index as int + 1).drop_last() =~= all.take(index as int));
            assert(all.take(index as int + 1).last() == piece@);
        }
        let count: usize = lines.len();
        let mut fits = false;
        if count > 0 {
            let held: usize = char_count(lines[count - 1].as_str());
            assert(held == before.last().len());
            fits = held <= limit && length <= limit && held + 3 + length <= limit;
        }
        if fits {
            let longer = concat3(lines[count - 1].as_str(), HINT_GAP, piece.as_str());
            lines.set(count - 1, longer);
            assert(views(lines@) =~= before.update(before.len() - 1, longer@));
        } else {
            lines.push(piece);
        }
        index += 1;
    }
    assert(all.take(index as int) =~= all);
    lines
}

/// No packed line is wider than the terminal, unless a single entry is.
pub proof fn packed_lines_fit(list: Seq<Seq<char>>, width: nat, line: int)
    requires
        0 <= line < packed(list, width).len(),
    ensures
        packed(list, width)[line].len() <= width || list.contains(packed(list, width)[line]),
    decreases list.len(),
{
    if list.len() > 0 {
        let rest = list.drop_last();
        let before = packed(rest, width);
        let all = packed(list, width);
        if line < before.len() && all[line] == before[line] {
            packed_lines_fit(rest, width, line);
            if rest.contains(before[line]) {
                let i = choose|i: int| 0 <= i < rest.len() && rest[i] == before[line];
                assert(list[i] == before[line]);
            }
        } else if line == before.len() {
            assert(list[list.len() - 1] == all[line]);
        }
    }
}

} // verus!
