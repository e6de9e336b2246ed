//! Runtime protection: typed entries that keep a resource whatever the rules
//! say, and where durable state is kept.

use crate::order::{
    lemma_text_le_transitive, lemma_text_lt_irreflexive, lemma_text_lt_total,
    lemma_text_lt_transitive, precedes, sort, text_lt, Ordered, Ranked,
};
use crate::outside::{quote, quoted, regex_error, regex_fault, regex_is_match, regex_matches};
use crate::resource::{InventoryItem, ItemView, ResourceKind};
use crate::text::{
    blank, chars_of, concat2, concat3, concat4, contains_item, decimal, decimal_text, group_views, is_blank,
    is_empty_text,    opt_view, text_eq, views,
};
use crate::unique::{dedup, lemma_ordered_once, lemma_ordered_once_grows, lemma_ordered_once_unique, ordered_once, Same};
use vstd::prelude::*;
use vstd::string::*;

verus! {

/// The version of the protection file that this library reads and writes.
pub const SCHEMA_VERSION: u32 = 1;

/// Why durable state cannot be used.
#[derive(Debug, PartialEq, Eq)]
pub enum StateError {
    /// Neither state base is set in the environment.
    Environment,
    /// A path cannot be read or written.
    Io { path: String, message: String },
    /// A file does not hold a state.
    Parse { path: String, message: String },
    /// A state cannot be written down.
    Serialize(String),
    /// A state or a request breaks a rule.
    Invalid(String),
}

/// The words of a state error.
pub open spec fn state_error_text(error: StateError) -> Seq<char> {
    match error {
        StateError::Environment => "cannot locate state directory: set XDG_STATE_HOME or HOME"@,
        StateError::Io { path, message } => "cannot access state path "@ + path@ + ": "@ + message@,
        StateError::Parse { path, message } => "invalid protection state "@ + path@ + ": "@
            + message@,
        StateError::Serialize(message) => "cannot serialize protection state: "@ + message@,
        StateError::Invalid(message) => message@,
    }
}

impl StateError {
    /// The words of this error.
    pub fn message(&self) -> (words: String)
        ensures
            words@ == state_error_text(*self),
    {
        match self {
            StateError::Environment => {
                "cannot locate state directory: set XDG_STATE_HOME or HOME".to_owned()
            },
            StateError::Io { path, message } => concat4(
                "cannot access state path ",
                path.as_str(),
                ": ",
                message.as_str(),
            ),
            StateError::Parse { path, message } => concat4(
                "invalid protection state ",
                path.as_str(),
                ": ",
                message.as_str(),
            ),
            StateError::Serialize(message) => {
                let mut words = "cannot serialize protection state: ".to_owned();
                words.append(message.as_str());
                words
            },
            StateError::Invalid(message) => message.clone(),
        }
    }
}

/// What a protection entry speaks of: one kind of resource, or every resource
/// that carries a label.
#[derive(Debug, Clone, Copy, PartialEq, Eq, PartialOrd, Ord, Structural)]
pub enum ProtectionKind {
    Container,
    Volume,
    Image,
    Network,
    Label,
}

/// The word for a kind of protection.
pub open spec fn protection_text(kind: ProtectionKind) -> Seq<char> {
    match kind {
        ProtectionKind::Container => "container"@,
        ProtectionKind::Volume => "volume"@,
        ProtectionKind::Image => "image"@,
        ProtectionKind::Network => "network"@,
        ProtectionKind::Label => "label"@,
    }
}

/// The place of a kind of protection in their order.
pub open spec fn protection_rank(kind: ProtectionKind) -> int {
    match kind {
        ProtectionKind::Container => 0,
        ProtectionKind::Volume => 1,
        ProtectionKind::Image => 2,
        ProtectionKind::Network => 3,
        ProtectionKind::Label => 4,
    }
}

impl ProtectionKind {
    /// The word for this kind of protection.
    pub fn as_text(self) -> (word: &'static str)
        ensures
            word@ == protection_text(self),
    {
        match self {
            ProtectionKind::Container => "container",
            ProtectionKind::Volume => "volume",
            ProtectionKind::Image => "image",
            ProtectionKind::Network => "network",
            ProtectionKind::Label => "label",
        }
    }

    fn rank(self) -> (place: u8)
        ensures
            place == protection_rank(self),
    {
        match self {
            ProtectionKind::Container => 0,
            ProtectionKind::Volume => 1,
            ProtectionKind::Image => 2,
            ProtectionKind::Network => 3,
            ProtectionKind::Label => 4,
        }
    }
}

/// One typed protection.
#[derive(Debug, PartialEq, Eq, PartialOrd, Ord)]
pub struct ProtectionEntry {
    pub kind: ProtectionKind,
    pub value: String,
}

/// What a protection entry says.
pub struct ProtectionEntryView {
    pub kind: ProtectionKind,
    pub value: Seq<char>,
}

impl View for ProtectionEntry {
    type V = ProtectionEntryView;

    open spec fn view(&self) -> ProtectionEntryView {
        ProtectionEntryView { kind: self.kind, value: self.value@ }
    }
}

impl Clone for ProtectionEntry {
    fn clone(&self) -> (copy: Self)
        ensures
            copy@ == self@,
    {
        ProtectionEntry { kind: self.kind, value: self.value.clone() }
    }
}

impl Ranked for ProtectionEntry {
    /// By kind, then by value.
    open spec fn ranks(left: ProtectionEntryView, right: ProtectionEntryView) -> bool {
        ||| protection_rank(left.kind) < protection_rank(right.kind)
        ||| left.kind == right.kind && !text_lt(right.value, left.value)
    }

    proof fn ranks_total(left: ProtectionEntryView, right: ProtectionEntryView) {
        if text_lt(right.value, left.value) && text_lt(left.value, right.value) {
            lemma_text_lt_transitive(left.value, right.value, left.value);
            lemma_text_lt_irreflexive(left.value);
        }
    }

    proof fn ranks_transitive(
        a: ProtectionEntryView,
        b: ProtectionEntryView,
        c: ProtectionEntryView,
    ) {
        if a.kind == b.kind && b.kind == c.kind {
            lemma_text_le_transitive(a.value, b.value, c.value);
        }
    }

    fn in_order(&self, other: &Self) -> (held: bool) {
        let left: u8 = self.kind.rank();
        let right: u8 = other.kind.rank();
        left < right || (left == right && !precedes(other.value.as_str(), self.value.as_str()))
    }
}

impl Ordered for ProtectionEntry {
    proof fn ranks_antisymmetric(left: ProtectionEntryView, right: ProtectionEntryView) {
        lemma_text_lt_total(left.value, right.value);
    }
}

impl Same for ProtectionEntry {
    fn same(&self, other: &Self) -> (held: bool) {
        self.kind == other.kind && text_eq(self.value.as_str(), other.value.as_str())
    }
}

/// Runtime protection as it is stored.
#[derive(Debug, PartialEq, Eq)]
pub struct ProtectionState {
    pub schema_version: u32,
    pub entries: Vec<ProtectionEntry>,
}

/// What a protection state says.
#[verifier::ext_equal]
pub struct ProtectionStateView {
    pub schema_version: u32,
    pub entries: Seq<ProtectionEntryView>,
}

impl View for ProtectionState {
    type V = ProtectionStateView;

    open spec fn view(&self) -> ProtectionStateView {
        ProtectionStateView { schema_version: self.schema_version, entries: views(self.entries@) }
    }
}

/// Whether some label of an item, written `key=value`, is `pair`.
pub open spec fn carries_pair(labels: Seq<(Seq<char>, Seq<char>)>, pair: Seq<char>) -> bool {
    exists|i: int|
        0 <= i < labels.len() && (#[trigger] labels[i]).0 + "="@ + labels[i].1 == pair
}

/// Whether some name of an item matches a pattern.
pub open spec fn name_matches(names: Seq<Seq<char>>, pattern: Seq<char>) -> bool {
    exists|i: int| 0 <= i < names.len() && regex_matches(pattern, #[trigger] names[i])
}

/// Whether a kind of protection speaks of a kind of resource.
pub open spec fn same_kind(protection: ProtectionKind, resource: ResourceKind) -> bool {
    match protection {
        ProtectionKind::Container => resource == ResourceKind::Container,
        ProtectionKind::Volume => resource == ResourceKind::Volume,
        ProtectionKind::Image => resource == ResourceKind::Image,
        ProtectionKind::Network => resource == ResourceKind::Network,
        ProtectionKind::Label => false,
    }
}

/// Whether an entry protects an item: by a label it carries, by its id or one
/// of its names, or, for containers, by a pattern that one of its names matches.
pub open spec fn protects(entry: ProtectionEntryView, item: ItemView) -> bool {
    if entry.kind == ProtectionKind::Label {
        carries_pair(item.labels, entry.value)
    } else {
        &&& same_kind(entry.kind, item.kind)
        &&& {
            ||| item.id == entry.value
            ||| item.name == entry.value
            ||| item.search_names.contains(entry.value)
            ||| entry.kind == ProtectionKind::Container && (regex_matches(entry.value, item.name)
                || name_matches(item.search_names, entry.value))
        }
    }
}

/// The first entry that protects an item.
pub open spec fn protecting_entry(
    entries: Seq<ProtectionEntryView>,
    item: ItemView,
) -> Option<ProtectionEntryView>
    decreases entries.len(),
{
    if entries.len() == 0 {
        None
    } else if protects(entries[0], item) {
        Some(entries[0])
    } else {
        protecting_entry(entries.drop_first(), item)
    }
}

/// Why a runtime entry keeps an item.
pub open spec fn protection_reason(
    entries: Seq<ProtectionEntryView>,
    item: ItemView,
) -> Option<Seq<char>> {
    match protecting_entry(entries, item) {
        Some(entry) => Some(
            "matched runtime protection "@ + protection_text(entry.kind) + " "@ + entry.value,
        ),
        None => None,
    }
}

fn carries(item: &InventoryItem, pair: &str) -> (found: bool)
    ensures
        found == carries_pair(item@.labels, pair@),
{
    let mut index: usize = 0;
    while index < item.labels.len()
        invariant
            index <= item.labels@.len(),
            forall|i: int|
                0 <= i < index ==> (#[trigger] item.labels@[i]).0 + "="@ + item.labels@[i].1
                    != pair@,
        decreases item.labels@.len() - index,
    {
        let shown = concat3(
            item.labels.key_at(index).as_str(),
            "=",
            item.labels.value_at(index).as_str(),
        );
        if text_eq(shown.as_str(), pair) {
            assert(item@.labels[index as int].0 + "="@ + item@.labels[index as int].1 == pair@);
            return true;
        }
        index += 1;
    }
    false
}

fn any_name_matches(names: &Vec<String>, pattern: &str) -> (found: bool)
    ensures
        found == name_matches(views(names@), pattern@),
{
    broadcast use group_views;

    let mut index: usize = 0;
    while index < names.len()
        invariant
            index <= names@.len(),
            forall|i: int|
                0 <= i < index ==> !regex_matches(pattern@, #[trigger] views(names@)[i]),
        decreases names@.len() - index,
    {
        if regex_is_match(pattern, names[index].as_str()) {
            assert(regex_matches(pattern@, views(names@)[index as int]));
            return true;
        }
        index += 1;
    }
    false
}

fn entry_matches(entry: &ProtectionEntry, item: &InventoryItem) -> (held: bool)
    ensures
        held == protects(entry@, item@),
{
    let kind_matches = match (entry.kind, item.kind) {
        (ProtectionKind::Label, _) => {
            return carries(item, entry.value.as_str());
        },
        (ProtectionKind::Container, ResourceKind::Container) => true,
        (ProtectionKind::Volume, ResourceKind::Volume) => true,
        (ProtectionKind::Image, ResourceKind::Image) => true,
        (ProtectionKind::Network, ResourceKind::Network) => true,
        _ => false,
    };
    if !kind_matches {
        return false;
    }
    if text_eq(item.id.as_str(), entry.value.as_str()) || text_eq(
        item.name.as_str(),
        entry.value.as_str(),
    ) || contains_item(&item.search_names, entry.value.as_str()) {
        return true;
    }
    entry.kind == ProtectionKind::Container && (regex_is_match(
        entry.value.as_str(),
        item.name.as_str(),
    ) || any_name_matches(&item.search_names, entry.value.as_str()))
}

impl Default for ProtectionState {
    fn default() -> (state: Self)
        ensures
            state@ == empty_protection(),
    {
        ProtectionState::empty()
    }
}

/// The state without entries.
pub open spec fn empty_protection() -> ProtectionStateView {
    ProtectionStateView { schema_version: SCHEMA_VERSION, entries: Seq::empty() }
}

impl ProtectionState {
    /// A protection set with no entries.
    pub fn empty() -> (state: Self)
        ensures
            state@ == empty_protection(),
    {
        let entries: Vec<ProtectionEntry> = Vec::new();
        assert(views(entries@) =~= Seq::<ProtectionEntryView>::empty());
        ProtectionState { schema_version: SCHEMA_VERSION, entries }
    }

    /// Why this state keeps an item, where it does.
    pub fn match_reason(&self, item: &InventoryItem) -> (reason: Option<String>)
        ensures
            opt_view(reason) == protection_reason(self@.entries, item@),
    {
        match self.matching_entry(item) {
            Some(entry) => Some(
                concat4(
                    "matched runtime protection ",
                    entry.kind.as_text(),
                    " ",
                    entry.value.as_str(),
                ),
            ),
            None => None,
        }
    }

    /// The first entry that protects an item.
    pub fn matching_entry(&self, item: &InventoryItem) -> (found: Option<&ProtectionEntry>)
        ensures
            match found {
                Some(entry) => protecting_entry(self@.entries, item@) == Some(entry@),
                None => protecting_entry(self@.entries, item@) is None,
            },
    {
        broadcast use group_views;

        let ghost all = views(self.entries@);
        let mut index: usize = 0;
        assert(all.skip(0) =~= all);
        while index < self.entries.len()
            invariant
                index <= self.entries@.len(),
                all == views(self.entries@),
                protecting_entry(all, item@) == protecting_entry(all.skip(index as int), item@),
            decreases self.entries@.len() - index,
        {
            assert(all.skip(index as int)[0] == self.entries@[index as int]@);
            if entry_matches(&self.entries[index], item) {
                return Some(&self.entries[index]);
            }
            assert(all.skip(index as int).drop_first() =~= all.skip(index as int + 1));
            index += 1;
        }
        None
    }

    /// A copy of the state.
    pub fn copied(&self) -> (copy: Self)
        ensures
            copy@ == self@,
    {
        ProtectionState {
            schema_version: self.schema_version,
            entries: clone_entries(&self.entries),
        }
    }
}

fn clone_entries(entries: &Vec<ProtectionEntry>) -> (copy: Vec<ProtectionEntry>)
    ensures
        views(copy@) == views(entries@),
{
    broadcast use group_views;

    let mut copy: Vec<ProtectionEntry> = Vec::new();
    let mut index: usize = 0;
    assert(views(copy@) =~= views(entries@).take(0));
    while index < entries.len()
        invariant
            index <= entries@.len(),
            views(copy@) == views(entries@).take(index as int),
        decreases entries@.len() - index,
    {
        assert(views(entries@).take(index as int + 1) =~= views(entries@).take(index as int).push(
            entries@[index as int]@,
        ));
        copy.push(entries[index].clone());
        index += 1;
    }
    assert(views(entries@).take(index as int) =~= views(entries@));
    copy
}

/// Why a value cannot be protected under a kind.
pub open spec fn value_fault(kind: ProtectionKind, value: Seq<char>) -> Option<Seq<char>> {
    if is_blank(value) {
        Some("protection values must not be blank"@)
    } else if kind == ProtectionKind::Container && regex_fault(value) is Some {
        Some(
            "container protection value "@ + quoted(value) + " is not a valid ID/name regex: "@
                + regex_fault(value).unwrap(),
        )
    } else {
        None
    }
}

/// The first fault among values to be protected.
pub open spec fn first_value_fault(kind: ProtectionKind, values: Seq<Seq<char>>) -> Option<
    Seq<char>,
>
    decreases values.len(),
{
    if values.len() == 0 {
        None
    } else if value_fault(kind, values[0]) is Some {
        value_fault(kind, values[0])
    } else {
        first_value_fault(kind, values.drop_first())
    }
}

/// Why a request to protect or release values is refused.
pub open spec fn request_fault(kind: ProtectionKind, values: Seq<Seq<char>>) -> Option<Seq<char>> {
    if values.len() == 0 {
        Some("at least one protection value is required"@)
    } else {
        first_value_fault(kind, values)
    }
}

fn check_value(kind: ProtectionKind, value: &str) -> (fault: Option<String>)
    ensures
        opt_view(fault) == value_fault(kind, value@),
{
    if blank(value) {
        return Some("protection values must not be blank".to_owned());
    }
    if kind == ProtectionKind::Container {
        match regex_error(value) {
            Some(message) => {
                return Some(
                    concat4(
                        "container protection value ",
                        quote(value).as_str(),
                        " is not a valid ID/name regex: ",
                        message.as_str(),
                    ),
                );
            },
            None => {},
        }
    }
    None
}

/// Checks a request to protect or release values.
pub fn validate_values(kind: ProtectionKind, values: &Vec<String>) -> (outcome: Result<
    (),
    StateError,
>)
    ensures
        match outcome {
            Ok(_) => request_fault(kind, views(values@)) is None,
            Err(StateError::Invalid(message)) => request_fault(kind, views(values@)) == Some(
                message@,
            ),
            Err(_) => false,
        },
{
    broadcast use group_views;

    if values.len() == 0 {
        return Err(StateError::Invalid("at least one protection value is required".to_owned()));
    }
    let ghost all = views(values@);
    let mut index: usize = 0;
    assert(all.skip(0) =~= all);
    while index < values.len()
        invariant
            index <= values@.len(),
            all == views(values@),
            all.len() > 0,
            first_value_fault(kind, all) == first_value_fault(kind, all.skip(index as int)),
        decreases values@.len() - index,
    {
        assert(all.skip(index as int)[0] == values@[index as int]@);
        match check_value(kind, values[index].as_str()) {
            Some(message) => {
                return Err(StateError::Invalid(message));
            },
            None => {},
        }
        assert(all.skip(index as int).drop_first() =~= all.skip(index as int + 1));
        index += 1;
    }
    Ok(())
}

/// Entries in order and without repetition.
pub open spec fn tidy(entries: Seq<ProtectionEntryView>) -> Seq<ProtectionEntryView> {
    ordered_once::<ProtectionEntry>(entries)
}

/// The first fault among stored entries.
pub open spec fn first_entry_fault(entries: Seq<ProtectionEntryView>) -> Option<Seq<char>>
    decreases entries.len(),
{
    if entries.len() == 0 {
        None
    } else if value_fault(entries[0].kind, entries[0].value) is Some {
        value_fault(entries[0].kind, entries[0].value)
    } else {
        first_entry_fault(entries.drop_first())
    }
}

/// Why a stored state is refused.
pub open spec fn stored_fault(state: ProtectionStateView) -> Option<Seq<char>> {
    if state.schema_version != SCHEMA_VERSION {
        Some(
            "unsupported protection state schema_version "@ + decimal(state.schema_version as nat)
                + "; expected "@ + decimal(SCHEMA_VERSION as nat),
        )
    } else {
        first_entry_fault(state.entries)
    }
}

/// Checks a state read from its file and puts its entries in order.
pub fn accept_protection(state: ProtectionState) -> (outcome: Result<ProtectionState, StateError>)
    ensures
        match outcome {
            Ok(accepted) => {
                &&& stored_fault(state@) is None
                &&& accepted@.schema_version == SCHEMA_VERSION
                &&& accepted@.entries == tidy(state@.entries)
            },
            Err(StateError::Invalid(message)) => stored_fault(state@) == Some(message@),
            Err(_) => false,
        },
{
    broadcast use group_views;

    if state.schema_version != SCHEMA_VERSION {
        return Err(
            StateError::Invalid(
                concat4(
                    "unsupported protection state schema_version ",
                    decimal_text(state.schema_version as u64).as_str(),
                    "; expected ",
                    decimal_text(SCHEMA_VERSION as u64).as_str(),
                ),
            ),
        );
    }
    let ghost all = views(state.entries@);
    let mut index: usize = 0;
    assert(all.skip(0) =~= all);
    while index < state.entries.len()
        invariant
            index <= state.entries@.len(),
            all == views(state.entries@),
            state.schema_version == SCHEMA_VERSION,
            first_entry_fault(all) == first_entry_fault(all.skip(index as int)),
        decreases state.entries@.len() - index,
    {
        assert(all.skip(index as int)[0] == state.entries@[index as int]@);
        match check_value(state.entries[index].kind, state.entries[index].value.as_str()) {
            Some(message) => {
                return Err(StateError::Invalid(message));
            },
            None => {},
        }
        assert(all.skip(index as int).drop_first() =~= all.skip(index as int + 1));
        index += 1;
    }
    Ok(
        ProtectionState {
            schema_version: SCHEMA_VERSION,
            entries: dedup(sort(state.entries)),
        },
    )
}

/// A path below a directory.
pub open spec fn below(root: Seq<char>, name: Seq<char>) -> Seq<char> {
    if root.len() == 0 {
        name
    } else if root.last() == '/' {
        root + name
    } else {
        root + "/"@ + name
    }
}

/// The path of `name` below the directory `root`.
pub fn join_path(root: &str, name: &str) -> (path: String)
    ensures
        path@ == below(root@, name@),
{
    let characters = chars_of(root);
    if characters.len() == 0 {
        name.to_owned()
    } else if characters[characters.len() - 1] == '/' {
        concat2(root, name)
    } else {
        concat3(root, "/", name)
    }
}

/// Where durable state is kept.
#[derive(Debug, PartialEq, Eq)]
pub struct StatePaths {
    root: String,
}

impl Clone for StatePaths {
    fn clone(&self) -> (copy: Self)
        ensures
            copy.directory() == self.directory(),
    {
        StatePaths { root: self.root.clone() }
    }
}

/// The directory that the environment gives for state, where it gives one:
/// the state base, or the usual place below the home directory. An empty value
/// counts as not set.
pub open spec fn state_directory(
    state_home: Option<Seq<char>>,
    home: Option<Seq<char>>,
) -> Option<Seq<char>> {
    if state_home is Some && state_home.unwrap().len() > 0 {
        Some(below(state_home.unwrap(), "docker_maid"@))
    } else if home is Some && home.unwrap().len() > 0 {
        Some(below(below(home.unwrap(), ".local/state"@), "docker_maid"@))
    } else {
        None
    }
}

impl StatePaths {
    /// The directory that holds the state.
    pub closed spec fn directory(&self) -> Seq<char> {
        self.root@
    }

    /// The state below the bases that the environment names.
    pub fn from_env(state_home: &Option<String>, home: &Option<String>) -> (outcome: Result<
        Self,
        StateError,
    >)
        ensures
            match outcome {
                Ok(paths) => state_directory(opt_view(*state_home), opt_view(*home)) == Some(
                    paths.directory(),
                ),
                Err(error) => {
                    &&& error == StateError::Environment
                    &&& state_directory(opt_view(*state_home), opt_view(*home)) is None
                },
            },
    {
        match state_home {
            Some(base) => {
                if !is_empty_text(base.as_str()) {
                    return Ok(StatePaths::new(join_path(base.as_str(), "docker_maid")));
                }
            },
            None => {},
        }
        match home {
            Some(base) => {
                if !is_empty_text(base.as_str()) {
                    let state = join_path(base.as_str(), ".local/state");
                    return Ok(StatePaths::new(join_path(state.as_str(), "docker_maid")));
                }
            },
            None => {},
        }
        Err(StateError::Environment)
    }

    /// State below a directory.
    pub fn new(root: String) -> (paths: Self)
        ensures
            paths.directory() == root@,
    {
        StatePaths { root }
    }

    /// The directory that holds the state.
    pub fn root(&self) -> (path: &str)
        ensures
            path@ == self.directory(),
    {
        self.root.as_str()
    }

    /// The file of the protection entries.
    pub fn protection_file(&self) -> (path: String)
        ensures
            path@ == below(self.directory(), "protection.toml"@),
    {
        join_path(self.root.as_str(), "protection.toml")
    }

    /// The lock of the protection entries.
    pub fn protection_lock(&self) -> (path: String)
        ensures
            path@ == below(self.directory(), "protection.lock"@),
    {
        join_path(self.root.as_str(), "protection.lock")
    }

    /// The file of the observation record.
    pub fn observation_file(&self) -> (path: String)
        ensures
            path@ == below(self.directory(), "observation.toml"@),
    {
        join_path(self.root.as_str(), "observation.toml")
    }

    /// The lock of the observation record.
    pub fn observation_lock(&self) -> (path: String)
        ensures
            path@ == below(self.directory(), "observation.lock"@),
    {
        join_path(self.root.as_str(), "observation.lock")
    }

    /// The activity journal.
    pub fn activity_file(&self) -> (path: String)
        ensures
            path@ == below(self.directory(), "activity.jsonl"@),
    {
        join_path(self.root.as_str(), "activity.jsonl")
    }

    /// The part of the activity journal that was rotated out.
    pub fn rotated_activity_file(&self) -> (path: String)
        ensures
            path@ == below(self.directory(), "activity.1.jsonl"@),
    {
        join_path(self.root.as_str(), "activity.1.jsonl")
    }

    /// The lock of the activity journal.
    pub fn activity_lock(&self) -> (path: String)
        ensures
            path@ == below(self.directory(), "activity.lock"@),
    {
        join_path(self.root.as_str(), "activity.lock")
    }
}

/// The entries of one kind with the given values.
pub open spec fn entries_for(kind: ProtectionKind, values: Seq<Seq<char>>) -> Seq<
    ProtectionEntryView,
> {
    values.map_values(|value: Seq<char>| ProtectionEntryView { kind, value })
}

/// The entries after values were protected.
pub open spec fn added(
    entries: Seq<ProtectionEntryView>,
    kind: ProtectionKind,
    values: Seq<Seq<char>>,
) -> Seq<ProtectionEntryView> {
    tidy(entries + entries_for(kind, values))
}

/// Whether an entry stays when values of a kind are released.
pub open spec fn stays(
    entry: ProtectionEntryView,
    kind: ProtectionKind,
    values: Seq<Seq<char>>,
) -> bool {
    entry.kind != kind || !values.contains(entry.value)
}

/// The entries that stay when values of a kind are released, in their order.
pub open spec fn released(
    entries: Seq<ProtectionEntryView>,
    kind: ProtectionKind,
    values: Seq<Seq<char>>,
) -> Seq<ProtectionEntryView>
    decreases entries.len(),
{
    if entries.len() == 0 {
        entries
    } else {
        let before = released(entries.drop_last(), kind, values);
        if stays(entries.last(), kind, values) {
            before.push(entries.last())
        } else {
            before
        }
    }
}

proof fn lemma_released_len(
    entries: Seq<ProtectionEntryView>,
    kind: ProtectionKind,
    values: Seq<Seq<char>>,
)
    ensures
        released(entries, kind, values).len() <= entries.len(),
    decreases entries.len(),
{
    if entries.len() > 0 {
        lemma_released_len(entries.drop_last(), kind, values);
    }
}

/// Runtime protection in its place below the state directory.
#[derive(Debug, PartialEq, Eq)]
pub struct ProtectionStore {
    paths: StatePaths,
}

impl Clone for ProtectionStore {
    fn clone(&self) -> (copy: Self)
        ensures
            copy.directory() == self.directory(),
    {
        ProtectionStore { paths: self.paths.clone() }
    }
}

impl ProtectionStore {
    /// The directory that holds the state.
    pub closed spec fn directory(&self) -> Seq<char> {
        self.paths.directory()
    }

    /// The store below the given paths.
    pub fn new(paths: StatePaths) -> (store: Self)
        ensures
            store.directory() == paths.directory(),
    {
        ProtectionStore { paths }
    }

    /// The store below the bases that the environment names.
    pub fn from_env(state_home: &Option<String>, home: &Option<String>) -> (outcome: Result<
        Self,
        StateError,
    >)
        ensures
            match outcome {
                Ok(store) => state_directory(opt_view(*state_home), opt_view(*home)) == Some(
                    store.directory(),
                ),
                Err(error) => {
                    &&& error == StateError::Environment
                    &&& state_directory(opt_view(*state_home), opt_view(*home)) is None
                },
            },
    {
        match StatePaths::from_env(state_home, home) {
            Ok(paths) => Ok(ProtectionStore::new(paths)),
            Err(error) => Err(error),
        }
    }

    /// Where the store keeps its files.
    pub fn paths(&self) -> (paths: &StatePaths)
        ensures
            paths.directory() == self.directory(),
    {
        &self.paths
    }

    /// The state to write after values were protected, and how many entries it
    /// gained. `stored` is the state as its file holds it.
    pub fn add(&self, stored: ProtectionState, kind: ProtectionKind, values: &Vec<String>) -> (outcome:
        Result<(ProtectionState, usize), StateError>)
        ensures
            match outcome {
                Ok((state, gained)) => {
                    &&& request_fault(kind, views(values@)) is None
                    &&& stored_fault(stored@) is None
                    &&& state@.schema_version == SCHEMA_VERSION
                    &&& state@.entries == added(tidy(stored@.entries), kind, views(values@))
                    &&& gained == state@.entries.len() - tidy(stored@.entries).len()
                },
                Err(StateError::Invalid(message)) => {
                    if request_fault(kind, views(values@)) is Some {
                        request_fault(kind, views(values@)) == Some(message@)
                    } else {
                        stored_fault(stored@) == Some(message@)
                    }
                },
                Err(_) => false,
            },
    {
        broadcast use group_views;

        match validate_values(kind, values) {
            Ok(_) => {},
            Err(error) => {
                return Err(error);
            },
        }
        let state = match accept_protection(stored) {
            Ok(state) => state,
            Err(error) => {
                return Err(error);
            },
        };
        let before: usize = state.entries.len();
        let ghost held = state@.entries;
        let ghost wanted = entries_for(kind, views(values@));
        let mut entries = state.entries;
        let mut index: usize = 0;
        assert(held + wanted.take(0) =~= held);
        while index < values.len()
            invariant
                index <= values@.len(),
                wanted == entries_for(kind, views(values@)),
                views(entries@) == held + wanted.take(index as int),
            decreases values@.len() - index,
        {
            assert(wanted.take(index as int + 1) =~= wanted.take(index as int).push(
                ProtectionEntryView { kind, value: values@[index as int]@ },
            ));
            let entry = ProtectionEntry { kind, value: values[index].clone() };
            assert(entry@ == wanted[index as int]);
            let ghost before_push = entries@;
            entries.push(entry);
            assert(views(entries@) == views(before_push).push(entry@));
            index += 1;
            assert(views(entries@) =~= held + wanted.take(index as int));
        }
        assert(wanted.take(index as int) =~= wanted);
        let entries = dedup(sort(entries));
        proof {
            lemma_ordered_once::<ProtectionEntry>(stored@.entries);
            lemma_ordered_once_grows::<ProtectionEntry>(held, wanted);
        }
        let gained: usize = entries.len() - before;
        Ok((ProtectionState { schema_version: SCHEMA_VERSION, entries }, gained))
    }

    /// The state to write after values were released, and how many entries it
    /// lost. `stored` is the state as its file holds it.
    pub fn remove(&self, stored: ProtectionState, kind: ProtectionKind, values: &Vec<String>) -> (outcome:
        Result<(ProtectionState, usize), StateError>)
        ensures
            match outcome {
                Ok((state, lost)) => {
                    &&& request_fault(kind, views(values@)) is None
                    &&& stored_fault(stored@) is None
                    &&& state@.schema_version == SCHEMA_VERSION
                    &&& state@.entries == released(tidy(stored@.entries), kind, views(values@))
                    &&& lost == tidy(stored@.entries).len() - state@.entries.len()
                },
                Err(StateError::Invalid(message)) => {
                    if request_fault(kind, views(values@)) is Some {
                        request_fault(kind, views(values@)) == Some(message@)
                    } else {
                        stored_fault(stored@) == Some(message@)
                    }
                },
                Err(_) => false,
            },
    {
        broadcast use group_views;

        match validate_values(kind, values) {
            Ok(_) => {},
            Err(error) => {
                return Err(error);
            },
        }
        let state = match accept_protection(stored) {
            Ok(state) => state,
            Err(error) => {
                return Err(error);
            },
        };
        let before: usize = state.entries.len();
        let ghost held = state@.entries;
        let mut entries: Vec<ProtectionEntry> = Vec::new();
        let mut index: usize = 0;
        assert(views(entries@) =~= released(held.take(0), kind, views(values@)));
        while index < state.entries.len()
            invariant
                index <= state.entries@.len(),
                held == views(state.entries@),
                views(entries@) == released(held.take(index as int), kind, views(values@)),
            decreases state.entries@.len() - index,
        {
            assert(held.take(index as int + 1).drop_last() =~= held.take(index as int));
            assert(held.take(index as int + 1).last() == state.entries@[index as int]@);
            let entry = &state.entries[index];
            if entry.kind != kind || !contains_item(values, entry.value.as_str()) {
                entries.push(entry.clone());
            }
            index += 1;
        }
        assert(held.take(index as int) =~= held);
        proof {
            lemma_released_len(held, kind, views(values@));
        }
        let lost: usize = before - entries.len();
        Ok((ProtectionState { schema_version: SCHEMA_VERSION, entries }, lost))
    }
}

/// Protecting values that are protected already changes nothing.
pub proof fn protecting_again_changes_nothing(
    entries: Seq<ProtectionEntryView>,
    kind: ProtectionKind,
    values: Seq<Seq<char>>,
)
    ensures
        added(added(entries, kind, values), kind, values) == added(entries, kind, values),
{
    let wanted = entries_for(kind, values);
    let once = added(entries, kind, values);
    let twice = added(once, kind, values);
    lemma_ordered_once::<ProtectionEntry>(entries + wanted);
    lemma_ordered_once::<ProtectionEntry>(once + wanted);
    assert forall|value: ProtectionEntryView|
        #![trigger once.contains(value)]
        #![trigger twice.contains(value)]
        once.contains(value) == twice.contains(value) by {
        assert(once.contains(value) == (entries + wanted).contains(value));
        assert(twice.contains(value) == (once + wanted).contains(value));
        if once.contains(value) {
            let i = choose|i: int| 0 <= i < once.len() && once[i] == value;
            assert((once + wanted)[i] == value);
        }
        if (once + wanted).contains(value) && !once.contains(value) {
            let i = choose|i: int| 0 <= i < (once + wanted).len() && (once + wanted)[i] == value;
            if i < once.len() {
                assert(once[i] == value);
            } else {
                assert((entries + wanted)[entries.len() + i - once.len()] == value);
            }
            assert(false);
        }
    }
    lemma_ordered_once_unique::<ProtectionEntry>(once, twice);
}

/// Stored entries ascend and none repeats.
pub proof fn stored_entries_are_sorted_and_distinct(entries: Seq<ProtectionEntryView>)
    ensures
        crate::order::in_rank_order::<ProtectionEntry>(tidy(entries)),
        tidy(entries).no_duplicates(),
        tidy(tidy(entries)) == tidy(entries),
{
    lemma_ordered_once::<ProtectionEntry>(entries);
}

/// After values are protected every one of them has its entry.
pub proof fn protected_values_have_entries(
    entries: Seq<ProtectionEntryView>,
    kind: ProtectionKind,
    values: Seq<Seq<char>>,
    value: Seq<char>,
)
    requires
        values.contains(value),
    ensures
        added(entries, kind, values).contains(ProtectionEntryView { kind, value }),
{
    let wanted = entries_for(kind, values);
    lemma_ordered_once::<ProtectionEntry>(entries + wanted);
    let i = choose|i: int| 0 <= i < values.len() && values[i] == value;
    assert(wanted[i] == ProtectionEntryView { kind, value });
    assert((entries + wanted)[entries.len() + i] == ProtectionEntryView { kind, value });
    assert((entries + wanted).contains(ProtectionEntryView { kind, value }));
}

/// After values are released none of them has an entry, and every other entry
/// stays.
pub proof fn released_values_have_no_entries(
    entries: Seq<ProtectionEntryView>,
    kind: ProtectionKind,
    values: Seq<Seq<char>>,
    entry: ProtectionEntryView,
)
    ensures
        released(entries, kind, values).contains(entry) == (entries.contains(entry) && stays(
            entry,
            kind,
            values,
        )),
    decreases entries.len(),
{
    if entries.len() > 0 {
        let rest = entries.drop_last();
        released_values_have_no_entries(rest, kind, values, entry);
        let before = released(rest, kind, values);
        let after = released(entries, kind, values);
        if entries.contains(entry) {
            let i = choose|i: int| 0 <= i < entries.len() && entries[i] == entry;
            if i < rest.len() {
                assert(rest[i] == entry);
            }
        }
        if rest.contains(entry) {
            let i = choose|i: int| 0 <= i < rest.len() && rest[i] == entry;
            assert(entries[i] == entry);
        }
        if stays(entries.last(), kind, values) {
            assert(after == before.push(entries.last()));
            assert(after[before.len() as int] == entries.last());
            if before.contains(entry) {
                let k = choose|k: int| 0 <= k < before.len() && before[k] == entry;
                assert(after[k] == entry);
            }
            if after.contains(entry) && !before.contains(entry) {
                let k = choose|k: int| 0 <= k < after.len() && after[k] == entry;
                if k < before.len() {
                    assert(before[k] == entry);
                }
            }
        }
    }
}

} // verus!
