//! From what Docker reports to an inventory.
//!
//! The records here hold what the daemon answered; nothing in this module
//! talks to it.

use crate::config::{Config, ContainerRuleView};
use crate::naming::{first_chars, take_chars};
use crate::order::{lemma_ranked_holds, ranked, sort, Ranked};
use crate::outside::{parse_rfc3339, rfc3339_seconds};
use crate::plan::{
    item_ranks, items_in_order, lemma_item_ranks_total, lemma_item_ranks_transitive,
};
use crate::resource::{InventoryItem, ItemView, ResourceKind, ResourceState, ResourceStateView};
use crate::text::{
    chars_of, clone_texts, concat2, concat4, contains_item, group_views, opt_view, strip_prefix,
    text_eq, text_of, views, without_prefix,
};
use crate::text_map::{has_key, value_of, Labels, TextMap};
use crate::unique::{dedup, ordered_once};
use vstd::prelude::*;
use vstd::string::*;

verus! {

/// Why no inventory can be made.
#[derive(Debug, PartialEq, Eq)]
pub enum InventoryError {
    /// A request to Docker failed.
    Docker { operation: String, message: String },
    /// Docker left out what a safe plan needs.
    InvalidData(String),
}

/// What an inventory error says.
pub open spec fn inventory_error_text(error: InventoryError) -> Seq<char> {
    match error {
        InventoryError::Docker { operation, message } => "Docker "@ + operation@ + " failed: "@
            + message@,
        InventoryError::InvalidData(message) => "invalid Docker response: "@ + message@,
    }
}

impl InventoryError {
    /// The error in words.
    pub fn message(&self) -> (words: String)
        ensures
            words@ == inventory_error_text(*self),
    {
        match self {
            InventoryError::Docker { operation, message } => concat4(
                "Docker ",
                operation.as_str(),
                " failed: ",
                message.as_str(),
            ),
            InventoryError::InvalidData(message) => concat2(
                "invalid Docker response: ",
                message.as_str(),
            ),
        }
    }
}

/// A container as the daemon lists it.
#[derive(Debug)]
pub struct ContainerRecord {
    pub id: Option<String>,
    pub names: Vec<String>,
    pub image_id: Option<String>,
    /// The volumes that it mounts.
    pub volumes: Vec<String>,
    /// The networks that it is attached to.
    pub networks: Vec<String>,
    pub labels: Labels,
    pub state: Option<String>,
    pub created: Option<i64>,
    pub size_root_fs: Option<i64>,
}

/// What a container record says.
pub struct ContainerRecordView {
    pub id: Option<Seq<char>>,
    pub names: Seq<Seq<char>>,
    pub image_id: Option<Seq<char>>,
    pub volumes: Seq<Seq<char>>,
    pub networks: Seq<Seq<char>>,
    pub labels: Seq<(Seq<char>, Seq<char>)>,
    pub state: Option<Seq<char>>,
    pub created: Option<i64>,
    pub size_root_fs: Option<i64>,
}

impl View for ContainerRecord {
    type V = ContainerRecordView;

    open spec fn view(&self) -> ContainerRecordView {
        ContainerRecordView {
            id: opt_view(self.id),
            names: views(self.names@),
            image_id: opt_view(self.image_id),
            volumes: views(self.volumes@),
            networks: views(self.networks@),
            labels: self.labels@,
            state: opt_view(self.state),
            created: self.created,
            size_root_fs: self.size_root_fs,
        }
    }
}

/// An image as the daemon lists it.
#[derive(Debug)]
pub struct ImageRecord {
    pub id: String,
    pub repo_tags: Vec<String>,
    pub labels: Labels,
    pub created: i64,
    pub size: i64,
}

/// What an image record says.
pub struct ImageRecordView {
    pub id: Seq<char>,
    pub repo_tags: Seq<Seq<char>>,
    pub labels: Seq<(Seq<char>, Seq<char>)>,
    pub created: i64,
    pub size: i64,
}

impl View for ImageRecord {
    type V = ImageRecordView;

    open spec fn view(&self) -> ImageRecordView {
        ImageRecordView {
            id: self.id@,
            repo_tags: views(self.repo_tags@),
            labels: self.labels@,
            created: self.created,
            size: self.size,
        }
    }
}

/// A volume as the daemon lists it.
#[derive(Debug)]
pub struct VolumeRecord {
    pub name: String,
    pub labels: Labels,
    pub created_at: Option<String>,
    pub size: Option<i64>,
}

/// What a volume record says.
pub struct VolumeRecordView {
    pub name: Seq<char>,
    pub labels: Seq<(Seq<char>, Seq<char>)>,
    pub created_at: Option<Seq<char>>,
    pub size: Option<i64>,
}

impl View for VolumeRecord {
    type V = VolumeRecordView;

    open spec fn view(&self) -> VolumeRecordView {
        VolumeRecordView {
            name: self.name@,
            labels: self.labels@,
            created_at: opt_view(self.created_at),
            size: self.size,
        }
    }
}

/// A network as the daemon lists it.
#[derive(Debug)]
pub struct NetworkRecord {
    pub id: Option<String>,
    pub name: Option<String>,
    pub labels: Labels,
    pub created: Option<String>,
    pub ingress: Option<bool>,
    pub config_only: Option<bool>,
}

/// What a network record says.
pub struct NetworkRecordView {
    pub id: Option<Seq<char>>,
    pub name: Option<Seq<char>>,
    pub labels: Seq<(Seq<char>, Seq<char>)>,
    pub created: Option<Seq<char>>,
    pub ingress: Option<bool>,
    pub config_only: Option<bool>,
}

impl View for NetworkRecord {
    type V = NetworkRecordView;

    open spec fn view(&self) -> NetworkRecordView {
        NetworkRecordView {
            id: opt_view(self.id),
            name: opt_view(self.name),
            labels: self.labels@,
            created: opt_view(self.created),
            ingress: self.ingress,
            config_only: self.config_only,
        }
    }
}

/// What inspecting a container gave.
#[derive(Debug)]
pub struct InspectRecord {
    pub status: Option<String>,
    pub started_at: Option<String>,
    pub finished_at: Option<String>,
}

/// A container's state and since when it holds.
#[derive(Debug, PartialEq, Eq)]
pub struct ContainerStateSnapshot {
    pub state: String,
    pub since: Option<i64>,
}

/// What a snapshot says.
pub struct SnapshotView {
    pub state: Seq<char>,
    pub since: Option<i64>,
}

impl View for ContainerStateSnapshot {
    type V = SnapshotView;

    open spec fn view(&self) -> SnapshotView {
        SnapshotView { state: self.state@, since: self.since }
    }
}

/// Whether a state word means that a container runs.
pub open spec fn runs(word: Seq<char>) -> bool {
    word == "running"@ || word == "paused"@ || word == "restarting"@
}

/// Whether a state word means that a container has stopped.
pub open spec fn stopped(word: Seq<char>) -> bool {
    word == "exited"@ || word == "dead"@
}

/// The state that a word names.
pub open spec fn state_of(word: Seq<char>) -> ResourceStateView {
    if runs(word) {
        ResourceStateView::Running
    } else if stopped(word) {
        ResourceStateView::Stopped
    } else {
        ResourceStateView::Other(word)
    }
}

fn is_running_word(word: &str) -> (found: bool)
    ensures
        found == runs(word@),
{
    text_eq(word, "running") || text_eq(word, "paused") || text_eq(word, "restarting")
}

fn is_stopped_word(word: &str) -> (found: bool)
    ensures
        found == stopped(word@),
{
    text_eq(word, "exited") || text_eq(word, "dead")
}

/// The state that a word names.
pub fn resource_state(value: &str) -> (state: ResourceState)
    ensures
        state@ == state_of(value@),
{
    if is_running_word(value) {
        ResourceState::Running
    } else if is_stopped_word(value) {
        ResourceState::Stopped
    } else {
        ResourceState::Other(value.to_owned())
    }
}

/// The value of a decimal digit.
pub open spec fn digit_value(character: char) -> Option<int> {
    let code = character as u32;
    if 0x30 <= code <= 0x39 {
        Some(code - 0x30)
    } else {
        None
    }
}

/// The number that two characters write: two digits, or a sign and a digit.
pub open spec fn two_chars_value(first: char, second: char) -> Option<int> {
    match digit_value(second) {
        None => None,
        Some(low) => match digit_value(first) {
            Some(high) => Some(high * 10 + low),
            None => if first == '+' {
                Some(low)
            } else if first == '-' {
                Some(-low)
            } else {
                None
            },
        },
    }
}

fn read_digit(character: char) -> (value: Option<i64>)
    ensures
        match value {
            Some(number) => digit_value(character) == Some(number as int) && 0 <= number <= 9,
            None => digit_value(character) is None,
        },
{
    let code: u32 = character as u32;
    if 0x30 <= code && code <= 0x39 {
        Some((code - 0x30) as i64)
    } else {
        None
    }
}

fn read_two_chars(first: char, second: char) -> (value: Option<i64>)
    ensures
        match value {
            Some(number) => two_chars_value(first, second) == Some(number as int) && -9 <= number
                <= 99,
            None => two_chars_value(first, second) is None,
        },
{
    match read_digit(second) {
        None => None,
        Some(low) => match read_digit(first) {
            Some(high) => Some(high * 10 + low),
            None => if first == '+' {
                Some(low)
            } else if first == '-' {
                Some(-low)
            } else {
                None
            },
        },
    }
}

/// A timestamp in UTC notation, with the seconds that its local time is ahead
/// of UTC.
pub open spec fn utc_notation(value: Seq<char>) -> Option<(Seq<char>, int)> {
    if value.len() > 0 && value.last() == 'Z' {
        Some((value, 0))
    } else if value.len() < 6 {
        None
    } else {
        let start = value.len() - 6;
        let hours = two_chars_value(value[start + 1], value[start + 2]);
        let minutes = two_chars_value(value[start + 4], value[start + 5]);
        let ahead = value[start] == '+';
        if !(ahead || value[start] == '-') || value[start + 3] != ':' {
            None
        } else if hours is None || minutes is None || hours->0 > 23 || minutes->0 > 59 {
            None
        } else {
            let seconds = hours->0 * 3600 + minutes->0 * 60;
            Some(
                (
                    value.take(start) + "Z"@,
                    if ahead {
                        seconds
                    } else {
                        -seconds
                    },
                ),
            )
        }
    }
}

/// Brings a timestamp into UTC notation.
pub fn normalize_rfc3339_offset(value: &str) -> (normalized: Option<(String, i64)>)
    ensures
        match normalized {
            Some(pair) => utc_notation(value@) == Some((pair.0@, pair.1 as int)) && -100_000
                <= pair.1 <= 100_000,
            None => utc_notation(value@) is None,
        },
{
    let characters = chars_of(value);
    let length: usize = characters.len();
    if length > 0 && characters[length - 1] == 'Z' {
        return Some((value.to_owned(), 0));
    }
    if length < 6 {
        return None;
    }
    let start: usize = length - 6;
    let ahead = characters[start] == '+';
    if !(ahead || characters[start] == '-') || characters[start + 3] != ':' {
        return None;
    }
    let hours = match read_two_chars(characters[start + 1], characters[start + 2]) {
        Some(hours) => hours,
        None => {
            return None;
        },
    };
    let minutes = match read_two_chars(characters[start + 4], characters[start + 5]) {
        Some(minutes) => minutes,
        None => {
            return None;
        },
    };
    if hours > 23 || minutes > 59 {
        return None;
    }
    let local = text_of(&characters, 0, start);
    assert(local@ =~= value@.take(start as int));
    let seconds: i64 = hours * 3600 + minutes * 60;
    Some(
        (
            concat2(local.as_str(), "Z"),
            if ahead {
                seconds
            } else {
                -seconds
            },
        ),
    )
}

/// The seconds since the epoch of a Docker timestamp, where it is one that
/// does not lie before the epoch.
pub open spec fn epoch_of(value: Seq<char>) -> Option<i64> {
    match utc_notation(value) {
        None => None,
        Some((text, offset)) => match rfc3339_seconds(text) {
            None => None,
            Some(local) => if local > i64::MAX || local - offset > i64::MAX {
                None
            } else {
                Some((local - offset) as i64)
            },
        },
    }
}

/// Reads a Docker timestamp.
pub fn rfc3339_epoch(value: &str) -> (epoch: Option<i64>)
    ensures
        epoch == epoch_of(value@),
{
    let (text, offset) = match normalize_rfc3339_offset(value) {
        Some(pair) => pair,
        None => {
            return None;
        },
    };
    let local: u64 = match parse_rfc3339(text.as_str()) {
        Some(local) => local,
        None => {
            return None;
        },
    };
    if local > i64::MAX as u64 {
        return None;
    }
    (local as i64).checked_sub(offset)
}

/// The short form of an id.
pub open spec fn short_id_of(id: Seq<char>) -> Seq<char> {
    first_chars(
        match without_prefix(id, "sha256:"@) {
            Some(digest) => digest,
            None => id,
        },
        12,
    )
}

/// The short form of an id.
pub fn short_id(id: &str) -> (short: String)
    ensures
        short@ == short_id_of(id@),
{
    match strip_prefix(id, "sha256:") {
        Some(digest) => take_chars(digest.as_str(), 12),
        None => take_chars(id, 12),
    }
}

/// A size that Docker knows.
pub open spec fn known_size(value: Option<i64>) -> Option<u64> {
    match value {
        Some(size) => if size >= 0 {
            Some(size as u64)
        } else {
            None
        },
        None => None,
    }
}

/// A size that Docker knows; it reports a negative one where it does not.
pub fn nonnegative(value: Option<i64>) -> (size: Option<u64>)
    ensures
        size == known_size(value),
{
    match value {
        Some(size) => if size >= 0 {
            Some(size as u64)
        } else {
            None
        },
        None => None,
    }
}

/// A text without leading slashes.
pub open spec fn unslashed(text: Seq<char>) -> Seq<char>
    decreases text.len(),
{
    if text.len() > 0 && text[0] == '/' {
        unslashed(text.drop_first())
    } else {
        text
    }
}

/// Removes leading slashes.
pub fn trim_slashes(text: &str) -> (rest: String)
    ensures
        rest@ == unslashed(text@),
{
    let characters = chars_of(text);
    let mut start: usize = 0;
    assert(text@.skip(0) =~= text@);
    while start < characters.len() && characters[start] == '/'
        invariant
            start <= characters@.len(),
            characters@ == text@,
            unslashed(text@) == unslashed(text@.skip(start as int)),
        decreases characters@.len() - start,
    {
        assert(text@.skip(start as int).drop_first() =~= text@.skip(start as int + 1));
        start += 1;
    }
    assert(text@.subrange(start as int, text@.len() as int) =~= text@.skip(start as int));
    text_of(&characters, start, characters.len())
}

/// The names of a container: without slashes, in order, each once.
pub open spec fn container_names(names: Seq<Seq<char>>) -> Seq<Seq<char>> {
    ordered_once::<String>(names.map_values(|name: Seq<char>| unslashed(name)))
}

fn clean_names(names: &Vec<String>) -> (cleaned: Vec<String>)
    ensures
        views(cleaned@) == container_names(views(names@)),
{
    broadcast use group_views;

    let mut plain: Vec<String> = Vec::new();
    let ghost wanted = views(names@).map_values(|name: Seq<char>| unslashed(name));
    let mut index: usize = 0;
    assert(views(plain@) =~= wanted.take(0));
    while index < names.len()
        invariant
            index <= names@.len(),
            wanted == views(names@).map_values(|name: Seq<char>| unslashed(name)),
            views(plain@) == wanted.take(index as int),
        decreases names@.len() - index,
    {
        let name = trim_slashes(names[index].as_str());
        assert(wanted.take(index as int + 1) =~= wanted.take(index as int).push(name@));
        plain.push(name);
        index += 1;
    }
    assert(wanted.take(index as int) =~= wanted);
    dedup(sort(plain))
}

/// The first text of a list, or another one.
pub open spec fn first_or(items: Seq<Seq<char>>, other: Seq<char>) -> Seq<char> {
    if items.len() > 0 {
        items[0]
    } else {
        other
    }
}

/// Whether a container's state is to be read from inspection and it has gone
/// in the meantime.
pub open spec fn has_gone(
    record: ContainerRecordView,
    snapshots: Seq<(Seq<char>, SnapshotView)>,
    state_required: bool,
) -> bool {
    state_required && !has_key(snapshots, record.id->0)
}

/// A container in the inventory.
pub open spec fn container_item(
    record: ContainerRecordView,
    snapshots: Seq<(Seq<char>, SnapshotView)>,
) -> ItemView {
    let id = record.id->0;
    let names = container_names(record.names);
    let snapshot = value_of(snapshots, id);
    ItemView {
        kind: ResourceKind::Container,
        id,
        name: first_or(names, short_id_of(id)),
        search_names: names.push(id),
        parent_ids: Seq::empty(),
        labels: record.labels,
        mounts: Seq::empty(),
        state: match snapshot {
            Some(known) => state_of(known.state),
            None => state_of(
                match record.state {
                    Some(word) => word,
                    None => "unknown"@,
                },
            ),
        },
        created_at: record.created,
        state_since: match snapshot {
            Some(known) => known.since,
            None => None,
        },
        size: known_size(record.size_root_fs),
        referenced: false,
        dangling: false,
        system: false,
    }
}

/// The containers in the inventory; none where a container has no id.
pub open spec fn containers_in(
    records: Seq<ContainerRecordView>,
    snapshots: Seq<(Seq<char>, SnapshotView)>,
    state_required: bool,
) -> Option<Seq<ItemView>>
    decreases records.len(),
{
    if records.len() == 0 {
        Some(Seq::empty())
    } else {
        match containers_in(records.drop_last(), snapshots, state_required) {
            None => None,
            Some(before) => if records.last().id is None {
                None
            } else if has_gone(records.last(), snapshots, state_required) {
                Some(before)
            } else {
                Some(before.push(container_item(records.last(), snapshots)))
            },
        }
    }
}

proof fn lemma_no_containers(
    records: Seq<ContainerRecordView>,
    snapshots: Seq<(Seq<char>, SnapshotView)>,
    state_required: bool,
    count: int,
)
    requires
        0 <= count <= records.len(),
        containers_in(records.take(count), snapshots, state_required) is None,
    ensures
        containers_in(records, snapshots, state_required) is None,
    decreases records.len(),
{
    if count == records.len() {
        assert(records.take(count) =~= records);
    } else {
        assert(records.drop_last().take(count) =~= records.take(count));
        lemma_no_containers(records.drop_last(), snapshots, state_required, count);
    }
}

fn make_container(
    record: &ContainerRecord,
    id: &String,
    snapshots: &TextMap<ContainerStateSnapshot>,
) -> (item: InventoryItem)
    requires
        record@.id == Some(id@),
    ensures
        item@ == container_item(record@, snapshots@),
{
    broadcast use group_views;

    let names = clean_names(&record.names);
    let name = if names.len() > 0 {
        names[0].clone()
    } else {
        short_id(id.as_str())
    };
    assert(name@ == first_or(views(names@), short_id_of(id@)));
    let mut search_names = names;
    search_names.push(id.clone());
    let (state, since) = match snapshots.get(id.as_str()) {
        Some(snapshot) => (resource_state(snapshot.state.as_str()), snapshot.since),
        None => (
            match &record.state {
                Some(word) => resource_state(word.as_str()),
                None => resource_state("unknown"),
            },
            None,
        ),
    };
    let item = InventoryItem {
        kind: ResourceKind::Container,
        id: id.clone(),
        name,
        search_names,
        parent_ids: Vec::new(),
        labels: record.labels.clone(),
        mounts: Vec::new(),
        state,
        created_at: record.created,
        state_since: since,
        size: nonnegative(record.size_root_fs),
        referenced: false,
        dangling: false,
        system: false,
    };
    assert(item@ =~= container_item(record@, snapshots@));
    item
}

/// Takes the containers into the inventory.
pub fn container_items(
    containers: &Vec<ContainerRecord>,
    state_snapshots: &TextMap<ContainerStateSnapshot>,
    state_required: bool,
) -> (outcome: Result<Vec<InventoryItem>, InventoryError>)
    ensures
        match containers_in(views(containers@), state_snapshots@, state_required) {
            Some(items) => outcome matches Ok(made) && views(made@) == items,
            None => outcome matches Err(InventoryError::InvalidData(message)) && message@
                == "container list entry has no ID"@,
        },
{
    broadcast use group_views;

    let mut items: Vec<InventoryItem> = Vec::new();
    let ghost all = views(containers@);
    let ghost known = state_snapshots@;
    let mut index: usize = 0;
    assert(all.take(0).len() == 0);
    assert(views(items@) =~= Seq::empty());
    while index < containers.len()
        invariant
            index <= containers@.len(),
            all == views(containers@),
            known == state_snapshots@,
            containers_in(all.take(index as int), known, state_required) == Some(views(items@)),
        decreases containers@.len() - index,
    {
        let record = &containers[index];
        proof {
            assert(all.take(index as int + 1).drop_last() =~= all.take(index as int));
            assert(all.take(index as int + 1).last() == record@);
        }
        match &record.id {
            None => {
                proof {
                    lemma_no_containers(all, known, state_required, index as int + 1);
                }
                return Err(
                    InventoryError::InvalidData("container list entry has no ID".to_owned()),
                );
            },
            Some(id) => {
                if !(state_required && !state_snapshots.contains_key(id.as_str())) {
                    let item = make_container(record, id, state_snapshots);
                    let ghost listed = views(items@);
                    items.push(item);
                    assert(views(items@) == listed.push(item@));
                }
            },
        }
        index += 1;
    }
    assert(all.take(index as int) =~= all);
    Ok(items)
}

/// The tag that Docker writes where an image has none.
pub const NO_TAG: &'static str = "<none>:<none>";

/// The tags that name an image.
pub open spec fn real_tags(tags: Seq<Seq<char>>) -> Seq<Seq<char>>
    decreases tags.len(),
{
    if tags.len() == 0 {
        Seq::empty()
    } else {
        let before = real_tags(tags.drop_last());
        if tags.last() == NO_TAG@ {
            before
        } else {
            before.push(tags.last())
        }
    }
}

/// An image in the inventory.
pub open spec fn image_item(record: ImageRecordView, referenced: Seq<Seq<char>>) -> ItemView {
    let tags = ordered_once::<String>(real_tags(record.repo_tags));
    ItemView {
        kind: ResourceKind::Image,
        id: record.id,
        name: first_or(tags, short_id_of(record.id)),
        search_names: tags.push(record.id),
        parent_ids: Seq::empty(),
        labels: record.labels,
        mounts: Seq::empty(),
        state: ResourceStateView::Available,
        created_at: Some(record.created),
        state_since: None,
        size: known_size(Some(record.size)),
        referenced: referenced.contains(record.id),
        dangling: tags.len() == 0,
        system: false,
    }
}

fn keep_real_tags(tags: &Vec<String>) -> (kept: Vec<String>)
    ensures
        views(kept@) == real_tags(views(tags@)),
{
    broadcast use group_views;

    let mut kept: Vec<String> = Vec::new();
    let ghost all = views(tags@);
    let mut index: usize = 0;
    assert(views(kept@) =~= real_tags(all.take(0)));
    while index < tags.len()
        invariant
            index <= tags@.len(),
            all == views(tags@),
            views(kept@) == real_tags(all.take(index as int)),
        decreases tags@.len() - index,
    {
        assert(all.take(index as int + 1).drop_last() =~= all.take(index as int));
        assert(all.take(index as int + 1).last() == tags@[index as int]@);
        if !text_eq(tags[index].as_str(), NO_TAG) {
            kept.push(tags[index].clone());
        }
        index += 1;
    }
    assert(all.take(index as int) =~= all);
    kept
}

fn make_image(record: &ImageRecord, referenced: &Vec<String>) -> (item: InventoryItem)
    ensures
        item@ == image_item(record@, views(referenced@)),
{
    broadcast use group_views;

    let tags = dedup(sort(keep_real_tags(&record.repo_tags)));
    let dangling = tags.len() == 0;
    let name = if tags.len() > 0 {
        tags[0].clone()
    } else {
        short_id(record.id.as_str())
    };
    assert(name@ == first_or(views(tags@), short_id_of(record@.id)));
    let mut search_names = tags;
    search_names.push(record.id.clone());
    let item = InventoryItem {
        kind: ResourceKind::Image,
        id: record.id.clone(),
        name,
        search_names,
        parent_ids: Vec::new(),
        labels: record.labels.clone(),
        mounts: Vec::new(),
        state: ResourceState::Available,
        created_at: Some(record.created),
        state_since: None,
        size: nonnegative(Some(record.size)),
        referenced: contains_item(referenced, record.id.as_str()),
        dangling,
        system: false,
    };
    assert(item@ =~= image_item(record@, views(referenced@)));
    item
}

/// Takes the images into the inventory.
pub fn image_items(images: &Vec<ImageRecord>, referenced_images: &Vec<String>) -> (items: Vec<
    InventoryItem,
>)
    ensures
        views(items@) == views(images@).map_values(
            |record: ImageRecordView| image_item(record, views(referenced_images@)),
        ),
{
    broadcast use group_views;

    let mut items: Vec<InventoryItem> = Vec::new();
    let ghost used = views(referenced_images@);
    let ghost wanted = views(images@).map_values(|record: ImageRecordView| image_item(record, used));
    let mut index: usize = 0;
    assert(views(items@) =~= wanted.take(0));
    while index < images.len()
        invariant
            index <= images@.len(),
            used == views(referenced_images@),
            wanted == views(images@).map_values(
                |record: ImageRecordView| image_item(record, used),
            ),
            views(items@) == wanted.take(index as int),
        decreases images@.len() - index,
    {
        let item = make_image(&images[index], referenced_images);
        assert(wanted.take(index as int + 1) =~= wanted.take(index as int).push(item@));
        items.push(item);
        index += 1;
    }
    assert(wanted.take(index as int) =~= wanted);
    items
}

/// The epoch of an optional timestamp.
pub open spec fn opt_epoch(value: Option<Seq<char>>) -> Option<i64> {
    match value {
        Some(text) => epoch_of(text),
        None => None,
    }
}

fn read_opt_epoch(value: &Option<String>) -> (epoch: Option<i64>)
    ensures
        epoch == opt_epoch(opt_view(*value)),
{
    match value {
        Some(text) => rfc3339_epoch(text.as_str()),
        None => None,
    }
}

/// A volume in the inventory.
pub open spec fn volume_item(record: VolumeRecordView, referenced: Seq<Seq<char>>) -> ItemView {
    ItemView {
        kind: ResourceKind::Volume,
        id: record.name,
        name: record.name,
        search_names: seq![record.name],
        parent_ids: Seq::empty(),
        labels: record.labels,
        mounts: Seq::empty(),
        state: ResourceStateView::Available,
        created_at: opt_epoch(record.created_at),
        state_since: None,
        size: known_size(record.size),
        referenced: referenced.contains(record.name),
        dangling: false,
        system: false,
    }
}

fn make_volume(record: &VolumeRecord, referenced: &Vec<String>) -> (item: InventoryItem)
    ensures
        item@ == volume_item(record@, views(referenced@)),
{
    broadcast use group_views;

    let mut search_names: Vec<String> = Vec::new();
    search_names.push(record.name.clone());
    let item = InventoryItem {
        kind: ResourceKind::Volume,
        id: record.name.clone(),
        name: record.name.clone(),
        search_names,
        parent_ids: Vec::new(),
        labels: record.labels.clone(),
        mounts: Vec::new(),
        state: ResourceState::Available,
        created_at: read_opt_epoch(&record.created_at),
        state_since: None,
        size: nonnegative(record.size),
        referenced: contains_item(referenced, record.name.as_str()),
        dangling: false,
        system: false,
    };
    assert(item@ =~= volume_item(record@, views(referenced@)));
    item
}

/// Takes the volumes into the inventory.
pub fn volume_items(volumes: &Vec<VolumeRecord>, referenced_volumes: &Vec<String>) -> (items: Vec<
    InventoryItem,
>)
    ensures
        views(items@) == views(volumes@).map_values(
            |record: VolumeRecordView| volume_item(record, views(referenced_volumes@)),
        ),
{
    broadcast use group_views;

    let mut items: Vec<InventoryItem> = Vec::new();
    let ghost used = views(referenced_volumes@);
    let ghost wanted = views(volumes@).map_values(
        |record: VolumeRecordView| volume_item(record, used),
    );
    let mut index: usize = 0;
    assert(views(items@) =~= wanted.take(0));
    while index < volumes.len()
        invariant
            index <= volumes@.len(),
            used == views(referenced_volumes@),
            wanted == views(volumes@).map_values(
                |record: VolumeRecordView| volume_item(record, used),
            ),
            views(items@) == wanted.take(index as int),
        decreases volumes@.len() - index,
    {
        let item = make_volume(&volumes[index], referenced_volumes);
        assert(wanted.take(index as int + 1) =~= wanted.take(index as int).push(item@));
        items.push(item);
        index += 1;
    }
    assert(wanted.take(index as int) =~= wanted);
    items
}

/// Whether Docker itself owns a network.
pub open spec fn is_system(record: NetworkRecordView, name: Seq<char>) -> bool {
    ||| name == "bridge"@
    ||| name == "host"@
    ||| name == "none"@
    ||| record.ingress == Some(true)
    ||| record.config_only == Some(true)
}

/// A network in the inventory.
pub open spec fn network_item(record: NetworkRecordView, referenced: Seq<Seq<char>>) -> ItemView {
    let id = record.id->0;
    let name = match record.name {
        Some(given) => given,
        None => short_id_of(id),
    };
    ItemView {
        kind: ResourceKind::Network,
        id,
        name,
        search_names: ordered_once::<String>(seq![name, id]),
        parent_ids: Seq::empty(),
        labels: record.labels,
        mounts: Seq::empty(),
        state: ResourceStateView::Available,
        created_at: opt_epoch(record.created),
        state_since: None,
        size: None,
        referenced: referenced.contains(name),
        dangling: false,
        system: is_system(record, name),
    }
}

/// The networks in the inventory; none where a network has no id.
pub open spec fn networks_in(records: Seq<NetworkRecordView>, referenced: Seq<Seq<char>>) -> Option<
    Seq<ItemView>,
>
    decreases records.len(),
{
    if records.len() == 0 {
        Some(Seq::empty())
    } else {
        match networks_in(records.drop_last(), referenced) {
            None => None,
            Some(before) => if records.last().id is None {
                None
            } else {
                Some(before.push(network_item(records.last(), referenced)))
            },
        }
    }
}

proof fn lemma_no_networks(
    records: Seq<NetworkRecordView>,
    referenced: Seq<Seq<char>>,
    count: int,
)
    requires
        0 <= count <= records.len(),
        networks_in(records.take(count), referenced) is None,
    ensures
        networks_in(records, referenced) is None,
    decreases records.len(),
{
    if count == records.len() {
        assert(records.take(count) =~= records);
    } else {
        assert(records.drop_last().take(count) =~= records.take(count));
        lemma_no_networks(records.drop_last(), referenced, count);
    }
}

fn make_network(record: &NetworkRecord, id: &String, referenced: &Vec<String>) -> (item:
    InventoryItem)
    requires
        record@.id == Some(id@),
    ensures
        item@ == network_item(record@, views(referenced@)),
{
    broadcast use group_views;

    let name = match &record.name {
        Some(given) => given.clone(),
        None => short_id(id.as_str()),
    };
    let mut both: Vec<String> = Vec::new();
    both.push(name.clone());
    both.push(id.clone());
    assert(views(both@) =~= seq![name@, id@]);
    let search_names = dedup(sort(both));
    let system = text_eq(name.as_str(), "bridge") || text_eq(name.as_str(), "host") || text_eq(
        name.as_str(),
        "none",
    ) || record.ingress == Some(true) || record.config_only == Some(true);
    let used = contains_item(referenced, name.as_str());
    let item = InventoryItem {
        kind: ResourceKind::Network,
        id: id.clone(),
        name,
        search_names,
        parent_ids: Vec::new(),
        labels: record.labels.clone(),
        mounts: Vec::new(),
        state: ResourceState::Available,
        created_at: read_opt_epoch(&record.created),
        state_since: None,
        size: None,
        referenced: used,
        dangling: false,
        system,
    };
    assert(item@ =~= network_item(record@, views(referenced@)));
    item
}

/// Takes the networks into the inventory.
pub fn network_items(networks: &Vec<NetworkRecord>, referenced_networks: &Vec<String>) -> (outcome:
    Result<Vec<InventoryItem>, InventoryError>)
    ensures
        match networks_in(views(networks@), views(referenced_networks@)) {
            Some(items) => outcome matches Ok(made) && views(made@) == items,
            None => outcome matches Err(InventoryError::InvalidData(message)) && message@
                == "network list entry has no ID"@,
        },
{
    broadcast use group_views;

    let mut items: Vec<InventoryItem> = Vec::new();
    let ghost all = views(networks@);
    let ghost used = views(referenced_networks@);
    let mut index: usize = 0;
    assert(all.take(0).len() == 0);
    assert(views(items@) =~= Seq::empty());
    while index < networks.len()
        invariant
            index <= networks@.len(),
            all == views(networks@),
            used == views(referenced_networks@),
            networks_in(all.take(index as int), used) == Some(views(items@)),
        decreases networks@.len() - index,
    {
        let record = &networks[index];
        proof {
            assert(all.take(index as int + 1).drop_last() =~= all.take(index as int));
            assert(all.take(index as int + 1).last() == record@);
        }
        match &record.id {
            None => {
                proof {
                    lemma_no_networks(all, used, index as int + 1);
                }
                return Err(InventoryError::InvalidData("network list entry has no ID".to_owned()));
            },
            Some(id) => {
                let item = make_network(record, id, referenced_networks);
                let ghost listed = views(items@);
                items.push(item);
                assert(views(items@) == listed.push(item@));
            },
        }
        index += 1;
    }
    assert(all.take(index as int) =~= all);
    Ok(items)
}

/// What containers refer to: images, volumes and networks.
#[derive(Debug)]
pub struct References {
    pub images: Vec<String>,
    pub volumes: Vec<String>,
    pub networks: Vec<String>,
}

/// The images that containers are made from.
pub open spec fn used_images(records: Seq<ContainerRecordView>) -> Seq<Seq<char>>
    decreases records.len(),
{
    if records.len() == 0 {
        Seq::empty()
    } else {
        let before = used_images(records.drop_last());
        match records.last().image_id {
            Some(id) => before.push(id),
            None => before,
        }
    }
}

/// The volumes that containers mount.
pub open spec fn used_volumes(records: Seq<ContainerRecordView>) -> Seq<Seq<char>>
    decreases records.len(),
{
    if records.len() == 0 {
        Seq::empty()
    } else {
        used_volumes(records.drop_last()) + records.last().volumes
    }
}

/// The networks that containers are attached to.
pub open spec fn used_networks(records: Seq<ContainerRecordView>) -> Seq<Seq<char>>
    decreases records.len(),
{
    if records.len() == 0 {
        Seq::empty()
    } else {
        used_networks(records.drop_last()) + records.last().networks
    }
}

fn append_texts(list: &mut Vec<String>, more: &Vec<String>)
    ensures
        views(final(list)@) == views(old(list)@) + views(more@),
{
    let mut copy = clone_texts(more);
    let ghost before = list@;
    let ghost added = copy@;
    list.append(&mut copy);
    assert(views(list@) =~= views(before) + views(added));
}

impl References {
    /// Gathers what containers refer to.
    pub fn from_containers(containers: &Vec<ContainerRecord>) -> (references: Self)
        ensures
            views(references.images@) == used_images(views(containers@)),
            views(references.volumes@) == used_volumes(views(containers@)),
            views(references.networks@) == used_networks(views(containers@)),
    {
        broadcast use group_views;

        let mut images: Vec<String> = Vec::new();
        let mut volumes: Vec<String> = Vec::new();
        let mut networks: Vec<String> = Vec::new();
        let ghost all = views(containers@);
        let mut index: usize = 0;
        assert(views(images@) =~= used_images(all.take(0)));
        assert(views(volumes@) =~= used_volumes(all.take(0)));
        assert(views(networks@) =~= used_networks(all.take(0)));
        while index < containers.len()
            invariant
                index <= containers@.len(),
                all == views(containers@),
                views(images@) == used_images(all.take(index as int)),
                views(volumes@) == used_volumes(all.take(index as int)),
                views(networks@) == used_networks(all.take(index as int)),
            decreases containers@.len() - index,
        {
            let record = &containers[index];
            assert(all.take(index as int + 1).drop_last() =~= all.take(index as int));
            assert(all.take(index as int + 1).last() == record@);
            if let Some(id) = &record.image_id {
                images.push(id.clone());
            }
            append_texts(&mut volumes, &record.volumes);
            append_texts(&mut networks, &record.networks);
            index += 1;
        }
        assert(all.take(index as int) =~= all);
        References { images, volumes, networks }
    }
}

impl Ranked for InventoryItem {
    /// By kind, then name, then id.
    open spec fn ranks(left: ItemView, right: ItemView) -> bool {
        item_ranks(left, right)
    }

    proof fn ranks_total(left: ItemView, right: ItemView) {
        lemma_item_ranks_total(left, right);
    }

    proof fn ranks_transitive(a: ItemView, b: ItemView, c: ItemView) {
        lemma_item_ranks_transitive(a, b, c);
    }

    fn in_order(&self, other: &Self) -> (held: bool) {
        items_in_order(self, other)
    }
}

/// Everything that Docker lists, as one inventory in order; none where a
/// container or a network has no id.
pub open spec fn inventory_of(
    containers: Seq<ContainerRecordView>,
    images: Seq<ImageRecordView>,
    volumes: Seq<VolumeRecordView>,
    networks: Seq<NetworkRecordView>,
    snapshots: Seq<(Seq<char>, SnapshotView)>,
    state_required: bool,
) -> Option<Seq<ItemView>> {
    let image_refs = used_images(containers);
    let volume_refs = used_volumes(containers);
    match (
        containers_in(containers, snapshots, state_required),
        networks_in(networks, used_networks(containers)),
    ) {
        (Some(found), Some(attached)) => Some(
            ranked::<InventoryItem>(
                found + images.map_values(|record: ImageRecordView| image_item(record, image_refs))
                    + volumes.map_values(
                    |record: VolumeRecordView| volume_item(record, volume_refs),
                ) + attached,
            ),
        ),
        _ => None,
    }
}

proof fn lemma_used(records: Seq<ContainerRecordView>, index: int)
    requires
        0 <= index < records.len(),
    ensures
        records[index].image_id matches Some(id) ==> used_images(records).contains(id),
        forall|name: Seq<char>| #[trigger]
            records[index].volumes.contains(name) ==> used_volumes(records).contains(name),
        forall|name: Seq<char>| #[trigger]
            records[index].networks.contains(name) ==> used_networks(records).contains(name),
    decreases records.len(),
{
    broadcast use vstd::seq_lib::group_seq_properties;

    if index < records.len() - 1 {
        lemma_used(records.drop_last(), index);
        assert(records.drop_last()[index] == records[index]);
    }
}

proof fn lemma_container_kinds(
    records: Seq<ContainerRecordView>,
    snapshots: Seq<(Seq<char>, SnapshotView)>,
    state_required: bool,
)
    ensures
        containers_in(records, snapshots, state_required) matches Some(items) ==> forall|i: int|
            0 <= i < items.len() ==> (#[trigger] items[i]).kind == ResourceKind::Container,
    decreases records.len(),
{
    if records.len() > 0 {
        lemma_container_kinds(records.drop_last(), snapshots, state_required);
    }
}

proof fn lemma_network_references(records: Seq<NetworkRecordView>, referenced: Seq<Seq<char>>)
    ensures
        networks_in(records, referenced) matches Some(items) ==> forall|i: int|
            0 <= i < items.len() ==> (#[trigger] items[i]).kind == ResourceKind::Network
                && items[i].referenced == referenced.contains(items[i].name),
    decreases records.len(),
{
    if records.len() > 0 {
        lemma_network_references(records.drop_last(), referenced);
    }
}

/// Whether an item is something that a container uses.
pub open spec fn is_used_by(record: ContainerRecordView, item: ItemView) -> bool {
    match item.kind {
        ResourceKind::Container | ResourceKind::BuildCache => false,
        ResourceKind::Image => record.image_id == Some(item.id),
        ResourceKind::Volume => record.volumes.contains(item.id),
        ResourceKind::Network => record.networks.contains(item.name),
    }
}

/// The image that a listed container is made from, the volumes that it mounts
/// and the networks that it is attached to are referenced in the inventory,
/// also where the container itself has gone since.
pub proof fn what_containers_use_is_referenced(
    containers: Seq<ContainerRecordView>,
    images: Seq<ImageRecordView>,
    volumes: Seq<VolumeRecordView>,
    networks: Seq<NetworkRecordView>,
    snapshots: Seq<(Seq<char>, SnapshotView)>,
    state_required: bool,
    index: int,
)
    requires
        0 <= index < containers.len(),
    ensures
        inventory_of(containers, images, volumes, networks, snapshots, state_required) matches Some(
            items,
        ) ==> forall|i: int|
            0 <= i < items.len() && is_used_by(containers[index], #[trigger] items[i])
                ==> items[i].referenced,
{
    let image_refs = used_images(containers);
    let volume_refs = used_volumes(containers);
    let network_refs = used_networks(containers);
    lemma_used(containers, index);
    lemma_container_kinds(containers, snapshots, state_required);
    lemma_network_references(networks, network_refs);
    if let Some(items) = inventory_of(
        containers,
        images,
        volumes,
        networks,
        snapshots,
        state_required,
    ) {
        let found = containers_in(containers, snapshots, state_required)->0;
        let attached = networks_in(networks, network_refs)->0;
        let pictured = images.map_values(|record: ImageRecordView| image_item(record, image_refs));
        let stored = volumes.map_values(
            |record: VolumeRecordView| volume_item(record, volume_refs),
        );
        let all = found + pictured + stored + attached;
        assert forall|i: int|
            0 <= i < items.len() && is_used_by(containers[index], #[trigger] items[i]) implies
            items[i].referenced by {
            lemma_ranked_holds::<InventoryItem>(all, i);
            let place = choose|place: int| 0 <= place < all.len() && all[place] == items[i];
            if place < found.len() {
                assert(all[place] == found[place]);
            } else if place < found.len() + pictured.len() {
                assert(all[place] == pictured[place - found.len()]);
            } else if place < found.len() + pictured.len() + stored.len() {
                assert(all[place] == stored[place - found.len() - pictured.len()]);
            } else {
                assert(all[place] == attached[place - found.len() - pictured.len() - stored.len()]);
            }
        }
    }
}

fn append_items(list: &mut Vec<InventoryItem>, more: Vec<InventoryItem>)
    ensures
        views(final(list)@) == views(old(list)@) + views(more@),
{
    let ghost before = list@;
    let ghost added = more@;
    let mut rest = more;
    list.append(&mut rest);
    assert(views(list@) =~= views(before) + views(added));
}

/// Makes one inventory of everything that Docker lists.
pub fn assemble_inventory(
    containers: &Vec<ContainerRecord>,
    images: &Vec<ImageRecord>,
    volumes: &Vec<VolumeRecord>,
    networks: &Vec<NetworkRecord>,
    state_snapshots: &TextMap<ContainerStateSnapshot>,
    state_required: bool,
) -> (outcome: Result<Vec<InventoryItem>, InventoryError>)
    ensures
        match inventory_of(
            views(containers@),
            views(images@),
            views(volumes@),
            views(networks@),
            state_snapshots@,
            state_required,
        ) {
            Some(items) => outcome matches Ok(made) && views(made@) == items,
            None => outcome matches Err(InventoryError::InvalidData(message)) && (if containers_in(
                views(containers@),
                state_snapshots@,
                state_required,
            ) is None {
                message@ == "container list entry has no ID"@
            } else {
                message@ == "network list entry has no ID"@
            }),
        },
{
    let references = References::from_containers(containers);
    let mut inventory = match container_items(containers, state_snapshots, state_required) {
        Ok(items) => items,
        Err(error) => {
            return Err(error);
        },
    };
    let attached = match network_items(networks, &references.networks) {
        Ok(items) => items,
        Err(error) => {
            return Err(error);
        },
    };
    append_items(&mut inventory, image_items(images, &references.images));
    append_items(&mut inventory, volume_items(volumes, &references.volumes));
    append_items(&mut inventory, attached);
    Ok(sort(inventory))
}

/// Whether some container rule measures how long a state has held.
pub open spec fn state_is_measured(rules: Seq<ContainerRuleView>) -> bool {
    exists|i: int|
        0 <= i < rules.len() && ((#[trigger] rules[i]).stopped_ttl is Some || rules[i].running_ttl
            is Some)
}

/// Whether containers must be inspected for a configuration's rules.
pub fn needs_container_state(config: &Config) -> (needed: bool)
    ensures
        needed == state_is_measured(config@.rules.containers),
{
    broadcast use group_views;

    let rules = &config.rules.containers;
    let mut index: usize = 0;
    while index < rules.len()
        invariant
            index <= rules@.len(),
            views(rules@) == config@.rules.containers,
            forall|i: int|
                0 <= i < index ==> (#[trigger] views(rules@)[i]).stopped_ttl is None && views(
                    rules@,
                )[i].running_ttl is None,
        decreases rules@.len() - index,
    {
        if rules[index].stopped_ttl.is_some() || rules[index].running_ttl.is_some() {
            assert(views(rules@)[index as int].stopped_ttl is Some || views(
                rules@,
            )[index as int].running_ttl is Some);
            return true;
        }
        index += 1;
    }
    false
}

/// The state that an inspection shows, and since when it holds.
pub open spec fn snapshot_of(
    status: Option<Seq<char>>,
    started: Option<Seq<char>>,
    finished: Option<Seq<char>>,
) -> SnapshotView {
    let state = match status {
        Some(word) => word,
        None => "unknown"@,
    };
    SnapshotView {
        state,
        since: if runs(state) {
            opt_epoch(started)
        } else if stopped(state) {
            opt_epoch(finished)
        } else {
            None
        },
    }
}

/// Reads an inspection: a running container counts from its start, a stopped
/// one from its end.
pub fn state_snapshot(response: &InspectRecord) -> (snapshot: ContainerStateSnapshot)
    ensures
        snapshot@ == snapshot_of(
            opt_view(response.status),
            opt_view(response.started_at),
            opt_view(response.finished_at),
        ),
{
    let state = match &response.status {
        Some(word) => word.clone(),
        None => "unknown".to_owned(),
    };
    let since = if is_running_word(state.as_str()) {
        read_opt_epoch(&response.started_at)
    } else if is_stopped_word(state.as_str()) {
        read_opt_epoch(&response.finished_at)
    } else {
        None
    };
    ContainerStateSnapshot { state, since }
}

} // verus!
