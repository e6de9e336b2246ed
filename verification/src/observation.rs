//! How long a resource has been seen unreferenced without interruption.
//!
//! Docker exposes no detach timestamp, so policies on unused resources measure
//! observed time: every pass rebuilds this record from the current inventory.
//! A resource seen unreferenced for the first time has an age of zero.

use crate::duration::{age_seconds, elapsed};
use crate::order::{
    lemma_text_lt_irreflexive, lemma_text_lt_total, lemma_text_lt_transitive, precedes, sort,
    text_lt, Ordered, Ranked,
};
use crate::resource::{InventoryItem, ItemView, ResourceKind};
use crate::state::{StateError, StatePaths};
use crate::text::{
    blank, concat4, decimal, decimal_text, group_views, is_blank, text_eq, views,
};
use crate::unique::{dedup, ordered_once, Same};
use vstd::prelude::*;
use vstd::string::*;

verus! {

/// The version of the observation file that this library reads and writes.
pub const SCHEMA_VERSION: u32 = 1;

/// The kinds of resource whose policies use the observed clock.
///
/// A container has its exact finish time and a build-cache record its own last
/// use, so neither is observed.
#[derive(Debug, Clone, Copy, PartialEq, Eq, PartialOrd, Ord, Structural)]
pub enum ObservedKind {
    Image,
    Volume,
    Network,
}

/// The observed kind of a resource kind.
pub open spec fn observed_kind(kind: ResourceKind) -> Option<ObservedKind> {
    match kind {
        ResourceKind::Image => Some(ObservedKind::Image),
        ResourceKind::Volume => Some(ObservedKind::Volume),
        ResourceKind::Network => Some(ObservedKind::Network),
        ResourceKind::Container | ResourceKind::BuildCache => None,
    }
}

/// The place of an observed kind in their order.
pub open spec fn observed_rank(kind: ObservedKind) -> int {
    match kind {
        ObservedKind::Image => 0,
        ObservedKind::Volume => 1,
        ObservedKind::Network => 2,
    }
}

impl ObservedKind {
    /// The observed kind of a resource kind.
    pub fn from_resource_kind(kind: ResourceKind) -> (observed: Option<Self>)
        ensures
            observed == observed_kind(kind),
    {
        match kind {
            ResourceKind::Image => Some(ObservedKind::Image),
            ResourceKind::Volume => Some(ObservedKind::Volume),
            ResourceKind::Network => Some(ObservedKind::Network),
            ResourceKind::Container | ResourceKind::BuildCache => None,
        }
    }

    fn rank(self) -> (place: u8)
        ensures
            place == observed_rank(self),
    {
        match self {
            ObservedKind::Image => 0,
            ObservedKind::Volume => 1,
            ObservedKind::Network => 2,
        }
    }
}

/// Since when one resource has been seen unreferenced.
#[derive(Debug, PartialEq, Eq, PartialOrd, Ord)]
pub struct ObservationEntry {
    pub kind: ObservedKind,
    pub id: String,
    /// Docker's creation timestamp, by which a reused identity is told apart.
    pub created_at: Option<i64>,
    pub first_unreferenced_at: i64,
}

/// What an observation entry says.
pub struct ObservationEntryView {
    pub kind: ObservedKind,
    pub id: Seq<char>,
    pub created_at: Option<i64>,
    pub first_unreferenced_at: i64,
}

impl View for ObservationEntry {
    type V = ObservationEntryView;

    open spec fn view(&self) -> ObservationEntryView {
        ObservationEntryView {
            kind: self.kind,
            id: self.id@,
            created_at: self.created_at,
            first_unreferenced_at: self.first_unreferenced_at,
        }
    }
}

impl Clone for ObservationEntry {
    fn clone(&self) -> (copy: Self)
        ensures
            copy@ == self@,
    {
        ObservationEntry {
            kind: self.kind,
            id: self.id.clone(),
            created_at: self.created_at,
            first_unreferenced_at: self.first_unreferenced_at,
        }
    }
}

/// Whether one optional moment comes before another; none comes first.
pub open spec fn moment_lt(left: Option<i64>, right: Option<i64>) -> bool {
    match (left, right) {
        (None, Some(_)) => true,
        (Some(a), Some(b)) => a < b,
        _ => false,
    }
}

impl Ranked for ObservationEntry {
    /// By kind, then id, then creation, then the start of the clock.
    open spec fn ranks(left: ObservationEntryView, right: ObservationEntryView) -> bool {
        if left.kind != right.kind {
            observed_rank(left.kind) < observed_rank(right.kind)
        } else if left.id != right.id {
            text_lt(left.id, right.id)
        } else if left.created_at != right.created_at {
            moment_lt(left.created_at, right.created_at)
        } else {
            left.first_unreferenced_at <= right.first_unreferenced_at
        }
    }

    proof fn ranks_total(left: ObservationEntryView, right: ObservationEntryView) {
        lemma_text_lt_total(left.id, right.id);
    }

    proof fn ranks_transitive(
        a: ObservationEntryView,
        b: ObservationEntryView,
        c: ObservationEntryView,
    ) {
        if a.kind == b.kind && b.kind == c.kind && a.id != b.id && b.id != c.id {
            lemma_text_lt_transitive(a.id, b.id, c.id);
            lemma_text_lt_irreflexive(a.id);
            if a.id == c.id {
                assert(text_lt(a.id, a.id));
            }
        }
    }

    fn in_order(&self, other: &Self) -> (held: bool) {
        let left: u8 = self.kind.rank();
        let right: u8 = other.kind.rank();
        if left != right {
            return left < right;
        }
        if !text_eq(self.id.as_str(), other.id.as_str()) {
            return precedes(self.id.as_str(), other.id.as_str());
        }
        match (self.created_at, other.created_at) {
            (None, Some(_)) => true,
            (Some(_), None) => false,
            (Some(a), Some(b)) => if a != b {
                a < b
            } else {
                self.first_unreferenced_at <= other.first_unreferenced_at
            },
            (None, None) => self.first_unreferenced_at <= other.first_unreferenced_at,
        }
    }
}

impl Ordered for ObservationEntry {
    proof fn ranks_antisymmetric(left: ObservationEntryView, right: ObservationEntryView) {
        if left.id != right.id {
            if text_lt(left.id, right.id) && text_lt(right.id, left.id) {
                lemma_text_lt_transitive(left.id, right.id, left.id);
                lemma_text_lt_irreflexive(left.id);
            }
        }
    }
}

fn same_moment(left: Option<i64>, right: Option<i64>) -> (same: bool)
    ensures
        same == (left == right),
{
    match (left, right) {
        (Some(a), Some(b)) => a == b,
        (None, None) => true,
        _ => false,
    }
}

impl Same for ObservationEntry {
    fn same(&self, other: &Self) -> (held: bool) {
        self.kind == other.kind && text_eq(self.id.as_str(), other.id.as_str()) && same_moment(
            self.created_at,
            other.created_at,
        ) && self.first_unreferenced_at == other.first_unreferenced_at
    }
}

/// The observation record.
#[derive(Debug, PartialEq, Eq)]
pub struct ObservationState {
    pub schema_version: u32,
    pub entries: Vec<ObservationEntry>,
}

/// What an observation record says.
#[verifier::ext_equal]
pub struct ObservationStateView {
    pub schema_version: u32,
    pub entries: Seq<ObservationEntryView>,
}

impl View for ObservationState {
    type V = ObservationStateView;

    open spec fn view(&self) -> ObservationStateView {
        ObservationStateView { schema_version: self.schema_version, entries: views(self.entries@) }
    }
}

/// The record without entries.
pub open spec fn empty_observations() -> ObservationStateView {
    ObservationStateView { schema_version: SCHEMA_VERSION, entries: Seq::empty() }
}

/// The first entry for a resource.
pub open spec fn entry_for(
    entries: Seq<ObservationEntryView>,
    kind: ObservedKind,
    id: Seq<char>,
) -> Option<ObservationEntryView>
    decreases entries.len(),
{
    if entries.len() == 0 {
        None
    } else if entries[0].kind == kind && entries[0].id == id {
        Some(entries[0])
    } else {
        entry_for(entries.drop_first(), kind, id)
    }
}

/// The clock that an item carries on from a record: where the record holds the
/// same resource and not another one under a reused identity.
pub open spec fn carried_clock(
    entries: Seq<ObservationEntryView>,
    item: ItemView,
) -> Option<i64> {
    match observed_kind(item.kind) {
        None => None,
        Some(kind) => match entry_for(entries, kind, item.id) {
            Some(entry) => if entry.created_at == item.created_at {
                Some(entry.first_unreferenced_at)
            } else {
                None
            },
            None => None,
        },
    }
}

/// The entry that an item gets in the next record, where it gets one.
pub open spec fn observation_of(
    entries: Seq<ObservationEntryView>,
    item: ItemView,
    now: i64,
) -> Option<ObservationEntryView> {
    if item.referenced {
        None
    } else {
        match observed_kind(item.kind) {
            None => None,
            Some(kind) => Some(
                ObservationEntryView {
                    kind,
                    id: item.id,
                    created_at: item.created_at,
                    first_unreferenced_at: match carried_clock(entries, item) {
                        Some(since) => since,
                        None => now,
                    },
                },
            ),
        }
    }
}

/// The entries that an inventory gives, in its order.
pub open spec fn observations_of(
    entries: Seq<ObservationEntryView>,
    inventory: Seq<ItemView>,
    now: i64,
) -> Seq<ObservationEntryView>
    decreases inventory.len(),
{
    if inventory.len() == 0 {
        Seq::empty()
    } else {
        let before = observations_of(entries, inventory.drop_last(), now);
        match observation_of(entries, inventory.last(), now) {
            Some(entry) => before.push(entry),
            None => before,
        }
    }
}

/// The next record.
pub open spec fn next_record(
    entries: Seq<ObservationEntryView>,
    inventory: Seq<ItemView>,
    now: i64,
) -> ObservationStateView {
    ObservationStateView {
        schema_version: SCHEMA_VERSION,
        entries: ordered_once::<ObservationEntry>(observations_of(entries, inventory, now)),
    }
}

/// How long an item has been seen unreferenced.
pub open spec fn observed_age(
    entries: Seq<ObservationEntryView>,
    item: ItemView,
    now: i64,
) -> Option<u64> {
    match carried_clock(entries, item) {
        Some(since) => elapsed(now, since),
        None => None,
    }
}

impl Default for ObservationState {
    fn default() -> (state: Self)
        ensures
            state@ == empty_observations(),
    {
        ObservationState::empty()
    }
}

impl ObservationState {
    /// A record with no entries.
    pub fn empty() -> (state: Self)
        ensures
            state@ == empty_observations(),
    {
        let entries: Vec<ObservationEntry> = Vec::new();
        assert(views(entries@) =~= Seq::<ObservationEntryView>::empty());
        ObservationState { schema_version: SCHEMA_VERSION, entries }
    }

    fn find(&self, kind: ObservedKind, id: &str) -> (found: Option<&ObservationEntry>)
        ensures
            match found {
                Some(entry) => entry_for(self@.entries, kind, id@) == Some(entry@),
                None => entry_for(self@.entries, kind, id@) is None,
            },
    {
        broadcast use group_views;

        let ghost all = views(self.entries@);
        let mut index: usize = 0;
        assert(all.skip(0) =~= all);
        while index < self.entries.len()
            invariant
                index <= self.entries@.len(),
                all == views(self.entries@),
                entry_for(all, kind, id@) == entry_for(all.skip(index as int), kind, id@),
            decreases self.entries@.len() - index,
        {
            assert(all.skip(index as int)[0] == self.entries@[index as int]@);
            if self.entries[index].kind == kind && text_eq(self.entries[index].id.as_str(), id) {
                return Some(&self.entries[index]);
            }
            assert(all.skip(index as int).drop_first() =~= all.skip(index as int + 1));
            index += 1;
        }
        None
    }

    fn clock(&self, item: &InventoryItem) -> (since: Option<i64>)
        ensures
            since == carried_clock(self@.entries, item@),
    {
        match ObservedKind::from_resource_kind(item.kind) {
            None => None,
            Some(kind) => match self.find(kind, item.id.as_str()) {
                Some(entry) => if same_moment(entry.created_at, item.created_at) {
                    Some(entry.first_unreferenced_at)
                } else {
                    None
                },
                None => None,
            },
        }
    }

    /// The record after a pass over an inventory: every clock that has run
    /// without interruption is carried forward. A resource that is referenced
    /// again, that no longer exists, or whose identity was reused does not
    /// carry its old clock.
    pub fn folded(&self, inventory: &Vec<InventoryItem>, now_epoch_seconds: i64) -> (next: Self)
        ensures
            next@ == next_record(self@.entries, views(inventory@), now_epoch_seconds),
    {
        broadcast use group_views;

        let ghost all = views(inventory@);
        let mut entries: Vec<ObservationEntry> = Vec::new();
        let mut index: usize = 0;
        assert(views(entries@) =~= observations_of(
            self@.entries,
            all.take(0),
            now_epoch_seconds,
        ));
        while index < inventory.len()
            invariant
                index <= inventory@.len(),
                all == views(inventory@),
                views(entries@) == observations_of(
                    self@.entries,
                    all.take(index as int),
                    now_epoch_seconds,
                ),
            decreases inventory@.len() - index,
        {
            let item = &inventory[index];
            assert(all.take(index as int + 1).drop_last() =~= all.take(index as int));
            assert(all.take(index as int + 1).last() == item@);
            if !item.referenced {
                match ObservedKind::from_resource_kind(item.kind) {
                    Some(kind) => {
                        let first_unreferenced_at: i64 = match self.clock(item) {
                            Some(since) => since,
                            None => now_epoch_seconds,
                        };
                        let entry = ObservationEntry {
                            kind,
                            id: item.id.clone(),
                            created_at: item.created_at,
                            first_unreferenced_at,
                        };
                        entries.push(entry);
                    },
                    None => {},
                }
            }
            index += 1;
        }
        assert(all.take(index as int) =~= all);
        ObservationState { schema_version: SCHEMA_VERSION, entries: dedup(sort(entries)) }
    }

    /// How long a resource has been continuously seen unreferenced.
    ///
    /// There is no age where the resource has no record, where its identity was
    /// reused, or where the recorded time lies in the future.
    pub fn unreferenced_age(&self, item: &InventoryItem, now_epoch_seconds: i64) -> (age: Option<
        u64,
    >)
        ensures
            age == observed_age(self@.entries, item@, now_epoch_seconds),
    {
        age_seconds(now_epoch_seconds, self.clock(item))
    }

    /// A copy of the record.
    pub fn copied(&self) -> (copy: Self)
        ensures
            copy@ == self@,
    {
        broadcast use group_views;

        let mut entries: Vec<ObservationEntry> = Vec::new();
        let mut index: usize = 0;
        assert(views(entries@) =~= views(self.entries@).take(0));
        while index < self.entries.len()
            invariant
                index <= self.entries@.len(),
                views(entries@) == views(self.entries@).take(index as int),
            decreases self.entries@.len() - index,
        {
            assert(views(self.entries@).take(index as int + 1) =~= views(self.entries@).take(
                index as int,
            ).push(self.entries@[index as int]@));
            entries.push(self.entries[index].clone());
            index += 1;
        }
        assert(views(self.entries@).take(index as int) =~= views(self.entries@));
        ObservationState { schema_version: self.schema_version, entries }
    }
}

/// Why a stored record is refused.
pub open spec fn stored_fault(state: ObservationStateView) -> Option<Seq<char>> {
    if state.schema_version != SCHEMA_VERSION {
        Some(
            "unsupported observation state schema_version "@ + decimal(state.schema_version as nat)
                + "; expected "@ + decimal(SCHEMA_VERSION as nat),
        )
    } else if exists|i: int| 0 <= i < state.entries.len() && is_blank(#[trigger] state.entries[i].id)
    {
        Some("observation entries must not have a blank id"@)
    } else {
        None
    }
}

/// Checks a record read from its file and puts its entries in order.
pub fn accept_observations(state: ObservationState) -> (outcome: Result<
    ObservationState,
    StateError,
>)
    ensures
        match outcome {
            Ok(accepted) => {
                &&& stored_fault(state@) is None
                &&& accepted@.schema_version == SCHEMA_VERSION
                &&& accepted@.entries == ordered_once::<ObservationEntry>(state@.entries)
            },
            Err(StateError::Invalid(message)) => stored_fault(state@) == Some(message@),
            Err(_) => false,
        },
{
    broadcast use group_views;

    if state.schema_version != SCHEMA_VERSION {
        return Err(
            StateError::Invalid(
                concat4(
                    "unsupported observation state schema_version ",
                    decimal_text(state.schema_version as u64).as_str(),
                    "; expected ",
                    decimal_text(SCHEMA_VERSION as u64).as_str(),
                ),
            ),
        );
    }
    let mut index: usize = 0;
    while index < state.entries.len()
        invariant
            index <= state.entries@.len(),
            state.schema_version == SCHEMA_VERSION,
            forall|i: int| 0 <= i < index ==> !is_blank(#[trigger] state@.entries[i].id),
        decreases state.entries@.len() - index,
    {
        if blank(state.entries[index].id.as_str()) {
            assert(is_blank(state@.entries[index as int].id));
            return Err(
                StateError::Invalid("observation entries must not have a blank id".to_owned()),
            );
        }
        index += 1;
    }
    Ok(ObservationState { schema_version: SCHEMA_VERSION, entries: dedup(sort(state.entries)) })
}

/// The observation record in its place below the state directory.
#[derive(Debug, PartialEq, Eq)]
pub struct ObservationStore {
    paths: StatePaths,
}

impl ObservationStore {
    /// The directory that holds the state.
    pub closed spec fn directory(&self) -> Seq<char> {
        self.paths.directory()
    }

    /// The store below the given paths.
    pub fn new(paths: StatePaths) -> (store: Self)
        ensures
            store.directory() == paths.directory(),
    {
        ObservationStore { paths }
    }

    /// Where the store keeps its files.
    pub fn paths(&self) -> (paths: &StatePaths)
        ensures
            paths.directory() == self.directory(),
    {
        &self.paths
    }

    /// The record to write after a pass over an inventory. `stored` is the
    /// record as its file holds it.
    pub fn record(
        &self,
        stored: ObservationState,
        inventory: &Vec<InventoryItem>,
        now_epoch_seconds: i64,
    ) -> (outcome: Result<ObservationState, StateError>)
        ensures
            match outcome {
                Ok(next) => {
                    &&& stored_fault(stored@) is None
                    &&& next@ == next_record(
                        ordered_once::<ObservationEntry>(stored@.entries),
                        views(inventory@),
                        now_epoch_seconds,
                    )
                },
                Err(StateError::Invalid(message)) => stored_fault(stored@) == Some(message@),
                Err(_) => false,
            },
    {
        match accept_observations(stored) {
            Ok(state) => Ok(state.folded(inventory, now_epoch_seconds)),
            Err(error) => Err(error),
        }
    }
}

} // verus!
