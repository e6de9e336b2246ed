//! Docker resources as the policy reads them.

use crate::text::{clone_texts, group_views, views};
use crate::text_map::TextMap;
use vstd::prelude::*;

verus! {

/// What kind of Docker object a resource is.
#[derive(Debug, Clone, Copy, PartialEq, Eq, PartialOrd, Ord, Structural)]
pub enum ResourceKind {
    Container,
    Image,
    Volume,
    Network,
    BuildCache,
}

/// The word for a kind of resource.
pub open spec fn kind_text(kind: ResourceKind) -> Seq<char> {
    match kind {
        ResourceKind::Container => "container"@,
        ResourceKind::Image => "image"@,
        ResourceKind::Volume => "volume"@,
        ResourceKind::Network => "network"@,
        ResourceKind::BuildCache => "build-cache"@,
    }
}

/// The place of a kind in the order of kinds.
pub open spec fn kind_rank(kind: ResourceKind) -> int {
    match kind {
        ResourceKind::Container => 0,
        ResourceKind::Image => 1,
        ResourceKind::Volume => 2,
        ResourceKind::Network => 3,
        ResourceKind::BuildCache => 4,
    }
}

impl ResourceKind {
    /// The word for this kind.
    pub fn as_text(self) -> (word: &'static str)
        ensures
            word@ == kind_text(self),
    {
        match self {
            ResourceKind::Container => "container",
            ResourceKind::Image => "image",
            ResourceKind::Volume => "volume",
            ResourceKind::Network => "network",
            ResourceKind::BuildCache => "build-cache",
        }
    }

    /// The place of this kind in the order of kinds.
    pub fn rank(self) -> (place: u8)
        ensures
            place == kind_rank(self),
    {
        match self {
            ResourceKind::Container => 0,
            ResourceKind::Image => 1,
            ResourceKind::Volume => 2,
            ResourceKind::Network => 3,
            ResourceKind::BuildCache => 4,
        }
    }
}

/// What a resource is doing.
#[derive(Debug, PartialEq, Eq)]
pub enum ResourceState {
    Running,
    Stopped,
    Available,
    Other(String),
}

/// What a resource is doing, with the words of an unknown state.
pub enum ResourceStateView {
    Running,
    Stopped,
    Available,
    Other(Seq<char>),
}

impl View for ResourceState {
    type V = ResourceStateView;

    open spec fn view(&self) -> ResourceStateView {
        match self {
            ResourceState::Running => ResourceStateView::Running,
            ResourceState::Stopped => ResourceStateView::Stopped,
            ResourceState::Available => ResourceStateView::Available,
            ResourceState::Other(words) => ResourceStateView::Other(words@),
        }
    }
}

/// The words for a state.
pub open spec fn state_text(state: ResourceStateView) -> Seq<char> {
    match state {
        ResourceStateView::Running => "running"@,
        ResourceStateView::Stopped => "stopped"@,
        ResourceStateView::Available => "available"@,
        ResourceStateView::Other(words) => words,
    }
}

impl ResourceState {
    /// The words for this state.
    pub fn as_text(&self) -> (words: String)
        ensures
            words@ == state_text(self@),
    {
        match self {
            ResourceState::Running => "running".to_owned(),
            ResourceState::Stopped => "stopped".to_owned(),
            ResourceState::Available => "available".to_owned(),
            ResourceState::Other(words) => words.clone(),
        }
    }

    /// Whether the state is `Running`.
    pub fn is_running(&self) -> (running: bool)
        ensures
            running == (self@ is Running),
    {
        match self {
            ResourceState::Running => true,
            _ => false,
        }
    }
}

impl Clone for ResourceState {
    fn clone(&self) -> (copy: Self)
        ensures
            copy@ == self@,
    {
        match self {
            ResourceState::Running => ResourceState::Running,
            ResourceState::Stopped => ResourceState::Stopped,
            ResourceState::Available => ResourceState::Available,
            ResourceState::Other(words) => ResourceState::Other(words.clone()),
        }
    }
}

/// One Docker object in an inventory.
#[derive(Debug, PartialEq, Eq)]
pub struct InventoryItem {
    pub kind: ResourceKind,
    pub id: String,
    pub name: String,
    pub search_names: Vec<String>,
    pub parent_ids: Vec<String>,
    pub labels: TextMap<String>,
    pub mounts: Vec<String>,
    pub state: ResourceState,
    pub created_at: Option<i64>,
    pub state_since: Option<i64>,
    pub size: Option<u64>,
    pub referenced: bool,
    pub dangling: bool,
    pub system: bool,
}

/// What an inventory item says.
#[verifier::ext_equal]
pub struct ItemView {
    pub kind: ResourceKind,
    pub id: Seq<char>,
    pub name: Seq<char>,
    pub search_names: Seq<Seq<char>>,
    pub parent_ids: Seq<Seq<char>>,
    pub labels: Seq<(Seq<char>, Seq<char>)>,
    pub mounts: Seq<Seq<char>>,
    pub state: ResourceStateView,
    pub created_at: Option<i64>,
    pub state_since: Option<i64>,
    pub size: Option<u64>,
    pub referenced: bool,
    pub dangling: bool,
    pub system: bool,
}

impl View for InventoryItem {
    type V = ItemView;

    open spec fn view(&self) -> ItemView {
        ItemView {
            kind: self.kind,
            id: self.id@,
            name: self.name@,
            search_names: views(self.search_names@),
            parent_ids: views(self.parent_ids@),
            labels: self.labels@,
            mounts: views(self.mounts@),
            state: self.state@,
            created_at: self.created_at,
            state_since: self.state_since,
            size: self.size,
            referenced: self.referenced,
            dangling: self.dangling,
            system: self.system,
        }
    }
}

impl Clone for InventoryItem {
    fn clone(&self) -> (copy: Self)
        ensures
            copy@ == self@,
    {
        InventoryItem {
            kind: self.kind,
            id: self.id.clone(),
            name: self.name.clone(),
            search_names: clone_texts(&self.search_names),
            parent_ids: clone_texts(&self.parent_ids),
            labels: self.labels.clone(),
            mounts: clone_texts(&self.mounts),
            state: self.state.clone(),
            created_at: self.created_at,
            state_since: self.state_since,
            size: self.size,
            referenced: self.referenced,
            dangling: self.dangling,
            system: self.system,
        }
    }
}

/// Copies an inventory.
pub fn clone_items(items: &Vec<InventoryItem>) -> (copy: Vec<InventoryItem>)
    ensures
        views(copy@) == views(items@),
{
    broadcast use group_views;

    let mut copy: Vec<InventoryItem> = Vec::new();
    let mut index: usize = 0;
    assert(views(copy@) =~= views(items@).take(0));
    while index < items.len()
        invariant
            index <= items@.len(),
            views(copy@) == views(items@).take(index as int),
        decreases items@.len() - index,
    {
        assert(views(items@).take(index as int + 1) =~= views(items@).take(index as int).push(
            items@[index as int]@,
        ));
        copy.push(items[index].clone());
        index += 1;
    }
    assert(views(items@).take(index as int) =~= views(items@));
    copy
}

} // verus!
