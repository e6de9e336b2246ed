//! Families of resources that a configuration can adopt.

use crate::config::{config_error_text, ConfigError};
use crate::labels::{compose_entry, is_compose_project};
use crate::naming::{add_size, known_bytes};
use crate::order::{
    lemma_text_le_transitive, lemma_text_lt_irreflexive, lemma_text_lt_transitive, precedes,
    text_le, text_lt, Ranked,
};
use crate::outside::{quote, quoted};
use crate::resource::{kind_text, InventoryItem, ItemView, ResourceKind};
use crate::text::{
    clone_opt_text, concat3, concat5, group_views, opt_view, text_eq, views,
};
use vstd::prelude::*;
use vstd::string::*;

verus! {

/// The version of the documents that the configurator reads and writes.
pub const CONFIGURATOR_SCHEMA_VERSION: u32 = 1;

/// Why a configurator request is refused.
#[derive(Debug)]
pub enum ConfiguratorError {
    /// The request cannot be met as it stands.
    Invalid(String),
    /// What the request was made from has changed since.
    Stale(String),
    /// A file could not be read or written.
    Io { path: String, message: String },
    /// A configuration source is not valid.
    Config(ConfigError),
}

/// What a configurator error says.
pub open spec fn configurator_error_text(error: ConfiguratorError) -> Seq<char> {
    match error {
        ConfiguratorError::Invalid(message) => message@,
        ConfiguratorError::Stale(message) => message@,
        ConfiguratorError::Io { path, message } => path@ + ": "@ + message@,
        ConfiguratorError::Config(error) => config_error_text(error),
    }
}

impl ConfiguratorError {
    /// The error in words.
    pub fn message(&self) -> (words: String)
        ensures
            words@ == configurator_error_text(*self),
    {
        match self {
            ConfiguratorError::Invalid(message) => message.clone(),
            ConfiguratorError::Stale(message) => message.clone(),
            ConfiguratorError::Io { path, message } => concat3(
                path.as_str(),
                ": ",
                message.as_str(),
            ),
            ConfiguratorError::Config(error) => error.message(),
        }
    }
}

/// What ties the resources of a family together.
#[derive(Debug, PartialEq, Eq)]
pub enum CandidateSelector {
    /// A label with this key and value.
    ExactLabel { key: String, value: String },
    /// A name of this kind that begins with the prefix.
    NamePrefix { resource_kind: String, prefix: String },
    /// The build cache as a whole.
    BuildCache,
}

/// What a selector says.
pub enum CandidateSelectorView {
    ExactLabel { key: Seq<char>, value: Seq<char> },
    NamePrefix { resource_kind: Seq<char>, prefix: Seq<char> },
    BuildCache,
}

impl View for CandidateSelector {
    type V = CandidateSelectorView;

    open spec fn view(&self) -> CandidateSelectorView {
        match self {
            CandidateSelector::ExactLabel { key, value } => CandidateSelectorView::ExactLabel {
                key: key@,
                value: value@,
            },
            CandidateSelector::NamePrefix { resource_kind, prefix } =>
                CandidateSelectorView::NamePrefix { resource_kind: resource_kind@, prefix: prefix@ },
            CandidateSelector::BuildCache => CandidateSelectorView::BuildCache,
        }
    }
}

impl Clone for CandidateSelector {
    fn clone(&self) -> (copy: Self)
        ensures
            copy@ == self@,
    {
        match self {
            CandidateSelector::ExactLabel { key, value } => CandidateSelector::ExactLabel {
                key: key.clone(),
                value: value.clone(),
            },
            CandidateSelector::NamePrefix { resource_kind, prefix } => CandidateSelector::NamePrefix {
                resource_kind: resource_kind.clone(),
                prefix: prefix.clone(),
            },
            CandidateSelector::BuildCache => CandidateSelector::BuildCache,
        }
    }
}

/// A selector written out, its texts quoted.
pub open spec fn selector_text(selector: CandidateSelectorView) -> Seq<char> {
    match selector {
        CandidateSelectorView::ExactLabel { key, value } => "ExactLabel { key: "@ + quoted(key)
            + ", value: "@ + quoted(value) + " }"@,
        CandidateSelectorView::NamePrefix { resource_kind, prefix } =>
            "NamePrefix { resource_kind: "@ + quoted(resource_kind) + ", prefix: "@ + quoted(prefix)
                + " }"@,
        CandidateSelectorView::BuildCache => "BuildCache"@,
    }
}

/// Whether a selector names a Compose project.
pub open spec fn selects_compose(selector: CandidateSelectorView) -> bool {
    selector matches CandidateSelectorView::ExactLabel { key, .. } && key == compose_entry().key
}

impl CandidateSelector {
    /// The selector written out, its texts quoted.
    pub fn written(&self) -> (text: String)
        ensures
            text@ == selector_text(self@),
    {
        match self {
            CandidateSelector::ExactLabel { key, value } => concat5(
                "ExactLabel { key: ",
                quote(key.as_str()).as_str(),
                ", value: ",
                quote(value.as_str()).as_str(),
                " }",
            ),
            CandidateSelector::NamePrefix { resource_kind, prefix } => concat5(
                "NamePrefix { resource_kind: ",
                quote(resource_kind.as_str()).as_str(),
                ", prefix: ",
                quote(prefix.as_str()).as_str(),
                " }",
            ),
            CandidateSelector::BuildCache => "BuildCache".to_owned(),
        }
    }

    /// Whether the selector names a Compose project.
    pub fn is_compose(&self) -> (found: bool)
        ensures
            found == selects_compose(self@),
    {
        match self {
            CandidateSelector::ExactLabel { key, .. } => is_compose_project(key.as_str()),
            _ => false,
        }
    }
}

/// One resource of a family.
#[derive(Debug, PartialEq, Eq)]
pub struct CandidateResource {
    pub resource_kind: String,
    pub id: String,
    pub name: String,
    pub size: Option<u64>,
    pub referenced: bool,
    pub running: bool,
}

/// What a resource of a family says.
#[verifier::ext_equal]
pub struct CandidateResourceView {
    pub resource_kind: Seq<char>,
    pub id: Seq<char>,
    pub name: Seq<char>,
    pub size: Option<u64>,
    pub referenced: bool,
    pub running: bool,
}

impl View for CandidateResource {
    type V = CandidateResourceView;

    open spec fn view(&self) -> CandidateResourceView {
        CandidateResourceView {
            resource_kind: self.resource_kind@,
            id: self.id@,
            name: self.name@,
            size: self.size,
            referenced: self.referenced,
            running: self.running,
        }
    }
}

impl Clone for CandidateResource {
    fn clone(&self) -> (copy: Self)
        ensures
            copy@ == self@,
    {
        CandidateResource {
            resource_kind: self.resource_kind.clone(),
            id: self.id.clone(),
            name: self.name.clone(),
            size: self.size,
            referenced: self.referenced,
            running: self.running,
        }
    }
}

/// An inventory item as a resource of a family.
pub open spec fn resource_of(item: ItemView) -> CandidateResourceView {
    CandidateResourceView {
        resource_kind: kind_text(item.kind),
        id: item.id,
        name: item.name,
        size: item.size,
        referenced: item.referenced,
        running: item.state is Running,
    }
}

/// Takes an inventory item as a resource of a family.
pub fn candidate_resource(item: &InventoryItem) -> (resource: CandidateResource)
    ensures
        resource@ == resource_of(item@),
{
    CandidateResource {
        resource_kind: item.kind.as_text().to_owned(),
        id: item.id.clone(),
        name: item.name.clone(),
        size: item.size,
        referenced: item.referenced,
        running: item.state.is_running(),
    }
}

/// Copies the resources of a family.
pub fn clone_resources(resources: &Vec<CandidateResource>) -> (copy: Vec<CandidateResource>)
    ensures
        views(copy@) == views(resources@),
{
    broadcast use group_views;

    let mut copy: Vec<CandidateResource> = Vec::new();
    let mut index: usize = 0;
    assert(views(copy@) =~= views(resources@).take(0));
    while index < resources.len()
        invariant
            index <= resources@.len(),
            views(copy@) == views(resources@).take(index as int),
        decreases resources@.len() - index,
    {
        assert(views(resources@).take(index as int + 1) =~= views(resources@).take(
            index as int,
        ).push(resources@[index as int]@));
        copy.push(resources[index].clone());
        index += 1;
    }
    assert(views(resources@).take(index as int) =~= views(resources@));
    copy
}

/// The sizes of resources.
pub open spec fn resource_sizes(resources: Seq<CandidateResourceView>) -> Seq<Option<u64>> {
    resources.map_values(|resource: CandidateResourceView| resource.size)
}

/// The bytes that resources are known to hold.
pub fn resource_bytes(resources: &Vec<CandidateResource>) -> (total: u64)
    ensures
        total == known_bytes(resource_sizes(views(resources@))),
{
    broadcast use group_views;

    let mut total: u64 = 0;
    let mut index: usize = 0;
    let ghost sizes = resource_sizes(views(resources@));
    assert(sizes.take(0) =~= Seq::empty());
    while index < resources.len()
        invariant
            index <= resources@.len(),
            sizes == resource_sizes(views(resources@)),
            total == known_bytes(sizes.take(index as int)),
        decreases resources@.len() - index,
    {
        assert(sizes.take(index as int + 1) =~= sizes.take(index as int).push(
            resources@[index as int].size,
        ));
        total = add_size(total, resources[index].size, Ghost(sizes.take(index as int)));
        index += 1;
    }
    assert(sizes.take(index as int) =~= sizes);
    total
}

/// Resources that share one explanation of who owns them.
#[derive(Debug, PartialEq, Eq)]
pub struct CandidateFamily {
    pub id: String,
    pub title: String,
    pub evidence: String,
    pub selector: CandidateSelector,
    pub resources: Vec<CandidateResource>,
    pub known_bytes: u64,
    pub warning: Option<String>,
}

/// What a family says.
#[verifier::ext_equal]
pub struct CandidateFamilyView {
    pub id: Seq<char>,
    pub title: Seq<char>,
    pub evidence: Seq<char>,
    pub selector: CandidateSelectorView,
    pub resources: Seq<CandidateResourceView>,
    pub known_bytes: u64,
    pub warning: Option<Seq<char>>,
}

impl View for CandidateFamily {
    type V = CandidateFamilyView;

    open spec fn view(&self) -> CandidateFamilyView {
        CandidateFamilyView {
            id: self.id@,
            title: self.title@,
            evidence: self.evidence@,
            selector: self.selector@,
            resources: views(self.resources@),
            known_bytes: self.known_bytes,
            warning: opt_view(self.warning),
        }
    }
}

impl Clone for CandidateFamily {
    fn clone(&self) -> (copy: Self)
        ensures
            copy@ == self@,
    {
        CandidateFamily {
            id: self.id.clone(),
            title: self.title.clone(),
            evidence: self.evidence.clone(),
            selector: self.selector.clone(),
            resources: clone_resources(&self.resources),
            known_bytes: self.known_bytes,
            warning: clone_opt_text(&self.warning),
        }
    }
}

impl Ranked for CandidateFamily {
    /// By id.
    open spec fn ranks(left: CandidateFamilyView, right: CandidateFamilyView) -> bool {
        text_le(left.id, right.id)
    }

    proof fn ranks_total(left: CandidateFamilyView, right: CandidateFamilyView) {
        if text_lt(right.id, left.id) && text_lt(left.id, right.id) {
            lemma_text_lt_transitive(left.id, right.id, left.id);
            lemma_text_lt_irreflexive(left.id);
        }
    }

    proof fn ranks_transitive(
        a: CandidateFamilyView,
        b: CandidateFamilyView,
        c: CandidateFamilyView,
    ) {
        lemma_text_le_transitive(a.id, b.id, c.id);
    }

    fn in_order(&self, other: &Self) -> (held: bool) {
        !precedes(other.id.as_str(), self.id.as_str())
    }
}

/// How much of an inventory the families cover.
#[derive(Debug, Clone, Copy, PartialEq, Eq, Structural)]
pub struct SurveySummary {
    pub total_resources: usize,
    pub candidate_resources: usize,
    pub unowned_resources: usize,
    pub known_bytes: u64,
}

/// The families found in an inventory.
#[derive(Debug, PartialEq, Eq)]
pub struct ConfiguratorSurvey {
    pub schema_version: u32,
    pub snapshot_id: String,
    pub candidates: Vec<CandidateFamily>,
    pub summary: SurveySummary,
}

/// What a survey says.
#[verifier::ext_equal]
pub struct SurveyView {
    pub schema_version: u32,
    pub snapshot_id: Seq<char>,
    pub candidates: Seq<CandidateFamilyView>,
    pub summary: SurveySummary,
}

impl View for ConfiguratorSurvey {
    type V = SurveyView;

    open spec fn view(&self) -> SurveyView {
        SurveyView {
            schema_version: self.schema_version,
            snapshot_id: self.snapshot_id@,
            candidates: views(self.candidates@),
            summary: self.summary,
        }
    }
}

impl Clone for ConfiguratorSurvey {
    fn clone(&self) -> (copy: Self)
        ensures
            copy@ == self@,
    {
        ConfiguratorSurvey {
            schema_version: self.schema_version,
            snapshot_id: self.snapshot_id.clone(),
            candidates: clone_families(&self.candidates),
            summary: self.summary,
        }
    }
}

/// Copies families.
pub fn clone_families(families: &Vec<CandidateFamily>) -> (copy: Vec<CandidateFamily>)
    ensures
        views(copy@) == views(families@),
{
    broadcast use group_views;

    let mut copy: Vec<CandidateFamily> = Vec::new();
    let mut index: usize = 0;
    assert(views(copy@) =~= views(families@).take(0));
    while index < families.len()
        invariant
            index <= families@.len(),
            views(copy@) == views(families@).take(index as int),
        decreases families@.len() - index,
    {
        assert(views(families@).take(index as int + 1) =~= views(families@).take(
            index as int,
        ).push(families@[index as int]@));
        copy.push(families[index].clone());
        index += 1;
    }
    assert(views(families@).take(index as int) =~= views(families@));
    copy
}

/// The kind that a word names.
pub open spec fn named_kind(word: Seq<char>) -> Option<ResourceKind> {
    if word == "container"@ {
        Some(ResourceKind::Container)
    } else if word == "image"@ {
        Some(ResourceKind::Image)
    } else if word == "volume"@ {
        Some(ResourceKind::Volume)
    } else if word == "network"@ {
        Some(ResourceKind::Network)
    } else if word == "build-cache"@ {
        Some(ResourceKind::BuildCache)
    } else {
        None
    }
}

/// The kind that a word names.
pub fn parse_resource_kind(word: &str) -> (kind: Option<ResourceKind>)
    ensures
        kind == named_kind(word@),
{
    if text_eq(word, "container") {
        Some(ResourceKind::Container)
    } else if text_eq(word, "image") {
        Some(ResourceKind::Image)
    } else if text_eq(word, "volume") {
        Some(ResourceKind::Volume)
    } else if text_eq(word, "network") {
        Some(ResourceKind::Network)
    } else if text_eq(word, "build-cache") {
        Some(ResourceKind::BuildCache)
    } else {
        None
    }
}

/// Reading the word of a kind gives the kind back.
pub proof fn kind_words_are_read_back(kind: ResourceKind)
    ensures
        named_kind(kind_text(kind)) == Some(kind),
{
    reveal_strlit("container");
    reveal_strlit("image");
    reveal_strlit("volume");
    reveal_strlit("network");
    reveal_strlit("build-cache");
    assert("container"@[0] == 'c');
    assert("image"@[0] == 'i');
    assert("volume"@[0] == 'v');
    assert("network"@[0] == 'n');
    assert("build-cache"@[0] == 'b');
}

/// The place of a family in the order of display.
pub open spec fn display_rank(selector: CandidateSelectorView) -> int {
    match selector {
        CandidateSelectorView::ExactLabel { .. } => if selects_compose(selector) {
            1
        } else {
            0
        },
        CandidateSelectorView::NamePrefix { .. } => 2,
        CandidateSelectorView::BuildCache => 3,
    }
}

/// The positions of the families of one rank.
pub open spec fn positions_at(families: Seq<CandidateFamilyView>, rank: int) -> Seq<int>
    decreases families.len(),
{
    if families.len() == 0 {
        Seq::empty()
    } else {
        let before = positions_at(families.drop_last(), rank);
        if display_rank(families.last().selector) == rank {
            before.push(families.len() - 1)
        } else {
            before
        }
    }
}

/// The positions of the families of the first `ranks` ranks, rank by rank.
pub open spec fn positions_below(families: Seq<CandidateFamilyView>, ranks: nat) -> Seq<int>
    decreases ranks,
{
    if ranks == 0 {
        Seq::empty()
    } else {
        positions_below(families, (ranks - 1) as nat) + positions_at(families, ranks - 1)
    }
}

/// The positions of families in the order of display: agent labels, Compose
/// projects, name prefixes, the build cache.
pub open spec fn display_order(families: Seq<CandidateFamilyView>) -> Seq<int> {
    positions_below(families, 4)
}

/// Machine integers as mathematical ones.
pub open spec fn as_ints(values: Seq<usize>) -> Seq<int> {
    values.map_values(|value: usize| value as int)
}

fn candidate_display_rank(selector: &CandidateSelector) -> (rank: u8)
    ensures
        rank == display_rank(selector@),
{
    match selector {
        CandidateSelector::ExactLabel { .. } => if selector.is_compose() {
            1
        } else {
            0
        },
        CandidateSelector::NamePrefix { .. } => 2,
        CandidateSelector::BuildCache => 3,
    }
}

/// The positions of families in the order of display; the families stay where
/// they are.
pub fn candidate_display_indices(candidates: &Vec<CandidateFamily>) -> (order: Vec<usize>)
    ensures
        as_ints(order@) == display_order(views(candidates@)),
{
    broadcast use group_views;

    let mut order: Vec<usize> = Vec::new();
    let mut rank: u8 = 0;
    let ghost families = views(candidates@);
    assert(as_ints(order@) =~= positions_below(families, 0));
    while rank < 4
        invariant
            rank <= 4,
            families == views(candidates@),
            as_ints(order@) == positions_below(families, rank as nat),
        decreases 4 - rank,
    {
        let mut index: usize = 0;
        let ghost before = as_ints(order@);
        assert(positions_at(families.take(0), rank as int) =~= Seq::empty());
        assert(before =~= before + positions_at(families.take(0), rank as int));
        while index < candidates.len()
            invariant
                rank < 4,
                index <= candidates@.len(),
                families == views(candidates@),
                as_ints(order@) == before + positions_at(families.take(index as int), rank as int),
            decreases candidates@.len() - index,
        {
            assert(families.take(index as int + 1).drop_last() =~= families.take(index as int));
            assert(families.take(index as int + 1).last() == candidates@[index as int]@);
            let ghost so_far = order@;
            if candidate_display_rank(&candidates[index].selector) == rank {
                order.push(index);
                assert(as_ints(order@) =~= as_ints(so_far).push(index as int));
                assert(as_ints(order@) =~= before + positions_at(
                    families.take(index as int + 1),
                    rank as int,
                ));
            }
            index += 1;
        }
        assert(families.take(index as int) =~= families);
        rank += 1;
    }
    order
}

proof fn lemma_positions_at(families: Seq<CandidateFamilyView>, rank: int, position: int)
    ensures
        positions_at(families, rank).contains(position) <==> 0 <= position < families.len()
            && display_rank(families[position].selector) == rank,
        positions_at(families, rank).no_duplicates(),
    decreases families.len(),
{
    if families.len() > 0 {
        let rest = families.drop_last();
        let before = positions_at(rest, rank);
        let all = positions_at(families, rank);
        lemma_positions_at(rest, rank, position);
        lemma_positions_at(rest, rank, families.len() - 1);
        if display_rank(families.last().selector) == rank {
            assert(all == before.push(families.len() - 1));
            assert(all[all.len() - 1] == families.len() - 1);
            if before.contains(position) {
                let i = choose|i: int| 0 <= i < before.len() && before[i] == position;
                assert(all[i] == position);
            }
            if all.contains(position) && position != families.len() - 1 {
                let i = choose|i: int| 0 <= i < all.len() && all[i] == position;
                assert(before[i] == position);
            }
            assert forall|i: int, j: int| 0 <= i < all.len() && 0 <= j < all.len() && i
                != j implies all[i] != all[j] by {
                if i < before.len() && j < before.len() {
                    assert(before[i] != before[j]);
                } else if i < before.len() {
                    assert(before.contains(before[i]));
                } else {
                    assert(before.contains(before[j]));
                }
            }
        }
        if 0 <= position < rest.len() {
            assert(rest[position] == families[position]);
        }
    }
}

proof fn lemma_positions_below(families: Seq<CandidateFamilyView>, ranks: nat, position: int)
    ensures
        positions_below(families, ranks).contains(position) <==> 0 <= position < families.len()
            && 0 <= display_rank(families[position].selector) < ranks,
        positions_below(families, ranks).no_duplicates(),
    decreases ranks,
{
    if ranks > 0 {
        let low = positions_below(families, (ranks - 1) as nat);
        let top = positions_at(families, ranks - 1);
        let all = low + top;
        lemma_positions_below(families, (ranks - 1) as nat, position);
        lemma_positions_at(families, ranks - 1, position);
        if low.contains(position) {
            let i = choose|i: int| 0 <= i < low.len() && low[i] == position;
            assert(all[i] == position);
        }
        if top.contains(position) {
            let i = choose|i: int| 0 <= i < top.len() && top[i] == position;
            assert(all[low.len() + i] == position);
        }
        if all.contains(position) {
            let i = choose|i: int| 0 <= i < all.len() && all[i] == position;
            if i < low.len() {
                assert(low[i] == position);
            } else {
                assert(top[i - low.len()] == position);
            }
        }
        assert forall|i: int, j: int| 0 <= i < all.len() && 0 <= j < all.len() && i
            != j implies all[i] != all[j] by {
            if i < low.len() && j < low.len() {
                assert(low[i] != low[j]);
            } else if i >= low.len() && j >= low.len() {
                assert(top[i - low.len()] != top[j - low.len()]);
            } else {
                let a = if i < low.len() { i } else { j };
                let b = if i < low.len() { j } else { i };
                assert(low.contains(low[a]));
                assert(top.contains(top[b - low.len()]));
                lemma_positions_below(families, (ranks - 1) as nat, low[a]);
                lemma_positions_at(families, ranks - 1, top[b - low.len()]);
            }
        }
    }
}

/// The order of display names every family once.
pub proof fn display_names_every_family_once(families: Seq<CandidateFamilyView>, position: int)
    ensures
        display_order(families).contains(position) <==> 0 <= position < families.len(),
        display_order(families).no_duplicates(),
{
    lemma_positions_below(families, 4, position);
}

} // verus!
