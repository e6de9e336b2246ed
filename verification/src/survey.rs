//! Finding the families of an inventory from stable Docker evidence.

use crate::candidate::{
    candidate_resource, resource_bytes, resource_of, resource_sizes, selector_text,
    CandidateFamily, CandidateFamilyView, CandidateResource, CandidateResourceView,
    CandidateSelector, CandidateSelectorView, ConfiguratorError, ConfiguratorSurvey, SurveySummary,
    SurveyView, CONFIGURATOR_SCHEMA_VERSION, clone_resources,
};
use crate::journal::{stable_config_hash, text_hash};
use crate::labels::{compose_entry, is_compose_project, is_known, known};
use crate::naming::{add_size, known_bytes, short_hash, short_hash_of, slug, slug_of};
use crate::order::{
    in_rank_order, lemma_rank_position_bounds, lemma_ranked_fixed, lemma_ranked_holds,
    lemma_ranked_is_sorted_permutation, precedes, rank_position, ranked, sort, text_lt,
};
use crate::outside::{quote, quoted};
use crate::resource::{kind_text, InventoryItem, ItemView, ResourceKind};
use crate::text::{
    blank, concat2, concat3, concat4, concat5, group_views, is_blank, join, joined, starts_with,
    text_eq, views,
};
use crate::text_map::{put, value_of, TextMap};
use vstd::prelude::*;
use vstd::string::*;

verus! {

/// What the build cache's family warns of.
pub const CACHE_WARNING: &'static str =
    "WARNING: build cache is unscoped; Docker exposes no owner metadata";

/// Whether one resource stands before another: by kind, then by id.
pub open spec fn resource_lt(left: CandidateResourceView, right: CandidateResourceView) -> bool {
    ||| text_lt(left.resource_kind, right.resource_kind)
    ||| left.resource_kind == right.resource_kind && text_lt(left.id, right.id)
}

/// Whether two resources are the same Docker object.
pub open spec fn same_object(left: CandidateResourceView, right: CandidateResourceView) -> bool {
    left.resource_kind == right.resource_kind && left.id == right.id
}

/// The place of a resource: behind every one that stands before it.
pub open spec fn resource_slot(
    resources: Seq<CandidateResourceView>,
    resource: CandidateResourceView,
) -> int
    decreases resources.len(),
{
    if resources.len() == 0 || resource_lt(resources.last(), resource) {
        resources.len() as int
    } else {
        resource_slot(resources.drop_last(), resource)
    }
}

/// Ordered resources with one more, in place of the same object.
pub open spec fn with_resource(
    resources: Seq<CandidateResourceView>,
    resource: CandidateResourceView,
) -> Seq<CandidateResourceView> {
    let place = resource_slot(resources, resource);
    if place < resources.len() && same_object(resources[place], resource) {
        resources.update(place, resource)
    } else {
        resources.insert(place, resource)
    }
}

proof fn lemma_resource_slot(resources: Seq<CandidateResourceView>, resource: CandidateResourceView)
    ensures
        0 <= resource_slot(resources, resource) <= resources.len(),
    decreases resources.len(),
{
    if resources.len() > 0 {
        lemma_resource_slot(resources.drop_last(), resource);
    }
}

fn place_resource(resources: &mut Vec<CandidateResource>, resource: CandidateResource)
    ensures
        views(final(resources)@) == with_resource(views(old(resources)@), resource@),
{
    broadcast use group_views;

    let ghost before = views(resources@);
    proof {
        lemma_resource_slot(before, resource@);
    }
    let mut place: usize = resources.len();
    assert(before.take(place as int) =~= before);
    while place > 0 && !(precedes(
        resources[place - 1].resource_kind.as_str(),
        resource.resource_kind.as_str(),
    ) || (text_eq(
        resources[place - 1].resource_kind.as_str(),
        resource.resource_kind.as_str(),
    ) && precedes(resources[place - 1].id.as_str(), resource.id.as_str())))
        invariant
            place <= resources@.len(),
            before == views(resources@),
            resource_slot(before, resource@) == resource_slot(before.take(place as int), resource@),
        decreases place,
    {
        assert(before.take(place as int).drop_last() =~= before.take(place as int - 1));
        assert(before.take(place as int).last() == resources@[place - 1]@);
        place -= 1;
    }
    proof {
        if place > 0 {
            assert(before.take(place as int).last() == resources@[place - 1]@);
        }
    }
    if place < resources.len() && text_eq(
        resources[place].resource_kind.as_str(),
        resource.resource_kind.as_str(),
    ) && text_eq(resources[place].id.as_str(), resource.id.as_str()) {
        resources.set(place, resource);
        assert(views(resources@) =~= with_resource(before, resource@));
    } else {
        resources.insert(place, resource);
        assert(views(resources@) =~= with_resource(before, resource@));
    }
}

/// What is gathered under one family's id.
struct Group {
    title: String,
    evidence: String,
    selector: CandidateSelector,
    resources: Vec<CandidateResource>,
    unscoped: bool,
}

/// What a group says.
pub struct GroupView {
    pub title: Seq<char>,
    pub evidence: Seq<char>,
    pub selector: CandidateSelectorView,
    pub resources: Seq<CandidateResourceView>,
    pub unscoped: bool,
}

impl View for Group {
    type V = GroupView;

    closed spec fn view(&self) -> GroupView {
        GroupView {
            title: self.title@,
            evidence: self.evidence@,
            selector: self.selector@,
            resources: views(self.resources@),
            unscoped: self.unscoped,
        }
    }
}

/// One resource offered to one family.
pub struct OfferView {
    pub id: Seq<char>,
    pub title: Seq<char>,
    pub evidence: Seq<char>,
    pub selector: CandidateSelectorView,
    pub resource: CandidateResourceView,
    pub unscoped: bool,
}

/// Groups after one more offer: the resource joins the group of its id, and
/// the words of the offer stand.
pub open spec fn with_offer(groups: Seq<(Seq<char>, GroupView)>, offer: OfferView) -> Seq<
    (Seq<char>, GroupView),
> {
    let (resources, unscoped) = match value_of(groups, offer.id) {
        Some(group) => (group.resources, group.unscoped),
        None => (Seq::empty(), false),
    };
    put(
        groups,
        offer.id,
        GroupView {
            title: offer.title,
            evidence: offer.evidence,
            selector: offer.selector,
            resources: with_resource(resources, offer.resource),
            unscoped: unscoped || offer.unscoped,
        },
    )
}

/// The groups that offers make, one after the other.
pub open spec fn gathered(offers: Seq<OfferView>) -> Seq<(Seq<char>, GroupView)>
    decreases offers.len(),
{
    if offers.len() == 0 {
        Seq::empty()
    } else {
        with_offer(gathered(offers.drop_last()), offers.last())
    }
}

/// The text of a label.
pub open spec fn label_text(key: Seq<char>, value: Seq<char>) -> Seq<char> {
    key + "="@ + value
}

/// Whether a key is evidence that an agent or this tool left.
pub open spec fn agent_label(key: Seq<char>) -> bool {
    known(key) && key != compose_entry().key
}

/// The offer to the family of a Compose project.
pub open spec fn compose_offer(item: ItemView, key: Seq<char>, value: Seq<char>) -> OfferView {
    let identity = label_text(key, value);
    OfferView {
        id: "compose/"@ + slug_of(value) + "-"@ + short_hash_of(identity),
        title: "Compose project "@ + value,
        evidence: "exact Docker label "@ + identity,
        selector: CandidateSelectorView::ExactLabel { key, value },
        resource: resource_of(item),
        unscoped: false,
    }
}

/// The offer to the family of an agent's label.
pub open spec fn agent_offer(item: ItemView, key: Seq<char>, value: Seq<char>) -> OfferView {
    let identity = label_text(key, value);
    OfferView {
        id: "agent-label/"@ + slug_of(key) + "-"@ + short_hash_of(identity),
        title: "Agent label "@ + identity,
        evidence: "exact known agent label "@ + identity,
        selector: CandidateSelectorView::ExactLabel { key, value },
        resource: resource_of(item),
        unscoped: false,
    }
}

/// The offer to the family of the build cache.
pub open spec fn cache_offer(item: ItemView) -> OfferView {
    OfferView {
        id: "build-cache"@,
        title: "Docker build cache"@,
        evidence: "Docker exposes no ownership labels or names"@,
        selector: CandidateSelectorView::BuildCache,
        resource: resource_of(item),
        unscoped: true,
    }
}

/// What a label of an item offers. Compose labels its images too, but an
/// image outlives the project, so a project takes none.
pub open spec fn label_offers(item: ItemView, label: (Seq<char>, Seq<char>)) -> Seq<OfferView> {
    if label.0 == compose_entry().key {
        if is_blank(label.1) || item.kind == ResourceKind::Image {
            Seq::empty()
        } else {
            seq![compose_offer(item, label.0, label.1)]
        }
    } else if agent_label(label.0) {
        seq![agent_offer(item, label.0, label.1)]
    } else {
        Seq::empty()
    }
}

/// What labels of an item offer.
pub open spec fn labels_offers(item: ItemView, labels: Seq<(Seq<char>, Seq<char>)>) -> Seq<
    OfferView,
>
    decreases labels.len(),
{
    if labels.len() == 0 {
        Seq::empty()
    } else {
        labels_offers(item, labels.drop_last()) + label_offers(item, labels.last())
    }
}

/// What the labels of an inventory offer.
pub open spec fn labelled_offers(inventory: Seq<ItemView>) -> Seq<OfferView>
    decreases inventory.len(),
{
    if inventory.len() == 0 {
        Seq::empty()
    } else {
        labelled_offers(inventory.drop_last()) + labels_offers(
            inventory.last(),
            inventory.last().labels,
        )
    }
}

/// What the build-cache records of an inventory offer.
pub open spec fn cache_offers(inventory: Seq<ItemView>) -> Seq<OfferView>
    decreases inventory.len(),
{
    if inventory.len() == 0 {
        Seq::empty()
    } else if inventory.last().kind == ResourceKind::BuildCache {
        cache_offers(inventory.drop_last()).push(cache_offer(inventory.last()))
    } else {
        cache_offers(inventory.drop_last())
    }
}

/// Everything that an inventory offers.
pub open spec fn offers_of(inventory: Seq<ItemView>) -> Seq<OfferView> {
    labelled_offers(inventory) + cache_offers(inventory)
}

/// The family that a group makes.
pub open spec fn family_of(id: Seq<char>, group: GroupView) -> CandidateFamilyView {
    CandidateFamilyView {
        id,
        title: group.title,
        evidence: group.evidence,
        selector: group.selector,
        resources: group.resources,
        known_bytes: known_bytes(resource_sizes(group.resources)),
        warning: if group.unscoped {
            Some(CACHE_WARNING@)
        } else {
            None
        },
    }
}

/// The families that groups make.
pub open spec fn families_of(groups: Seq<(Seq<char>, GroupView)>) -> Seq<CandidateFamilyView> {
    groups.map_values(|pair: (Seq<char>, GroupView)| family_of(pair.0, pair.1))
}

/// The Docker objects that resources stand for.
pub open spec fn resource_objects(resources: Seq<CandidateResourceView>) -> Seq<
    (Seq<char>, Seq<char>),
> {
    resources.map_values(
        |resource: CandidateResourceView| (resource.resource_kind, resource.id),
    )
}

/// The Docker objects that families hold.
pub open spec fn family_objects(families: Seq<CandidateFamilyView>) -> Seq<(Seq<char>, Seq<char>)>
    decreases families.len(),
{
    if families.len() == 0 {
        Seq::empty()
    } else {
        family_objects(families.drop_last()) + resource_objects(families.last().resources)
    }
}

/// How many different Docker objects families hold.
pub open spec fn covered_objects(families: Seq<CandidateFamilyView>) -> nat {
    family_objects(families).to_set().len()
}

/// The line of one resource in a survey's signature.
pub open spec fn survey_row(
    id: Seq<char>,
    selector: CandidateSelectorView,
    resource: CandidateResourceView,
) -> Seq<char> {
    id + "|"@ + resource.resource_kind + "|"@ + resource.id + "|"@ + resource.name + "|"@
        + selector_text(selector)
}

/// The lines of one family in a survey's signature.
pub open spec fn family_rows(
    id: Seq<char>,
    selector: CandidateSelectorView,
    resources: Seq<CandidateResourceView>,
) -> Seq<Seq<char>> {
    resources.map_values(|resource: CandidateResourceView| survey_row(id, selector, resource))
}

/// The lines of a survey's signature.
pub open spec fn survey_rows(families: Seq<CandidateFamilyView>) -> Seq<Seq<char>>
    decreases families.len(),
{
    if families.len() == 0 {
        Seq::empty()
    } else {
        survey_rows(families.drop_last()) + family_rows(
            families.last().id,
            families.last().selector,
            families.last().resources,
        )
    }
}

/// The signature of families: it does not hang on their order.
pub open spec fn survey_mark(families: Seq<CandidateFamilyView>) -> Seq<char> {
    text_hash(joined(ranked::<String>(survey_rows(families)), "\n"@))
}

/// The sizes of an inventory's items.
pub open spec fn item_sizes(inventory: Seq<ItemView>) -> Seq<Option<u64>> {
    inventory.map_values(|item: ItemView| item.size)
}

/// `total` less `part`, at least nothing.
pub open spec fn remainder(total: nat, part: nat) -> nat {
    if total >= part {
        (total - part) as nat
    } else {
        0
    }
}

/// The survey of an inventory.
pub open spec fn survey_of(inventory: Seq<ItemView>) -> SurveyView {
    let families = families_of(gathered(offers_of(inventory)));
    SurveyView {
        schema_version: CONFIGURATOR_SCHEMA_VERSION,
        snapshot_id: survey_mark(families),
        candidates: families,
        summary: SurveySummary {
            total_resources: inventory.len() as usize,
            candidate_resources: covered_objects(families) as usize,
            unowned_resources: remainder(inventory.len(), covered_objects(families)) as usize,
            known_bytes: known_bytes(item_sizes(inventory)),
        },
    }
}

/// Offers one resource to the family of an id.
fn add_candidate_resource(
    groups: &mut TextMap<Group>,
    id: String,
    title: String,
    evidence: String,
    selector: CandidateSelector,
    item: &InventoryItem,
    unscoped: bool,
)
    ensures
        final(groups)@ == with_offer(
            old(groups)@,
            (OfferView {
                id: id@,
                title: title@,
                evidence: evidence@,
                selector: selector@,
                resource: resource_of(item@),
                unscoped,
            }),
        ),
{
    let mut resources: Vec<CandidateResource> = Vec::new();
    let mut earlier = false;
    assert(views(resources@) =~= Seq::empty());
    if let Some(group) = groups.get(id.as_str()) {
        resources = clone_resources(&group.resources);
        earlier = group.unscoped;
    }
    place_resource(&mut resources, candidate_resource(item));
    groups.insert(
        id,
        Group { title, evidence, selector, resources, unscoped: earlier || unscoped },
    );
}

/// Adds what one label of an item offers.
fn add_label_offers(groups: &mut TextMap<Group>, item: &InventoryItem, key: &String, value: &String)
    ensures
        forall|offers: Seq<OfferView>|
            gathered(offers) == old(groups)@ ==> final(groups)@ == #[trigger] gathered(
                offers + label_offers(item@, (key@, value@)),
            ),
{
    let ghost before = groups@;
    let ghost offered = label_offers(item@, (key@, value@));
    proof {
        assert forall|offers: Seq<OfferView>, offer: OfferView| #![trigger offers + seq![offer]]
            offers + seq![offer] == offers.push(offer) && (offers + seq![offer]).drop_last() == offers
                && (offers + seq![offer]).last() == offer by {
            assert(offers + seq![offer] =~= offers.push(offer));
            assert((offers + seq![offer]).drop_last() =~= offers);
        }
        assert forall|offers: Seq<OfferView>| #![trigger offers + Seq::<OfferView>::empty()] offers
            + Seq::<OfferView>::empty() == offers by {
            assert(offers + Seq::<OfferView>::empty() =~= offers);
        }
    }
    if is_compose_project(key.as_str()) {
        if !blank(value.as_str()) && item.kind != ResourceKind::Image {
            let identity = concat3(key.as_str(), "=", value.as_str());
            add_candidate_resource(
                groups,
                concat4(
                    "compose/",
                    slug(value.as_str()).as_str(),
                    "-",
                    short_hash(identity.as_str()).as_str(),
                ),
                concat2("Compose project ", value.as_str()),
                concat2("exact Docker label ", identity.as_str()),
                CandidateSelector::ExactLabel { key: key.clone(), value: value.clone() },
                item,
                false,
            );
            assert(groups@ == with_offer(before, compose_offer(item@, key@, value@)));
        }
    } else if is_known(key.as_str()) {
        let identity = concat3(key.as_str(), "=", value.as_str());
        add_candidate_resource(
            groups,
            concat4(
                "agent-label/",
                slug(key.as_str()).as_str(),
                "-",
                short_hash(identity.as_str()).as_str(),
            ),
            concat2("Agent label ", identity.as_str()),
            concat2("exact known agent label ", identity.as_str()),
            CandidateSelector::ExactLabel { key: key.clone(), value: value.clone() },
            item,
            false,
        );
        assert(groups@ == with_offer(before, agent_offer(item@, key@, value@)));
    }
}

/// Adds what the labels of an item offer.
fn add_item_offers(groups: &mut TextMap<Group>, item: &InventoryItem, Ghost(offers): Ghost<Seq<OfferView>>)
    requires
        old(groups)@ == gathered(offers),
    ensures
        final(groups)@ == gathered(offers + labels_offers(item@, item@.labels)),
{
    let count: usize = item.labels.len();
    let mut index: usize = 0;
    let ghost labels = item@.labels;
    assert(labels_offers(item@, labels.take(0)) =~= Seq::empty());
    assert(offers + labels_offers(item@, labels.take(0)) =~= offers);
    while index < count
        invariant
            index <= count,
            count == labels.len(),
            labels == item.labels@,
            labels == item@.labels,
            groups@ == gathered(offers + labels_offers(item@, labels.take(index as int))),
        decreases count - index,
    {
        let ghost so_far = offers + labels_offers(item@, labels.take(index as int));
        add_label_offers(groups, item, item.labels.key_at(index), item.labels.value_at(index));
        assert(groups@ == gathered(so_far + label_offers(item@, labels[index as int])));
        assert(labels.take(index as int + 1).drop_last() =~= labels.take(index as int));
        assert(labels.take(index as int + 1).last() == labels[index as int]);
        assert(so_far + label_offers(item@, labels[index as int]) =~= offers + labels_offers(
            item@,
            labels.take(index as int + 1),
        ));
        index += 1;
    }
    assert(labels.take(index as int) =~= labels);
}

/// A Docker object by its kind and id.
struct ObjectKey {
    kind: String,
    id: String,
}

impl View for ObjectKey {
    type V = (Seq<char>, Seq<char>);

    closed spec fn view(&self) -> (Seq<char>, Seq<char>) {
        (self.kind@, self.id@)
    }
}

fn holds_object(objects: &Vec<ObjectKey>, kind: &str, id: &str) -> (held: bool)
    ensures
        held == views(objects@).contains((kind@, id@)),
{
    broadcast use group_views;

    let mut index: usize = 0;
    while index < objects.len()
        invariant
            index <= objects@.len(),
            forall|i: int| 0 <= i < index ==> #[trigger] views(objects@)[i] != (kind@, id@),
        decreases objects@.len() - index,
    {
        if text_eq(objects[index].kind.as_str(), kind) && text_eq(objects[index].id.as_str(), id) {
            assert(views(objects@)[index as int] == (kind@, id@));
            return true;
        }
        index += 1;
    }
    false
}

proof fn lemma_set_grows<W>(items: Seq<W>, item: W)
    ensures
        items.push(item).to_set() == items.to_set().insert(item),
{
    let all = items.push(item);
    assert forall|w: W| all.to_set().contains(w) == items.to_set().insert(item).contains(w) by {
        if all.contains(w) {
            let i = choose|i: int| 0 <= i < all.len() && all[i] == w;
            if i < items.len() {
                assert(items[i] == w);
            }
        }
        if items.contains(w) {
            let i = choose|i: int| 0 <= i < items.len() && items[i] == w;
            assert(all[i] == w);
        }
        assert(all[items.len() as int] == item);
    }
    assert(all.to_set() =~= items.to_set().insert(item));
}

/// Notes an object unless it is noted already.
fn note_object(
    seen: &mut Vec<ObjectKey>,
    kind: &String,
    id: &String,
    Ghost(objects): Ghost<Seq<(Seq<char>, Seq<char>)>>,
)
    requires
        views(old(seen)@).no_duplicates(),
        views(old(seen)@).to_set() == objects.to_set(),
    ensures
        views(final(seen)@).no_duplicates(),
        views(final(seen)@).to_set() == objects.push((kind@, id@)).to_set(),
{
    broadcast use group_views;

    let ghost before = views(seen@);
    proof {
        lemma_set_grows(objects, (kind@, id@));
        lemma_set_grows(before, (kind@, id@));
    }
    if !holds_object(&*seen, kind.as_str(), id.as_str()) {
        let key = ObjectKey { kind: kind.clone(), id: id.clone() };
        seen.push(key);
        let ghost after = views(seen@);
        assert(after == before.push((kind@, id@)));
        assert forall|i: int, j: int| 0 <= i < after.len() && 0 <= j < after.len() && i
            != j implies after[i] != after[j] by {
            if i < before.len() && j < before.len() {
                assert(before[i] != before[j]);
            } else if i < before.len() {
                assert(before.contains(before[i]));
            } else {
                assert(before.contains(before[j]));
            }
        }
    } else {
        assert(before.to_set().contains((kind@, id@)));
        assert(before.to_set().insert((kind@, id@)) =~= before.to_set());
    }
}

/// Counts the different Docker objects that families hold.
pub fn count_objects(families: &Vec<CandidateFamily>) -> (count: usize)
    ensures
        count == covered_objects(views(families@)),
{
    broadcast use group_views;

    let mut seen: Vec<ObjectKey> = Vec::new();
    let ghost all = views(families@);
    let mut outer: usize = 0;
    assert(views(seen@) =~= Seq::empty());
    assert(family_objects(all.take(0)) =~= Seq::empty());
    while outer < families.len()
        invariant
            outer <= families@.len(),
            all == views(families@),
            views(seen@).no_duplicates(),
            views(seen@).to_set() == family_objects(all.take(outer as int)).to_set(),
        decreases families@.len() - outer,
    {
        let resources = &families[outer].resources;
        let ghost before = family_objects(all.take(outer as int));
        let ghost own = resource_objects(views(resources@));
        let mut inner: usize = 0;
        assert(before + own.take(0) =~= before);
        while inner < resources.len()
            invariant
                inner <= resources@.len(),
                own == resource_objects(views(resources@)),
                views(seen@).no_duplicates(),
                views(seen@).to_set() == (before + own.take(inner as int)).to_set(),
            decreases resources@.len() - inner,
        {
            let resource = &resources[inner];
            assert((before + own.take(inner as int)).push((resource.resource_kind@, resource.id@))
                =~= before + own.take(inner as int + 1));
            note_object(
                &mut seen,
                &resource.resource_kind,
                &resource.id,
                Ghost(before + own.take(inner as int)),
            );
            inner += 1;
        }
        assert(own.take(inner as int) =~= own);
        assert(all.take(outer as int + 1).drop_last() =~= all.take(outer as int));
        assert(all.take(outer as int + 1).last() == families@[outer as int]@);
        outer += 1;
    }
    assert(all.take(outer as int) =~= all);
    proof {
        views(seen@).unique_seq_to_set();
    }
    seen.len()
}

/// The signature of families.
pub fn survey_signature(families: &Vec<CandidateFamily>) -> (mark: String)
    ensures
        mark@ == survey_mark(views(families@)),
{
    broadcast use group_views;

    let mut rows: Vec<String> = Vec::new();
    let ghost all = views(families@);
    let mut outer: usize = 0;
    assert(views(rows@) =~= survey_rows(all.take(0)));
    while outer < families.len()
        invariant
            outer <= families@.len(),
            all == views(families@),
            views(rows@) == survey_rows(all.take(outer as int)),
        decreases families@.len() - outer,
    {
        let family = &families[outer];
        let resources = &family.resources;
        let ghost before = views(rows@);
        let ghost own = family_rows(family@.id, family@.selector, family@.resources);
        let mut inner: usize = 0;
        assert(views(rows@) =~= before + own.take(0));
        while inner < resources.len()
            invariant
                inner <= resources@.len(),
                family@.resources == views(resources@),
                own == family_rows(family@.id, family@.selector, family@.resources),
                views(rows@) == before + own.take(inner as int),
            decreases resources@.len() - inner,
        {
            let resource = &resources[inner];
            let mut row = family.id.clone();
            row.append("|");
            row.append(resource.resource_kind.as_str());
            row.append("|");
            row.append(resource.id.as_str());
            row.append("|");
            row.append(resource.name.as_str());
            row.append("|");
            row.append(family.selector.written().as_str());
            assert(row@ == own[inner as int]);
            assert((before + own.take(inner as int)).push(row@) =~= before + own.take(
                inner as int + 1,
            ));
            rows.push(row);
            inner += 1;
        }
        assert(own.take(inner as int) =~= own);
        assert(all.take(outer as int + 1).drop_last() =~= all.take(outer as int));
        assert(all.take(outer as int + 1).last() == families@[outer as int]@);
        outer += 1;
    }
    assert(all.take(outer as int) =~= all);
    let sorted = sort(rows);
    stable_config_hash(join(&sorted, "\n").as_str())
}

/// The bytes that an inventory is known to hold.
fn inventory_bytes(inventory: &Vec<InventoryItem>) -> (total: u64)
    ensures
        total == known_bytes(item_sizes(views(inventory@))),
{
    broadcast use group_views;

    let mut total: u64 = 0;
    let mut index: usize = 0;
    let ghost sizes = item_sizes(views(inventory@));
    assert(sizes.take(0) =~= Seq::empty());
    while index < inventory.len()
        invariant
            index <= inventory@.len(),
            sizes == item_sizes(views(inventory@)),
            total == known_bytes(sizes.take(index as int)),
        decreases inventory@.len() - index,
    {
        assert(sizes.take(index as int + 1) =~= sizes.take(index as int).push(
            inventory@[index as int].size,
        ));
        total = add_size(total, inventory[index].size, Ghost(sizes.take(index as int)));
        index += 1;
    }
    assert(sizes.take(index as int) =~= sizes);
    total
}

/// What is left of `total` when `part` is taken away.
fn rest_of(total: usize, part: usize) -> (rest: usize)
    ensures
        rest == remainder(total as nat, part as nat),
{
    if total >= part {
        total - part
    } else {
        0
    }
}

/// The survey that groups make.
fn finish_survey(inventory: &Vec<InventoryItem>, groups: &TextMap<Group>) -> (survey:
    ConfiguratorSurvey)
    requires
        groups@ == gathered(offers_of(views(inventory@))),
    ensures
        survey@ == survey_of(views(inventory@)),
{
    broadcast use group_views;

    let mut candidates: Vec<CandidateFamily> = Vec::new();
    let count: usize = groups.len();
    let mut index: usize = 0;
    let ghost families = families_of(groups@);
    assert(views(candidates@) =~= families.take(0));
    while index < count
        invariant
            index <= count,
            count == groups@.len(),
            families == families_of(groups@),
            views(candidates@) == families.take(index as int),
        decreases count - index,
    {
        let group = groups.value_at(index);
        let family = CandidateFamily {
            id: groups.key_at(index).clone(),
            title: group.title.clone(),
            evidence: group.evidence.clone(),
            selector: group.selector.clone(),
            resources: clone_resources(&group.resources),
            known_bytes: resource_bytes(&group.resources),
            warning: if group.unscoped {
                Some(CACHE_WARNING.to_owned())
            } else {
                None
            },
        };
        assert(family@ == families[index as int]);
        assert(families.take(index as int + 1) =~= families.take(index as int).push(family@));
        candidates.push(family);
        index += 1;
    }
    assert(families.take(index as int) =~= families);
    let covered: usize = count_objects(&candidates);
    ConfiguratorSurvey {
        schema_version: CONFIGURATOR_SCHEMA_VERSION,
        snapshot_id: survey_signature(&candidates),
        candidates,
        summary: SurveySummary {
            total_resources: inventory.len(),
            candidate_resources: covered,
            unowned_resources: rest_of(inventory.len(), covered),
            known_bytes: inventory_bytes(inventory),
        },
    }
}

/// Finds the families of an inventory.
pub fn survey_inventory(inventory: &Vec<InventoryItem>) -> (survey: ConfiguratorSurvey)
    ensures
        survey@ == survey_of(views(inventory@)),
{
    broadcast use group_views;

    let mut groups: TextMap<Group> = TextMap::new();
    let ghost items = views(inventory@);
    let mut index: usize = 0;
    assert(labelled_offers(items.take(0)) =~= Seq::empty());
    while index < inventory.len()
        invariant
            index <= inventory@.len(),
            items == views(inventory@),
            groups@ == gathered(labelled_offers(items.take(index as int))),
        decreases inventory@.len() - index,
    {
        assert(items.take(index as int + 1).drop_last() =~= items.take(index as int));
        assert(items.take(index as int + 1).last() == inventory@[index as int]@);
        add_item_offers(
            &mut groups,
            &inventory[index],
            Ghost(labelled_offers(items.take(index as int))),
        );
        index += 1;
    }
    assert(items.take(index as int) =~= items);
    let ghost labelled = labelled_offers(items);
    index = 0;
    assert(cache_offers(items.take(0)) =~= Seq::empty());
    assert(labelled + cache_offers(items.take(0)) =~= labelled);
    while index < inventory.len()
        invariant
            index <= inventory@.len(),
            items == views(inventory@),
            groups@ == gathered(labelled + cache_offers(items.take(index as int))),
        decreases inventory@.len() - index,
    {
        let ghost before = labelled + cache_offers(items.take(index as int));
        assert(items.take(index as int + 1).drop_last() =~= items.take(index as int));
        assert(items.take(index as int + 1).last() == inventory@[index as int]@);
        if inventory[index].kind == ResourceKind::BuildCache {
            add_candidate_resource(
                &mut groups,
                "build-cache".to_owned(),
                "Docker build cache".to_owned(),
                "Docker exposes no ownership labels or names".to_owned(),
                CandidateSelector::BuildCache,
                &inventory[index],
                true,
            );
            proof {
                let offer = cache_offer(inventory@[index as int]@);
                let after = labelled + cache_offers(items.take(index as int + 1));
                assert(after =~= before.push(offer));
                assert(after.drop_last() =~= before);
                assert(after.last() == offer);
            }
        }
        index += 1;
    }
    assert(items.take(index as int) =~= items);
    finish_survey(inventory, &groups)
}

/// Whether some name begins with a prefix.
pub open spec fn name_begins(names: Seq<Seq<char>>, prefix: Seq<char>) -> bool {
    exists|i: int| 0 <= i < names.len() && prefix.is_prefix_of(#[trigger] names[i])
}

/// Whether an item is of a kind and has a name with a prefix.
pub open spec fn under_prefix(item: ItemView, kind: ResourceKind, prefix: Seq<char>) -> bool {
    item.kind == kind && name_begins(item.search_names, prefix)
}

/// The resources of a kind whose names have a prefix.
pub open spec fn prefix_resources(
    inventory: Seq<ItemView>,
    kind: ResourceKind,
    prefix: Seq<char>,
) -> Seq<CandidateResourceView>
    decreases inventory.len(),
{
    if inventory.len() == 0 {
        Seq::empty()
    } else {
        let before = prefix_resources(inventory.drop_last(), kind, prefix);
        if under_prefix(inventory.last(), kind, prefix) {
            before.push(resource_of(inventory.last()))
        } else {
            before
        }
    }
}

/// The id of a prefix's family.
pub open spec fn prefix_id(kind: ResourceKind, prefix: Seq<char>) -> Seq<char> {
    "name-prefix/"@ + kind_text(kind) + "/"@ + slug_of(prefix) + "-"@ + short_hash_of(
        kind_text(kind) + ":"@ + prefix,
    )
}

/// The family of a prefix.
pub open spec fn prefix_family(
    inventory: Seq<ItemView>,
    kind: ResourceKind,
    prefix: Seq<char>,
) -> CandidateFamilyView {
    let resources = prefix_resources(inventory, kind, prefix);
    CandidateFamilyView {
        id: prefix_id(kind, prefix),
        title: kind_text(kind) + " names beginning "@ + quoted(prefix),
        evidence: "operator-selected prefix; no automatic name generalization"@,
        selector: CandidateSelectorView::NamePrefix { resource_kind: kind_text(kind), prefix },
        resources,
        known_bytes: known_bytes(resource_sizes(resources)),
        warning: None,
    }
}

/// Families without the one of an id.
pub open spec fn without_family(families: Seq<CandidateFamilyView>, id: Seq<char>) -> Seq<
    CandidateFamilyView,
>
    decreases families.len(),
{
    if families.len() == 0 {
        Seq::empty()
    } else {
        let before = without_family(families.drop_last(), id);
        if families.last().id == id {
            before
        } else {
            before.push(families.last())
        }
    }
}

/// A survey with one more family, in place of one with the same id; the
/// families stand in the order of their ids.
pub open spec fn with_family(survey: SurveyView, family: CandidateFamilyView) -> SurveyView {
    let families = ranked::<CandidateFamily>(
        without_family(survey.candidates, family.id).push(family),
    );
    SurveyView {
        schema_version: survey.schema_version,
        snapshot_id: survey_mark(families),
        candidates: families,
        summary: SurveySummary {
            total_resources: survey.summary.total_resources,
            candidate_resources: covered_objects(families) as usize,
            unowned_resources: remainder(
                survey.summary.total_resources as nat,
                covered_objects(families),
            ) as usize,
            known_bytes: survey.summary.known_bytes,
        },
    }
}

/// Why a prefix makes no family.
pub open spec fn prefix_fault(
    inventory: Seq<ItemView>,
    kind: ResourceKind,
    prefix: Seq<char>,
) -> Option<Seq<char>> {
    if is_blank(prefix) {
        Some("name prefix must not be blank"@)
    } else if kind == ResourceKind::BuildCache {
        Some("build cache has no name-prefix ownership surface"@)
    } else if prefix_resources(inventory, kind, prefix).len() == 0 {
        Some(
            "prefix "@ + quoted(prefix) + " matches no current "@ + kind_text(kind) + " resource"@,
        )
    } else {
        None
    }
}

fn any_begins(names: &Vec<String>, prefix: &str) -> (found: bool)
    ensures
        found == name_begins(views(names@), prefix@),
{
    broadcast use group_views;

    let mut index: usize = 0;
    while index < names.len()
        invariant
            index <= names@.len(),
            forall|i: int| 0 <= i < index ==> !prefix@.is_prefix_of(#[trigger] views(names@)[i]),
        decreases names@.len() - index,
    {
        if starts_with(names[index].as_str(), prefix) {
            assert(prefix@.is_prefix_of(views(names@)[index as int]));
            return true;
        }
        index += 1;
    }
    false
}

fn resources_under_prefix(inventory: &Vec<InventoryItem>, kind: ResourceKind, prefix: &str) -> (found:
    Vec<CandidateResource>)
    ensures
        views(found@) == prefix_resources(views(inventory@), kind, prefix@),
{
    broadcast use group_views;

    let mut found: Vec<CandidateResource> = Vec::new();
    let ghost items = views(inventory@);
    let mut index: usize = 0;
    assert(views(found@) =~= prefix_resources(items.take(0), kind, prefix@));
    while index < inventory.len()
        invariant
            index <= inventory@.len(),
            items == views(inventory@),
            views(found@) == prefix_resources(items.take(index as int), kind, prefix@),
        decreases inventory@.len() - index,
    {
        let item = &inventory[index];
        assert(items.take(index as int + 1).drop_last() =~= items.take(index as int));
        assert(items.take(index as int + 1).last() == item@);
        if item.kind == kind && any_begins(&item.search_names, prefix) {
            found.push(candidate_resource(item));
        }
        index += 1;
    }
    assert(items.take(index as int) =~= items);
    found
}

fn families_without(families: &Vec<CandidateFamily>, id: &str) -> (kept: Vec<CandidateFamily>)
    ensures
        views(kept@) == without_family(views(families@), id@),
{
    broadcast use group_views;

    let mut kept: Vec<CandidateFamily> = Vec::new();
    let ghost all = views(families@);
    let mut index: usize = 0;
    assert(views(kept@) =~= without_family(all.take(0), id@));
    while index < families.len()
        invariant
            index <= families@.len(),
            all == views(families@),
            views(kept@) == without_family(all.take(index as int), id@),
        decreases families@.len() - index,
    {
        assert(all.take(index as int + 1).drop_last() =~= all.take(index as int));
        assert(all.take(index as int + 1).last() == families@[index as int]@);
        if !text_eq(families[index].id.as_str(), id) {
            kept.push(families[index].clone());
        }
        index += 1;
    }
    assert(all.take(index as int) =~= all);
    kept
}

/// Adds the family of a name prefix that an operator chose, and returns its
/// id. A refused prefix leaves the survey as it was.
pub fn add_name_prefix_candidate(
    survey: &mut ConfiguratorSurvey,
    inventory: &Vec<InventoryItem>,
    kind: ResourceKind,
    prefix: &str,
) -> (outcome: Result<String, ConfiguratorError>)
    ensures
        match prefix_fault(views(inventory@), kind, prefix@) {
            Some(fault) => (outcome matches Err(ConfiguratorError::Invalid(message)) && message@
                == fault) && final(survey)@ == old(survey)@,
            None => (outcome matches Ok(id) && id@ == prefix_id(kind, prefix@)) && final(survey)@
                == with_family(old(survey)@, prefix_family(views(inventory@), kind, prefix@)),
        },
{
    broadcast use group_views;

    if blank(prefix) {
        return Err(ConfiguratorError::Invalid("name prefix must not be blank".to_owned()));
    }
    if kind == ResourceKind::BuildCache {
        return Err(
            ConfiguratorError::Invalid(
                "build cache has no name-prefix ownership surface".to_owned(),
            ),
        );
    }
    let word = kind.as_text();
    let mut id = concat4("name-prefix/", word, "/", slug(prefix).as_str());
    id.append("-");
    id.append(short_hash(concat3(word, ":", prefix).as_str()).as_str());
    let resources = resources_under_prefix(inventory, kind, prefix);
    if resources.len() == 0 {
        return Err(
            ConfiguratorError::Invalid(
                concat5("prefix ", quote(prefix).as_str(), " matches no current ", word, " resource"),
            ),
        );
    }
    let known: u64 = resource_bytes(&resources);
    let family = CandidateFamily {
        id: id.clone(),
        title: concat3(word, " names beginning ", quote(prefix).as_str()),
        evidence: "operator-selected prefix; no automatic name generalization".to_owned(),
        selector: CandidateSelector::NamePrefix {
            resource_kind: word.to_owned(),
            prefix: prefix.to_owned(),
        },
        resources,
        known_bytes: known,
        warning: None,
    };
    assert(family@ == prefix_family(views(inventory@), kind, prefix@));
    let mut candidates = families_without(&survey.candidates, id.as_str());
    candidates.push(family);
    let sorted = sort(candidates);
    let covered: usize = count_objects(&sorted);
    survey.summary = SurveySummary {
        total_resources: survey.summary.total_resources,
        candidate_resources: covered,
        unowned_resources: rest_of(survey.summary.total_resources, covered),
        known_bytes: survey.summary.known_bytes,
    };
    survey.snapshot_id = survey_signature(&sorted);
    survey.candidates = sorted;
    Ok(id)
}

proof fn lemma_none_of_id(families: Seq<CandidateFamilyView>, id: Seq<char>)
    requires
        forall|i: int| 0 <= i < families.len() ==> (#[trigger] families[i]).id != id,
    ensures
        without_family(families, id) == families,
    decreases families.len(),
{
    if families.len() > 0 {
        let rest = families.drop_last();
        assert forall|i: int| 0 <= i < rest.len() implies (#[trigger] rest[i]).id != id by {
            assert(rest[i] == families[i]);
        }
        lemma_none_of_id(rest, id);
        assert(families[families.len() - 1].id != id);
        assert(families =~= rest.push(families.last()));
    } else {
        assert(families =~= Seq::empty());
    }
}

proof fn lemma_without_id(families: Seq<CandidateFamilyView>, id: Seq<char>)
    ensures
        forall|i: int|
            0 <= i < without_family(families, id).len() ==> (#[trigger] without_family(
                families,
                id,
            )[i]).id != id,
    decreases families.len(),
{
    if families.len() > 0 {
        lemma_without_id(families.drop_last(), id);
    }
}

proof fn lemma_without_inserted(
    families: Seq<CandidateFamilyView>,
    place: int,
    family: CandidateFamilyView,
)
    requires
        0 <= place <= families.len(),
        forall|i: int| 0 <= i < families.len() ==> (#[trigger] families[i]).id != family.id,
    ensures
        without_family(families.insert(place, family), family.id) == families,
    decreases families.len(),
{
    let grown = families.insert(place, family);
    if place == families.len() {
        assert(grown.drop_last() =~= families);
        lemma_none_of_id(families, family.id);
    } else {
        let rest = families.drop_last();
        assert forall|i: int| 0 <= i < rest.len() implies (#[trigger] rest[i]).id != family.id by {
            assert(rest[i] == families[i]);
        }
        assert(grown.drop_last() =~= rest.insert(place, family));
        assert(grown.last() == families[families.len() - 1]);
        lemma_without_inserted(rest, place, family);
        assert(families =~= rest.push(families.last()));
    }
}

proof fn lemma_family_joins(families: Seq<CandidateFamilyView>, family: CandidateFamilyView) -> (place:
    int)
    ensures
        ({
            let others = ranked::<CandidateFamily>(without_family(families, family.id));
            &&& 0 <= place <= others.len()
            &&& place == rank_position::<CandidateFamily>(others, family)
            &&& in_rank_order::<CandidateFamily>(others)
            &&& forall|i: int| 0 <= i < others.len() ==> (#[trigger] others[i]).id != family.id
            &&& ranked::<CandidateFamily>(without_family(families, family.id).push(family))
                == others.insert(place, family)
        }),
{
    let kept = without_family(families, family.id);
    let others = ranked::<CandidateFamily>(kept);
    lemma_without_id(families, family.id);
    lemma_ranked_is_sorted_permutation::<CandidateFamily>(kept);
    assert forall|i: int| 0 <= i < others.len() implies (#[trigger] others[i]).id != family.id by {
        lemma_ranked_holds::<CandidateFamily>(kept, i);
    }
    lemma_rank_position_bounds::<CandidateFamily>(others, family);
    assert(kept.push(family).drop_last() =~= kept);
    rank_position::<CandidateFamily>(others, family)
}

/// A family that joins a survey stands there once, the families stand in the
/// order of their ids, and every family of another id is still there.
pub proof fn a_joining_family_stands_once(survey: SurveyView, family: CandidateFamilyView)
    ensures
        in_rank_order::<CandidateFamily>(with_family(survey, family).candidates),
        with_family(survey, family).candidates.contains(family),
        forall|i: int, j: int|
            0 <= i < with_family(survey, family).candidates.len() && 0 <= j < with_family(
                survey,
                family,
            ).candidates.len() && (#[trigger] with_family(survey, family).candidates[i]).id
                == family.id && (#[trigger] with_family(survey, family).candidates[j]).id
                == family.id ==> i == j,
        without_family(with_family(survey, family).candidates, family.id).to_multiset()
            == without_family(survey.candidates, family.id).to_multiset(),
{
    let kept = without_family(survey.candidates, family.id);
    let others = ranked::<CandidateFamily>(kept);
    let place = lemma_family_joins(survey.candidates, family);
    let joined = others.insert(place, family);
    lemma_ranked_is_sorted_permutation::<CandidateFamily>(kept.push(family));
    lemma_ranked_is_sorted_permutation::<CandidateFamily>(kept);
    lemma_without_inserted(others, place, family);
    assert(joined[place] == family);
    assert forall|i: int| 0 <= i < joined.len() && i != place implies (#[trigger] joined[i]).id
        != family.id by {
        if i < place {
            assert(joined[i] == others[i]);
        } else {
            assert(joined[i] == others[i - 1]);
        }
    }
}

/// A family that joins a survey a second time changes nothing.
pub proof fn joining_twice_changes_nothing(survey: SurveyView, family: CandidateFamilyView)
    ensures
        with_family(with_family(survey, family), family) == with_family(survey, family),
{
    let others = ranked::<CandidateFamily>(without_family(survey.candidates, family.id));
    let place = lemma_family_joins(survey.candidates, family);
    lemma_without_inserted(others, place, family);
    lemma_ranked_fixed::<CandidateFamily>(others);
    assert(others.push(family).drop_last() =~= others);
    assert(ranked::<CandidateFamily>(others.push(family)) == others.insert(place, family));
}

/// Adding the family of a name prefix twice gives the same id twice and leaves
/// the survey as the first call left it.
pub proof fn adding_a_prefix_twice_changes_nothing(
    survey: SurveyView,
    inventory: Seq<ItemView>,
    kind: ResourceKind,
    prefix: Seq<char>,
)
    ensures
        ({
            let family = prefix_family(inventory, kind, prefix);
            let once = with_family(survey, family);
            &&& with_family(once, family) == once
            &&& family.id == prefix_id(kind, prefix)
            &&& family.resources == prefix_resources(inventory, kind, prefix)
            &&& once.summary.total_resources == survey.summary.total_resources
            &&& once.summary.known_bytes == survey.summary.known_bytes
            &&& once.candidates.contains(family)
        }),
{
    let family = prefix_family(inventory, kind, prefix);
    joining_twice_changes_nothing(survey, family);
    a_joining_family_stands_once(survey, family);
}

} // verus!
