//! What a survey makes of an inventory, said of labels, names and sizes.

use crate::candidate::{
    resource_sizes, CandidateFamily, CandidateFamilyView, CandidateResourceView, CandidateSelectorView,
    ConfiguratorError, ConfiguratorSurvey, SurveyView,
};
use crate::evidence::{
    evidence_is_surveyed, holds, label_shows_owner, lemma_gathered_ascend, lemma_item_is_offered,
    lemma_offer_is_gathered, lemma_record_is_offered, surveyed_resources_carry_evidence,
};
use crate::journal::{hexadecimal, text_hash};
use crate::labels::{covers, entries, entry_of, first_cover};
use crate::naming::size_sum;
use crate::order::{lemma_ranked_is_sorted_permutation, lemma_text_lt_irreflexive, text_lt};
use crate::resource::{InventoryItem, ItemView, ResourceKind};
use crate::survey::{
    add_name_prefix_candidate, agent_label, cache_offers, family_objects, gathered, item_sizes,
    label_offers, labelled_offers, labels_offers, offers_of, resource_slot, survey_inventory,
    survey_of, prefix_family, prefix_resources, under_prefix, with_family, without_family,
    with_resource, GroupView, OfferView,
};
use crate::text::{is_blank, views};
use crate::text_map::{has_key, key_index, lemma_put, lemma_put_pair, put, value_of};
use vstd::prelude::*;

verus! {

/// The word for a kind.
pub open spec fn word_for(kind: ResourceKind) -> Seq<char> {
    match kind {
        ResourceKind::Container => "container"@,
        ResourceKind::Image => "image"@,
        ResourceKind::Volume => "volume"@,
        ResourceKind::Network => "network"@,
        ResourceKind::BuildCache => "build-cache"@,
    }
}

/// Whether a label on a resource of a kind shows who owns it: a Compose project,
/// but for images, the mark of this tool, an agent's or a dev container's label.
pub open spec fn shows_owner(kind: ResourceKind, label: (Seq<char>, Seq<char>)) -> bool {
    if label.0 == "com.docker.compose.project"@ {
        !is_blank(label.1) && kind != ResourceKind::Image
    } else {
        is_agent_key(label.0)
    }
}

/// Whether a key is one that this tool, an agent or a dev container writes.
pub open spec fn is_agent_key(key: Seq<char>) -> bool {
    ||| key == "dev.docker-maid.managed"@
    ||| "ai-agent."@.is_prefix_of(key)
    ||| "devcontainer."@.is_prefix_of(key)
}

/// A key that is not that of a Compose project is an agent's exactly when it is in
/// the vocabulary.
pub proof fn lemma_agent_key(key: Seq<char>)
    ensures
        agent_label(key) <==> key != "com.docker.compose.project"@ && is_agent_key(key),
{
    let item = arbitrary::<ItemView>();
    lemma_owner(item, (key, Seq::empty()));
    if key != "com.docker.compose.project"@ {
        assert(label_shows_owner(item, (key, Seq::empty())) == agent_label(key));
    }
}

/// Whether an item has an owner: it carries such a label, or is build cache.
pub open spec fn is_owned(item: ItemView) -> bool {
    ||| item.kind == ResourceKind::BuildCache
    ||| exists|j: int| 0 <= j < item.labels.len() && shows_owner(item.kind, #[trigger] item.labels[j])
}

/// Whether a resource of a family tells of an item.
pub open spec fn stands_for(resource: CandidateResourceView, item: ItemView) -> bool {
    &&& resource.resource_kind == word_for(item.kind)
    &&& resource.id == item.id
    &&& resource.name == item.name
    &&& resource.size == item.size
    &&& resource.referenced == item.referenced
    &&& resource.running == (item.state is Running)
}

/// Whether resources hold an item.
pub open spec fn has_item(resources: Seq<CandidateResourceView>, item: ItemView) -> bool {
    exists|r: int|
        0 <= r < resources.len() && (#[trigger] resources[r]).resource_kind == word_for(item.kind)
            && resources[r].id == item.id
}

/// Whether the owners' labels of an inventory have different short hashes.
pub open spec fn hashes_tell_labels_apart(inventory: Seq<ItemView>) -> bool {
    forall|i: int, a: int, j: int, b: int|
        0 <= i < inventory.len() && 0 <= a < inventory[i].labels.len() && 0 <= j < inventory.len()
            && 0 <= b < inventory[j].labels.len() && shows_owner(
            inventory[i].kind,
            inventory[i].labels[a],
        ) && shows_owner(inventory[j].kind, inventory[j].labels[b]) && mark_of(
            inventory[i].labels[a],
        ) == mark_of(inventory[j].labels[b]) ==> #[trigger] inventory[i].labels[a]
            == #[trigger] inventory[j].labels[b]
}

/// The short hash of a label.
pub open spec fn mark_of(label: (Seq<char>, Seq<char>)) -> Seq<char> {
    text_hash(label.0 + "="@ + label.1).take(8)
}

proof fn lemma_owner(item: ItemView, label: (Seq<char>, Seq<char>))
    ensures
        label_shows_owner(item, label) <==> shows_owner(item.kind, label),
{
    let key = label.0;
    assert(entries()[0].key == "com.docker.compose.project"@);
    assert(entries()[1].key == "dev.docker-maid.managed"@);
    assert(entries()[2].key == "ai-agent."@);
    assert(entries()[3].key == "devcontainer."@);
    reveal_with_fuel(first_cover, 5);
    let one = entries().drop_first();
    let two = one.drop_first();
    let three = two.drop_first();
    assert(one[0] == entries()[1] && two[0] == entries()[2] && three[0] == entries()[3]);
    assert(three.drop_first().len() == 0);
    assert(entry_of(key) is Some <==> exists|e: int| 0 <= e < 4 && covers(#[trigger] entries()[e], key)) by {
        assert(covers(entries()[0], key) || !covers(entries()[0], key));
        assert(covers(entries()[1], key) || !covers(entries()[1], key));
        assert(covers(entries()[2], key) || !covers(entries()[2], key));
        assert(covers(entries()[3], key) || !covers(entries()[3], key));
    }
    assert(entries()[1].matching is Exact && entries()[2].matching is Prefix && entries()[3].matching is Prefix);
}

proof fn lemma_hash(value: nat, digits: nat)
    ensures
        hexadecimal(value, digits).len() == digits,
    decreases digits,
{
    if digits > 0 {
        lemma_hash(value / 16, (digits - 1) as nat);
    }
}

/// Whether an offer is what a label of an item gives.
spec fn is_labelled_offer(inventory: Seq<ItemView>, offer: OfferView, k: int, j: int) -> bool {
    &&& 0 <= k < inventory.len()
    &&& 0 <= j < inventory[k].labels.len()
    &&& label_shows_owner(inventory[k], inventory[k].labels[j])
    &&& offer == label_offers(inventory[k], inventory[k].labels[j])[0]
}

/// Whether an offer is what a build-cache record gives.
spec fn is_cache_offer(inventory: Seq<ItemView>, offer: OfferView, k: int) -> bool {
    &&& 0 <= k < inventory.len()
    &&& inventory[k].kind == ResourceKind::BuildCache
    &&& offer == crate::survey::cache_offer(inventory[k])
}

spec fn is_made(inventory: Seq<ItemView>, offer: OfferView) -> bool {
    ||| exists|k: int, j: int| is_labelled_offer(inventory, offer, k, j)
    ||| exists|k: int| is_cache_offer(inventory, offer, k)
}

proof fn lemma_from_labels(item: ItemView, labels: Seq<(Seq<char>, Seq<char>)>, o: int)
    requires
        0 <= o < labels_offers(item, labels).len(),
    ensures
        exists|j: int|
            0 <= j < labels.len() && label_shows_owner(item, #[trigger] labels[j])
                && labels_offers(item, labels)[o] == label_offers(item, labels[j])[0],
    decreases labels.len(),
{
    if labels.len() > 0 {
        let less = labels.drop_last();
        let before = labels_offers(item, less);
        let offer = labels_offers(item, labels)[o];
        if o < before.len() {
            lemma_from_labels(item, less, o);
            let j = choose|j: int|
                0 <= j < less.len() && label_shows_owner(item, #[trigger] less[j]) && before[o]
                    == label_offers(item, less[j])[0];
            assert(labels[j] == less[j]);
        } else {
            assert(offer == label_offers(item, labels.last())[o - before.len()]);
            assert(labels[labels.len() - 1] == labels.last());
        }
    }
}

proof fn lemma_labelled(inventory: Seq<ItemView>, o: int)
    requires
        0 <= o < labelled_offers(inventory).len(),
    ensures
        exists|k: int, j: int|
            is_labelled_offer(inventory, labelled_offers(inventory)[o], k, j),
    decreases inventory.len(),
{
    if inventory.len() > 0 {
        let less = inventory.drop_last();
        let before = labelled_offers(less);
        let offer = labelled_offers(inventory)[o];
        if o < before.len() {
            lemma_labelled(less, o);
            let (k, j) = choose|k: int, j: int| is_labelled_offer(less, before[o], k, j);
            assert(inventory[k] == less[k]);
            assert(is_labelled_offer(inventory, offer, k, j));
        } else {
            let item = inventory.last();
            lemma_from_labels(item, item.labels, o - before.len());
            let own = labels_offers(item, item.labels);
            let j = choose|j: int|
                0 <= j < item.labels.len() && label_shows_owner(item, #[trigger] item.labels[j])
                    && own[o - before.len()] == label_offers(item, item.labels[j])[0];
            assert(is_labelled_offer(inventory, offer, inventory.len() - 1, j));
        }
    }
}

proof fn lemma_cached(inventory: Seq<ItemView>, o: int)
    requires
        0 <= o < cache_offers(inventory).len(),
    ensures
        exists|k: int| is_cache_offer(inventory, cache_offers(inventory)[o], k),
    decreases inventory.len(),
{
    if inventory.len() > 0 {
        let less = inventory.drop_last();
        let before = cache_offers(less);
        let offer = cache_offers(inventory)[o];
        if o < before.len() {
            lemma_cached(less, o);
            let k = choose|k: int| is_cache_offer(less, before[o], k);
            assert(inventory[k] == less[k]);
            assert(is_cache_offer(inventory, offer, k));
        } else {
            assert(is_cache_offer(inventory, offer, inventory.len() - 1));
        }
    }
}

proof fn lemma_made(inventory: Seq<ItemView>, o: int)
    requires
        0 <= o < offers_of(inventory).len(),
    ensures
        is_made(inventory, offers_of(inventory)[o]),
{
    let labelled = labelled_offers(inventory);
    if o < labelled.len() {
        lemma_labelled(inventory, o);
    } else {
        lemma_cached(inventory, o - labelled.len());
    }
}

/// Offers under one id select alike.
proof fn lemma_same_id(inventory: Seq<ItemView>, left: OfferView, right: OfferView)
    requires
        hashes_tell_labels_apart(inventory),
        is_made(inventory, left),
        is_made(inventory, right),
        left.id == right.id,
    ensures
        left.selector == right.selector,
        left.unscoped == right.unscoped,
{
    lemma_id(inventory, left);
    lemma_id(inventory, right);
    if left.id[0] != 'b' {
        let (i, a) = choose|k: int, j: int| is_labelled_offer(inventory, left, k, j);
        let (k, b) = choose|k: int, j: int| is_labelled_offer(inventory, right, k, j);
        lemma_owner(inventory[i], inventory[i].labels[a]);
        lemma_owner(inventory[k], inventory[k].labels[b]);
        assert(mark_of(inventory[i].labels[a]) == mark_of(inventory[k].labels[b]));
        assert(inventory[i].labels[a] == inventory[k].labels[b]);
    }
}

proof fn lemma_id(inventory: Seq<ItemView>, offer: OfferView)
    requires
        is_made(inventory, offer),
    ensures
        offer.id.len() > 8,
        offer.id[0] == 'b' <==> exists|k: int| is_cache_offer(inventory, offer, k),
        offer.id[0] != 'b' ==> forall|k: int, j: int| #[trigger]
            is_labelled_offer(inventory, offer, k, j) ==> offer.id.subrange(
                offer.id.len() - 8,
                offer.id.len() as int,
            ) == mark_of(inventory[k].labels[j]),
{
    reveal_strlit("build-cache");
    reveal_strlit("compose/");
    reveal_strlit("agent-label/");
    assert forall|k: int, j: int| #[trigger] is_labelled_offer(inventory, offer, k, j) implies {
        &&& offer.id.len() > 8
        &&& offer.id[0] != 'b'
        &&& offer.id.subrange(offer.id.len() - 8, offer.id.len() as int) == mark_of(
            inventory[k].labels[j],
        )
    } by {
        let label = inventory[k].labels[j];
        let text = label.0 + "="@ + label.1;
        lemma_hash(crate::journal::byte_hash(vstd::utf8::encode_utf8(text)) as nat, 16);
        assert(text_hash(text).len() == 16);
        assert(offer.id.subrange(offer.id.len() - 8, offer.id.len() as int) =~= mark_of(label));
    }
}

spec fn gives_selector(
    offers: Seq<OfferView>,
    id: Seq<char>,
    selector: CandidateSelectorView,
) -> bool {
    exists|o: int|
        0 <= o < offers.len() && (#[trigger] offers[o]).id == id && offers[o].selector == selector
}

spec fn gives_resource(
    offers: Seq<OfferView>,
    id: Seq<char>,
    resource: CandidateResourceView,
) -> bool {
    exists|o: int|
        0 <= o < offers.len() && (#[trigger] offers[o]).id == id && offers[o].resource == resource
}

spec fn gives_warning(offers: Seq<OfferView>, id: Seq<char>) -> bool {
    exists|o: int| 0 <= o < offers.len() && (#[trigger] offers[o]).id == id && offers[o].unscoped
}

spec fn is_group(offers: Seq<OfferView>, id: Seq<char>, group: GroupView) -> bool {
    &&& gives_selector(offers, id, group.selector)
    &&& forall|r: int|
        0 <= r < group.resources.len() ==> gives_resource(offers, id, #[trigger] group.resources[r])
    &&& group.unscoped <==> gives_warning(offers, id)
}

proof fn lemma_placed(resources: Seq<CandidateResourceView>, resource: CandidateResourceView, r: int)
    requires
        0 <= r < with_resource(resources, resource).len(),
    ensures
        with_resource(resources, resource)[r] == resource || exists|q: int|
            0 <= q < resources.len() && #[trigger] resources[q] == with_resource(
                resources,
                resource,
            )[r],
{
    lemma_slot(resources, resource);
    let place = resource_slot(resources, resource);
    let after = with_resource(resources, resource);
    if r != place {
        let q = if after.len() == resources.len() || r < place { r } else { r - 1 };
        assert(resources[q] == after[r]);
    }
}

proof fn lemma_slot(resources: Seq<CandidateResourceView>, resource: CandidateResourceView)
    ensures
        0 <= resource_slot(resources, resource) <= resources.len(),
    decreases resources.len(),
{
    if resources.len() > 0 {
        lemma_slot(resources.drop_last(), resource);
    }
}

proof fn lemma_grows(offers: Seq<OfferView>, id: Seq<char>, resource: CandidateResourceView)
    requires
        offers.len() > 0,
    ensures
        gives_resource(offers.drop_last(), id, resource) ==> gives_resource(offers, id, resource),
{
    let less = offers.drop_last();
    if gives_resource(less, id, resource) {
        let o = choose|o: int|
            0 <= o < less.len() && (#[trigger] less[o]).id == id && less[o].resource == resource;
        assert(offers[o] == less[o]);
    }
}

proof fn lemma_groups(offers: Seq<OfferView>, g: int)
    requires
        0 <= g < gathered(offers).len(),
    ensures
        is_group(offers, gathered(offers)[g].0, gathered(offers)[g].1),
    decreases offers.len(),
{
    if offers.len() > 0 {
        let less = offers.drop_last();
        let rest = gathered(less);
        let offer = offers.last();
        let end = offers.len() - 1;
        let earlier = value_of(rest, offer.id);
        let resources = match earlier {
            Some(group) => group.resources,
            None => Seq::empty(),
        };
        let unscoped = match earlier {
            Some(group) => group.unscoped,
            None => false,
        };
        let group = GroupView {
            title: offer.title,
            evidence: offer.evidence,
            selector: offer.selector,
            resources: with_resource(resources, offer.resource),
            unscoped: unscoped || offer.unscoped,
        };
        let after = gathered(offers);
        assert(after == put(rest, offer.id, group));
        assert(offers[end] == offer);
        lemma_gathered_ascend(less);
        lemma_gathered_ascend(offers);
        lemma_put_pair(rest, offer.id, group, g);
        lemma_put(rest, offer.id, group, offer.id);
        let id = after[g].0;
        if id == offer.id {
            let h = key_index(after, offer.id);
            assert(has_key(after, offer.id));
            if h != g {
                lemma_text_lt_irreflexive(offer.id);
                if h < g {
                    assert(text_lt(after[h].0, after[g].0));
                } else {
                    assert(text_lt(after[g].0, after[h].0));
                }
            }
            assert(after[g].1 == group);
            if earlier is Some {
                let q = key_index(rest, offer.id);
                assert(has_key(rest, offer.id));
                lemma_groups(less, q);
                assert(is_group(less, offer.id, rest[q].1));
            }
            assert forall|r: int| 0 <= r < group.resources.len() implies gives_resource(
                offers,
                id,
                #[trigger] group.resources[r],
            ) by {
                lemma_placed(resources, offer.resource, r);
                if group.resources[r] != offer.resource {
                    lemma_grows(offers, id, group.resources[r]);
                }
            }
            if gives_warning(offers, id) && !offer.unscoped {
                let o = choose|o: int|
                    0 <= o < offers.len() && (#[trigger] offers[o]).id == id && offers[o].unscoped;
                assert(less[o] == offers[o]);
                assert(gives_warning(less, id));
                lemma_offer_is_gathered(less, o);
            }
            if unscoped {
                let o = choose|o: int|
                    0 <= o < less.len() && (#[trigger] less[o]).id == id && less[o].unscoped;
                assert(offers[o] == less[o]);
            }
        } else {
            let h = choose|h: int| 0 <= h < rest.len() && #[trigger] rest[h] == after[g];
            lemma_groups(less, h);
            let held = rest[h].1;
            let o = choose|o: int|
                0 <= o < less.len() && (#[trigger] less[o]).id == id && less[o].selector
                    == held.selector;
            assert(offers[o] == less[o]);
            assert forall|r: int| 0 <= r < held.resources.len() implies gives_resource(
                offers,
                id,
                #[trigger] held.resources[r],
            ) by {
                lemma_grows(offers, id, held.resources[r]);
            }
            if gives_warning(less, id) {
                let w = choose|w: int|
                    0 <= w < less.len() && (#[trigger] less[w]).id == id && less[w].unscoped;
                assert(offers[w] == less[w]);
            }
            if gives_warning(offers, id) {
                let w = choose|w: int|
                    0 <= w < offers.len() && (#[trigger] offers[w]).id == id && offers[w].unscoped;
                assert(less[w] == offers[w]);
            }
        }
    }
}

/// A family whose offers hold one offer selects as that offer does.
proof fn lemma_family(inventory: Seq<ItemView>, o: int) -> (f: int)
    requires
        hashes_tell_labels_apart(inventory),
        0 <= o < offers_of(inventory).len(),
    ensures
        0 <= f < survey_of(inventory).candidates.len(),
        survey_of(inventory).candidates[f].selector == offers_of(inventory)[o].selector,
        survey_of(inventory).candidates[f].warning is Some <==> offers_of(inventory)[o].unscoped,
        holds(survey_of(inventory).candidates[f].resources, offers_of(inventory)[o].resource),
{
    let offers = offers_of(inventory);
    let groups = gathered(offers);
    let id = offers[o].id;
    lemma_offer_is_gathered(offers, o);
    let g = key_index(groups, id);
    assert(has_key(groups, id));
    lemma_groups(offers, g);
    let group = groups[g].1;
    let s = choose|s: int|
        0 <= s < offers.len() && (#[trigger] offers[s]).id == id && offers[s].selector
            == group.selector;
    lemma_made(inventory, s);
    lemma_made(inventory, o);
    lemma_same_id(inventory, offers[s], offers[o]);
    if group.unscoped {
        let w = choose|w: int|
            0 <= w < offers.len() && (#[trigger] offers[w]).id == id && offers[w].unscoped;
        lemma_made(inventory, w);
        lemma_same_id(inventory, offers[w], offers[o]);
    }
    g
}

/// Whether some family of a survey selects by a selector, holds an item, and warns
/// or not.
pub open spec fn family_holds(
    families: Seq<CandidateFamilyView>,
    selector: CandidateSelectorView,
    item: ItemView,
    warns: bool,
) -> bool {
    exists|f: int|
        0 <= f < families.len() && (#[trigger] families[f]).selector == selector && has_item(
            families[f].resources,
            item,
        ) && (families[f].warning is Some <==> warns)
}

/// Every owned item stands in the family of its label, and every build-cache
/// record in the family of the build cache, which alone carries a warning.
pub proof fn owned_items_stand_in_the_family_of_their_label(
    inventory: Vec<InventoryItem>,
    survey: ConfiguratorSurvey,
    k: int,
)
    requires
        call_ensures(survey_inventory, (&inventory,), survey),
        hashes_tell_labels_apart(views(inventory@)),
        0 <= k < inventory@.len(),
    ensures
        forall|j: int|
            0 <= j < inventory@[k]@.labels.len() && shows_owner(
                inventory@[k]@.kind,
                inventory@[k]@.labels[j],
            ) ==> family_holds(
                survey@.candidates,
                CandidateSelectorView::ExactLabel {
                    key: (#[trigger] inventory@[k]@.labels[j]).0,
                    value: inventory@[k]@.labels[j].1,
                },
                inventory@[k]@,
                false,
            ),
        inventory@[k]@.kind == ResourceKind::BuildCache ==> family_holds(
            survey@.candidates,
            CandidateSelectorView::BuildCache,
            inventory@[k]@,
            true,
        ),
{
    let items = views(inventory@);
    let item = items[k];
    let offers = offers_of(items);
    let labelled = labelled_offers(items);
    let cached = cache_offers(items);
    assert(item == inventory@[k]@);
    assert forall|j: int|
        0 <= j < item.labels.len() && shows_owner(item.kind, item.labels[j]) implies family_holds(
        survey@.candidates,
        CandidateSelectorView::ExactLabel {
            key: (#[trigger] item.labels[j]).0,
            value: item.labels[j].1,
        },
        item,
        false,
    ) by {
        lemma_owner(item, item.labels[j]);
        lemma_item_is_offered(items, k, j);
        let o = choose|o: int|
            0 <= o < labelled.len() && #[trigger] labelled[o] == label_offers(
                item,
                item.labels[j],
            )[0];
        assert(offers[o] == labelled[o]);
        let f = lemma_family(items, o);
        lemma_held(survey@.candidates[f].resources, item, offers[o].resource);
    }
    if item.kind == ResourceKind::BuildCache {
        lemma_record_is_offered(items, k);
        let c = choose|c: int|
            0 <= c < cached.len() && #[trigger] cached[c] == crate::survey::cache_offer(item);
        assert(offers[labelled.len() + c] == cached[c]);
        let f = lemma_family(items, labelled.len() + c);
        lemma_held(survey@.candidates[f].resources, item, cached[c].resource);
    }
}

proof fn lemma_held(
    resources: Seq<CandidateResourceView>,
    item: ItemView,
    resource: CandidateResourceView,
)
    requires
        holds(resources, resource),
        stands_for(resource, item),
    ensures
        has_item(resources, item),
{
    let r = choose|r: int|
        0 <= r < resources.len() && crate::survey::same_object(#[trigger] resources[r], resource);
    assert(resources[r].id == item.id);
}

/// Whether a resource of a family tells of an item that the family's selector
/// names.
pub open spec fn belongs(
    inventory: Seq<ItemView>,
    selector: CandidateSelectorView,
    resource: CandidateResourceView,
) -> bool {
    exists|k: int|
        0 <= k < inventory.len() && stands_for(resource, #[trigger] inventory[k]) && match selector {
            CandidateSelectorView::ExactLabel { key, value } => inventory[k].labels.contains(
                (key, value),
            ) && shows_owner(inventory[k].kind, (key, value)),
            CandidateSelectorView::BuildCache => inventory[k].kind == ResourceKind::BuildCache,
            CandidateSelectorView::NamePrefix { resource_kind, prefix } => false,
        }
}

/// A family holds nothing but what its selector names, and its bytes are those of
/// its resources.
pub proof fn families_hold_what_their_selector_names(
    inventory: Vec<InventoryItem>,
    survey: ConfiguratorSurvey,
    f: int,
)
    requires
        call_ensures(survey_inventory, (&inventory,), survey),
        hashes_tell_labels_apart(views(inventory@)),
        0 <= f < survey@.candidates.len(),
    ensures
        forall|r: int|
            0 <= r < survey@.candidates[f].resources.len() ==> belongs(
                views(inventory@),
                survey@.candidates[f].selector,
                #[trigger] survey@.candidates[f].resources[r],
            ),
{
    let items = views(inventory@);
    let offers = offers_of(items);
    let groups = gathered(offers);
    let group = groups[f].1;
    let id = groups[f].0;
    lemma_groups(offers, f);
    let s = choose|s: int|
        0 <= s < offers.len() && (#[trigger] offers[s]).id == id && offers[s].selector
            == group.selector;
    assert forall|r: int| 0 <= r < group.resources.len() implies belongs(
        items,
        group.selector,
        #[trigger] group.resources[r],
    ) by {
        assert(gives_resource(offers, id, group.resources[r]));
        let o = choose|o: int|
            0 <= o < offers.len() && (#[trigger] offers[o]).id == id && offers[o].resource
                == group.resources[r];
        lemma_made(items, s);
        lemma_made(items, o);
        lemma_same_id(items, offers[s], offers[o]);
        let offer = offers[o];
        if exists|k: int| is_cache_offer(items, offer, k) {
            let k = choose|k: int| is_cache_offer(items, offer, k);
            assert(stands_for(offer.resource, items[k]));
        } else {
            let (k, j) = choose|k: int, j: int| is_labelled_offer(items, offer, k, j);
            lemma_owner(items[k], items[k].labels[j]);
            assert(stands_for(offer.resource, items[k]));
            assert(items[k].labels.contains(items[k].labels[j]));
        }
    }
}

/// The sum of what is known of sizes.
pub open spec fn sum_of(sizes: Seq<Option<u64>>) -> nat
    decreases sizes.len(),
{
    if sizes.len() == 0 {
        0
    } else {
        sum_of(sizes.drop_first()) + (if sizes[0] is Some {
            sizes[0]->0 as nat
        } else {
            0
        })
    }
}

/// A count that fits, or the largest there is.
pub open spec fn counted(sum: nat) -> int {
    if sum <= u64::MAX {
        sum as int
    } else {
        u64::MAX as int
    }
}

/// A sum is the same from either end.
pub proof fn lemma_sum(sizes: Seq<Option<u64>>)
    ensures
        size_sum(sizes) == sum_of(sizes),
    decreases sizes.len(),
{
    if sizes.len() == 1 {
        assert(sum_of(sizes.drop_first()) == 0);
        assert(size_sum(sizes.drop_last()) == 0);
        assert(sizes.last() == sizes[0]);
    } else if sizes.len() > 1 {
        let rest = sizes.drop_first();
        let less = sizes.drop_last();
        lemma_sum(rest);
        lemma_sum(less);
        lemma_sum(less.drop_first());
        assert(less.drop_first() =~= rest.drop_last());
        assert(rest.last() == sizes.last());
        assert(less[0] == sizes[0]);
    }
}

/// How many items have an owner.
pub open spec fn owned_count(inventory: Seq<ItemView>) -> nat
    decreases inventory.len(),
{
    if inventory.len() == 0 {
        0
    } else if is_owned(inventory[0]) {
        owned_count(inventory.drop_first()) + 1
    } else {
        owned_count(inventory.drop_first())
    }
}

/// Whether no two items are the same Docker object.
pub open spec fn items_differ(inventory: Seq<ItemView>) -> bool {
    forall|i: int, j: int|
        0 <= i < j < inventory.len() && (#[trigger] inventory[i]).kind == (
        #[trigger] inventory[j]).kind ==> inventory[i].id != inventory[j].id
}

/// The owned objects.
spec fn owned_objects(inventory: Seq<ItemView>) -> Set<(Seq<char>, Seq<char>)>
    decreases inventory.len(),
{
    if inventory.len() == 0 {
        Set::empty()
    } else if is_owned(inventory[0]) {
        owned_objects(inventory.drop_first()).insert(
            (word_for(inventory[0].kind), inventory[0].id),
        )
    } else {
        owned_objects(inventory.drop_first())
    }
}

spec fn is_owned_object(inventory: Seq<ItemView>, object: (Seq<char>, Seq<char>)) -> bool {
    exists|k: int|
        0 <= k < inventory.len() && is_owned(#[trigger] inventory[k]) && object == (
            word_for(inventory[k].kind),
            inventory[k].id,
        )
}

/// Kinds have different words.
pub proof fn lemma_words(left: ResourceKind, right: ResourceKind)
    ensures
        word_for(left) == word_for(right) ==> left == right,
{
    reveal_strlit("container");
    reveal_strlit("image");
    reveal_strlit("volume");
    reveal_strlit("network");
    reveal_strlit("build-cache");
    assert(word_for(left)[0] == word_for(right)[0] ==> left == right);
}

proof fn lemma_objects(inventory: Seq<ItemView>, object: (Seq<char>, Seq<char>))
    ensures
        owned_objects(inventory).contains(object) <==> is_owned_object(inventory, object),
        owned_objects(inventory).finite(),
        owned_objects(inventory).len() <= owned_count(inventory) <= inventory.len(),
        items_differ(inventory) ==> owned_objects(inventory).len() == owned_count(inventory),
    decreases inventory.len(),
{
    if inventory.len() > 0 {
        let rest = inventory.drop_first();
        let first = (word_for(inventory[0].kind), inventory[0].id);
        lemma_objects(rest, object);
        lemma_objects(rest, first);
        if is_owned_object(rest, object) {
            let k = choose|k: int|
                0 <= k < rest.len() && is_owned(#[trigger] rest[k]) && object == (
                    word_for(rest[k].kind),
                    rest[k].id,
                );
            assert(inventory[k + 1] == rest[k]);
        }
        if is_owned_object(inventory, object) {
            let k = choose|k: int|
                0 <= k < inventory.len() && is_owned(#[trigger] inventory[k]) && object == (
                    word_for(inventory[k].kind),
                    inventory[k].id,
                );
            if k > 0 {
                assert(rest[k - 1] == inventory[k]);
            }
        }
        if items_differ(inventory) {
            assert forall|i: int, j: int|
                0 <= i < j < rest.len() && (#[trigger] rest[i]).kind == (
                #[trigger] rest[j]).kind implies rest[i].id != rest[j].id by {
                assert(rest[i] == inventory[i + 1] && rest[j] == inventory[j + 1]);
            }
            if is_owned_object(rest, first) {
                let k = choose|k: int|
                    0 <= k < rest.len() && is_owned(#[trigger] rest[k]) && first == (
                        word_for(rest[k].kind),
                        rest[k].id,
                    );
                lemma_words(inventory[0].kind, rest[k].kind);
                assert(inventory[k + 1] == rest[k]);
                assert(inventory[0].id != inventory[k + 1].id);
            }
        }
    }
}

spec fn in_a_family(families: Seq<CandidateFamilyView>, object: (Seq<char>, Seq<char>)) -> bool {
    exists|f: int, r: int| is_there(families, f, r, object)
}

spec fn is_there(
    families: Seq<CandidateFamilyView>,
    f: int,
    r: int,
    object: (Seq<char>, Seq<char>),
) -> bool {
    &&& 0 <= f < families.len()
    &&& 0 <= r < families[f].resources.len()
    &&& families[f].resources[r].resource_kind == object.0
    &&& families[f].resources[r].id == object.1
}

proof fn lemma_in_families(families: Seq<CandidateFamilyView>, object: (Seq<char>, Seq<char>))
    ensures
        family_objects(families).contains(object) <==> in_a_family(families, object),
    decreases families.len(),
{
    if families.len() > 0 {
        let less = families.drop_last();
        let end = families.len() - 1;
        let before = family_objects(less);
        let own = crate::survey::resource_objects(families.last().resources);
        let all = family_objects(families);
        lemma_in_families(less, object);
        assert(all == before + own);
        if all.contains(object) {
            let i = choose|i: int| 0 <= i < all.len() && all[i] == object;
            if i < before.len() {
                assert(before[i] == object);
                let (f, r) = choose|f: int, r: int| is_there(less, f, r, object);
                assert(is_there(families, f, r, object));
            } else {
                assert(is_there(families, end, i - before.len(), object));
            }
        }
        if in_a_family(families, object) {
            let (f, r) = choose|f: int, r: int| is_there(families, f, r, object);
            if f < end {
                assert(is_there(less, f, r, object));
                let i = choose|i: int| 0 <= i < before.len() && before[i] == object;
                assert(all[i] == object);
            } else {
                assert(own[r] == object);
                assert(all[before.len() + r] == object);
            }
        }
    } else {
        assert(family_objects(families) =~= Seq::empty());
    }
}

proof fn lemma_covered(inventory: Seq<ItemView>)
    ensures
        family_objects(survey_of(inventory).candidates).to_set() == owned_objects(inventory),
{
    let families = survey_of(inventory).candidates;
    let held = family_objects(families).to_set();
    assert forall|object: (Seq<char>, Seq<char>)| held.contains(object) <==> owned_objects(
        inventory,
    ).contains(object) by {
        lemma_objects(inventory, object);
        lemma_in_families(families, object);
        if in_a_family(families, object) {
            let (f, r) = choose|f: int, r: int| is_there(families, f, r, object);
            surveyed_resources_carry_evidence(inventory, f, r);
            let k = choose|k: int|
                0 <= k < inventory.len() && crate::evidence::has_evidence(inventory[k])
                    && families[f].resources[r] == crate::candidate::resource_of(
                    #[trigger] inventory[k],
                );
            lemma_evidence(inventory[k]);
            assert(is_owned(inventory[k]));
        }
        if is_owned_object(inventory, object) {
            let k = choose|k: int|
                0 <= k < inventory.len() && is_owned(#[trigger] inventory[k]) && object == (
                    word_for(inventory[k].kind),
                    inventory[k].id,
                );
            lemma_evidence(inventory[k]);
            evidence_is_surveyed(inventory, k);
            let resource = crate::candidate::resource_of(inventory[k]);
            let f = choose|f: int|
                0 <= f < families.len() && holds((#[trigger] families[f]).resources, resource);
            let resources = families[f].resources;
            let r = choose|r: int|
                0 <= r < resources.len() && crate::survey::same_object(
                    #[trigger] resources[r],
                    resource,
                );
            assert(is_there(families, f, r, object));
        }
    }
    assert(held =~= owned_objects(inventory));
}

proof fn lemma_evidence(item: ItemView)
    ensures
        crate::evidence::has_evidence(item) <==> is_owned(item),
{
    if crate::evidence::has_evidence(item) && item.kind != ResourceKind::BuildCache {
        let j = choose|j: int|
            0 <= j < item.labels.len() && label_shows_owner(item, #[trigger] item.labels[j]);
        lemma_owner(item, item.labels[j]);
        assert(shows_owner(item.kind, item.labels[j]));
    }
    if is_owned(item) && item.kind != ResourceKind::BuildCache {
        let j = choose|j: int|
            0 <= j < item.labels.len() && shows_owner(item.kind, #[trigger] item.labels[j]);
        lemma_owner(item, item.labels[j]);
        assert(label_shows_owner(item, item.labels[j]));
    }
}

proof fn lemma_item_bytes(inventory: Seq<ItemView>)
    ensures
        survey_of(inventory).summary.known_bytes == counted(
            sum_of(inventory.map_values(|item: ItemView| item.size)),
        ),
{
    lemma_sum(item_sizes(inventory));
    assert(item_sizes(inventory) =~= inventory.map_values(|item: ItemView| item.size));
}

proof fn lemma_family_bytes(inventory: Seq<ItemView>, f: int)
    requires
        0 <= f < survey_of(inventory).candidates.len(),
    ensures
        survey_of(inventory).candidates[f].known_bytes == bytes_held(
            survey_of(inventory).candidates[f].resources,
        ),
{
    let resources = survey_of(inventory).candidates[f].resources;
    lemma_sum(resource_sizes(resources));
    assert(resource_sizes(resources) =~= resources.map_values(
        |resource: CandidateResourceView| resource.size,
    ));
}

proof fn lemma_counts(inventory: Seq<ItemView>)
    requires
        inventory.len() <= usize::MAX,
    ensures
        survey_of(inventory).summary.total_resources == inventory.len(),
        survey_of(inventory).summary.candidate_resources
            + survey_of(inventory).summary.unowned_resources == inventory.len(),
        items_differ(inventory) ==> survey_of(inventory).summary.candidate_resources == owned_count(
            inventory,
        ),
{
    lemma_covered(inventory);
    lemma_objects(inventory, (Seq::empty(), Seq::empty()));
}

/// The bytes that resources are known to hold.
pub open spec fn bytes_held(resources: Seq<CandidateResourceView>) -> int {
    counted(sum_of(resources.map_values(|resource: CandidateResourceView| resource.size)))
}

/// Whether a survey counts an inventory: its items, the owned and the others, and
/// the sizes that are known, of the inventory and of every family.
pub open spec fn counts(inventory: Seq<ItemView>, survey: SurveyView) -> bool {
    &&& survey.summary.total_resources == inventory.len()
    &&& survey.summary.candidate_resources + survey.summary.unowned_resources == inventory.len()
    &&& items_differ(inventory) ==> survey.summary.candidate_resources == owned_count(inventory)
    &&& survey.summary.known_bytes == counted(
        sum_of(inventory.map_values(|item: ItemView| item.size)),
    )
    &&& forall|f: int|
        0 <= f < survey.candidates.len() ==> (#[trigger] survey.candidates[f]).known_bytes
            == bytes_held(survey.candidates[f].resources)
}

proof fn lemma_survey_counts(inventory: Seq<ItemView>, survey: SurveyView)
    requires
        inventory.len() <= usize::MAX,
        survey == survey_of(inventory),
    ensures
        counts(inventory, survey),
{
    lemma_counts(inventory);
    lemma_item_bytes(inventory);
    assert forall|f: int| 0 <= f < survey.candidates.len() implies (
    #[trigger] survey.candidates[f]).known_bytes == bytes_held(survey.candidates[f].resources) by {
        lemma_family_bytes(inventory, f);
    }
}

/// A survey counts its inventory.
pub proof fn a_survey_counts_the_inventory(inventory: Vec<InventoryItem>, survey: ConfiguratorSurvey)
    requires
        call_ensures(survey_inventory, (&inventory,), survey),
    ensures
        counts(views(inventory@), survey@),
{
    assert(inventory.len() == views(inventory@).len());
    lemma_survey_counts(views(inventory@), survey@);
}

/// Whether an item is of a kind and has a name that begins with a prefix.
pub open spec fn begins(item: ItemView, kind: ResourceKind, prefix: Seq<char>) -> bool {
    item.kind == kind && exists|n: int|
        0 <= n < item.search_names.len() && prefix.len() <= (
        #[trigger] item.search_names[n]).len() && item.search_names[n].take(prefix.len() as int)
            == prefix
}

/// Whether some item is of a kind and has a name that begins with a prefix.
pub open spec fn some_begins(inventory: Seq<ItemView>, kind: ResourceKind, prefix: Seq<char>) -> bool {
    exists|k: int| 0 <= k < inventory.len() && begins(#[trigger] inventory[k], kind, prefix)
}

/// Whether a resource tells of an item under a prefix.
pub open spec fn is_under(
    inventory: Seq<ItemView>,
    kind: ResourceKind,
    prefix: Seq<char>,
    resource: CandidateResourceView,
) -> bool {
    exists|k: int|
        0 <= k < inventory.len() && begins(#[trigger] inventory[k], kind, prefix) && stands_for(
            resource,
            inventory[k],
        )
}

/// Whether a resource tells of an item.
pub open spec fn is_told(resources: Seq<CandidateResourceView>, item: ItemView) -> bool {
    exists|r: int| 0 <= r < resources.len() && stands_for(#[trigger] resources[r], item)
}

/// Whether a family is that of a prefix: it holds the items of the kind that have
/// a name with it, and nothing else.
pub open spec fn is_family_of_prefix(
    family: CandidateFamilyView,
    inventory: Seq<ItemView>,
    kind: ResourceKind,
    prefix: Seq<char>,
) -> bool {
    &&& family.selector == CandidateSelectorView::NamePrefix {
        resource_kind: word_for(kind),
        prefix,
    }
    &&& family.warning is None
    &&& family.known_bytes == bytes_held(family.resources)
    &&& forall|r: int|
        0 <= r < family.resources.len() ==> is_under(
            inventory,
            kind,
            prefix,
            #[trigger] family.resources[r],
        )
    &&& forall|k: int|
        0 <= k < inventory.len() && begins(#[trigger] inventory[k], kind, prefix) ==> is_told(
            family.resources,
            inventory[k],
        )
}

proof fn lemma_begins(item: ItemView, kind: ResourceKind, prefix: Seq<char>)
    ensures
        under_prefix(item, kind, prefix) <==> begins(item, kind, prefix),
{
    let names = item.search_names;
    if under_prefix(item, kind, prefix) {
        let n = choose|n: int| 0 <= n < names.len() && prefix.is_prefix_of(#[trigger] names[n]);
        assert(names[n].take(prefix.len() as int) =~= prefix);
    }
    if begins(item, kind, prefix) {
        let n = choose|n: int|
            0 <= n < names.len() && prefix.len() <= (#[trigger] names[n]).len() && names[n].take(
                prefix.len() as int,
            ) == prefix;
        assert(prefix.is_prefix_of(names[n]));
    }
}

proof fn lemma_prefix(inventory: Seq<ItemView>, kind: ResourceKind, prefix: Seq<char>)
    ensures
        forall|r: int|
            0 <= r < prefix_resources(inventory, kind, prefix).len() ==> is_under(
                inventory,
                kind,
                prefix,
                #[trigger] prefix_resources(inventory, kind, prefix)[r],
            ),
        forall|k: int|
            0 <= k < inventory.len() && begins(#[trigger] inventory[k], kind, prefix) ==> is_told(
                prefix_resources(inventory, kind, prefix),
                inventory[k],
            ),
        prefix_resources(inventory, kind, prefix).len() > 0 <==> some_begins(
            inventory,
            kind,
            prefix,
        ),
    decreases inventory.len(),
{
    if inventory.len() > 0 {
        let less = inventory.drop_last();
        let end = inventory.len() - 1;
        let before = prefix_resources(less, kind, prefix);
        let all = prefix_resources(inventory, kind, prefix);
        lemma_prefix(less, kind, prefix);
        lemma_begins(inventory[end], kind, prefix);
        assert forall|r: int| 0 <= r < all.len() implies is_under(
            inventory,
            kind,
            prefix,
            #[trigger] all[r],
        ) by {
            if r < before.len() {
                assert(is_under(less, kind, prefix, before[r]));
                let k = choose|k: int|
                    0 <= k < less.len() && begins(#[trigger] less[k], kind, prefix) && stands_for(
                        before[r],
                        less[k],
                    );
                assert(inventory[k] == less[k]);
            } else {
                assert(stands_for(all[r], inventory[end]));
            }
        }
        assert forall|k: int| 0 <= k < inventory.len() && begins(
            #[trigger] inventory[k],
            kind,
            prefix,
        ) implies is_told(all, inventory[k]) by {
            if k < end {
                assert(less[k] == inventory[k]);
                let r = choose|r: int|
                    0 <= r < before.len() && stands_for(#[trigger] before[r], less[k]);
                assert(all[r] == before[r]);
            } else {
                assert(stands_for(all[before.len() as int], inventory[end]));
            }
        }
        if all.len() > 0 {
            assert(is_under(inventory, kind, prefix, all[0]));
        }
    }
}

proof fn lemma_without(families: Seq<CandidateFamilyView>, id: Seq<char>, other: CandidateFamilyView)
    requires
        other.id != id,
    ensures
        without_family(families, id).contains(other) <==> families.contains(other),
    decreases families.len(),
{
    if families.len() > 0 {
        let less = families.drop_last();
        let before = without_family(less, id);
        let after = without_family(families, id);
        lemma_without(less, id, other);
        if families.contains(other) {
            let i = choose|i: int| 0 <= i < families.len() && families[i] == other;
            if i < less.len() {
                assert(less[i] == other);
                let k = choose|k: int| 0 <= k < before.len() && before[k] == other;
                assert(after[k] == other);
            } else {
                assert(after[before.len() as int] == other);
            }
        }
        if after.contains(other) {
            let i = choose|i: int| 0 <= i < after.len() && after[i] == other;
            if i < before.len() {
                assert(before[i] == other);
                let k = choose|k: int| 0 <= k < less.len() && less[k] == other;
                assert(families[k] == other);
            } else {
                assert(families[families.len() - 1] == other);
            }
        }
    }
}

proof fn lemma_joined(survey: SurveyView, family: CandidateFamilyView, other: CandidateFamilyView)
    ensures
        with_family(survey, family).candidates.contains(family),
        other.id != family.id ==> (with_family(survey, family).candidates.contains(other)
            <==> survey.candidates.contains(other)),
{
    let kept = without_family(survey.candidates, family.id);
    let all = kept.push(family);
    let after = with_family(survey, family).candidates;
    lemma_ranked_is_sorted_permutation::<CandidateFamily>(all);
    assert(all[kept.len() as int] == family);
    all.to_multiset_ensures();
    after.to_multiset_ensures();
    assert(all.to_multiset().count(family) > 0);
    if other.id != family.id {
        lemma_without(survey.candidates, family.id, other);
        assert(after.contains(other) <==> after.to_multiset().count(other) > 0);
        assert(all.contains(other) <==> all.to_multiset().count(other) > 0);
        if kept.contains(other) {
            let k = choose|k: int| 0 <= k < kept.len() && kept[k] == other;
            assert(all[k] == other);
        }
        if all.contains(other) {
            let k = choose|k: int| 0 <= k < all.len() && all[k] == other;
            assert(kept[k] == other);
        }
    }
}

/// Whether families hold the family of a prefix under an id.
pub open spec fn has_prefix_family(
    families: Seq<CandidateFamilyView>,
    id: Seq<char>,
    inventory: Seq<ItemView>,
    kind: ResourceKind,
    prefix: Seq<char>,
) -> bool {
    exists|f: int|
        0 <= f < families.len() && (#[trigger] families[f]).id == id && is_family_of_prefix(
            families[f],
            inventory,
            kind,
            prefix,
        )
}

/// A prefix is taken up exactly when it is not blank, its kind has names, and some
/// item begins with it; its family then joins the survey, and a refused prefix
/// leaves the survey as it was.
pub proof fn a_prefix_gathers_the_names_that_begin_with_it(
    survey: &mut ConfiguratorSurvey,
    inventory: Vec<InventoryItem>,
    kind: ResourceKind,
    prefix: &str,
    outcome: Result<String, ConfiguratorError>,
    other: CandidateFamilyView,
)
    requires
        call_ensures(add_name_prefix_candidate, (survey, &inventory, kind, prefix), outcome),
    ensures
        outcome is Ok <==> !is_blank(prefix@) && kind != ResourceKind::BuildCache && some_begins(
            views(inventory@),
            kind,
            prefix@,
        ),
        outcome is Err ==> final(survey)@ == old(survey)@,
        outcome is Ok ==> has_prefix_family(
            final(survey)@.candidates,
            outcome->Ok_0@,
            views(inventory@),
            kind,
            prefix@,
        ),
        outcome is Ok && other.id != outcome->Ok_0@ ==> (final(survey)@.candidates.contains(other)
            <==> old(survey)@.candidates.contains(other)),
        final(survey)@.summary.total_resources == old(survey)@.summary.total_resources,
        final(survey)@.summary.known_bytes == old(survey)@.summary.known_bytes,
{
    let items = views(inventory@);
    let family = prefix_family(items, kind, prefix@);
    lemma_prefix(items, kind, prefix@);
    lemma_sum(resource_sizes(family.resources));
    assert(resource_sizes(family.resources) =~= family.resources.map_values(
        |resource: CandidateResourceView| resource.size,
    ));
    assert(is_family_of_prefix(family, items, kind, prefix@));
    lemma_joined(old(survey)@, family, other);
    let after = with_family(old(survey)@, family).candidates;
    let f = choose|f: int| 0 <= f < after.len() && after[f] == family;
    assert(after[f].id == family.id);
}

} // verus!
