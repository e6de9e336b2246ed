//! What a survey promises: every family rests on evidence, and all evidence
//! is found.

use crate::candidate::{resource_of, CandidateResourceView};
use crate::labels::compose_entry;
use crate::order::text_lt;
use crate::resource::{ItemView, ResourceKind};
use crate::stamp::{a_stamp_is_evidence, stamp_labels, stampable};
use crate::survey::{
    agent_label, cache_offer, cache_offers, gathered, label_offers, labelled_offers, labels_offers,
    offers_of, resource_slot, same_object, survey_of, with_offer, with_resource, GroupView,
    OfferView,
};
use crate::text::is_blank;
use crate::text_map::{has_key, key_index, keys_ascend, lemma_put, lemma_put_pair, put, value_of};
use vstd::prelude::*;

verus! {

/// Whether a label of an item shows who owns it.
pub open spec fn label_shows_owner(item: ItemView, label: (Seq<char>, Seq<char>)) -> bool {
    if label.0 == compose_entry().key {
        !is_blank(label.1) && item.kind != ResourceKind::Image
    } else {
        agent_label(label.0)
    }
}

/// Whether an item is evidence of a family: by a label, or as build cache.
pub open spec fn has_evidence(item: ItemView) -> bool {
    ||| item.kind == ResourceKind::BuildCache
    ||| exists|j: int| 0 <= j < item.labels.len() && label_shows_owner(item, #[trigger] item.labels[j])
}

/// Whether a resource is an item of the inventory that is evidence.
pub open spec fn is_evident(inventory: Seq<ItemView>, resource: CandidateResourceView) -> bool {
    exists|k: int|
        0 <= k < inventory.len() && has_evidence(inventory[k]) && resource == resource_of(
            #[trigger] inventory[k],
        )
}

/// Whether resources hold the Docker object of a resource.
pub open spec fn holds(resources: Seq<CandidateResourceView>, resource: CandidateResourceView) -> bool {
    exists|r: int| 0 <= r < resources.len() && same_object(#[trigger] resources[r], resource)
}

proof fn lemma_slot_bounds(resources: Seq<CandidateResourceView>, resource: CandidateResourceView)
    ensures
        0 <= resource_slot(resources, resource) <= resources.len(),
    decreases resources.len(),
{
    if resources.len() > 0 {
        lemma_slot_bounds(resources.drop_last(), resource);
    }
}

proof fn lemma_with_resource(
    resources: Seq<CandidateResourceView>,
    resource: CandidateResourceView,
    other: CandidateResourceView,
)
    ensures
        holds(with_resource(resources, resource), resource),
        holds(resources, other) ==> holds(with_resource(resources, resource), other),
        forall|r: int|
            0 <= r < with_resource(resources, resource).len() ==> (
            #[trigger] with_resource(resources, resource)[r]) == resource || resources.contains(
                with_resource(resources, resource)[r],
            ),
{
    lemma_slot_bounds(resources, resource);
    let place = resource_slot(resources, resource);
    let after = with_resource(resources, resource);
    assert(after[place] == resource);
    assert(same_object(after[place], resource));
    let replaced = place < resources.len() && same_object(resources[place], resource);
    if holds(resources, other) {
        let r = choose|r: int|
            0 <= r < resources.len() && same_object(#[trigger] resources[r], other);
        if replaced && r == place {
            assert(same_object(after[place], other));
        } else {
            let k = if replaced || r < place { r } else { r + 1 };
            assert(after[k] == resources[r]);
            assert(same_object(after[k], other));
        }
    }
    assert forall|r: int| 0 <= r < after.len() implies (#[trigger] after[r]) == resource
        || resources.contains(after[r]) by {
        if r != place {
            let k = if replaced || r < place { r } else { r - 1 };
            assert(resources[k] == after[r]);
        }
    }
}

/// Gathered groups stand in the order of their ids.
pub proof fn lemma_gathered_ascend(offers: Seq<OfferView>)
    ensures
        keys_ascend(gathered(offers)),
    decreases offers.len(),
{
    if offers.len() > 0 {
        let rest = gathered(offers.drop_last());
        lemma_gathered_ascend(offers.drop_last());
        let group = with_offer(rest, offers.last());
        let value = choose|value: GroupView| group == put(rest, offers.last().id, value);
        lemma_put(rest, offers.last().id, value, offers.last().id);
    }
}

/// Every gathered resource was offered.
proof fn lemma_gathered_was_offered(offers: Seq<OfferView>, g: int, r: int)
    requires
        0 <= g < gathered(offers).len(),
        0 <= r < gathered(offers)[g].1.resources.len(),
    ensures
        exists|o: int|
            0 <= o < offers.len() && (#[trigger] offers[o]).resource == gathered(
                offers,
            )[g].1.resources[r],
    decreases offers.len(),
{
    if offers.len() > 0 {
        let less = offers.drop_last();
        let rest = gathered(less);
        let offer = offers.last();
        let wanted = gathered(offers)[g].1.resources[r];
        lemma_gathered_ascend(less);
        let earlier = value_of(rest, offer.id);
        let resources = match earlier {
            Some(group) => group.resources,
            None => Seq::empty(),
        };
        let unscoped = match earlier {
            Some(group) => group.unscoped,
            None => false,
        };
        let group = GroupView {
            title: offer.title,
            evidence: offer.evidence,
            selector: offer.selector,
            resources: with_resource(resources, offer.resource),
            unscoped: unscoped || offer.unscoped,
        };
        assert(gathered(offers) == put(rest, offer.id, group));
        lemma_put_pair(rest, offer.id, group, g);
        if gathered(offers)[g] == (offer.id, group) {
            lemma_with_resource(resources, offer.resource, offer.resource);
            if wanted == offer.resource {
                assert(offers[offers.len() - 1].resource == wanted);
            } else {
                assert(resources.contains(wanted));
                let q = choose|q: int| 0 <= q < resources.len() && resources[q] == wanted;
                let h = key_index(rest, offer.id);
                assert(has_key(rest, offer.id));
                lemma_gathered_was_offered(less, h, q);
                let o = choose|o: int|
                    0 <= o < less.len() && (#[trigger] less[o]).resource == rest[h].1.resources[q];
                assert(offers[o].resource == wanted);
            }
        } else {
            let h = choose|h: int| 0 <= h < rest.len() && #[trigger] rest[h] == gathered(offers)[g];
            lemma_gathered_was_offered(less, h, r);
            let o = choose|o: int|
                0 <= o < less.len() && (#[trigger] less[o]).resource == rest[h].1.resources[r];
            assert(offers[o].resource == wanted);
        }
    }
}

/// Every offered resource is gathered under the id that it was offered to.
pub proof fn lemma_offer_is_gathered(offers: Seq<OfferView>, o: int)
    requires
        0 <= o < offers.len(),
    ensures
        value_of(gathered(offers), offers[o].id) is Some,
        holds(value_of(gathered(offers), offers[o].id)->0.resources, offers[o].resource),
    decreases offers.len(),
{
    let less = offers.drop_last();
    let rest = gathered(less);
    let offer = offers.last();
    lemma_gathered_ascend(less);
    let earlier = value_of(rest, offer.id);
    let resources = match earlier {
        Some(group) => group.resources,
        None => Seq::empty(),
    };
    let unscoped = match earlier {
        Some(group) => group.unscoped,
        None => false,
    };
    let group = GroupView {
        title: offer.title,
        evidence: offer.evidence,
        selector: offer.selector,
        resources: with_resource(resources, offer.resource),
        unscoped: unscoped || offer.unscoped,
    };
    assert(gathered(offers) == put(rest, offer.id, group));
    lemma_put(rest, offer.id, group, offers[o].id);
    lemma_with_resource(resources, offer.resource, offers[o].resource);
    if o < less.len() {
        assert(less[o] == offers[o]);
        lemma_offer_is_gathered(less, o);
    }
}

proof fn lemma_labels_offers(item: ItemView, labels: Seq<(Seq<char>, Seq<char>)>, o: int)
    requires
        0 <= o < labels_offers(item, labels).len(),
    ensures
        labels_offers(item, labels)[o].resource == resource_of(item),
        exists|j: int| 0 <= j < labels.len() && label_shows_owner(item, #[trigger] labels[j]),
    decreases labels.len(),
{
    if labels.len() > 0 {
        let before = labels_offers(item, labels.drop_last());
        if o < before.len() {
            lemma_labels_offers(item, labels.drop_last(), o);
            let j = choose|j: int|
                0 <= j < labels.drop_last().len() && label_shows_owner(
                    item,
                    #[trigger] labels.drop_last()[j],
                );
            assert(label_shows_owner(item, labels[j]));
        } else {
            assert(labels_offers(item, labels)[o] == label_offers(item, labels.last())[o
                - before.len()]);
            assert(label_shows_owner(item, labels[labels.len() - 1]));
        }
    }
}

proof fn lemma_labelled_offers(inventory: Seq<ItemView>, o: int)
    requires
        0 <= o < labelled_offers(inventory).len(),
    ensures
        is_evident(inventory, labelled_offers(inventory)[o].resource),
    decreases inventory.len(),
{
    if inventory.len() > 0 {
        let less = inventory.drop_last();
        let before = labelled_offers(less);
        let resource = labelled_offers(inventory)[o].resource;
        if o < before.len() {
            lemma_labelled_offers(less, o);
            let k = choose|k: int|
                0 <= k < less.len() && has_evidence(less[k]) && resource == resource_of(
                    #[trigger] less[k],
                );
            assert(inventory[k] == less[k]);
        } else {
            let item = inventory.last();
            lemma_labels_offers(item, item.labels, o - before.len());
            assert(inventory[inventory.len() - 1] == item);
        }
    }
}

proof fn lemma_cache_offers(inventory: Seq<ItemView>, o: int)
    requires
        0 <= o < cache_offers(inventory).len(),
    ensures
        is_evident(inventory, cache_offers(inventory)[o].resource),
    decreases inventory.len(),
{
    if inventory.len() > 0 {
        let less = inventory.drop_last();
        let before = cache_offers(less);
        let resource = cache_offers(inventory)[o].resource;
        if o < before.len() {
            lemma_cache_offers(less, o);
            let k = choose|k: int|
                0 <= k < less.len() && has_evidence(less[k]) && resource == resource_of(
                    #[trigger] less[k],
                );
            assert(inventory[k] == less[k]);
        } else {
            assert(inventory[inventory.len() - 1] == inventory.last());
        }
    }
}

/// Every resource of every surveyed family is an item of the inventory that
/// carries ownership evidence: a resource without any stays unowned.
pub proof fn surveyed_resources_carry_evidence(inventory: Seq<ItemView>, f: int, r: int)
    requires
        0 <= f < survey_of(inventory).candidates.len(),
        0 <= r < survey_of(inventory).candidates[f].resources.len(),
    ensures
        is_evident(inventory, survey_of(inventory).candidates[f].resources[r]),
{
    let offers = offers_of(inventory);
    lemma_gathered_was_offered(offers, f, r);
    let resource = survey_of(inventory).candidates[f].resources[r];
    let o = choose|o: int| 0 <= o < offers.len() && (#[trigger] offers[o]).resource == resource;
    let labelled = labelled_offers(inventory);
    if o < labelled.len() {
        lemma_labelled_offers(inventory, o);
    } else {
        lemma_cache_offers(inventory, o - labelled.len());
    }
}

proof fn lemma_label_is_offered(item: ItemView, labels: Seq<(Seq<char>, Seq<char>)>, j: int)
    requires
        0 <= j < labels.len(),
        label_shows_owner(item, labels[j]),
    ensures
        exists|o: int|
            0 <= o < labels_offers(item, labels).len() && (#[trigger] labels_offers(
                item,
                labels,
            )[o]) == label_offers(item, labels[j])[0],
    decreases labels.len(),
{
    let before = labels_offers(item, labels.drop_last());
    let all = labels_offers(item, labels);
    let wanted = label_offers(item, labels[j])[0];
    if j == labels.len() - 1 {
        assert(all[before.len() as int] == wanted);
    } else {
        assert(labels.drop_last()[j] == labels[j]);
        lemma_label_is_offered(item, labels.drop_last(), j);
        let o = choose|o: int| 0 <= o < before.len() && #[trigger] before[o] == wanted;
        assert(all[o] == wanted);
    }
}

/// A label that shows who owns an item is offered.
pub proof fn lemma_item_is_offered(inventory: Seq<ItemView>, k: int, j: int)
    requires
        0 <= k < inventory.len(),
        0 <= j < inventory[k].labels.len(),
        label_shows_owner(inventory[k], inventory[k].labels[j]),
    ensures
        exists|o: int|
            0 <= o < labelled_offers(inventory).len() && (#[trigger] labelled_offers(inventory)[o])
                == label_offers(inventory[k], inventory[k].labels[j])[0],
    decreases inventory.len(),
{
    let less = inventory.drop_last();
    let before = labelled_offers(less);
    let all = labelled_offers(inventory);
    let wanted = label_offers(inventory[k], inventory[k].labels[j])[0];
    if k == inventory.len() - 1 {
        let item = inventory[k];
        lemma_label_is_offered(item, item.labels, j);
        let own = labels_offers(item, item.labels);
        let o = choose|o: int| 0 <= o < own.len() && #[trigger] own[o] == wanted;
        assert(all[before.len() + o] == wanted);
    } else {
        assert(less[k] == inventory[k]);
        lemma_item_is_offered(less, k, j);
        let o = choose|o: int| 0 <= o < before.len() && #[trigger] before[o] == wanted;
        assert(all[o] == wanted);
    }
}

/// A build-cache record is offered.
pub proof fn lemma_record_is_offered(inventory: Seq<ItemView>, k: int)
    requires
        0 <= k < inventory.len(),
        inventory[k].kind == ResourceKind::BuildCache,
    ensures
        exists|o: int|
            0 <= o < cache_offers(inventory).len() && (#[trigger] cache_offers(inventory)[o])
                == cache_offer(inventory[k]),
    decreases inventory.len(),
{
    let less = inventory.drop_last();
    let before = cache_offers(less);
    let all = cache_offers(inventory);
    if k == inventory.len() - 1 {
        assert(all[before.len() as int] == cache_offer(inventory[k]));
    } else {
        assert(less[k] == inventory[k]);
        lemma_record_is_offered(less, k);
        let o = choose|o: int|
            0 <= o < before.len() && #[trigger] before[o] == cache_offer(inventory[k]);
        assert(all[o] == cache_offer(inventory[k]));
    }
}

/// Every item that carries evidence is a resource of some surveyed family.
pub proof fn evidence_is_surveyed(inventory: Seq<ItemView>, k: int)
    requires
        0 <= k < inventory.len(),
        has_evidence(inventory[k]),
    ensures
        exists|f: int|
            0 <= f < survey_of(inventory).candidates.len() && holds(
                (#[trigger] survey_of(inventory).candidates[f]).resources,
                resource_of(inventory[k]),
            ),
{
    let item = inventory[k];
    let offers = offers_of(inventory);
    let labelled = labelled_offers(inventory);
    let cached = cache_offers(inventory);
    let o = if item.kind == ResourceKind::BuildCache {
        lemma_record_is_offered(inventory, k);
        let c = choose|c: int| 0 <= c < cached.len() && #[trigger] cached[c] == cache_offer(item);
        labelled.len() + c
    } else {
        let j = choose|j: int|
            0 <= j < item.labels.len() && label_shows_owner(item, #[trigger] item.labels[j]);
        lemma_item_is_offered(inventory, k, j);
        choose|c: int|
            0 <= c < labelled.len() && #[trigger] labelled[c] == label_offers(
                item,
                item.labels[j],
            )[0]
    };
    assert(offers[o].resource == resource_of(item));
    lemma_offer_is_gathered(offers, o);
    let groups = gathered(offers);
    let g = key_index(groups, offers[o].id);
    assert(has_key(groups, offers[o].id));
    assert(survey_of(inventory).candidates[g].resources == groups[g].1.resources);
}

/// The surveyed families stand in the order of their ids, each id once.
pub proof fn surveyed_families_are_distinct(inventory: Seq<ItemView>, first: int, second: int)
    requires
        0 <= first < second < survey_of(inventory).candidates.len(),
    ensures
        text_lt(
            survey_of(inventory).candidates[first].id,
            survey_of(inventory).candidates[second].id,
        ),
{
    let groups = gathered(offers_of(inventory));
    lemma_gathered_ascend(offers_of(inventory));
    assert(text_lt(groups[first].0, groups[second].0));
}

/// Whoever stamps what it creates finds it in the survey: an item whose labels
/// are a stamp is a resource of some surveyed family.
pub proof fn stamped_items_are_surveyed(
    inventory: Seq<ItemView>,
    k: int,
    owner: Option<Seq<char>>,
)
    requires
        stampable(owner),
        0 <= k < inventory.len(),
        inventory[k].labels == stamp_labels(owner),
    ensures
        exists|f: int|
            0 <= f < survey_of(inventory).candidates.len() && holds(
                (#[trigger] survey_of(inventory).candidates[f]).resources,
                resource_of(inventory[k]),
            ),
{
    a_stamp_is_evidence(owner, 0);
    assert(label_shows_owner(inventory[k], inventory[k].labels[0]));
    evidence_is_surveyed(inventory, k);
}

} // verus!
