//! What a proposal is made of and when it is written, said of the families, the
//! rules and the hashes.

use crate::candidate::{
    CandidateFamily, CandidateFamilyView, CandidateSelectorView, ConfiguratorError,
};
use crate::config::{Config, ConfigError};
use crate::generate::{
    chosen_rules, present_ids, rule_id_slots, sorted_rule_ids, MANAGED_ID_PREFIX,
};
use crate::guarantees::plans_are_complete_and_sorted;
use crate::goodness::{a_good_configuration_draws_no_complaint, every_id, good_config};
use crate::journal::stable_config_hash;
use crate::order::lemma_ranked_is_sorted_permutation;
use crate::plan::{plan_for, removals_of, DecisionView, PlanContext};
use crate::preview::{decided_sizes, new_count, proposal_preview, ProposalPreview};
use crate::proposal::{
    accept_proposal, claimed_by, claims_of, families_named, family_named, first_conflict, flag_text,
    inventory_row, inventory_signature, label_texts, misplaced_id, moment_text, proposed_rules,
    reject_overlaps, size_text, Choice, ClaimView, ConfigProposal, ProposalRequest,
};
use crate::resource::{kind_text, state_text, InventoryItem, ItemView};
use crate::surveying::{counted, lemma_sum, sum_of};
use crate::text::{decimal, digit, joined, views};
use crate::unique::{lemma_ordered_once, ordered_once};
use vstd::prelude::*;

verus! {

/// Whether two resources of families are the same Docker object.
pub open spec fn same_at(
    families: Seq<CandidateFamilyView>,
    f: int,
    r: int,
    g: int,
    s: int,
) -> bool {
    &&& 0 <= f < families.len()
    &&& 0 <= r < families[f].resources.len()
    &&& 0 <= g < families.len()
    &&& 0 <= s < families[g].resources.len()
    &&& (f, r) != (g, s)
    &&& families[f].resources[r].resource_kind == families[g].resources[s].resource_kind
    &&& families[f].resources[r].id == families[g].resources[s].id
}

/// Whether families hold one Docker object twice.
pub open spec fn overlap(families: Seq<CandidateFamilyView>) -> bool {
    exists|f: int, r: int, g: int, s: int| same_at(families, f, r, g, s)
}

spec fn same_claim(left: ClaimView, right: ClaimView) -> bool {
    left.kind == right.kind && left.id == right.id
}

proof fn lemma_claimed(claims: Seq<ClaimView>, kind: Seq<char>, id: Seq<char>)
    ensures
        claimed_by(claims, kind, id) is Some <==> exists|i: int|
            0 <= i < claims.len() && (#[trigger] claims[i]).kind == kind && claims[i].id == id,
    decreases claims.len(),
{
    if claims.len() > 0 {
        let less = claims.drop_last();
        lemma_claimed(less, kind, id);
        if exists|i: int|
            0 <= i < less.len() && (#[trigger] less[i]).kind == kind && less[i].id == id {
            let i = choose|i: int|
                0 <= i < less.len() && (#[trigger] less[i]).kind == kind && less[i].id == id;
            assert(claims[i] == less[i]);
        }
        if exists|i: int|
            0 <= i < claims.len() && (#[trigger] claims[i]).kind == kind && claims[i].id == id {
            let i = choose|i: int|
                0 <= i < claims.len() && (#[trigger] claims[i]).kind == kind && claims[i].id == id;
            if i < less.len() {
                assert(less[i] == claims[i]);
            }
        } else {
            assert(claims[claims.len() - 1] == claims.last());
        }
        if claims.last().kind == kind && claims.last().id == id {
            assert(claims[claims.len() - 1].kind == kind);
        }
    }
}

proof fn lemma_conflict(claims: Seq<ClaimView>)
    ensures
        first_conflict(claims) is Some <==> exists|i: int, j: int|
            0 <= i < j < claims.len() && same_claim(#[trigger] claims[i], #[trigger] claims[j]),
    decreases claims.len(),
{
    if claims.len() > 0 {
        let less = claims.drop_last();
        let end = claims.len() - 1;
        lemma_conflict(less);
        lemma_claimed(less, claims.last().kind, claims.last().id);
        if first_conflict(less) is Some {
            let (i, j) = choose|i: int, j: int|
                0 <= i < j < less.len() && same_claim(#[trigger] less[i], #[trigger] less[j]);
            assert(claims[i] == less[i] && claims[j] == less[j]);
        } else if first_conflict(claims) is Some {
            let i = choose|i: int|
                0 <= i < less.len() && (#[trigger] less[i]).kind == claims.last().kind && less[i].id
                    == claims.last().id;
            assert(same_claim(claims[i], claims[end]));
        }
        if exists|i: int, j: int|
            0 <= i < j < claims.len() && same_claim(#[trigger] claims[i], #[trigger] claims[j]) {
            let (i, j) = choose|i: int, j: int|
                0 <= i < j < claims.len() && same_claim(#[trigger] claims[i], #[trigger] claims[j]);
            assert(less[i] == claims[i]);
            if j < end {
                assert(same_claim(less[i], less[j]));
            }
        }
    }
}

/// The place of a resource's claim.
spec fn place_at(families: Seq<CandidateFamilyView>, f: int, r: int) -> int {
    claims_of(families.take(f)).len() + r
}

proof fn lemma_place(families: Seq<CandidateFamilyView>, f: int, r: int)
    requires
        0 <= f < families.len(),
        0 <= r < families[f].resources.len(),
    ensures
        0 <= place_at(families, f, r) < claims_of(families.take(f + 1)).len() <= claims_of(
            families,
        ).len(),
        claims_of(families)[place_at(families, f, r)].kind
            == families[f].resources[r].resource_kind,
        claims_of(families)[place_at(families, f, r)].id == families[f].resources[r].id,
    decreases families.len(),
{
    let less = families.drop_last();
    let end = families.len() - 1;
    if f < end {
        lemma_place(less, f, r);
        assert(less.take(f) =~= families.take(f));
        assert(less.take(f + 1) =~= families.take(f + 1));
    } else {
        assert(families.take(f) =~= less);
        assert(families.take(f + 1) =~= families);
    }
}

proof fn lemma_placed(families: Seq<CandidateFamilyView>, c: int) -> (found: (int, int))
    requires
        0 <= c < claims_of(families).len(),
    ensures
        0 <= found.0 < families.len(),
        0 <= found.1 < families[found.0].resources.len(),
        place_at(families, found.0, found.1) == c,
    decreases families.len(),
{
    let less = families.drop_last();
    let end = families.len() - 1;
    let before = claims_of(less).len();
    if c < before {
        let found = lemma_placed(less, c);
        assert(less.take(found.0) =~= families.take(found.0));
        found
    } else {
        assert(families.take(end) =~= less);
        (end, c - before)
    }
}

proof fn lemma_piles(families: Seq<CandidateFamilyView>, f: int, g: int)
    requires
        0 <= f <= g <= families.len(),
    ensures
        claims_of(families.take(f)).len() <= claims_of(families.take(g)).len(),
    decreases g - f,
{
    if f < g {
        lemma_piles(families, f, g - 1);
        assert(families.take(g).drop_last() =~= families.take(g - 1));
    }
}

proof fn lemma_overlap(families: Seq<CandidateFamilyView>)
    ensures
        first_conflict(claims_of(families)) is Some <==> overlap(families),
{
    let claims = claims_of(families);
    lemma_conflict(claims);
    if first_conflict(claims) is Some {
        let (i, j) = choose|i: int, j: int|
            0 <= i < j < claims.len() && same_claim(#[trigger] claims[i], #[trigger] claims[j]);
        let left = lemma_placed(families, i);
        let right = lemma_placed(families, j);
        lemma_place(families, left.0, left.1);
        lemma_place(families, right.0, right.1);
        assert(same_at(families, left.0, left.1, right.0, right.1));
    }
    if overlap(families) {
        let (f, r, g, s) = choose|f: int, r: int, g: int, s: int| same_at(families, f, r, g, s);
        lemma_place(families, f, r);
        lemma_place(families, g, s);
        if f < g {
            lemma_piles(families, f + 1, g);
        } else if g < f {
            lemma_piles(families, g + 1, f);
        }
        let i = place_at(families, f, r);
        let j = place_at(families, g, s);
        assert(i != j);
        if i < j {
            assert(same_claim(claims[i], claims[j]));
        } else {
            assert(same_claim(claims[j], claims[i]));
        }
    }
}

/// Families are refused exactly when two of their resources are one Docker object.
pub proof fn overlapping_families_are_refused(
    families: Vec<CandidateFamily>,
    outcome: Result<(), ConfiguratorError>,
)
    requires
        call_ensures(reject_overlaps, (&families,), outcome),
    ensures
        outcome is Err <==> overlap(views(families@)),
{
    lemma_overlap(views(families@));
}

/// Whether some family has an id.
pub open spec fn is_offered(families: Seq<CandidateFamilyView>, id: Seq<char>) -> bool {
    exists|f: int| 0 <= f < families.len() && (#[trigger] families[f]).id == id
}

/// Whether families are those with given ids, in the order of the ids.
pub open spec fn are_named(
    chosen: Seq<CandidateFamilyView>,
    families: Seq<CandidateFamilyView>,
    ids: Seq<Seq<char>>,
) -> bool {
    &&& chosen.len() == ids.len()
    &&& forall|i: int|
        0 <= i < ids.len() ==> (#[trigger] chosen[i]).id == ids[i] && families.contains(chosen[i])
}

proof fn lemma_family_named(families: Seq<CandidateFamilyView>, id: Seq<char>)
    ensures
        family_named(families, id) is Some <==> is_offered(families, id),
        family_named(families, id) is Some ==> family_named(families, id)->0.id == id
            && families.contains(family_named(families, id)->0),
    decreases families.len(),
{
    if families.len() > 0 {
        let less = families.drop_last();
        let end = families.len() - 1;
        lemma_family_named(less, id);
        if families.last().id == id {
            assert(families[end].id == id);
            assert(families.contains(families[end]));
        } else {
            if let Some(found) = family_named(less, id) {
                let f = choose|f: int| 0 <= f < less.len() && less[f] == found;
                assert(families[f] == found);
            }
            if is_offered(families, id) {
                let f = choose|f: int| 0 <= f < families.len() && (#[trigger] families[f]).id == id;
                assert(less[f] == families[f]);
            }
        }
    }
}

proof fn lemma_families_named(families: Seq<CandidateFamilyView>, ids: Seq<Seq<char>>)
    ensures
        families_named(families, ids) is Ok <==> forall|i: int|
            0 <= i < ids.len() ==> is_offered(families, #[trigger] ids[i]),
        families_named(families, ids) is Ok ==> are_named(
            families_named(families, ids)->Ok_0,
            families,
            ids,
        ),
    decreases ids.len(),
{
    if ids.len() > 0 {
        let less = ids.drop_last();
        let end = ids.len() - 1;
        lemma_families_named(families, less);
        lemma_family_named(families, ids.last());
        assert(ids[end] == ids.last());
        if forall|i: int| 0 <= i < ids.len() ==> is_offered(families, #[trigger] ids[i]) {
            assert forall|i: int| 0 <= i < less.len() implies is_offered(
                families,
                #[trigger] less[i],
            ) by {
                assert(less[i] == ids[i]);
            }
        }
        if families_named(families, ids) is Ok {
            assert forall|i: int| 0 <= i < ids.len() implies is_offered(
                families,
                #[trigger] ids[i],
            ) by {
                if i < end {
                    assert(less[i] == ids[i]);
                }
            }
        }
    }
}

proof fn lemma_misplaced(ids: Seq<Seq<char>>)
    ensures
        misplaced_id(ids) is Some <==> exists|i: int|
            0 <= i < ids.len() && MANAGED_ID_PREFIX@.is_prefix_of(#[trigger] ids[i]),
    decreases ids.len(),
{
    if ids.len() > 0 {
        let rest = ids.drop_first();
        lemma_misplaced(rest);
        if misplaced_id(rest) is Some {
            let i = choose|i: int|
                0 <= i < rest.len() && MANAGED_ID_PREFIX@.is_prefix_of(#[trigger] rest[i]);
            assert(ids[i + 1] == rest[i]);
        }
        if exists|i: int| 0 <= i < ids.len() && MANAGED_ID_PREFIX@.is_prefix_of(#[trigger] ids[i]) {
            let i = choose|i: int|
                0 <= i < ids.len() && MANAGED_ID_PREFIX@.is_prefix_of(#[trigger] ids[i]);
            if i > 0 {
                assert(rest[i - 1] == ids[i]);
            }
        }
    }
}

proof fn lemma_present(slots: Seq<Option<Seq<char>>>, id: Seq<char>)
    ensures
        present_ids(slots).contains(id) <==> slots.contains(Some(id)),
    decreases slots.len(),
{
    if slots.len() > 0 {
        let less = slots.drop_last();
        let before = present_ids(less);
        let all = present_ids(slots);
        lemma_present(less, id);
        if slots.contains(Some(id)) {
            let i = choose|i: int| 0 <= i < slots.len() && slots[i] == Some(id);
            if i < less.len() {
                assert(less[i] == Some(id));
                let k = choose|k: int| 0 <= k < before.len() && before[k] == id;
                assert(all[k] == id);
            } else {
                assert(all[before.len() as int] == id);
            }
        }
        if all.contains(id) {
            let i = choose|i: int| 0 <= i < all.len() && all[i] == id;
            if i < before.len() {
                assert(before[i] == id);
                let k = choose|k: int| 0 <= k < less.len() && less[k] == Some(id);
                assert(slots[k] == Some(id));
            } else {
                assert(slots[slots.len() - 1] == Some(id));
            }
        }
    }
}

/// Whether a rule written by hand has an id of a generated one.
pub open spec fn has_misplaced_id(ids: Seq<Option<Seq<char>>>) -> bool {
    exists|i: int|
        0 <= i < ids.len() && (#[trigger] ids[i]) is Some
            && "docker-maid.configure/"@.is_prefix_of(ids[i]->0)
}

proof fn lemma_own_ids(config: crate::config::ConfigView)
    ensures
        misplaced_id(sorted_rule_ids(config.rules)) is Some <==> has_misplaced_id(every_id(config)),
{
    let slots = rule_id_slots(config.rules);
    let listed = present_ids(slots);
    let sorted = sorted_rule_ids(config.rules);
    assert(slots =~= every_id(config));
    lemma_misplaced(sorted);
    lemma_ranked_is_sorted_permutation::<String>(listed);
    listed.to_multiset_ensures();
    sorted.to_multiset_ensures();
    if misplaced_id(sorted) is Some {
        let i = choose|i: int|
            0 <= i < sorted.len() && MANAGED_ID_PREFIX@.is_prefix_of(#[trigger] sorted[i]);
        let id = sorted[i];
        assert(sorted.to_multiset().count(id) > 0);
        assert(listed.contains(id));
        lemma_present(slots, id);
        let k = choose|k: int| 0 <= k < slots.len() && slots[k] == Some(id);
        assert(every_id(config)[k] == Some(id));
    }
    if has_misplaced_id(every_id(config)) {
        let k = choose|k: int|
            0 <= k < slots.len() && (#[trigger] slots[k]) is Some
                && "docker-maid.configure/"@.is_prefix_of(slots[k]->0);
        let id = slots[k]->0;
        assert(slots.contains(Some(id)));
        lemma_present(slots, id);
        assert(listed.to_multiset().count(id) > 0);
        assert(sorted.contains(id));
        let i = choose|i: int| 0 <= i < sorted.len() && sorted[i] == id;
        assert(MANAGED_ID_PREFIX@.is_prefix_of(sorted[i]));
    }
}

proof fn lemma_repeated(ids: Seq<Seq<char>>)
    ensures
        ordered_once::<String>(ids).len() == ids.len() <==> ids.no_duplicates(),
{
    let sorted = ordered_once::<String>(ids);
    lemma_ordered_once::<String>(ids);
    sorted.unique_seq_to_set();
    assert(sorted.to_set() =~= ids.to_set()) by {
        assert forall|id: Seq<char>| sorted.to_set().contains(id) <==> ids.to_set().contains(id) by {
            assert(sorted.contains(id) == ids.contains(id));
        }
    }
    if ids.no_duplicates() {
        ids.unique_seq_to_set();
    }
    if sorted.len() == ids.len() {
        ids.lemma_no_dup_set_cardinality();
    }
}

/// Whether a family can be given rules.
pub open spec fn can_be_ruled(family: CandidateFamilyView, cache_taken: bool) -> bool {
    match family.selector {
        CandidateSelectorView::ExactLabel { .. } => true,
        CandidateSelectorView::NamePrefix { resource_kind, .. } => {
            ||| resource_kind == "container"@
            ||| resource_kind == "image"@
            ||| resource_kind == "volume"@
            ||| resource_kind == "network"@
            ||| resource_kind == "build-cache"@
        },
        CandidateSelectorView::BuildCache => !cache_taken,
    }
}

proof fn lemma_ruled(
    cache_taken: bool,
    families: Seq<CandidateFamilyView>,
    policy: crate::profile::SettingsView,
)
    ensures
        chosen_rules(cache_taken, families, policy) is Ok <==> forall|f: int|
            0 <= f < families.len() ==> can_be_ruled(#[trigger] families[f], cache_taken),
    decreases families.len(),
{
    if families.len() > 0 {
        let less = families.drop_last();
        let end = families.len() - 1;
        lemma_ruled(cache_taken, less, policy);
        assert(families[end] == families.last());
        if chosen_rules(cache_taken, families, policy) is Ok {
            assert forall|f: int| 0 <= f < families.len() implies can_be_ruled(
                #[trigger] families[f],
                cache_taken,
            ) by {
                if f < end {
                    assert(less[f] == families[f]);
                }
            }
        }
        if forall|f: int|
            0 <= f < families.len() ==> can_be_ruled(#[trigger] families[f], cache_taken) {
            assert forall|f: int| 0 <= f < less.len() implies can_be_ruled(
                #[trigger] less[f],
                cache_taken,
            ) by {
                assert(less[f] == families[f]);
            }
            assert(can_be_ruled(families[end], cache_taken));
        }
    }
}

/// A choice is made exactly when no rule written by hand has the id of a generated
/// one, no id is asked for twice, every id is that of a surveyed family, and the
/// families hold no object twice and can be given rules; it holds the families
/// with those ids.
pub proof fn a_choice_takes_the_families_asked_for<'a>(
    request: ProposalRequest<'a>,
    manual: Config,
    outcome: Result<Choice, ConfiguratorError>,
)
    requires
        call_ensures(proposed_rules, (&request, &manual), outcome),
    ensures
        outcome is Ok ==> {
            let chosen = outcome->Ok_0@.selected;
            &&& !has_misplaced_id(every_id(manual@))
            &&& request@.candidate_ids.no_duplicates()
            &&& chosen.len() == request@.candidate_ids.len()
            &&& forall|i: int|
                0 <= i < chosen.len() ==> request@.candidate_ids.contains((#[trigger] chosen[i]).id)
                    && request@.survey.candidates.contains(chosen[i])
            &&& forall|i: int|
                0 <= i < request@.candidate_ids.len() ==> is_offered(
                    chosen,
                    #[trigger] request@.candidate_ids[i],
                )
            &&& !overlap(chosen)
            &&& forall|i: int|
                0 <= i < chosen.len() ==> can_be_ruled(
                    #[trigger] chosen[i],
                    manual@.rules.build_cache is Some,
                )
        },
        outcome is Err ==> {
            ||| has_misplaced_id(every_id(manual@))
            ||| !request@.candidate_ids.no_duplicates()
            ||| exists|i: int|
                0 <= i < request@.candidate_ids.len() && !is_offered(
                    request@.survey.candidates,
                    #[trigger] request@.candidate_ids[i],
                )
            ||| exists|chosen: Seq<CandidateFamilyView>|
                {
                    &&& #[trigger] are_named(
                        chosen,
                        request@.survey.candidates,
                        ordered_once::<String>(request@.candidate_ids),
                    )
                    &&& (overlap(chosen) || exists|i: int|
                        0 <= i < chosen.len() && !can_be_ruled(
                            #[trigger] chosen[i],
                            manual@.rules.build_cache is Some,
                        ))
                }
        },
{
    let families = request@.survey.candidates;
    let asked = request@.candidate_ids;
    let ids = ordered_once::<String>(asked);
    lemma_own_ids(manual@);
    lemma_repeated(asked);
    lemma_ordered_once::<String>(asked);
    lemma_families_named(families, ids);
    assert forall|i: int| 0 <= i < ids.len() implies asked.contains(#[trigger] ids[i]) by {
        assert(ids.contains(ids[i]));
    }
    assert forall|i: int| 0 <= i < asked.len() implies ids.contains(#[trigger] asked[i]) by {
        assert(asked.contains(asked[i]));
    }
    if families_named(families, ids) is Ok {
        let chosen = families_named(families, ids)->Ok_0;
        lemma_overlap(chosen);
        lemma_ruled(manual@.rules.build_cache is Some, chosen, request@.policy);
        assert forall|i: int| 0 <= i < asked.len() implies is_offered(
            chosen,
            #[trigger] asked[i],
        ) by {
            assert(ids.contains(asked[i]));
            let k = choose|k: int| 0 <= k < ids.len() && ids[k] == asked[i];
            assert(chosen[k].id == asked[i]);
        }
    } else {
        let k = choose|k: int| 0 <= k < ids.len() && !is_offered(families, #[trigger] ids[k]);
        assert(asked.contains(ids[k]));
        let i = choose|i: int| 0 <= i < asked.len() && asked[i] == ids[k];
        assert(!is_offered(families, asked[i]));
    }
}

/// A proposal may be written exactly when it is of this version, the inventory and
/// the source still have the hashes that it was made from, its own source has the
/// hash that it names, and that source is a good configuration.
pub proof fn a_proposal_is_written_only_on_what_it_was_made_from(
    proposal: ConfigProposal,
    inventory: Vec<InventoryItem>,
    source: &str,
    payload: &str,
    read: Result<Config, ConfigError>,
    outcome: Result<(), ConfiguratorError>,
    mark: String,
    hash: String,
    result: String,
)
    requires
        call_ensures(accept_proposal, (&proposal, &inventory, source, read), outcome),
        call_ensures(inventory_signature, (&inventory,), mark),
        call_ensures(stable_config_hash, (source,), hash),
        payload@ == proposal@.resulting_source,
        call_ensures(stable_config_hash, (payload,), result),
    ensures
        outcome is Ok <==> {
            &&& proposal@.schema_version == 1
            &&& proposal@.inventory_signature == mark@
            &&& proposal@.base_source_hash == hash@
            &&& proposal@.result_source_hash == result@
            &&& read is Ok
            &&& good_config(read->Ok_0@)
        },
{
    if read is Ok {
        a_good_configuration_draws_no_complaint(read->Ok_0@);
    }
}

proof fn lemma_digit(left: nat, right: nat)
    requires
        left < 10,
        right < 10,
        digit(left) == digit(right),
    ensures
        left == right,
{
}

proof fn lemma_decimal(left: nat, right: nat)
    requires
        decimal(left) == decimal(right),
    ensures
        left == right,
    decreases left,
{
    lemma_digits(left);
    lemma_digits(right);
    if left < 10 && right < 10 {
        assert(decimal(left)[0] == digit(left) && decimal(right)[0] == digit(right));
        lemma_digit(left, right);
    } else if left >= 10 && right >= 10 {
        assert(decimal(left).drop_last() =~= decimal(left / 10));
        assert(decimal(right).drop_last() =~= decimal(right / 10));
        assert(decimal(left).last() == digit(left % 10));
        assert(decimal(right).last() == digit(right % 10));
        lemma_decimal(left / 10, right / 10);
        lemma_digit(left % 10, right % 10);
    } else if left < 10 {
        lemma_digits(right / 10);
    } else {
        lemma_digits(left / 10);
    }
}

proof fn lemma_digits(value: nat)
    ensures
        decimal(value).len() >= 1,
        value < 10 ==> decimal(value).len() == 1,
        value >= 10 ==> decimal(value).len() == decimal(value / 10).len() + 1,
        decimal(value)[0] != '-',
    decreases value,
{
    if value >= 10 {
        lemma_digits(value / 10);
    }
}

/// Whether two items differ in one thing that an inventory's signature tells: the
/// size, the reference, or Docker's own hold.
pub open spec fn differ_in_one(left: ItemView, right: ItemView) -> bool {
    ||| left.size != right.size && left == (ItemView { size: left.size, ..right })
    ||| left.referenced != right.referenced && left == (ItemView {
        referenced: left.referenced,
        ..right
    })
    ||| left.system != right.system && left == (ItemView { system: left.system, ..right })
    ||| left.name != right.name && left == (ItemView { name: left.name, ..right })
    ||| left.id != right.id && left == (ItemView { id: left.id, ..right })
}

proof fn lemma_part(left: Seq<char>, right: Seq<char>, one: Seq<char>, two: Seq<char>)
    requires
        left + "|"@ + one == right + "|"@ + two,
    ensures
        one == two ==> left == right,
        left == right ==> one == two,
{
    let first = left + "|"@ + one;
    let second = right + "|"@ + two;
    assert(first.len() == second.len());
    if one == two {
        assert(left =~= first.take(left.len() as int));
        assert(right =~= second.take(right.len() as int));
    }
    if left == right {
        assert(one =~= first.skip((left.len() + "|"@.len()) as int));
        assert(two =~= second.skip((right.len() + "|"@.len()) as int));
    }
}

proof fn lemma_flags(left: bool, right: bool)
    requires
        flag_text(left) == flag_text(right),
    ensures
        left == right,
{
    reveal_strlit("true");
    reveal_strlit("false");
    assert(flag_text(true)[0] == 't' && flag_text(false)[0] == 'f');
}

proof fn lemma_sizes(left: Option<u64>, right: Option<u64>)
    requires
        size_text(left) == size_text(right),
    ensures
        left == right,
{
    reveal_strlit("-");
    assert("-"@[0] == '-');
    if left is Some {
        lemma_digits(left->0 as nat);
    }
    if right is Some {
        lemma_digits(right->0 as nat);
    }
    if left is Some && right is Some {
        lemma_decimal(left->0 as nat, right->0 as nat);
    }
}

/// An item that changes in one thing has another line in the signature of the
/// inventory.
pub proof fn a_changed_item_has_another_line(left: ItemView, right: ItemView)
    requires
        differ_in_one(left, right),
    ensures
        inventory_row(left) != inventory_row(right),
{
    if inventory_row(left) == inventory_row(right) {
        let kind = kind_text(left.kind);
        let state = state_text(left.state);
        let created = moment_text(left.created_at);
        let since = moment_text(left.state_since);
        let a1 = kind + "|"@ + left.id;
        let b1 = kind + "|"@ + right.id;
        let a2 = a1 + "|"@ + left.name;
        let b2 = b1 + "|"@ + right.name;
        let a3 = a2 + "|"@ + state + "|"@ + created + "|"@ + since;
        let b3 = b2 + "|"@ + state + "|"@ + created + "|"@ + since;
        let a4 = a3 + "|"@ + size_text(left.size);
        let b4 = b3 + "|"@ + size_text(right.size);
        let a5 = a4 + "|"@ + flag_text(left.referenced);
        let b5 = b4 + "|"@ + flag_text(right.referenced);
        let a6 = a5 + "|"@ + flag_text(left.system);
        let b6 = b5 + "|"@ + flag_text(right.system);
        let labels = joined(label_texts(left.labels), ","@);
        lemma_part(a6, b6, labels, labels);
        lemma_part(a5, b5, flag_text(left.system), flag_text(right.system));
        if left.system != right.system {
            lemma_flags(left.system, right.system);
        }
        lemma_part(a4, b4, flag_text(left.referenced), flag_text(right.referenced));
        if left.referenced != right.referenced {
            lemma_flags(left.referenced, right.referenced);
        }
        lemma_part(a3, b3, size_text(left.size), size_text(right.size));
        if left.size != right.size {
            lemma_sizes(left.size, right.size);
        }
        lemma_part(a2 + "|"@ + state + "|"@ + created, b2 + "|"@ + state + "|"@ + created, since, since);
        lemma_part(a2 + "|"@ + state, b2 + "|"@ + state, created, created);
        lemma_part(a2, b2, state, state);
        lemma_part(a1, b1, left.name, right.name);
        if left.name == right.name {
            lemma_part(kind, kind, left.id, right.id);
        }
    }
}

/// How many removals are on resources that other removals are not on.
pub open spec fn how_many_new(removals: Seq<DecisionView>, known: Seq<DecisionView>) -> nat
    decreases removals.len(),
{
    if removals.len() == 0 {
        0
    } else {
        how_many_new(removals.drop_last(), known) + (if exists|k: int|
            0 <= k < known.len() && (#[trigger] known[k]).resource.kind
                == removals.last().resource.kind && known[k].resource.id
                == removals.last().resource.id {
            0nat
        } else {
            1
        })
    }
}

proof fn lemma_new(removals: Seq<DecisionView>, known: Seq<DecisionView>)
    ensures
        new_count(removals, known) == how_many_new(removals, known),
        how_many_new(removals, known) <= removals.len(),
    decreases removals.len(),
{
    if removals.len() > 0 {
        lemma_new(removals.drop_last(), known);
    }
}

proof fn lemma_fewer(decisions: Seq<DecisionView>)
    ensures
        removals_of(decisions).len() <= decisions.len(),
    decreases decisions.len(),
{
    if decisions.len() > 0 {
        lemma_fewer(decisions.drop_last());
    }
}

/// A preview counts the removals before and after, those that are new, and the
/// bytes that the removals after would free.
pub proof fn a_preview_counts_what_would_change<'a>(
    manual: Config,
    result: Config,
    inventory: Vec<InventoryItem>,
    now: i64,
    context: PlanContext<'a>,
    selected: Vec<CandidateFamily>,
    ids: Vec<String>,
    outcome: Result<ProposalPreview, ConfiguratorError>,
)
    requires
        call_ensures(
            proposal_preview,
            (&manual, &result, &inventory, now, &context, &selected, &ids),
            outcome,
        ),
        outcome is Ok,
    ensures
        ({
            let before = removals_of(plan_for(manual@, views(inventory@), now, context@));
            let after = removals_of(plan_for(result@, views(inventory@), now, context@));
            let preview = outcome->Ok_0;
            &&& preview.before_pending == before.len()
            &&& preview.after_pending == after.len()
            &&& preview.newly_pending == how_many_new(after, before)
            &&& preview.estimated_reclaim_bytes == counted(
                sum_of(after.map_values(|decision: DecisionView| decision.resource.size)),
            )
        }),
{
    let items = views(inventory@);
    let old_plan = plan_for(manual@, items, now, context@);
    let new_plan = plan_for(result@, items, now, context@);
    let before = removals_of(old_plan);
    let after = removals_of(new_plan);
    assert(inventory.len() == items.len());
    plans_are_complete_and_sorted(manual@, items, now, context@);
    plans_are_complete_and_sorted(result@, items, now, context@);
    lemma_fewer(old_plan);
    lemma_fewer(new_plan);
    lemma_new(after, before);
    lemma_sum(decided_sizes(after));
    assert(decided_sizes(after) =~= after.map_values(
        |decision: DecisionView| decision.resource.size,
    ));
}

} // verus!
