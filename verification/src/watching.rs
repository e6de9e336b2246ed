//! What is remembered between two looks at Docker, and what the dashboard takes
//! over from a look.

use crate::config::LoadedConfig;
use crate::documents::{how_many_removed, lemma_removed};
use crate::effects::ApplyStep;
use crate::guarantees::lemma_observations_contain;
use crate::keys::Overlay;
use crate::observation::{
    accept_observations, observation_of, observations_of, ObservationEntry, ObservationEntryView,
    ObservationState,
};
use crate::plan::{build_plan_with_context, Plan, PlanContext, PlanError};
use crate::resource::{InventoryItem, ItemView};
use crate::session::{Opening, PlanValidity, Reading, Session};
use crate::state::StateError;
use crate::text::{is_blank, views};
use crate::unique::lemma_ordered_once;
use crate::verdicts::{tells_of, the_clock_of_an_item, unused_since};
use vstd::prelude::*;

verus! {

/// Whether an entry is what the next record holds of an item: the item is in no
/// use, and its clock runs on from the record before, or starts now.
pub open spec fn is_next_entry(
    entries: Seq<ObservationEntryView>,
    item: ItemView,
    now: i64,
    entry: ObservationEntryView,
) -> bool {
    &&& !item.referenced
    &&& tells_of(entry, item)
    &&& entry.created_at == item.created_at
    &&& {
        ||| unused_since(entries, item, entry.first_unreferenced_at)
        ||| entry.first_unreferenced_at == now && forall|since: i64|
            !#[trigger] unused_since(entries, item, since)
    }
}

proof fn lemma_next_entry(
    entries: Seq<ObservationEntryView>,
    item: ItemView,
    now: i64,
    entry: ObservationEntryView,
)
    ensures
        observation_of(entries, item, now) == Some(entry) <==> is_next_entry(
            entries,
            item,
            now,
            entry,
        ),
{
    assert forall|since: i64| #[trigger] unused_since(entries, item, since) implies
        crate::observation::carried_clock(entries, item) == Some(since) by {
        the_clock_of_an_item(entries, item, now, since);
    }
    the_clock_of_an_item(entries, item, now, entry.first_unreferenced_at);
    if let Some(since) = crate::observation::carried_clock(entries, item) {
        the_clock_of_an_item(entries, item, now, since);
    }
}

/// Whether some item of an inventory gives an entry of the next record.
pub open spec fn comes_from_item(
    entries: Seq<ObservationEntryView>,
    inventory: Seq<ItemView>,
    now: i64,
    entry: ObservationEntryView,
) -> bool {
    exists|k: int|
        0 <= k < inventory.len() && is_next_entry(entries, #[trigger] inventory[k], now, entry)
}

/// A look at Docker leaves a record of exactly the images, volumes and networks
/// that are in no use, each with the moment since when it has been seen so.
pub proof fn a_look_records_what_is_in_no_use(
    state: ObservationState,
    inventory: Vec<InventoryItem>,
    now: i64,
    next: ObservationState,
    entry: ObservationEntryView,
)
    requires
        call_ensures(ObservationState::folded, (&state, &inventory, now), next),
    ensures
        next@.schema_version == 1,
        next@.entries.no_duplicates(),
        next@.entries.contains(entry) <==> comes_from_item(
            state@.entries,
            views(inventory@),
            now,
            entry,
        ),
{
    let entries = state@.entries;
    let items = views(inventory@);
    let listed = observations_of(entries, items, now);
    lemma_ordered_once::<ObservationEntry>(listed);
    lemma_observations_contain(entries, items, now, entry);
    assert(next@.entries.contains(entry) == listed.contains(entry));
    if listed.contains(entry) {
        let k = choose|k: int|
            0 <= k < items.len() && observation_of(entries, #[trigger] items[k], now) == Some(entry);
        lemma_next_entry(entries, items[k], now, entry);
    }
    if comes_from_item(entries, items, now, entry) {
        let k = choose|k: int|
            0 <= k < items.len() && is_next_entry(entries, #[trigger] items[k], now, entry);
        lemma_next_entry(entries, items[k], now, entry);
    }
}

/// A stored record is accepted exactly when it is of this version and no entry has
/// a blank id; its entries are then those that were stored, each once.
pub proof fn a_stored_record_is_accepted_as_it_is(
    state: ObservationState,
    outcome: Result<ObservationState, StateError>,
    entry: ObservationEntryView,
)
    requires
        call_ensures(accept_observations, (state,), outcome),
    ensures
        outcome is Ok <==> state@.schema_version == 1 && forall|e: int|
            0 <= e < state@.entries.len() ==> !is_blank((#[trigger] state@.entries[e]).id),
        outcome is Ok ==> outcome->Ok_0@.entries.no_duplicates() && (
        outcome->Ok_0@.entries.contains(entry) <==> state@.entries.contains(entry)),
{
    lemma_ordered_once::<ObservationEntry>(state@.entries);
}

/// A dashboard opens on the plan for what Docker holds; where Docker does not
/// answer it opens on no plan, which cannot be applied.
pub proof fn a_dashboard_opens_on_the_plan<'a>(
    opening: Opening,
    outcome: Result<Session, String>,
    context: PlanContext<'a>,
    inventory: Vec<InventoryItem>,
    planned: Result<Plan, PlanError>,
)
    requires
        call_ensures(Session::open, (opening,), outcome),
        call_ensures(
            build_plan_with_context,
            (&opening.loaded.config, inventory, opening.created_at, &context),
            planned,
        ),
        opening.docker is Ok ==> {
            &&& views(inventory@) == views(opening.docker->Ok_0.0@)
            &&& context.protection@ == opening.protection@
            &&& context.observations@ == opening.docker->Ok_0.1@
        },
    ensures
        opening.docker is Ok ==> (outcome is Ok <==> planned is Ok),
        opening.docker is Ok && outcome is Ok ==> {
            &&& outcome->Ok_0@.decisions == planned->Ok_0@
            &&& outcome->Ok_0@.validity == PlanValidity::Valid
        },
        opening.docker is Err ==> outcome is Ok && outcome->Ok_0@.decisions.len() == 0
            && outcome->Ok_0@.validity == PlanValidity::Stale,
        outcome is Ok ==> outcome->Ok_0@.proposal is None && outcome->Ok_0@.overlay
            == Overlay::Hidden && outcome->Ok_0@.filter.len() == 0,
{
}

/// A look that succeeds takes over the plan for what was read and makes it valid;
/// one that makes no plan changes nothing.
pub proof fn a_look_takes_over_the_plan<'a>(
    session: &mut Session,
    reading: Reading,
    outcome: Result<(), String>,
    context: PlanContext<'a>,
    inventory: Vec<InventoryItem>,
    planned: Result<Plan, PlanError>,
)
    requires
        call_ensures(Session::refresh, (session, reading), outcome),
        call_ensures(
            build_plan_with_context,
            (&reading.loaded.config, inventory, reading.created_at, &context),
            planned,
        ),
        views(inventory@) == views(reading.inventory@),
        context.protection@ == reading.protection@,
        context.observations@ == reading.observations@,
    ensures
        outcome is Ok <==> planned is Ok,
        outcome is Ok ==> {
            &&& final(session)@.decisions == planned->Ok_0@
            &&& final(session)@.validity == PlanValidity::Valid
            &&& final(session)@.loaded == reading.loaded@
            &&& final(session)@.created_at == reading.created_at
            &&& final(session)@.protection == reading.protection@
            &&& final(session)@.observations == reading.observations@
            &&& final(session)@.proposal is None
            &&& final(session)@.policy == old(session)@.policy
            &&& final(session)@.filter == old(session)@.filter
            &&& final(session)@.pane == old(session)@.pane
        },
        outcome is Err ==> final(session)@ == old(session)@,
{
}

/// A look that fails leaves the plan as it was, and stale.
pub proof fn a_failed_look_makes_the_plan_stale(
    session: &mut Session,
    message: &str,
    by_itself: bool,
)
    requires
        call_ensures(Session::refresh_failed, (session, message, by_itself), ()),
    ensures
        final(session)@.validity == PlanValidity::Stale,
        final(session)@.decisions == old(session)@.decisions,
        final(session)@.loaded == old(session)@.loaded,
        final(session)@.chosen == old(session)@.chosen,
        final(session)@.overlay == if by_itself {
            Overlay::Hidden
        } else {
            old(session)@.overlay
        },
{
}

/// Applying goes on only on a valid plan with removals under a configuration that
/// is written somewhere.
pub proof fn only_a_valid_plan_is_applied(session: &mut Session, next: ApplyStep)
    requires
        call_ensures(Session::begin_apply, (session,), next),
    ensures
        next is ReadConfiguration <==> {
            &&& old(session)@.validity == PlanValidity::Valid
            &&& how_many_removed(old(session)@.decisions) > 0
            &&& !old(session)@.built_in
        },
        final(session)@.decisions == old(session)@.decisions,
        final(session)@.validity == old(session)@.validity,
        final(session)@.loaded == old(session)@.loaded,
{
    lemma_removed(old(session)@.decisions);
}

/// A plan is authorized exactly when the configuration is read again, is written
/// somewhere and is the same as the plan was made from; else the plan is stale.
pub proof fn only_the_configuration_of_the_plan_authorizes(
    session: &mut Session,
    current: Result<(LoadedConfig, bool), String>,
    authorized: bool,
)
    requires
        call_ensures(Session::authorize, (session, current), authorized),
    ensures
        authorized <==> {
            &&& current is Ok
            &&& !current->Ok_0.1
            &&& current->Ok_0.0@.source == old(session)@.loaded.source
            &&& current->Ok_0.0@.config == old(session)@.loaded.config
        },
        authorized ==> final(session)@ == old(session)@,
        !authorized ==> final(session)@.validity == PlanValidity::Stale,
        final(session)@.decisions == old(session)@.decisions,
{
}

/// Nothing is read anew while an answer is awaited.
pub proof fn an_open_question_is_not_disturbed(session: Session, allowed: bool)
    requires
        call_ensures(Session::may_refresh, (&session,), allowed),
    ensures
        session@.overlay == Overlay::Confirm || session@.overlay == Overlay::CacheConfirm
            || session@.overlay == Overlay::ConfigSave <==> !allowed,
{
}

} // verus!
