//! What protecting and releasing values does to the stored entries, and what
//! that does to a plan.

use crate::config::ConfigView;
use crate::outside::regex_fault;
use crate::plan::{plan_for, Action, ContextView, Disposition};
use crate::resource::{ItemView, ResourceKind};
use crate::state::{
    accept_protection, entries_for, first_entry_fault, first_value_fault,
    released_values_have_no_entries, request_fault, stored_fault, tidy, ProtectionEntry,
    ProtectionEntryView, ProtectionKind, ProtectionState, ProtectionStateView, ProtectionStore,
    StateError, StatePaths,
};
use crate::text::{is_blank, opt_view, views};
use crate::unique::lemma_ordered_once;
use crate::verdicts::an_entry_keeps_what_it_names;
use vstd::prelude::*;

verus! {

/// Whether a value can be protected under a kind: it is not blank, and for a
/// container it is a pattern.
pub open spec fn is_value(kind: ProtectionKind, value: Seq<char>) -> bool {
    !is_blank(value) && (kind == ProtectionKind::Container ==> regex_fault(value) is None)
}

/// Whether a request can be met: it names at least one value, each of which can
/// be protected.
pub open spec fn is_request(kind: ProtectionKind, values: Seq<Seq<char>>) -> bool {
    values.len() > 0 && forall|i: int|
        0 <= i < values.len() ==> is_value(kind, #[trigger] values[i])
}

/// Whether a stored state can be read: it is of the version that this library
/// writes, and every entry can be protected.
pub open spec fn is_stored(state: ProtectionStateView) -> bool {
    state.schema_version == 1 && forall|i: int|
        0 <= i < state.entries.len() ==> is_value(
            (#[trigger] state.entries[i]).kind,
            state.entries[i].value,
        )
}

proof fn lemma_values(kind: ProtectionKind, values: Seq<Seq<char>>)
    ensures
        first_value_fault(kind, values) is None <==> forall|i: int|
            0 <= i < values.len() ==> is_value(kind, #[trigger] values[i]),
    decreases values.len(),
{
    if values.len() > 0 {
        let rest = values.drop_first();
        lemma_values(kind, rest);
        if first_value_fault(kind, values) is None {
            assert forall|i: int| 0 <= i < values.len() implies is_value(
                kind,
                #[trigger] values[i],
            ) by {
                if i > 0 {
                    assert(rest[i - 1] == values[i]);
                }
            }
        }
        if forall|i: int| 0 <= i < values.len() ==> is_value(kind, #[trigger] values[i]) {
            assert forall|i: int| 0 <= i < rest.len() implies is_value(kind, #[trigger] rest[i]) by {
                assert(rest[i] == values[i + 1]);
            }
            assert(is_value(kind, values[0]));
        }
    }
}

proof fn lemma_entries(entries: Seq<ProtectionEntryView>)
    ensures
        first_entry_fault(entries) is None <==> forall|i: int|
            0 <= i < entries.len() ==> is_value((#[trigger] entries[i]).kind, entries[i].value),
    decreases entries.len(),
{
    if entries.len() > 0 {
        let rest = entries.drop_first();
        lemma_entries(rest);
        if first_entry_fault(entries) is None {
            assert forall|i: int| 0 <= i < entries.len() implies is_value(
                (#[trigger] entries[i]).kind,
                entries[i].value,
            ) by {
                if i > 0 {
                    assert(rest[i - 1] == entries[i]);
                }
            }
        }
        if forall|i: int|
            0 <= i < entries.len() ==> is_value((#[trigger] entries[i]).kind, entries[i].value) {
            assert forall|i: int| 0 <= i < rest.len() implies is_value(
                (#[trigger] rest[i]).kind,
                rest[i].value,
            ) by {
                assert(rest[i] == entries[i + 1]);
            }
            assert(is_value(entries[0].kind, entries[0].value));
        }
    }
}

proof fn lemma_faults(kind: ProtectionKind, values: Seq<Seq<char>>, state: ProtectionStateView)
    ensures
        request_fault(kind, values) is None <==> is_request(kind, values),
        stored_fault(state) is None <==> is_stored(state),
{
    lemma_values(kind, values);
    lemma_entries(state.entries);
}

/// Protecting values succeeds exactly when the request and the stored state are
/// good; the entries are then those before and one for each value, each once, and
/// the count is how many are new.
pub proof fn protecting_adds_its_values_alone(
    store: ProtectionStore,
    stored: ProtectionState,
    kind: ProtectionKind,
    values: Vec<String>,
    outcome: Result<(ProtectionState, usize), StateError>,
    entry: ProtectionEntryView,
)
    requires
        call_ensures(ProtectionStore::add, (&store, stored, kind, &values), outcome),
    ensures
        outcome is Ok <==> is_request(kind, views(values@)) && is_stored(stored@),
        outcome is Ok ==> {
            let after = outcome->Ok_0.0@.entries;
            &&& outcome->Ok_0.0@.schema_version == 1
            &&& after.no_duplicates()
            &&& after.contains(entry) <==> stored@.entries.contains(entry) || entry.kind == kind
                && views(values@).contains(entry.value)
        },
{
    let wanted = entries_for(kind, views(values@));
    let held = tidy(stored@.entries);
    lemma_faults(kind, views(values@), stored@);
    lemma_ordered_once::<ProtectionEntry>(stored@.entries);
    lemma_ordered_once::<ProtectionEntry>(held + wanted);
    if (held + wanted).contains(entry) {
        let i = choose|i: int| 0 <= i < (held + wanted).len() && (held + wanted)[i] == entry;
        if i < held.len() {
            assert(held[i] == entry);
        } else {
            assert(views(values@)[i - held.len()] == entry.value);
        }
    }
    if held.contains(entry) {
        let i = choose|i: int| 0 <= i < held.len() && held[i] == entry;
        assert((held + wanted)[i] == entry);
    }
    if entry.kind == kind && views(values@).contains(entry.value) {
        let i = choose|i: int|
            0 <= i < views(values@).len() && views(values@)[i] == entry.value;
        assert(wanted[i] == entry);
        assert((held + wanted)[held.len() + i] == entry);
    }
}

/// Releasing values succeeds exactly when the request and the stored state are
/// good; the entries are then those before without the ones of the kind with one
/// of the values.
pub proof fn releasing_drops_its_values_alone(
    store: ProtectionStore,
    stored: ProtectionState,
    kind: ProtectionKind,
    values: Vec<String>,
    outcome: Result<(ProtectionState, usize), StateError>,
    entry: ProtectionEntryView,
)
    requires
        call_ensures(ProtectionStore::remove, (&store, stored, kind, &values), outcome),
    ensures
        outcome is Ok <==> is_request(kind, views(values@)) && is_stored(stored@),
        outcome is Ok ==> {
            let after = outcome->Ok_0.0@.entries;
            &&& outcome->Ok_0.0@.schema_version == 1
            &&& after.contains(entry) <==> stored@.entries.contains(entry) && !(entry.kind == kind
                && views(values@).contains(entry.value))
        },
{
    lemma_faults(kind, views(values@), stored@);
    lemma_ordered_once::<ProtectionEntry>(stored@.entries);
    released_values_have_no_entries(tidy(stored@.entries), kind, views(values@), entry);
}

/// A stored state is accepted exactly when it is good, with the entries that it
/// holds, each once.
pub proof fn a_good_state_is_accepted_as_it_is(
    state: ProtectionState,
    outcome: Result<ProtectionState, StateError>,
    entry: ProtectionEntryView,
)
    requires
        call_ensures(accept_protection, (state,), outcome),
    ensures
        outcome is Ok <==> is_stored(state@),
        outcome is Ok ==> {
            &&& outcome->Ok_0@.entries.no_duplicates()
            &&& outcome->Ok_0@.entries.contains(entry) <==> state@.entries.contains(entry)
        },
{
    lemma_faults(ProtectionKind::Image, Seq::empty(), state@);
    lemma_ordered_once::<ProtectionEntry>(state@.entries);
}

/// What was protected by id or name is kept by every plan that is made with the
/// new state, whatever the rules say.
pub proof fn what_was_protected_is_kept(
    store: ProtectionStore,
    stored: ProtectionState,
    kind: ProtectionKind,
    values: Vec<String>,
    outcome: Result<(ProtectionState, usize), StateError>,
    value: Seq<char>,
    config: ConfigView,
    inventory: Seq<ItemView>,
    now: i64,
    context: ContextView,
    place: int,
)
    requires
        call_ensures(ProtectionStore::add, (&store, stored, kind, &values), outcome),
        outcome is Ok,
        views(values@).contains(value),
        context.protection == outcome->Ok_0.0@,
        0 <= place < plan_for(config, inventory, now, context).len(),
        ({
            let item = plan_for(config, inventory, now, context)[place].resource;
            &&& value == item.id || value == item.name || item.search_names.contains(value)
            &&& match item.kind {
                ResourceKind::Container => kind == ProtectionKind::Container,
                ResourceKind::Image => kind == ProtectionKind::Image,
                ResourceKind::Volume => kind == ProtectionKind::Volume,
                ResourceKind::Network => kind == ProtectionKind::Network,
                ResourceKind::BuildCache => false,
            }
        }),
    ensures
        plan_for(config, inventory, now, context)[place].action == Action::Keep,
        plan_for(config, inventory, now, context)[place].disposition == Disposition::Protected,
{
    let entry = ProtectionEntryView { kind, value };
    protecting_adds_its_values_alone(store, stored, kind, values, outcome, entry);
    let entries = context.protection.entries;
    let e = choose|e: int| 0 <= e < entries.len() && entries[e] == entry;
    an_entry_keeps_what_it_names(config, inventory, now, context, place, e);
}

/// State lies below the state base where that is set and not empty, else below
/// the home directory, else nowhere.
pub proof fn state_lies_below_its_base(
    state_home: Option<String>,
    home: Option<String>,
    outcome: Result<StatePaths, StateError>,
)
    requires
        call_ensures(StatePaths::from_env, (&state_home, &home), outcome),
    ensures
        ({
            let base = opt_view(state_home);
            let root = opt_view(home);
            let based = base is Some && base->0.len() > 0;
            let rooted = root is Some && root->0.len() > 0;
            &&& outcome is Ok <==> based || rooted
            &&& outcome is Ok && based ==> base->0.is_prefix_of(outcome->Ok_0.directory())
            &&& outcome is Ok && !based ==> root->0.is_prefix_of(outcome->Ok_0.directory())
        }),
{
    let base = opt_view(state_home);
    let root = opt_view(home);
    if base is Some && base->0.len() > 0 {
        lemma_below(base->0, "docker_maid"@);
    } else if root is Some && root->0.len() > 0 {
        lemma_below(root->0, ".local/state"@);
        let mid = crate::state::below(root->0, ".local/state"@);
        lemma_below(mid, "docker_maid"@);
        let end = crate::state::below(mid, "docker_maid"@);
        assert(root->0 =~= end.subrange(0, root->0.len() as int)) by {
            assert(mid == end.subrange(0, mid.len() as int));
            assert(root->0 == mid.subrange(0, root->0.len() as int));
        }
    }
}

proof fn lemma_below(root: Seq<char>, name: Seq<char>)
    requires
        root.len() > 0,
    ensures
        root.is_prefix_of(crate::state::below(root, name)),
        crate::state::below(root, name).len() >= root.len(),
{
    let path = crate::state::below(root, name);
    assert(root =~= path.subrange(0, root.len() as int));
}

} // verus!
