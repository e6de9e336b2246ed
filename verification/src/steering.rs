//! What the dashboard shows and toggles, said of the decisions and the labels.

use crate::config::ConfigView;
use crate::effects::Change;
use crate::labels::compose_entry;
use crate::outside::{overruns, parsed_duration};
use crate::plan::{Action, Decision, DecisionView, Disposition};
use crate::present::{family_pair, first_agent_label, fuzzy};
use crate::resource::{ItemView, ResourceKind};
use crate::session::{rows_of, selection, shown, Session};
use crate::state::{
    protecting_entry, ProtectionEntryView, ProtectionKind, ProtectionState,
};
use crate::surveying::{is_agent_key, lemma_agent_key};
use crate::text::{is_blank, views};
use crate::text_map::{has_key, key_index};
use crate::verdicts::{holds_fast, lemma_entry_holds};
use vstd::prelude::*;

verus! {

/// Whether a decision is found by what was typed: in its name, its id or the rule
/// that it goes by.
pub open spec fn is_found(decision: DecisionView, typed: Seq<char>) -> bool {
    ||| typed.len() == 0
    ||| fuzzy(decision.resource.name, typed)
    ||| fuzzy(decision.resource.id, typed)
    ||| decision.matched_rule is Some && fuzzy(decision.matched_rule->0, typed)
}

/// What is shown are the decisions of the action that are found.
pub proof fn lemma_shown(
    decisions: Seq<DecisionView>,
    action: Action,
    typed: Seq<char>,
    row: DecisionView,
)
    ensures
        shown(decisions, action, typed).contains(row) <==> decisions.contains(row) && row.action
            == action && is_found(row, typed),
        shown(decisions, action, typed).len() <= decisions.len(),
    decreases decisions.len(),
{
    if decisions.len() > 0 {
        let less = decisions.drop_last();
        let before = shown(less, action, typed);
        let all = shown(decisions, action, typed);
        lemma_shown(less, action, typed, row);
        if all.contains(row) {
            let i = choose|i: int| 0 <= i < all.len() && all[i] == row;
            if i < before.len() {
                assert(before[i] == row);
                let k = choose|k: int| 0 <= k < less.len() && less[k] == row;
                assert(decisions[k] == row);
            } else {
                assert(decisions[decisions.len() - 1] == row);
            }
        }
        if decisions.contains(row) && row.action == action && is_found(row, typed) {
            let k = choose|k: int| 0 <= k < decisions.len() && decisions[k] == row;
            if k < less.len() {
                assert(less[k] == row);
                let i = choose|i: int| 0 <= i < before.len() && before[i] == row;
                assert(all[i] == row);
            } else {
                assert(all[before.len() as int] == row);
            }
        }
    }
}

/// The review shows the removals that are found by the filter, and the keeping
/// pane what is kept, as far as it is found.
pub proof fn panes_show_what_the_filter_finds<'a>(
    session: Session,
    removed: Vec<&'a Decision>,
    kept: Vec<&'a Decision>,
    targets: Vec<&'a Decision>,
    row: DecisionView,
)
    requires
        call_ensures(Session::review_rows, (&session,), removed),
        call_ensures(Session::keeping_rows, (&session,), kept),
        call_ensures(Session::plan_targets, (&session,), targets),
    ensures
        views(removed@).contains(row) <==> session@.decisions.contains(row) && row.action
            == Action::Remove && is_found(row, session@.filter),
        views(kept@).contains(row) <==> session@.decisions.contains(row) && row.action
            == Action::Keep && is_found(row, session@.filter),
        views(targets@).contains(row) <==> session@.decisions.contains(row) && row.action
            == Action::Remove,
{
    lemma_shown(session@.decisions, Action::Remove, session@.filter, row);
    lemma_shown(session@.decisions, Action::Keep, session@.filter, row);
    crate::applying::removals_are_the_decisions_to_remove(session@.decisions, row);
}

/// The kind of protection for a kind of resource.
pub open spec fn is_kind_for(protection: ProtectionKind, kind: ResourceKind) -> bool {
    ||| protection == ProtectionKind::Container && kind == ResourceKind::Container
    ||| protection == ProtectionKind::Image && kind == ResourceKind::Image
    ||| protection == ProtectionKind::Volume && kind == ResourceKind::Volume
    ||| protection == ProtectionKind::Network && kind == ResourceKind::Network
}

/// Whether some entry holds an item.
pub open spec fn is_held(entries: Seq<ProtectionEntryView>, item: ItemView) -> bool {
    exists|e: int| 0 <= e < entries.len() && holds_fast(#[trigger] entries[e], item)
}

/// Whether some entry with a value holds an item.
pub open spec fn is_held_by(
    entries: Seq<ProtectionEntryView>,
    item: ItemView,
    value: Seq<char>,
) -> bool {
    exists|e: int|
        0 <= e < entries.len() && holds_fast(#[trigger] entries[e], item) && entries[e].value
            == value
}

proof fn lemma_first_entry(entries: Seq<ProtectionEntryView>, item: ItemView)
    ensures
        protecting_entry(entries, item) is Some <==> is_held(entries, item),
        protecting_entry(entries, item) is Some ==> is_held_by(
            entries,
            item,
            protecting_entry(entries, item)->0.value,
        ),
    decreases entries.len(),
{
    lemma_entry_holds(entries, item);
    if entries.len() > 0 {
        let rest = entries.drop_first();
        lemma_entry_holds(seq![entries[0]], item);
        lemma_first_entry(rest, item);
        reveal_with_fuel(protecting_entry, 2);
        assert(seq![entries[0]].drop_first().len() == 0);
        assert(seq![entries[0]][0] == entries[0]);
        assert(crate::state::protects(entries[0], item) <==> holds_fast(entries[0], item));
        if !crate::state::protects(entries[0], item) && protecting_entry(rest, item) is Some {
            let value = protecting_entry(rest, item)->0.value;
            let e = choose|e: int|
                0 <= e < rest.len() && holds_fast(#[trigger] rest[e], item) && rest[e].value
                    == value;
            assert(entries[e + 1] == rest[e]);
        }
    }
}

/// Toggling releases the selected resource where an entry holds it, and protects
/// it by its id where none does; build cache, and what the configuration protects,
/// is left alone.
pub proof fn a_toggle_protects_or_releases_the_selected_resource(
    session: Session,
    stored: ProtectionState,
    change: Change,
    decision: DecisionView,
)
    requires
        call_ensures(Session::protection_change, (&session, &stored), change),
        selection(session@) == Some(decision),
    ensures
        change@ is Stay <==> decision.resource.kind == ResourceKind::BuildCache || decision.disposition
            == Disposition::Protected && !is_held(stored@.entries, decision.resource),
        change@ is Remove <==> decision.resource.kind != ResourceKind::BuildCache && is_held(
            stored@.entries,
            decision.resource,
        ),
        change@ is Add ==> is_kind_for(change@->Add_kind, decision.resource.kind)
            && change@->Add_value == decision.resource.id,
        change@ is Remove ==> is_kind_for(change@->Remove_kind, decision.resource.kind)
            && is_held_by(stored@.entries, decision.resource, change@->Remove_value),
{
    lemma_first_entry(stored@.entries, decision.resource);
}

/// Nothing is toggled where nothing is selected; what is selected is a row on
/// screen, at the place of the selection.
pub proof fn only_a_row_on_screen_is_toggled(
    session: Session,
    stored: ProtectionState,
    change: Change,
    family: Change,
)
    requires
        call_ensures(Session::protection_change, (&session, &stored), change),
        call_ensures(Session::family_change, (&session, &stored), family),
    ensures
        session.selected >= rows_of(session@).len() ==> change@ is Stay && family@ is Stay,
{
}

/// Whether a label tells which family an item belongs to.
pub open spec fn tells_family(label: (Seq<char>, Seq<char>)) -> bool {
    if label.0 == "com.docker.compose.project"@ {
        !is_blank(label.1)
    } else {
        is_agent_key(label.0)
    }
}

/// Whether a label of an item is the one that its family goes by: its Compose
/// project, and where it names none, its first agent label.
pub open spec fn is_family_label(labels: Seq<(Seq<char>, Seq<char>)>, l: int) -> bool {
    &&& 0 <= l < labels.len()
    &&& tells_family(labels[l])
    &&& labels[l].0 != "com.docker.compose.project"@ ==> forall|k: int|
        0 <= k < labels.len() && tells_family(#[trigger] labels[k]) ==> l <= k && labels[k].0
            != "com.docker.compose.project"@
}

/// Whether no key stands twice.
pub open spec fn keys_differ(labels: Seq<(Seq<char>, Seq<char>)>) -> bool {
    forall|k: int, l: int|
        0 <= k < l < labels.len() ==> (#[trigger] labels[k]).0 != (#[trigger] labels[l]).0
}

proof fn lemma_compose()
    ensures
        !is_agent_key("com.docker.compose.project"@),
{
    reveal_strlit("com.docker.compose.project");
    reveal_strlit("dev.docker-maid.managed");
    reveal_strlit("ai-agent.");
    reveal_strlit("devcontainer.");
    assert("com.docker.compose.project"@[0] == 'c');
    assert("dev.docker-maid.managed"@[0] == 'd');
    assert("ai-agent."@[0] == 'a');
    assert("devcontainer."@[0] == 'd');
}

proof fn lemma_first_agent(labels: Seq<(Seq<char>, Seq<char>)>)
    ensures
        first_agent_label(labels) is Some <==> exists|l: int|
            0 <= l < labels.len() && is_agent_key((#[trigger] labels[l]).0),
        first_agent_label(labels) is Some ==> exists|l: int|
            {
                &&& 0 <= l < labels.len()
                &&& #[trigger] labels[l] == first_agent_label(labels)->0
                &&& is_agent_key(labels[l].0)
                &&& forall|k: int| 0 <= k < l ==> !is_agent_key((#[trigger] labels[k]).0)
            },
    decreases labels.len(),
{
    if labels.len() > 0 {
        lemma_compose();
        lemma_agent_key(labels[0].0);
        let rest = labels.drop_first();
        lemma_first_agent(rest);
        if !is_agent_key(labels[0].0) {
            if first_agent_label(rest) is Some {
                let l = choose|l: int|
                    {
                        &&& 0 <= l < rest.len()
                        &&& #[trigger] rest[l] == first_agent_label(rest)->0
                        &&& is_agent_key(rest[l].0)
                        &&& forall|k: int| 0 <= k < l ==> !is_agent_key((#[trigger] rest[k]).0)
                    };
                assert(labels[l + 1] == rest[l]);
                assert forall|k: int| 0 <= k < l + 1 implies !is_agent_key(
                    (#[trigger] labels[k]).0,
                ) by {
                    if k > 0 {
                        assert(rest[k - 1] == labels[k]);
                    }
                }
            }
            if exists|l: int| 0 <= l < labels.len() && is_agent_key((#[trigger] labels[l]).0) {
                let l = choose|l: int|
                    0 <= l < labels.len() && is_agent_key((#[trigger] labels[l]).0);
                assert(rest[l - 1] == labels[l]);
            }
        } else {
            assert(labels[0] == first_agent_label(labels)->0);
        }
    }
}

/// Whether a text is the pair of the label that an item's family goes by.
pub open spec fn is_family_pair(labels: Seq<(Seq<char>, Seq<char>)>, pair: Seq<char>) -> bool {
    exists|l: int|
        #![trigger labels[l]]
        is_family_label(labels, l) && pair == labels[l].0 + "="@ + labels[l].1
}

proof fn lemma_pair(labels: Seq<(Seq<char>, Seq<char>)>)
    requires
        keys_differ(labels),
    ensures
        family_pair(labels) is Some <==> exists|l: int|
            0 <= l < labels.len() && tells_family(#[trigger] labels[l]),
        family_pair(labels) is Some ==> {
            let pair = family_pair(labels)->0;
            is_family_pair(labels, pair.0 + "="@ + pair.1)
        },
{
    let compose = "com.docker.compose.project"@;
    assert(compose_entry().key == compose);
    lemma_compose();
    lemma_first_agent(labels);
    if has_key(labels, compose) {
        let k = key_index(labels, compose);
        assert(0 <= k < labels.len() && labels[k].0 == compose);
        if !is_blank(labels[k].1) {
            assert(is_family_label(labels, k));
        }
    }
    assert forall|k: int| 0 <= k < labels.len() && (#[trigger] labels[k]).0 == compose implies {
        &&& has_key(labels, compose)
        &&& k == key_index(labels, compose)
    } by {
        let i = key_index(labels, compose);
        if i != k {
            assert(labels[i].0 != labels[k].0);
        }
    }
    if exists|l: int| 0 <= l < labels.len() && is_agent_key((#[trigger] labels[l]).0) {
        let l = choose|l: int|
            {
                &&& 0 <= l < labels.len()
                &&& #[trigger] labels[l] == first_agent_label(labels)->0
                &&& is_agent_key(labels[l].0)
                &&& forall|k: int| 0 <= k < l ==> !is_agent_key((#[trigger] labels[k]).0)
            };
        assert(tells_family(labels[l]));
        if !(has_key(labels, compose) && !is_blank(labels[key_index(labels, compose)].1)) {
            assert(is_family_label(labels, l));
        }
    }
}

/// Toggling a family stores, or takes back, the label that the selected resource's
/// family goes by; where it carries no such label nothing changes.
pub proof fn a_family_toggle_goes_by_the_family_label(
    session: Session,
    stored: ProtectionState,
    change: Change,
    decision: DecisionView,
)
    requires
        call_ensures(Session::family_change, (&session, &stored), change),
        selection(session@) == Some(decision),
        keys_differ(decision.resource.labels),
    ensures
        change@ is Stay <==> !exists|l: int|
            0 <= l < decision.resource.labels.len() && tells_family(
                #[trigger] decision.resource.labels[l],
            ),
        change@ is Add ==> {
            &&& change@->Add_kind == ProtectionKind::Label
            &&& is_family_pair(decision.resource.labels, change@->Add_value)
            &&& !stored@.entries.contains(
                (ProtectionEntryView { kind: ProtectionKind::Label, value: change@->Add_value }),
            )
        },
        change@ is Remove ==> {
            &&& change@->Remove_kind == ProtectionKind::Label
            &&& is_family_pair(decision.resource.labels, change@->Remove_value)
            &&& stored@.entries.contains(
                (ProtectionEntryView { kind: ProtectionKind::Label, value: change@->Remove_value }),
            )
        },
{
    lemma_pair(decision.resource.labels);
    if change@ is Remove {
        let value = change@->Remove_value;
        let entries = stored@.entries;
        let e = choose|e: int|
            0 <= e < entries.len() && (#[trigger] entries[e]).kind == ProtectionKind::Label
                && entries[e].value == value;
        assert(entries[e] == (ProtectionEntryView { kind: ProtectionKind::Label, value }));
    }
}

/// The dashboard reads everything anew as often as the configuration says, and
/// every five minutes where it says nothing that can be read.
pub proof fn the_dashboard_refreshes_as_configured(session: Session, span: (u64, u32))
    requires
        call_ensures(Session::refresh_interval, (&session,), span),
    ensures
        is_written_span(session@.loaded.config, span) || span == (300u64, 0u32)
            && !exists|other: (u64, u32)| is_written_span(session@.loaded.config, other),
{
}

/// Whether the configuration asks for a span between two readings.
pub open spec fn is_written_span(config: ConfigView, span: (u64, u32)) -> bool {
    &&& config.tui.refresh is Some
    &&& !overruns(config.tui.refresh->0)
    &&& parsed_duration(config.tui.refresh->0) is Ok
    &&& parsed_duration(config.tui.refresh->0)->Ok_0 == span
    &&& span != (0u64, 0u32)
}

} // verus!
