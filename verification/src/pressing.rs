//! What keys do, said of the state before and after.

use crate::candidate::{CandidateFamilyView, ConfiguratorError};
use crate::events::{with_id, without_id, Effect};
use crate::goodness::good_span;
use crate::keys::{Editor, Key, KeyPress, Overlay, Pane};
use crate::plan::{Action, DecisionView};
use crate::profile::{PolicySettings, SettingsView};
use crate::session::{rows_of, Session};
use crate::setup::{set_policy_field, PolicyField};
use crate::steering::lemma_shown;
use crate::unique::lemma_ordered_once;
use vstd::prelude::*;

verus! {

proof fn lemma_without_id(ids: Seq<Seq<char>>, id: Seq<char>, other: Seq<char>)
    ensures
        without_id(ids, id).contains(other) <==> ids.contains(other) && other != id,
    decreases ids.len(),
{
    if ids.len() > 0 {
        let less = ids.drop_last();
        let before = without_id(less, id);
        let after = without_id(ids, id);
        lemma_without_id(less, id, other);
        if ids.contains(other) && other != id {
            let i = choose|i: int| 0 <= i < ids.len() && ids[i] == other;
            if i < less.len() {
                assert(less[i] == other);
                let k = choose|k: int| 0 <= k < before.len() && before[k] == other;
                assert(after[k] == other);
            } else {
                assert(after[before.len() as int] == other);
            }
        }
        if after.contains(other) {
            let i = choose|i: int| 0 <= i < after.len() && after[i] == other;
            if i < before.len() {
                assert(before[i] == other);
                let k = choose|k: int| 0 <= k < less.len() && less[k] == other;
                assert(ids[k] == other);
            } else {
                assert(ids[ids.len() - 1] == other);
            }
        }
    }
}

proof fn lemma_with_id(ids: Seq<Seq<char>>, id: Seq<char>, other: Seq<char>)
    ensures
        with_id(ids, id).contains(other) <==> ids.contains(other) || other == id,
{
    let all = ids.push(id);
    lemma_ordered_once::<String>(all);
    if ids.contains(other) {
        let i = choose|i: int| 0 <= i < ids.len() && ids[i] == other;
        assert(all[i] == other);
    }
    assert(all[ids.len() as int] == id);
    if all.contains(other) {
        let i = choose|i: int| 0 <= i < all.len() && all[i] == other;
        if i < ids.len() {
            assert(ids[i] == other);
        }
    }
}

/// Whether ids after a change hold the same as before but for one, which is there
/// or not.
pub open spec fn differs_at(
    before: Seq<Seq<char>>,
    after: Seq<Seq<char>>,
    id: Seq<char>,
    held: bool,
) -> bool {
    forall|other: Seq<char>| #[trigger]
        after.contains(other) <==> (if other == id {
            held
        } else {
            before.contains(other)
        })
}

/// Toggling a family drops it where it is used and uses it where it is not, and
/// touches no other; the build cache is asked about before it is used. A changed
/// choice leaves no proposal.
pub proof fn a_toggle_uses_or_drops_the_selected_family(
    session: &mut Session,
    family: CandidateFamilyView,
)
    requires
        call_ensures(Session::toggle_selected_candidate, (session,), ()),
        session.row < session@.survey.candidates.len(),
        family == session@.survey.candidates[session.row as int],
    ensures
        family.selector is BuildCache && !old(session)@.chosen.contains(family.id) ==> {
            &&& final(session)@.chosen == old(session)@.chosen
            &&& final(session)@.overlay == Overlay::CacheConfirm
        },
        !(family.selector is BuildCache) || old(session)@.chosen.contains(family.id) ==> {
            &&& differs_at(
                old(session)@.chosen,
                final(session)@.chosen,
                family.id,
                !old(session)@.chosen.contains(family.id),
            )
            &&& final(session)@.proposal is None
            &&& final(session)@.overlay == old(session)@.overlay
        },
        final(session)@.survey == old(session)@.survey,
        final(session)@.policy == old(session)@.policy,
{
    let chosen = old(session)@.chosen;
    assert forall|other: Seq<char>| #[trigger]
        without_id(chosen, family.id).contains(other) <==> chosen.contains(other) && other
            != family.id by {
        lemma_without_id(chosen, family.id, other);
    }
    assert forall|other: Seq<char>| #[trigger]
        with_id(chosen, family.id).contains(other) <==> chosen.contains(other) || other
            == family.id by {
        lemma_with_id(chosen, family.id, other);
    }
}

/// Whether a key says yes.
pub open spec fn says_yes(key: Key) -> bool {
    key == Key::Enter || key == Key::Char('y')
}

/// Whether a key says no.
pub open spec fn says_no(key: Key) -> bool {
    key == Key::Esc || key == Key::Char('n')
}

/// Whether a press quits wherever the dashboard stands.
pub open spec fn interrupts(press: KeyPress) -> bool {
    press.control && (press.key == Key::Char('c') || press.key == Key::Char('C'))
}

/// The box that asks about the build cache uses it only on a yes, and closes on a
/// yes or a no alone.
pub proof fn the_build_cache_is_used_only_on_a_yes(
    session: &mut Session,
    press: KeyPress,
    effect: Effect,
    family: CandidateFamilyView,
)
    requires
        call_ensures(Session::press, (session, press), effect),
        session@.editor == Editor::Closed,
        session@.overlay == Overlay::CacheConfirm,
        session.row < session@.survey.candidates.len(),
        family == session@.survey.candidates[session.row as int],
        !interrupts(press),
    ensures
        says_yes(press.key) ==> differs_at(
            old(session)@.chosen,
            final(session)@.chosen,
            family.id,
            true,
        ) && final(session)@.proposal is None,
        !says_yes(press.key) ==> final(session)@.chosen == old(session)@.chosen
            && final(session)@.proposal == old(session)@.proposal,
        final(session)@.overlay == if says_yes(press.key) || says_no(press.key) {
            Overlay::Hidden
        } else {
            Overlay::CacheConfirm
        },
        effect@ is Nothing,
{
    let chosen = old(session)@.chosen;
    assert forall|other: Seq<char>| #[trigger]
        with_id(chosen, family.id).contains(other) <==> chosen.contains(other) || other
            == family.id by {
        lemma_with_id(chosen, family.id, other);
    }
}

/// A configuration is written only on a yes in the box that asks about it, which
/// opens only on a proposal.
pub proof fn a_configuration_is_written_only_on_a_yes(
    session: &mut Session,
    press: KeyPress,
    effect: Effect,
)
    requires
        call_ensures(Session::press, (session, press), effect),
    ensures
        effect@ is Save <==> !interrupts(press) && old(session)@.editor == Editor::Closed && old(
            session,
        )@.overlay == Overlay::ConfigSave && says_yes(press.key),
        old(session)@.overlay != Overlay::ConfigSave && final(session)@.overlay
            == Overlay::ConfigSave ==> old(session)@.proposal is Some,
{
}

/// A plan is applied exactly on Enter in the box that confirms it, and the box
/// closes on Enter, Esc or n.
pub proof fn a_plan_is_applied_exactly_on_enter(
    session: &mut Session,
    press: KeyPress,
    effect: Effect,
)
    requires
        call_ensures(Session::press, (session, press), effect),
    ensures
        effect@ is Apply <==> !interrupts(press) && old(session)@.editor == Editor::Closed && old(
            session,
        )@.overlay == Overlay::Confirm && press.key == Key::Enter,
        !interrupts(press) && old(session)@.editor == Editor::Closed && old(session)@.overlay
            == Overlay::Confirm ==> final(session)@.overlay == (if press.key == Key::Enter
            || says_no(press.key) {
            Overlay::Hidden
        } else {
            Overlay::Confirm
        }),
{
}

/// The dashboard is left by q where nothing else takes the key, and by an
/// interrupt anywhere.
pub proof fn the_dashboard_is_left_by_q_or_an_interrupt(
    session: &mut Session,
    press: KeyPress,
    effect: Effect,
)
    requires
        call_ensures(Session::press, (session, press), effect),
    ensures
        effect@ is Quit <==> interrupts(press) || old(session)@.editor == Editor::Closed && old(
            session,
        )@.overlay == Overlay::Hidden && press.key == Key::Char('q'),
{
}

/// What is typed into the filter is added at its end, Backspace takes the last
/// character away, Esc clears it; each of them starts again from the first row.
pub proof fn typing_edits_the_filter(session: &mut Session, press: KeyPress, effect: Effect)
    requires
        call_ensures(Session::press, (session, press), effect),
        session@.editor == Editor::Filter,
        !interrupts(press),
    ensures
        final(session)@.filter == match press.key {
            Key::Char(character) => if press.plain {
                old(session)@.filter + seq![character]
            } else {
                old(session)@.filter
            },
            Key::Backspace => if old(session)@.filter.len() == 0 {
                old(session)@.filter
            } else {
                old(session)@.filter.take(old(session)@.filter.len() - 1)
            },
            Key::Esc => Seq::<char>::empty(),
            _ => old(session)@.filter,
        },
        final(session)@.filter != old(session)@.filter ==> final(session)@.selected == 0,
        final(session)@.editor == if press.key == Key::Esc || press.key == Key::Enter {
            Editor::Closed
        } else {
            Editor::Filter
        },
{
    let before = old(session)@.filter;
    assert(before.len() > 0 ==> before.drop_last() =~= before.take(before.len() - 1));
    if let Key::Char(character) = press.key {
        assert(before.push(character) =~= before + seq![character]);
    }
}

/// Moving goes so many rows down or up and stops at the ends.
pub proof fn moving_stops_at_the_ends(session: &mut Session, delta: isize)
    requires
        call_ensures(Session::move_selection, (session, delta), ()),
        session@.pane != Pane::Setup,
    ensures
        rows_of(old(session)@).len() > 0 ==> final(session)@.selected < rows_of(
            final(session)@,
        ).len(),
        0 <= old(session)@.selected + delta < rows_of(old(session)@).len()
            ==> final(session)@.selected == old(session)@.selected + delta,
        old(session)@.selected + delta < 0 ==> final(session)@.selected == 0,
        old(session)@.selected + delta >= rows_of(old(session)@).len() > 0
            ==> final(session)@.selected == rows_of(old(session)@).len() - 1,
        final(session)@.decisions == old(session)@.decisions,
        final(session)@.filter == old(session)@.filter,
        final(session)@.pane == old(session)@.pane,
{
    let before = old(session)@;
    let row = arbitrary::<DecisionView>();
    assert(old(session).plan.decisions.len() == before.decisions.len());
    lemma_shown(before.decisions, Action::Remove, before.filter, row);
    lemma_shown(before.decisions, Action::Keep, before.filter, row);
}

/// Settings are accepted exactly when every span can be read and is not zero, and
/// the byte budget is not zero.
pub proof fn settings_need_spans_and_a_budget(
    settings: PolicySettings,
    outcome: Result<(), ConfiguratorError>,
)
    requires
        call_ensures(PolicySettings::validate, (&settings,), outcome),
    ensures
        outcome is Ok <==> {
            &&& good_span(Some(settings@.stopped_container_ttl))
            &&& good_span(Some(settings@.image_ttl))
            &&& good_span(Some(settings@.volume_ttl))
            &&& good_span(Some(settings@.build_cache_ttl))
            &&& settings@.build_cache_max_bytes > 0
        },
{
}

/// Whether settings are others with one field rewritten.
pub open spec fn differ_only_in(
    field: PolicyField,
    before: SettingsView,
    after: SettingsView,
    value: Seq<char>,
) -> bool {
    &&& after.stopped_container_ttl == if field == PolicyField::Containers {
        value
    } else {
        before.stopped_container_ttl
    }
    &&& after.image_ttl == if field == PolicyField::Images {
        value
    } else {
        before.image_ttl
    }
    &&& after.volume_ttl == if field == PolicyField::Volumes {
        value
    } else {
        before.volume_ttl
    }
    &&& after.build_cache_ttl == if field == PolicyField::CacheAge {
        value
    } else {
        before.build_cache_ttl
    }
    &&& field != PolicyField::CacheBytes ==> after.build_cache_max_bytes
        == before.build_cache_max_bytes
}

/// Rewriting a field of the settings writes it as given and no other; what cannot
/// be read leaves them as they were. A span can be rewritten with any text, a byte
/// budget with one that can be read.
pub proof fn a_field_is_rewritten_alone(
    field: PolicyField,
    policy: &mut PolicySettings,
    value: &str,
    outcome: Result<(), ConfiguratorError>,
    read: Result<u64, ConfiguratorError>,
)
    requires
        call_ensures(set_policy_field, (field, policy, value), outcome),
        call_ensures(crate::present::parse_byte_budget, (value,), read),
    ensures
        outcome is Ok ==> differ_only_in(field, old(policy)@, final(policy)@, value@),
        outcome is Err ==> final(policy)@ == old(policy)@,
        field != PolicyField::CacheBytes ==> (outcome is Ok <==> value@.len() > 0),
        field == PolicyField::CacheBytes ==> (outcome is Ok <==> value@.len() > 0 && read is Ok),
        field == PolicyField::CacheBytes && outcome is Ok ==> final(policy)@.build_cache_max_bytes
            == read->Ok_0,
{
}

} // verus!
