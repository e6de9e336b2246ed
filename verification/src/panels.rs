//! What the configurator's pane and the boxes over the panes say.

use crate::candidate::{
    CandidateFamily, CandidateFamilyView, CandidateResource, CandidateResourceView,
    CandidateSelector,
};
use crate::plan::{disposition_count, Decision, DecisionView, Disposition, Plan};
use crate::present::{bytes_text, format_bytes};
use crate::profile::{profile_text, profile_title, PolicyProfile, PolicySettings, SettingsView};
use crate::proposal::{ConfigProposal, ProposalView};
use crate::resource::kind_text;
use crate::setup::{field_title, PolicyField};
use crate::text::{
    concat2, concat3, concat5, count_text, decimal, group_views, join, joined, opt_view, or_text,
    text_or, views,
};
use vstd::prelude::*;
use vstd::string::*;

verus! {

/// What the pane asks for next.
pub open spec fn stage_words(proposed: bool, chosen: nat) -> Seq<char> {
    if proposed {
        "Preview ready \u{2022} s saves"@
    } else if chosen == 0 {
        "Choose what this policy owns"@
    } else {
        "Press v to build the real preview"@
    }
}

/// The two lines at the top of the pane.
pub open spec fn setup_head(
    profile: PolicyProfile,
    policy: SettingsView,
    chosen: nat,
    offered: nat,
    proposed: bool,
    field: PolicyField,
) -> Seq<char> {
    "Profile: "@ + profile_title(profile) + " [\u{2190}\u{2192}] \u{2022} keep for c="@
        + policy.stopped_container_ttl + " i="@ + policy.image_ttl + " v="@ + policy.volume_ttl
        + " \u{2022} cache="@ + policy.build_cache_ttl + "/"@ + bytes_text(
        policy.build_cache_max_bytes,
    ) + "\nUsing: "@ + decimal(chosen) + " of "@ + decimal(offered) + " \u{2022} "@ + stage_words(
        proposed,
        chosen,
    ) + " \u{2022} ["@ + field_title(field) + "] field, e edits"@
}

/// Writes the two lines at the top of the pane.
pub fn setup_header(
    profile: PolicyProfile,
    policy: &PolicySettings,
    chosen: usize,
    offered: usize,
    proposed: bool,
    field: PolicyField,
) -> (text: String)
    ensures
        text@ == setup_head(profile, policy@, chosen as nat, offered as nat, proposed, field),
{
    let stage = if proposed {
        "Preview ready \u{2022} s saves"
    } else if chosen == 0 {
        "Choose what this policy owns"
    } else {
        "Press v to build the real preview"
    };
    let mut text = "Profile: ".to_owned();
    text.append(profile.title());
    text.append(" [\u{2190}\u{2192}] \u{2022} keep for c=");
    text.append(policy.stopped_container_ttl.as_str());
    text.append(" i=");
    text.append(policy.image_ttl.as_str());
    text.append(" v=");
    text.append(policy.volume_ttl.as_str());
    text.append(" \u{2022} cache=");
    text.append(policy.build_cache_ttl.as_str());
    text.append("/");
    text.append(format_bytes(policy.build_cache_max_bytes).as_str());
    text.append("\nUsing: ");
    text.append(count_text(chosen).as_str());
    text.append(" of ");
    text.append(count_text(offered).as_str());
    text.append(" \u{2022} ");
    text.append(stage);
    text.append(" \u{2022} [");
    text.append(field.title());
    text.append("] field, e edits");
    text
}

/// What is said of a proposal.
pub open spec fn proposal_words(proposal: ProposalView) -> Seq<char> {
    "Proposal "@ + proposal.proposal_id + "\n\nTarget: "@ + proposal.target_path + "\nProfile: "@
        + profile_text(proposal.profile) + "\nCandidates: "@ + decimal(proposal.candidate_ids.len())
        + "\nSelected objects: "@ + decimal(proposal.preview.selected_resources as nat)
        + "\n\nWould remove before: "@ + decimal(proposal.preview.before_pending as nat)
        + "\nWould remove after: "@ + decimal(proposal.preview.after_pending as nat)
        + "\nNewly claimed: "@ + decimal(proposal.preview.newly_pending as nat)
        + "\nEstimated reclaim: "@ + bytes_text(proposal.preview.estimated_reclaim_bytes)
        + "\n\nWarnings:\n"@ + (if proposal.warnings.len() == 0 {
        "none"@
    } else {
        joined(proposal.warnings, "\n"@)
    })
        + "\n\nThe save changes configuration only. It never deletes Docker objects. After save, Review refreshes and apply remains a separate confirmation."@
}

fn proposal_detail(proposal: &ConfigProposal) -> (text: String)
    ensures
        text@ == proposal_words(proposal@),
{
    broadcast use group_views;

    let warnings = if proposal.warnings.len() == 0 {
        "none".to_owned()
    } else {
        join(&proposal.warnings, "\n")
    };
    let mut text = "Proposal ".to_owned();
    text.append(proposal.proposal_id.as_str());
    text.append("\n\nTarget: ");
    text.append(proposal.target_path.as_str());
    text.append("\nProfile: ");
    text.append(proposal.profile.as_text());
    text.append("\nCandidates: ");
    text.append(count_text(proposal.candidate_ids.len()).as_str());
    text.append("\nSelected objects: ");
    text.append(count_text(proposal.preview.selected_resources).as_str());
    text.append("\n\nWould remove before: ");
    text.append(count_text(proposal.preview.before_pending).as_str());
    text.append("\nWould remove after: ");
    text.append(count_text(proposal.preview.after_pending).as_str());
    text.append("\nNewly claimed: ");
    text.append(count_text(proposal.preview.newly_pending).as_str());
    text.append("\nEstimated reclaim: ");
    text.append(format_bytes(proposal.preview.estimated_reclaim_bytes).as_str());
    text.append("\n\nWarnings:\n");
    text.append(warnings.as_str());
    text.append(
        "\n\nThe save changes configuration only. It never deletes Docker objects. After save, Review refreshes and apply remains a separate confirmation.",
    );
    text
}

/// The most objects of a family that are listed.
pub const LISTED_OBJECTS: usize = 12;

/// Objects of a family, one line each.
pub open spec fn object_lines(resources: Seq<CandidateResourceView>) -> Seq<char>
    decreases resources.len(),
{
    if resources.len() == 0 {
        Seq::empty()
    } else {
        let resource = resources.last();
        object_lines(resources.drop_last()) + "\u{2022} "@ + resource.resource_kind + " "@
            + resource.name + (if resource.running {
            " \u{2022} running"@
        } else {
            ""@
        }) + (if resource.referenced {
            " \u{2022} referenced"@
        } else {
            ""@
        }) + "\n"@
    }
}

/// The objects of a family as far as they are listed.
pub open spec fn listed_objects(resources: Seq<CandidateResourceView>) -> Seq<char> {
    if resources.len() <= LISTED_OBJECTS {
        object_lines(resources)
    } else {
        object_lines(resources.take(LISTED_OBJECTS as int)) + "\u{2022} \u{2026} "@ + decimal(
            (resources.len() - LISTED_OBJECTS) as nat,
        ) + " more\n"@
    }
}

/// The warning of a family.
pub open spec fn warning_words(family: CandidateFamilyView) -> Seq<char> {
    match family.warning {
        None => Seq::empty(),
        Some(warning) => "\n"@ + warning + "\n"@ + (if family.selector is BuildCache {
            "Enable only when daemon-wide cache cleanup is intentional.\n"@
        } else {
            ""@
        }),
    }
}

/// What is said of a family.
pub open spec fn family_words(family: CandidateFamilyView) -> Seq<char> {
    family.title + "\n\nID: "@ + family.id + "\nEvidence: "@ + family.evidence + "\nObjects: "@
        + decimal(family.resources.len()) + "\nKnown size: "@ + bytes_text(family.known_bytes)
        + "\n"@ + warning_words(family) + "\nObserved objects:\n"@ + listed_objects(
        family.resources,
    )
}

fn list_objects(resources: &Vec<CandidateResource>) -> (text: String)
    ensures
        text@ == listed_objects(views(resources@)),
{
    broadcast use group_views;

    let ghost all = views(resources@);
    let total: usize = resources.len();
    let shown: usize = if total <= LISTED_OBJECTS {
        total
    } else {
        LISTED_OBJECTS
    };
    let mut text = String::new();
    let mut index: usize = 0;
    assert(text@ =~= object_lines(all.take(0)));
    while index < shown
        invariant
            index <= shown,
            shown <= resources@.len(),
            all == views(resources@),
            text@ == object_lines(all.take(index as int)),
        decreases shown - index,
    {
        let resource = &resources[index];
        assert(all.take(index as int + 1).drop_last() =~= all.take(index as int));
        assert(all.take(index as int + 1).last() == resource@);
        text.append("\u{2022} ");
        text.append(resource.resource_kind.as_str());
        text.append(" ");
        text.append(resource.name.as_str());
        text.append(
            if resource.running {
                " \u{2022} running"
            } else {
                ""
            },
        );
        text.append(
            if resource.referenced {
                " \u{2022} referenced"
            } else {
                ""
            },
        );
        text.append("\n");
        index += 1;
    }
    if total > shown {
        text.append("\u{2022} \u{2026} ");
        text.append(count_text(total - shown).as_str());
        text.append(" more\n");
    } else {
        assert(all.take(index as int) =~= all);
    }
    text
}

fn family_detail(family: &CandidateFamily) -> (text: String)
    ensures
        text@ == family_words(family@),
{
    broadcast use group_views;

    let mut warned = String::new();
    assert(warned@ =~= Seq::empty());
    if let Some(warning) = &family.warning {
        warned.append("\n");
        warned.append(warning.as_str());
        warned.append("\n");
        assert(warned@ =~= "\n"@ + warning@ + "\n"@);
        warned.append(
            match &family.selector {
                CandidateSelector::BuildCache => "Enable only when daemon-wide cache cleanup is intentional.\n",
                _ => "",
            },
        );
    }
    assert(warned@ == warning_words(family@));
    let mut text = family.title.clone();
    text.append("\n\nID: ");
    text.append(family.id.as_str());
    text.append("\nEvidence: ");
    text.append(family.evidence.as_str());
    text.append("\nObjects: ");
    text.append(count_text(family.resources.len()).as_str());
    text.append("\nKnown size: ");
    text.append(format_bytes(family.known_bytes).as_str());
    text.append("\n");
    text.append(warned.as_str());
    text.append("\nObserved objects:\n");
    text.append(list_objects(&family.resources).as_str());
    text
}

/// What is said where no family was found.
pub const NO_FAMILY: &'static str =
    "No exact agent or Compose ownership evidence was found.\n\nUnlabeled objects stay unowned. In Review or Keeping, select an object and press c to approve a name prefix.";

/// What the right half of the pane says: the proposal, else the selected
/// family.
pub open spec fn setup_words(
    proposal: Option<ProposalView>,
    family: Option<CandidateFamilyView>,
) -> Seq<char> {
    match proposal {
        Some(made) => proposal_words(made),
        None => match family {
            Some(selected) => family_words(selected),
            None => NO_FAMILY@,
        },
    }
}

/// Writes the right half of the pane.
pub fn setup_detail(proposal: &Option<ConfigProposal>, family: Option<&CandidateFamily>) -> (text:
    String)
    ensures
        text@ == setup_words(
            opt_view(*proposal),
            match family {
                Some(selected) => Some(selected@),
                None => None,
            },
        ),
{
    match proposal {
        Some(made) => proposal_detail(made),
        None => match family {
            Some(selected) => family_detail(selected),
            None => NO_FAMILY.to_owned(),
        },
    }
}

/// What is asked before the build cache is taken on.
pub open spec fn cache_question(records: nat, profile: PolicyProfile) -> Seq<char> {
    "Build cache carries no owner, project, label, or name.\n\nThis authorizes a rule over "@
        + decimal(records) + " current cache records with no ownership evidence. The "@
        + profile_title(profile)
        + " profile suggests an age floor and a byte budget.\n\nNothing is deleted here. The next stage shows the exact plan.\n\ny: enable    esc: cancel"@
}

/// Asks before the build cache is taken on.
pub fn cache_confirmation(records: usize, profile: PolicyProfile) -> (text: String)
    ensures
        text@ == cache_question(records as nat, profile),
{
    concat5(
        "Build cache carries no owner, project, label, or name.\n\nThis authorizes a rule over ",
        count_text(records).as_str(),
        " current cache records with no ownership evidence. The ",
        profile.title(),
        " profile suggests an age floor and a byte budget.\n\nNothing is deleted here. The next stage shows the exact plan.\n\ny: enable    esc: cancel",
    )
}

/// What is asked before a configuration is written.
pub open spec fn save_question(proposal: Option<ProposalView>) -> Seq<char> {
    match proposal {
        None => "No proposal is available."@,
        Some(made) => "Write reviewed configuration?\n\nPath: "@ + made.target_path
            + "\nProposal: "@ + made.proposal_id + "\nProfile: "@ + profile_text(made.profile)
            + "\nSelected objects: "@ + decimal(made.preview.selected_resources as nat)
            + "\nWould remove after save: "@ + decimal(made.preview.after_pending as nat)
            + "\nNewly claimed: "@ + decimal(made.preview.newly_pending as nat)
            + "\nEstimated reclaim: "@ + bytes_text(made.preview.estimated_reclaim_bytes)
            + "\n\nThe writer checks the source hash and Docker inventory again. Existing config is backed up. Manual rules and comments stay outside the managed region.\n\nThis does not delete Docker objects.\n\ny: save    esc: cancel"@,
    }
}

/// Asks before a configuration is written.
pub fn save_confirmation(proposal: &Option<ConfigProposal>) -> (text: String)
    ensures
        text@ == save_question(opt_view(*proposal)),
{
    match proposal {
        None => "No proposal is available.".to_owned(),
        Some(made) => {
            let mut text = "Write reviewed configuration?\n\nPath: ".to_owned();
            text.append(made.target_path.as_str());
            text.append("\nProposal: ");
            text.append(made.proposal_id.as_str());
            text.append("\nProfile: ");
            text.append(made.profile.as_text());
            text.append("\nSelected objects: ");
            text.append(count_text(made.preview.selected_resources).as_str());
            text.append("\nWould remove after save: ");
            text.append(count_text(made.preview.after_pending).as_str());
            text.append("\nNewly claimed: ");
            text.append(count_text(made.preview.newly_pending).as_str());
            text.append("\nEstimated reclaim: ");
            text.append(format_bytes(made.preview.estimated_reclaim_bytes).as_str());
            text.append(
                "\n\nThe writer checks the source hash and Docker inventory again. Existing config is backed up. Manual rules and comments stay outside the managed region.\n\nThis does not delete Docker objects.\n\ny: save    esc: cancel",
            );
            text
        },
    }
}

/// What is asked before a plan is applied.
pub open spec fn removal_question(count: nat) -> Seq<char> {
    if count == 1 {
        "Remove this 1 object?"@
    } else {
        "Remove these "@ + decimal(count) + " objects?"@
    }
}

/// A target as it is listed before a plan is applied.
pub open spec fn target_line(decision: DecisionView) -> Seq<char> {
    kind_text(decision.resource.kind) + "  "@ + decision.resource.name + "  ["@ + or_text(
        decision.matched_rule,
        "no matched rule"@,
    ) + "]"@
}

/// The targets of a window of a list.
pub open spec fn target_lines(targets: Seq<DecisionView>) -> Seq<Seq<char>> {
    targets.map_values(|decision: DecisionView| target_line(decision))
}

/// The window of a list that is shown: at most `height` elements from `start`.
pub open spec fn window<A>(items: Seq<A>, start: nat, height: nat) -> Seq<A> {
    let first = if start <= items.len() {
        start
    } else {
        items.len()
    };
    let end = if first + height <= items.len() {
        first + height
    } else {
        items.len()
    };
    items.subrange(first as int, end as int)
}

/// Where a window ends.
pub open spec fn window_end(count: nat, start: nat, height: nat) -> nat {
    if start + height <= count {
        start + height
    } else {
        count
    }
}

/// What tells the part that is shown from the whole.
pub open spec fn window_line(count: nat, start: nat, height: nat) -> Seq<char> {
    "Showing "@ + decimal(
        if start < usize::MAX {
            start + 1
        } else {
            start
        },
    ) + "\u{2013}"@ + decimal(window_end(count, start, height))
        + " of "@ + decimal(count) + " \u{2022} \u{2191}\u{2193} or PgUp/PgDn scroll"@
}

/// What is said of targets without ownership evidence.
pub open spec fn unscoped_line(count: nat) -> Seq<char> {
    decimal(count) + " of these have no ownership evidence; you authorized them"@
}

/// What stands at the foot of the box.
pub const CONFIRM_RULE: &'static str =
    "Enter confirms this exact set. Esc cancels. No target can be added.";

/// The box that a plan is confirmed in, by its parts.
#[derive(Debug, PartialEq, Eq)]
pub struct Confirmation {
    pub question: String,
    pub plan: String,
    pub notice: Option<String>,
    pub targets: Vec<String>,
    pub position: Option<String>,
}

/// What the box says.
#[verifier::ext_equal]
pub struct ConfirmationView {
    pub question: Seq<char>,
    pub plan: Seq<char>,
    pub notice: Option<Seq<char>>,
    pub targets: Seq<Seq<char>>,
    pub position: Option<Seq<char>>,
}

impl View for Confirmation {
    type V = ConfirmationView;

    open spec fn view(&self) -> ConfirmationView {
        ConfirmationView {
            question: self.question@,
            plan: self.plan@,
            notice: opt_view(self.notice),
            targets: views(self.targets@),
            position: opt_view(self.position),
        }
    }
}

/// How many targets a box of some height has room for: one at least.
pub open spec fn target_room(height: u16) -> nat {
    if height <= 10 {
        1
    } else {
        (height - 9) as nat
    }
}

/// The box for a list of targets, of which those from `start` are shown.
pub open spec fn confirmation_of(
    targets: Seq<DecisionView>,
    plan_id: Seq<char>,
    start: nat,
    height: u16,
) -> ConfirmationView {
    let unscoped = disposition_count(targets, Disposition::AuthorizedUnscoped);
    ConfirmationView {
        question: removal_question(targets.len()),
        plan: "Plan: "@ + plan_id,
        notice: if unscoped == 0 {
            None
        } else {
            Some(unscoped_line(unscoped))
        },
        targets: target_lines(window(targets, start, target_room(height))),
        position: if targets.len() > target_room(height) {
            Some(window_line(targets.len(), start, target_room(height)))
        } else {
            None
        },
    }
}

/// Whatever the height, the box lists a target as long as the window starts
/// before the end.
pub proof fn a_confirmation_lists_a_target(
    targets: Seq<DecisionView>,
    plan_id: Seq<char>,
    start: nat,
    height: u16,
)
    requires
        start < targets.len(),
    ensures
        confirmation_of(targets, plan_id, start, height).targets.len() >= 1,
        confirmation_of(targets, plan_id, start, height).targets[0] == target_line(
            targets[start as int],
        ),
{
}

fn unscoped_targets(targets: &Vec<&Decision>) -> (count: usize)
    ensures
        count == disposition_count(views(targets@), Disposition::AuthorizedUnscoped),
{
    broadcast use group_views;

    let ghost all = views(targets@);
    let mut count: usize = 0;
    let mut index: usize = 0;
    while index < targets.len()
        invariant
            index <= targets@.len(),
            count <= index,
            all == views(targets@),
            count == disposition_count(all.take(index as int), Disposition::AuthorizedUnscoped),
        decreases targets@.len() - index,
    {
        assert(all.take(index as int + 1).drop_last() =~= all.take(index as int));
        assert(all.take(index as int + 1).last() == targets@[index as int]@);
        if targets[index].disposition == Disposition::AuthorizedUnscoped {
            count += 1;
        }
        index += 1;
    }
    assert(all.take(index as int) =~= all);
    count
}

fn window_targets(targets: &Vec<&Decision>, start: usize, height: usize) -> (lines: Vec<String>)
    ensures
        views(lines@) == target_lines(window(views(targets@), start as nat, height as nat)),
{
    broadcast use group_views;

    let total: usize = targets.len();
    let first: usize = if start <= total {
        start
    } else {
        total
    };
    let end: usize = if height <= total - first {
        first + height
    } else {
        total
    };
    let ghost wanted = target_lines(window(views(targets@), start as nat, height as nat));
    assert(wanted.len() == end - first);
    let mut lines: Vec<String> = Vec::new();
    let mut index: usize = first;
    assert(views(lines@) =~= wanted.take(0));
    while index < end
        invariant
            first <= index <= end,
            end <= targets@.len(),
            wanted.len() == end - first,
            forall|i: int|
                0 <= i < wanted.len() ==> #[trigger] wanted[i] == target_line(
                    targets@[first + i]@,
                ),
            views(lines@) == wanted.take(index - first),
        decreases end - index,
    {
        let decision = targets[index];
        let line = concat5(
            decision.resource.kind.as_text(),
            "  ",
            decision.resource.name.as_str(),
            "  [",
            concat2(text_or(&decision.matched_rule, "no matched rule").as_str(), "]").as_str(),
        );
        assert(line@ =~= target_line(decision@));
        assert(wanted[index - first] == line@);
        assert(wanted.take(index + 1 - first) =~= wanted.take(index - first).push(line@));
        lines.push(line);
        index += 1;
    }
    assert(wanted.take(index - first) =~= wanted);
    lines
}

/// The box that a plan is confirmed in.
pub fn confirmation_box(targets: &Vec<&Decision>, plan_id: &str, start: usize, height: u16) -> (shown:
    Confirmation)
    ensures
        shown@ == confirmation_of(views(targets@), plan_id@, start as nat, height),
{
    broadcast use group_views;

    let total: usize = targets.len();
    let room: usize = if height <= 10 {
        1
    } else {
        (height - 9) as usize
    };
    let unscoped: usize = unscoped_targets(targets);
    let question = if total == 1 {
        "Remove this 1 object?".to_owned()
    } else {
        concat3("Remove these ", count_text(total).as_str(), " objects?")
    };
    let notice = if unscoped == 0 {
        None
    } else {
        Some(
            concat2(
                count_text(unscoped).as_str(),
                " of these have no ownership evidence; you authorized them",
            ),
        )
    };
    let position = if total > room {
        let end: usize = if start <= total && room <= total - start {
            start + room
        } else {
            total
        };
        let mut words = "Showing ".to_owned();
        words.append(count_text(start.saturating_add(1)).as_str());
        words.append("\u{2013}");
        words.append(count_text(end).as_str());
        words.append(" of ");
        words.append(count_text(total).as_str());
        words.append(" \u{2022} \u{2191}\u{2193} or PgUp/PgDn scroll");
        Some(words)
    } else {
        None
    };
    Confirmation {
        question,
        plan: concat2("Plan: ", plan_id),
        notice,
        targets: window_targets(targets, start, room),
        position,
    }
}

/// What stands above and below the list of removals.
#[derive(Debug, PartialEq, Eq)]
pub struct ReviewHeading {
    /// How many removals are listed.
    pub heading: String,
    /// How many more the filter hides, where it hides any.
    pub hidden: Option<String>,
    /// How many resources are kept.
    pub kept: String,
}

/// A difference, at least zero.
pub open spec fn beyond(larger: nat, smaller: nat) -> nat {
    if larger > smaller {
        (larger - smaller) as nat
    } else {
        0
    }
}

/// Says how many of the `targets` of a plan over `total` resources are shown,
/// hidden by the filter, and kept.
pub fn review_heading(shown: usize, targets: usize, total: usize) -> (words: ReviewHeading)
    ensures
        words.heading@ == "WOULD REMOVE  ("@ + decimal(shown as nat) + ")"@,
        opt_view(words.hidden) == if targets > shown {
            Some("   "@ + decimal(beyond(targets as nat, shown as nat)) + " more hidden by the filter"@)
        } else {
            None
        },
        words.kept@ == "KEEPING  ("@ + decimal(beyond(total as nat, targets as nat))
            + ")                    press 2 to see"@,
{
    let hidden: usize = targets.saturating_sub(shown);
    let kept: usize = total.saturating_sub(targets);
    ReviewHeading {
        heading: concat3("WOULD REMOVE  (", count_text(shown).as_str(), ")"),
        hidden: if hidden > 0 {
            Some(concat3("   ", count_text(hidden).as_str(), " more hidden by the filter"))
        } else {
            None
        },
        kept: concat3(
            "KEEPING  (",
            count_text(kept).as_str(),
            ")                    press 2 to see",
        ),
    }
}

} // verus!
