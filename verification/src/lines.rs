//! The lines that the dashboard shows of resources, passes and plans.

use crate::activity::{
    ActivityEvent, CompletedPass, CompletedPassView, EventData, EventDataView, EventView,
};
use crate::config::{LoadedConfig, LoadedView};
use crate::executor::{status_count, ExecutionReport, OutcomeView, TargetStatus};
use crate::journal::{stable_config_hash, text_hash};
use crate::naming::{add_size, known_bytes};
use crate::outside::TIMESTAMP_END;
use crate::plan::{
    action_text, removals_of, Action, Decision, DecisionView, Disposition, Plan,
};
use crate::present::{
    age_text, bytes_text, clauses_of, cut, disposition_words, family_label, family_pair,
    flag_words, format_age, format_bytes, format_size, format_timestamp, plain_disposition,
    reason_clauses, size_words, timestamp_text, truncate, yes_no,
};
use crate::preview::decided_sizes;
use crate::resource::{kind_text, state_text};
use crate::text::{
    char_count, concat2, concat3, concat4, concat5, count_text, decimal, decimal_text,
    group_views, join, joined, opt_view, or_text, push_spaces, signed_decimal, signed_text,
    spaces, text_eq, text_or, views,
};
use vstd::prelude::*;
use vstd::string::*;

verus! {

/// A text with spaces behind it up to a width.
pub open spec fn padded(text: Seq<char>, width: nat) -> Seq<char> {
    if text.len() < width {
        text + spaces((width - text.len()) as nat)
    } else {
        text
    }
}

/// Pads a text to a width.
pub fn pad(text: &str, width: usize) -> (wide: String)
    ensures
        wide@ == padded(text@, width as nat),
{
    let count: usize = char_count(text);
    let mut wide = text.to_owned();
    if count < width {
        push_spaces(&mut wide, width - count);
    }
    wide
}

/// What the labels of a resource look like, one line each.
pub open spec fn label_lines(labels: Seq<(Seq<char>, Seq<char>)>) -> Seq<char>
    decreases labels.len(),
{
    if labels.len() == 0 {
        Seq::empty()
    } else {
        label_lines(labels.drop_last()) + labels.last().0 + "="@ + labels.last().1 + "\n"@
    }
}

/// Texts, one line each.
pub open spec fn text_lines(items: Seq<Seq<char>>) -> Seq<char>
    decreases items.len(),
{
    if items.len() == 0 {
        Seq::empty()
    } else {
        text_lines(items.drop_last()) + items.last() + "\n"@
    }
}

/// What the details say of a decision before labels and mounts.
pub open spec fn detail_head(decision: DecisionView) -> Seq<char> {
    decision.resource.name + "\n\nType: "@ + kind_text(decision.resource.kind) + "\nID: "@
        + decision.resource.id + "\nState: "@ + state_text(decision.resource.state) + "\nAge: "@
        + age_text(decision.age_seconds) + "\nSize: "@ + size_words(
        decision.resource.size,
        "unknown"@,
    ) + "\nStatus: "@ + disposition_words(decision.disposition) + "\nRule: "@ + or_text(
        decision.matched_rule,
        "-"@,
    ) + "\nAction: "@ + action_text(decision.action) + "\nIn use: "@ + flag_words(
        decision.resource.referenced,
    ) + "\nDangling: "@ + flag_words(decision.resource.dangling) + "\nDocker's own: "@ + flag_words(
        decision.resource.system,
    ) + "\n\nWhy:\n"@ + joined(clauses_of(decision.reason), "\n"@)
}

/// What the details say of a decision.
pub open spec fn detail_text(decision: DecisionView) -> Seq<char> {
    let labels = if decision.resource.labels.len() == 0 {
        Seq::empty()
    } else {
        "\n\nLabels:\n"@ + label_lines(decision.resource.labels)
    };
    let mounts = if decision.resource.mounts.len() == 0 {
        Seq::empty()
    } else {
        "\nMounts:\n"@ + text_lines(decision.resource.mounts)
    };
    detail_head(decision) + labels + mounts
}

fn write_detail_head(decision: &Decision) -> (text: String)
    ensures
        text@ == detail_head(decision@),
{
    let resource = &decision.resource;
    let mut text = resource.name.clone();
    text.append("\n\nType: ");
    text.append(resource.kind.as_text());
    text.append("\nID: ");
    text.append(resource.id.as_str());
    text.append("\nState: ");
    text.append(resource.state.as_text().as_str());
    text.append("\nAge: ");
    text.append(format_age(decision.age_seconds).as_str());
    text.append("\nSize: ");
    text.append(format_size(resource.size, "unknown").as_str());
    text.append("\nStatus: ");
    text.append(plain_disposition(decision.disposition));
    text.append("\nRule: ");
    text.append(text_or(&decision.matched_rule, "-").as_str());
    text.append("\nAction: ");
    text.append(decision.action.as_text());
    text.append("\nIn use: ");
    text.append(yes_no(resource.referenced));
    text.append("\nDangling: ");
    text.append(yes_no(resource.dangling));
    text.append("\nDocker's own: ");
    text.append(yes_no(resource.system));
    text.append("\n\nWhy:\n");
    text.append(join(&reason_clauses(decision.reason.as_str()), "\n").as_str());
    text
}

/// Writes out everything that is known of a resource and why it is kept or
/// removed.
pub fn resource_detail(decision: &Decision) -> (text: String)
    ensures
        text@ == detail_text(decision@),
{
    broadcast use group_views;

    let resource = &decision.resource;
    let ghost labels = decision@.resource.labels;
    let ghost mounts = decision@.resource.mounts;
    let ghost head = detail_head(decision@);
    let mut text = write_detail_head(decision);
    let count: usize = resource.labels.len();
    if count > 0 {
        text.append("\n\nLabels:\n");
        let ghost start = text@;
        let mut index: usize = 0;
        assert(label_lines(labels.take(0)) =~= Seq::empty());
        assert(text@ =~= start + label_lines(labels.take(0)));
        while index < count
            invariant
                index <= count,
                count == labels.len(),
                labels == resource.labels@,
                text@ == start + label_lines(labels.take(index as int)),
            decreases count - index,
        {
            let ghost before = text@;
            assert(labels.take(index as int + 1).drop_last() =~= labels.take(index as int));
            assert(labels.take(index as int + 1).last() == labels[index as int]);
            text.append(resource.labels.key_at(index).as_str());
            text.append("=");
            text.append(resource.labels.value_at(index).as_str());
            text.append("\n");
            index += 1;
            assert(text@ =~= start + label_lines(labels.take(index as int)));
        }
        assert(labels.take(index as int) =~= labels);
        assert(text@ =~= head + ("\n\nLabels:\n"@ + label_lines(labels)));
    } else {
        assert(text@ =~= head + Seq::<char>::empty());
    }
    let ghost middle = text@;
    if resource.mounts.len() > 0 {
        text.append("\nMounts:\n");
        let ghost start = text@;
        let mut index: usize = 0;
        assert(text_lines(mounts.take(0)) =~= Seq::empty());
        assert(text@ =~= start + text_lines(mounts.take(0)));
        while index < resource.mounts.len()
            invariant
                index <= resource.mounts@.len(),
                mounts == views(resource.mounts@),
                text@ == start + text_lines(mounts.take(index as int)),
            decreases resource.mounts@.len() - index,
        {
            assert(mounts.take(index as int + 1).drop_last() =~= mounts.take(index as int));
            assert(mounts.take(index as int + 1).last() == mounts[index as int]);
            text.append(resource.mounts[index].as_str());
            text.append("\n");
            index += 1;
            assert(text@ =~= start + text_lines(mounts.take(index as int)));
        }
        assert(mounts.take(index as int) =~= mounts);
        assert(text@ =~= middle + ("\nMounts:\n"@ + text_lines(mounts)));
    } else {
        assert(text@ =~= middle + Seq::<char>::empty());
    }
    text
}

/// What a pass looks like in the activity log.
pub open spec fn pass_line(pass: CompletedPassView) -> Seq<char> {
    timestamp_text(pass.completed_at) + " \u{b7} "@ + pass.source + " pass \u{b7} removed "@
        + decimal(pass.removed_count as nat) + " \u{b7} skipped "@ + decimal(
        pass.skipped_count as nat,
    ) + " \u{b7} failed "@ + decimal(pass.failure_count as nat) + " \u{b7} freed "@ + bytes_text(
        pass.reclaimed_bytes,
    )
}

/// What the actions of a pass look like in the activity log.
pub open spec fn action_lines(events: Seq<EventView>) -> Seq<Seq<char>>
    decreases events.len(),
{
    if events.len() == 0 {
        Seq::empty()
    } else {
        let before = action_lines(events.drop_last());
        match events.last().data {
            EventDataView::Action {
                action,
                resource_kind,
                resource_name,
                matched_rule,
                freed_bytes,
                ..
            } => before.push(
                "  "@ + padded(action, 8) + " "@ + padded(resource_kind, 12) + " "@ + resource_name
                    + " \u{b7} "@ + matched_rule + " \u{b7} "@ + bytes_text(freed_bytes),
            ),
            _ => before,
        }
    }
}

/// A pass with its actions.
pub open spec fn pass_lines(pass: CompletedPassView) -> Seq<Seq<char>> {
    seq![pass_line(pass)] + action_lines(pass.actions)
}

/// Passes, the newest first.
pub open spec fn history_lines(history: Seq<CompletedPassView>) -> Seq<Seq<char>>
    decreases history.len(),
{
    if history.len() == 0 {
        Seq::empty()
    } else {
        pass_lines(history.last()) + history_lines(history.drop_last())
    }
}

/// The activity log, which says so where it is empty.
pub open spec fn log_lines(history: Seq<CompletedPassView>) -> Seq<Seq<char>> {
    if history.len() == 0 {
        seq!["No completed cleanup passes recorded."@]
    } else {
        history_lines(history)
    }
}

fn write_pass_line(pass: &CompletedPass) -> (line: String)
    requires
        pass.completed_at < TIMESTAMP_END,
    ensures
        line@ == pass_line(pass@),
{
    let mut line = format_timestamp(pass.completed_at);
    line.append(" \u{b7} ");
    line.append(pass.source.as_str());
    line.append(" pass \u{b7} removed ");
    line.append(decimal_text(pass.removed_count).as_str());
    line.append(" \u{b7} skipped ");
    line.append(decimal_text(pass.skipped_count).as_str());
    line.append(" \u{b7} failed ");
    line.append(decimal_text(pass.failure_count).as_str());
    line.append(" \u{b7} freed ");
    line.append(format_bytes(pass.reclaimed_bytes).as_str());
    line
}

fn add_action_lines(lines: &mut Vec<String>, events: &Vec<ActivityEvent>)
    ensures
        views(final(lines)@) == views(old(lines)@) + action_lines(views(events@)),
{
    broadcast use group_views;

    let ghost all = views(events@);
    let ghost start = views(lines@);
    let mut index: usize = 0;
    assert(action_lines(all.take(0)) =~= Seq::empty());
    assert(views(lines@) =~= start + action_lines(all.take(0)));
    while index < events.len()
        invariant
            index <= events@.len(),
            all == views(events@),
            views(lines@) == start + action_lines(all.take(index as int)),
        decreases events@.len() - index,
    {
        assert(all.take(index as int + 1).drop_last() =~= all.take(index as int));
        assert(all.take(index as int + 1).last() == events@[index as int]@);
        let ghost listed = views(lines@);
        match &events[index].data {
            EventData::Action {
                action,
                resource_kind,
                resource_name,
                matched_rule,
                freed_bytes,
                ..
            } => {
                let mut line = "  ".to_owned();
                line.append(pad(action.as_str(), 8).as_str());
                line.append(" ");
                line.append(pad(resource_kind.as_str(), 12).as_str());
                line.append(" ");
                line.append(resource_name.as_str());
                line.append(" \u{b7} ");
                line.append(matched_rule.as_str());
                line.append(" \u{b7} ");
                line.append(format_bytes(*freed_bytes).as_str());
                lines.push(line);
                assert(views(lines@) == listed.push(line@));
            },
            _ => {},
        }
        assert(views(lines@) =~= start + action_lines(all.take(index as int + 1)));
        index += 1;
    }
    assert(all.take(index as int) =~= all);
}

/// Every line of the activity log, the newest pass first.
pub fn activity_lines(history: &Vec<CompletedPass>) -> (lines: Vec<String>)
    requires
        forall|i: int|
            0 <= i < history@.len() ==> (#[trigger] history@[i]).completed_at < TIMESTAMP_END,
    ensures
        views(lines@) == log_lines(views(history@)),
{
    broadcast use group_views;

    let ghost all = views(history@);
    let mut lines: Vec<String> = Vec::new();
    let mut left: usize = history.len();
    assert(all.take(left as int) =~= all);
    assert(views(lines@) + history_lines(all) =~= history_lines(all));
    while left > 0
        invariant
            left <= history@.len(),
            all == views(history@),
            views(lines@) + history_lines(all.take(left as int)) == history_lines(all),
            left < history@.len() ==> lines@.len() > 0,
            forall|i: int|
                0 <= i < history@.len() ==> (#[trigger] history@[i]).completed_at < TIMESTAMP_END,
        decreases left,
    {
        let pass = &history[left - 1];
        let ghost listed = views(lines@);
        let ghost rest = history_lines(all.take(left as int - 1));
        assert(all.take(left as int).drop_last() =~= all.take(left as int - 1));
        assert(all.take(left as int).last() == pass@);
        lines.push(write_pass_line(pass));
        add_action_lines(&mut lines, &pass.actions);
        assert(views(lines@) + rest =~= listed + (pass_lines(pass@) + rest));
        left -= 1;
    }
    assert(all.take(0) =~= Seq::empty());
    assert(views(lines@) + Seq::<Seq<char>>::empty() =~= views(lines@));
    if history.len() == 0 {
        lines.push("No completed cleanup passes recorded.".to_owned());
        assert(views(lines@) =~= log_lines(all));
    }
    lines
}

proof fn lemma_history_lines_grow(history: Seq<CompletedPassView>, count: int)
    requires
        0 <= count <= history.len(),
    ensures
        history_lines(history.skip(count)).len() + history_lines(history.take(count)).len()
            == history_lines(history).len(),
    decreases history.len(),
{
    if count == history.len() {
        assert(history.take(count) =~= history);
        assert(history.skip(count) =~= Seq::empty());
    } else {
        lemma_history_lines_grow(history.drop_last(), count);
        assert(history.drop_last().take(count) =~= history.take(count));
        assert(history.skip(count).drop_last() =~= history.drop_last().skip(count));
        assert(history.skip(count).last() == history.last());
    }
}

/// The farthest that a list of lines can be scrolled: to its last line.
pub open spec fn scroll_end(count: nat) -> u16 {
    if count == 0 {
        0
    } else if count - 1 > u16::MAX {
        u16::MAX
    } else {
        (count - 1) as u16
    }
}

fn count_action_lines(events: &Vec<ActivityEvent>) -> (count: u32)
    ensures
        action_lines(views(events@)).len() <= 0x10000 ==> count == action_lines(
            views(events@),
        ).len(),
        action_lines(views(events@)).len() > 0x10000 ==> count > 0x10000,
        count <= 0x10001,
{
    broadcast use group_views;

    let ghost all = views(events@);
    let mut count: u32 = 0;
    let mut index: usize = 0;
    assert(action_lines(all.take(0)) =~= Seq::empty());
    while index < events.len()
        invariant
            index <= events@.len(),
            all == views(events@),
            count <= 0x10000,
            count == action_lines(all.take(index as int)).len(),
        decreases events@.len() - index,
    {
        assert(all.take(index as int + 1).drop_last() =~= all.take(index as int));
        assert(all.take(index as int + 1).last() == events@[index as int]@);
        if let EventData::Action { .. } = &events[index].data {
            count += 1;
        }
        index += 1;
        if count > 0x10000 {
            proof {
                lemma_action_lines_grow(all, index as int);
            }
            return count;
        }
    }
    assert(all.take(index as int) =~= all);
    count
}

proof fn lemma_action_lines_grow(events: Seq<EventView>, count: int)
    requires
        0 <= count <= events.len(),
    ensures
        action_lines(events.take(count)).len() <= action_lines(events).len(),
    decreases events.len(),
{
    if count == events.len() {
        assert(events.take(count) =~= events);
    } else {
        lemma_action_lines_grow(events.drop_last(), count);
        assert(events.drop_last().take(count) =~= events.take(count));
    }
}

/// How far the activity log can be scrolled.
pub fn activity_scroll_end(history: &Vec<CompletedPass>) -> (end: u16)
    ensures
        end == scroll_end(log_lines(views(history@)).len()),
{
    broadcast use group_views;

    let ghost all = views(history@);
    let mut count: u32 = 0;
    let mut index: usize = 0;
    assert(history_lines(all.take(0)) =~= Seq::empty());
    while index < history.len()
        invariant
            index <= history@.len(),
            all == views(history@),
            count <= 0x10000,
            count == history_lines(all.take(index as int)).len(),
        decreases history@.len() - index,
    {
        assert(all.take(index as int + 1).drop_last() =~= all.take(index as int));
        assert(all.take(index as int + 1).last() == history@[index as int]@);
        let more: u32 = count_action_lines(&history[index].actions);
        proof {
            lemma_history_lines_grow(all, index as int + 1);
            assert(pass_lines(history@[index as int]@).len() == 1 + action_lines(
                views(history@[index as int].actions@),
            ).len());
        }
        count += 1 + more;
        index += 1;
        if count > 0x10000 {
            return 0xffff;
        }
    }
    assert(all.take(index as int) =~= all);
    if count == 0 {
        0
    } else {
        (count - 1) as u16
    }
}

/// The title of the activity log.
pub open spec fn log_title(count: nat) -> Seq<char> {
    if count == 1 {
        "Activity log \u{2022} 1 completed pass"@
    } else {
        "Activity log \u{2022} "@ + decimal(count) + " completed passes"@
    }
}

/// The title of the activity log.
pub fn activity_title(history: &Vec<CompletedPass>) -> (title: String)
    ensures
        title@ == log_title(history@.len()),
{
    if history.len() == 1 {
        "Activity log \u{2022} 1 completed pass".to_owned()
    } else {
        concat3("Activity log \u{2022} ", count_text(history.len()).as_str(), " completed passes")
    }
}

/// What an execution came to.
pub open spec fn execution_words(outcomes: Seq<OutcomeView>) -> Seq<char> {
    "Done: removed "@ + decimal(status_count(outcomes, TargetStatus::Removed)) + ", skipped "@
        + decimal(status_count(outcomes, TargetStatus::Skipped)) + ", failed "@ + decimal(
        status_count(outcomes, TargetStatus::Failed),
    )
}

/// Says what an execution came to.
pub fn execution_status(report: &ExecutionReport) -> (words: String)
    ensures
        words@ == execution_words(report@),
{
    let removed: usize = report.count(TargetStatus::Removed);
    let skipped: usize = report.count(TargetStatus::Skipped);
    let failed: usize = report.count(TargetStatus::Failed);
    let mut words = "Done: removed ".to_owned();
    words.append(count_text(removed).as_str());
    words.append(", skipped ");
    words.append(count_text(skipped).as_str());
    words.append(", failed ");
    words.append(count_text(failed).as_str());
    words
}

/// What the dashboard says when it opens.
pub open spec fn startup_words(loaded: LoadedView, built_in: bool, decisions: Seq<DecisionView>) -> Seq<
    char,
> {
    if built_in {
        "No config found \u{2022} Setup opened \u{2022} proposed writes target "@ + loaded.path
    } else if loaded.config.rules.build_cache is Some {
        "Loaded "@ + loaded.path
            + " \u{2022} build cache is authorized without ownership evidence"@
    } else {
        "Loaded "@ + loaded.path + " \u{2022} "@ + decimal(removals_of(decisions).len())
            + " would be removed"@
    }
}

/// Says what was loaded when the dashboard opens.
pub fn startup_status(loaded: &LoadedConfig, built_in: bool, plan: &Plan) -> (words: String)
    ensures
        words@ == startup_words(loaded@, built_in, plan@),
{
    let path = loaded.path.as_str();
    if built_in {
        concat2(
            "No config found \u{2022} Setup opened \u{2022} proposed writes target ",
            path,
        )
    } else if loaded.config.rules.build_cache.is_some() {
        concat3(
            "Loaded ",
            path,
            " \u{2022} build cache is authorized without ownership evidence",
        )
    } else {
        concat5(
            "Loaded ",
            path,
            " \u{2022} ",
            count_text(plan.pending_count()).as_str(),
            " would be removed",
        )
    }
}

/// What identifies the targets of a plan.
pub open spec fn target_marks(decisions: Seq<DecisionView>) -> Seq<char>
    decreases decisions.len(),
{
    if decisions.len() == 0 {
        Seq::empty()
    } else {
        let before = target_marks(decisions.drop_last());
        if decisions.last().action == Action::Remove {
            before + ":"@ + kind_text(decisions.last().resource.kind) + ":"@
                + decisions.last().resource.id
        } else {
            before
        }
    }
}

/// What identifies a plan: the configuration, the moment, and every target.
pub open spec fn plan_identity(config_hash: Seq<char>, created_at: i64, decisions: Seq<DecisionView>) -> Seq<
    char,
> {
    config_hash + ":"@ + signed_decimal(created_at as int) + target_marks(decisions)
}

/// The id of a plan.
pub fn tui_plan_id(config_hash: &str, created_at: i64, plan: &Plan) -> (id: String)
    ensures
        id@ == text_hash(plan_identity(config_hash@, created_at, plan@)),
{
    broadcast use group_views;

    let ghost all = plan@;
    let mut identity = concat3(config_hash, ":", signed_text(created_at).as_str());
    let ghost start = identity@;
    let mut index: usize = 0;
    assert(target_marks(all.take(0)) =~= Seq::empty());
    assert(identity@ =~= start + target_marks(all.take(0)));
    while index < plan.decisions.len()
        invariant
            index <= plan.decisions@.len(),
            all == views(plan.decisions@),
            identity@ == start + target_marks(all.take(index as int)),
        decreases plan.decisions@.len() - index,
    {
        let decision = &plan.decisions[index];
        assert(all.take(index as int + 1).drop_last() =~= all.take(index as int));
        assert(all.take(index as int + 1).last() == decision@);
        if decision.action == Action::Remove {
            identity.append(":");
            identity.append(decision.resource.kind.as_text());
            identity.append(":");
            identity.append(decision.resource.id.as_str());
        }
        assert(identity@ =~= start + target_marks(all.take(index as int + 1)));
        index += 1;
    }
    assert(all.take(index as int) =~= all);
    stable_config_hash(identity.as_str())
}

/// What the plan keeps has no part in its identity.
pub proof fn plan_identity_is_its_targets(
    config_hash: Seq<char>,
    created_at: i64,
    decisions: Seq<DecisionView>,
)
    ensures
        plan_identity(config_hash, created_at, decisions) == plan_identity(
            config_hash,
            created_at,
            removals_of(decisions),
        ),
{
    lemma_marks_of_removals(decisions);
}

proof fn lemma_marks_of_removals(decisions: Seq<DecisionView>)
    ensures
        target_marks(decisions) == target_marks(removals_of(decisions)),
    decreases decisions.len(),
{
    if decisions.len() > 0 {
        let rest = decisions.drop_last();
        lemma_marks_of_removals(rest);
        if decisions.last().action == Action::Remove {
            let all = removals_of(decisions);
            assert(all.drop_last() =~= removals_of(rest));
            assert(all.last() == decisions.last());
        }
    }
}

/// How many decisions are on resources of a family.
pub open spec fn family_size(decisions: Seq<DecisionView>, key: Seq<char>, value: Seq<char>) -> nat
    decreases decisions.len(),
{
    if decisions.len() == 0 {
        0
    } else {
        family_size(decisions.drop_last(), key, value) + if family_pair(
            decisions.last().resource.labels,
        ) == Some((key, value)) {
            1nat
        } else {
            0nat
        }
    }
}

/// The value that protects a family, and how many resources of the plan it
/// covers.
pub fn family_protection_target(plan: &Plan, key: &str, value: &str) -> (target: (String, usize))
    ensures
        target.0@ == key@ + "="@ + value@,
        target.1 == family_size(plan@, key@, value@),
{
    broadcast use group_views;

    let ghost all = plan@;
    let mut members: usize = 0;
    let mut index: usize = 0;
    while index < plan.decisions.len()
        invariant
            index <= plan.decisions@.len(),
            members <= index,
            all == views(plan.decisions@),
            members == family_size(all.take(index as int), key@, value@),
        decreases plan.decisions@.len() - index,
    {
        let decision = &plan.decisions[index];
        assert(all.take(index as int + 1).drop_last() =~= all.take(index as int));
        assert(all.take(index as int + 1).last() == decision@);
        if let Some((held_key, held_value)) = family_label(&decision.resource) {
            if text_eq(held_key, key) && text_eq(held_value, value) {
                members += 1;
            }
        }
        index += 1;
    }
    assert(all.take(index as int) =~= all);
    (concat3(key, "=", value), members)
}

/// What a plan would free.
pub open spec fn reclaimable(decisions: Seq<DecisionView>) -> u64 {
    known_bytes(decided_sizes(removals_of(decisions)))
}

fn removal_bytes(plan: &Plan) -> (total: u64)
    ensures
        total == reclaimable(plan@),
{
    broadcast use group_views;

    let ghost all = plan@;
    let mut total: u64 = 0;
    let mut index: usize = 0;
    assert(removals_of(all.take(0)) =~= Seq::empty());
    assert(decided_sizes(removals_of(all.take(0))) =~= Seq::empty());
    while index < plan.decisions.len()
        invariant
            index <= plan.decisions@.len(),
            all == views(plan.decisions@),
            total == known_bytes(decided_sizes(removals_of(all.take(index as int)))),
        decreases plan.decisions@.len() - index,
    {
        let decision = &plan.decisions[index];
        let ghost before = removals_of(all.take(index as int));
        assert(all.take(index as int + 1).drop_last() =~= all.take(index as int));
        assert(all.take(index as int + 1).last() == decision@);
        if decision.action == Action::Remove {
            total = add_size(total, decision.resource.size, Ghost(decided_sizes(before)));
            assert(decided_sizes(before.push(decision@)) =~= decided_sizes(before).push(
                decision.resource.size,
            ));
        }
        index += 1;
    }
    assert(all.take(index as int) =~= all);
    total
}

/// What stands behind the program's name at the top of the screen.
pub open spec fn header_words(decisions: Seq<DecisionView>) -> Seq<char> {
    " \u{b7} "@ + decimal(removals_of(decisions).len()) + " to remove \u{b7} "@ + bytes_text(
        reclaimable(decisions),
    ) + " reclaimable"@
}

/// Says what a plan comes to.
pub fn header_text(plan: &Plan) -> (words: String)
    ensures
        words@ == header_words(plan@),
{
    concat5(
        " \u{b7} ",
        count_text(plan.pending_count()).as_str(),
        " to remove \u{b7} ",
        format_bytes(removal_bytes(plan)).as_str(),
        " reclaimable",
    )
}

/// What is said of the newest pass beside the panes' names.
pub open spec fn last_pass_words(history: Seq<CompletedPassView>) -> Option<Seq<char>> {
    if history.len() == 0 {
        None
    } else {
        Some(
            "\u{b7} last pass removed "@ + decimal(history.last().removed_count as nat)
                + ", freed "@ + bytes_text(history.last().reclaimed_bytes),
        )
    }
}

/// Says what the newest pass did.
pub fn last_pass_text(history: &Vec<CompletedPass>) -> (words: Option<String>)
    ensures
        opt_view(words) == last_pass_words(views(history@)),
{
    broadcast use group_views;

    let count: usize = history.len();
    if count == 0 {
        return None;
    }
    let last = &history[count - 1];
    Some(
        concat4(
            "\u{b7} last pass removed ",
            decimal_text(last.removed_count).as_str(),
            ", freed ",
            format_bytes(last.reclaimed_bytes).as_str(),
        ),
    )
}

/// A row of a list, as the parts that are drawn in different styles.
#[derive(Debug, PartialEq, Eq)]
pub struct RowText {
    /// The kind of the resource, padded.
    pub kind: String,
    pub name: String,
    /// What stands behind the name.
    pub status: String,
    /// The lines below.
    pub lines: Vec<String>,
    /// What asks for attention below them.
    pub notice: Option<String>,
}

/// What a row says.
#[verifier::ext_equal]
pub struct RowView {
    pub kind: Seq<char>,
    pub name: Seq<char>,
    pub status: Seq<char>,
    pub lines: Seq<Seq<char>>,
    pub notice: Option<Seq<char>>,
}

impl View for RowText {
    type V = RowView;

    open spec fn view(&self) -> RowView {
        RowView {
            kind: self.kind@,
            name: self.name@,
            status: self.status@,
            lines: views(self.lines@),
            notice: opt_view(self.notice),
        }
    }
}

/// What stands before a clause of a reason.
pub open spec fn clause_label(first: bool) -> Seq<char> {
    if first {
        "     why:  "@
    } else {
        "           "@
    }
}

/// The clauses of a reason, one line each.
pub open spec fn why_lines(clauses: Seq<Seq<char>>) -> Seq<Seq<char>> {
    Seq::new(clauses.len(), |i: int| clause_label(i == 0) + clauses[i])
}

/// The row of a resource that would be removed: how old and big it is, and
/// why.
pub open spec fn removal_row(decision: DecisionView) -> RowView {
    RowView {
        kind: padded(kind_text(decision.resource.kind), 13),
        name: decision.resource.name,
        status: Seq::empty(),
        lines: seq![
            "     "@ + age_text(decision.age_seconds) + " old \u{b7} "@ + size_words(
                decision.resource.size,
                "size unknown"@,
            ),
        ] + why_lines(clauses_of(decision.reason)),
        notice: if decision.disposition == Disposition::AuthorizedUnscoped {
            Some("     "@ + disposition_words(decision.disposition))
        } else {
            None
        },
    }
}

/// The row of a resource that is kept. Only an open one says why.
pub open spec fn keeping_row(decision: DecisionView, expanded: bool) -> RowView {
    RowView {
        kind: padded(kind_text(decision.resource.kind), 13),
        name: padded(cut(decision.resource.name, 27), 28),
        status: disposition_words(decision.disposition),
        lines: if expanded {
            seq![
                "     "@ + state_text(decision.resource.state) + " \u{b7} "@ + size_words(
                    decision.resource.size,
                    "size unknown"@,
                ),
            ] + why_lines(clauses_of(decision.reason))
        } else {
            Seq::empty()
        },
        notice: None,
    }
}

fn add_why_lines(lines: &mut Vec<String>, reason: &str)
    ensures
        views(final(lines)@) == views(old(lines)@) + why_lines(clauses_of(reason@)),
{
    broadcast use group_views;

    let clauses = reason_clauses(reason);
    let ghost wanted = why_lines(views(clauses@));
    let ghost start = views(lines@);
    let mut index: usize = 0;
    assert(views(lines@) =~= start + wanted.take(0));
    while index < clauses.len()
        invariant
            index <= clauses@.len(),
            wanted == why_lines(views(clauses@)),
            views(lines@) == start + wanted.take(index as int),
        decreases clauses@.len() - index,
    {
        let label = if index == 0 {
            "     why:  "
        } else {
            "           "
        };
        let line = concat2(label, clauses[index].as_str());
        assert(line@ == wanted[index as int]);
        let ghost listed = views(lines@);
        lines.push(line);
        assert(views(lines@) == listed.push(line@));
        assert(views(lines@) =~= start + wanted.take(index as int + 1));
        index += 1;
    }
    assert(wanted.take(index as int) =~= wanted);
}

/// The row of a resource that would be removed.
pub fn removal_entry(decision: &Decision) -> (row: RowText)
    ensures
        row@ == removal_row(decision@),
{
    broadcast use group_views;

    let mut lines: Vec<String> = Vec::new();
    lines.push(
        concat4(
            "     ",
            format_age(decision.age_seconds).as_str(),
            " old \u{b7} ",
            format_size(decision.resource.size, "size unknown").as_str(),
        ),
    );
    assert(views(lines@) =~= seq![lines@[0]@]);
    add_why_lines(&mut lines, decision.reason.as_str());
    let notice = if decision.disposition == Disposition::AuthorizedUnscoped {
        Some(concat2("     ", plain_disposition(decision.disposition)))
    } else {
        None
    };
    let row = RowText {
        kind: pad(decision.resource.kind.as_text(), 13),
        name: decision.resource.name.clone(),
        status: String::new(),
        lines,
        notice,
    };
    assert(row@ =~= removal_row(decision@));
    row
}

/// The row of a resource that is kept.
pub fn keeping_entry(decision: &Decision, expanded: bool) -> (row: RowText)
    ensures
        row@ == keeping_row(decision@, expanded),
{
    broadcast use group_views;

    let mut lines: Vec<String> = Vec::new();
    assert(views(lines@) =~= Seq::empty());
    if expanded {
        lines.push(
            concat4(
                "     ",
                decision.resource.state.as_text().as_str(),
                " \u{b7} ",
                format_size(decision.resource.size, "size unknown").as_str(),
            ),
        );
        assert(views(lines@) =~= seq![lines@[0]@]);
        add_why_lines(&mut lines, decision.reason.as_str());
    }
    let name = truncate(decision.resource.name.as_str(), 27);
    RowText {
        kind: pad(decision.resource.kind.as_text(), 13),
        name: pad(name.as_str(), 28),
        status: plain_disposition(decision.disposition).to_owned(),
        lines,
        notice: None,
    }
}

} // verus!
