//! What the commands decide and say: exit codes, warnings, reports.

use crate::activity::{CompletedPass, CompletedPassView};
use crate::config::{Config, ConfigView};
use crate::executor::{report_table, ExecutionReport, OutcomeView, TargetStatus};
use crate::machine::{action_records, actions_of, ActionRecord, ActionRecordView};
use crate::outside::{quote, quoted, regex_is_match, regex_matches};
use crate::plan::{
    disposition_count, plan_table, removals_of, Action, DecisionView, Disposition, Plan,
};
use crate::state::{below, join_path, protection_text, ProtectionKind};
use crate::text::{
    chars_of, concat2, concat3, count_text, decimal, decimal_text, find_text, first_at,
    group_views, is_empty_text, opt_view, pieces, signed_decimal, signed_text, split, starts_with,
    text_eq, text_of, trim, trimmed, views,
};
use vstd::prelude::*;
use vstd::string::*;

verus! {

pub const EXIT_PENDING: u8 = 1;

pub const EXIT_PARTIAL: u8 = 2;

pub const EXIT_CONFIG: u8 = 3;

pub const EXIT_DOCKER: u8 = 5;

pub const EXIT_STATE: u8 = 6;

pub const EXIT_INTERNAL: u8 = 7;

pub const EXIT_USAGE: u8 = 64;

/// How a command that ran to its end came out.
#[derive(Debug, Clone, Copy, PartialEq, Eq, Structural)]
pub enum RunOutcome {
    Success,
    PendingRemovals,
    PartialFailure,
}

/// Where a command failed.
#[derive(Debug, Clone, Copy, PartialEq, Eq, Structural)]
pub enum Failure {
    Config,
    Docker,
    State,
    Internal,
    /// The output could not be written; a reader that has gone is no fault.
    Output { broken_pipe: bool },
}

/// The exit code of an outcome.
pub open spec fn outcome_code(outcome: RunOutcome) -> u8 {
    match outcome {
        RunOutcome::Success => 0,
        RunOutcome::PendingRemovals => EXIT_PENDING,
        RunOutcome::PartialFailure => EXIT_PARTIAL,
    }
}

/// The exit code of a failure.
pub open spec fn failure_code(failure: Failure) -> u8 {
    match failure {
        Failure::Config => EXIT_CONFIG,
        Failure::Docker => EXIT_DOCKER,
        Failure::State => EXIT_STATE,
        Failure::Internal => EXIT_INTERNAL,
        Failure::Output { broken_pipe } => if broken_pipe {
            0
        } else {
            EXIT_INTERNAL
        },
    }
}

impl RunOutcome {
    /// The exit code of the outcome.
    pub fn exit_code(self) -> (code: u8)
        ensures
            code == outcome_code(self),
    {
        match self {
            RunOutcome::Success => 0,
            RunOutcome::PendingRemovals => EXIT_PENDING,
            RunOutcome::PartialFailure => EXIT_PARTIAL,
        }
    }
}

/// The exit code of output that could not be written.
pub fn output_error_exit_code(broken_pipe: bool) -> (code: u8)
    ensures
        code == failure_code(Failure::Output { broken_pipe }),
{
    if broken_pipe {
        0
    } else {
        EXIT_INTERNAL
    }
}

impl Failure {
    /// The exit code of the failure.
    pub fn exit_code(self) -> (code: u8)
        ensures
            code == failure_code(self),
    {
        match self {
            Failure::Config => EXIT_CONFIG,
            Failure::Docker => EXIT_DOCKER,
            Failure::State => EXIT_STATE,
            Failure::Internal => EXIT_INTERNAL,
            Failure::Output { broken_pipe } => output_error_exit_code(broken_pipe),
        }
    }
}

/// No failure but a reader that has gone looks like an outcome, and different
/// outcomes have different codes.
pub proof fn exit_codes_tell_apart(outcome: RunOutcome, other: RunOutcome, failure: Failure)
    ensures
        outcome_code(outcome) == outcome_code(other) ==> outcome == other,
        failure_code(failure) == outcome_code(outcome) ==> failure == (Failure::Output {
            broken_pipe: true,
        }) && outcome == RunOutcome::Success,
{
}

/// What is said before a configuration with a build-cache rule is applied.
pub const CACHE_NOTICE: &'static str =
    "warning: build-cache policy is authorized-unscoped because Docker cache records have no ownership metadata";

/// What is to be said of a configuration before it is applied.
pub fn policy_warning(config: &Config) -> (warning: Option<&'static str>)
    ensures
        match warning {
            Some(words) => config@.rules.build_cache is Some && words@ == CACHE_NOTICE@,
            None => config@.rules.build_cache is None,
        },
{
    if config.rules.build_cache.is_some() {
        Some(CACHE_NOTICE)
    } else {
        None
    }
}

/// How many removals go beyond what rules own.
pub open spec fn unscoped_removals(decisions: Seq<DecisionView>) -> nat {
    disposition_count(removals_of(decisions), Disposition::AuthorizedUnscoped)
}

fn count_unscoped(plan: &Plan) -> (count: usize)
    ensures
        count == unscoped_removals(plan@),
{
    broadcast use group_views;

    let ghost all = plan@;
    let mut count: usize = 0;
    let mut index: usize = 0;
    assert(removals_of(all.take(0)).len() == 0);
    while index < plan.decisions.len()
        invariant
            index <= plan.decisions@.len(),
            all == views(plan.decisions@),
            count <= index,
            count == unscoped_removals(all.take(index as int)),
        decreases plan.decisions@.len() - index,
    {
        let decision = &plan.decisions[index];
        let ghost so_far = removals_of(all.take(index as int));
        proof {
            assert(all.take(index as int + 1).drop_last() =~= all.take(index as int));
            assert(all.take(index as int + 1).last() == decision@);
            assert(so_far.push(decision@).drop_last() =~= so_far);
        }
        if decision.action == Action::Remove && decision.disposition
            == Disposition::AuthorizedUnscoped {
            count += 1;
        }
        index += 1;
    }
    assert(all.take(index as int) =~= all);
    count
}

/// How a command goes on once the plan is known.
#[derive(Debug, PartialEq, Eq)]
pub enum CleanupStep {
    /// It shows the plan and ends.
    Show { output: String, outcome: RunOutcome },
    /// It applies the plan, after a warning where one is due. Where nothing is
    /// to be removed there is nothing to execute.
    Apply { warning: Option<String>, execute: bool },
}

/// Decides whether the plan is shown or applied: only a cleanup that was told
/// to apply changes anything.
pub fn cleanup_step(clean_command: bool, apply: bool, plan: &Plan) -> (step: CleanupStep)
    ensures
        if clean_command && apply {
            step matches CleanupStep::Apply { warning, execute } && execute == (removals_of(
                plan@,
            ).len() > 0) && opt_view(warning) == if unscoped_removals(plan@) == 0 {
                None
            } else {
                Some(
                    "warning: applying "@ + decimal(unscoped_removals(plan@))
                        + " authorized-unscoped removal(s)"@,
                )
            }
        } else {
            step matches CleanupStep::Show { output, outcome } && output@ == plan_table(plan@)
                && outcome == if removals_of(plan@).len() > 0 {
                RunOutcome::PendingRemovals
            } else {
                RunOutcome::Success
            }
        },
{
    if !clean_command || !apply {
        return CleanupStep::Show {
            output: plan.render_table(),
            outcome: if plan.has_pending_removals() {
                RunOutcome::PendingRemovals
            } else {
                RunOutcome::Success
            },
        };
    }
    let unscoped: usize = count_unscoped(plan);
    CleanupStep::Apply {
        warning: if unscoped == 0 {
            None
        } else {
            Some(
                concat3(
                    "warning: applying ",
                    count_text(unscoped).as_str(),
                    " authorized-unscoped removal(s)",
                ),
            )
        },
        execute: plan.has_pending_removals(),
    }
}

/// Whether some target was not removed.
pub open spec fn fell_short(outcomes: Seq<OutcomeView>) -> bool {
    exists|i: int| 0 <= i < outcomes.len() && (#[trigger] outcomes[i]).status != TargetStatus::Removed
}

/// What an applied cleanup shows and how it ends.
pub fn cleanup_result(plan: &Plan, report: &ExecutionReport) -> (result: (String, RunOutcome))
    ensures
        result.0@ == if removals_of(plan@).len() > 0 {
            report_table(report@)
        } else {
            plan_table(plan@)
        },
        result.1 == if fell_short(report@) {
            RunOutcome::PartialFailure
        } else {
            RunOutcome::Success
        },
{
    let output = if plan.has_pending_removals() {
        report.render_table()
    } else {
        plan.render_table()
    };
    let outcome = if report.has_partial_failure() {
        RunOutcome::PartialFailure
    } else {
        RunOutcome::Success
    };
    (output, outcome)
}

/// The line of an action in a status report.
pub open spec fn action_line(record: ActionRecordView) -> Seq<char> {
    "  "@ + record.action + " "@ + record.resource_kind + " "@ + record.resource_name + " rule="@
        + record.matched_rule + " freed_bytes="@ + decimal(record.freed_bytes as nat) + "\n"@
}

/// The lines of actions in a status report.
pub open spec fn action_lines(records: Seq<ActionRecordView>) -> Seq<char>
    decreases records.len(),
{
    if records.len() == 0 {
        Seq::empty()
    } else {
        action_lines(records.drop_last()) + action_line(records.last())
    }
}

/// What a status report says of the last pass.
pub open spec fn pass_text(pass: CompletedPassView) -> Seq<char> {
    "Last completed cleanup pass: "@ + pass.pass_id + " ("@ + signed_decimal(pass.started_at as int)
        + " to "@ + signed_decimal(pass.completed_at as int) + ", source="@ + pass.source
        + ", config="@ + pass.config_hash + ")\n"@ + action_lines(actions_of(pass.actions))
        + "Last result: removed="@ + decimal(pass.removed_count as nat) + ", skipped="@ + decimal(
        pass.skipped_count as nat,
    ) + ", failed="@ + decimal(pass.failure_count as nat) + ", reclaimed_bytes="@ + decimal(
        pass.reclaimed_bytes as nat,
    ) + "\n"@
}

/// What a status report says of the inventory.
pub open spec fn inventory_text(decisions: Seq<DecisionView>, protection_entries: nat) -> Seq<char> {
    "Inventory: total="@ + decimal(decisions.len()) + ", protected="@ + decimal(
        disposition_count(decisions, Disposition::Protected),
    ) + ", owned="@ + decimal(disposition_count(decisions, Disposition::Owned))
        + ", authorized-unscoped="@ + decimal(
        disposition_count(decisions, Disposition::AuthorizedUnscoped),
    ) + ", unowned="@ + decimal(disposition_count(decisions, Disposition::Unowned)) + ", pending="@
        + decimal(removals_of(decisions).len()) + "\nRuntime protection entries: "@ + decimal(
        protection_entries,
    ) + "\n"@
}

/// A status report.
pub open spec fn status_report(
    decisions: Seq<DecisionView>,
    protection_entries: nat,
    last: Option<CompletedPassView>,
) -> Seq<char> {
    inventory_text(decisions, protection_entries) + match last {
        Some(pass) => pass_text(pass),
        None => "Last completed cleanup pass: none\n"@,
    }
}

fn count_disposition(plan: &Plan, disposition: Disposition) -> (count: usize)
    ensures
        count == disposition_count(plan@, disposition),
{
    broadcast use group_views;

    let ghost all = plan@;
    let mut count: usize = 0;
    let mut index: usize = 0;
    while index < plan.decisions.len()
        invariant
            index <= plan.decisions@.len(),
            all == views(plan.decisions@),
            count <= index,
            count == disposition_count(all.take(index as int), disposition),
        decreases plan.decisions@.len() - index,
    {
        assert(all.take(index as int + 1).drop_last() =~= all.take(index as int));
        assert(all.take(index as int + 1).last() == plan.decisions@[index as int]@);
        if plan.decisions[index].disposition == disposition {
            count += 1;
        }
        index += 1;
    }
    assert(all.take(index as int) =~= all);
    count
}

fn push_action_line(output: &mut String, record: &ActionRecord)
    ensures
        final(output)@ == old(output)@ + action_line(record@),
{
    let mut line = concat2("  ", record.action.as_str());
    line.append(" ");
    line.append(record.resource_kind.as_str());
    line.append(" ");
    line.append(record.resource_name.as_str());
    line.append(" rule=");
    line.append(record.matched_rule.as_str());
    line.append(" freed_bytes=");
    line.append(decimal_text(record.freed_bytes).as_str());
    line.append("\n");
    output.append(line.as_str());
}

fn write_actions(records: &Vec<ActionRecord>) -> (text: String)
    ensures
        text@ == action_lines(views(records@)),
{
    broadcast use group_views;

    let ghost all = views(records@);
    let mut text = String::new();
    let mut index: usize = 0;
    assert(text@ =~= action_lines(all.take(0)));
    while index < records.len()
        invariant
            index <= records@.len(),
            all == views(records@),
            text@ == action_lines(all.take(index as int)),
        decreases records@.len() - index,
    {
        assert(all.take(index as int + 1).drop_last() =~= all.take(index as int));
        assert(all.take(index as int + 1).last() == records@[index as int]@);
        push_action_line(&mut text, &records[index]);
        index += 1;
    }
    assert(all.take(index as int) =~= all);
    text
}

fn write_pass(pass: &CompletedPass) -> (text: String)
    ensures
        text@ == pass_text(pass@),
{
    let mut text = concat2("Last completed cleanup pass: ", pass.pass_id.as_str());
    text.append(" (");
    text.append(signed_text(pass.started_at).as_str());
    text.append(" to ");
    text.append(signed_text(pass.completed_at).as_str());
    text.append(", source=");
    text.append(pass.source.as_str());
    text.append(", config=");
    text.append(pass.config_hash.as_str());
    text.append(")\n");
    text.append(write_actions(&action_records(&pass.actions)).as_str());
    text.append("Last result: removed=");
    text.append(decimal_text(pass.removed_count).as_str());
    text.append(", skipped=");
    text.append(decimal_text(pass.skipped_count).as_str());
    text.append(", failed=");
    text.append(decimal_text(pass.failure_count).as_str());
    text.append(", reclaimed_bytes=");
    text.append(decimal_text(pass.reclaimed_bytes).as_str());
    text.append("\n");
    text
}

/// Writes a status report.
pub fn render_status(plan: &Plan, runtime_protection_count: usize, last: Option<&CompletedPass>) -> (report:
    String)
    ensures
        report@ == status_report(
            plan@,
            runtime_protection_count as nat,
            match last {
                Some(pass) => Some(pass@),
                None => None,
            },
        ),
{
    broadcast use group_views;

    let mut report = concat2("Inventory: total=", count_text(plan.decisions.len()).as_str());
    report.append(", protected=");
    report.append(count_text(count_disposition(plan, Disposition::Protected)).as_str());
    report.append(", owned=");
    report.append(count_text(count_disposition(plan, Disposition::Owned)).as_str());
    report.append(", authorized-unscoped=");
    report.append(count_text(count_disposition(plan, Disposition::AuthorizedUnscoped)).as_str());
    report.append(", unowned=");
    report.append(count_text(count_disposition(plan, Disposition::Unowned)).as_str());
    report.append(", pending=");
    report.append(count_text(plan.pending_count()).as_str());
    report.append("\nRuntime protection entries: ");
    report.append(count_text(runtime_protection_count).as_str());
    report.append("\n");
    match last {
        Some(pass) => {
            report.append(write_pass(pass).as_str());
        },
        None => {
            report.append("Last completed cleanup pass: none\n");
        },
    }
    report
}

/// Whether a line sets the key `names`.
pub open spec fn sets_names(line: Seq<char>) -> bool {
    match first_at(line, "="@) {
        Some(at) => trimmed(line.take(at)) == "names"@,
        None => false,
    }
}

/// The number of the line that sets `names` in the table `protect`.
pub open spec fn names_line(lines: Seq<Seq<char>>, number: nat, inside: bool) -> Option<nat>
    decreases lines.len(),
{
    if lines.len() == 0 {
        None
    } else {
        let line = trimmed(lines[0]);
        let rest = lines.drop_first();
        if line == "[protect]"@ {
            names_line(rest, number + 1, true)
        } else if inside && "["@.is_prefix_of(line) {
            None
        } else if inside && sets_names(line) {
            Some(number + 1)
        } else {
            names_line(rest, number + 1, inside)
        }
    }
}

fn line_sets_names(line: &str) -> (found: bool)
    ensures
        found == sets_names(line@),
{
    match find_text(line, "=") {
        Some(at) => {
            let characters = chars_of(line);
            let key = text_of(&characters, 0, at);
            assert(key@ =~= line@.take(at as int));
            text_eq(trim(key.as_str()).as_str(), "names")
        },
        None => false,
    }
}

/// Finds the line of a source that sets `names` in the table `protect`,
/// counted from one.
pub fn protect_names_line(source: &str) -> (number: Option<usize>)
    ensures
        match number {
            Some(line) => names_line(pieces(source@, '\n'), 0, false) == Some(line as nat),
            None => names_line(pieces(source@, '\n'), 0, false) is None,
        },
{
    broadcast use group_views;

    let lines = split(source, '\n');
    let ghost all = views(lines@);
    let mut inside = false;
    let mut index: usize = 0;
    let total: usize = lines.len();
    assert(all.skip(0) =~= all);
    while index < lines.len()
        invariant
            index <= lines@.len(),
            total == lines@.len(),
            all == views(lines@),
            all == pieces(source@, '\n'),
            names_line(all, 0, false) == names_line(all.skip(index as int), index as nat, inside),
        decreases lines@.len() - index,
    {
        let line = trim(lines[index].as_str());
        assert(all.skip(index as int)[0] == lines@[index as int]@);
        assert(all.skip(index as int).drop_first() =~= all.skip(index as int + 1));
        if text_eq(line.as_str(), "[protect]") {
            inside = true;
        } else if inside && starts_with(line.as_str(), "[") {
            return None;
        } else if inside && line_sets_names(line.as_str()) {
            return Some(index + 1);
        }
        index += 1;
    }
    None
}

/// The first pattern that a value matches.
pub open spec fn matching_pattern(patterns: Seq<Seq<char>>, value: Seq<char>, from: int) -> Option<int>
    decreases patterns.len() - from,
{
    if from < 0 || from >= patterns.len() {
        None
    } else if regex_matches(patterns[from], value) {
        Some(from)
    } else {
        matching_pattern(patterns, value, from + 1)
    }
}

/// The first value that the configuration protects, with the pattern.
pub open spec fn protected_value(
    values: Seq<Seq<char>>,
    patterns: Seq<Seq<char>>,
    from: int,
) -> Option<(int, int)>
    decreases values.len() - from,
{
    if from < 0 || from >= values.len() {
        None
    } else {
        match matching_pattern(patterns, values[from], 0) {
            Some(pattern) => Some((from, pattern)),
            None => protected_value(values, patterns, from + 1),
        }
    }
}

/// A line number behind a path.
pub open spec fn line_suffix(source: Seq<char>) -> Seq<char> {
    match names_line(pieces(source, '\n'), 0, false) {
        Some(line) => ":"@ + decimal(line),
        None => Seq::empty(),
    }
}

/// Why a value cannot be unprotected: the configuration protects it.
pub open spec fn unprotect_refusal(
    kind: ProtectionKind,
    values: Seq<Seq<char>>,
    path: Seq<char>,
    source: Seq<char>,
    config: ConfigView,
) -> Option<Seq<char>> {
    match protected_value(values, config.protect.names, 0) {
        None => None,
        Some((value, pattern)) => Some(
            "cannot unprotect "@ + protection_text(kind) + " "@ + quoted(values[value])
                + ": it is protected by "@ + path + line_suffix(source) + " (protect.names["@
                + decimal(pattern as nat) + "]); edit that configuration entry"@,
        ),
    }
}

fn find_pattern(patterns: &Vec<String>, value: &str) -> (found: Option<usize>)
    ensures
        match found {
            Some(index) => matching_pattern(views(patterns@), value@, 0) == Some(index as int),
            None => matching_pattern(views(patterns@), value@, 0) is None,
        },
{
    broadcast use group_views;

    let ghost all = views(patterns@);
    let mut index: usize = 0;
    while index < patterns.len()
        invariant
            index <= patterns@.len(),
            all == views(patterns@),
            matching_pattern(all, value@, 0) == matching_pattern(all, value@, index as int),
        decreases patterns@.len() - index,
    {
        if regex_is_match(patterns[index].as_str(), value) {
            return Some(index);
        }
        index += 1;
    }
    None
}

/// Refuses to unprotect what the configuration itself protects.
pub fn refuse_config_sourced_unprotect(
    kind: ProtectionKind,
    values: &Vec<String>,
    path: &str,
    source: &str,
    config: &Config,
) -> (refusal: Option<String>)
    ensures
        opt_view(refusal) == unprotect_refusal(kind, views(values@), path@, source@, config@),
{
    broadcast use group_views;

    let ghost all = views(values@);
    let ghost patterns = config@.protect.names;
    let mut index: usize = 0;
    while index < values.len()
        invariant
            index <= values@.len(),
            all == views(values@),
            patterns == views(config.protect.names@),
            patterns == config@.protect.names,
            protected_value(all, patterns, 0) == protected_value(all, patterns, index as int),
        decreases values@.len() - index,
    {
        if let Some(pattern) = find_pattern(&config.protect.names, values[index].as_str()) {
            let mut words = concat3("cannot unprotect ", kind.as_text(), " ");
            words.append(quote(values[index].as_str()).as_str());
            words.append(": it is protected by ");
            words.append(path);
            if let Some(line) = protect_names_line(source) {
                let suffix = concat2(":", count_text(line).as_str());
                words.append(suffix.as_str());
            } else {
                assert(words@ =~= words@ + Seq::<char>::empty());
            }
            words.append(" (protect.names[");
            words.append(count_text(pattern).as_str());
            words.append("]); edit that configuration entry");
            return Some(words);
        }
        index += 1;
    }
    None
}

/// What a change of protection says.
pub fn protection_message(verb: &str, changed: usize, total: usize) -> (message: String)
    ensures
        message@ == "Protection state updated: "@ + verb@ + " "@ + decimal(changed as nat)
            + ", total "@ + decimal(total as nat) + ".\n"@,
{
    let mut message = concat3("Protection state updated: ", verb, " ");
    message.append(count_text(changed).as_str());
    message.append(", total ");
    message.append(count_text(total).as_str());
    message.append(".\n");
    message
}

/// The base of configuration files: the one set, else below the home
/// directory; an empty setting counts as none.
pub open spec fn config_base(
    config_home: Option<Seq<char>>,
    home: Option<Seq<char>>,
) -> Option<Seq<char>> {
    if config_home is Some && config_home->0.len() > 0 {
        config_home
    } else if home is Some && home->0.len() > 0 {
        Some(below(home->0, ".config"@))
    } else {
        None
    }
}

/// Finds the base of configuration files.
pub fn config_home(setting: &Option<String>, home: &Option<String>) -> (base: Option<String>)
    ensures
        opt_view(base) == config_base(opt_view(*setting), opt_view(*home)),
{
    if let Some(path) = setting {
        if !is_empty_text(path.as_str()) {
            return Some(path.clone());
        }
    }
    if let Some(path) = home {
        if !is_empty_text(path.as_str()) {
            return Some(join_path(path.as_str(), ".config"));
        }
    }
    None
}

} // verus!
