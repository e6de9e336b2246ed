//! What texts hold that are shown, and how texts are cut up.

use crate::applying::removals_are_the_decisions_to_remove;
use crate::chronicle::{how_many, lemma_how_many, word_of};
use crate::documents::{
    how_many_removed, lemma_removed, word_for_action, word_for_disposition,
};
use crate::executor::{report_row, report_rows, ExecutionReport, TargetStatus};
use crate::lines::{label_lines, resource_detail, text_lines};
use crate::plan::{plan_row, plan_rows, removals_of, Action, Decision, Plan};
use crate::surveying::word_for;
use crate::table::{row_text, table_text};
use crate::text::{
    decimal, is_space, joined, pieces, split, trim, trimmed_end, trimmed_start, views,
};
use crate::verdicts::lies_within;
use vstd::prelude::*;

verus! {

proof fn lemma_within(part: Seq<char>, left: Seq<char>, right: Seq<char>)
    ensures
        lies_within(part, left) || lies_within(part, right) ==> lies_within(part, left + right),
        lies_within(left, left),
{
    let both = left + right;
    let start: int = 0;
    assert(left.subrange(start, start + left.len()) =~= left);
    if lies_within(part, left) {
        let at = choose|at: int|
            0 <= at && at + part.len() <= left.len() && #[trigger] left.subrange(
                at,
                at + part.len(),
            ) == part;
        assert(both.subrange(at, at + part.len()) =~= left.subrange(at, at + part.len()));
    }
    if lies_within(part, right) {
        let at = choose|at: int|
            0 <= at && at + part.len() <= right.len() && #[trigger] right.subrange(
                at,
                at + part.len(),
            ) == part;
        let from = left.len() + at;
        assert(both.subrange(from, from + part.len()) =~= right.subrange(at, at + part.len()));
    }
}

proof fn lemma_row(rows: Seq<Seq<Seq<char>>>, row: Seq<Seq<char>>, count: int, cell: int)
    requires
        0 <= cell < count <= row.len(),
    ensures
        lies_within(row[cell], row_text(rows, row, count)),
    decreases count,
{
    let part = row[cell];
    let last = row[count - 1];
    let head = row_text(rows, row, count - 1);
    let before = head + last;
    if cell < count - 1 {
        lemma_row(rows, row, count - 1, cell);
    }
    lemma_within(part, part, Seq::empty());
    lemma_within(part, head, last);
    if count != row.len() {
        let gap = crate::text::spaces(
            (crate::table::column_width(rows, count - 1) - crate::table::byte_len(last)) as nat,
        );
        lemma_within(part, before, gap);
        lemma_within(part, before + gap, crate::text::spaces(2));
    }
}

proof fn lemma_table(rows: Seq<Seq<Seq<char>>>, count: int, row: int, cell: int)
    requires
        0 <= row < count <= rows.len(),
        0 <= cell < rows[row].len(),
    ensures
        lies_within(rows[row][cell], table_text(rows, count)),
    decreases count,
{
    let part = rows[row][cell];
    let head = table_text(rows, count - 1);
    let line = row_text(rows, rows[count - 1], rows[count - 1].len() as int);
    if row < count - 1 {
        lemma_table(rows, count - 1, row, cell);
    } else {
        lemma_row(rows, rows[row], rows[row].len() as int, cell);
    }
    lemma_within(part, head, line);
    lemma_within(part, head + line, "\n"@);
}

/// A plan that is shown holds the kind, the name, the footing, the rule, the action
/// and the reason of every removal, and how many there are.
pub proof fn a_shown_plan_holds_every_removal(plan: Plan, text: String, d: int)
    requires
        call_ensures(Plan::render_table, (&plan,), text),
        0 <= d < plan@.len(),
        plan@[d].action == Action::Remove,
    ensures
        lies_within(word_for(plan@[d].resource.kind), text@),
        lies_within(plan@[d].resource.name, text@),
        lies_within(word_for_disposition(plan@[d].disposition), text@),
        plan@[d].matched_rule is Some ==> lies_within(plan@[d].matched_rule->0, text@),
        lies_within(word_for_action(plan@[d].action), text@),
        lies_within(plan@[d].reason, text@),
        lies_within("Pending removals: "@ + decimal(how_many_removed(plan@)) + "\n"@, text@),
{
    let removals = removals_of(plan@);
    let decision = plan@[d];
    removals_are_the_decisions_to_remove(plan@, decision);
    assert(plan@.contains(decision));
    lemma_removed(plan@);
    let r = choose|r: int| 0 <= r < removals.len() && removals[r] == decision;
    let rows = plan_rows(removals);
    let count = removals.len() as int + 1;
    let table = table_text(rows, count);
    assert(rows[r + 1] == plan_row(decision));
    lemma_table(rows, count, r + 1, 0);
    lemma_table(rows, count, r + 1, 1);
    lemma_table(rows, count, r + 1, 4);
    lemma_table(rows, count, r + 1, 5);
    lemma_table(rows, count, r + 1, 6);
    lemma_table(rows, count, r + 1, 7);
    let number = "Pending removals: "@ + decimal(removals.len()) + "\n"@;
    lemma_plan_text(plan, text, word_for(decision.resource.kind));
    lemma_plan_text(plan, text, decision.resource.name);
    lemma_plan_text(plan, text, word_for_disposition(decision.disposition));
    if decision.matched_rule is Some {
        lemma_plan_text(plan, text, decision.matched_rule->0);
    }
    lemma_plan_text(plan, text, word_for_action(decision.action));
    lemma_plan_text(plan, text, decision.reason);
    lemma_plan_number(plan, text);
    assert(lies_within(number, text@));
}

proof fn lemma_plan_text(plan: Plan, text: String, part: Seq<char>)
    requires
        call_ensures(Plan::render_table, (&plan,), text),
        removals_of(plan@).len() > 0,
        lies_within(
            part,
            table_text(plan_rows(removals_of(plan@)), removals_of(plan@).len() as int + 1),
        ),
    ensures
        lies_within(part, text@),
{
    let removals = removals_of(plan@);
    let table = table_text(plan_rows(removals), removals.len() as int + 1);
    let unscoped = crate::plan::disposition_count(
        removals,
        crate::plan::Disposition::AuthorizedUnscoped,
    );
    let warning = if unscoped != 0 {
        "WARNING: "@ + decimal(unscoped)
            + " pending removal(s) use authorized-unscoped policy.\n\n"@
    } else {
        Seq::empty()
    };
    let counts = crate::plan::counts_text("Scanned"@, plan@);
    let a = warning + table;
    let b = a + "\n"@;
    let c = b + "Pending removals: "@;
    let e = c + decimal(removals.len());
    let f = e + "\n"@;
    let g = f + counts;
    assert(text@ == g + "\n"@);
    lemma_within(part, warning, table);
    lemma_within(part, a, "\n"@);
    lemma_within(part, b, "Pending removals: "@);
    lemma_within(part, c, decimal(removals.len()));
    lemma_within(part, e, "\n"@);
    lemma_within(part, f, counts);
    lemma_within(part, g, "\n"@);
}

proof fn lemma_plan_number(plan: Plan, text: String)
    requires
        call_ensures(Plan::render_table, (&plan,), text),
        removals_of(plan@).len() > 0,
    ensures
        lies_within("Pending removals: "@ + decimal(removals_of(plan@).len()) + "\n"@, text@),
{
    let removals = removals_of(plan@);
    let table = table_text(plan_rows(removals), removals.len() as int + 1);
    let unscoped = crate::plan::disposition_count(
        removals,
        crate::plan::Disposition::AuthorizedUnscoped,
    );
    let warning = if unscoped != 0 {
        "WARNING: "@ + decimal(unscoped)
            + " pending removal(s) use authorized-unscoped policy.\n\n"@
    } else {
        Seq::empty()
    };
    let counts = crate::plan::counts_text("Scanned"@, plan@);
    let number = "Pending removals: "@ + decimal(removals.len()) + "\n"@;
    let b = warning + table + "\n"@;
    let f = b + "Pending removals: "@ + decimal(removals.len()) + "\n"@;
    assert(f =~= b + number);
    lemma_within(number, number, Seq::empty());
    lemma_within(number, b, number);
    lemma_within(number, f, counts);
    lemma_within(number, f + counts, "\n"@);
}

/// A plan without removals says so.
pub proof fn a_plan_without_removals_says_so(plan: Plan, text: String)
    requires
        call_ensures(Plan::render_table, (&plan,), text),
        how_many_removed(plan@) == 0,
    ensures
        lies_within("No removals pending.\n"@, text@),
{
    lemma_removed(plan@);
    let lead = "No removals pending.\n"@;
    let counts = crate::plan::counts_text("Scanned"@, plan@);
    lemma_within(lead, lead, counts);
    lemma_within(lead, lead + counts, "\n"@);
}

/// A report that is shown holds the kind, the name, the rule and the end of every
/// outcome, and how many ended each way.
pub proof fn a_shown_report_holds_every_outcome(report: ExecutionReport, text: String, i: int)
    requires
        call_ensures(ExecutionReport::render_table, (&report,), text),
        0 <= i < report@.len(),
    ensures
        lies_within(word_for(report@[i].kind), text@),
        lies_within(report@[i].name, text@),
        lies_within(report@[i].matched_rule, text@),
        lies_within(word_of(report@[i].status), text@),
        lies_within(
            "removed "@ + decimal(how_many(report@, TargetStatus::Removed)) + ", skipped "@
                + decimal(how_many(report@, TargetStatus::Skipped)) + ", failed "@ + decimal(
                how_many(report@, TargetStatus::Failed),
            ) + ".\n"@,
            text@,
        ),
{
    let rows = report_rows(report@);
    let count = report@.len() as int + 1;
    let table = table_text(rows, count);
    let outcome = report@[i];
    assert(rows[i + 1] == report_row(outcome));
    lemma_table(rows, count, i + 1, 0);
    lemma_table(rows, count, i + 1, 1);
    lemma_table(rows, count, i + 1, 2);
    lemma_table(rows, count, i + 1, 3);
    lemma_how_many(report@, TargetStatus::Removed);
    lemma_how_many(report@, TargetStatus::Skipped);
    lemma_how_many(report@, TargetStatus::Failed);
    let ends = "removed "@ + decimal(how_many(report@, TargetStatus::Removed)) + ", skipped "@
        + decimal(how_many(report@, TargetStatus::Skipped)) + ", failed "@ + decimal(
        how_many(report@, TargetStatus::Failed),
    ) + ".\n"@;
    let lead = "\n"@ + "Cleanup result: "@;
    assert("Cleanup result: removed "@ =~= "Cleanup result: "@ + "removed "@) by {
        reveal_strlit("Cleanup result: removed ");
        reveal_strlit("Cleanup result: ");
        reveal_strlit("removed ");
    }
    assert(text@ =~= table + lead + ends);
    lemma_both(word_for(outcome.kind), table, lead, ends);
    lemma_both(outcome.name, table, lead, ends);
    lemma_both(outcome.matched_rule, table, lead, ends);
    lemma_both(word_of(outcome.status), table, lead, ends);
    lemma_within(ends, ends, Seq::empty());
    lemma_within(ends, table + lead, ends);
}

proof fn lemma_both(part: Seq<char>, first: Seq<char>, second: Seq<char>, third: Seq<char>)
    requires
        lies_within(part, first),
    ensures
        lies_within(part, first + second + third),
{
    lemma_within(part, first, second);
    lemma_within(part, first + second, third);
}

proof fn lemma_labels(labels: Seq<(Seq<char>, Seq<char>)>, l: int)
    requires
        0 <= l < labels.len(),
    ensures
        lies_within(labels[l].0 + "="@ + labels[l].1, label_lines(labels)),
    decreases labels.len(),
{
    let less = labels.drop_last();
    let part = labels[l].0 + "="@ + labels[l].1;
    let before = label_lines(less);
    let line = labels.last().0 + "="@ + labels.last().1;
    assert(label_lines(labels) =~= before + line + "\n"@);
    if l < less.len() {
        lemma_labels(less, l);
        assert(less[l] == labels[l]);
    }
    lemma_within(part, part, Seq::empty());
    lemma_within(part, before, line);
    lemma_within(part, before + line, "\n"@);
}

proof fn lemma_mounts(items: Seq<Seq<char>>, m: int)
    requires
        0 <= m < items.len(),
    ensures
        lies_within(items[m], text_lines(items)),
    decreases items.len(),
{
    let less = items.drop_last();
    let before = text_lines(less);
    if m < less.len() {
        lemma_mounts(less, m);
        assert(less[m] == items[m]);
    }
    lemma_within(items[m], items[m], Seq::empty());
    lemma_within(items[m], before, items.last());
    lemma_within(items[m], before + items.last(), "\n"@);
}

/// The details of a resource hold every label and every mount.
pub proof fn details_hold_every_label_and_mount(decision: Decision, text: String)
    requires
        call_ensures(resource_detail, (&decision,), text),
    ensures
        forall|l: int|
            0 <= l < decision@.resource.labels.len() ==> lies_within(
                (#[trigger] decision@.resource.labels[l]).0 + "="@ + decision@.resource.labels[l].1,
                text@,
            ),
        forall|m: int|
            0 <= m < decision@.resource.mounts.len() ==> lies_within(
                #[trigger] decision@.resource.mounts[m],
                text@,
            ),
{
    let head = crate::lines::detail_head(decision@);
    let pairs = decision@.resource.labels;
    let list = decision@.resource.mounts;
    let labels = if pairs.len() == 0 {
        Seq::empty()
    } else {
        "\n\nLabels:\n"@ + label_lines(pairs)
    };
    let mounts = if list.len() == 0 {
        Seq::empty()
    } else {
        "\nMounts:\n"@ + text_lines(list)
    };
    assert(text@ == head + labels + mounts);
    assert forall|l: int| 0 <= l < pairs.len() implies lies_within(
        (#[trigger] pairs[l]).0 + "="@ + pairs[l].1,
        text@,
    ) by {
        let part = pairs[l].0 + "="@ + pairs[l].1;
        lemma_labels(pairs, l);
        lemma_within(part, "\n\nLabels:\n"@, label_lines(pairs));
        lemma_within(part, head, labels);
        lemma_within(part, head + labels, mounts);
    }
    assert forall|m: int| 0 <= m < list.len() implies lies_within(#[trigger] list[m], text@) by {
        lemma_mounts(list, m);
        lemma_within(list[m], "\nMounts:\n"@, text_lines(list));
        lemma_within(list[m], head + labels, mounts);
    }
}

/// Whether a text is another one between white space.
pub open spec fn is_between_space(inner: Seq<char>, text: Seq<char>, at: int) -> bool {
    &&& 0 <= at && at + inner.len() <= text.len()
    &&& inner == text.subrange(at, at + inner.len())
    &&& forall|i: int| 0 <= i < at ==> is_space(#[trigger] text[i])
    &&& forall|i: int| at + inner.len() <= i < text.len() ==> is_space(#[trigger] text[i])
}

proof fn lemma_start(text: Seq<char>)
    ensures
        is_between_space(trimmed_start(text), text, text.len() - trimmed_start(text).len()),
        trimmed_start(text).len() > 0 ==> !is_space(trimmed_start(text)[0]),
    decreases text.len(),
{
    if text.len() > 0 && is_space(text[0]) {
        let rest = text.drop_first();
        let inner = trimmed_start(text);
        lemma_start(rest);
        let at = text.len() - inner.len();
        assert(inner =~= text.subrange(at, at + inner.len()));
        assert forall|i: int| 0 <= i < at implies is_space(#[trigger] text[i]) by {
            if i > 0 {
                assert(rest[i - 1] == text[i]);
            }
        }
    } else {
        assert(text =~= text.subrange(0, text.len() as int));
    }
}

proof fn lemma_end(text: Seq<char>)
    ensures
        is_between_space(trimmed_end(text), text, 0),
        trimmed_end(text).len() > 0 ==> !is_space(trimmed_end(text).last()),
    decreases text.len(),
{
    if text.len() > 0 && is_space(text.last()) {
        let less = text.drop_last();
        let inner = trimmed_end(text);
        lemma_end(less);
        assert(inner =~= text.subrange(0, inner.len() as int));
        assert forall|i: int| inner.len() <= i < text.len() implies is_space(#[trigger] text[i]) by {
            if i < less.len() {
                assert(less[i] == text[i]);
            }
        }
    } else {
        assert(text =~= text.subrange(0, text.len() as int));
    }
}

/// Whether a text stands in another between white space.
pub open spec fn stands_between_space(inner: Seq<char>, text: Seq<char>) -> bool {
    exists|at: int| is_between_space(inner, text, at)
}

/// Trimming takes the white space from both ends and nothing else.
pub proof fn trimming_takes_white_space_alone(text: &str, inner: String)
    requires
        call_ensures(trim, (text,), inner),
    ensures
        stands_between_space(inner@, text@),
        inner@.len() > 0 ==> !is_space(inner@[0]) && !is_space(inner@.last()),
{
    let front = trimmed_start(text@);
    let at = text@.len() - front.len();
    lemma_start(text@);
    lemma_end(front);
    assert(inner@ =~= text@.subrange(at, at + inner@.len()));
    assert forall|i: int| at + inner@.len() <= i < text@.len() implies is_space(
        #[trigger] text@[i],
    ) by {
        assert(front[i - at] == text@[i]);
    }
    assert(is_between_space(inner@, text@, at));
    if inner@.len() > 0 {
        assert(inner@[0] == front[0]);
    }
}

proof fn lemma_pieces(text: Seq<char>, separator: char)
    ensures
        pieces(text, separator).len() > 0,
        joined(pieces(text, separator), seq![separator]) == text,
        forall|p: int|
            0 <= p < pieces(text, separator).len() ==> !(#[trigger] pieces(
                text,
                separator,
            )[p]).contains(separator),
    decreases text.len(),
{
    let all = pieces(text, separator);
    let mark = seq![separator];
    if text.len() > 0 {
        let less = text.drop_last();
        let before = pieces(less, separator);
        lemma_pieces(less, separator);
        if text.last() == separator {
            assert(all.drop_last() =~= before);
            assert(joined(all, mark) =~= text);
        } else {
            let last = before.last().push(text.last());
            assert(all.last() == last);
            if all.len() == 1 {
                assert(joined(before, mark) == before[0]);
                assert(joined(all, mark) =~= text);
            } else {
                assert(all.drop_last() =~= before.drop_last());
                assert(joined(all, mark) =~= joined(before, mark).push(text.last()));
                assert(text =~= less.push(text.last()));
            }
            assert forall|p: int| 0 <= p < all.len() implies !(#[trigger] all[p]).contains(
                separator,
            ) by {
                if p == all.len() - 1 {
                    if last.contains(separator) {
                        let i = choose|i: int| 0 <= i < last.len() && last[i] == separator;
                        assert(before.last()[i] == separator);
                        assert(!before[before.len() - 1].contains(separator));
                    }
                } else {
                    assert(all[p] == before[p]);
                }
            }
        }
    } else {
        assert(joined(all, mark) =~= text);
    }
}

/// Splitting cuts a text at every separator: the pieces hold none, and joined
/// again they are the text.
pub proof fn splitting_is_undone_by_joining(text: &str, separator: char, parts: Vec<String>)
    requires
        call_ensures(split, (text, separator), parts),
    ensures
        joined(views(parts@), seq![separator]) == text@,
        forall|p: int|
            0 <= p < parts@.len() ==> !(#[trigger] views(parts@)[p]).contains(separator),
{
    lemma_pieces(text@, separator);
    assert(views(parts@).len() == parts@.len());
}

} // verus!
