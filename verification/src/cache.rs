//! Which build-cache records a rule removes: those unused for long enough, and
//! beyond them the least recently used ones until the rest fits a budget.

use crate::duration::{age_of, age_seconds, format_duration, short_duration};
use crate::order::{
    lemma_text_le_transitive, lemma_text_lt_irreflexive, lemma_text_lt_transitive, precedes, ranked,
    sort, text_lt, Ranked,
};
use crate::policy::reaches;
use crate::resource::{InventoryItem, ItemView, ResourceKind};
use crate::text::{concat4, decimal, decimal_text, group_views, views};
use crate::text_map::{has_key, put, TextMap};
use vstd::prelude::*;
use vstd::string::*;

verus! {

/// When a record was last used: since its state, else since its creation.
pub open spec fn last_use(item: ItemView) -> Option<i64> {
    match item.state_since {
        Some(moment) => Some(moment),
        None => item.created_at,
    }
}

/// When a record was last used.
pub fn last_used(item: &InventoryItem) -> (moment: Option<i64>)
    ensures
        moment == last_use(item@),
{
    match item.state_since {
        Some(moment) => Some(moment),
        None => item.created_at,
    }
}

/// A number of bytes, at most the largest that can be held.
pub open spec fn capped(bytes: nat) -> u64 {
    if bytes > u64::MAX {
        u64::MAX
    } else {
        bytes as u64
    }
}

/// The known size of a record.
pub open spec fn known_size(item: ItemView) -> nat {
    match item.size {
        Some(bytes) => bytes as nat,
        None => 0,
    }
}

/// The known bytes of all build-cache records.
pub open spec fn cache_bytes(inventory: Seq<ItemView>) -> nat
    decreases inventory.len(),
{
    if inventory.len() == 0 {
        0
    } else {
        cache_bytes(inventory.drop_last()) + if inventory.last().kind == ResourceKind::BuildCache {
            known_size(inventory.last())
        } else {
            0
        }
    }
}

/// The known bytes of the build-cache records that `removals` names.
pub open spec fn selected_bytes(
    inventory: Seq<ItemView>,
    removals: Seq<(Seq<char>, Seq<char>)>,
) -> nat
    decreases inventory.len(),
{
    if inventory.len() == 0 {
        0
    } else {
        selected_bytes(inventory.drop_last(), removals) + if inventory.last().kind
            == ResourceKind::BuildCache && has_key(removals, inventory.last().id) {
            known_size(inventory.last())
        } else {
            0
        }
    }
}

/// Whether a record is removed for its age.
pub open spec fn too_old(item: ItemView, now: i64, threshold: u64) -> bool {
    &&& item.kind == ResourceKind::BuildCache
    &&& !item.referenced
    &&& reaches(age_of(now, last_use(item)), threshold)
}

/// Why a record is removed for its age.
pub open spec fn age_reason(age: u64, threshold: u64) -> Seq<char> {
    "authorized-unscoped build cache; last-use age "@ + short_duration(age) + " meets "@
        + short_duration(threshold)
}

/// The records removed for their age, each with the reason.
pub open spec fn aged_removals(inventory: Seq<ItemView>, now: i64, threshold: u64) -> Seq<
    (Seq<char>, Seq<char>),
>
    decreases inventory.len(),
{
    if inventory.len() == 0 {
        Seq::empty()
    } else {
        let before = aged_removals(inventory.drop_last(), now, threshold);
        let item = inventory.last();
        if too_old(item, now, threshold) {
            put(
                before,
                item.id,
                age_reason(age_of(now, last_use(item)).unwrap(), threshold),
            )
        } else {
            before
        }
    }
}

/// A record that may be removed to meet the budget.
pub struct CacheCandidate {
    id: String,
    last_used: i64,
    size: u64,
}

/// What a candidate says.
pub struct CacheCandidateView {
    pub id: Seq<char>,
    pub last_used: i64,
    pub size: u64,
}

impl View for CacheCandidate {
    type V = CacheCandidateView;

    closed spec fn view(&self) -> CacheCandidateView {
        CacheCandidateView { id: self.id@, last_used: self.last_used, size: self.size }
    }
}

impl Ranked for CacheCandidate {
    /// The least recently used first, by id among those used at one moment.
    open spec fn ranks(left: CacheCandidateView, right: CacheCandidateView) -> bool {
        ||| left.last_used < right.last_used
        ||| left.last_used == right.last_used && !text_lt(right.id, left.id)
    }

    proof fn ranks_total(left: CacheCandidateView, right: CacheCandidateView) {
        if text_lt(left.id, right.id) && text_lt(right.id, left.id) {
            lemma_text_lt_transitive(left.id, right.id, left.id);
            lemma_text_lt_irreflexive(left.id);
        }
    }

    proof fn ranks_transitive(
        a: CacheCandidateView,
        b: CacheCandidateView,
        c: CacheCandidateView,
    ) {
        if a.last_used == b.last_used && b.last_used == c.last_used {
            lemma_text_le_transitive(a.id, b.id, c.id);
        }
    }

    fn in_order(&self, other: &Self) -> (held: bool) {
        self.last_used < other.last_used || (self.last_used == other.last_used && !precedes(
            other.id.as_str(),
            self.id.as_str(),
        ))
    }
}

/// Whether a record may be removed to meet the budget: unreferenced, not yet
/// removed, with a known size and a known last use.
pub open spec fn may_go(item: ItemView, removals: Seq<(Seq<char>, Seq<char>)>) -> bool {
    &&& item.kind == ResourceKind::BuildCache
    &&& !item.referenced
    &&& !has_key(removals, item.id)
    &&& item.size is Some
    &&& last_use(item) is Some
}

/// The records that may be removed to meet the budget, in inventory order.
pub open spec fn candidates(
    inventory: Seq<ItemView>,
    removals: Seq<(Seq<char>, Seq<char>)>,
) -> Seq<CacheCandidateView>
    decreases inventory.len(),
{
    if inventory.len() == 0 {
        Seq::empty()
    } else {
        let before = candidates(inventory.drop_last(), removals);
        let item = inventory.last();
        if may_go(item, removals) {
            before.push(
                CacheCandidateView {
                    id: item.id,
                    last_used: last_use(item).unwrap(),
                    size: item.size.unwrap(),
                },
            )
        } else {
            before
        }
    }
}

/// Why a record is removed to meet the budget.
pub open spec fn budget_reason(total: u64, limit: u64) -> Seq<char> {
    "authorized-unscoped build cache; oldest-first removal reduces cache from "@ + decimal(
        total as nat,
    ) + " bytes toward "@ + decimal(limit as nat) + " bytes"@
}

/// `removals` with candidates added in their order for as long as more than
/// `limit` bytes are retained.
pub open spec fn within_budget(
    queue: Seq<CacheCandidateView>,
    removals: Seq<(Seq<char>, Seq<char>)>,
    retained: u64,
    limit: u64,
    total: u64,
) -> Seq<(Seq<char>, Seq<char>)>
    decreases queue.len(),
{
    if queue.len() == 0 || retained <= limit {
        removals
    } else {
        within_budget(
            queue.drop_first(),
            put(removals, queue[0].id, budget_reason(total, limit)),
            if queue[0].size <= retained {
                (retained - queue[0].size) as u64
            } else {
                0
            },
            limit,
            total,
        )
    }
}

/// The records that a build-cache rule removes, each with the reason.
pub open spec fn rule_removals(
    older_than: Option<u64>,
    max_bytes: Option<u64>,
    inventory: Seq<ItemView>,
    now: i64,
) -> Seq<(Seq<char>, Seq<char>)> {
    let aged = match older_than {
        Some(threshold) => aged_removals(inventory, now, threshold),
        None => Seq::empty(),
    };
    match max_bytes {
        None => aged,
        Some(limit) => {
            let total = capped(cache_bytes(inventory));
            let selected = capped(selected_bytes(inventory, aged));
            let retained = if selected <= total {
                (total - selected) as u64
            } else {
                0
            };
            within_budget(
                ranked::<CacheCandidate>(candidates(inventory, aged)),
                aged,
                retained,
                limit,
                total,
            )
        },
    }
}

fn total_cache_bytes(inventory: &Vec<InventoryItem>) -> (total: u64)
    ensures
        total == capped(cache_bytes(views(inventory@))),
{
    broadcast use group_views;

    let ghost all = views(inventory@);
    let mut total: u64 = 0;
    let mut index: usize = 0;
    while index < inventory.len()
        invariant
            index <= inventory@.len(),
            all == views(inventory@),
            total == capped(cache_bytes(all.take(index as int))),
        decreases inventory@.len() - index,
    {
        let item = &inventory[index];
        assert(all.take(index as int + 1).drop_last() =~= all.take(index as int));
        assert(all.take(index as int + 1).last() == item@);
        if item.kind == ResourceKind::BuildCache {
            match item.size {
                Some(bytes) => {
                    total = total.saturating_add(bytes);
                },
                None => {},
            }
        }
        index += 1;
    }
    assert(all.take(index as int) =~= all);
    total
}

fn total_selected_bytes(inventory: &Vec<InventoryItem>, removals: &TextMap<String>) -> (total: u64)
    ensures
        total == capped(selected_bytes(views(inventory@), removals@)),
{
    broadcast use group_views;

    let ghost all = views(inventory@);
    let mut total: u64 = 0;
    let mut index: usize = 0;
    while index < inventory.len()
        invariant
            index <= inventory@.len(),
            all == views(inventory@),
            total == capped(selected_bytes(all.take(index as int), removals@)),
        decreases inventory@.len() - index,
    {
        let item = &inventory[index];
        assert(all.take(index as int + 1).drop_last() =~= all.take(index as int));
        assert(all.take(index as int + 1).last() == item@);
        if item.kind == ResourceKind::BuildCache && removals.contains_key(item.id.as_str()) {
            match item.size {
                Some(bytes) => {
                    total = total.saturating_add(bytes);
                },
                None => {},
            }
        }
        index += 1;
    }
    assert(all.take(index as int) =~= all);
    total
}

fn remove_aged(inventory: &Vec<InventoryItem>, now: i64, threshold: u64) -> (removals: TextMap<
    String,
>)
    ensures
        removals@ == aged_removals(views(inventory@), now, threshold),
{
    broadcast use group_views;

    let ghost all = views(inventory@);
    let mut removals: TextMap<String> = TextMap::new();
    let mut index: usize = 0;
    while index < inventory.len()
        invariant
            index <= inventory@.len(),
            all == views(inventory@),
            removals@ == aged_removals(all.take(index as int), now, threshold),
        decreases inventory@.len() - index,
    {
        let item = &inventory[index];
        assert(all.take(index as int + 1).drop_last() =~= all.take(index as int));
        assert(all.take(index as int + 1).last() == item@);
        if item.kind == ResourceKind::BuildCache && !item.referenced {
            match age_seconds(now, last_used(item)) {
                Some(age) => {
                    if age >= threshold {
                        removals.insert(
                            item.id.clone(),
                            concat4(
                                "authorized-unscoped build cache; last-use age ",
                                format_duration(age).as_str(),
                                " meets ",
                                format_duration(threshold).as_str(),
                            ),
                        );
                    }
                },
                None => {},
            }
        }
        index += 1;
    }
    assert(all.take(index as int) =~= all);
    removals
}

fn collect_candidates(inventory: &Vec<InventoryItem>, removals: &TextMap<String>) -> (queue: Vec<
    CacheCandidate,
>)
    ensures
        views(queue@) == candidates(views(inventory@), removals@),
{
    broadcast use group_views;

    let ghost all = views(inventory@);
    let mut queue: Vec<CacheCandidate> = Vec::new();
    let mut index: usize = 0;
    assert(views(queue@) =~= candidates(all.take(0), removals@));
    while index < inventory.len()
        invariant
            index <= inventory@.len(),
            all == views(inventory@),
            views(queue@) == candidates(all.take(index as int), removals@),
        decreases inventory@.len() - index,
    {
        let item = &inventory[index];
        assert(all.take(index as int + 1).drop_last() =~= all.take(index as int));
        assert(all.take(index as int + 1).last() == item@);
        if item.kind == ResourceKind::BuildCache && !item.referenced && !removals.contains_key(
            item.id.as_str(),
        ) {
            match (item.size, last_used(item)) {
                (Some(size), Some(moment)) => {
                    queue.push(CacheCandidate { id: item.id.clone(), last_used: moment, size });
                },
                _ => {},
            }
        }
        index += 1;
    }
    assert(all.take(index as int) =~= all);
    queue
}

/// The records that a build-cache rule removes, each with the reason.
pub fn removals_under_rule(
    older_than: Option<u64>,
    max_bytes: Option<u64>,
    inventory: &Vec<InventoryItem>,
    now: i64,
) -> (removals: TextMap<String>)
    ensures
        removals@ == rule_removals(older_than, max_bytes, views(inventory@), now),
{
    broadcast use group_views;

    let mut removals: TextMap<String> = match older_than {
        Some(threshold) => remove_aged(inventory, now, threshold),
        None => TextMap::new(),
    };
    match max_bytes {
        Some(limit) => {
            let total: u64 = total_cache_bytes(inventory);
            let selected: u64 = total_selected_bytes(inventory, &removals);
            let mut retained: u64 = total.saturating_sub(selected);
            let queue = sort(collect_candidates(inventory, &removals));
            let ghost all = views(queue@);
            let ghost outcome = within_budget(all, removals@, retained, limit, total);
            let mut index: usize = 0;
            assert(all.skip(0) =~= all);
            while index < queue.len() && retained > limit
                invariant
                    index <= queue@.len(),
                    all == views(queue@),
                    outcome == within_budget(
                        all.skip(index as int),
                        removals@,
                        retained,
                        limit,
                        total,
                    ),
                decreases queue@.len() - index,
            {
                let candidate = &queue[index];
                assert(all.skip(index as int)[0] == candidate@);
                assert(all.skip(index as int).drop_first() =~= all.skip(index as int + 1));
                let mut reason =
                    "authorized-unscoped build cache; oldest-first removal reduces cache from ".to_owned();
                reason.append(decimal_text(total).as_str());
                reason.append(" bytes toward ");
                reason.append(decimal_text(limit).as_str());
                reason.append(" bytes");
                removals.insert(candidate.id.clone(), reason);
                retained = retained.saturating_sub(candidate.size);
                index += 1;
            }
            removals
        },
        None => removals,
    }
}

} // verus!
