//! Merging imported folders into a canonical tree: the plan, and what is done
//! with each of its items.

use crate::csv::{csv_fields, parse_simple_csv_line};
use crate::filter::{lemma_filter_start, lemma_filter_step};
use crate::number::{bounded_number, decimal, decimal_chars, parse_number};
use crate::order::{
    lemma_pair_asymmetric, lemma_pair_negatively_transitive, pair_before, pair_lt,
};
use crate::path::{join_path, path_join};
use crate::progress::bool_text;
use crate::text::{
    char_texts, concat2, contains_text, extend, extend_str, find_text, from_chars, lines, lines_of,
    same, strip, stripped, texts, to_chars,
};
use vstd::prelude::*;

verus! {

/// What wins where both sides have a folder.
#[derive(Clone, Copy, Debug, PartialEq, Eq, Structural)]
pub enum MergePolicy {
    PreferNewer,
    PreferLarger,
    KeepBoth,
    Manual,
}

pub open spec fn policy_name(policy: MergePolicy) -> Seq<char> {
    match policy {
        MergePolicy::PreferNewer => "prefer-newer"@,
        MergePolicy::PreferLarger => "prefer-larger"@,
        MergePolicy::KeepBoth => "keep-both"@,
        MergePolicy::Manual => "manual"@,
    }
}

impl MergePolicy {
    /// The name of the policy.
    pub fn name(&self) -> (r: &'static str)
        ensures
            r@ == policy_name(*self),
    {
        match self {
            MergePolicy::PreferNewer => "prefer-newer",
            MergePolicy::PreferLarger => "prefer-larger",
            MergePolicy::KeepBoth => "keep-both",
            MergePolicy::Manual => "manual",
        }
    }
}

/// A row of a table of actions.
#[derive(Debug)]
pub struct MergeActionCsvRow {
    pub left_folder: String,
    pub rank: usize,
    pub right_folder: String,
    pub confidence_tier: String,
    pub next_action: String,
    pub overlap_ratio: String,
    pub shared_hash_count: usize,
    pub shared_normalized_file_name_count: usize,
    pub shared_rel_file_count: usize,
}

/// A folder to merge.
#[derive(Debug)]
pub struct MergePlanItem {
    pub left_folder: String,
    pub right_folder: String,
    pub source: String,
    pub destination: String,
    pub decision: String,
    pub reason: String,
}

/// How many items are to be merged in which way.
#[derive(Clone, Copy, Debug, PartialEq, Eq, Structural)]
pub struct MergePlanSummary {
    pub total_items: usize,
    pub apply_items: usize,
    pub keep_both_items: usize,
    pub manual_items: usize,
}

/// What to merge.
#[derive(Debug)]
pub struct MergePlan {
    pub schema_version: u32,
    pub generated_at_ns: i64,
    pub policy: MergePolicy,
    pub imports_root: String,
    pub canonical_root: String,
    pub summary: MergePlanSummary,
    pub items: Vec<MergePlanItem>,
}

// ---------------------------------------------------------------------------
// The table of actions
// ---------------------------------------------------------------------------

/// A number in a cell, zero where there is none.
pub open spec fn cell_number(cell: Seq<char>) -> nat {
    match bounded_number(cell, usize::MAX as nat) {
        Some(n) => n,
        None => 0,
    }
}

/// Whether a row is that of these cells.
pub open spec fn is_row_of(row: MergeActionCsvRow, cells: Seq<Seq<char>>) -> bool {
    &&& row.left_folder@ == cells[0]
    &&& row.rank == cell_number(cells[1])
    &&& row.right_folder@ == cells[2]
    &&& row.confidence_tier@ == cells[3]
    &&& row.next_action@ == cells[4]
    &&& row.overlap_ratio@ == cells[5]
    &&& row.shared_hash_count == cell_number(cells[6])
    &&& row.shared_normalized_file_name_count == cell_number(cells[7])
    &&& row.shared_rel_file_count == cell_number(cells[8])
}

/// Whether a line below the heading holds a row.
pub open spec fn holds_row(line: Seq<char>) -> bool {
    stripped(line).len() > 0 && csv_fields(line).len() >= 9
}

/// The lines of a table that hold rows.
pub open spec fn row_lines(text: Seq<char>) -> Seq<Seq<char>> {
    if lines_of(text).len() == 0 {
        Seq::empty()
    } else {
        lines_of(text).skip(1).filter(|line: Seq<char>| holds_row(line))
    }
}

fn read_number(cell: &str) -> (r: usize)
    ensures
        r == cell_number(cell@),
{
    match parse_number(&to_chars(cell), usize::MAX as u128) {
        Some(n) => n as usize,
        None => 0,
    }
}

fn read_row(cells: &Vec<String>) -> (r: MergeActionCsvRow)
    requires
        cells@.len() >= 9,
    ensures
        is_row_of(r, texts(cells@)),
{
    MergeActionCsvRow {
        left_folder: cells[0].clone(),
        rank: read_number(cells[1].as_str()),
        right_folder: cells[2].clone(),
        confidence_tier: cells[3].clone(),
        next_action: cells[4].clone(),
        overlap_ratio: cells[5].clone(),
        shared_hash_count: read_number(cells[6].as_str()),
        shared_normalized_file_name_count: read_number(cells[7].as_str()),
        shared_rel_file_count: read_number(cells[8].as_str()),
    }
}

/// Reads a table of actions. Its first line is the heading; lines that are
/// blank or too short are passed over.
pub fn parse_merge_actions_csv(text: &str) -> (r: Vec<MergeActionCsvRow>)
    ensures
        r@.len() == row_lines(text@).len(),
        forall|i: int|
            0 <= i < r@.len() ==> is_row_of(#[trigger] r@[i], csv_fields(row_lines(text@)[i])),
{
    let all = lines(&to_chars(text));
    let ghost keep = |line: Seq<char>| holds_row(line);
    let ghost body = lines_of(text@).skip(1);
    let mut r: Vec<MergeActionCsvRow> = Vec::new();
    assert(char_texts(all@).len() == all@.len());
    if all.len() == 0 {
        return r;
    }
    let mut i: usize = 1;
    proof {
        lemma_filter_start(body, keep);
    }
    while i < all.len()
        invariant
            1 <= i <= all@.len(),
            char_texts(all@) == lines_of(text@),
            body == lines_of(text@).skip(1),
            keep == (|line: Seq<char>| holds_row(line)),
            r@.len() == body.take(i - 1).filter(keep).len(),
            forall|k: int|
                0 <= k < r@.len() ==> is_row_of(
                    #[trigger] r@[k],
                    csv_fields(body.take(i - 1).filter(keep)[k]),
                ),
        decreases all@.len() - i,
    {
        let ghost before = body.take(i - 1);
        let ghost after = body.take(i as int);
        proof {
            assert(char_texts(all@)[i as int] == all@[i as int]@);
            assert(body[i - 1] == all@[i as int]@);
            lemma_filter_step(body, keep, i - 1);
        }
        if strip(&all[i]).len() > 0 {
            let line = from_chars(&all[i]);
            let cells = parse_simple_csv_line(line.as_str());
            assert(texts(cells@).len() == cells@.len());
            if cells.len() >= 9 {
                r.push(read_row(&cells));
                assert(after.filter(keep) =~= before.filter(keep).push(all@[i as int]@));
            }
        }
        i = i + 1;
    }
    assert(body.take(all@.len() - 1) =~= body);
    r
}

// ---------------------------------------------------------------------------
// The plan
// ---------------------------------------------------------------------------

/// What is done with a folder, and why.
pub open spec fn decision_of(next_action: Seq<char>, policy: MergePolicy) -> (Seq<char>, Seq<char>) {
    if contains_text(next_action, "manual"@) {
        ("manual"@, "dossier suggested manual review"@)
    } else {
        match policy {
            MergePolicy::PreferNewer => ("apply"@, "prefer-newer policy"@),
            MergePolicy::PreferLarger => ("apply"@, "prefer-larger policy"@),
            MergePolicy::KeepBoth => ("keep_both"@, "keep-both policy"@),
            MergePolicy::Manual => ("manual"@, "manual policy"@),
        }
    }
}

/// What is done with a folder, and why.
pub fn merge_decision_for(row: &MergeActionCsvRow, policy: MergePolicy) -> (r: (
    &'static str,
    &'static str,
))
    ensures
        ((r.0)@, (r.1)@) == decision_of(row.next_action@, policy),
{
    if find_text(&to_chars(row.next_action.as_str()), "manual").is_some() {
        return ("manual", "dossier suggested manual review");
    }
    match policy {
        MergePolicy::PreferNewer => ("apply", "prefer-newer policy"),
        MergePolicy::PreferLarger => ("apply", "prefer-larger policy"),
        MergePolicy::KeepBoth => ("keep_both", "keep-both policy"),
        MergePolicy::Manual => ("manual", "manual policy"),
    }
}

/// An item as a value of specifications.
pub struct ItemText {
    pub left_folder: Seq<char>,
    pub right_folder: Seq<char>,
    pub source: Seq<char>,
    pub destination: Seq<char>,
    pub decision: Seq<char>,
    pub reason: Seq<char>,
}

impl MergePlanItem {
    pub open spec fn view(&self) -> ItemText {
        ItemText {
            left_folder: self.left_folder@,
            right_folder: self.right_folder@,
            source: self.source@,
            destination: self.destination@,
            decision: self.decision@,
            reason: self.reason@,
        }
    }
}

pub open spec fn item_texts(v: Seq<MergePlanItem>) -> Seq<ItemText> {
    v.map_values(|item: MergePlanItem| item@)
}

/// The item of a row.
pub open spec fn item_for(
    row: MergeActionCsvRow,
    imports_root: Seq<char>,
    canonical_root: Seq<char>,
    policy: MergePolicy,
) -> ItemText {
    let decision = decision_of(row.next_action@, policy);
    ItemText {
        left_folder: row.left_folder@,
        right_folder: row.right_folder@,
        source: path_join(imports_root, row.left_folder@),
        destination: path_join(canonical_root, row.right_folder@),
        decision: decision.0,
        reason: decision.1,
    }
}

/// Whether an item comes before another one: by left folder, and by right
/// folder where the left ones are the same.
pub open spec fn item_lt(a: ItemText, b: ItemText) -> bool {
    pair_lt((a.left_folder, a.right_folder), (b.left_folder, b.right_folder))
}

/// Items in order with a further one in its place, behind those that it does
/// not come before.
pub open spec fn with_item(s: Seq<ItemText>, x: ItemText) -> Seq<ItemText>
    decreases s.len(),
{
    if s.len() > 0 && item_lt(x, s.last()) {
        with_item(s.drop_last(), x).push(s.last())
    } else {
        s.push(x)
    }
}

/// The items of the first rows of each left folder, in order. Items of the same
/// folders keep the order of their rows.
pub open spec fn planned_items(
    rows: Seq<MergeActionCsvRow>,
    imports_root: Seq<char>,
    canonical_root: Seq<char>,
    policy: MergePolicy,
) -> Seq<ItemText>
    decreases rows.len(),
{
    if rows.len() == 0 {
        Seq::empty()
    } else {
        let before = planned_items(rows.drop_last(), imports_root, canonical_root, policy);
        if rows.last().rank == 1 {
            with_item(before, item_for(rows.last(), imports_root, canonical_root, policy))
        } else {
            before
        }
    }
}

proof fn lemma_with_item_at(s: Seq<ItemText>, x: ItemText, i: int)
    requires
        0 <= i <= s.len(),
        forall|k: int| i <= k < s.len() ==> item_lt(x, #[trigger] s[k]),
        i == 0 || !item_lt(x, s[i - 1]),
    ensures
        with_item(s, x) == s.insert(i, x),
    decreases s.len(),
{
    if i == s.len() {
        assert(s.insert(i, x) =~= s.push(x));
    } else {
        let init = s.drop_last();
        assert(item_lt(x, s[s.len() - 1]));
        lemma_with_item_at(init, x, i);
        assert(s.insert(i, x) =~= init.insert(i, x).push(s.last()));
    }
}

fn insert_item(items: &mut Vec<MergePlanItem>, item: MergePlanItem)
    ensures
        item_texts(final(items)@) == with_item(item_texts(old(items)@), item@),
{
    let ghost s = item_texts(items@);
    let ghost x = item@;
    let mut i: usize = items.len();
    while i > 0 && pair_before(
        item.left_folder.as_str(),
        item.right_folder.as_str(),
        items[i - 1].left_folder.as_str(),
        items[i - 1].right_folder.as_str(),
    )
        invariant
            i <= items@.len(),
            s == item_texts(items@),
            x == item@,
            forall|k: int| i <= k < s.len() ==> item_lt(x, #[trigger] s[k]),
        decreases i,
    {
        assert(s[i - 1] == items@[i - 1]@);
        i = i - 1;
    }
    proof {
        if i > 0 {
            assert(s[i - 1] == items@[i - 1]@);
        }
        lemma_with_item_at(s, x, i as int);
    }
    items.insert(i, item);
    assert(item_texts(items@) =~= s.insert(i as int, x));
}

/// How many items have a decision.
pub open spec fn decided(items: Seq<ItemText>, decision: Seq<char>) -> nat
    decreases items.len(),
{
    if items.len() == 0 {
        0
    } else {
        decided(items.drop_last(), decision) + (if items.last().decision == decision {
            1nat
        } else {
            0
        })
    }
}

fn count_decisions(items: &Vec<MergePlanItem>) -> (r: MergePlanSummary)
    ensures
        r.total_items == items@.len(),
        r.apply_items == decided(item_texts(items@), "apply"@),
        r.keep_both_items == decided(item_texts(items@), "keep_both"@),
        r.manual_items == decided(item_texts(items@), "manual"@),
{
    let ghost all = item_texts(items@);
    let mut r = MergePlanSummary {
        total_items: items.len(),
        apply_items: 0,
        keep_both_items: 0,
        manual_items: 0,
    };
    let mut i: usize = 0;
    assert(all.take(0) =~= Seq::empty());
    while i < items.len()
        invariant
            i <= items@.len(),
            all == item_texts(items@),
            r.total_items == items@.len(),
            r.apply_items <= i,
            r.keep_both_items <= i,
            r.manual_items <= i,
            r.apply_items == decided(all.take(i as int), "apply"@),
            r.keep_both_items == decided(all.take(i as int), "keep_both"@),
            r.manual_items == decided(all.take(i as int), "manual"@),
        decreases items@.len() - i,
    {
        proof {
            assert(all.take(i as int + 1).drop_last() =~= all.take(i as int));
            assert(all.take(i as int + 1).last() == items@[i as int]@);
        }
        let decision = items[i].decision.as_str();
        if same(decision, "apply") {
            r.apply_items = r.apply_items + 1;
        }
        if same(decision, "keep_both") {
            r.keep_both_items = r.keep_both_items + 1;
        }
        if same(decision, "manual") {
            r.manual_items = r.manual_items + 1;
        }
        i = i + 1;
    }
    assert(all.take(i as int) =~= all);
    r
}

/// Plans the merge of what a table of actions ranks first.
pub fn build_merge_plan(
    rows: &Vec<MergeActionCsvRow>,
    imports_root: &str,
    canonical_root: &str,
    policy: MergePolicy,
    generated_at_ns: i64,
) -> (r: MergePlan)
    ensures
        r.schema_version == 1,
        r.generated_at_ns == generated_at_ns,
        r.policy == policy,
        r.imports_root@ == imports_root@,
        r.canonical_root@ == canonical_root@,
        item_texts(r.items@) == planned_items(rows@, imports_root@, canonical_root@, policy),
        r.summary.total_items == r.items@.len(),
        r.summary.apply_items == decided(item_texts(r.items@), "apply"@),
        r.summary.keep_both_items == decided(item_texts(r.items@), "keep_both"@),
        r.summary.manual_items == decided(item_texts(r.items@), "manual"@),
{
    let mut items: Vec<MergePlanItem> = Vec::new();
    let mut i: usize = 0;
    proof {
        assert(rows@.take(0) =~= Seq::empty());
        assert(item_texts(items@) =~= Seq::empty());
    }
    while i < rows.len()
        invariant
            i <= rows@.len(),
            item_texts(items@) == planned_items(
                rows@.take(i as int),
                imports_root@,
                canonical_root@,
                policy,
            ),
        decreases rows@.len() - i,
    {
        assert(rows@.take(i as int + 1).drop_last() =~= rows@.take(i as int));
        let row = &rows[i];
        if row.rank == 1 {
            let (decision, reason) = merge_decision_for(row, policy);
            let item = MergePlanItem {
                left_folder: row.left_folder.clone(),
                right_folder: row.right_folder.clone(),
                source: join_path(imports_root, row.left_folder.as_str()),
                destination: join_path(canonical_root, row.right_folder.as_str()),
                decision: from_chars(&to_chars(decision)),
                reason: from_chars(&to_chars(reason)),
            };
            insert_item(&mut items, item);
        }
        i = i + 1;
    }
    assert(rows@.take(i as int) =~= rows@);
    let summary = count_decisions(&items);
    MergePlan {
        schema_version: 1,
        generated_at_ns,
        policy,
        imports_root: from_chars(&to_chars(imports_root)),
        canonical_root: from_chars(&to_chars(canonical_root)),
        summary,
        items,
    }
}

// ---------------------------------------------------------------------------
// Choosing items
// ---------------------------------------------------------------------------

/// The items of a plan that are gone through.
#[derive(Debug)]
pub struct MergeSelection {
    /// Where they stand in the plan.
    pub items: Vec<usize>,
    pub skipped_by_filter: usize,
    pub skipped_by_limit: usize,
}

/// Whether an item has the decision that is asked for, if any is.
pub open spec fn passes(item: ItemText, only: Option<Seq<char>>) -> bool {
    match only {
        Some(decision) => item.decision == decision,
        None => true,
    }
}

/// Where the items stand that have the decision that is asked for.
pub open spec fn passing(items: Seq<ItemText>, only: Option<Seq<char>>) -> Seq<int>
    decreases items.len(),
{
    if items.len() == 0 {
        Seq::empty()
    } else if passes(items.last(), only) {
        passing(items.drop_last(), only).push(items.len() - 1)
    } else {
        passing(items.drop_last(), only)
    }
}

/// How many of a number of items are gone through.
pub open spec fn limited(n: int, most: Option<usize>) -> int {
    match most {
        Some(m) => if m < n {
            m as int
        } else {
            n
        },
        None => n,
    }
}

pub open spec fn opt_view(s: Option<&str>) -> Option<Seq<char>> {
    match s {
        Some(s) => Some(s@),
        None => None,
    }
}

proof fn lemma_passing_bound(items: Seq<ItemText>, only: Option<Seq<char>>)
    ensures
        passing(items, only).len() <= items.len(),
        forall|k: int|
            0 <= k < passing(items, only).len() ==> 0 <= #[trigger] passing(items, only)[k]
                < items.len(),
    decreases items.len(),
{
    if items.len() > 0 {
        lemma_passing_bound(items.drop_last(), only);
    }
}

/// Chooses the items to go through: those of one decision, or all, and of them
/// at most a number.
pub fn select_items(items: &Vec<MergePlanItem>, only: Option<&str>, most: Option<usize>) -> (r:
    MergeSelection)
    ensures
        ({
            let all = passing(item_texts(items@), opt_view(only));
            let n = limited(all.len() as int, most);
            &&& r.items@.map_values(|i: usize| i as int) == all.take(n)
            &&& r.skipped_by_filter == items@.len() - all.len()
            &&& r.skipped_by_limit == all.len() - n
        }),
        forall|k: int| 0 <= k < r.items@.len() ==> (#[trigger] r.items@[k]) < items@.len(),
{
    let ghost all = item_texts(items@);
    let ghost wanted = opt_view(only);
    let mut chosen: Vec<usize> = Vec::new();
    let mut filtered: usize = 0;
    let mut over: usize = 0;
    let mut i: usize = 0;
    proof {
        assert(all.take(0) =~= Seq::empty());
        assert(chosen@.map_values(|i: usize| i as int) =~= Seq::empty());
    }
    while i < items.len()
        invariant
            i <= items@.len(),
            all == item_texts(items@),
            wanted == opt_view(only),
            filtered + over + chosen@.len() == i,
            forall|k: int| 0 <= k < chosen@.len() ==> (#[trigger] chosen@[k]) < i,
            filtered == i - passing(all.take(i as int), wanted).len(),
            chosen@.len() == limited(passing(all.take(i as int), wanted).len() as int, most),
            chosen@.map_values(|i: usize| i as int) == passing(all.take(i as int), wanted).take(
                chosen@.len() as int,
            ),
        decreases items@.len() - i,
    {
        let ghost before = passing(all.take(i as int), wanted);
        let ghost after = passing(all.take(i as int + 1), wanted);
        proof {
            assert(all.take(i as int + 1).drop_last() =~= all.take(i as int));
            assert(all.take(i as int + 1).last() == items@[i as int]@);
        }
        let pass = match only {
            Some(decision) => same(items[i].decision.as_str(), decision),
            None => true,
        };
        if !pass {
            filtered = filtered + 1;
        } else {
            let room = match most {
                Some(m) => chosen.len() < m,
                None => true,
            };
            let ghost old_chosen = chosen@;
            if room {
                chosen.push(i);
                proof {
                    assert(old_chosen.len() == before.len());
                    assert(before.take(before.len() as int) =~= before);
                    assert(chosen@.map_values(|i: usize| i as int) =~= old_chosen.map_values(
                        |i: usize| i as int,
                    ).push(i as int));
                    assert(after.take(chosen@.len() as int) =~= after);
                }
            } else {
                over = over + 1;
                proof {
                    let n = chosen@.len() as int;
                    assert(after.take(n) =~= before.take(n));
                }
            }
        }
        i = i + 1;
    }
    proof {
        assert(all.take(i as int) =~= all);
        lemma_passing_bound(all, wanted);
    }
    MergeSelection { items: chosen, skipped_by_filter: filtered, skipped_by_limit: over }
}

// ---------------------------------------------------------------------------
// Going through the items
// ---------------------------------------------------------------------------

/// What stands at the source of an item.
#[derive(Clone, Copy, Debug, PartialEq, Eq, Structural)]
pub enum MergeSource {
    Missing,
    File,
    Directory,
    Other,
}

/// What the copying of a tree came to.
#[derive(Clone, Copy, Debug, PartialEq, Eq, Structural)]
pub struct TreeCounts {
    pub skipped_existing: usize,
    pub conflicts: usize,
}

/// What is known of an item.
#[derive(Clone, Copy, Debug, PartialEq, Eq, Structural)]
pub struct MergeFacts {
    pub source: Option<MergeSource>,
    /// Whether the same file stands at the destination.
    pub same: Option<bool>,
    /// What was copied; nothing is counted of a file.
    pub placed: Option<TreeCounts>,
}

/// What is to be copied, and where to.
#[derive(Clone, Copy, Debug, PartialEq, Eq, Structural)]
pub enum MergePlace {
    /// A file, to a free name beside the destination.
    FileBeside,
    /// A tree, to a free name beside the destination.
    TreeBeside,
    /// A file, in place of what stands at the destination.
    FileInPlace,
    /// A tree, over what stands at the destination.
    TreeInPlace,
}

/// What has to be known, or done, before an item is settled.
#[derive(Clone, Copy, Debug, PartialEq, Eq, Structural)]
pub enum MergeQuestion {
    Source,
    Same,
    Place(MergePlace),
}

/// What is known of an item comes to one of these.
#[derive(Clone, Copy, Debug, PartialEq, Eq, Structural)]
pub enum MergeRuling {
    Ask(MergeQuestion),
    Manual,
    Failed,
    SkippedSame,
    Applied,
}

/// The ruling on something that is to be copied.
pub open spec fn placing(dry_run: bool, facts: MergeFacts, place: MergePlace) -> MergeRuling {
    if dry_run || facts.placed is Some {
        MergeRuling::Applied
    } else {
        MergeRuling::Ask(MergeQuestion::Place(place))
    }
}

/// What is known of an item comes to this. Every decision but `manual` and
/// `keep_both` is to apply it.
pub open spec fn merge_ruling(decision: Seq<char>, dry_run: bool, facts: MergeFacts) -> MergeRuling {
    if decision == "manual"@ {
        MergeRuling::Manual
    } else {
        match facts.source {
            None => MergeRuling::Ask(MergeQuestion::Source),
            Some(MergeSource::Missing) | Some(MergeSource::Other) => MergeRuling::Failed,
            Some(MergeSource::File) => if decision == "keep_both"@ {
                placing(dry_run, facts, MergePlace::FileBeside)
            } else {
                match facts.same {
                    None => MergeRuling::Ask(MergeQuestion::Same),
                    Some(true) => MergeRuling::SkippedSame,
                    Some(false) => placing(dry_run, facts, MergePlace::FileInPlace),
                }
            },
            Some(MergeSource::Directory) => if decision == "keep_both"@ {
                placing(dry_run, facts, MergePlace::TreeBeside)
            } else {
                placing(dry_run, facts, MergePlace::TreeInPlace)
            },
        }
    }
}

fn rule_placing(dry_run: bool, facts: &MergeFacts, place: MergePlace) -> (r: MergeRuling)
    ensures
        r == placing(dry_run, *facts, place),
{
    if dry_run || facts.placed.is_some() {
        MergeRuling::Applied
    } else {
        MergeRuling::Ask(MergeQuestion::Place(place))
    }
}

/// What to do with an item, by what is known of it.
pub fn rule_merge(decision: &str, dry_run: bool, facts: &MergeFacts) -> (r: MergeRuling)
    ensures
        r == merge_ruling(decision@, dry_run, *facts),
{
    if same(decision, "manual") {
        return MergeRuling::Manual;
    }
    let beside = same(decision, "keep_both");
    match facts.source {
        None => MergeRuling::Ask(MergeQuestion::Source),
        Some(MergeSource::Missing) | Some(MergeSource::Other) => MergeRuling::Failed,
        Some(MergeSource::File) => {
            if beside {
                return rule_placing(dry_run, facts, MergePlace::FileBeside);
            }
            match facts.same {
                None => MergeRuling::Ask(MergeQuestion::Same),
                Some(true) => MergeRuling::SkippedSame,
                Some(false) => rule_placing(dry_run, facts, MergePlace::FileInPlace),
            }
        },
        Some(MergeSource::Directory) => if beside {
            rule_placing(dry_run, facts, MergePlace::TreeBeside)
        } else {
            rule_placing(dry_run, facts, MergePlace::TreeInPlace)
        },
    }
}

/// What was done.
#[derive(Clone, Copy, Debug, PartialEq, Eq, Structural)]
pub struct MergeTotals {
    pub applied: usize,
    pub manual: usize,
    pub kept_both: usize,
    pub skipped_existing: usize,
    pub conflicts: usize,
    pub failed: usize,
    pub renamed_targets: usize,
}

pub open spec fn count_if(b: bool) -> int {
    if b {
        1
    } else {
        0
    }
}

/// What the copying of an item came to.
pub open spec fn tree_counts(facts: MergeFacts, ruling: MergeRuling) -> TreeCounts {
    match (ruling, facts.placed) {
        (MergeRuling::Applied, Some(t)) => t,
        _ => (TreeCounts { skipped_existing: 0, conflicts: 0 }),
    }
}

/// The totals after an item.
pub open spec fn merge_counted(
    before: MergeTotals,
    after: MergeTotals,
    decision: Seq<char>,
    facts: MergeFacts,
    ruling: MergeRuling,
) -> bool {
    let beside = decision == "keep_both"@;
    &&& after.applied == before.applied + count_if(ruling == MergeRuling::Applied)
    &&& after.manual == before.manual + count_if(ruling == MergeRuling::Manual)
    &&& after.kept_both == before.kept_both + count_if(beside)
    &&& after.skipped_existing == before.skipped_existing + count_if(
        ruling == MergeRuling::SkippedSame,
    ) + tree_counts(facts, ruling).skipped_existing
    &&& after.conflicts == before.conflicts + tree_counts(facts, ruling).conflicts
    &&& after.failed == before.failed + count_if(ruling == MergeRuling::Failed)
    &&& after.renamed_targets == before.renamed_targets + count_if(
        beside && ruling == MergeRuling::Applied,
    )
}

impl MergeTotals {
    pub fn new() -> (r: Self)
        ensures
            r == (MergeTotals {
                applied: 0,
                manual: 0,
                kept_both: 0,
                skipped_existing: 0,
                conflicts: 0,
                failed: 0,
                renamed_targets: 0,
            }),
    {
        MergeTotals {
            applied: 0,
            manual: 0,
            kept_both: 0,
            skipped_existing: 0,
            conflicts: 0,
            failed: 0,
            renamed_targets: 0,
        }
    }

    /// There is room for another item.
    pub open spec fn has_room(&self, facts: MergeFacts) -> bool {
        let t = match facts.placed {
            Some(t) => t,
            None => (TreeCounts { skipped_existing: 0, conflicts: 0 }),
        };
        &&& self.applied < usize::MAX
        &&& self.manual < usize::MAX
        &&& self.kept_both < usize::MAX
        &&& self.failed < usize::MAX
        &&& self.renamed_targets < usize::MAX
        &&& self.skipped_existing + t.skipped_existing < usize::MAX
        &&& self.conflicts + t.conflicts <= usize::MAX
    }

    /// Settles an item.
    pub fn settle(&mut self, decision: &str, dry_run: bool, facts: &MergeFacts)
        requires
            old(self).has_room(*facts),
            !(merge_ruling(decision@, dry_run, *facts) is Ask),
        ensures
            merge_counted(
                *old(self),
                *final(self),
                decision@,
                *facts,
                merge_ruling(decision@, dry_run, *facts),
            ),
    {
        let ruled = rule_merge(decision, dry_run, facts);
        let beside = same(decision, "keep_both");
        if beside {
            self.kept_both = self.kept_both + 1;
        }
        match ruled {
            MergeRuling::Manual => {
                self.manual = self.manual + 1;
            },
            MergeRuling::Failed => {
                self.failed = self.failed + 1;
            },
            MergeRuling::SkippedSame => {
                self.skipped_existing = self.skipped_existing + 1;
            },
            MergeRuling::Applied => {
                self.applied = self.applied + 1;
                if beside {
                    self.renamed_targets = self.renamed_targets + 1;
                }
                if let Some(t) = facts.placed {
                    self.skipped_existing = self.skipped_existing + t.skipped_existing;
                    self.conflicts = self.conflicts + t.conflicts;
                }
            },
            _ => {},
        }
    }
}

/// What is told at the end, in JSON. The fields `conflicts_label` and
/// `conflicts_non_destructive`, of which nothing says what they hold, are not
/// among it.
pub open spec fn merge_line(
    t: MergeTotals,
    dry_run: bool,
    policy: MergePolicy,
    planned: nat,
    selected: nat,
    by_filter: nat,
    by_limit: nat,
) -> Seq<char> {
    "{\"applied\":"@ + decimal(t.applied as nat) + ",\"manual\":"@ + decimal(t.manual as nat)
        + ",\"kept_both\":"@ + decimal(t.kept_both as nat) + ",\"skipped_existing\":"@ + decimal(
        t.skipped_existing as nat,
    ) + ",\"conflicts\":"@ + decimal(t.conflicts as nat) + ",\"failed\":"@ + decimal(
        t.failed as nat,
    ) + ",\"renamed_targets\":"@ + decimal(t.renamed_targets as nat) + ",\"dry_run\":"@
        + bool_text(dry_run) + ",\"policy\":\""@ + policy_name(policy) + "\",\"planned_items\":"@
        + decimal(planned) + ",\"selected_items\":"@ + decimal(selected)
        + ",\"skipped_by_filter\":"@ + decimal(by_filter) + ",\"skipped_by_limit\":"@ + decimal(
        by_limit,
    ) + "}"@
}

fn push_entry(out: &mut Vec<char>, lead: &str, n: usize)
    ensures
        final(out)@ == old(out)@ + lead@ + decimal(n as nat),
{
    extend_str(out, lead);
    extend(out, &decimal_chars(n as u128));
}

/// What is told at the end, in JSON.
pub fn tell_merge(
    t: &MergeTotals,
    dry_run: bool,
    policy: MergePolicy,
    planned: usize,
    selection: &MergeSelection,
) -> (r: String)
    ensures
        r@ == merge_line(
            *t,
            dry_run,
            policy,
            planned as nat,
            selection.items@.len(),
            selection.skipped_by_filter as nat,
            selection.skipped_by_limit as nat,
        ),
{
    let mut out = to_chars("{\"applied\":");
    extend(&mut out, &decimal_chars(t.applied as u128));
    push_entry(&mut out, ",\"manual\":", t.manual);
    push_entry(&mut out, ",\"kept_both\":", t.kept_both);
    push_entry(&mut out, ",\"skipped_existing\":", t.skipped_existing);
    push_entry(&mut out, ",\"conflicts\":", t.conflicts);
    push_entry(&mut out, ",\"failed\":", t.failed);
    push_entry(&mut out, ",\"renamed_targets\":", t.renamed_targets);
    extend_str(&mut out, ",\"dry_run\":");
    extend_str(&mut out, if dry_run { "true" } else { "false" });
    extend_str(&mut out, ",\"policy\":\"");
    extend_str(&mut out, policy.name());
    push_entry(&mut out, "\",\"planned_items\":", planned);
    push_entry(&mut out, ",\"selected_items\":", selection.items.len());
    push_entry(&mut out, ",\"skipped_by_filter\":", selection.skipped_by_filter);
    push_entry(&mut out, ",\"skipped_by_limit\":", selection.skipped_by_limit);
    extend_str(&mut out, "}");
    from_chars(&out)
}

// ---------------------------------------------------------------------------
// Names, files and trees
// ---------------------------------------------------------------------------

/// The number of names that are tried before the last one.
pub const KEEP_BOTH_NAMES: usize = 10_000;

/// The names beside a path that are tried, one after another.
pub open spec fn beside_name(base: Seq<char>, attempt: nat) -> Seq<char> {
    if attempt == 0 {
        base + ".from_import"@
    } else if attempt < KEEP_BOTH_NAMES {
        base + ".from_import."@ + decimal(attempt)
    } else {
        base + ".from_import.fallback"@
    }
}

/// A name beside a path.
pub fn keep_both_name(base: &str, attempt: usize) -> (r: String)
    ensures
        r@ == beside_name(base@, attempt as nat),
{
    if attempt == 0 {
        concat2(base, ".from_import")
    } else if attempt < KEEP_BOTH_NAMES {
        let mut out = to_chars(base);
        extend_str(&mut out, ".from_import.");
        extend(&mut out, &decimal_chars(attempt as u128));
        from_chars(&out)
    } else {
        concat2(base, ".from_import.fallback")
    }
}

/// What to do with a name beside a path.
#[derive(Clone, Copy, Debug, PartialEq, Eq, Structural)]
pub enum BesideStep {
    /// The name is used.
    Use,
    /// The next name is tried.
    Next,
}

/// What to do with the name of an attempt, by whether something has it already:
/// a free name is used, and so is the last one.
pub fn beside_step(attempt: usize, taken: bool) -> (r: BesideStep)
    ensures
        r == BesideStep::Use <==> !taken || attempt >= KEEP_BOTH_NAMES,
{
    if !taken || attempt >= KEEP_BOTH_NAMES {
        BesideStep::Use
    } else {
        BesideStep::Next
    }
}

/// Whether a file has to be compared by its hash: something stands at the
/// destination, and both are files of one size. Otherwise they differ.
pub fn needs_hashes(
    destination_exists: bool,
    source_is_file: bool,
    destination_is_file: bool,
    source_size: u64,
    destination_size: u64,
) -> (r: bool)
    ensures
        r == (destination_exists && source_is_file && destination_is_file && source_size
            == destination_size),
{
    destination_exists && source_is_file && destination_is_file && source_size == destination_size
}

/// What is done with an entry of a tree that is copied.
#[derive(Clone, Copy, Debug, PartialEq, Eq, Structural)]
pub enum TreeStep {
    MakeDirectory,
    Pass,
    SkipSame,
    Conflict,
    /// It is copied, once what stands at its destination is removed.
    Copy { replace: bool },
}

pub open spec fn tree_step(
    is_directory: bool,
    is_file: bool,
    same: bool,
    exists: bool,
    overwrite: bool,
) -> TreeStep {
    if is_directory {
        TreeStep::MakeDirectory
    } else if !is_file {
        TreeStep::Pass
    } else if same {
        TreeStep::SkipSame
    } else if exists && !overwrite {
        TreeStep::Conflict
    } else {
        TreeStep::Copy { replace: exists }
    }
}

/// What to do with an entry of a tree.
pub fn rule_tree(is_directory: bool, is_file: bool, same: bool, exists: bool, overwrite: bool) -> (r:
    TreeStep)
    ensures
        r == tree_step(is_directory, is_file, same, exists, overwrite),
{
    if is_directory {
        TreeStep::MakeDirectory
    } else if !is_file {
        TreeStep::Pass
    } else if same {
        TreeStep::SkipSame
    } else if exists && !overwrite {
        TreeStep::Conflict
    } else {
        TreeStep::Copy { replace: exists }
    }
}

impl TreeCounts {
    /// Counts an entry.
    pub fn count(&mut self, step: TreeStep)
        requires
            old(self).skipped_existing < usize::MAX,
            old(self).conflicts < usize::MAX,
        ensures
            final(self).skipped_existing == old(self).skipped_existing + count_if(
                step == TreeStep::SkipSame,
            ),
            final(self).conflicts == old(self).conflicts + count_if(step == TreeStep::Conflict),
    {
        match step {
            TreeStep::SkipSame => {
                self.skipped_existing = self.skipped_existing + 1;
            },
            TreeStep::Conflict => {
                self.conflicts = self.conflicts + 1;
            },
            _ => {},
        }
    }
}

// ---------------------------------------------------------------------------
// Laws
// ---------------------------------------------------------------------------

/// A dry run copies nothing.
pub proof fn law_dry_merge_places_nothing(decision: Seq<char>, facts: MergeFacts, place: MergePlace)
    ensures
        merge_ruling(decision, true, facts) != MergeRuling::Ask(MergeQuestion::Place(place)),
{
}

/// What is left to review by hand is not touched, nor even looked at.
pub proof fn law_manual_is_left_alone(dry_run: bool, facts: MergeFacts)
    ensures
        merge_ruling("manual"@, dry_run, facts) == MergeRuling::Manual,
{
}

/// To keep both never replaces what stands at the destination.
pub proof fn law_keep_both_replaces_nothing(dry_run: bool, facts: MergeFacts)
    ensures
        merge_ruling("keep_both"@, dry_run, facts) != MergeRuling::Ask(
            MergeQuestion::Place(MergePlace::FileInPlace),
        ),
        merge_ruling("keep_both"@, dry_run, facts) != MergeRuling::Ask(
            MergeQuestion::Place(MergePlace::TreeInPlace),
        ),
{
    reveal_strlit("keep_both");
    reveal_strlit("manual");
}

/// Where a tree is not copied over another one, nothing that stands there is
/// replaced.
pub proof fn law_tree_keeps_existing(is_directory: bool, is_file: bool, same: bool, exists: bool)
    ensures
        tree_step(is_directory, is_file, same, exists, false) != (TreeStep::Copy { replace: true }),
{
}

/// A policy of reviewing by hand plans nothing else.
pub proof fn law_manual_policy_plans_reviews(
    rows: Seq<MergeActionCsvRow>,
    imports_root: Seq<char>,
    canonical_root: Seq<char>,
    i: int,
)
    requires
        0 <= i < planned_items(rows, imports_root, canonical_root, MergePolicy::Manual).len(),
    ensures
        planned_items(rows, imports_root, canonical_root, MergePolicy::Manual)[i].decision
            == "manual"@,
    decreases rows.len(),
{
    if rows.len() > 0 {
        let policy = MergePolicy::Manual;
        let before = planned_items(rows.drop_last(), imports_root, canonical_root, policy);
        assert forall|k: int| 0 <= k < before.len() implies (#[trigger] before[k]).decision
            == "manual"@ by {
            law_manual_policy_plans_reviews(rows.drop_last(), imports_root, canonical_root, k);
        }
        if rows.last().rank == 1 {
            let x = item_for(rows.last(), imports_root, canonical_root, policy);
            lemma_with_item_members(before, x, i);
        }
    }
}

proof fn lemma_with_item_members(s: Seq<ItemText>, x: ItemText, i: int)
    requires
        0 <= i < with_item(s, x).len(),
    ensures
        with_item(s, x)[i] == x || s.contains(with_item(s, x)[i]),
    decreases s.len(),
{
    if s.len() > 0 && item_lt(x, s.last()) {
        let init = s.drop_last();
        if i < with_item(init, x).len() {
            lemma_with_item_members(init, x, i);
            if with_item(init, x)[i] != x {
                let k = init.index_of(with_item(init, x)[i]);
                assert(s[k] == with_item(s, x)[i]);
            }
        } else {
            assert(s[s.len() - 1] == with_item(s, x)[i]);
        }
    } else if i < s.len() {
        assert(s[i] == with_item(s, x)[i]);
    }
}

proof fn lemma_decided_with_item(s: Seq<ItemText>, x: ItemText, decision: Seq<char>)
    ensures
        with_item(s, x).len() == s.len() + 1,
        decided(with_item(s, x), decision) == decided(s, decision) + (if x.decision == decision {
            1nat
        } else {
            0
        }),
    decreases s.len(),
{
    let all = with_item(s, x);
    if s.len() > 0 && item_lt(x, s.last()) {
        lemma_decided_with_item(s.drop_last(), x, decision);
        assert(all.drop_last() =~= with_item(s.drop_last(), x));
    } else {
        assert(all.drop_last() =~= s);
    }
}

/// Every item of a plan is applied, kept beside, or reviewed by hand, and counts
/// as one of these.
pub proof fn law_merge_summary_adds_up(
    rows: Seq<MergeActionCsvRow>,
    imports_root: Seq<char>,
    canonical_root: Seq<char>,
    policy: MergePolicy,
)
    ensures
        ({
            let items = planned_items(rows, imports_root, canonical_root, policy);
            items.len() == decided(items, "apply"@) + decided(items, "keep_both"@) + decided(
                items,
                "manual"@,
            )
        }),
    decreases rows.len(),
{
    reveal_strlit("apply");
    reveal_strlit("keep_both");
    reveal_strlit("manual");
    assert("apply"@.len() == 5 && "keep_both"@.len() == 9 && "manual"@.len() == 6);
    if rows.len() > 0 {
        law_merge_summary_adds_up(rows.drop_last(), imports_root, canonical_root, policy);
        if rows.last().rank == 1 {
            let before = planned_items(rows.drop_last(), imports_root, canonical_root, policy);
            let x = item_for(rows.last(), imports_root, canonical_root, policy);
            lemma_decided_with_item(before, x, "apply"@);
            lemma_decided_with_item(before, x, "keep_both"@);
            lemma_decided_with_item(before, x, "manual"@);
        }
    }
}

/// The plan is in order.
pub proof fn law_merge_plan_is_ordered(
    rows: Seq<MergeActionCsvRow>,
    imports_root: Seq<char>,
    canonical_root: Seq<char>,
    policy: MergePolicy,
)
    ensures
        items_ordered(planned_items(rows, imports_root, canonical_root, policy)),
    decreases rows.len(),
{
    if rows.len() > 0 {
        law_merge_plan_is_ordered(rows.drop_last(), imports_root, canonical_root, policy);
        if rows.last().rank == 1 {
            lemma_with_item_ordered(
                planned_items(rows.drop_last(), imports_root, canonical_root, policy),
                item_for(rows.last(), imports_root, canonical_root, policy),
            );
        }
    }
}

/// No item comes before one that stands ahead of it.
pub open spec fn items_ordered(s: Seq<ItemText>) -> bool {
    forall|i: int, j: int| 0 <= i < j < s.len() ==> !item_lt(#[trigger] s[j], #[trigger] s[i])
}

proof fn lemma_with_item_ordered(s: Seq<ItemText>, x: ItemText)
    requires
        items_ordered(s),
    ensures
        items_ordered(with_item(s, x)),
    decreases s.len(),
{
    let r = with_item(s, x);
    if s.len() > 0 && item_lt(x, s.last()) {
        let init = s.drop_last();
        lemma_with_item_ordered(init, x);
        let w = with_item(init, x);
        assert forall|i: int, j: int| 0 <= i < j < r.len() implies !item_lt(
            #[trigger] r[j],
            #[trigger] r[i],
        ) by {
            if j < w.len() {
                assert(!item_lt(w[j], w[i]));
            } else {
                lemma_with_item_members(init, x, i);
                if w[i] == x {
                    lemma_item_asymmetric(x, s.last());
                } else {
                    let k = init.index_of(w[i]);
                    assert(s[k] == w[i]);
                    assert(!item_lt(s[s.len() - 1], s[k]));
                }
            }
        }
    } else {
        assert forall|i: int, j: int| 0 <= i < j < r.len() implies !item_lt(
            #[trigger] r[j],
            #[trigger] r[i],
        ) by {
            if j < s.len() {
                assert(!item_lt(s[j], s[i]));
            } else if i < s.len() - 1 {
                assert(!item_lt(s[s.len() - 1], s[i]));
                lemma_pair_negatively_transitive(
                    (s[i].left_folder, s[i].right_folder),
                    (s.last().left_folder, s.last().right_folder),
                    (x.left_folder, x.right_folder),
                );
            }
        }
    }
}

proof fn lemma_item_asymmetric(a: ItemText, b: ItemText)
    requires
        item_lt(a, b),
    ensures
        !item_lt(b, a),
{
    lemma_pair_asymmetric((a.left_folder, a.right_folder), (b.left_folder, b.right_folder));
}

} // verus!
