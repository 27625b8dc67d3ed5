//! Laws of planning a merge and of going through the plan.

use crate::merge::{
    beside_name, decided, decision_of, item_for, item_lt, items_ordered, limited, merge_counted,
    merge_ruling, passing, planned_items, policy_name, tree_step, with_item, ItemText,
    MergeActionCsvRow, MergeFacts, MergePlace, MergePolicy, MergeQuestion, MergeRuling, MergeSource,
    MergeTotals, TreeStep,
};
use crate::number::{decimal, law_decimal_round_trip};
use crate::path::path_join;
use crate::text::{contains_text, is_digit, lemma_text_lt_total, stands_at, text_lt};
use vstd::prelude::*;

verus! {

/// What the table of actions marks for review by hand is reviewed, whatever the
/// policy.
pub proof fn law_review_wins_over_policy(before: Seq<char>, after: Seq<char>, policy: MergePolicy)
    ensures
        decision_of(before + "manual"@ + after, policy) == (
            "manual"@,
            "dossier suggested manual review"@,
        ),
{
    let s = before + "manual"@ + after;
    let i = before.len() as int;
    assert(s.subrange(i, i + "manual"@.len()) =~= "manual"@);
    assert(stands_at(s, "manual"@, i));
}

/// Where nothing is marked for review, the policy decides: what is newer or
/// larger is applied, and the policy is the reason.
pub proof fn law_policies_decide(next_action: Seq<char>)
    requires
        forall|before: Seq<char>, after: Seq<char>| next_action != #[trigger] (before + "manual"@
            + after),
    ensures
        decision_of(next_action, MergePolicy::PreferNewer) == ("apply"@, "prefer-newer policy"@),
        decision_of(next_action, MergePolicy::PreferLarger) == ("apply"@, "prefer-larger policy"@),
        decision_of(next_action, MergePolicy::KeepBoth) == ("keep_both"@, "keep-both policy"@),
        decision_of(next_action, MergePolicy::Manual) == ("manual"@, "manual policy"@),
{
    if contains_text(next_action, "manual"@) {
        let i = choose|i: int| #[trigger] stands_at(next_action, "manual"@, i);
        let n = "manual"@.len() as int;
        assert(next_action =~= next_action.take(i) + "manual"@ + next_action.skip(i + n));
    }
}

/// The names by which the policies are told.
pub proof fn law_names_of_policies()
    ensures
        policy_name(MergePolicy::PreferNewer) == "prefer-newer"@,
        policy_name(MergePolicy::PreferLarger) == "prefer-larger"@,
        policy_name(MergePolicy::KeepBoth) == "keep-both"@,
        policy_name(MergePolicy::Manual) == "manual"@,
{
}

/// Whether an item is the one of a row: it names the row's folders, reads from
/// the left one below the imports, and writes to the right one below the
/// canonical tree.
pub open spec fn is_item_of(
    item: ItemText,
    row: MergeActionCsvRow,
    imports_root: Seq<char>,
    canonical_root: Seq<char>,
) -> bool {
    &&& item.left_folder == row.left_folder@
    &&& item.right_folder == row.right_folder@
    &&& item.source == path_join(imports_root, row.left_folder@)
    &&& item.destination == path_join(canonical_root, row.right_folder@)
}

proof fn lemma_with_item_holds(s: Seq<ItemText>, x: ItemText)
    ensures
        with_item(s, x).to_multiset() == s.to_multiset().insert(x),
        with_item(s, x).len() == s.len() + 1,
    decreases s.len(),
{
    broadcast use vstd::seq_lib::group_to_multiset_ensures;

    if s.len() > 0 && item_lt(x, s.last()) {
        lemma_with_item_holds(s.drop_last(), x);
        assert(s =~= s.drop_last().push(s.last()));
        assert(s.to_multiset().insert(x) =~= s.drop_last().to_multiset().insert(x).insert(
            s.last(),
        ));
    }
}

/// The plan holds one item for each row that is ranked first, and none else.
pub proof fn law_first_rows_are_planned(
    rows: Seq<MergeActionCsvRow>,
    imports_root: Seq<char>,
    canonical_root: Seq<char>,
    policy: MergePolicy,
)
    ensures
        planned_items(rows, imports_root, canonical_root, policy).to_multiset() == rows.filter(
            |row: MergeActionCsvRow| row.rank == 1,
        ).map_values(
            |row: MergeActionCsvRow| item_for(row, imports_root, canonical_root, policy),
        ).to_multiset(),
        planned_items(rows, imports_root, canonical_root, policy).len() == rows.filter(
            |row: MergeActionCsvRow| row.rank == 1,
        ).len(),
    decreases rows.len(),
{
    broadcast use vstd::seq_lib::group_to_multiset_ensures;

    reveal(Seq::filter);
    let first = |row: MergeActionCsvRow| row.rank == 1;
    let of = |row: MergeActionCsvRow| item_for(row, imports_root, canonical_root, policy);
    if rows.len() > 0 {
        let init = rows.drop_last();
        law_first_rows_are_planned(init, imports_root, canonical_root, policy);
        if first(rows.last()) {
            let before = planned_items(init, imports_root, canonical_root, policy);
            lemma_with_item_holds(before, of(rows.last()));
            assert(rows.filter(first).map_values(of) =~= init.filter(first).map_values(of).push(
                of(rows.last()),
            ));
        }
    } else {
        assert(rows.filter(first).map_values(of) =~= Seq::<ItemText>::empty());
        assert(planned_items(rows, imports_root, canonical_root, policy) =~= Seq::empty());
    }
}

/// The item of a row leads from the row's left folder to its right one.
pub proof fn law_items_lead_left_to_right(
    row: MergeActionCsvRow,
    imports_root: Seq<char>,
    canonical_root: Seq<char>,
    policy: MergePolicy,
)
    ensures
        is_item_of(
            item_for(row, imports_root, canonical_root, policy),
            row,
            imports_root,
            canonical_root,
        ),
        (
            item_for(row, imports_root, canonical_root, policy).decision,
            item_for(row, imports_root, canonical_root, policy).reason,
        ) == decision_of(row.next_action@, policy),
{
}

/// The number of items of a decision is that of the items that name it.
pub proof fn law_decided_counts(items: Seq<ItemText>, decision: Seq<char>)
    ensures
        decided(items, decision) == items.filter(|x: ItemText| x.decision == decision).len(),
    decreases items.len(),
{
    reveal(Seq::filter);
    if items.len() > 0 {
        law_decided_counts(items.drop_last(), decision);
    }
}

/// The items that are gone through are those of the decision that is asked for,
/// each once and in the order of the plan; where none is asked for, all are.
pub proof fn law_asked_for_are_chosen(items: Seq<ItemText>, only: Option<Seq<char>>)
    ensures
        forall|k: int| #[trigger]
            passing(items, only).contains(k) <==> 0 <= k < items.len() && (only is Some
                ==> items[k].decision
                == only->0),
        forall|i: int, j: int|
            0 <= i < j < passing(items, only).len() ==> #[trigger] passing(items, only)[i]
                < #[trigger] passing(items, only)[j],
    decreases items.len(),
{
    if items.len() > 0 {
        let init = items.drop_last();
        law_asked_for_are_chosen(init, only);
        let before = passing(init, only);
        let now = passing(items, only);
        assert forall|k: int| #[trigger] now.contains(k) <==> 0 <= k < items.len() && (only is Some
            ==> items[k].decision == only->0) by {
            assert(before.contains(k) <==> 0 <= k < init.len() && (only is Some
                ==> init[k].decision == only->0));
            if before.contains(k) {
                let i = choose|i: int| 0 <= i < before.len() && before[i] == k;
                assert(now[i] == k);
            }
            if k == items.len() - 1 && now.len() > before.len() {
                assert(now[before.len() as int] == k);
            }
            if now.contains(k) {
                let i = choose|i: int| 0 <= i < now.len() && now[i] == k;
                if i < before.len() {
                    assert(before[i] == k);
                }
            }
        }
        assert forall|i: int, j: int| 0 <= i < j < now.len() implies #[trigger] now[i]
            < #[trigger] now[j] by {
            if j == before.len() {
                assert(before.contains(before[i]));
            }
        }
    }
}

// ---------------------------------------------------------------------------
// Going through the items
// ---------------------------------------------------------------------------

/// An item that is not left to review fails where nothing can be copied from
/// its source, and only there.
pub proof fn law_merge_fails_without_source(decision: Seq<char>, dry_run: bool, facts: MergeFacts)
    requires
        decision != "manual"@,
    ensures
        merge_ruling(decision, dry_run, facts) == MergeRuling::Failed <==> facts.source == Some(
            MergeSource::Missing,
        ) || facts.source == Some(MergeSource::Other),
        facts.source is None ==> merge_ruling(decision, dry_run, facts) == MergeRuling::Ask(
            MergeQuestion::Source,
        ),
{
}

/// A file is applied in place of what stands at its destination, except where
/// the same file stands there already: then it is left as it is.
pub proof fn law_same_file_is_not_merged_again(
    decision: Seq<char>,
    dry_run: bool,
    facts: MergeFacts,
)
    requires
        decision != "manual"@,
        decision != "keep_both"@,
        facts.source == Some(MergeSource::File),
    ensures
        facts.same is None ==> merge_ruling(decision, dry_run, facts) == MergeRuling::Ask(
            MergeQuestion::Same,
        ),
        facts.same == Some(true) <==> merge_ruling(decision, dry_run, facts)
            == MergeRuling::SkippedSame,
        facts.same == Some(false) && !dry_run && facts.placed is None ==> merge_ruling(
            decision,
            dry_run,
            facts,
        ) == MergeRuling::Ask(MergeQuestion::Place(MergePlace::FileInPlace)),
        facts.same == Some(false) && (dry_run || facts.placed is Some) ==> merge_ruling(
            decision,
            dry_run,
            facts,
        ) == MergeRuling::Applied,
{
}

/// A folder is applied over what stands at its destination.
pub proof fn law_folder_is_merged_over(decision: Seq<char>, dry_run: bool, facts: MergeFacts)
    requires
        decision != "manual"@,
        decision != "keep_both"@,
        facts.source == Some(MergeSource::Directory),
    ensures
        !dry_run && facts.placed is None ==> merge_ruling(decision, dry_run, facts)
            == MergeRuling::Ask(MergeQuestion::Place(MergePlace::TreeInPlace)),
        dry_run || facts.placed is Some ==> merge_ruling(decision, dry_run, facts)
            == MergeRuling::Applied,
{
}

/// To keep both puts a file or a folder beside what stands at its destination,
/// whether or not that is the same.
pub proof fn law_both_are_kept(dry_run: bool, facts: MergeFacts)
    ensures
        facts.source == Some(MergeSource::File) && !dry_run && facts.placed is None
            ==> merge_ruling("keep_both"@, dry_run, facts) == MergeRuling::Ask(
            MergeQuestion::Place(MergePlace::FileBeside),
        ),
        facts.source == Some(MergeSource::Directory) && !dry_run && facts.placed is None
            ==> merge_ruling("keep_both"@, dry_run, facts) == MergeRuling::Ask(
            MergeQuestion::Place(MergePlace::TreeBeside),
        ),
        (facts.source == Some(MergeSource::File) || facts.source == Some(MergeSource::Directory))
            && (dry_run || facts.placed is Some) ==> merge_ruling("keep_both"@, dry_run, facts)
            == MergeRuling::Applied,
{
    reveal_strlit("keep_both");
    reveal_strlit("manual");
    assert("keep_both"@.len() != "manual"@.len());
}

/// An item that is settled counts as exactly one of applied, left to review,
/// failed and left as it is; beside those, what was kept beside is counted, and
/// what the copying of its tree came to.
pub proof fn law_merge_counts_each_item(
    before: MergeTotals,
    after: MergeTotals,
    decision: Seq<char>,
    facts: MergeFacts,
    ruling: MergeRuling,
)
    requires
        merge_counted(before, after, decision, facts, ruling),
    ensures
        after.applied - before.applied == (if ruling == MergeRuling::Applied {
            1int
        } else {
            0
        }),
        after.manual - before.manual == (if ruling == MergeRuling::Manual {
            1int
        } else {
            0
        }),
        after.failed - before.failed == (if ruling == MergeRuling::Failed {
            1int
        } else {
            0
        }),
        after.kept_both - before.kept_both == (if decision == "keep_both"@ {
            1int
        } else {
            0
        }),
        after.renamed_targets - before.renamed_targets == (if decision == "keep_both"@ && ruling
            == MergeRuling::Applied {
            1int
        } else {
            0
        }),
        ruling == MergeRuling::SkippedSame ==> after.skipped_existing == before.skipped_existing + 1
            && after.conflicts == before.conflicts,
        ruling == MergeRuling::Applied ==> {
            &&& facts.placed is None ==> after.skipped_existing == before.skipped_existing
                && after.conflicts == before.conflicts
            &&& facts.placed matches Some(tree) ==> after.skipped_existing
                == before.skipped_existing + tree.skipped_existing && after.conflicts
                == before.conflicts + tree.conflicts
        },
        ruling == MergeRuling::Manual || ruling == MergeRuling::Failed ==> after.skipped_existing
            == before.skipped_existing && after.conflicts == before.conflicts,
{
}

/// Of a tree that is copied, folders are made; what is neither folder nor file
/// is passed over; and a file is skipped where it is the same, a conflict where
/// another stands there that may not be replaced, and copied in all other
/// cases.
pub proof fn law_tree_entries_are_told_apart(
    is_file: bool,
    same: bool,
    exists: bool,
    overwrite: bool,
)
    ensures
        tree_step(true, is_file, same, exists, overwrite) == TreeStep::MakeDirectory,
        tree_step(false, false, same, exists, overwrite) == TreeStep::Pass,
        tree_step(false, true, true, exists, overwrite) == TreeStep::SkipSame,
        tree_step(false, true, false, true, false) == TreeStep::Conflict,
        tree_step(false, true, false, true, true) == (TreeStep::Copy { replace: true }),
        tree_step(false, true, false, false, overwrite) == (TreeStep::Copy { replace: false }),
{
}

/// The names that are tried beside a path all start with it, and no two of them
/// are the same.
pub proof fn law_names_beside_differ(base: Seq<char>, i: nat, j: nat)
    requires
        i < j,
        i < 10_000,
    ensures
        beside_name(base, i) != beside_name(base, j),
        (base + ".from_import"@).is_prefix_of(beside_name(base, i)),
        beside_name(base, 0) == base + ".from_import"@,
        i > 0 ==> beside_name(base, i) == base + ".from_import."@ + decimal(i),
{
    law_decimal_round_trip(i);
    law_decimal_round_trip(j);
    reveal_strlit(".from_import");
    reveal_strlit(".from_import.");
    reveal_strlit(".from_import.fallback");
    let plain = ".from_import"@;
    let lead = ".from_import."@;
    let last = ".from_import.fallback"@;
    assert(plain.len() == 12 && lead.len() == 13 && last.len() == 21);
    let n = base.len() as int;
    let a = beside_name(base, i);
    let b = beside_name(base, j);
    assert(a.take(n + 12) =~= base + plain);
    if i == 0 {
        assert(b.len() > a.len());
    } else if j < 10_000 {
        assert(a.skip(n + 13) =~= decimal(i));
        assert(b.skip(n + 13) =~= decimal(j));
    } else {
        assert(a[n + 13] == decimal(i)[0]);
        assert(b[n + 13] == last[13]);
        assert(is_digit(decimal(i)[0]));
    }
}

/// At most as many items are gone through as is asked for, and all where
/// nothing is.
pub proof fn law_as_many_items_as_asked_for(n: int, most: usize)
    requires
        n >= 0,
    ensures
        limited(n, None) == n,
        limited(n, Some(most)) <= most,
        limited(n, Some(most)) <= n,
        limited(n, Some(most)) == most || limited(n, Some(most)) == n,
{
}

/// The items of a plan stand in the order of their left folders, and those of
/// one left folder in that of their right ones.
pub proof fn law_items_stand_by_their_folders(items: Seq<ItemText>, i: int, j: int)
    requires
        items_ordered(items),
        0 <= i < j < items.len(),
    ensures
        items[i].left_folder == items[j].left_folder || text_lt(
            items[i].left_folder,
            items[j].left_folder,
        ),
        items[i].left_folder == items[j].left_folder ==> items[i].right_folder
            == items[j].right_folder || text_lt(items[i].right_folder, items[j].right_folder),
{
    lemma_text_lt_total(items[i].left_folder, items[j].left_folder);
    lemma_text_lt_total(items[i].right_folder, items[j].right_folder);
    assert(!item_lt(items[j], items[i]));
}

} // verus!
