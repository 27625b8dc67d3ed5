use nightindex::matching::{DossierConfidenceTier, DossierMatch};
use nightindex::merge::{
    beside_step, build_merge_plan, keep_both_name, merge_decision_for, needs_hashes,
    parse_merge_actions_csv, rule_merge, rule_tree, select_items, tell_merge, BesideStep,
    MergeFacts, MergePlace, MergePolicy, MergeQuestion, MergeRuling, MergeSource, MergeTotals,
    TreeCounts, TreeStep,
};
use nightindex::ratio::Ratio;
use nightindex::report::build_dossier_actions_csv;

const HEADING: &str = "left_folder,rank,right_folder,confidence_tier,next_action,overlap_ratio,shared_hash_count,shared_normalized_file_name_count,shared_rel_file_count\n";

fn table(rows: &str) -> String {
    format!("{HEADING}{rows}")
}

fn nothing() -> MergeFacts {
    MergeFacts {
        source: None,
        same: None,
        placed: None,
    }
}

#[test]
fn merge_plan_and_apply_dry_run_work() {
    let rows = parse_merge_actions_csv(&table(
        "A,1,010001,similar,review and likely apply,0.77,3,2,2\n",
    ));
    assert_eq!(rows.len(), 1);
    assert_eq!(rows[0].shared_hash_count, 3);
    let plan = build_merge_plan(
        &rows,
        "/imports",
        "/canonical",
        MergePolicy::PreferNewer,
        5,
    );
    assert_eq!(plan.schema_version, 1);
    assert_eq!(plan.generated_at_ns, 5);
    assert_eq!(plan.items.len(), 1);
    assert_eq!(plan.items[0].source, "/imports/A");
    assert_eq!(plan.items[0].destination, "/canonical/010001");
    assert_eq!(plan.items[0].decision, "apply");
    assert_eq!(plan.items[0].reason, "prefer-newer policy");
    assert_eq!(plan.summary.total_items, 1);
    assert_eq!(plan.summary.apply_items, 1);

    let mut facts = nothing();
    facts.source = Some(MergeSource::Directory);
    assert_eq!(rule_merge("apply", true, &facts), MergeRuling::Applied);
    let mut totals = MergeTotals::new();
    totals.settle("apply", true, &facts);
    assert_eq!(totals.applied, 1);
}

#[test]
fn merge_apply_materializes_directory_and_keep_both_variant() {
    let rows = parse_merge_actions_csv(&table(
        "A,1,010001,similar,review and likely apply,0.77,3,2,2\n",
    ));
    let plan = build_merge_plan(&rows, "/i", "/c", MergePolicy::KeepBoth, 0);
    assert_eq!(plan.items[0].decision, "keep_both");
    assert_eq!(plan.summary.keep_both_items, 1);
    let mut facts = nothing();
    assert_eq!(
        rule_merge("keep_both", false, &facts),
        MergeRuling::Ask(MergeQuestion::Source)
    );
    facts.source = Some(MergeSource::Directory);
    assert_eq!(
        rule_merge("keep_both", false, &facts),
        MergeRuling::Ask(MergeQuestion::Place(MergePlace::TreeBeside))
    );
    assert_eq!(
        rule_merge("apply", false, &facts),
        MergeRuling::Ask(MergeQuestion::Place(MergePlace::TreeInPlace))
    );
    facts.placed = Some(TreeCounts {
        skipped_existing: 2,
        conflicts: 1,
    });
    let mut totals = MergeTotals::new();
    totals.settle("keep_both", false, &facts);
    assert_eq!(totals.applied, 1);
    assert_eq!(totals.kept_both, 1);
    assert_eq!(totals.renamed_targets, 1);
    assert_eq!(totals.skipped_existing, 2);
    assert_eq!(totals.conflicts, 1);
    assert_eq!(keep_both_name("/c/010001", 0), "/c/010001.from_import");
}

#[test]
fn only_first_ranks_are_planned_in_order() {
    let rows = parse_merge_actions_csv(&table(
        "B,1,x,similar,review,0.5,1,1,1\nA,2,z,similar,review,0.5,1,1,1\n\nshort,1\nA,1,y,manual,manual inspection required,0.5,1,1,1\nA,one,y,similar,review,0.5,1,1,1\n",
    ));
    assert_eq!(rows.len(), 4);
    assert_eq!(rows[3].rank, 0);
    let plan = build_merge_plan(&rows, "/i", "/c", MergePolicy::PreferLarger, 0);
    assert_eq!(plan.items.len(), 2);
    assert_eq!(plan.items[0].left_folder, "A");
    assert_eq!(plan.items[0].decision, "manual");
    assert_eq!(plan.items[0].reason, "dossier suggested manual review");
    assert_eq!(plan.items[1].left_folder, "B");
    assert_eq!(plan.summary.total_items, 2);
    assert_eq!(plan.summary.manual_items, 1);
    assert_eq!(plan.summary.apply_items, 1);
    assert_eq!(plan.summary.keep_both_items, 0);
}

#[test]
fn items_of_the_same_folders_keep_their_order() {
    let rows = parse_merge_actions_csv(&table(
        "A,1,x,t,first manual,0,0,0,0\nA,1,x,t,second,0,0,0,0\n",
    ));
    let plan = build_merge_plan(&rows, "/i", "/c", MergePolicy::PreferNewer, 0);
    assert_eq!(plan.items[0].decision, "manual");
    assert_eq!(plan.items[1].decision, "apply");
}

#[test]
fn each_policy_has_its_decision() {
    let rows = parse_merge_actions_csv(&table("A,1,x,t,review,0,0,0,0\n"));
    let decide = |policy| merge_decision_for(&rows[0], policy);
    assert_eq!(
        decide(MergePolicy::PreferNewer),
        ("apply", "prefer-newer policy")
    );
    assert_eq!(
        decide(MergePolicy::PreferLarger),
        ("apply", "prefer-larger policy")
    );
    assert_eq!(
        decide(MergePolicy::KeepBoth),
        ("keep_both", "keep-both policy")
    );
    assert_eq!(decide(MergePolicy::Manual), ("manual", "manual policy"));
}

#[test]
fn a_file_is_compared_before_it_is_replaced() {
    let mut facts = nothing();
    facts.source = Some(MergeSource::File);
    assert_eq!(
        rule_merge("apply", true, &facts),
        MergeRuling::Ask(MergeQuestion::Same)
    );
    facts.same = Some(true);
    assert_eq!(rule_merge("apply", false, &facts), MergeRuling::SkippedSame);
    facts.same = Some(false);
    assert_eq!(rule_merge("apply", true, &facts), MergeRuling::Applied);
    assert_eq!(
        rule_merge("apply", false, &facts),
        MergeRuling::Ask(MergeQuestion::Place(MergePlace::FileInPlace))
    );
    assert_eq!(
        rule_merge("keep_both", false, &facts),
        MergeRuling::Ask(MergeQuestion::Place(MergePlace::FileBeside))
    );
    assert!(needs_hashes(true, true, true, 5, 5));
    assert!(!needs_hashes(true, true, true, 5, 6));
    assert!(!needs_hashes(false, true, true, 5, 5));
}

#[test]
fn what_is_missing_fails_and_manual_is_left_alone() {
    let mut facts = nothing();
    facts.source = Some(MergeSource::Missing);
    assert_eq!(rule_merge("apply", false, &facts), MergeRuling::Failed);
    assert_eq!(rule_merge("manual", false, &nothing()), MergeRuling::Manual);
    let mut totals = MergeTotals::new();
    totals.settle("keep_both", false, &facts);
    totals.settle("manual", false, &nothing());
    assert_eq!(totals.failed, 1);
    assert_eq!(totals.kept_both, 1);
    assert_eq!(totals.manual, 1);
    assert_eq!(totals.renamed_targets, 0);
}

#[test]
fn items_are_chosen_by_decision_and_number() {
    let rows = parse_merge_actions_csv(&table(
        "A,1,x,t,manual,0,0,0,0\nB,1,x,t,go,0,0,0,0\nC,1,x,t,go,0,0,0,0\n",
    ));
    let plan = build_merge_plan(&rows, "/i", "/c", MergePolicy::PreferNewer, 0);
    let selection = select_items(&plan.items, Some("apply"), Some(1));
    assert_eq!(selection.items, vec![1]);
    assert_eq!(selection.skipped_by_filter, 1);
    assert_eq!(selection.skipped_by_limit, 1);
    let all = select_items(&plan.items, None, None);
    assert_eq!(all.items, vec![0, 1, 2]);
    assert_eq!(
        tell_merge(
            &MergeTotals::new(),
            true,
            MergePolicy::PreferNewer,
            3,
            &selection
        ),
        "{\"applied\":0,\"manual\":0,\"kept_both\":0,\"skipped_existing\":0,\"conflicts\":0,\"failed\":0,\"renamed_targets\":0,\"dry_run\":true,\"policy\":\"prefer-newer\",\"planned_items\":3,\"selected_items\":1,\"skipped_by_filter\":1,\"skipped_by_limit\":1}"
    );
}

#[test]
fn names_beside_are_tried_one_after_another() {
    assert_eq!(keep_both_name("b", 7), "b.from_import.7");
    assert_eq!(keep_both_name("b", 9_999), "b.from_import.9999");
    assert_eq!(keep_both_name("b", 10_000), "b.from_import.fallback");
    assert_eq!(beside_step(0, false), BesideStep::Use);
    assert_eq!(beside_step(0, true), BesideStep::Next);
    assert_eq!(beside_step(9_999, true), BesideStep::Next);
    assert_eq!(beside_step(10_000, true), BesideStep::Use);
}

#[test]
fn a_tree_is_copied_entry_by_entry() {
    assert_eq!(
        rule_tree(true, false, false, true, false),
        TreeStep::MakeDirectory
    );
    assert_eq!(rule_tree(false, false, false, false, false), TreeStep::Pass);
    assert_eq!(
        rule_tree(false, true, true, true, true),
        TreeStep::SkipSame
    );
    assert_eq!(
        rule_tree(false, true, false, true, false),
        TreeStep::Conflict
    );
    assert_eq!(
        rule_tree(false, true, false, true, true),
        TreeStep::Copy { replace: true }
    );
    assert_eq!(
        rule_tree(false, true, false, false, false),
        TreeStep::Copy { replace: false }
    );
    let mut counts = TreeCounts {
        skipped_existing: 0,
        conflicts: 0,
    };
    counts.count(TreeStep::SkipSame);
    counts.count(TreeStep::Conflict);
    counts.count(TreeStep::Pass);
    assert_eq!(counts.skipped_existing, 1);
    assert_eq!(counts.conflicts, 1);
}

#[test]
fn a_merge_reads_what_a_dossier_wrote() {
    let candidate = |left: &str, right: &str| DossierMatch {
        left_folder: left.to_string(),
        right_folder: right.to_string(),
        overlap_weight: 1000,
        left_weight: 2000,
        right_weight: 2000,
        overlap_ratio: Ratio { num: 1, den: 3 },
        shared_rel_file_count: 1,
        shared_exact_file_name_count: 0,
        shared_normalized_file_name_count: 2,
        shared_file_stem_count: 0,
        shared_file_ext_count: 0,
        shared_ext_stem_count: 0,
        shared_hash_count: 3,
        shared_folder_token_count: 0,
        shared_normalized_parent_folder_count: 0,
        shared_binaryity_count: 0,
        shared_archive_family_count: 0,
        shared_language_count: 0,
        shared_size_class_count: 0,
        confidence_tier: DossierConfidenceTier::Similar,
    };
    let csv = build_dossier_actions_csv(&vec![
        candidate("a, \"b\"", "c"),
        candidate("a, \"b\"", "d"),
    ]);
    let rows = parse_merge_actions_csv(&csv);
    assert_eq!(rows.len(), 2);
    assert_eq!(rows[0].left_folder, "a, \"b\"");
    assert_eq!(rows[0].rank, 1);
    assert_eq!(rows[1].rank, 2);
    assert_eq!(rows[1].right_folder, "d");
    assert_eq!(rows[0].overlap_ratio, "0.333333");
    assert_eq!(rows[0].next_action, "review and likely apply");
}
