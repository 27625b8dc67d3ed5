use nightindex::pattern::{path_pattern_matches_spec, PatternSpec};
use nightindex::plan::{
    build_copy_missing_plan, filter_plan_by_files_from, filter_plan_by_max_age,
    filter_plan_by_patterns, CopyPlan, CopyPlanItem, CopyPlanSummary,
};
use nightindex::policy::ExcludePolicy;
use nightindex::record::FileRecord;
use nightindex::textmap::TextMap;

fn item(rel_path: &str, file_type: &str, size: u64, mtime_ns: i64) -> CopyPlanItem {
    CopyPlanItem {
        rel_path: rel_path.to_string(),
        file_type: file_type.to_string(),
        size,
        mtime_ns,
        fast_hash: None,
    }
}

fn plan(items: Vec<CopyPlanItem>) -> CopyPlan {
    CopyPlan {
        mode: "copy-missing".to_string(),
        left_label: "left".to_string(),
        right_label: "right".to_string(),
        left_db: None,
        right_db: None,
        generated_at_ns: 0,
        summary: CopyPlanSummary {
            files_to_copy: 3,
            bytes_to_copy: 12,
            left_files: 3,
            right_files: 0,
        },
        items,
    }
}

fn has(plan: &CopyPlan, rel_path: &str) -> bool {
    plan.items.iter().any(|item| item.rel_path == rel_path)
}

fn row(rel_path: &str, size: u64) -> FileRecord {
    FileRecord {
        rel_path: rel_path.to_string(),
        file_type: "file".to_string(),
        size,
        mtime_ns: 5,
        fast_hash: None,
    }
}

#[test]
fn filter_plan_by_patterns_respects_directory_only_patterns() {
    let plan = plan(vec![
        item("QCOM", "file", 1, 1),
        item("QCOM/readme.md", "file", 2, 2),
        item("QCOM/tools/helper.py", "file", 3, 3),
    ]);

    let filtered = filter_plan_by_patterns(
        &plan,
        &[PatternSpec::parse("QCOM/").expect("dir-only pattern")],
        &[],
    );

    assert_eq!(filtered.summary.files_to_copy, 2);
    assert_eq!(filtered.summary.bytes_to_copy, 5);
    assert_eq!(filtered.items.len(), 2);
    assert!(has(&filtered, "QCOM/readme.md"));
    assert!(has(&filtered, "QCOM/tools/helper.py"));
    assert!(!has(&filtered, "QCOM"));
}

#[test]
fn filter_plan_by_files_from_keeps_listed_paths() {
    let plan = plan(vec![
        item("keep.bin", "file", 2, 1),
        item("nested/item.txt", "file", 4, 2),
        item("other.bin", "file", 6, 3),
    ]);

    let filtered = filter_plan_by_files_from(
        &plan,
        &[
            PatternSpec::parse("keep.bin").expect("file pattern"),
            PatternSpec::parse("nested/").expect("dir pattern"),
        ],
    );

    assert_eq!(filtered.summary.files_to_copy, 2);
    assert_eq!(filtered.summary.bytes_to_copy, 6);
    assert_eq!(filtered.items.len(), 2);
    assert!(has(&filtered, "keep.bin"));
    assert!(has(&filtered, "nested/item.txt"));
    assert!(!has(&filtered, "other.bin"));
}

#[test]
fn filter_plan_by_max_age_keeps_only_recent_items() {
    let plan = plan(vec![
        item("old.bin", "file", 2, 1_000),
        item("fresh.bin", "file", 4, 950_000_000),
        item("link", "symlink", 6, 980_000_000),
    ]);

    let filtered = filter_plan_by_max_age(&plan, 100_000_000, 1_000_000_000);

    assert_eq!(filtered.summary.files_to_copy, 2);
    assert_eq!(filtered.summary.bytes_to_copy, 10);
    assert_eq!(filtered.items.len(), 2);
    assert!(has(&filtered, "fresh.bin"));
    assert!(has(&filtered, "link"));
    assert!(!has(&filtered, "old.bin"));
}

#[test]
fn no_age_at_all_keeps_nothing() {
    let plan = plan(vec![item("a", "file", 2, 1_000)]);
    let filtered = filter_plan_by_max_age(&plan, 0, 1_000);
    assert!(filtered.items.is_empty());
    assert_eq!(filtered.summary.bytes_to_copy, 0);
    assert_eq!(filtered.summary.left_files, 3);
}

#[test]
fn what_is_of_the_future_counts_as_new() {
    let plan = plan(vec![item("a", "file", 2, i64::MAX)]);
    assert_eq!(filter_plan_by_max_age(&plan, 1, i64::MIN).items.len(), 1);
}

#[test]
fn a_plan_copies_what_is_missing_in_order() {
    let left = vec![row("b", 2), row("a", 1), row("c/d", 4), row("a", 8)];
    let right = vec![row("b", 2)];
    let plan = build_copy_missing_plan(&left, &right, "l.db", "r.db", "l", "r", None, 77);
    assert_eq!(plan.mode, "copy-missing");
    assert_eq!(plan.generated_at_ns, 77);
    assert_eq!(plan.items.len(), 2);
    assert_eq!(plan.items[0].rel_path, "a");
    assert_eq!(plan.items[0].size, 8);
    assert_eq!(plan.items[1].rel_path, "c/d");
    assert_eq!(plan.summary.files_to_copy, 2);
    assert_eq!(plan.summary.bytes_to_copy, 12);
    assert_eq!(plan.summary.left_files, 3);
    assert_eq!(plan.summary.right_files, 1);
}

#[test]
fn a_plan_copies_what_has_changed() {
    let mut touched = row("c", 3);
    touched.mtime_ns += 1;
    let mut hashed = row("d", 4);
    hashed.fast_hash = Some("h".to_string());
    let left = vec![row("a", 1), row("b", 2), touched, hashed];
    let right = vec![row("a", 1), row("b", 9), row("c", 3), row("d", 4), row("e", 5)];
    let plan = build_copy_missing_plan(&left, &right, "l", "r", "l", "r", None, 0);
    let paths: Vec<&str> = plan.items.iter().map(|item| item.rel_path.as_str()).collect();
    assert_eq!(paths, ["b", "c", "d"]);
    assert_eq!(plan.items[0].size, 2);
    assert_eq!(plan.summary.bytes_to_copy, 9);
    let done = build_copy_missing_plan(&left, &left, "l", "r", "l", "r", None, 0);
    assert!(done.items.is_empty());
}

#[test]
fn nothing_is_missing_from_itself() {
    let left = vec![row("b", 2), row("a", 1)];
    let right = vec![row("b", 2), row("a", 1)];
    let plan = build_copy_missing_plan(&left, &right, "l", "r", "l", "r", None, 0);
    assert!(plan.items.is_empty());
}

#[test]
fn a_policy_keeps_paths_out_of_the_plan() {
    let policy = ExcludePolicy {
        directory_prefixes: vec!["c".to_string()],
        folder_name_additions: Vec::new(),
        subtree_overrides: TextMap::new(),
        enabled: true,
    };
    let left = vec![row("a", 1), row("c/d", 4)];
    let plan =
        build_copy_missing_plan(&left, &Vec::new(), "l", "r", "l", "r", Some(&policy), 0);
    assert_eq!(plan.items.len(), 1);
    assert_eq!(plan.items[0].rel_path, "a");
}

#[test]
fn patterns_match_segments_and_trees() {
    let all = PatternSpec::parse("src/**").unwrap();
    assert!(path_pattern_matches_spec(&all, "src/a/b.rs"));
    assert!(path_pattern_matches_spec(&all, "src"));
    assert!(!path_pattern_matches_spec(&all, "lib/a.rs"));
    let one = PatternSpec::parse("src/?.rs").unwrap();
    assert!(path_pattern_matches_spec(&one, "src/a.rs"));
    assert!(!path_pattern_matches_spec(&one, "src/ab.rs"));
    assert!(PatternSpec::parse(" / ").is_none());
    let round = PatternSpec::parse("a/b/").unwrap();
    assert_eq!(round.display_value(), "a/b/");
    assert_eq!(PatternSpec::parse(&round.display_value()), Some(round));
}

#[test]
fn filter_plan_by_patterns_applies_allowlist_and_blocklist() {
    let plan = plan(vec![
        item("QCOM/keep.bin", "file", 2, 1),
        item("QCOM/tmp/drop.bin", "file", 4, 2),
        item("ARM64/skip.bin", "file", 6, 3),
    ]);

    let filtered = filter_plan_by_patterns(
        &plan,
        &[
            PatternSpec::parse("QCOM/**").expect("pattern"),
            PatternSpec::parse("ARM64/*.bin").expect("pattern"),
        ],
        &[PatternSpec::parse("QCOM/tmp/*").expect("pattern")],
    );

    assert_eq!(filtered.summary.files_to_copy, 2);
    assert_eq!(filtered.summary.bytes_to_copy, 8);
    assert_eq!(filtered.items.len(), 2);
    assert!(has(&filtered, "QCOM/keep.bin"));
    assert!(has(&filtered, "ARM64/skip.bin"));
    assert!(!has(&filtered, "QCOM/tmp/drop.bin"));
}
