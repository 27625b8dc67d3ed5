use nightindex::compat::{parse_compat_copy_flags, CompatCopyArgs, CompatRuntime};
use nightindex::compat_run::{
    add_excludes, add_removals, choose_items, copy_args, count_removals, delete_args, tell_choices,
    tell_opening, tell_totals,
};
use nightindex::delete_run::DeleteExecutionSummary;
use nightindex::plan::{CopyPlan, CopyPlanItem, CopyPlanSummary};
use nightindex::policy::ExcludePolicy;
use nightindex::progress::CopyExecutionSummary;
use nightindex::textmap::TextMap;

fn read(args: &[&str]) -> CompatRuntime {
    let args = CompatCopyArgs {
        compat_args: args.iter().map(|arg| arg.to_string()).collect(),
    };
    parse_compat_copy_flags(&args, &TextMap::new()).expect("arguments")
}

#[test]
fn what_was_read_is_told() {
    let runtime = read(&[
        "--copy-links",
        "--links",
        "--inplace",
        "--stats",
        "-vv",
        "--exclude-if-present",
        ".skip",
        "--no-such-flag",
        "a/",
        "b",
    ]);
    let notes = tell_opening(&runtime, "rsync");
    assert_eq!(
        notes[0],
        "[nightindex rsync] compat symlink flags: --copy-links, --links (dereference symlinks into regular files)"
    );
    assert!(notes[1].starts_with("[nightindex rsync] ignored/unsupported flags: "));
    assert_eq!(
        notes[2],
        "[nightindex rsync] compat flag --inplace accepted"
    );
    assert_eq!(
        notes[3],
        "[nightindex rsync] compat output flags: stats, verbose x2"
    );
    assert!(notes[4].contains("trailing slash is noted"));
    assert_eq!(
        notes[5],
        "[nightindex rsync] exclude-if-present markers: .skip"
    );
    assert!(tell_opening(&read(&["a", "b"]), "rsync").is_empty());
}

#[test]
fn choices_are_told() {
    let runtime = read(&[
        "--exclude",
        "tmp/",
        "--include",
        "src/**",
        "--filter",
        "- old/*",
        "--max-age",
        "1s",
        "a",
        "b",
    ]);
    assert_eq!(
        tell_choices(&runtime, "copy"),
        vec![
            "[nightindex copy] active compatibility excludes: tmp".to_string(),
            "[nightindex copy] include patterns: src/**".to_string(),
            "[nightindex copy] filter excludes: old/*".to_string(),
            "[nightindex copy] max-age filter: 1000000000 ns".to_string(),
        ]
    );
}

#[test]
fn excludes_join_the_policy_once() {
    let mut policy = ExcludePolicy::empty();
    add_excludes(&mut policy, &Vec::new());
    assert!(!policy.enabled);
    add_excludes(
        &mut policy,
        &vec!["tmp/".to_string(), "b".to_string(), "tmp".to_string()],
    );
    assert!(policy.enabled);
    assert_eq!(
        policy.directory_prefixes,
        vec!["tmp".to_string(), "b".to_string()]
    );
}

#[test]
fn arguments_are_handed_on() {
    let runtime = read(&["--backup", "--copy-links", "--size-only", "a", "b"]);
    let copy = copy_args(&runtime, "/a", "/b");
    assert_eq!(copy.source_root, "/a");
    assert_eq!(copy.backup_dir, Some("/b/.nightindex-backup".to_string()));
    assert!(copy.copy_links_as_files);
    assert!(copy.size_only);
    let delete = delete_args(&read(&["--backup-dir", "/x", "a", "b"]), "/b");
    assert_eq!(delete.backup_dir, Some("/x".to_string()));
    assert_eq!(delete_args(&read(&["a", "b"]), "/b").backup_dir, None);
}

fn item(rel_path: &str, mtime_ns: i64) -> CopyPlanItem {
    CopyPlanItem {
        rel_path: rel_path.to_string(),
        file_type: "file".to_string(),
        size: 5,
        mtime_ns,
        fast_hash: None,
    }
}

#[test]
fn entries_are_chosen_by_pattern_and_age() {
    let items = vec![
        item("src/new.rs", 99),
        item("src/old.rs", 1),
        item("lib/new.rs", 99),
    ];
    let plan = CopyPlan {
        mode: "copy-missing".to_string(),
        left_label: "l".to_string(),
        right_label: "r".to_string(),
        left_db: None,
        right_db: None,
        generated_at_ns: 0,
        summary: CopyPlanSummary {
            files_to_copy: 3,
            bytes_to_copy: 15,
            left_files: 3,
            right_files: 0,
        },
        items,
    };
    let mut runtime = read(&["--include", "src/**", "a", "b"]);
    runtime.max_age_ns = Some(10);
    let chosen = choose_items(&plan, &runtime, 100);
    assert_eq!(chosen.items.len(), 1);
    assert_eq!(chosen.items[0].rel_path, "src/new.rs");
    assert_eq!(chosen.summary.files_to_copy, 1);
    assert_eq!(chosen.summary.bytes_to_copy, 5);
    let all = choose_items(&plan, &read(&["a", "b"]), 100);
    assert_eq!(all.items.len(), 3);
}

#[test]
fn removals_join_the_totals() {
    let one = DeleteExecutionSummary {
        deleted_files: 1,
        deleted_bytes: 10,
        failed_files: 2,
    };
    let both = add_removals(&one, &one);
    assert_eq!(both.deleted_bytes, 20);
    let mut summary = CopyExecutionSummary {
        mode: "copy-missing".to_string(),
        dry_run: false,
        overwrite: false,
        left_label: "l".to_string(),
        right_label: "r".to_string(),
        planned_files: 9,
        copied_files: 8,
        skipped_existing: 1,
        skipped_conflict: 2,
        overwritten_files: 3,
        missing_source: 4,
        failed_files: 5,
        copied_bytes: 2048,
        deleted_files: 0,
        deleted_bytes: 0,
    };
    count_removals(&mut summary, &both);
    assert_eq!(summary.deleted_files, 2);
    assert_eq!(summary.failed_files, 9);
    assert_eq!(
        tell_totals(&summary, &read(&["--stats", "a", "b"]), "rsync"),
        Some("[nightindex rsync] summary planned=9 copied=8 skipped_existing=1 skipped_conflict=2 overwritten=3 missing_source=4 failed=9 copied_bytes=2048".to_string())
    );
    assert!(
        tell_totals(&summary, &read(&["--human-readable", "a", "b"]), "rsync")
            .unwrap()
            .ends_with("copied_bytes=2.0 KiB")
    );
    assert_eq!(tell_totals(&summary, &read(&["a", "b"]), "rsync"), None);
}
