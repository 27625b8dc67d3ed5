use nightindex::archive_rows::{archive_row_is_stale, archive_row_step, ArchiveRowStep};
use nightindex::extract_check::{
    archives_or_built, build_archive_entries, build_archive_entry, build_extract_check_csv,
    check_extracts, tell_check, ExtractCheckEntry,
};
use nightindex::member_diff::{
    build_archive_member_diff_csv, build_archive_member_diff_report, build_archive_member_plan_csv,
    build_archive_member_plan_report, build_archive_member_plan_rows, tell_member_diff,
};
use nightindex::record::FileRecord;

fn rows(paths: &[&str]) -> Vec<FileRecord> {
    paths
        .iter()
        .map(|path| FileRecord {
            rel_path: path.to_string(),
            file_type: "file".to_string(),
            size: 4,
            mtime_ns: -3,
            fast_hash: Some("h".to_string()),
        })
        .collect()
}

#[test]
fn archives_are_picked_from_the_rows() {
    let entries = build_archive_entries(&rows(&["a/notes.txt", "a/pack.tar.gz"]));
    assert_eq!(entries.len(), 1);
    assert_eq!(entries[0].path, "a/pack.tar.gz");
    assert_eq!(entries[0].folder, "a");
    assert_eq!(entries[0].stem, "pack");
    assert_eq!(entries[0].virtual_path, "pack/@tar/gz");
    assert_eq!(entries[0].archive_family, Some("tar.gz".to_string()));
    assert_eq!(entries[0].archive_depth, 2);
}

#[test]
fn archives_are_built_where_none_are_stored() {
    let built = archives_or_built(Vec::new(), &rows(&["a.txt", "b.zip"]));
    assert_eq!(built.len(), 1);
    assert_eq!(built[0].path, "b.zip");
    let kept = archives_or_built(built, &rows(&["c.zip", "d.zip"]));
    assert_eq!(kept.len(), 1);
    assert_eq!(kept[0].path, "b.zip");
}

#[test]
fn archives_are_matched_by_path_and_by_stem() {
    let left = build_archive_entries(&rows(&[
        "same.zip",
        "one/pack.zip",
        "two/pack.zip",
        "lone/left.zip",
    ]));
    let right = build_archive_entries(&rows(&[
        "same.zip",
        "x/pack.zip",
        "y/pack.tar.gz",
        "z/pack.zip",
        "other/right.zip",
    ]));
    let report = check_extracts(&left, &right, "l", "r");
    assert_eq!(report.report_schema, "nightindex.extract_check");
    assert_eq!(report.left_archive_count, 4);
    assert_eq!(report.right_archive_count, 5);
    assert_eq!(report.exact_matches, 1);
    assert_eq!(report.stem_matches, 2);
    // The first left archive finds the last right one.
    assert_eq!(report.matched_by_stem[0].left_path, "one/pack.zip");
    assert_eq!(report.matched_by_stem[0].right_path, "z/pack.zip");
    assert_eq!(report.matched_by_stem[1].left_path, "two/pack.zip");
    assert_eq!(report.matched_by_stem[1].right_path, "y/pack.tar.gz");
    assert_eq!(report.left_only_count, 1);
    assert_eq!(report.left_only[0].path, "lone/left.zip");
    assert_eq!(report.right_only_count, 2);
    assert_eq!(
        report.right_archive_count,
        report.exact_matches + report.stem_matches + report.right_only_count
    );
    assert_eq!(report.right_only[0].path, "other/right.zip");
    assert_eq!(report.right_only[1].path, "x/pack.zip");
    assert_eq!(report.left_only_folders, vec!["lone".to_string()]);
    assert_eq!(
        report.right_only_folders,
        vec!["other".to_string(), "x".to_string()]
    );
    assert_eq!(
        tell_check(&report),
        "[extract-check] summary: 1 exact matches, 2 stem matches, 1 left-only entries (1 folders), 2 right-only entries (2 folders)"
    );
    let csv = build_extract_check_csv(&report);
    assert!(csv.starts_with("section,left_label,right_label,metric,value\nsummary,l,r,left_archive_count,4\n"));
    assert!(csv.contains("summary,l,r,stem_matches,2\n"));
    assert!(csv.contains("left_only,l,r,folder,lone\n"));
    assert!(csv.contains("right_only_entry,l,r,path,x/pack.zip\n"));
    assert!(csv.contains("stem_match,l,r,stem,pack,one/pack.zip|z/pack.zip\n"));
    assert!(csv.contains("stem_match,l,r,virtual_path,pack/@zip,"));
}

#[test]
fn archive_member_diff_reports_exact_and_left_only() {
    let left = build_archive_entries(&rows(&["same.tar.gz", "only_left.tar.gz"]));
    let right = build_archive_entries(&rows(&["same.tar.gz"]));
    let report = build_archive_member_diff_report(&left, &right, "left", "right");
    assert_eq!(report.report_schema, "nightindex.archive_member_diff");
    assert_eq!(report.exact_member_matches, 1);
    assert_eq!(report.left_only_count, 1);
    assert_eq!(report.right_only_count, 0);
    assert_eq!(
        tell_member_diff(&report),
        "[archive-member-diff] summary: 1 exact, 0 payload-family, 1 left-only, 0 right-only"
    );
    let csv = build_archive_member_diff_csv(&report);
    assert!(csv.contains("summary,left,right,exact_member_matches,1\n"));
    assert!(csv.contains("left_only,left,right,virtual_member,only_left/@tar/gz\n"));
}

#[test]
fn members_of_one_side_are_copied_or_reviewed() {
    let left = build_archive_entries(&rows(&["alpha.tar.gz", "payload_v1.zip"]));
    let right = build_archive_entries(&rows(&["beta.tar.xz"]));
    let mut report = build_archive_member_diff_report(&left, &right, "l", "r");
    report.left_only[0].payload_signature = None;
    report.right_only[0].archive_family = report.left_only[1].archive_family.clone();
    report.right_only[0].payload_signature = report.left_only[1].payload_signature.clone();
    let plan = build_archive_member_plan_report(&report);
    assert_eq!(plan.report_schema, "nightindex.archive_member_plan");
    assert_eq!(plan.report_version, 1);
    assert_eq!(plan.left_label, "l");
    assert_eq!(plan.right_label, "r");
    assert_eq!(plan.source_report_schema, "nightindex.archive_member_diff");
    assert_eq!(plan.source_report_version, 1);
    let csv = build_archive_member_plan_csv(&plan);
    let plan = plan.rows;
    assert_eq!(plan.len(), 3);
    assert_eq!(plan[0].side, "left");
    assert_eq!(plan[0].action_class, "review_conflict");
    assert_eq!(plan[0].signal, "left_only_no_payload_signature");
    assert_eq!(plan[0].row_schema, "nightindex.archive_member_plan.row");
    assert_eq!(plan[1].side, "right");
    assert_eq!(plan[1].action_class, "review_payload_family_match");
    assert_eq!(plan[2].side, "left");
    assert_eq!(plan[2].signal, "payload_family_match");
    assert!(csv.starts_with("action_class,side,virtual_member,rel_path,"));
    assert!(csv.contains("review_conflict,left,alpha/@tar/gz,alpha.tar.gz,tar.gz,,2,4,-3,h,left_only_no_payload_signature\n"));
}

#[test]
fn a_tree_has_no_members_alone_against_itself() {
    let left = build_archive_entries(&rows(&["a.zip", "b.zip"]));
    let report = build_archive_member_diff_report(&left, &left, "l", "l");
    assert_eq!(report.exact_member_matches, 2);
    assert_eq!(report.left_only_count + report.right_only_count, 0);
    assert!(build_archive_member_plan_rows(&report).is_empty());
}

/// Renews the archives of an index, as a scan of the paths does at a time.
fn rescan(table: &mut Vec<(ExtractCheckEntry, i64)>, paths: &[&str], at: i64) {
    for row in rows(paths) {
        table.retain(|(entry, _)| entry.path != row.rel_path);
        if archive_row_step(&row) == ArchiveRowStep::Store {
            table.push((build_archive_entry(&row), at));
        }
    }
    table.retain(|(_, stored_at)| !archive_row_is_stale(*stored_at, at));
}

#[test]
fn scan_populates_virtual_archive_member_manifest_and_query() {
    let mut archives = Vec::new();
    rescan(&mut archives, &["fw/payload.tar.gz", "docs/readme.txt"], 1);
    assert_eq!(archives.len(), 1);
    assert_eq!(archives[0].0.path, "fw/payload.tar.gz");
    assert_eq!(archives[0].0.virtual_path, "payload/@tar/gz");
    assert_eq!(archives[0].0.virtual_member, "payload/@tar/gz");
    assert_eq!(archives[0].0.archive_family, Some("tar.gz".to_string()));
    assert_eq!(archives[0].0.archive_depth, 2);
}

#[test]
fn scan_updates_virtual_archive_manifest_when_archive_disappears() {
    let mut archives = Vec::new();
    rescan(&mut archives, &["fw/payload.tar.gz"], 1);
    assert_eq!(archives.len(), 1);
    rescan(&mut archives, &["fw/payload.txt"], 2);
    assert!(archives.is_empty());
}
