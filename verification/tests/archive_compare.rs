use nightindex::archive_compare::{compare_archive_rows, ArchiveMemberRow, PathPair};
use nightindex::ratio::Ratio;

fn row(path: &str, depth: usize, payload_family: &str) -> ArchiveMemberRow {
    ArchiveMemberRow {
        path: path.to_string(),
        depth,
        payload_family: payload_family.to_string(),
    }
}

fn value(ratio: Ratio) -> f64 {
    ratio.num as f64 / ratio.den as f64
}

#[test]
fn exact_overlap_is_full_and_deterministic() {
    let left = vec![row("a/b.txt", 2, "text"), row("c/d.bin", 2, "binary")];
    let right = vec![row("a/b.txt", 2, "text"), row("c/d.bin", 2, "binary")];

    let report = compare_archive_rows(left, right);
    assert_eq!(value(report.scores.exact_overlap_score), 1.0);
    assert_eq!(value(report.scores.nested_overlap_score), 1.0);
    assert_eq!(value(report.scores.depth_weighted_overlap_score), 1.0);
    assert_eq!(
        report.buckets.exact_path_overlap,
        vec!["a/b.txt".to_string(), "c/d.bin".to_string()]
    );
    assert!(report.buckets.nested_path_overlap.is_empty());
    assert!(report.buckets.path_payload_conflict.is_empty());
    assert!(report.buckets.payload_family_only_overlap.is_empty());
}

#[test]
fn depth_weighted_overlap_reflects_depth_skew() {
    let left = vec![row("flat.txt", 1, "text"), row("a/b/c/d.bin", 4, "binary")];
    let right = vec![row("flat.txt", 1, "text"), row("x/y/z/q.bin", 4, "binary")];

    let report = compare_archive_rows(left, right);

    assert_eq!(value(report.scores.exact_overlap_score), 1.0 / 3.0);
    assert_eq!(
        value(report.scores.depth_weighted_overlap_score),
        2.0 / 12.0
    );
    assert!(report
        .scores
        .depth_weighted_overlap_score
        .is_less(&report.scores.exact_overlap_score));
}

#[test]
fn payload_family_only_overlap_detected_without_path_overlap() {
    let left = vec![
        row("left/a.json", 2, "json"),
        row("left/b.bin", 2, "binary"),
    ];
    let right = vec![
        row("right/c.json", 2, "json"),
        row("right/d.txt", 2, "text"),
    ];

    let report = compare_archive_rows(left, right);

    assert_eq!(value(report.scores.exact_overlap_score), 0.0);
    assert_eq!(
        report.buckets.payload_family_only_overlap,
        vec!["json".to_string()]
    );
    assert!(report.buckets.exact_path_overlap.is_empty());
    assert!(report.buckets.path_payload_conflict.is_empty());
}

#[test]
fn nested_pairs_are_detected_without_quadratic_scan_behavior() {
    let left = vec![
        row("root/a", 2, "text"),
        row("root/a/deeper/item.bin", 4, "binary"),
        row("x/y/z", 3, "text"),
    ];
    let right = vec![
        row("root", 1, "text"),
        row("x/y", 2, "text"),
        row("other/path", 2, "text"),
    ];

    let report = compare_archive_rows(left, right);
    let pairs = report.buckets.nested_path_overlap;
    assert!(pairs.contains(&PathPair {
        lhs_path: "root/a".to_string(),
        rhs_path: "root".to_string()
    }));
    assert!(pairs.contains(&PathPair {
        lhs_path: "root/a/deeper/item.bin".to_string(),
        rhs_path: "root".to_string()
    }));
    assert!(pairs.contains(&PathPair {
        lhs_path: "x/y/z".to_string(),
        rhs_path: "x/y".to_string()
    }));
    assert_eq!(pairs.len(), 3);
    assert_eq!(
        report.scores.nested_overlap_score,
        Ratio { num: 2, den: 6 }
    );
}

#[test]
fn families_that_differ_on_a_path_are_conflicts() {
    let left = vec![row("a", 1, "text"), row("b", 1, "json")];
    let right = vec![row("a", 1, "binary"), row("b", 1, "json")];
    let report = compare_archive_rows(left, right);
    assert_eq!(
        report.buckets.path_payload_conflict,
        vec!["a".to_string()]
    );
    assert_eq!(report.left_count, 2);
    assert_eq!(report.right_count, 2);
}

#[test]
fn nothing_shares_nothing() {
    let report = compare_archive_rows(Vec::new(), Vec::new());
    assert_eq!(value(report.scores.exact_overlap_score), 0.0);
    assert_eq!(value(report.scores.depth_weighted_overlap_score), 0.0);
}

#[test]
fn changing_sides_turns_the_pairs_round() {
    let report = compare_archive_rows(vec![row("a", 1, "t")], vec![row("a/b", 2, "t")]);
    let back = compare_archive_rows(vec![row("a/b", 2, "t")], vec![row("a", 1, "t")]);
    assert_eq!(report.buckets.nested_path_overlap[0].lhs_path, "a");
    assert_eq!(report.buckets.nested_path_overlap[0].rhs_path, "a/b");
    assert_eq!(back.buckets.nested_path_overlap[0].lhs_path, "a/b");
    assert_eq!(back.buckets.nested_path_overlap[0].rhs_path, "a");
    assert_eq!(
        report.scores.nested_overlap_score,
        back.scores.nested_overlap_score
    );
}

#[test]
fn changing_sides_keeps_the_scores() {
    let left = || vec![row("a", 1, "t"), row("b", 5, "t"), row("c/d/e", 2, "u")];
    let right = || vec![row("a", 3, "t"), row("c", 1, "u"), row("c/d", 2, "u")];
    let there = compare_archive_rows(left(), right()).scores;
    let back = compare_archive_rows(right(), left()).scores;
    assert_eq!(there.exact_overlap_score, Ratio { num: 1, den: 5 });
    assert_eq!(there.nested_overlap_score, Ratio { num: 2, den: 5 });
    assert_eq!(there.exact_overlap_score, back.exact_overlap_score);
    assert_eq!(there.nested_overlap_score, back.nested_overlap_score);
    assert_eq!(
        there.depth_weighted_overlap_score,
        back.depth_weighted_overlap_score
    );
    assert!(value(there.nested_overlap_score) >= value(there.exact_overlap_score));
}
