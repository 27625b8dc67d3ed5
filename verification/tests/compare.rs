use nightindex::cache::{profile_cache_usage, ReportCacheMetrics};
use nightindex::compare::{
    build_brief, build_brief_csv, build_compare_and_copy_summary, build_compare_summary_csv,
    estimate_copy_eta, latest_sample, tell_brief, CopyRunSample,
};
use nightindex::double::Double;
use nightindex::fingerprint::build_file_fingerprint_profile;
use nightindex::plan::build_copy_missing_plan;
use nightindex::record::FileRecord;
use nightindex::status::{
    build_inspect_report, build_label_row, build_status, recent_since, LabelCounts, StatusCounts,
};
use nightindex::textmap::TextMap;

fn float(x: &Double) -> f64 {
    x.m as f64 * (x.e as f64).exp2()
}

fn row(rel_path: &str, size: u64, mtime_ns: i64, fast_hash: Option<&str>) -> FileRecord {
    FileRecord {
        rel_path: rel_path.to_string(),
        file_type: "file".to_string(),
        size,
        mtime_ns,
        fast_hash: fast_hash.map(|h| h.to_string()),
    }
}

fn no_metrics() -> ReportCacheMetrics {
    let usage = profile_cache_usage(&Vec::new(), &TextMap::new());
    ReportCacheMetrics {
        left_profile_cache: usage,
        right_profile_cache: usage,
    }
}

fn left() -> Vec<FileRecord> {
    vec![
        row("same", 1, 1, None),
        row("hash", 1, 1, Some("a")),
        row("size", 1, 1, None),
        row("left-1", 10, 1, None),
        row("left-2", 20, 1, None),
    ]
}

fn right() -> Vec<FileRecord> {
    vec![
        row("same", 1, 1, None),
        row("hash", 1, 1, Some("b")),
        row("size", 2, 1, None),
        row("right", 1, 1, None),
    ]
}

#[test]
fn trees_are_compared_path_by_path() {
    let (summary, files, bytes) =
        build_compare_and_copy_summary(&left(), &right(), "l", "r,", no_metrics());
    assert_eq!(summary.report_schema, "nightindex.compare_summary");
    assert_eq!(summary.report_version, 1);
    assert_eq!(summary.left_files, 5);
    assert_eq!(summary.right_files, 4);
    assert_eq!(summary.same_path_same_meta, 1);
    assert_eq!(summary.same_path_changed, 2);
    assert_eq!(summary.left_only, 2);
    assert_eq!(summary.right_only, 1);
    assert_eq!(files, 2);
    assert_eq!(bytes, 30);
    assert_eq!(
        build_compare_summary_csv(&summary),
        "left_label,right_label,left_files,right_files,same_path_same_meta,same_path_changed,left_only,right_only\nl,\"r,\",5,4,1,2,2,1\n"
    );
}

#[test]
fn changing_sides_exchanges_what_each_has_alone() {
    let (a, _, _) = build_compare_and_copy_summary(&left(), &right(), "l", "r", no_metrics());
    let (b, _, _) = build_compare_and_copy_summary(&right(), &left(), "r", "l", no_metrics());
    assert_eq!(a.left_only, b.right_only);
    assert_eq!(a.right_only, b.left_only);
    assert_eq!(a.same_path_changed, b.same_path_changed);
    let (same, files, _) =
        build_compare_and_copy_summary(&left(), &left(), "l", "l", no_metrics());
    assert_eq!(same.same_path_same_meta, 5);
    assert_eq!(files, 0);
}

#[test]
fn a_brief_tells_what_a_plan_copies() {
    let (_, files, bytes) =
        build_compare_and_copy_summary(&left(), &right(), "l", "r", no_metrics());
    let plan = build_copy_missing_plan(&left(), &right(), "l", "r", "l", "r", None, 0);
    let missing: Vec<_> = plan
        .items
        .iter()
        .filter(|item| right().iter().all(|row| row.rel_path != item.rel_path))
        .collect();
    assert_eq!(missing.len(), files);
    assert_eq!(missing.iter().map(|item| item.size).sum::<u64>(), bytes);
    assert_eq!(plan.items.len() - missing.len(), 2);
}

fn sample(bytes_copied: u64, duration_ns: i64, copied_at: i64) -> CopyRunSample {
    CopyRunSample {
        bytes_copied,
        duration_ns,
        copied_at,
    }
}

#[test]
fn estimates_go_by_an_earlier_copy() {
    for (bytes, ns, todo) in [
        (1000u64, 2_000_000_000i64, 5000u64),
        (7, 3, u64::MAX),
        (u64::MAX, 1, 1),
        (3, i64::MAX, 12345),
    ] {
        let (rate, seconds) = estimate_copy_eta(Some(&sample(bytes, ns, 0)), todo);
        let expected = bytes as f64 / (ns as f64 / 1_000_000_000.0);
        assert_eq!(float(&rate.unwrap()), expected);
        assert_eq!(
            seconds,
            Some(((todo as f64) / expected).round() as u64)
        );
    }
    assert_eq!(estimate_copy_eta(None, 5), (None, None));
    assert_eq!(estimate_copy_eta(Some(&sample(0, 5, 0)), 5), (None, None));
    assert_eq!(estimate_copy_eta(Some(&sample(5, 0, 0)), 5), (None, None));
    assert_eq!(estimate_copy_eta(Some(&sample(5, 5, 0)), 0).1, Some(0));
}

#[test]
fn the_later_sample_counts() {
    let early = sample(1, 1, 1);
    let late = sample(2, 2, 2);
    assert_eq!(latest_sample(Some(early), Some(late)), Some(late));
    assert_eq!(latest_sample(Some(late), Some(early)), Some(late));
    assert_eq!(latest_sample(None, Some(early)), Some(early));
    assert_eq!(latest_sample(Some(early), None), Some(early));
    assert_eq!(latest_sample(None, None), None);
    let tie = sample(9, 9, 1);
    assert_eq!(latest_sample(Some(early), Some(tie)), Some(early));
}

#[test]
fn a_brief_is_written_and_told() {
    let (summary, files, bytes) =
        build_compare_and_copy_summary(&left(), &right(), "l", "r", no_metrics());
    let brief = build_brief(
        summary,
        files,
        bytes,
        Some(sample(10, 3_000_000_000, 1)),
        None,
    );
    assert_eq!(
        build_brief_csv(&brief),
        "left_label,right_label,left_files,right_files,same_path_same_meta,same_path_changed,left_only,right_only,files_to_copy,bytes_to_copy,prior_bytes_per_second,estimated_seconds\nl,r,5,4,1,2,2,1,2,30,3.333333,9\n"
    );
    assert_eq!(
        tell_brief(&brief),
        "[brief] summary: copy 2 files / 30 bytes; 1 same, 2 changed, 2 left-only, 1 right-only, ETA ~9s"
    );
    let (summary, files, bytes) =
        build_compare_and_copy_summary(&left(), &right(), "l", "r", no_metrics());
    let brief = build_brief(summary, files, bytes, None, None);
    assert!(build_brief_csv(&brief).ends_with(",2,30,,\n"));
    assert!(tell_brief(&brief).ends_with("1 right-only"));
}

#[test]
fn a_status_counts_nothing_below_zero() {
    let counts = StatusCounts {
        labels: 2,
        resume_sessions: -1,
        recent_copy_runs: 3,
        signature_cache_rows: 4,
        virtual_archive_member_rows: 5,
    };
    let status = build_status(&counts, Some((10, 2_000_000_000)));
    assert_eq!(status.report_schema, "nightindex.status");
    assert_eq!(status.labels, 2);
    assert_eq!(status.resume_sessions, 0);
    assert_eq!(float(&status.latest_bytes_per_second.unwrap()), 5.0);
    assert!(build_status(&counts, Some((0, 5)))
        .latest_bytes_per_second
        .is_none());
    assert!(build_status(&counts, Some((5, -5)))
        .latest_bytes_per_second
        .is_none());
    assert!(build_status(&counts, None)
        .latest_bytes_per_second
        .is_none());
    assert_eq!(
        recent_since(1_000_000_000_000, 2),
        1_000_000_000_000 - 120_000_000_000
    );
    assert_eq!(
        recent_since(1_000_000_000_000, -7),
        1_000_000_000_000 - 60_000_000_000
    );
}

#[test]
fn a_label_is_covered_by_its_profiles() {
    let counts = LabelCounts {
        files: 4,
        profiles: 3,
        with_binary_signature: 2,
        with_binary_descriptor: -2,
        with_text_signature: 1,
        with_archive_signature: 0,
    };
    let row = build_label_row("left", &counts);
    assert_eq!(row.label, "left");
    assert_eq!(row.profile_coverage_ratio.num, 3);
    assert_eq!(row.profile_coverage_ratio.den, 4);
    assert_eq!(row.with_binary_descriptor, 0);
    assert_eq!(row.with_binary_signature, 2);
}

#[test]
fn compare_summary_serialization_includes_schema_and_cache_metrics() {
    let rows = |same: usize, changed: usize, lone: usize, side: &str, size: u64| {
        let mut out = Vec::new();
        for i in 0..same {
            out.push(row(&format!("same-{i}"), 1, 1, None));
        }
        for i in 0..changed {
            out.push(row(&format!("changed-{i}"), size, 1, None));
        }
        for i in 0..lone {
            out.push(row(&format!("{side}-{i}"), 1, 1, None));
        }
        out
    };
    let mut metrics = no_metrics();
    metrics.left_profile_cache.hits = 7;
    metrics.left_profile_cache.misses = 3;
    metrics.right_profile_cache.hits = 9;
    metrics.right_profile_cache.misses = 3;
    let left = rows(6, 2, 2, "left", 1);
    let right = rows(6, 2, 4, "right", 2);
    let (summary, _, _) = build_compare_and_copy_summary(&left, &right, "left", "right", metrics);
    assert_eq!(summary.report_schema, "nightindex.compare_summary");
    assert_eq!(summary.report_version, 1);
    assert_eq!(summary.left_label, "left");
    assert_eq!(summary.right_label, "right");
    assert_eq!(summary.left_files, 10);
    assert_eq!(summary.right_files, 12);
    assert_eq!(summary.same_path_same_meta, 6);
    assert_eq!(summary.same_path_changed, 2);
    assert_eq!(summary.left_only, 2);
    assert_eq!(summary.right_only, 4);
    let metrics = summary.cache_metrics;
    assert_eq!(metrics.left_profile_cache.hits, 7);
    assert_eq!(metrics.right_profile_cache.misses, 3);
    let coverage = metrics.left_profile_cache.analytics.coverage;
    assert_eq!(
        coverage.coverage_ratio.num as f64 / coverage.coverage_ratio.den as f64,
        0.0
    );
    let density = metrics.right_profile_cache.analytics.descriptor_density;
    assert_eq!(density.with_any_descriptor, 0);
}

#[test]
fn inspect_cache_command_emits_label_metrics() {
    let profiles = [
        build_file_fingerprint_profile("a.py", "file", 60, Some("h")),
        build_file_fingerprint_profile("b.bin", "file", 1024, Some("h")),
    ];
    let with = |test: &dyn Fn(usize) -> bool| (0..profiles.len()).filter(|i| test(*i)).count() as i64;
    let counts = LabelCounts {
        files: 2,
        profiles: profiles.len() as i64,
        with_binary_signature: with(&|i| profiles[i].binary_signature.is_some()),
        with_binary_descriptor: with(&|i| profiles[i].binary_descriptor.is_some()),
        with_text_signature: with(&|i| profiles[i].text_signature.is_some()),
        with_archive_signature: with(&|i| profiles[i].archive_signature.is_some()),
    };
    let report = build_inspect_report(2, 0, vec![build_label_row("left", &counts)]);
    assert_eq!(report.report_schema, "nightindex.inspect_cache");
    assert_eq!(report.report_version, 1);
    assert_eq!(report.signature_cache_rows, 2);
    assert_eq!(report.virtual_archive_member_rows, 0);
    assert_eq!(report.labels[0].label, "left");
    assert_eq!(report.labels[0].files, 2);
    assert_eq!(report.labels[0].with_text_signature, 1);
    assert_eq!(report.labels[0].with_binary_signature, 1);
    assert_eq!(build_inspect_report(-1, -1, Vec::new()).signature_cache_rows, 0);
}
