use nightindex::cache::{file_signature_cache_key, profile_cache_usage};
use nightindex::dossier::{build_folder_signatures, build_folder_signatures_with_profiles};
use nightindex::fingerprint::{build_file_fingerprint_profile, FileFingerprintProfile};
use nightindex::matching::{
    build_dossier_matches, dossier_confidence_tier, DossierAction, DossierConfidenceTier,
    DossierMatch,
};
use nightindex::policy::{should_exclude_path, ExcludePolicy};
use nightindex::ratio::Ratio;
use nightindex::record::FileRecord;
use nightindex::report::{
    build_dossier, build_dossier_actions_csv, build_dossier_csv, keep_top_candidate_per_left,
    tell_dossier, DossierOptions,
};
use nightindex::textmap::TextMap;

fn row(rel_path: &str, size: u64, mtime_ns: i64, fast_hash: Option<&str>) -> FileRecord {
    FileRecord {
        rel_path: rel_path.to_string(),
        file_type: "file".to_string(),
        size,
        mtime_ns,
        fast_hash: fast_hash.map(|hash| hash.to_string()),
    }
}

fn no_profiles() -> TextMap<FileFingerprintProfile> {
    TextMap::new()
}

fn more(a: &Ratio, b: &Ratio) -> bool {
    b.is_less(a)
}

fn value(ratio: &Ratio) -> f64 {
    ratio.num as f64 / ratio.den as f64
}

#[test]
fn build_dossier_matches_returns_top_k_matches() {
    let left_rows = vec![
        row("alpha/readme.txt", 101, 1, Some("hash-readme-left")),
        row("alpha/app.bin", 202, 2, Some("hash-bin-left")),
        row("alpha/notes.log", 303, 3, Some("hash-notes-left")),
    ];
    let right_rows = vec![
        row("beta/readme.txt", 111, 10, Some("hash-readme-left")),
        row("beta/app.bin", 222, 11, Some("hash-bin-left")),
        row("omega/readme.txt", 333, 12, Some("hash-readme-left")),
        row("omega/other.tmp", 444, 13, Some("hash-other")),
    ];

    let left_signatures = build_folder_signatures(&left_rows);
    let right_signatures = build_folder_signatures(&right_rows);
    let matches = build_dossier_matches(&left_signatures, &right_signatures, 1);

    assert_eq!(left_signatures.len(), 1);
    assert_eq!(right_signatures.len(), 2);
    assert_eq!(matches.len(), 1);
    assert_eq!(matches[0].left_folder, "alpha");
    assert_eq!(matches[0].right_folder, "beta");
    assert!(matches[0].overlap_weight > 0);
    assert_eq!(matches[0].shared_rel_file_count, 2);
    assert_eq!(matches[0].shared_exact_file_name_count, 2);
    assert_eq!(matches[0].shared_normalized_file_name_count, 2);
    assert_eq!(matches[0].shared_file_stem_count, 2);
    assert_eq!(matches[0].shared_file_ext_count, 2);
    assert_eq!(matches[0].shared_ext_stem_count, 3);
    assert_eq!(matches[0].shared_hash_count, 2);
    assert_eq!(matches[0].shared_folder_token_count, 0);
    assert_eq!(matches[0].shared_normalized_parent_folder_count, 0);

    let all = build_dossier_matches(&left_signatures, &right_signatures, 5);
    assert_eq!(all.len(), 2);
}

#[test]
fn dossier_matching_reports_hash_signal_for_divergent_file_names() {
    let left_rows = vec![
        row("alpha/raw-seed-01.txt", 101, 1, Some("h1")),
        row("alpha/results-final.bin", 202, 2, Some("h2")),
    ];
    let right_rows = vec![
        row("renamed/seed-block.txt", 111, 10, Some("h1")),
        row("renamed/chosen-output.bin", 112, 11, Some("h2")),
    ];

    let left_signatures = build_folder_signatures(&left_rows);
    let right_signatures = build_folder_signatures(&right_rows);
    let matches = build_dossier_matches(&left_signatures, &right_signatures, 1);
    assert_eq!(matches.len(), 1);
    assert_eq!(matches[0].left_folder, "alpha");
    assert_eq!(matches[0].right_folder, "renamed");
    assert!(matches[0].overlap_weight > 0);
    assert_eq!(matches[0].shared_exact_file_name_count, 0);
    assert_eq!(matches[0].shared_normalized_file_name_count, 0);
    assert_eq!(matches[0].shared_file_stem_count, 0);
    assert_eq!(matches[0].shared_ext_stem_count, 0);
    assert_eq!(matches[0].shared_hash_count, 2);
    assert_eq!(matches[0].shared_rel_file_count, 0);
    assert_eq!(matches[0].confidence_tier, DossierConfidenceTier::Possible);
}

#[test]
fn dossier_matching_shows_weak_extension_only_for_mismatched_patterns() {
    let left_rows = vec![
        row("source-pack/logs-alpha.txt", 101, 1, Some("left-h1")),
        row("source-pack/chunk-beta.bin", 202, 2, Some("left-h2")),
    ];
    let right_rows = vec![
        row("payload-v2/alpha-log.txt", 111, 10, Some("right-h3")),
        row("payload-v2/block-zed.bin", 222, 11, Some("right-h4")),
    ];

    let left_signatures = build_folder_signatures(&left_rows);
    let right_signatures = build_folder_signatures(&right_rows);
    let matches = build_dossier_matches(&left_signatures, &right_signatures, 1);

    assert_eq!(matches.len(), 1);
    assert_eq!(matches[0].left_folder, "source-pack");
    assert_eq!(matches[0].right_folder, "payload-v2");
    assert!(matches[0].overlap_weight > 0);
    assert_eq!(matches[0].shared_exact_file_name_count, 0);
    assert_eq!(matches[0].shared_normalized_file_name_count, 0);
    assert_eq!(matches[0].shared_file_stem_count, 0);
    assert_eq!(matches[0].shared_file_ext_count, 2);
    assert_eq!(matches[0].shared_hash_count, 0);
    assert_eq!(matches[0].confidence_tier, DossierConfidenceTier::Manual);
}

#[test]
fn dossier_matching_prefers_language_signal_when_names_drift() {
    let left_rows = vec![
        row("readme-source/readme-a.txt", 128, 1, None),
        row("readme-source/notes-a.txt", 256, 2, None),
    ];
    let right_rows = vec![
        row("readme-copy/readme-b.txt", 136, 10, None),
        row("readme-copy/notes-b.txt", 274, 11, None),
        row("candidate-plain/doc-a.txt", 136, 12, None),
        row("candidate-plain/doc-b.txt", 274, 13, None),
    ];

    let left_signatures = build_folder_signatures_with_profiles(&left_rows, &no_profiles());
    let right_signatures = build_folder_signatures_with_profiles(&right_rows, &no_profiles());
    let matches = build_dossier_matches(&left_signatures, &right_signatures, 2);

    assert_eq!(matches.len(), 2);
    assert_eq!(matches[0].left_folder, "readme-source");
    assert_eq!(matches[0].right_folder, "readme-copy");
    assert_eq!(matches[0].shared_language_count, 1);
    assert_eq!(matches[0].shared_size_class_count, 2);
    assert_eq!(matches[1].right_folder, "candidate-plain");
    assert_eq!(matches[1].shared_language_count, 0);
    assert!(more(&matches[0].overlap_ratio, &matches[1].overlap_ratio));
}

#[test]
fn dossier_matching_prefers_size_bucket_signal_when_names_drift() {
    let left_rows = vec![
        row("size-drift/alpha.txt", 128, 1, None),
        row("size-drift/beta.txt", 256, 2, None),
    ];
    let right_rows = vec![
        row("size-match/branch-one.txt", 80, 10, None),
        row("size-match/branch-two.txt", 200, 11, None),
        row("size-mismatch/branch-one.txt", 80, 12, None),
        row("size-mismatch/branch-two.txt", 20 * 1024 * 1024, 13, None),
    ];

    let left_signatures = build_folder_signatures_with_profiles(&left_rows, &no_profiles());
    let right_signatures = build_folder_signatures_with_profiles(&right_rows, &no_profiles());
    let matches = build_dossier_matches(&left_signatures, &right_signatures, 2);

    assert_eq!(matches.len(), 2);
    assert_eq!(matches[0].left_folder, "size-drift");
    assert_eq!(matches[0].right_folder, "size-match");
    assert_eq!(matches[0].shared_size_class_count, 2);
    assert_eq!(matches[1].right_folder, "size-mismatch");
    assert_eq!(matches[1].shared_size_class_count, 2);
    assert!(more(&matches[0].overlap_ratio, &matches[1].overlap_ratio));
}

fn possible_match() -> DossierMatch {
    DossierMatch {
        left_folder: "alpha".to_string(),
        right_folder: "beta".to_string(),
        overlap_weight: 1250,
        left_weight: 2000,
        right_weight: 2500,
        overlap_ratio: Ratio { num: 357, den: 1000 },
        shared_rel_file_count: 1,
        shared_exact_file_name_count: 2,
        shared_normalized_file_name_count: 1,
        shared_file_stem_count: 1,
        shared_file_ext_count: 1,
        shared_ext_stem_count: 1,
        shared_hash_count: 1,
        shared_folder_token_count: 0,
        shared_normalized_parent_folder_count: 1,
        shared_binaryity_count: 2,
        shared_archive_family_count: 0,
        shared_language_count: 0,
        shared_size_class_count: 0,
        confidence_tier: DossierConfidenceTier::Possible,
    }
}

fn manual_match() -> DossierMatch {
    DossierMatch {
        left_folder: "alpha".to_string(),
        right_folder: "gamma".to_string(),
        overlap_weight: 750,
        left_weight: 2000,
        right_weight: 2500,
        overlap_ratio: Ratio { num: 157, den: 1000 },
        shared_rel_file_count: 0,
        shared_exact_file_name_count: 0,
        shared_normalized_file_name_count: 0,
        shared_file_stem_count: 1,
        shared_file_ext_count: 1,
        shared_ext_stem_count: 0,
        shared_hash_count: 0,
        shared_folder_token_count: 1,
        shared_normalized_parent_folder_count: 0,
        shared_binaryity_count: 1,
        shared_archive_family_count: 0,
        shared_language_count: 0,
        shared_size_class_count: 1,
        confidence_tier: DossierConfidenceTier::Manual,
    }
}

#[test]
fn build_dossier_csv_emits_signal_count_columns() {
    let rows = vec![possible_match()];
    let csv = build_dossier_csv(&rows);
    assert!(csv.starts_with(
        "left_folder,right_folder,overlap_weight,left_weight,right_weight,overlap_ratio,shared_rel_file_count,shared_exact_file_name_count,shared_normalized_file_name_count,shared_file_stem_count,shared_file_ext_count,shared_ext_stem_count,shared_hash_count,shared_folder_token_count,shared_normalized_parent_folder_count,shared_binaryity_count,shared_archive_family_count,shared_language_count,shared_size_class_count,confidence_tier\n",
    ));
    assert!(csv.contains(
        "alpha,beta,1.2500,2.0000,2.5000,0.357000,1,2,1,1,1,1,1,0,1,2,0,0,0,possible"
    ));
}

#[test]
fn build_dossier_actions_csv_emits_ranked_actions() {
    let rows = vec![possible_match(), manual_match()];
    let csv = build_dossier_actions_csv(&rows);
    assert!(csv.starts_with(
        "left_folder,rank,right_folder,confidence_tier,next_action,overlap_ratio,shared_hash_count,shared_normalized_file_name_count,shared_rel_file_count\n"
    ));
    assert!(csv.contains("alpha,1,beta,possible,review before applying,0.357000,1,1,1"));
    assert!(csv.contains("alpha,2,gamma,manual,manual inspection required,0.157000,0,0,0"));
}

#[test]
fn keep_top_candidate_per_left_keeps_first_match() {
    let rows = vec![possible_match(), manual_match()];
    let kept = keep_top_candidate_per_left(&rows);
    assert_eq!(kept.len(), 1);
    assert_eq!(kept[0].left_folder, "alpha");
    assert_eq!(kept[0].right_folder, "beta");
}

fn make_confidence_match(
    overlap_ratio: Ratio,
    shared_normalized_file_name_count: usize,
    shared_hash_count: usize,
    shared_normalized_parent_folder_count: usize,
    shared_file_ext_count: usize,
    shared_ext_stem_count: usize,
    shared_rel_file_count: usize,
) -> DossierMatch {
    DossierMatch {
        left_folder: "left".to_string(),
        right_folder: "right".to_string(),
        overlap_weight: 1000,
        left_weight: 2000,
        right_weight: 2000,
        overlap_ratio,
        shared_rel_file_count,
        shared_exact_file_name_count: 0,
        shared_normalized_file_name_count,
        shared_file_stem_count: 0,
        shared_file_ext_count,
        shared_ext_stem_count,
        shared_hash_count,
        shared_folder_token_count: 0,
        shared_normalized_parent_folder_count,
        shared_binaryity_count: 0,
        shared_archive_family_count: 0,
        shared_language_count: 0,
        shared_size_class_count: 0,
        confidence_tier: DossierConfidenceTier::Manual,
    }
}

#[test]
fn dossier_confidence_tiers_are_bucketed_by_signal_strength() {
    let hundredths = |num: u128| Ratio { num, den: 100 };
    let identical = make_confidence_match(hundredths(92), 1, 2, 1, 0, 0, 1);
    assert_eq!(
        dossier_confidence_tier(&identical),
        DossierConfidenceTier::Identical
    );

    let similar = make_confidence_match(hundredths(65), 1, 1, 1, 0, 0, 0);
    assert_eq!(
        dossier_confidence_tier(&similar),
        DossierConfidenceTier::Similar
    );

    let possible = make_confidence_match(hundredths(30), 0, 0, 0, 1, 0, 0);
    assert_eq!(
        dossier_confidence_tier(&possible),
        DossierConfidenceTier::Possible
    );

    let manual = make_confidence_match(hundredths(10), 0, 0, 0, 0, 0, 0);
    assert_eq!(
        dossier_confidence_tier(&manual),
        DossierConfidenceTier::Manual
    );
}

#[test]
fn dossier_confidence_tier_maps_to_actions() {
    assert_eq!(
        DossierConfidenceTier::Identical.action(),
        DossierAction::Apply
    );
    assert_eq!(
        DossierConfidenceTier::Similar.action(),
        DossierAction::Review
    );
    assert_eq!(
        DossierConfidenceTier::Possible.action(),
        DossierAction::Review
    );
    assert_eq!(
        DossierConfidenceTier::Manual.action(),
        DossierAction::Manual
    );
}

#[test]
fn dossier_matching_uses_archive_signature_for_compressed_payload_variants() {
    let left_rows = vec![row("left/source-a.tar.gz", 101, 1, None)];
    let right_rows = vec![row("right/delta_payload.tar.xz", 102, 2, None)];

    let left_signatures = build_folder_signatures(&left_rows);
    let right_signatures = build_folder_signatures(&right_rows);
    let matches = build_dossier_matches(&left_signatures, &right_signatures, 1);

    assert_eq!(matches.len(), 1);
    assert_eq!(matches[0].left_folder, "left");
    assert_eq!(matches[0].right_folder, "right");
    assert_eq!(matches[0].shared_binaryity_count, 1);
    assert_eq!(matches[0].shared_archive_family_count, 0);
    assert!(matches[0].overlap_weight > 0);
}

fn renamed_rows() -> (Vec<FileRecord>, Vec<FileRecord>) {
    (
        vec![
            row(
                "case-final-v2/readme-final.txt",
                101,
                1,
                Some("hash-readme"),
            ),
            row("case-final-v2/chain.bin", 202, 2, Some("hash-chain")),
        ],
        vec![
            row("case_v2_case/readme.txt", 111, 10, Some("hash-readme")),
            row("case_v2_case/chain-final.bin", 222, 11, Some("hash-chain")),
        ],
    )
}

fn profiles_of(rows: &[FileRecord]) -> TextMap<FileFingerprintProfile> {
    let mut profiles = TextMap::new();
    for row in rows {
        profiles.insert(
            row.rel_path.clone(),
            build_file_fingerprint_profile(
                &row.rel_path,
                &row.file_type,
                row.size,
                row.fast_hash.as_deref(),
            ),
        );
    }
    profiles
}

#[test]
fn dossier_matching_uses_fingerprint_profiles_for_renamed_paths() {
    let (left_rows, right_rows) = renamed_rows();
    let left_profiles = profiles_of(&left_rows);
    let right_profiles = profiles_of(&right_rows);

    let left_signatures = build_folder_signatures_with_profiles(&left_rows, &left_profiles);
    let right_signatures = build_folder_signatures_with_profiles(&right_rows, &right_profiles);
    let matches = build_dossier_matches(&left_signatures, &right_signatures, 1);

    assert_eq!(left_signatures.len(), 1);
    assert_eq!(right_signatures.len(), 1);
    assert_eq!(matches.len(), 1);
    assert_eq!(matches[0].left_folder, "case-final-v2");
    assert_eq!(matches[0].right_folder, "case_v2_case");
    assert!(matches[0].overlap_weight > 0);
}

#[test]
fn dossier_matching_falls_back_to_derived_profiles() {
    let (left_rows, right_rows) = renamed_rows();
    let left_signatures = build_folder_signatures_with_profiles(&left_rows, &no_profiles());
    let right_signatures = build_folder_signatures_with_profiles(&right_rows, &no_profiles());
    let matches = build_dossier_matches(&left_signatures, &right_signatures, 1);

    assert_eq!(matches.len(), 1);
    assert_eq!(matches[0].left_folder, "case-final-v2");
    assert_eq!(matches[0].right_folder, "case_v2_case");
    assert!(matches[0].overlap_weight > 0);
}

fn drifted_rows() -> (Vec<FileRecord>, Vec<FileRecord>) {
    (
        vec![
            row("Case-Final-20240101/readme-0134.log", 6, 1, None),
            row("Case-Final-20240101/settings-0189.cfg", 6, 1, None),
        ],
        vec![
            row("case-v2/copy/readme-zzz.txt", 7, 1, None),
            row("case-v2/copy/settings-x.bin", 7, 1, None),
        ],
    )
}

fn renamed_profile(row: &FileRecord, name: &str) -> FileFingerprintProfile {
    let mut profile =
        build_file_fingerprint_profile(&row.rel_path, &row.file_type, row.size, None);
    profile.normalized_name = name.to_string();
    profile.normalized_folder = "case".to_string();
    profile.is_binary = false;
    profile.is_archive = false;
    profile
}

fn renamed_profiles(rows: &[FileRecord]) -> TextMap<FileFingerprintProfile> {
    let mut profiles = TextMap::new();
    profiles.insert(
        rows[0].rel_path.clone(),
        renamed_profile(&rows[0], "readme_case"),
    );
    profiles.insert(
        rows[1].rel_path.clone(),
        renamed_profile(&rows[1], "settings_case"),
    );
    profiles
}

#[test]
fn dossier_matching_uses_persisted_profiles_from_databases() {
    let (left_rows, right_rows) = drifted_rows();
    let fallback_left = build_folder_signatures_with_profiles(&left_rows, &no_profiles());
    let fallback_right = build_folder_signatures_with_profiles(&right_rows, &no_profiles());
    let fallback_matches = build_dossier_matches(&fallback_left, &fallback_right, 1);
    assert_eq!(fallback_matches.len(), 1);
    assert_eq!(fallback_matches[0].shared_normalized_file_name_count, 0);
    assert_eq!(fallback_matches[0].shared_normalized_parent_folder_count, 0);

    let left = build_folder_signatures_with_profiles(&left_rows, &renamed_profiles(&left_rows));
    let right = build_folder_signatures_with_profiles(&right_rows, &renamed_profiles(&right_rows));
    let matches = build_dossier_matches(&left, &right, 1);

    assert_eq!(matches.len(), 1);
    assert_eq!(matches[0].left_folder, "Case-Final-20240101");
    assert_eq!(matches[0].right_folder, "case-v2/copy");
    assert!(matches[0].overlap_weight > 0);
    assert!(matches[0].shared_normalized_file_name_count > 0);
    assert!(
        fallback_matches[0].shared_normalized_file_name_count
            < matches[0].shared_normalized_file_name_count
    );
}

#[test]
fn dossier_matching_falls_back_when_some_profiles_are_missing() {
    let (left_rows, right_rows) = drifted_rows();
    let mut partial = TextMap::new();
    partial.insert(
        left_rows[0].rel_path.clone(),
        renamed_profile(&left_rows[0], "readme_case"),
    );

    let full_left =
        build_folder_signatures_with_profiles(&left_rows, &renamed_profiles(&left_rows));
    let full_right =
        build_folder_signatures_with_profiles(&right_rows, &renamed_profiles(&right_rows));
    let full_matches = build_dossier_matches(&full_left, &full_right, 1);

    let partial_left = build_folder_signatures_with_profiles(&left_rows, &partial);
    let partial_matches = build_dossier_matches(&partial_left, &full_right, 1);

    assert_eq!(full_matches.len(), 1);
    assert_eq!(partial_matches.len(), 1);
    assert!(partial_matches[0].overlap_weight > 0);
    assert!(
        full_matches[0].shared_normalized_file_name_count
            > partial_matches[0].shared_normalized_file_name_count
    );
    assert!(partial_matches[0].overlap_weight < full_matches[0].overlap_weight);
}

#[test]
fn profile_cache_usage_counts_hits_and_misses() {
    let rows = vec![
        row("alpha/readme.txt", 10, 1, None),
        row("alpha/missing.bin", 11, 2, None),
    ];
    let mut profiles = TextMap::new();
    profiles.insert(
        "alpha/readme.txt".to_string(),
        build_file_fingerprint_profile("alpha/readme.txt", "file", 10, None),
    );

    let counters = profile_cache_usage(&rows, &profiles);
    assert_eq!(counters.hits, 1);
    assert_eq!(counters.misses, 1);
    assert_eq!(counters.analytics.coverage.total_rows, 2);
    assert_eq!(counters.analytics.coverage.profile_rows, 1);
    assert!((value(&counters.analytics.coverage.coverage_ratio) - 0.5).abs() < 1e-9);
    assert_eq!(
        counters.analytics.descriptor_density.profiled_rows,
        counters.hits
    );
}

#[test]
fn profile_cache_usage_tracks_descriptor_density() {
    let rows = vec![
        row("alpha/readme.txt", 10, 1, None),
        row("alpha/archive.tar.gz", 11, 2, None),
        row("alpha/missing.bin", 12, 3, None),
    ];
    let mut profiles = TextMap::new();
    profiles.insert(
        "alpha/readme.txt".to_string(),
        FileFingerprintProfile {
            normalized_name: "readme".to_string(),
            normalized_folder: "alpha".to_string(),
            ext: "txt".to_string(),
            is_binary: false,
            is_archive: false,
            archive_family: None,
            language: "markdown".to_string(),
            size_class: "small".to_string(),
            binary_signature: None,
            binary_descriptor: None,
            text_signature: Some("markdown:readme".to_string()),
            archive_signature: None,
        },
    );
    profiles.insert(
        "alpha/archive.tar.gz".to_string(),
        FileFingerprintProfile {
            normalized_name: "archive".to_string(),
            normalized_folder: "alpha".to_string(),
            ext: "gz".to_string(),
            is_binary: true,
            is_archive: true,
            archive_family: Some("tar".to_string()),
            language: "unknown".to_string(),
            size_class: "small".to_string(),
            binary_signature: Some("sig".to_string()),
            binary_descriptor: Some("desc".to_string()),
            text_signature: None,
            archive_signature: Some("tar+gz".to_string()),
        },
    );

    let counters = profile_cache_usage(&rows, &profiles);
    assert_eq!(counters.hits, 2);
    assert_eq!(counters.misses, 1);
    assert!((value(&counters.analytics.coverage.coverage_ratio) - (2.0 / 3.0)).abs() < 1e-9);
    assert_eq!(
        counters.analytics.descriptor_density.with_binary_descriptor,
        1
    );
    assert_eq!(counters.analytics.descriptor_density.with_text_signature, 1);
    assert_eq!(
        counters.analytics.descriptor_density.with_archive_signature,
        1
    );
    assert_eq!(counters.analytics.descriptor_density.with_any_descriptor, 2);
    assert!(
        (value(&counters.analytics.descriptor_density.any_descriptor_ratio) - 1.0).abs() < 1e-9
    );
}

fn noise_policy() -> ExcludePolicy {
    ExcludePolicy {
        directory_prefixes: vec!["noise".to_string()],
        folder_name_additions: Vec::new(),
        subtree_overrides: TextMap::new(),
        enabled: true,
    }
}

fn noisy_rows() -> (Vec<FileRecord>, Vec<FileRecord>) {
    (
        vec![
            row("renamed-alpha/readme.txt", 101, 1, Some("hash-readme")),
            row("renamed-alpha/app.bin", 202, 2, Some("hash-app")),
            row("noise/ignored.bin", 303, 3, Some("hash-noise")),
        ],
        vec![
            row("renamed-beta/readme.txt", 111, 10, Some("hash-readme")),
            row("renamed-beta/app.bin", 222, 11, Some("hash-app")),
            row("noise/ignored.bin", 333, 12, Some("hash-noise")),
        ],
    )
}

#[test]
fn dossier_matching_respects_policy_filters_and_renamed_folders() {
    let policy = noise_policy();
    let (left_rows, right_rows) = noisy_rows();

    let left_rows: Vec<FileRecord> = left_rows
        .into_iter()
        .filter(|row| !should_exclude_path(&row.rel_path, &policy))
        .collect();
    let right_rows: Vec<FileRecord> = right_rows
        .into_iter()
        .filter(|row| !should_exclude_path(&row.rel_path, &policy))
        .collect();

    assert_eq!(left_rows.len(), 2);
    assert_eq!(right_rows.len(), 2);
    assert!(left_rows
        .iter()
        .all(|row| !row.rel_path.starts_with("noise/")));
    assert!(right_rows
        .iter()
        .all(|row| !row.rel_path.starts_with("noise/")));

    let left_signatures = build_folder_signatures(&left_rows);
    let right_signatures = build_folder_signatures(&right_rows);
    let matches = build_dossier_matches(&left_signatures, &right_signatures, 3);

    assert_eq!(matches.len(), 1);
    assert_eq!(matches[0].left_folder, "renamed-alpha");
    assert_eq!(matches[0].right_folder, "renamed-beta");
    assert_eq!(matches[0].shared_rel_file_count, 2);
}

#[test]
fn dossier_signatures_emit_binary_descriptor_token() {
    let rows = vec![row(
        "firmware/bin/agent.sys",
        512 * 1024,
        1,
        Some("abcdef1234567890"),
    )];
    let signatures = build_folder_signatures(&rows);
    let folder = signatures.get("firmware/bin").expect("folder signature");
    assert!(folder.tokens.contains_key("BINDESC:sys:1m:bin:abcdef1234"));
}

#[test]
fn a_dossier_tells_of_its_best_match() {
    let (left_rows, right_rows) = noisy_rows();
    let options = DossierOptions {
        top_k: 3,
        min_confidence: DossierConfidenceTier::Manual,
        only_action: None,
        one_per_left: true,
    };
    let dossier = build_dossier(
        &left_rows,
        &right_rows,
        &no_profiles(),
        &no_profiles(),
        &noise_policy(),
        &options,
    );
    assert_eq!(dossier.left_folder_count, 1);
    assert_eq!(dossier.candidates.len(), 1);
    assert_eq!(dossier.left_profile_cache.misses, 2);
    let lines = tell_dossier(&dossier);
    assert_eq!(lines.len(), 5);
    assert!(lines[0].starts_with(
        "[dossier] summary: 1 candidates across 1 left folders and 1 right folders; best renamed-alpha -> renamed-beta (0."
    ));
    assert_eq!(
        lines[4],
        "[dossier] profile-cache: left(hits=0, misses=2) right(hits=0, misses=2)"
    );
}

#[test]
fn a_dossier_of_nothing_has_no_best_match() {
    let options = DossierOptions {
        top_k: 3,
        min_confidence: DossierConfidenceTier::Manual,
        only_action: None,
        one_per_left: false,
    };
    let dossier = build_dossier(
        &Vec::new(),
        &Vec::new(),
        &no_profiles(),
        &no_profiles(),
        &noise_policy(),
        &options,
    );
    assert_eq!(
        tell_dossier(&dossier)[0],
        "[dossier] summary: 0 candidates across 0 left folders and 0 right folders"
    );
}

#[test]
fn a_folder_overlaps_wholly_with_itself() {
    let rows = vec![row("a/readme.txt", 101, 1, Some("h"))];
    let signatures = build_folder_signatures(&rows);
    let matches = build_dossier_matches(&signatures, &signatures, 1);
    assert_eq!(matches[0].overlap_weight, matches[0].left_weight);
    assert_eq!(matches[0].overlap_ratio.num, matches[0].overlap_ratio.den);
}

#[test]
fn signature_cache_reuses_and_invalidates_fingerprint_profiles() {
    let key = |mtime_ns: i64, hash: Option<&str>| {
        file_signature_cache_key("file_fingerprint_profile", "a.py", "file", 3, mtime_ns, hash)
    };
    assert_eq!(key(1, None), key(1, None));
    assert_ne!(key(1, None), key(2, None));
    assert_ne!(key(1, None), key(1, Some("h")));
    let expected = blake3::hash(b"file_fingerprint_profile\0a.py\0file\03\01\0h");
    assert_eq!(key(1, Some("h")), expected.to_hex().to_string());
}

#[test]
fn dossier_report_serialization_includes_schema_and_cache_metrics() {
    let options = DossierOptions {
        top_k: 15,
        min_confidence: DossierConfidenceTier::Manual,
        only_action: None,
        one_per_left: false,
    };
    let mut report = build_dossier(
        &Vec::new(),
        &Vec::new(),
        &no_profiles(),
        &no_profiles(),
        &noise_policy(),
        &options,
    );
    report.left_profile_cache.hits = 5;
    report.left_profile_cache.misses = 1;
    report.right_profile_cache.hits = 4;
    report.right_profile_cache.misses = 2;
    assert_eq!(report.report_schema, "nightindex.dossier");
    assert_eq!(report.report_version, 1);
    assert_eq!(report.left_profile_cache.hits, 5);
    assert_eq!(report.right_profile_cache.misses, 2);
    let left = report.left_profile_cache.analytics;
    assert_eq!(left.coverage.total_rows, 0);
    let right = report.right_profile_cache.analytics;
    assert_eq!(value(&right.descriptor_density.any_descriptor_ratio), 0.0);
    assert_eq!(
        tell_dossier(&report)[1],
        "[dossier] profile-cache: left(hits=5, misses=1) right(hits=4, misses=2)"
    );
}
