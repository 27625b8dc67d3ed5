use nightindex::compat::{
    parse_compat_copy_flags, CompatCopyArgs, CompatError, CompatRuntime, DeleteMode,
};
use nightindex::policy::AgeError;
use nightindex::textmap::TextMap;

fn arguments(args: &[&str]) -> CompatCopyArgs {
    CompatCopyArgs {
        compat_args: args.iter().map(|arg| arg.to_string()).collect(),
    }
}

fn read(args: &[&str]) -> CompatRuntime {
    parse_compat_copy_flags(&arguments(args), &TextMap::new()).expect("arguments")
}

fn refuse(args: &[&str]) -> CompatError {
    parse_compat_copy_flags(&arguments(args), &TextMap::new()).expect_err("arguments")
}

fn read_with(args: &[&str], files: &[(&str, &str)]) -> CompatRuntime {
    let mut map = TextMap::new();
    for (path, text) in files {
        map.insert(path.to_string(), text.to_string());
    }
    parse_compat_copy_flags(&arguments(args), &map).expect("arguments")
}

#[test]
fn parse_compat_copy_flags_maps_supported_aliases() {
    let runtime = read_with(
        &[
            "--dry-run",
            "-uc",
            "--checksum",
            "--progress-every",
            "42",
            "--log",
            "/tmp/nightindex-compat.log",
            "--exclude",
            "tmp/cache",
            "--exclude-from",
            "/tmp/excludes.txt",
            "--ignore-times",
            "source",
            "dest",
            "unused",
        ],
        &[("/tmp/excludes.txt", "cache\n#note\nnode_modules\n\n")],
    );
    assert!(runtime.dry_run);
    assert!(runtime.hash);
    assert!(runtime.size_only);
    assert!(!runtime.overwrite);
    assert_eq!(runtime.progress_every, 42);
    assert_eq!(runtime.log, Some("/tmp/nightindex-compat.log".to_string()));
    assert_eq!(runtime.source, "source");
    assert_eq!(runtime.destination, "dest");
    assert!(!runtime
        .unsupported_args
        .iter()
        .any(|item| item == "--ignore-times"));
    assert!(runtime
        .unsupported_args
        .iter()
        .any(|item| item == "extra positional: unused"));
    assert!(runtime
        .exclude_prefixes
        .iter()
        .any(|item| item == "tmp/cache"));
    assert!(runtime.exclude_prefixes.iter().any(|item| item == "cache"));
    assert!(runtime
        .exclude_prefixes
        .iter()
        .any(|item| item == "node_modules"));
    assert!(runtime.policy.is_none());
}

#[test]
fn parse_compat_copy_flags_size_only_support() {
    let runtime = read(&["--size-only", "left", "right"]);
    assert!(runtime.size_only);
    assert_eq!(runtime.source, "left");
    assert_eq!(runtime.destination, "right");
}

#[test]
fn parse_compat_copy_flags_supports_max_age() {
    let runtime = read(&["--max-age", "10m", "left", "right"]);
    assert_eq!(runtime.max_age_ns, Some(10 * 60 * 1_000_000_000));
    assert_eq!(runtime.source, "left");
    assert_eq!(runtime.destination, "right");
}

#[test]
fn parse_compat_copy_flags_supports_delete_excluded() {
    let runtime = read(&["--delete-excluded", "left", "right"]);
    assert!(runtime.delete_excluded);
    assert_eq!(runtime.source, "left");
    assert_eq!(runtime.destination, "right");
}

#[test]
fn parse_compat_copy_flags_marks_unknown_short_flags() {
    let runtime = read(&["-nQ", "left", "right"]);
    assert!(runtime.dry_run);
    assert!(runtime.unsupported_args.contains(&"-Q".to_string()));
    assert_eq!(runtime.source, "left");
    assert_eq!(runtime.destination, "right");
}

#[test]
fn parse_compat_copy_flags_supports_delete_and_inplace() {
    let runtime = read(&[
        "--stop-on-error",
        "--delete-after",
        "--inplace",
        "source",
        "dest",
    ]);
    assert!(runtime.stop_on_error);
    assert!(matches!(runtime.delete_mode, Some(DeleteMode::After)));
    assert!(runtime.inplace);
    assert!(runtime.unsupported_args.is_empty());
    assert_eq!(runtime.source, "source");
    assert_eq!(runtime.destination, "dest");
}

#[test]
fn parse_compat_copy_flags_records_accepted_link_flags() {
    let runtime = read(&[
        "--copy-links",
        "--copy-unsafe-links",
        "--links",
        "source",
        "dest",
    ]);
    assert_eq!(
        runtime.accepted_link_flags,
        vec![
            "--copy-links".to_string(),
            "--copy-unsafe-links".to_string(),
            "--links".to_string(),
        ]
    );
    assert!(runtime.unsupported_args.is_empty());
}

#[test]
fn parse_compat_copy_flags_supports_filter_and_include() {
    let runtime = read_with(
        &[
            "--include",
            "EXTRA/*.bin",
            "--include-from",
            "/tmp/include.txt",
            "--filter",
            "+ ARM64/**",
            "--filter-from",
            "/tmp/filter.txt",
            "source",
            "dest",
        ],
        &[
            ("/tmp/include.txt", "QCOM/*\nARM64/**\n"),
            ("/tmp/filter.txt", "+ QCOM/**\n- QCOM/tmp/*\n"),
        ],
    );
    assert!(runtime
        .include_patterns
        .iter()
        .any(|item| item.display_value() == "EXTRA/*.bin"));
    assert!(runtime
        .include_patterns
        .iter()
        .any(|item| item.display_value() == "QCOM/*"));
    assert!(runtime
        .include_patterns
        .iter()
        .any(|item| item.display_value() == "ARM64/**"));
    assert!(runtime
        .filter_exclude_patterns
        .iter()
        .any(|item| item.display_value() == "QCOM/tmp/*"));
    assert_eq!(runtime.source, "source");
    assert_eq!(runtime.destination, "dest");
}

#[test]
fn parse_compat_copy_flags_supports_common_compat_flags() {
    let runtime = read_with(
        &[
            "--files-from",
            "/tmp/files-from.txt",
            "--exclude-if-present",
            ".nobackup",
            "--backup",
            "--backup-dir",
            "/tmp/nightindex-backups",
            "--stats",
            "--human-readable",
            "-vv",
            "source/",
            "dest/",
        ],
        &[("/tmp/files-from.txt", "keep.bin\nnested/\n#comment\n")],
    );
    assert!(runtime.backup_requested);
    assert_eq!(
        runtime.backup_dir,
        Some("/tmp/nightindex-backups".to_string())
    );
    assert!(runtime.stats);
    assert!(runtime.human_readable);
    assert_eq!(runtime.verbosity, 2);
    assert!(runtime.source_trailing_slash);
    assert!(runtime.destination_trailing_slash);
    assert_eq!(runtime.exclude_if_present, vec![".nobackup".to_string()]);
    assert!(runtime
        .files_from_patterns
        .iter()
        .any(|item| item.display_value() == "keep.bin"));
    assert!(runtime
        .files_from_patterns
        .iter()
        .any(|item| item.display_value() == "nested/"));
}

#[test]
fn parse_compat_copy_flags_ignores_empty_include_values() {
    let runtime = read(&["--include=/", "source", "dest"]);
    assert!(runtime.include_patterns.is_empty());
    assert_eq!(runtime.source, "source");
    assert_eq!(runtime.destination, "dest");
}

#[test]
fn an_attached_value_reads_as_one_that_stands_behind() {
    let a = read(&["--max-age=2h", "--progress-every=7", "a", "b"]);
    let b = read(&["--max-age", "2h", "--progress-every", "7", "a", "b"]);
    assert_eq!(a.max_age_ns, Some(7_200_000_000_000));
    assert_eq!(a.max_age_ns, b.max_age_ns);
    assert_eq!(a.progress_every, 7);
    assert_eq!(a.progress_every, b.progress_every);
    let a = read(&["-nv", "--log", "l", "a", "--rsh=ssh -p", "--filter=- x", "b", "--", "c"]);
    let b = read(&["-nv", "--log", "l", "a", "--rsh", "ssh -p", "--filter", "- x", "b", "--", "c"]);
    assert_eq!(a.unsupported_args, b.unsupported_args);
    assert_eq!(a.unsupported_args, ["--rsh=ssh -p", "extra positional: c"]);
    assert_eq!(a.filter_exclude_patterns, b.filter_exclude_patterns);
    assert_eq!(a.destination, b.destination);
}

#[test]
fn everything_behind_a_double_dash_is_a_path() {
    let runtime = read(&["--dry-run", "--", "--checksum", "-n"]);
    assert!(runtime.dry_run);
    assert!(!runtime.hash);
    assert_eq!(runtime.source, "--checksum");
    assert_eq!(runtime.destination, "-n");
}

#[test]
fn progress_is_told_at_least_after_every_file() {
    assert_eq!(read(&["--progress-every", "0", "a", "b"]).progress_every, 1);
}

#[test]
fn a_backup_directory_asks_for_backups() {
    assert!(read(&["--backup-dir", "/b", "a", "b"]).backup_requested);
    assert!(!read(&["a", "b"]).backup_requested);
}

#[test]
fn a_bare_chmod_is_passed_over() {
    let runtime = read(&["--chmod", "a", "b"]);
    assert_eq!(runtime.source, "a");
    assert_eq!(runtime.destination, "b");
}

#[test]
fn options_of_other_tools_change_nothing() {
    let plain = read(&["a", "b"]);
    for option in ["--perms", "--times", "--group", "--owner", "--chmod", "--progress"] {
        let runtime = read(&["a", option, "b"]);
        assert_eq!(runtime.source, plain.source);
        assert_eq!(runtime.destination, plain.destination);
        assert_eq!(runtime.progress_every, plain.progress_every);
        assert!(runtime.unsupported_args.is_empty());
    }
}

#[test]
fn unknown_options_are_reported_whatever_follows() {
    let runtime = read(&[
        "--bwlimit",
        "--dry-run",
        "a",
        "b",
        "-Q",
        "--filter=: rules",
        "--later",
    ]);
    assert_eq!(
        runtime.unsupported_args,
        ["--bwlimit", "-Q", "--filter=: rules", "--later"]
    );
}

#[test]
fn an_option_without_its_value_is_refused() {
    let error = refuse(&["a", "b", "--log"]);
    assert!(matches!(error, CompatError::MissingValue { .. }));
    assert_eq!(
        error.message("rsync"),
        "missing value for --log in rsync compatibility parsing"
    );
}

#[test]
fn an_age_that_is_none_is_refused() {
    let error = refuse(&["--max-age", "soon", "a", "b"]);
    assert!(matches!(
        error,
        CompatError::InvalidAge {
            error: AgeError::Invalid,
            ..
        }
    ));
    assert!(matches!(
        refuse(&["--max-age=", "a", "b"]),
        CompatError::InvalidAge {
            error: AgeError::Empty,
            ..
        }
    ));
    assert!(matches!(
        refuse(&["--max-age", "9223372036854775807d", "a", "b"]),
        CompatError::InvalidAge {
            error: AgeError::TooLarge,
            ..
        }
    ));
}

#[test]
fn a_progress_step_that_is_no_number_is_refused() {
    assert!(matches!(
        refuse(&["--progress-every", "often", "a", "b"]),
        CompatError::InvalidProgress {
            attached: false,
            ..
        }
    ));
    assert!(matches!(
        refuse(&["--progress-every=often", "a", "b"]),
        CompatError::InvalidProgress { attached: true, .. }
    ));
}

#[test]
fn a_file_that_is_not_at_hand_is_asked_for() {
    match refuse(&["--exclude-from", "/tmp/list", "a", "b"]) {
        CompatError::FileNeeded { option, path } => {
            assert_eq!(option, "--exclude-from");
            assert_eq!(path, "/tmp/list");
        }
        other => panic!("{:?}", other),
    }
}

#[test]
fn two_paths_are_needed() {
    assert!(matches!(refuse(&["a"]), CompatError::MissingPaths));
    assert!(matches!(refuse(&[]), CompatError::MissingPaths));
}
