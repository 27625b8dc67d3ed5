//! Laws of the options of the copy tool: what each of them asks for.

use crate::compat::{
    entries_of, initial_flags, letter_effect, long_option, patterns_of, read_args, says_something,
    CompatFault, CompatFlags, CompatRuntime, DeleteMode, LongOption,
};
use crate::compat_laws::lemma_long_option_is_read;
use crate::number::bounded_number;
use crate::pattern::pattern_of;
use crate::policy::{age_of, policy_path, AgeError};
use crate::text::{opt_text, starts_with, stripped, texts};
use vstd::prelude::*;

verus! {

/// The lengths of the names of the options.
proof fn lemma_lengths_of_names()
    ensures
        "dry-run"@.len() == 7,
        "ignore-existing"@.len() == 15,
        "update"@.len() == 6,
        "overwrite"@.len() == 9,
        "checksum"@.len() == 8,
        "hash"@.len() == 4,
        "stats"@.len() == 5,
        "human-readable"@.len() == 14,
        "verbose"@.len() == 7,
        "backup"@.len() == 6,
        "stop-on-error"@.len() == 13,
        "size-only"@.len() == 9,
        "ignore-times"@.len() == 12,
        "inplace"@.len() == 7,
        "copy-links"@.len() == 10,
        "copy-unsafe-links"@.len() == 17,
        "links"@.len() == 5,
        "perms"@.len() == 5,
        "times"@.len() == 5,
        "group"@.len() == 5,
        "owner"@.len() == 5,
        "chmod"@.len() == 5,
        "progress"@.len() == 8,
        "delete-before"@.len() == 13,
        "delete-during"@.len() == 13,
        "delete"@.len() == 6,
        "delete-after"@.len() == 12,
        "delete-excluded"@.len() == 15,
        "log-file"@.len() == 8,
        "log"@.len() == 3,
        "policy"@.len() == 6,
        "exclude"@.len() == 7,
        "exclude-from"@.len() == 12,
        "exclude-if-present"@.len() == 18,
        "progress-every"@.len() == 14,
        "backup-dir"@.len() == 10,
        "max-age"@.len() == 7,
        "files-from"@.len() == 10,
        "filter"@.len() == 6,
        "filter-from"@.len() == 11,
        "include"@.len() == 7,
        "include-from"@.len() == 12,
        "rsh"@.len() == 3,
        "ssh"@.len() == 3,
        "dry-run-mode"@.len() == 12,
{
    reveal_strlit("dry-run");
    reveal_strlit("ignore-existing");
    reveal_strlit("update");
    reveal_strlit("overwrite");
    reveal_strlit("checksum");
    reveal_strlit("hash");
    reveal_strlit("stats");
    reveal_strlit("human-readable");
    reveal_strlit("verbose");
    reveal_strlit("backup");
    reveal_strlit("stop-on-error");
    reveal_strlit("size-only");
    reveal_strlit("ignore-times");
    reveal_strlit("inplace");
    reveal_strlit("copy-links");
    reveal_strlit("copy-unsafe-links");
    reveal_strlit("links");
    reveal_strlit("perms");
    reveal_strlit("times");
    reveal_strlit("group");
    reveal_strlit("owner");
    reveal_strlit("chmod");
    reveal_strlit("progress");
    reveal_strlit("delete-before");
    reveal_strlit("delete-during");
    reveal_strlit("delete");
    reveal_strlit("delete-after");
    reveal_strlit("delete-excluded");
    reveal_strlit("log-file");
    reveal_strlit("log");
    reveal_strlit("policy");
    reveal_strlit("exclude");
    reveal_strlit("exclude-from");
    reveal_strlit("exclude-if-present");
    reveal_strlit("progress-every");
    reveal_strlit("backup-dir");
    reveal_strlit("max-age");
    reveal_strlit("files-from");
    reveal_strlit("filter");
    reveal_strlit("filter-from");
    reveal_strlit("include");
    reveal_strlit("include-from");
    reveal_strlit("rsh");
    reveal_strlit("ssh");
    reveal_strlit("dry-run-mode");
}

proof fn lemma_option_dry_run()
    ensures
        long_option("dry-run"@) == LongOption::DryRun,
        !"dry-run"@.contains('='),
        !"dry-run"@.contains('_'),
        "dry-run"@.len() > 0,
{
    lemma_lengths_of_names();
    reveal_strlit("dry-run");
}

proof fn lemma_option_checksum()
    ensures
        long_option("checksum"@) == LongOption::Hash,
        !"checksum"@.contains('='),
        !"checksum"@.contains('_'),
        "checksum"@.len() > 0,
{
    lemma_lengths_of_names();
    reveal_strlit("checksum");
}

proof fn lemma_option_hash()
    ensures
        long_option("hash"@) == LongOption::Hash,
        !"hash"@.contains('='),
        !"hash"@.contains('_'),
        "hash"@.len() > 0,
{
    lemma_lengths_of_names();
    reveal_strlit("hash");
}

proof fn lemma_option_stop_on_error()
    ensures
        long_option("stop-on-error"@) == LongOption::StopOnError,
        !"stop-on-error"@.contains('='),
        !"stop-on-error"@.contains('_'),
        "stop-on-error"@.len() > 0,
{
    lemma_lengths_of_names();
    reveal_strlit("stop-on-error");
}

/// `--dry-run` copies nothing, `--checksum` and `--hash` compare contents,
/// `--stop-on-error` ends at the first failure.
pub proof fn law_switches_of_a_run(
    f: CompatFlags,
    args: Seq<Seq<char>>,
    i: int,
    files: Map<Seq<char>, String>,
)
    requires
        0 <= i < args.len(),
    ensures
        args[i] == "--"@ + "dry-run"@ ==> read_args(f, args, i, files) == read_args(
            CompatFlags { dry_run: true, ..f },
            args,
            i + 1,
            files,
        ),
        args[i] == "--"@ + "checksum"@ ==> read_args(f, args, i, files) == read_args(
            CompatFlags { hash: true, ..f },
            args,
            i + 1,
            files,
        ),
        args[i] == "--"@ + "hash"@ ==> read_args(f, args, i, files) == read_args(
            CompatFlags { hash: true, ..f },
            args,
            i + 1,
            files,
        ),
        args[i] == "--"@ + "stop-on-error"@ ==> read_args(f, args, i, files) == read_args(
            CompatFlags { stop_on_error: true, ..f },
            args,
            i + 1,
            files,
        ),
{
    lemma_option_dry_run();
    if args[i] == "--"@ + "dry-run"@ {
        lemma_long_option_is_read(f, args, i, "dry-run"@, files);
    }
    lemma_option_checksum();
    if args[i] == "--"@ + "checksum"@ {
        lemma_long_option_is_read(f, args, i, "checksum"@, files);
    }
    lemma_option_hash();
    if args[i] == "--"@ + "hash"@ {
        lemma_long_option_is_read(f, args, i, "hash"@, files);
    }
    lemma_option_stop_on_error();
    if args[i] == "--"@ + "stop-on-error"@ {
        lemma_long_option_is_read(f, args, i, "stop-on-error"@, files);
    }
}

proof fn lemma_option_overwrite()
    ensures
        long_option("overwrite"@) == LongOption::Overwrite,
        !"overwrite"@.contains('='),
        !"overwrite"@.contains('_'),
        "overwrite"@.len() > 0,
{
    lemma_lengths_of_names();
    reveal_strlit("overwrite");
}

proof fn lemma_option_ignore_existing()
    ensures
        long_option("ignore-existing"@) == LongOption::KeepExisting,
        !"ignore-existing"@.contains('='),
        !"ignore-existing"@.contains('_'),
        "ignore-existing"@.len() > 0,
{
    lemma_lengths_of_names();
    reveal_strlit("ignore-existing");
}

proof fn lemma_option_update()
    ensures
        long_option("update"@) == LongOption::KeepExisting,
        !"update"@.contains('='),
        !"update"@.contains('_'),
        "update"@.len() > 0,
{
    lemma_lengths_of_names();
    reveal_strlit("update");
}

proof fn lemma_option_size_only()
    ensures
        long_option("size-only"@) == LongOption::SizeOnly,
        !"size-only"@.contains('='),
        !"size-only"@.contains('_'),
        "size-only"@.len() > 0,
{
    lemma_lengths_of_names();
    reveal_strlit("size-only");
    reveal_strlit("overwrite");
    assert("size-only"@[0] != "overwrite"@[0]);
}

proof fn lemma_option_ignore_times()
    ensures
        long_option("ignore-times"@) == LongOption::SizeOnly,
        !"ignore-times"@.contains('='),
        !"ignore-times"@.contains('_'),
        "ignore-times"@.len() > 0,
{
    lemma_lengths_of_names();
    reveal_strlit("ignore-times");
}

proof fn lemma_option_inplace()
    ensures
        long_option("inplace"@) == LongOption::Inplace,
        !"inplace"@.contains('='),
        !"inplace"@.contains('_'),
        "inplace"@.len() > 0,
{
    lemma_lengths_of_names();
    reveal_strlit("inplace");
    reveal_strlit("dry-run");
    assert("inplace"@[0] != "dry-run"@[0]);
    reveal_strlit("verbose");
    assert("inplace"@[0] != "verbose"@[0]);
}

proof fn lemma_option_backup()
    ensures
        long_option("backup"@) == LongOption::Backup,
        !"backup"@.contains('='),
        !"backup"@.contains('_'),
        "backup"@.len() > 0,
{
    lemma_lengths_of_names();
    reveal_strlit("backup");
    reveal_strlit("update");
    assert("backup"@[0] != "update"@[0]);
}

/// `--overwrite` lets files be replaced; `--ignore-existing` and `--update` keep
/// them; `--size-only` and `--ignore-times` compare by size; `--inplace` writes
/// where the file stands; `--backup` keeps what is replaced.
pub proof fn law_switches_of_what_stands_there(
    f: CompatFlags,
    args: Seq<Seq<char>>,
    i: int,
    files: Map<Seq<char>, String>,
)
    requires
        0 <= i < args.len(),
    ensures
        args[i] == "--"@ + "overwrite"@ ==> read_args(f, args, i, files) == read_args(
            CompatFlags { overwrite: true, ..f },
            args,
            i + 1,
            files,
        ),
        args[i] == "--"@ + "ignore-existing"@ ==> read_args(f, args, i, files) == read_args(
            CompatFlags { overwrite: false, ..f },
            args,
            i + 1,
            files,
        ),
        args[i] == "--"@ + "update"@ ==> read_args(f, args, i, files) == read_args(
            CompatFlags { overwrite: false, ..f },
            args,
            i + 1,
            files,
        ),
        args[i] == "--"@ + "size-only"@ ==> read_args(f, args, i, files) == read_args(
            CompatFlags { size_only: true, ..f },
            args,
            i + 1,
            files,
        ),
        args[i] == "--"@ + "ignore-times"@ ==> read_args(f, args, i, files) == read_args(
            CompatFlags { size_only: true, ..f },
            args,
            i + 1,
            files,
        ),
        args[i] == "--"@ + "inplace"@ ==> read_args(f, args, i, files) == read_args(
            CompatFlags { inplace: true, ..f },
            args,
            i + 1,
            files,
        ),
        args[i] == "--"@ + "backup"@ ==> read_args(f, args, i, files) == read_args(
            CompatFlags { backup_requested: true, ..f },
            args,
            i + 1,
            files,
        ),
{
    lemma_option_overwrite();
    if args[i] == "--"@ + "overwrite"@ {
        lemma_long_option_is_read(f, args, i, "overwrite"@, files);
    }
    lemma_option_ignore_existing();
    if args[i] == "--"@ + "ignore-existing"@ {
        lemma_long_option_is_read(f, args, i, "ignore-existing"@, files);
    }
    lemma_option_update();
    if args[i] == "--"@ + "update"@ {
        lemma_long_option_is_read(f, args, i, "update"@, files);
    }
    lemma_option_size_only();
    if args[i] == "--"@ + "size-only"@ {
        lemma_long_option_is_read(f, args, i, "size-only"@, files);
    }
    lemma_option_ignore_times();
    if args[i] == "--"@ + "ignore-times"@ {
        lemma_long_option_is_read(f, args, i, "ignore-times"@, files);
    }
    lemma_option_inplace();
    if args[i] == "--"@ + "inplace"@ {
        lemma_long_option_is_read(f, args, i, "inplace"@, files);
    }
    lemma_option_backup();
    if args[i] == "--"@ + "backup"@ {
        lemma_long_option_is_read(f, args, i, "backup"@, files);
    }
}

proof fn lemma_option_delete_before()
    ensures
        long_option("delete-before"@) == LongOption::DeleteBefore,
        !"delete-before"@.contains('='),
        !"delete-before"@.contains('_'),
        "delete-before"@.len() > 0,
{
    lemma_lengths_of_names();
    reveal_strlit("delete-before");
    reveal_strlit("stop-on-error");
    assert("delete-before"@[0] != "stop-on-error"@[0]);
}

proof fn lemma_option_delete_during()
    ensures
        long_option("delete-during"@) == LongOption::DeleteBefore,
        !"delete-during"@.contains('='),
        !"delete-during"@.contains('_'),
        "delete-during"@.len() > 0,
{
    lemma_lengths_of_names();
    reveal_strlit("delete-during");
    reveal_strlit("stop-on-error");
    assert("delete-during"@[0] != "stop-on-error"@[0]);
}

proof fn lemma_option_delete()
    ensures
        long_option("delete"@) == LongOption::DeleteAfter,
        !"delete"@.contains('='),
        !"delete"@.contains('_'),
        "delete"@.len() > 0,
{
    lemma_lengths_of_names();
    reveal_strlit("delete");
    reveal_strlit("update");
    assert("delete"@[0] != "update"@[0]);
    reveal_strlit("backup");
    assert("delete"@[0] != "backup"@[0]);
}

proof fn lemma_option_delete_after()
    ensures
        long_option("delete-after"@) == LongOption::DeleteAfter,
        !"delete-after"@.contains('='),
        !"delete-after"@.contains('_'),
        "delete-after"@.len() > 0,
{
    lemma_lengths_of_names();
    reveal_strlit("delete-after");
    reveal_strlit("ignore-times");
    assert("delete-after"@[0] != "ignore-times"@[0]);
}

proof fn lemma_option_delete_excluded()
    ensures
        long_option("delete-excluded"@) == LongOption::DeleteExcluded,
        !"delete-excluded"@.contains('='),
        !"delete-excluded"@.contains('_'),
        "delete-excluded"@.len() > 0,
{
    lemma_lengths_of_names();
    reveal_strlit("delete-excluded");
    reveal_strlit("ignore-existing");
    assert("delete-excluded"@[0] != "ignore-existing"@[0]);
}

/// What the source lacks is removed before the copy or after it; where nothing is
/// said of when, after it.
pub proof fn law_switches_of_removing(
    f: CompatFlags,
    args: Seq<Seq<char>>,
    i: int,
    files: Map<Seq<char>, String>,
)
    requires
        0 <= i < args.len(),
    ensures
        args[i] == "--"@ + "delete-before"@ ==> read_args(f, args, i, files) == read_args(
            CompatFlags { delete_mode: Some(DeleteMode::Before), ..f },
            args,
            i + 1,
            files,
        ),
        args[i] == "--"@ + "delete-during"@ ==> read_args(f, args, i, files) == read_args(
            CompatFlags { delete_mode: Some(DeleteMode::Before), ..f },
            args,
            i + 1,
            files,
        ),
        args[i] == "--"@ + "delete"@ ==> read_args(f, args, i, files) == read_args(
            CompatFlags { delete_mode: Some(DeleteMode::After), ..f },
            args,
            i + 1,
            files,
        ),
        args[i] == "--"@ + "delete-after"@ ==> read_args(f, args, i, files) == read_args(
            CompatFlags { delete_mode: Some(DeleteMode::After), ..f },
            args,
            i + 1,
            files,
        ),
        args[i] == "--"@ + "delete-excluded"@ ==> read_args(f, args, i, files) == read_args(
            CompatFlags { delete_excluded: true, ..f },
            args,
            i + 1,
            files,
        ),
{
    lemma_option_delete_before();
    if args[i] == "--"@ + "delete-before"@ {
        lemma_long_option_is_read(f, args, i, "delete-before"@, files);
    }
    lemma_option_delete_during();
    if args[i] == "--"@ + "delete-during"@ {
        lemma_long_option_is_read(f, args, i, "delete-during"@, files);
    }
    lemma_option_delete();
    if args[i] == "--"@ + "delete"@ {
        lemma_long_option_is_read(f, args, i, "delete"@, files);
    }
    lemma_option_delete_after();
    if args[i] == "--"@ + "delete-after"@ {
        lemma_long_option_is_read(f, args, i, "delete-after"@, files);
    }
    lemma_option_delete_excluded();
    if args[i] == "--"@ + "delete-excluded"@ {
        lemma_long_option_is_read(f, args, i, "delete-excluded"@, files);
    }
}

proof fn lemma_option_stats()
    ensures
        long_option("stats"@) == LongOption::Stats,
        !"stats"@.contains('='),
        !"stats"@.contains('_'),
        "stats"@.len() > 0,
{
    lemma_lengths_of_names();
    reveal_strlit("stats");
}

proof fn lemma_option_human_readable()
    ensures
        long_option("human-readable"@) == LongOption::HumanReadable,
        !"human-readable"@.contains('='),
        !"human-readable"@.contains('_'),
        "human-readable"@.len() > 0,
{
    lemma_lengths_of_names();
    reveal_strlit("human-readable");
}

proof fn lemma_option_verbose()
    ensures
        long_option("verbose"@) == LongOption::Verbose,
        !"verbose"@.contains('='),
        !"verbose"@.contains('_'),
        "verbose"@.len() > 0,
{
    lemma_lengths_of_names();
    reveal_strlit("verbose");
    reveal_strlit("dry-run");
    assert("verbose"@[0] != "dry-run"@[0]);
}

/// `--stats`, `--human-readable` and `--verbose` change what is told.
pub proof fn law_switches_of_telling(
    f: CompatFlags,
    args: Seq<Seq<char>>,
    i: int,
    files: Map<Seq<char>, String>,
)
    requires
        0 <= i < args.len(),
    ensures
        args[i] == "--"@ + "stats"@ ==> read_args(f, args, i, files) == read_args(
            CompatFlags { stats: true, ..f },
            args,
            i + 1,
            files,
        ),
        args[i] == "--"@ + "human-readable"@ ==> read_args(f, args, i, files) == read_args(
            CompatFlags { human_readable: true, ..f },
            args,
            i + 1,
            files,
        ),
        args[i] == "--"@ + "verbose"@ ==> read_args(f, args, i, files) == read_args(
            (CompatFlags {
                verbosity: if f.verbosity < 255 {
                    f.verbosity + 1
                } else {
                    255
                },
                ..f
            }),
            args,
            i + 1,
            files,
        ),
{
    lemma_option_stats();
    if args[i] == "--"@ + "stats"@ {
        lemma_long_option_is_read(f, args, i, "stats"@, files);
    }
    lemma_option_human_readable();
    if args[i] == "--"@ + "human-readable"@ {
        lemma_long_option_is_read(f, args, i, "human-readable"@, files);
    }
    lemma_option_verbose();
    if args[i] == "--"@ + "verbose"@ {
        lemma_long_option_is_read(f, args, i, "verbose"@, files);
    }
}

proof fn lemma_option_links()
    ensures
        long_option("links"@) == LongOption::Link,
        !"links"@.contains('='),
        !"links"@.contains('_'),
        "links"@.len() > 0,
{
    lemma_lengths_of_names();
    reveal_strlit("links");
    reveal_strlit("stats");
    assert("links"@[0] != "stats"@[0]);
}

proof fn lemma_option_copy_links()
    ensures
        long_option("copy-links"@) == LongOption::Link,
        !"copy-links"@.contains('='),
        !"copy-links"@.contains('_'),
        "copy-links"@.len() > 0,
{
    lemma_lengths_of_names();
    reveal_strlit("copy-links");
}

proof fn lemma_option_copy_unsafe_links()
    ensures
        long_option("copy-unsafe-links"@) == LongOption::Link,
        !"copy-unsafe-links"@.contains('='),
        !"copy-unsafe-links"@.contains('_'),
        "copy-unsafe-links"@.len() > 0,
{
    lemma_lengths_of_names();
    reveal_strlit("copy-unsafe-links");
}

/// The options for links are noted, and change nothing else.
pub proof fn law_switches_of_links(
    f: CompatFlags,
    args: Seq<Seq<char>>,
    i: int,
    files: Map<Seq<char>, String>,
)
    requires
        0 <= i < args.len(),
    ensures
        args[i] == "--"@ + "links"@ ==> read_args(f, args, i, files) == read_args(
            CompatFlags { accepted_link_flags: f.accepted_link_flags.push("--"@ + "links"@), ..f },
            args,
            i + 1,
            files,
        ),
        args[i] == "--"@ + "copy-links"@ ==> read_args(f, args, i, files) == read_args(
            CompatFlags {
                accepted_link_flags: f.accepted_link_flags.push("--"@ + "copy-links"@),
                ..f
            },
            args,
            i + 1,
            files,
        ),
        args[i] == "--"@ + "copy-unsafe-links"@ ==> read_args(f, args, i, files) == read_args(
            CompatFlags {
                accepted_link_flags: f.accepted_link_flags.push("--"@ + "copy-unsafe-links"@),
                ..f
            },
            args,
            i + 1,
            files,
        ),
{
    lemma_option_links();
    if args[i] == "--"@ + "links"@ {
        lemma_long_option_is_read(f, args, i, "links"@, files);
    }
    lemma_option_copy_links();
    if args[i] == "--"@ + "copy-links"@ {
        lemma_long_option_is_read(f, args, i, "copy-links"@, files);
    }
    lemma_option_copy_unsafe_links();
    if args[i] == "--"@ + "copy-unsafe-links"@ {
        lemma_long_option_is_read(f, args, i, "copy-unsafe-links"@, files);
    }
}

proof fn lemma_option_log_file()
    ensures
        long_option("log-file"@) == LongOption::Log,
        !"log-file"@.contains('='),
        !"log-file"@.contains('_'),
        "log-file"@.len() > 0,
{
    lemma_lengths_of_names();
    reveal_strlit("log-file");
    reveal_strlit("checksum");
    assert("log-file"@[0] != "checksum"@[0]);
    reveal_strlit("progress");
    assert("log-file"@[0] != "progress"@[0]);
}

proof fn lemma_option_log()
    ensures
        long_option("log"@) == LongOption::Log,
        !"log"@.contains('='),
        !"log"@.contains('_'),
        "log"@.len() > 0,
{
    lemma_lengths_of_names();
    reveal_strlit("log");
}

proof fn lemma_option_policy()
    ensures
        long_option("policy"@) == LongOption::Policy,
        !"policy"@.contains('='),
        !"policy"@.contains('_'),
        "policy"@.len() > 0,
{
    lemma_lengths_of_names();
    reveal_strlit("policy");
    reveal_strlit("update");
    assert("policy"@[0] != "update"@[0]);
    reveal_strlit("backup");
    assert("policy"@[0] != "backup"@[0]);
    reveal_strlit("delete");
    assert("policy"@[0] != "delete"@[0]);
}

proof fn lemma_option_backup_dir()
    ensures
        long_option("backup-dir"@) == LongOption::BackupDir,
        !"backup-dir"@.contains('='),
        !"backup-dir"@.contains('_'),
        "backup-dir"@.len() > 0,
{
    lemma_lengths_of_names();
    reveal_strlit("backup-dir");
    reveal_strlit("copy-links");
    assert("backup-dir"@[0] != "copy-links"@[0]);
}

proof fn lemma_option_exclude()
    ensures
        long_option("exclude"@) == LongOption::Exclude,
        !"exclude"@.contains('='),
        !"exclude"@.contains('_'),
        "exclude"@.len() > 0,
{
    lemma_lengths_of_names();
    reveal_strlit("exclude");
    reveal_strlit("dry-run");
    assert("exclude"@[0] != "dry-run"@[0]);
    reveal_strlit("verbose");
    assert("exclude"@[0] != "verbose"@[0]);
    reveal_strlit("inplace");
    assert("exclude"@[0] != "inplace"@[0]);
}

proof fn lemma_option_exclude_if_present()
    ensures
        long_option("exclude-if-present"@) == LongOption::ExcludeIfPresent,
        !"exclude-if-present"@.contains('='),
        !"exclude-if-present"@.contains('_'),
        "exclude-if-present"@.len() > 0,
{
    lemma_lengths_of_names();
    reveal_strlit("exclude-if-present");
}

proof fn lemma_option_rsh()
    ensures
        long_option("rsh"@) == LongOption::RemoteShell,
        !"rsh"@.contains('='),
        !"rsh"@.contains('_'),
        "rsh"@.len() > 0,
{
    lemma_lengths_of_names();
    reveal_strlit("rsh");
    reveal_strlit("log");
    assert("rsh"@[0] != "log"@[0]);
}

proof fn lemma_option_ssh()
    ensures
        long_option("ssh"@) == LongOption::RemoteShell,
        !"ssh"@.contains('='),
        !"ssh"@.contains('_'),
        "ssh"@.len() > 0,
{
    lemma_lengths_of_names();
    reveal_strlit("ssh");
    reveal_strlit("log");
    assert("ssh"@[0] != "log"@[0]);
}

/// The options that take a value take the next argument as it: where to log,
/// the policy, where backups go, what is left out, and what is unsupported.
pub proof fn law_values_are_taken(
    f: CompatFlags,
    args: Seq<Seq<char>>,
    i: int,
    files: Map<Seq<char>, String>,
)
    requires
        0 <= i,
        i + 1 < args.len(),
    ensures
        args[i] == "--"@ + "log-file"@ ==> read_args(f, args, i, files) == read_args(
            CompatFlags { log: Some(args[i + 1]), ..f },
            args,
            i + 2,
            files,
        ),
        args[i] == "--"@ + "log"@ ==> read_args(f, args, i, files) == read_args(
            CompatFlags { log: Some(args[i + 1]), ..f },
            args,
            i + 2,
            files,
        ),
        args[i] == "--"@ + "policy"@ ==> read_args(f, args, i, files) == read_args(
            CompatFlags { policy: Some(args[i + 1]), ..f },
            args,
            i + 2,
            files,
        ),
        args[i] == "--"@ + "backup-dir"@ ==> read_args(f, args, i, files) == read_args(
            CompatFlags { backup_dir: Some(args[i + 1]), ..f },
            args,
            i + 2,
            files,
        ),
        args[i] == "--"@ + "exclude"@ ==> read_args(f, args, i, files) == read_args(
            CompatFlags { exclude_prefixes: f.exclude_prefixes.push(args[i + 1]), ..f },
            args,
            i + 2,
            files,
        ),
        args[i] == "--"@ + "exclude-if-present"@ ==> read_args(f, args, i, files) == read_args(
            CompatFlags {
                exclude_if_present: f.exclude_if_present.push(policy_path(args[i + 1])),
                ..f
            },
            args,
            i + 2,
            files,
        ),
        args[i] == "--"@ + "rsh"@ ==> read_args(f, args, i, files) == read_args(
            CompatFlags {
                unsupported_args: f.unsupported_args.push("--"@ + "rsh"@ + "="@ + args[i + 1]),
                ..f
            },
            args,
            i + 2,
            files,
        ),
        args[i] == "--"@ + "ssh"@ ==> read_args(f, args, i, files) == read_args(
            CompatFlags {
                unsupported_args: f.unsupported_args.push("--"@ + "ssh"@ + "="@ + args[i + 1]),
                ..f
            },
            args,
            i + 2,
            files,
        ),
{
    lemma_option_log_file();
    if args[i] == "--"@ + "log-file"@ {
        lemma_long_option_is_read(f, args, i, "log-file"@, files);
    }
    lemma_option_log();
    if args[i] == "--"@ + "log"@ {
        lemma_long_option_is_read(f, args, i, "log"@, files);
    }
    lemma_option_policy();
    if args[i] == "--"@ + "policy"@ {
        lemma_long_option_is_read(f, args, i, "policy"@, files);
    }
    lemma_option_backup_dir();
    if args[i] == "--"@ + "backup-dir"@ {
        lemma_long_option_is_read(f, args, i, "backup-dir"@, files);
    }
    lemma_option_exclude();
    if args[i] == "--"@ + "exclude"@ {
        lemma_long_option_is_read(f, args, i, "exclude"@, files);
    }
    lemma_option_exclude_if_present();
    if args[i] == "--"@ + "exclude-if-present"@ {
        lemma_long_option_is_read(f, args, i, "exclude-if-present"@, files);
    }
    lemma_option_rsh();
    if args[i] == "--"@ + "rsh"@ {
        lemma_long_option_is_read(f, args, i, "rsh"@, files);
    }
    lemma_option_ssh();
    if args[i] == "--"@ + "ssh"@ {
        lemma_long_option_is_read(f, args, i, "ssh"@, files);
    }
}

proof fn lemma_option_include()
    ensures
        long_option("include"@) == LongOption::Include,
        !"include"@.contains('='),
        !"include"@.contains('_'),
        "include"@.len() > 0,
{
    lemma_lengths_of_names();
    reveal_strlit("include");
    reveal_strlit("dry-run");
    assert("include"@[0] != "dry-run"@[0]);
    reveal_strlit("verbose");
    assert("include"@[0] != "verbose"@[0]);
    reveal_strlit("inplace");
    assert("include"@[2] != "inplace"@[2]);
    reveal_strlit("exclude");
    assert("include"@[0] != "exclude"@[0]);
    reveal_strlit("max-age");
    assert("include"@[0] != "max-age"@[0]);
}

/// A pattern to be chosen is kept where it says something.
pub proof fn law_patterns_are_taken(
    f: CompatFlags,
    args: Seq<Seq<char>>,
    i: int,
    files: Map<Seq<char>, String>,
)
    requires
        0 <= i,
        i + 1 < args.len(),
        pattern_of(args[i + 1]) is Some,
    ensures
        args[i] == "--"@ + "include"@ ==> read_args(f, args, i, files) == read_args(
            CompatFlags {
                include_patterns: f.include_patterns.push(pattern_of(args[i + 1])->0),
                ..f
            },
            args,
            i + 2,
            files,
        ),
{
    lemma_option_include();
    if args[i] == "--"@ + "include"@ {
        lemma_long_option_is_read(f, args, i, "include"@, files);
    }
}

proof fn lemma_option_exclude_from()
    ensures
        long_option("exclude-from"@) == LongOption::ExcludeFrom,
        !"exclude-from"@.contains('='),
        !"exclude-from"@.contains('_'),
        "exclude-from"@.len() > 0,
{
    lemma_lengths_of_names();
    reveal_strlit("exclude-from");
    reveal_strlit("ignore-times");
    assert("exclude-from"@[0] != "ignore-times"@[0]);
    reveal_strlit("delete-after");
    assert("exclude-from"@[0] != "delete-after"@[0]);
}

proof fn lemma_option_files_from()
    ensures
        long_option("files-from"@) == LongOption::FilesFrom,
        !"files-from"@.contains('='),
        !"files-from"@.contains('_'),
        "files-from"@.len() > 0,
{
    lemma_lengths_of_names();
    reveal_strlit("files-from");
    reveal_strlit("copy-links");
    assert("files-from"@[0] != "copy-links"@[0]);
    reveal_strlit("backup-dir");
    assert("files-from"@[0] != "backup-dir"@[0]);
}

proof fn lemma_option_include_from()
    ensures
        long_option("include-from"@) == LongOption::IncludeFrom,
        !"include-from"@.contains('='),
        !"include-from"@.contains('_'),
        "include-from"@.len() > 0,
{
    lemma_lengths_of_names();
    reveal_strlit("include-from");
    reveal_strlit("ignore-times");
    assert("include-from"@[1] != "ignore-times"@[1]);
    reveal_strlit("delete-after");
    assert("include-from"@[0] != "delete-after"@[0]);
    reveal_strlit("exclude-from");
    assert("include-from"@[0] != "exclude-from"@[0]);
}

proof fn lemma_option_filter_from()
    ensures
        long_option("filter-from"@) == LongOption::FilterFrom,
        !"filter-from"@.contains('='),
        !"filter-from"@.contains('_'),
        "filter-from"@.len() > 0,
{
    lemma_lengths_of_names();
    reveal_strlit("filter-from");
}

/// What a file lists is left out, chosen, or copied alone, by the option that
/// names the file.
pub proof fn law_files_are_read(
    f: CompatFlags,
    args: Seq<Seq<char>>,
    i: int,
    files: Map<Seq<char>, String>,
)
    requires
        0 <= i,
        i + 1 < args.len(),
        files.contains_key(args[i + 1]),
    ensures
        args[i] == "--"@ + "exclude-from"@ ==> read_args(f, args, i, files) == read_args(
            CompatFlags {
                exclude_prefixes: f.exclude_prefixes + entries_of(files[args[i + 1]]@),
                ..f
            },
            args,
            i + 2,
            files,
        ),
        args[i] == "--"@ + "files-from"@ ==> read_args(f, args, i, files) == read_args(
            CompatFlags {
                files_from_patterns: f.files_from_patterns + patterns_of(
                    entries_of(files[args[i + 1]]@),
                ),
                ..f
            },
            args,
            i + 2,
            files,
        ),
        args[i] == "--"@ + "include-from"@ ==> read_args(f, args, i, files) == read_args(
            CompatFlags {
                include_patterns: f.include_patterns + patterns_of(entries_of(files[args[i + 1]]@)),
                ..f
            },
            args,
            i + 2,
            files,
        ),
        args[i] == "--"@ + "filter-from"@ ==> read_args(f, args, i, files) == read_args(
            f.with_rules(entries_of(files[args[i + 1]]@)),
            args,
            i + 2,
            files,
        ),
{
    lemma_option_exclude_from();
    if args[i] == "--"@ + "exclude-from"@ {
        lemma_long_option_is_read(f, args, i, "exclude-from"@, files);
    }
    lemma_option_files_from();
    if args[i] == "--"@ + "files-from"@ {
        lemma_long_option_is_read(f, args, i, "files-from"@, files);
    }
    lemma_option_include_from();
    if args[i] == "--"@ + "include-from"@ {
        lemma_long_option_is_read(f, args, i, "include-from"@, files);
    }
    lemma_option_filter_from();
    if args[i] == "--"@ + "filter-from"@ {
        lemma_long_option_is_read(f, args, i, "filter-from"@, files);
    }
}

proof fn lemma_option_progress_every()
    ensures
        long_option("progress-every"@) == LongOption::ProgressEvery,
        !"progress-every"@.contains('='),
        !"progress-every"@.contains('_'),
        "progress-every"@.len() > 0,
{
    lemma_lengths_of_names();
    reveal_strlit("progress-every");
    reveal_strlit("human-readable");
    assert("progress-every"@[0] != "human-readable"@[0]);
}

proof fn lemma_option_max_age()
    ensures
        long_option("max-age"@) == LongOption::MaxAge,
        !"max-age"@.contains('='),
        !"max-age"@.contains('_'),
        "max-age"@.len() > 0,
{
    lemma_lengths_of_names();
    reveal_strlit("max-age");
    reveal_strlit("dry-run");
    assert("max-age"@[0] != "dry-run"@[0]);
    reveal_strlit("verbose");
    assert("max-age"@[0] != "verbose"@[0]);
    reveal_strlit("inplace");
    assert("max-age"@[0] != "inplace"@[0]);
    reveal_strlit("exclude");
    assert("max-age"@[0] != "exclude"@[0]);
}

proof fn lemma_option_filter()
    ensures
        long_option("filter"@) == LongOption::Filter,
        !"filter"@.contains('='),
        !"filter"@.contains('_'),
        "filter"@.len() > 0,
{
    lemma_lengths_of_names();
    reveal_strlit("filter");
    reveal_strlit("update");
    assert("filter"@[0] != "update"@[0]);
    reveal_strlit("backup");
    assert("filter"@[0] != "backup"@[0]);
    reveal_strlit("delete");
    assert("filter"@[0] != "delete"@[0]);
    reveal_strlit("policy");
    assert("filter"@[0] != "policy"@[0]);
}

/// How often progress is told is a number of files, at least one; anything but a
/// number is refused.
pub proof fn law_progress_takes_a_number(
    f: CompatFlags,
    args: Seq<Seq<char>>,
    i: int,
    files: Map<Seq<char>, String>,
)
    requires
        0 <= i,
        i + 1 < args.len(),
        args[i] == "--"@ + "progress-every"@,
    ensures
        bounded_number(args[i + 1], usize::MAX as nat) matches Some(n) ==> n > 0 ==> read_args(
            f,
            args,
            i,
            files,
        ) == read_args(CompatFlags { progress_every: n, ..f }, args, i + 2, files),
        bounded_number(args[i + 1], usize::MAX as nat) == Some(0nat) ==> read_args(
            f,
            args,
            i,
            files,
        ) == read_args(CompatFlags { progress_every: 1, ..f }, args, i + 2, files),
        bounded_number(args[i + 1], usize::MAX as nat) is None ==> read_args(
            f,
            args,
            i,
            files,
        ) is Err,
{
    lemma_option_progress_every();
    lemma_long_option_is_read(f, args, i, "progress-every"@, files);
}

/// An age that can be read is taken, and any other is refused.
pub proof fn law_age_is_taken(
    f: CompatFlags,
    args: Seq<Seq<char>>,
    i: int,
    files: Map<Seq<char>, String>,
)
    requires
        0 <= i,
        i + 1 < args.len(),
        args[i] == "--"@ + "max-age"@,
    ensures
        age_of(args[i + 1]) matches Ok(n) ==> read_args(f, args, i, files) == read_args(
            CompatFlags { max_age_ns: Some(n), ..f },
            args,
            i + 2,
            files,
        ),
        age_of(args[i + 1]) is Err ==> read_args(f, args, i, files) is Err,
{
    lemma_option_max_age();
    lemma_long_option_is_read(f, args, i, "max-age"@, files);
}

/// A rule with a plus sign chooses what its pattern matches, one with a minus
/// sign leaves it out, and an empty one does nothing; any other is noted as
/// unsupported, and only once.
pub proof fn law_rules_choose_and_leave_out(f: CompatFlags, rule: Seq<char>)
    ensures
        stripped(rule).len() == 0 ==> f.with_rule(rule) == f,
        (stripped(rule).len() > 0 && stripped(rule)[0] == '+' && pattern_of(
            stripped(rule).skip(1),
        ) is Some) ==> f.with_rule(rule) == (CompatFlags {
            include_patterns: f.include_patterns.push(pattern_of(stripped(rule).skip(1))->0),
            ..f
        }),
        (stripped(rule).len() > 0 && stripped(rule)[0] == '-' && pattern_of(
            stripped(rule).skip(1),
        ) is Some) ==> f.with_rule(rule) == (CompatFlags {
            filter_exclude_patterns: f.filter_exclude_patterns.push(
                pattern_of(stripped(rule).skip(1))->0,
            ),
            ..f
        }),
        (stripped(rule).len() > 0 && stripped(rule)[0] != '+' && stripped(rule)[0] != '-') ==> {
            let g = f.with_rule(rule);
            &&& g.include_patterns == f.include_patterns
            &&& g.filter_exclude_patterns == f.filter_exclude_patterns
            &&& f.unsupported_rules.contains("--filter="@ + stripped(rule)) ==> g == f
            &&& !f.unsupported_rules.contains("--filter="@ + stripped(rule)) ==> g.unsupported_args
                == f.unsupported_args.push("--filter="@ + stripped(rule)) && g.unsupported_rules
                == f.unsupported_rules.push("--filter="@ + stripped(rule))
        },
{
}

/// The letters stand for the options of their names.
pub proof fn law_letters_stand_for_options(f: CompatFlags)
    ensures
        letter_effect(f, 'n') == (CompatFlags { dry_run: true, ..f }),
        letter_effect(f, 'u') == (CompatFlags { overwrite: false, ..f }),
        letter_effect(f, 'c') == (CompatFlags { hash: true, ..f }),
        letter_effect(f, 'h') == (CompatFlags { human_readable: true, ..f }),
        f.verbosity < 255 ==> letter_effect(f, 'v') == (CompatFlags {
            verbosity: f.verbosity + 1,
            ..f
        }),
{
}

/// The letters that are accepted for the sake of other tools change nothing.
pub proof fn law_letters_without_effect(f: CompatFlags, c: char)
    requires
        seq![
            'a', 'r', 'l', 't', 'p', 'H', 'L', 'z', 'R', 'x', 'q', 'I', 'S', 'k', 'm', 'D', 'o',
            'g', 'P',
        ].contains(c),
    ensures
        letter_effect(f, c) == f,
{
    reveal_strlit("arltpHLzRxqISkmDogP");
    let all = seq![
        'a', 'r', 'l', 't', 'p', 'H', 'L', 'z', 'R', 'x', 'q', 'I', 'S', 'k', 'm', 'D', 'o', 'g',
        'P',
    ];
    let k = all.index_of(c);
    assert("arltpHLzRxqISkmDogP"@ =~= all);
}

/// Of a file, the lines count that are not empty and no comments, without the
/// white space around them.
pub proof fn law_lines_of_a_list(line: Seq<char>)
    ensures
        says_something(line) <==> line.len() > 0 && line[0] != '#',
{
}

/// Where nothing is asked for, files are neither replaced nor removed, all is
/// copied, and progress is told every thousand files.
pub proof fn law_nothing_asked_for()
    ensures
        ({
            let f = initial_flags();
            &&& !f.overwrite && !f.dry_run && !f.stop_on_error && !f.hash && !f.size_only
            &&& !f.inplace && !f.stats && !f.human_readable && !f.backup_requested
            &&& !f.delete_excluded && f.delete_mode is None && f.max_age_ns is None
            &&& f.policy is None && f.log is None && f.backup_dir is None
            &&& f.progress_every == 1000 && f.verbosity == 0
            &&& f.exclude_prefixes.len() == 0 && f.exclude_if_present.len() == 0
            &&& f.include_patterns.len() == 0 && f.files_from_patterns.len() == 0
            &&& f.filter_exclude_patterns.len() == 0 && f.unsupported_args.len() == 0
            &&& f.positionals.len() == 0 && f.accepted_link_flags.len() == 0
        }),
{
}

/// A run does what was asked for: it copies from the first path to the second,
/// and a place for backups asks for backups.
pub proof fn law_run_does_what_was_asked(r: CompatRuntime, f: CompatFlags)
    requires
        r.answers(f),
    ensures
        r.source@ == f.positionals[0],
        r.destination@ == f.positionals[1],
        r.source_trailing_slash <==> r.source@.len() > 0 && (r.source@.last() == '/'
            || r.source@.last() == '\\'),
        r.destination_trailing_slash <==> r.destination@.len() > 0 && (r.destination@.last() == '/'
            || r.destination@.last() == '\\'),
        r.overwrite == f.overwrite,
        r.dry_run == f.dry_run,
        r.stop_on_error == f.stop_on_error,
        r.hash == f.hash,
        r.size_only == f.size_only,
        r.inplace == f.inplace,
        r.stats == f.stats,
        r.human_readable == f.human_readable,
        r.verbosity == f.verbosity,
        r.delete_mode == f.delete_mode,
        r.delete_excluded == f.delete_excluded,
        f.backup_requested ==> r.backup_requested,
        f.backup_dir is Some ==> r.backup_requested,
        !f.backup_requested && f.backup_dir is None ==> !r.backup_requested,
        opt_text(r.backup_dir) == f.backup_dir,
        opt_text(r.policy) == f.policy,
        opt_text(r.log) == f.log,
        f.progress_every >= 1 ==> r.progress_every == f.progress_every,
        texts(r.exclude_prefixes@) == f.exclude_prefixes,
        texts(r.exclude_if_present@) == f.exclude_if_present,
        f.max_age_ns matches Some(n) ==> r.max_age_ns is Some && r.max_age_ns->0 == n,
        f.max_age_ns is None ==> r.max_age_ns is None,
        r.unsupported_args@.len() == f.unsupported_args.len() + f.positionals.len() - 2,
{
    assert(texts(r.unsupported_args@).len() == r.unsupported_args@.len());
}

/// What is told of arguments that cannot be read names the option, or the value,
/// and the tool.
pub proof fn law_faults_of_arguments(option: Seq<char>, value: Seq<char>, command: Seq<char>)
    ensures
        (CompatFault::MissingValue { option }).message(command) == "missing value for "@ + option
            + " in "@ + command + " compatibility parsing"@,
        (CompatFault::InvalidProgress { value, attached: true }).message(command)
            == "invalid --progress-every '"@ + value + "' in "@ + command
            + " compatibility parsing"@,
        (CompatFault::InvalidProgress { value, attached: false }).message(command)
            == "invalid --progress-every '"@ + value + "'"@,
        (CompatFault::FileNeeded { option, path: value }).message(command) == "invalid "@ + option
            + " value '"@ + value + "'"@,
        CompatFault::MissingPaths.message(command) == command + " requires <source> <destination>"@,
        forall|error: AgeError| #[trigger]
            (CompatFault::InvalidAge { value, error }).message(command) == "invalid --max-age='"@
                + value + "' in "@ + command + " compatibility parsing"@,
{
}

/// An option that takes a value and is the last argument is refused.
pub proof fn law_values_must_not_be_missing(
    f: CompatFlags,
    args: Seq<Seq<char>>,
    files: Map<Seq<char>, String>,
)
    requires
        args.len() > 0,
    ensures
        args.last() == "--"@ + "policy"@ ==> read_args(f, args, args.len() - 1, files) == Err::<
            CompatFlags,
            CompatFault,
        >(CompatFault::MissingValue { option: args.last() }),
        args.last() == "--"@ + "exclude"@ ==> read_args(f, args, args.len() - 1, files) == Err::<
            CompatFlags,
            CompatFault,
        >(CompatFault::MissingValue { option: args.last() }),
        args.last() == "--"@ + "backup-dir"@ ==> read_args(f, args, args.len() - 1, files) == Err::<
            CompatFlags,
            CompatFault,
        >(CompatFault::MissingValue { option: args.last() }),
{
    lemma_option_policy();
    lemma_option_exclude();
    lemma_option_backup_dir();
    let i = args.len() - 1;
    if args.last() == "--"@ + "policy"@ {
        lemma_long_option_is_read(f, args, i, "policy"@, files);
    }
    if args.last() == "--"@ + "exclude"@ {
        lemma_long_option_is_read(f, args, i, "exclude"@, files);
    }
    if args.last() == "--"@ + "backup-dir"@ {
        lemma_long_option_is_read(f, args, i, "backup-dir"@, files);
    }
}

/// An argument that neither starts with a dash nor holds an equals sign is a
/// path.
pub proof fn law_paths_are_kept(
    f: CompatFlags,
    args: Seq<Seq<char>>,
    i: int,
    files: Map<Seq<char>, String>,
)
    requires
        0 <= i < args.len(),
        args[i].len() > 0,
        args[i][0] != '-',
        !args[i].contains('='),
    ensures
        read_args(f, args, i, files) == read_args(
            CompatFlags { positionals: f.positionals.push(args[i]), ..f },
            args,
            i + 1,
            files,
        ),
{
    reveal_strlit("--");
    assert("--"@[0] == '-');
    if starts_with(args[i], "--"@) {
        assert(args[i].subrange(0, 2)[0] == args[i][0]);
    }
}

/// A rule that is given takes effect as a rule of a file does.
pub proof fn law_filter_takes_a_rule(
    f: CompatFlags,
    args: Seq<Seq<char>>,
    i: int,
    files: Map<Seq<char>, String>,
)
    requires
        0 <= i,
        i + 1 < args.len(),
        args[i] == "--"@ + "filter"@,
    ensures
        read_args(f, args, i, files) == read_args(f.with_rule(args[i + 1]), args, i + 2, files),
{
    lemma_option_filter();
    lemma_long_option_is_read(f, args, i, "filter"@, files);
}

} // verus!
