//! The flags of familiar copy tools, read into what a copy run needs.

use crate::filter::{lemma_filter_start, lemma_filter_step};
use crate::number::{bounded_number, parse_number};
use crate::pattern::{pattern_of, PatternSpec};
use crate::policy::{age_of, normalize_policy_path, parse_age_value, policy_path, AgeError};
use crate::text::{
    any_same, char_texts, find_char, first_char_at, from_chars, has_prefix, lines, lines_of,
    opt_str, opt_text, replace_char, replaced, same, slice, starts_with, strip, stripped, texts,
    to_chars,
};
use crate::textmap::TextMap;
use vstd::prelude::*;
use vstd::string::*;
use vstd::utf8::encode_utf8;

verus! {

/// The arguments behind the name of a copy tool.
#[derive(Debug)]
pub struct CompatCopyArgs {
    pub compat_args: Vec<String>,
}

/// When files that only the destination has are deleted.
#[derive(Clone, Copy, Debug, PartialEq, Eq, Structural)]
pub enum DeleteMode {
    Before,
    After,
}

/// What a copy run was asked for.
#[derive(Debug)]
pub struct CompatRuntime {
    pub source: String,
    pub destination: String,
    pub source_trailing_slash: bool,
    pub destination_trailing_slash: bool,
    pub overwrite: bool,
    pub dry_run: bool,
    pub stop_on_error: bool,
    pub policy: Option<String>,
    pub hash: bool,
    pub log: Option<String>,
    pub progress_every: usize,
    pub size_only: bool,
    pub delete_mode: Option<DeleteMode>,
    pub delete_excluded: bool,
    pub inplace: bool,
    pub stats: bool,
    pub human_readable: bool,
    pub verbosity: u8,
    pub backup_requested: bool,
    pub backup_dir: Option<String>,
    pub exclude_prefixes: Vec<String>,
    pub exclude_if_present: Vec<String>,
    pub include_patterns: Vec<PatternSpec>,
    pub files_from_patterns: Vec<PatternSpec>,
    pub filter_exclude_patterns: Vec<PatternSpec>,
    pub max_age_ns: Option<i64>,
    pub accepted_link_flags: Vec<String>,
    pub unsupported_args: Vec<String>,
}

/// Why arguments cannot be read.
#[derive(Debug)]
pub enum CompatError {
    /// An option that takes a value stands last.
    MissingValue { option: String },
    /// The value of `--max-age` is no age.
    InvalidAge { value: String, error: AgeError },
    /// The value of `--progress-every` is no number; `attached` where it
    /// stands behind an equals sign.
    InvalidProgress { value: String, attached: bool },
    /// The text of a file that an option names is not at hand.
    FileNeeded { option: String, path: String },
    /// Fewer than two paths are given.
    MissingPaths,
}

/// The errors as values of specifications.
pub enum CompatFault {
    MissingValue { option: Seq<char> },
    InvalidAge { value: Seq<char>, error: AgeError },
    InvalidProgress { value: Seq<char>, attached: bool },
    FileNeeded { option: Seq<char>, path: Seq<char> },
    MissingPaths,
}

impl CompatError {
    pub open spec fn view(&self) -> CompatFault {
        match self {
            CompatError::MissingValue { option } => CompatFault::MissingValue { option: option@ },
            CompatError::InvalidAge { value, error } => CompatFault::InvalidAge {
                value: value@,
                error: *error,
            },
            CompatError::InvalidProgress { value, attached } => CompatFault::InvalidProgress {
                value: value@,
                attached: *attached,
            },
            CompatError::FileNeeded { option, path } => CompatFault::FileNeeded {
                option: option@,
                path: path@,
            },
            CompatError::MissingPaths => CompatFault::MissingPaths,
        }
    }
}

// ---------------------------------------------------------------------------
// Long options
// ---------------------------------------------------------------------------

/// The options with a name.
#[derive(Clone, Copy, Debug, PartialEq, Eq, Structural)]
pub enum LongOption {
    DryRun,
    KeepExisting,
    Overwrite,
    Hash,
    Stats,
    HumanReadable,
    Verbose,
    Backup,
    StopOnError,
    SizeOnly,
    Inplace,
    Link,
    NoEffect,
    DeleteBefore,
    DeleteAfter,
    DeleteExcluded,
    Log,
    Policy,
    Exclude,
    ExcludeFrom,
    ExcludeIfPresent,
    ProgressEvery,
    BackupDir,
    MaxAge,
    FilesFrom,
    Filter,
    FilterFrom,
    Include,
    IncludeFrom,
    RemoteShell,
    Unknown,
}

/// The option that a name stands for.
pub open spec fn long_option(name: Seq<char>) -> LongOption {
    if name == "dry-run"@ {
        LongOption::DryRun
    } else if name == "ignore-existing"@ || name == "update"@ {
        LongOption::KeepExisting
    } else if name == "overwrite"@ {
        LongOption::Overwrite
    } else if name == "checksum"@ || name == "hash"@ {
        LongOption::Hash
    } else if name == "stats"@ {
        LongOption::Stats
    } else if name == "human-readable"@ {
        LongOption::HumanReadable
    } else if name == "verbose"@ {
        LongOption::Verbose
    } else if name == "backup"@ {
        LongOption::Backup
    } else if name == "stop-on-error"@ {
        LongOption::StopOnError
    } else if name == "size-only"@ || name == "ignore-times"@ {
        LongOption::SizeOnly
    } else if name == "inplace"@ {
        LongOption::Inplace
    } else if name == "copy-links"@ || name == "copy-unsafe-links"@ || name == "links"@ {
        LongOption::Link
    } else if name == "perms"@ || name == "times"@ || name == "group"@ || name == "owner"@ || name
        == "chmod"@ || name == "progress"@ {
        LongOption::NoEffect
    } else if name == "delete-before"@ || name == "delete-during"@ {
        LongOption::DeleteBefore
    } else if name == "delete"@ || name == "delete-after"@ {
        LongOption::DeleteAfter
    } else if name == "delete-excluded"@ {
        LongOption::DeleteExcluded
    } else if name == "log-file"@ || name == "log"@ {
        LongOption::Log
    } else if name == "policy"@ {
        LongOption::Policy
    } else if name == "exclude"@ {
        LongOption::Exclude
    } else if name == "exclude-from"@ {
        LongOption::ExcludeFrom
    } else if name == "exclude-if-present"@ {
        LongOption::ExcludeIfPresent
    } else if name == "progress-every"@ {
        LongOption::ProgressEvery
    } else if name == "backup-dir"@ {
        LongOption::BackupDir
    } else if name == "max-age"@ {
        LongOption::MaxAge
    } else if name == "files-from"@ {
        LongOption::FilesFrom
    } else if name == "filter"@ {
        LongOption::Filter
    } else if name == "filter-from"@ {
        LongOption::FilterFrom
    } else if name == "include"@ {
        LongOption::Include
    } else if name == "include-from"@ {
        LongOption::IncludeFrom
    } else if name == "rsh"@ || name == "ssh"@ || name == "dry-run-mode"@ {
        LongOption::RemoteShell
    } else {
        LongOption::Unknown
    }
}

fn classify(name: &str) -> (r: LongOption)
    ensures
        r == long_option(name@),
{
    if same(name, "dry-run") {
        LongOption::DryRun
    } else if same(name, "ignore-existing") || same(name, "update") {
        LongOption::KeepExisting
    } else if same(name, "overwrite") {
        LongOption::Overwrite
    } else if same(name, "checksum") || same(name, "hash") {
        LongOption::Hash
    } else if same(name, "stats") {
        LongOption::Stats
    } else if same(name, "human-readable") {
        LongOption::HumanReadable
    } else if same(name, "verbose") {
        LongOption::Verbose
    } else if same(name, "backup") {
        LongOption::Backup
    } else if same(name, "stop-on-error") {
        LongOption::StopOnError
    } else if same(name, "size-only") || same(name, "ignore-times") {
        LongOption::SizeOnly
    } else if same(name, "inplace") {
        LongOption::Inplace
    } else if same(name, "copy-links") || same(name, "copy-unsafe-links") || same(name, "links") {
        LongOption::Link
    } else if same(name, "perms") || same(name, "times") || same(name, "group") || same(
        name,
        "owner",
    ) || same(name, "chmod") || same(name, "progress") {
        LongOption::NoEffect
    } else if same(name, "delete-before") || same(name, "delete-during") {
        LongOption::DeleteBefore
    } else if same(name, "delete") || same(name, "delete-after") {
        LongOption::DeleteAfter
    } else if same(name, "delete-excluded") {
        LongOption::DeleteExcluded
    } else if same(name, "log-file") || same(name, "log") {
        LongOption::Log
    } else if same(name, "policy") {
        LongOption::Policy
    } else if same(name, "exclude") {
        LongOption::Exclude
    } else if same(name, "exclude-from") {
        LongOption::ExcludeFrom
    } else if same(name, "exclude-if-present") {
        LongOption::ExcludeIfPresent
    } else if same(name, "progress-every") {
        LongOption::ProgressEvery
    } else if same(name, "backup-dir") {
        LongOption::BackupDir
    } else if same(name, "max-age") {
        LongOption::MaxAge
    } else if same(name, "files-from") {
        LongOption::FilesFrom
    } else if same(name, "filter") {
        LongOption::Filter
    } else if same(name, "filter-from") {
        LongOption::FilterFrom
    } else if same(name, "include") {
        LongOption::Include
    } else if same(name, "include-from") {
        LongOption::IncludeFrom
    } else if same(name, "rsh") || same(name, "ssh") || same(name, "dry-run-mode") {
        LongOption::RemoteShell
    } else {
        LongOption::Unknown
    }
}

impl LongOption {
    /// Whether the option takes a value, behind an equals sign or from the
    /// next argument.
    pub open spec fn takes_value(self) -> bool {
        match self {
            LongOption::Log | LongOption::Policy | LongOption::Exclude | LongOption::ExcludeFrom
            | LongOption::ExcludeIfPresent | LongOption::ProgressEvery | LongOption::BackupDir
            | LongOption::MaxAge | LongOption::FilesFrom | LongOption::Filter
            | LongOption::FilterFrom | LongOption::Include | LongOption::IncludeFrom
            | LongOption::RemoteShell => true,
            _ => false,
        }
    }

    /// Whether the option is known only without an equals sign behind it.
    pub open spec fn only_bare(self) -> bool {
        self == LongOption::Verbose || self == LongOption::Overwrite || self
            == LongOption::StopOnError
    }

    fn has_value(self) -> (r: bool)
        ensures
            r == self.takes_value(),
    {
        match self {
            LongOption::Log | LongOption::Policy | LongOption::Exclude | LongOption::ExcludeFrom
            | LongOption::ExcludeIfPresent | LongOption::ProgressEvery | LongOption::BackupDir
            | LongOption::MaxAge | LongOption::FilesFrom | LongOption::Filter
            | LongOption::FilterFrom | LongOption::Include | LongOption::IncludeFrom
            | LongOption::RemoteShell => true,
            _ => false,
        }
    }

    fn is_only_bare(self) -> (r: bool)
        ensures
            r == self.only_bare(),
    {
        match self {
            LongOption::Verbose | LongOption::Overwrite | LongOption::StopOnError => true,
            _ => false,
        }
    }
}

// ---------------------------------------------------------------------------
// The state of the reading
// ---------------------------------------------------------------------------

/// What has been read so far.
pub struct CompatFlags {
    pub overwrite: bool,
    pub dry_run: bool,
    pub stop_on_error: bool,
    pub policy: Option<Seq<char>>,
    pub hash: bool,
    pub log: Option<Seq<char>>,
    pub progress_every: nat,
    pub size_only: bool,
    pub delete_mode: Option<DeleteMode>,
    pub delete_excluded: bool,
    pub inplace: bool,
    pub stats: bool,
    pub human_readable: bool,
    pub verbosity: nat,
    pub backup_requested: bool,
    pub backup_dir: Option<Seq<char>>,
    pub exclude_prefixes: Seq<Seq<char>>,
    pub exclude_if_present: Seq<Seq<char>>,
    pub include_patterns: Seq<(Seq<char>, bool)>,
    pub files_from_patterns: Seq<(Seq<char>, bool)>,
    pub filter_exclude_patterns: Seq<(Seq<char>, bool)>,
    pub max_age_ns: Option<int>,
    pub accepted_link_flags: Seq<Seq<char>>,
    pub unsupported_args: Seq<Seq<char>>,
    /// The filter rules among the unsupported arguments.
    pub unsupported_rules: Seq<Seq<char>>,
    pub positionals: Seq<Seq<char>>,
}

/// The state before any argument is read.
pub open spec fn initial_flags() -> CompatFlags {
    CompatFlags {
        overwrite: false,
        dry_run: false,
        stop_on_error: false,
        policy: None,
        hash: false,
        log: None,
        progress_every: 1000,
        size_only: false,
        delete_mode: None,
        delete_excluded: false,
        inplace: false,
        stats: false,
        human_readable: false,
        verbosity: 0,
        backup_requested: false,
        backup_dir: None,
        exclude_prefixes: Seq::empty(),
        exclude_if_present: Seq::empty(),
        include_patterns: Seq::empty(),
        files_from_patterns: Seq::empty(),
        filter_exclude_patterns: Seq::empty(),
        max_age_ns: None,
        accepted_link_flags: Seq::empty(),
        unsupported_args: Seq::empty(),
        unsupported_rules: Seq::empty(),
        positionals: Seq::empty(),
    }
}

pub open spec fn patterns(v: Seq<PatternSpec>) -> Seq<(Seq<char>, bool)> {
    v.map_values(|p: PatternSpec| p@)
}

impl CompatFlags {
    pub open spec fn with_unsupported(self, arg: Seq<char>) -> CompatFlags {
        CompatFlags { unsupported_args: self.unsupported_args.push(arg), ..self }
    }

    pub open spec fn with_positional(self, arg: Seq<char>) -> CompatFlags {
        CompatFlags { positionals: self.positionals.push(arg), ..self }
    }

    /// One more use of `-v`, of which 255 are told apart.
    pub open spec fn with_verbosity(self) -> CompatFlags {
        CompatFlags {
            verbosity: if self.verbosity < 255 {
                self.verbosity + 1
            } else {
                255
            },
            ..self
        }
    }

    /// The effect of a filter rule: `+` and `-` rules choose and leave out;
    /// any other rule is noted as unsupported, once.
    pub open spec fn with_rule(self, rule: Seq<char>) -> CompatFlags {
        let t = stripped(rule);
        if t.len() == 0 {
            self
        } else if t[0] == '+' && pattern_of(t.skip(1)) is Some {
            CompatFlags {
                include_patterns: self.include_patterns.push(pattern_of(t.skip(1))->0),
                ..self
            }
        } else if t[0] == '-' && pattern_of(t.skip(1)) is Some {
            CompatFlags {
                filter_exclude_patterns: self.filter_exclude_patterns.push(
                    pattern_of(t.skip(1))->0,
                ),
                ..self
            }
        } else {
            let arg = "--filter="@ + t;
            if self.unsupported_rules.contains(arg) {
                self
            } else {
                CompatFlags {
                    unsupported_args: self.unsupported_args.push(arg),
                    unsupported_rules: self.unsupported_rules.push(arg),
                    ..self
                }
            }
        }
    }

    /// The effect of the rules of a file.
    pub open spec fn with_rules(self, rules: Seq<Seq<char>>) -> CompatFlags
        decreases rules.len(),
    {
        if rules.len() == 0 {
            self
        } else {
            self.with_rules(rules.drop_last()).with_rule(rules.last())
        }
    }
}

/// Whether a line of a file says something: it is not empty and no comment.
pub open spec fn says_something(line: Seq<char>) -> bool {
    line.len() > 0 && line[0] != '#'
}

/// The entries of a file: its lines without the white space around them,
/// without empty lines and comments.
pub open spec fn entries_of(text: Seq<char>) -> Seq<Seq<char>> {
    lines_of(text).map_values(|l: Seq<char>| stripped(l)).filter(
        |l: Seq<char>| says_something(l),
    )
}

/// The patterns among the entries.
pub open spec fn patterns_of(entries: Seq<Seq<char>>) -> Seq<(Seq<char>, bool)>
    decreases entries.len(),
{
    if entries.len() == 0 {
        Seq::empty()
    } else {
        match pattern_of(entries.last()) {
            Some(p) => patterns_of(entries.drop_last()).push(p),
            None => patterns_of(entries.drop_last()),
        }
    }
}

/// The effect of an option that takes no value.
pub open spec fn switch_effect(f: CompatFlags, option: LongOption, name: Seq<char>) -> CompatFlags {
    match option {
        LongOption::DryRun => CompatFlags { dry_run: true, ..f },
        LongOption::KeepExisting => CompatFlags { overwrite: false, ..f },
        LongOption::Overwrite => CompatFlags { overwrite: true, ..f },
        LongOption::Hash => CompatFlags { hash: true, ..f },
        LongOption::Stats => CompatFlags { stats: true, ..f },
        LongOption::HumanReadable => CompatFlags { human_readable: true, ..f },
        LongOption::Verbose => f.with_verbosity(),
        LongOption::Backup => CompatFlags { backup_requested: true, ..f },
        LongOption::StopOnError => CompatFlags { stop_on_error: true, ..f },
        LongOption::SizeOnly => CompatFlags { size_only: true, ..f },
        LongOption::Inplace => CompatFlags { inplace: true, ..f },
        LongOption::Link => CompatFlags {
            accepted_link_flags: f.accepted_link_flags.push("--"@ + name),
            ..f
        },
        LongOption::DeleteBefore => CompatFlags { delete_mode: Some(DeleteMode::Before), ..f },
        LongOption::DeleteAfter => CompatFlags { delete_mode: Some(DeleteMode::After), ..f },
        LongOption::DeleteExcluded => CompatFlags { delete_excluded: true, ..f },
        _ => f,
    }
}

/// The effect of an option with its value.
pub open spec fn value_effect(
    f: CompatFlags,
    option: LongOption,
    name: Seq<char>,
    value: Seq<char>,
    attached: bool,
    files: Map<Seq<char>, String>,
) -> Result<CompatFlags, CompatFault> {
    match option {
        LongOption::Log => Ok(CompatFlags { log: Some(value), ..f }),
        LongOption::Policy => Ok(CompatFlags { policy: Some(value), ..f }),
        LongOption::BackupDir => Ok(CompatFlags { backup_dir: Some(value), ..f }),
        LongOption::Exclude => Ok(
            CompatFlags { exclude_prefixes: f.exclude_prefixes.push(value), ..f },
        ),
        LongOption::ExcludeIfPresent => Ok(
            CompatFlags { exclude_if_present: f.exclude_if_present.push(policy_path(value)), ..f },
        ),
        LongOption::ProgressEvery => match bounded_number(value, usize::MAX as nat) {
            Some(n) => Ok(
                CompatFlags {
                    progress_every: if n < 1 {
                        1
                    } else {
                        n
                    },
                    ..f
                },
            ),
            None => Err(CompatFault::InvalidProgress { value, attached }),
        },
        LongOption::MaxAge => match age_of(value) {
            Ok(n) => Ok(CompatFlags { max_age_ns: Some(n), ..f }),
            Err(error) => Err(CompatFault::InvalidAge { value, error }),
        },
        LongOption::Filter => Ok(f.with_rule(value)),
        LongOption::Include => Ok(
            match pattern_of(value) {
                Some(p) => CompatFlags { include_patterns: f.include_patterns.push(p), ..f },
                None => f,
            },
        ),
        LongOption::RemoteShell => Ok(f.with_unsupported("--"@ + name + "="@ + value)),
        LongOption::ExcludeFrom | LongOption::FilesFrom | LongOption::IncludeFrom
        | LongOption::FilterFrom => if files.contains_key(value) {
            Ok(file_effect(f, option, entries_of(files[value]@)))
        } else {
            Err(CompatFault::FileNeeded { option: "--"@ + name, path: value })
        },
        _ => Ok(f),
    }
}

/// The effect of an option that names a file, with the entries of the file.
pub open spec fn file_effect(
    f: CompatFlags,
    option: LongOption,
    entries: Seq<Seq<char>>,
) -> CompatFlags {
    match option {
        LongOption::ExcludeFrom => CompatFlags {
            exclude_prefixes: f.exclude_prefixes + entries,
            ..f
        },
        LongOption::FilesFrom => CompatFlags {
            files_from_patterns: f.files_from_patterns + patterns_of(entries),
            ..f
        },
        LongOption::IncludeFrom => CompatFlags {
            include_patterns: f.include_patterns + patterns_of(entries),
            ..f
        },
        _ => f.with_rules(entries),
    }
}

/// The state behind an argument, and the index of the argument to go on with.
pub type Step = Result<(CompatFlags, int), CompatFault>;

/// The effect of a long option at index `i`: with the value behind its equals
/// sign where it has one, else with the next argument where it takes a value.
pub open spec fn long_step(
    f: CompatFlags,
    name: Seq<char>,
    attached: Option<Seq<char>>,
    args: Seq<Seq<char>>,
    i: int,
    files: Map<Seq<char>, String>,
) -> Step {
    let option = long_option(name);
    match attached {
        Some(value) => if option == LongOption::Unknown || option.only_bare() {
            Ok((f.with_unsupported("--"@ + name + "="@ + value), i + 1))
        } else if option.takes_value() {
            match value_effect(f, option, name, value, true, files) {
                Ok(g) => Ok((g, i + 1)),
                Err(e) => Err(e),
            }
        } else {
            Ok((switch_effect(f, option, name), i + 1))
        },
        None => if option == LongOption::Unknown {
            Ok((f.with_unsupported("--"@ + name), i + 1))
        } else if option.takes_value() {
            if i + 1 < args.len() {
                match value_effect(f, option, name, args[i + 1], false, files) {
                    Ok(g) => Ok((g, i + 2)),
                    Err(e) => Err(e),
                }
            } else {
                Err(CompatFault::MissingValue { option: "--"@ + name })
            }
        } else {
            Ok((switch_effect(f, option, name), i + 1))
        },
    }
}

/// Whether a letter is accepted and changes nothing.
pub open spec fn letter_without_effect(c: char) -> bool {
    "arltpHLzRxqISkmDogP"@.contains(c)
}

/// The state with each of the bytes noted as an unsupported letter.
pub open spec fn with_letters(f: CompatFlags, bytes: Seq<u8>) -> CompatFlags
    decreases bytes.len(),
{
    if bytes.len() == 0 {
        f
    } else {
        with_letters(f, bytes.drop_last()).with_unsupported(seq!['-', bytes.last() as char])
    }
}

/// The effect of a letter that takes no value. A character outside ASCII counts
/// as one unsupported letter for each byte of its encoding.
pub open spec fn letter_effect(f: CompatFlags, c: char) -> CompatFlags {
    if c == 'n' {
        CompatFlags { dry_run: true, ..f }
    } else if c == 'u' {
        CompatFlags { overwrite: false, ..f }
    } else if c == 'c' {
        CompatFlags { hash: true, ..f }
    } else if c == 'v' {
        f.with_verbosity()
    } else if c == 'h' {
        CompatFlags { human_readable: true, ..f }
    } else if letter_without_effect(c) {
        f
    } else {
        with_letters(f, encode_utf8(seq![c]))
    }
}

/// The effect of `-e` and `-f` with their value.
pub open spec fn letter_value_effect(f: CompatFlags, c: char, value: Seq<char>) -> CompatFlags {
    if c == 'e' {
        f.with_unsupported("--rsh="@ + value)
    } else {
        f.with_rule(value)
    }
}

/// The effect of the letters of an argument, from index `k` on: `-e` and `-f`
/// take the rest of the argument as their value, or the next argument.
pub open spec fn letters_step(
    f: CompatFlags,
    letters: Seq<char>,
    k: int,
    args: Seq<Seq<char>>,
    i: int,
) -> Step
    decreases letters.len() - k,
{
    if k < 0 || k >= letters.len() {
        Ok((f, i + 1))
    } else {
        let c = letters[k];
        if c == 'e' || c == 'f' {
            if k + 1 < letters.len() {
                Ok((letter_value_effect(f, c, letters.skip(k + 1)), i + 1))
            } else if i + 1 < args.len() {
                Ok((letter_value_effect(f, c, args[i + 1]), i + 2))
            } else {
                Err(CompatFault::MissingValue { option: seq!['-', c] })
            }
        } else {
            letters_step(letter_effect(f, c), letters, k + 1, args, i)
        }
    }
}

/// The index of the first equals sign.
pub open spec fn equals_sign(arg: Seq<char>) -> int {
    choose|k: int| first_char_at(arg, '=', k)
}

/// The effect of the argument at index `i`.
pub open spec fn arg_step(
    f: CompatFlags,
    args: Seq<Seq<char>>,
    i: int,
    files: Map<Seq<char>, String>,
) -> Step {
    let arg = args[i];
    if arg == "--"@ {
        Ok((CompatFlags { positionals: f.positionals + args.skip(i + 1), ..f }, args.len() as int))
    } else if arg.contains('=') {
        let k = equals_sign(arg);
        if starts_with(arg.take(k), "--"@) {
            long_step(
                f,
                replaced(arg.take(k).skip(2), '_', '-'),
                Some(arg.skip(k + 1)),
                args,
                i,
                files,
            )
        } else {
            Ok((f.with_positional(arg), i + 1))
        }
    } else if starts_with(arg, "--"@) {
        long_step(f, replaced(arg.skip(2), '_', '-'), None, args, i, files)
    } else if arg.len() > 0 && arg[0] == '-' {
        letters_step(f, arg.skip(1), 0, args, i)
    } else {
        Ok((f.with_positional(arg), i + 1))
    }
}

/// The state behind all arguments from index `i` on.
pub open spec fn read_args(
    f: CompatFlags,
    args: Seq<Seq<char>>,
    i: int,
    files: Map<Seq<char>, String>,
) -> Result<CompatFlags, CompatFault>
    decreases args.len() - i,
{
    if i < 0 || i >= args.len() {
        Ok(f)
    } else {
        match arg_step(f, args, i, files) {
            Ok((g, next)) => if i < next <= args.len() {
                read_args(g, args, next, files)
            } else {
                Ok(g)
            },
            Err(e) => Err(e),
        }
    }
}

// ---------------------------------------------------------------------------
// Reading
// ---------------------------------------------------------------------------

/// The arguments read so far.
struct Reader {
    run: CompatRuntime,
    rules: Vec<String>,
    positionals: Vec<String>,
}

spec fn opt_int(n: Option<i64>) -> Option<int> {
    match n {
        Some(v) => Some(v as int),
        None => None,
    }
}

fn push_text(v: &mut Vec<String>, s: String)
    ensures
        texts(final(v)@) == texts(old(v)@).push(s@),
{
    let ghost before = texts(v@);
    let ghost t = s@;
    v.push(s);
    assert(texts(v@) =~= before.push(t));
}

fn push_pattern(v: &mut Vec<PatternSpec>, p: PatternSpec)
    ensures
        patterns(final(v)@) == patterns(old(v)@).push(p@),
{
    let ghost before = patterns(v@);
    let ghost t = p@;
    v.push(p);
    assert(patterns(v@) =~= before.push(t));
}

/// `--name`
fn option_text(name: &str) -> (r: String)
    ensures
        r@ == "--"@ + name@,
{
    let mut r = "--".to_owned();
    r.append(name);
    r
}

/// `--name=value`
fn assignment_text(name: &str, value: &str) -> (r: String)
    ensures
        r@ == "--"@ + name@ + "="@ + value@,
{
    let mut r = "--".to_owned();
    r.append(name);
    r.append("=");
    r.append(value);
    r
}

/// The entries of a file.
fn file_entries(text: &str) -> (r: Vec<Vec<char>>)
    ensures
        char_texts(r@) == entries_of(text@),
{
    let chars = to_chars(text);
    let all = lines(&chars);
    let ghost stripped_all = char_texts(all@).map_values(|l: Seq<char>| stripped(l));
    let ghost keep = |l: Seq<char>| says_something(l);
    let mut r: Vec<Vec<char>> = Vec::new();
    let mut i: usize = 0;
    proof {
        lemma_filter_start(stripped_all, keep);
        assert(char_texts(r@) =~= Seq::empty());
    }
    while i < all.len()
        invariant
            i <= all@.len(),
            keep == (|l: Seq<char>| says_something(l)),
            stripped_all == char_texts(all@).map_values(|l: Seq<char>| stripped(l)),
            char_texts(r@) == stripped_all.take(i as int).filter(keep),
        decreases all@.len() - i,
    {
        let line = strip(&all[i]);
        proof {
            assert(stripped_all[i as int] == line@);
            lemma_filter_step(stripped_all, keep, i as int);
        }
        if line.len() > 0 && line[0] != '#' {
            let ghost before = char_texts(r@);
            let ghost l = line@;
            r.push(line);
            assert(char_texts(r@) =~= before.push(l));
        }
        i = i + 1;
    }
    assert(stripped_all.take(i as int) =~= stripped_all);
    r
}

fn push_patterns(v: &mut Vec<PatternSpec>, entries: &Vec<Vec<char>>)
    ensures
        patterns(final(v)@) == patterns(old(v)@) + patterns_of(char_texts(entries@)),
{
    let ghost start = patterns(v@);
    let ghost all = char_texts(entries@);
    let mut i: usize = 0;
    assert(start + patterns_of(all.take(0)) =~= start);
    while i < entries.len()
        invariant
            i <= entries@.len(),
            all == char_texts(entries@),
            patterns(v@) == start + patterns_of(all.take(i as int)),
        decreases entries@.len() - i,
    {
        let entry = from_chars(&entries[i]);
        proof {
            assert(all.take(i as int + 1).drop_last() =~= all.take(i as int));
            assert(all.take(i as int + 1).last() == entry@);
        }
        match PatternSpec::parse(entry.as_str()) {
            Some(p) => {
                let ghost so_far = patterns_of(all.take(i as int));
                let ghost view = p@;
                push_pattern(v, p);
                assert(patterns(v@) =~= start + so_far.push(view));
            },
            None => {},
        }
        i = i + 1;
    }
    assert(all.take(i as int) =~= all);
}

impl Reader {
    #[verifier::opaque]
    spec fn flags(&self) -> CompatFlags {
        CompatFlags {
            overwrite: self.run.overwrite,
            dry_run: self.run.dry_run,
            stop_on_error: self.run.stop_on_error,
            policy: opt_text(self.run.policy),
            hash: self.run.hash,
            log: opt_text(self.run.log),
            progress_every: self.run.progress_every as nat,
            size_only: self.run.size_only,
            delete_mode: self.run.delete_mode,
            delete_excluded: self.run.delete_excluded,
            inplace: self.run.inplace,
            stats: self.run.stats,
            human_readable: self.run.human_readable,
            verbosity: self.run.verbosity as nat,
            backup_requested: self.run.backup_requested,
            backup_dir: opt_text(self.run.backup_dir),
            exclude_prefixes: texts(self.run.exclude_prefixes@),
            exclude_if_present: texts(self.run.exclude_if_present@),
            include_patterns: patterns(self.run.include_patterns@),
            files_from_patterns: patterns(self.run.files_from_patterns@),
            filter_exclude_patterns: patterns(self.run.filter_exclude_patterns@),
            max_age_ns: opt_int(self.run.max_age_ns),
            accepted_link_flags: texts(self.run.accepted_link_flags@),
            unsupported_args: texts(self.run.unsupported_args@),
            unsupported_rules: texts(self.rules@),
            positionals: texts(self.positionals@),
        }
    }

    fn new() -> (r: Self)
        ensures
            r.flags() == initial_flags(),
    {
        let r = Reader {
            run: CompatRuntime {
                source: String::new(),
                destination: String::new(),
                source_trailing_slash: false,
                destination_trailing_slash: false,
                overwrite: false,
                dry_run: false,
                stop_on_error: false,
                policy: None,
                hash: false,
                log: None,
                progress_every: 1000,
                size_only: false,
                delete_mode: None,
                delete_excluded: false,
                inplace: false,
                stats: false,
                human_readable: false,
                verbosity: 0,
                backup_requested: false,
                backup_dir: None,
                exclude_prefixes: Vec::new(),
                exclude_if_present: Vec::new(),
                include_patterns: Vec::new(),
                files_from_patterns: Vec::new(),
                filter_exclude_patterns: Vec::new(),
                max_age_ns: None,
                accepted_link_flags: Vec::new(),
                unsupported_args: Vec::new(),
            },
            rules: Vec::new(),
            positionals: Vec::new(),
        };
        proof {
            reveal(Reader::flags);
            let f = r.flags();
            assert(f.exclude_prefixes =~= Seq::empty());
            assert(f.exclude_if_present =~= Seq::empty());
            assert(f.include_patterns =~= Seq::empty());
            assert(f.files_from_patterns =~= Seq::empty());
            assert(f.filter_exclude_patterns =~= Seq::empty());
            assert(f.accepted_link_flags =~= Seq::empty());
            assert(f.unsupported_args =~= Seq::empty());
            assert(f.unsupported_rules =~= Seq::empty());
            assert(f.positionals =~= Seq::empty());
        }
        r
    }

    fn note_unsupported(&mut self, arg: String)
        ensures
            final(self).flags() == old(self).flags().with_unsupported(arg@),
    {
        reveal(Reader::flags);
        push_text(&mut self.run.unsupported_args, arg);
    }

    fn set_log(&mut self, value: &str)
        ensures
            final(self).flags() == (CompatFlags { log: Some(value@), ..old(self).flags() }),
    {
        reveal(Reader::flags);
        self.run.log = Some(value.to_owned());
    }

    fn set_policy(&mut self, value: &str)
        ensures
            final(self).flags() == (CompatFlags { policy: Some(value@), ..old(self).flags() }),
    {
        reveal(Reader::flags);
        self.run.policy = Some(value.to_owned());
    }

    fn set_backup_dir(&mut self, value: &str)
        ensures
            final(self).flags() == (CompatFlags { backup_dir: Some(value@), ..old(self).flags() }),
    {
        reveal(Reader::flags);
        self.run.backup_dir = Some(value.to_owned());
    }

    fn set_progress(&mut self, n: usize)
        ensures
            final(self).flags() == (CompatFlags { progress_every: n as nat, ..old(self).flags() }),
    {
        reveal(Reader::flags);
        self.run.progress_every = n;
    }

    fn set_max_age(&mut self, n: i64)
        ensures
            final(self).flags() == (CompatFlags {
                max_age_ns: Some(n as int),
                ..old(self).flags()
            }),
    {
        reveal(Reader::flags);
        self.run.max_age_ns = Some(n);
    }

    fn note_prefix(&mut self, value: &str)
        ensures
            final(self).flags() == (CompatFlags {
                exclude_prefixes: old(self).flags().exclude_prefixes.push(value@),
                ..old(self).flags()
            }),
    {
        reveal(Reader::flags);
        push_text(&mut self.run.exclude_prefixes, value.to_owned());
    }

    fn note_marker(&mut self, value: &str)
        ensures
            final(self).flags() == (CompatFlags {
                exclude_if_present: old(self).flags().exclude_if_present.push(policy_path(value@)),
                ..old(self).flags()
            }),
    {
        reveal(Reader::flags);
        let marker = normalize_policy_path(value);
        push_text(&mut self.run.exclude_if_present, marker);
    }

    fn more_verbose(&mut self)
        ensures
            final(self).flags() == old(self).flags().with_verbosity(),
    {
        reveal(Reader::flags);
        if self.run.verbosity < 255 {
            self.run.verbosity = self.run.verbosity + 1;
        }
    }

    fn rule(&mut self, rule: &str)
        ensures
            final(self).flags() == old(self).flags().with_rule(rule@),
    {
        reveal(Reader::flags);
        let chars = to_chars(rule);
        let t = strip(&chars);
        if t.len() == 0 {
            return;
        }
        let rest = slice(&t, 1, t.len());
        assert(rest@ =~= t@.skip(1));
        let rest = from_chars(&rest);
        if t[0] == '+' {
            match PatternSpec::parse(rest.as_str()) {
                Some(p) => {
                    push_pattern(&mut self.run.include_patterns, p);
                    return;
                },
                None => {},
            }
        } else if t[0] == '-' {
            match PatternSpec::parse(rest.as_str()) {
                Some(p) => {
                    push_pattern(&mut self.run.filter_exclude_patterns, p);
                    return;
                },
                None => {},
            }
        }
        let text = from_chars(&t);
        let mut arg = "--filter=".to_owned();
        arg.append(text.as_str());
        if !any_same(&self.rules, arg.as_str()) {
            push_text(&mut self.rules, arg.clone());
            push_text(&mut self.run.unsupported_args, arg);
        }
    }

    fn rules(&mut self, entries: &Vec<Vec<char>>)
        ensures
            final(self).flags() == old(self).flags().with_rules(char_texts(entries@)),
    {
        let ghost start = self.flags();
        let ghost all = char_texts(entries@);
        let mut i: usize = 0;
        while i < entries.len()
            invariant
                i <= entries@.len(),
                all == char_texts(entries@),
                self.flags() == start.with_rules(all.take(i as int)),
            decreases entries@.len() - i,
        {
            let entry = from_chars(&entries[i]);
            proof {
                assert(all.take(i as int + 1).drop_last() =~= all.take(i as int));
                assert(all.take(i as int + 1).last() == entry@);
            }
            self.rule(entry.as_str());
            i = i + 1;
        }
        assert(all.take(i as int) =~= all);
    }

    fn switch(&mut self, option: LongOption, name: &str)
        ensures
            final(self).flags() == switch_effect(old(self).flags(), option, name@),
    {
        reveal(Reader::flags);
        match option {
            LongOption::DryRun => {
                self.run.dry_run = true;
            },
            LongOption::KeepExisting => {
                self.run.overwrite = false;
            },
            LongOption::Overwrite => {
                self.run.overwrite = true;
            },
            LongOption::Hash => {
                self.run.hash = true;
            },
            LongOption::Stats => {
                self.run.stats = true;
            },
            LongOption::HumanReadable => {
                self.run.human_readable = true;
            },
            LongOption::Verbose => {
                self.more_verbose();
            },
            LongOption::Backup => {
                self.run.backup_requested = true;
            },
            LongOption::StopOnError => {
                self.run.stop_on_error = true;
            },
            LongOption::SizeOnly => {
                self.run.size_only = true;
            },
            LongOption::Inplace => {
                self.run.inplace = true;
            },
            LongOption::Link => {
                let flag = option_text(name);
                push_text(&mut self.run.accepted_link_flags, flag);
            },
            LongOption::DeleteBefore => {
                self.run.delete_mode = Some(DeleteMode::Before);
            },
            LongOption::DeleteAfter => {
                self.run.delete_mode = Some(DeleteMode::After);
            },
            LongOption::DeleteExcluded => {
                self.run.delete_excluded = true;
            },
            _ => {},
        }
    }

    fn value(
        &mut self,
        option: LongOption,
        name: &str,
        value: &str,
        attached: bool,
        files: &TextMap<String>,
    ) -> (r: Result<(), CompatError>)
        requires
            files.wf(),
        ensures
            match value_effect(old(self).flags(), option, name@, value@, attached, files@) {
                Ok(f) => r is Ok && final(self).flags() == f,
                Err(e) => r is Err && r->Err_0@ == e,
            },
    {
        match option {
            LongOption::Log => {
                self.set_log(value);
            },
            LongOption::Policy => {
                self.set_policy(value);
            },
            LongOption::BackupDir => {
                self.set_backup_dir(value);
            },
            LongOption::Exclude => {
                self.note_prefix(value);
            },
            LongOption::ExcludeIfPresent => {
                self.note_marker(value);
            },
            LongOption::ProgressEvery => {
                let chars = to_chars(value);
                match parse_number(&chars, usize::MAX as u128) {
                    Some(n) => {
                        let every: usize = if n < 1 {
                            1
                        } else {
                            n as usize
                        };
                        self.set_progress(every);
                    },
                    None => {
                        return Err(
                            CompatError::InvalidProgress { value: value.to_owned(), attached },
                        );
                    },
                }
            },
            LongOption::MaxAge => {
                match parse_age_value(value) {
                    Ok(n) => {
                        self.set_max_age(n);
                    },
                    Err(error) => {
                        return Err(CompatError::InvalidAge { value: value.to_owned(), error });
                    },
                }
            },
            LongOption::Filter => {
                self.rule(value);
            },
            LongOption::Include => {
                self.note_pattern(value);
            },
            LongOption::RemoteShell => {
                let arg = assignment_text(name, value);
                self.note_unsupported(arg);
            },
            LongOption::ExcludeFrom
            | LongOption::FilesFrom
            | LongOption::IncludeFrom
            | LongOption::FilterFrom => {
                let entries = match files.get(value) {
                    Some(text) => file_entries(text.as_str()),
                    None => {
                        return Err(
                            CompatError::FileNeeded {
                                option: option_text(name),
                                path: value.to_owned(),
                            },
                        );
                    },
                };
                self.entries(option, &entries);
            },
            _ => {},
        }
        Ok(())
    }

    fn entries(&mut self, option: LongOption, entries: &Vec<Vec<char>>)
        ensures
            final(self).flags() == file_effect(
                old(self).flags(),
                option,
                char_texts(entries@),
            ),
    {
        reveal(Reader::flags);
        match option {
            LongOption::ExcludeFrom => {
                self.exclude_entries(entries);
            },
            LongOption::FilesFrom => {
                push_patterns(&mut self.run.files_from_patterns, entries);
            },
            LongOption::IncludeFrom => {
                push_patterns(&mut self.run.include_patterns, entries);
            },
            _ => {
                self.rules(entries);
            },
        }
    }

    fn note_pattern(&mut self, value: &str)
        ensures
            final(self).flags() == (match pattern_of(value@) {
                Some(p) => CompatFlags {
                    include_patterns: old(self).flags().include_patterns.push(p),
                    ..old(self).flags()
                },
                None => old(self).flags(),
            }),
    {
        reveal(Reader::flags);
        match PatternSpec::parse(value) {
            Some(p) => {
                push_pattern(&mut self.run.include_patterns, p);
            },
            None => {},
        }
    }

    fn exclude_entries(&mut self, entries: &Vec<Vec<char>>)
        ensures
            final(self).flags() == (CompatFlags {
                exclude_prefixes: old(self).flags().exclude_prefixes + char_texts(entries@),
                ..old(self).flags()
            }),
    {
        reveal(Reader::flags);
        let ghost start = self.flags();
        let ghost all = char_texts(entries@);
        let mut i: usize = 0;
        assert(start.exclude_prefixes + all.take(0) =~= start.exclude_prefixes);
        while i < entries.len()
            invariant
                i <= entries@.len(),
                all == char_texts(entries@),
                self.flags() == (CompatFlags {
                    exclude_prefixes: start.exclude_prefixes + all.take(i as int),
                    ..start
                }),
            decreases entries@.len() - i,
        {
            let entry = from_chars(&entries[i]);
            let ghost e = entry@;
            reveal(Reader::flags);
            push_text(&mut self.run.exclude_prefixes, entry);
            proof {
                assert(all.take(i as int + 1) =~= all.take(i as int).push(e));
                assert(start.exclude_prefixes + all.take(i as int + 1) =~= (start.exclude_prefixes
                    + all.take(i as int)).push(e));
            }
            i = i + 1;
        }
        assert(all.take(i as int) =~= all);
    }
}

impl Reader {
    fn note_positional(&mut self, arg: &str)
        ensures
            final(self).flags() == old(self).flags().with_positional(arg@),
    {
        reveal(Reader::flags);
        push_text(&mut self.positionals, arg.to_owned());
    }

    fn note_rest(&mut self, args: &Vec<String>, from: usize)
        requires
            from <= args@.len(),
        ensures
            final(self).flags() == (CompatFlags {
                positionals: old(self).flags().positionals + texts(args@).skip(from as int),
                ..old(self).flags()
            }),
    {
        let ghost start = self.flags();
        let ghost all = texts(args@);
        let mut i: usize = from;
        assert(start.positionals + all.subrange(from as int, from as int) =~= start.positionals);
        while i < args.len()
            invariant
                from <= i <= args@.len(),
                all == texts(args@),
                self.flags() == (CompatFlags {
                    positionals: start.positionals + all.subrange(from as int, i as int),
                    ..start
                }),
            decreases args@.len() - i,
        {
            self.note_positional(args[i].as_str());
            proof {
                assert(all[i as int] == args@[i as int]@);
                assert(start.positionals + all.subrange(from as int, i + 1) =~= (start.positionals
                    + all.subrange(from as int, i as int)).push(all[i as int]));
            }
            i = i + 1;
        }
        assert(all.subrange(from as int, all.len() as int) =~= all.skip(from as int));
    }

    /// Reads a long option at index `i`; gives the index to go on with.
    fn long(
        &mut self,
        name: &str,
        attached: Option<&str>,
        args: &Vec<String>,
        i: usize,
        files: &TextMap<String>,
    ) -> (r: Result<usize, CompatError>)
        requires
            files.wf(),
            i < args.len(),
        ensures
            match long_step(
                old(self).flags(),
                name@,
                opt_str(attached),
                texts(args@),
                i as int,
                files@,
            ) {
                Ok((f, next)) => r is Ok && r->Ok_0 == next && final(self).flags() == f && i < next
                    <= args@.len(),
                Err(e) => r is Err && r->Err_0@ == e,
            },
    {
        let option = classify(name);
        match attached {
            Some(value) => {
                if option == LongOption::Unknown || option.is_only_bare() {
                    let arg = assignment_text(name, value);
                    self.note_unsupported(arg);
                } else if option.has_value() {
                    match self.value(option, name, value, true, files) {
                        Ok(()) => {},
                        Err(e) => {
                            return Err(e);
                        },
                    }
                } else {
                    self.switch(option, name);
                }
                Ok(i + 1)
            },
            None => {
                if option == LongOption::Unknown {
                    let arg = option_text(name);
                    self.note_unsupported(arg);
                    Ok(i + 1)
                } else if option.has_value() {
                    if i + 1 < args.len() {
                        assert(texts(args@)[i + 1] == args@[i + 1]@);
                        match self.value(option, name, args[i + 1].as_str(), false, files) {
                            Ok(()) => Ok(i + 2),
                            Err(e) => Err(e),
                        }
                    } else {
                        Err(CompatError::MissingValue { option: option_text(name) })
                    }
                } else {
                    self.switch(option, name);
                    Ok(i + 1)
                }
            },
        }
    }

    fn unknown_letter(&mut self, c: char)
        ensures
            final(self).flags() == with_letters(old(self).flags(), encode_utf8(seq![c])),
    {
        let ghost start = self.flags();
        let mut one = String::new();
        one.push(c);
        assert(one@ =~= seq![c]);
        let bytes = one.as_str().as_bytes();
        let mut k: usize = 0;
        while k < bytes.len()
            invariant
                k <= bytes@.len(),
                self.flags() == with_letters(start, bytes@.take(k as int)),
            decreases bytes@.len() - k,
        {
            let mut arg = String::new();
            arg.push('-');
            arg.push(bytes[k] as char);
            proof {
                assert(bytes@.take(k as int + 1).drop_last() =~= bytes@.take(k as int));
                assert(arg@ =~= seq!['-', bytes@[k as int] as char]);
            }
            self.note_unsupported(arg);
            k = k + 1;
        }
        assert(bytes@.take(k as int) =~= bytes@);
    }

    fn letter(&mut self, c: char)
        ensures
            final(self).flags() == letter_effect(old(self).flags(), c),
    {
        if c == 'n' {
            reveal(Reader::flags);
            self.run.dry_run = true;
        } else if c == 'u' {
            reveal(Reader::flags);
            self.run.overwrite = false;
        } else if c == 'c' {
            reveal(Reader::flags);
            self.run.hash = true;
        } else if c == 'v' {
            self.more_verbose();
        } else if c == 'h' {
            reveal(Reader::flags);
            self.run.human_readable = true;
        } else {
            let accepted = to_chars("arltpHLzRxqISkmDogP");
            match find_char(&accepted, c) {
                Some(k) => {
                    assert(accepted@[k as int] == c);
                    assert(accepted@.contains(c));
                },
                None => {
                    self.unknown_letter(c);
                },
            }
        }
    }

    fn letter_value(&mut self, c: char, value: &str)
        ensures
            final(self).flags() == letter_value_effect(old(self).flags(), c, value@),
    {
        if c == 'e' {
            let mut arg = "--rsh=".to_owned();
            arg.append(value);
            self.note_unsupported(arg);
        } else {
            self.rule(value);
        }
    }

    /// Reads the letters of the argument at index `i`; gives the index to go
    /// on with.
    fn letters(&mut self, letters: &Vec<char>, args: &Vec<String>, i: usize) -> (r: Result<
        usize,
        CompatError,
    >)
        requires
            i < args.len(),
        ensures
            match letters_step(old(self).flags(), letters@, 0, texts(args@), i as int) {
                Ok((f, next)) => r is Ok && r->Ok_0 == next && final(self).flags() == f && i < next
                    <= args@.len(),
                Err(e) => r is Err && r->Err_0@ == e,
            },
    {
        let ghost goal = letters_step(self.flags(), letters@, 0, texts(args@), i as int);
        let mut k: usize = 0;
        while k < letters.len()
            invariant
                k <= letters@.len(),
                i < args.len(),
                goal == letters_step(old(self).flags(), letters@, 0, texts(args@), i as int),
                goal == letters_step(self.flags(), letters@, k as int, texts(args@), i as int),
            decreases letters@.len() - k,
        {
            let c = letters[k];
            if c == 'e' || c == 'f' {
                if k + 1 < letters.len() {
                    let value = slice(letters, k + 1, letters.len());
                    assert(value@ =~= letters@.skip(k + 1));
                    let value = from_chars(&value);
                    self.letter_value(c, value.as_str());
                    return Ok(i + 1);
                }
                if i + 1 < args.len() {
                    assert(texts(args@)[i + 1] == args@[i + 1]@);
                    self.letter_value(c, args[i + 1].as_str());
                    return Ok(i + 2);
                }
                let mut option = String::new();
                option.push('-');
                option.push(c);
                assert(option@ =~= seq!['-', c]);
                return Err(CompatError::MissingValue { option });
            }
            self.letter(c);
            k = k + 1;
        }
        Ok(i + 1)
    }

    /// Reads the argument at index `i`; gives the index to go on with.
    fn arg(&mut self, args: &Vec<String>, i: usize, files: &TextMap<String>) -> (r: Result<
        usize,
        CompatError,
    >)
        requires
            files.wf(),
            i < args.len(),
        ensures
            match arg_step(old(self).flags(), texts(args@), i as int, files@) {
                Ok((f, next)) => r is Ok && r->Ok_0 == next && final(self).flags() == f && i < next
                    <= args@.len(),
                Err(e) => r is Err && r->Err_0@ == e,
            },
    {
        let arg = args[i].as_str();
        assert(texts(args@)[i as int] == arg@);
        assert(texts(args@).len() == args@.len());
        if same(arg, "--") {
            self.note_rest(args, i + 1);
            return Ok(args.len());
        }
        let chars = to_chars(arg);
        match find_char(&chars, '=') {
            Some(k) => {
                proof {
                    assert(arg@[k as int] == '=');
                    lemma_first_char_unique(arg@, '=', k as int, equals_sign(arg@));
                }
                let key = slice(&chars, 0, k);
                assert(key@ =~= arg@.take(k as int));
                if has_prefix(&key, "--") {
                    let ghost dashes = "--"@.len();
                    proof {
                        reveal_strlit("--");
                    }
                    let name = slice(&key, 2, key.len());
                    assert(name@ =~= key@.skip(2));
                    let name = replace_char(&name, '_', '-');
                    let name = from_chars(&name);
                    let value = slice(&chars, k + 1, chars.len());
                    assert(value@ =~= arg@.skip(k + 1));
                    let value = from_chars(&value);
                    self.long(name.as_str(), Some(value.as_str()), args, i, files)
                } else {
                    self.note_positional(arg);
                    Ok(i + 1)
                }
            },
            None => {
                if has_prefix(&chars, "--") {
                    proof {
                        reveal_strlit("--");
                    }
                    let name = slice(&chars, 2, chars.len());
                    assert(name@ =~= arg@.skip(2));
                    let name = replace_char(&name, '_', '-');
                    let name = from_chars(&name);
                    self.long(name.as_str(), None, args, i, files)
                } else if chars.len() > 0 && chars[0] == '-' {
                    let letters = slice(&chars, 1, chars.len());
                    assert(letters@ =~= arg@.skip(1));
                    self.letters(&letters, args, i)
                } else {
                    self.note_positional(arg);
                    Ok(i + 1)
                }
            },
        }
    }
}

pub proof fn lemma_first_char_unique(s: Seq<char>, c: char, i: int, j: int)
    requires
        first_char_at(s, c, i),
    ensures
        exists|k: int| first_char_at(s, c, k),
        first_char_at(s, c, j) ==> i == j,
{
    if first_char_at(s, c, j) {
        if i < j {
            assert(s[i] != c);
        } else if j < i {
            assert(s[j] != c);
        }
    }
}

/// The note for a path too many.
pub open spec fn extra_note(p: Seq<char>) -> Seq<char> {
    "extra positional: "@ + p
}

/// Whether a path is written with a slash at its end.
pub open spec fn ends_in_slash(p: Seq<char>) -> bool {
    p.len() > 0 && (p.last() == '/' || p.last() == '\\')
}

fn slash_at_end(p: &str) -> (r: bool)
    ensures
        r == ends_in_slash(p@),
{
    let chars = to_chars(p);
    let n: usize = chars.len();
    n > 0 && (chars[n - 1] == '/' || chars[n - 1] == '\\')
}

impl CompatRuntime {
    /// Whether this is what the arguments behind the given state ask for.
    pub open spec fn answers(&self, f: CompatFlags) -> bool {
        &&& f.positionals.len() >= 2
        &&& self.source@ == f.positionals[0]
        &&& self.destination@ == f.positionals[1]
        &&& self.source_trailing_slash == ends_in_slash(f.positionals[0])
        &&& self.destination_trailing_slash == ends_in_slash(f.positionals[1])
        &&& self.overwrite == f.overwrite
        &&& self.dry_run == f.dry_run
        &&& self.stop_on_error == f.stop_on_error
        &&& opt_text(self.policy) == f.policy
        &&& self.hash == f.hash
        &&& opt_text(self.log) == f.log
        &&& self.progress_every == (if f.progress_every < 1 {
            1
        } else {
            f.progress_every
        })
        &&& self.size_only == f.size_only
        &&& self.delete_mode == f.delete_mode
        &&& self.delete_excluded == f.delete_excluded
        &&& self.inplace == f.inplace
        &&& self.stats == f.stats
        &&& self.human_readable == f.human_readable
        &&& self.verbosity == f.verbosity
        &&& self.backup_requested == (f.backup_requested || f.backup_dir is Some)
        &&& opt_text(self.backup_dir) == f.backup_dir
        &&& texts(self.exclude_prefixes@) == f.exclude_prefixes
        &&& texts(self.exclude_if_present@) == f.exclude_if_present
        &&& patterns(self.include_patterns@) == f.include_patterns
        &&& patterns(self.files_from_patterns@) == f.files_from_patterns
        &&& patterns(self.filter_exclude_patterns@) == f.filter_exclude_patterns
        &&& match self.max_age_ns {
            Some(n) => f.max_age_ns == Some(n as int),
            None => f.max_age_ns is None,
        }
        &&& texts(self.accepted_link_flags@) == f.accepted_link_flags
        &&& texts(self.unsupported_args@) == f.unsupported_args + f.positionals.skip(2).map_values(
            |p: Seq<char>| extra_note(p),
        )
    }
}

/// Notes the paths behind the first two.
fn note_extras(notes: &mut Vec<String>, positionals: &Vec<String>)
    requires
        positionals@.len() >= 2,
    ensures
        texts(final(notes)@) == texts(old(notes)@) + texts(positionals@).skip(2).map_values(
            |p: Seq<char>| extra_note(p),
        ),
{
    let ghost start = texts(notes@);
    let ghost all = texts(positionals@).skip(2).map_values(|p: Seq<char>| extra_note(p));
    let mut k: usize = 2;
    assert(start + all.take(0) =~= start);
    while k < positionals.len()
        invariant
            2 <= k <= positionals@.len(),
            all == texts(positionals@).skip(2).map_values(|p: Seq<char>| extra_note(p)),
            texts(notes@) == start + all.take(k - 2),
        decreases positionals@.len() - k,
    {
        let mut note = "extra positional: ".to_owned();
        note.append(positionals[k].as_str());
        let ghost n = note@;
        push_text(notes, note);
        proof {
            assert(all[k - 2] == n);
            assert(start + all.take(k - 1) =~= (start + all.take(k - 2)).push(n));
        }
        k = k + 1;
    }
    assert(all.take(k - 2) =~= all);
}

/// What the arguments ask for, once all are read.
fn finish(reader: Reader) -> (r: Result<CompatRuntime, CompatError>)
    ensures
        reader.flags().positionals.len() < 2 ==> r is Err && r->Err_0@
            == CompatFault::MissingPaths,
        reader.flags().positionals.len() >= 2 ==> r is Ok && r->Ok_0.answers(reader.flags()),
{
    let ghost f = reader.flags();
    reveal(Reader::flags);
    assert(f.positionals.len() == reader.positionals@.len());
    if reader.positionals.len() < 2 {
        return Err(CompatError::MissingPaths);
    }
    assert(f.positionals[0] == reader.positionals@[0]@);
    assert(f.positionals[1] == reader.positionals@[1]@);
    let run = reader.run;
    let mut unsupported_args = run.unsupported_args;
    note_extras(&mut unsupported_args, &reader.positionals);
    let backup_requested = run.backup_requested || run.backup_dir.is_some();
    let progress_every: usize = if run.progress_every < 1 {
        1
    } else {
        run.progress_every
    };
    Ok(
        CompatRuntime {
            source: reader.positionals[0].clone(),
            destination: reader.positionals[1].clone(),
            source_trailing_slash: slash_at_end(reader.positionals[0].as_str()),
            destination_trailing_slash: slash_at_end(reader.positionals[1].as_str()),
            backup_requested,
            progress_every,
            unsupported_args,
            ..run
        },
    )
}

/// Reads the arguments of a copy tool. `files` holds the texts of the files
/// that the arguments name, by the names that the arguments use.
pub fn parse_compat_copy_flags(args: &CompatCopyArgs, files: &TextMap<String>) -> (r: Result<
    CompatRuntime,
    CompatError,
>)
    requires
        files.wf(),
    ensures
        match read_args(initial_flags(), texts(args.compat_args@), 0, files@) {
            Ok(f) => if f.positionals.len() < 2 {
                r is Err && r->Err_0@ == CompatFault::MissingPaths
            } else {
                r is Ok && r->Ok_0.answers(f)
            },
            Err(e) => r is Err && r->Err_0@ == e,
        },
        r is Ok ==> r->Ok_0.progress_every >= 1,
        r is Ok ==> (r->Ok_0.backup_dir is Some ==> r->Ok_0.backup_requested),
{
    let list = &args.compat_args;
    let mut reader = Reader::new();
    let mut i: usize = 0;
    let ghost goal = read_args(initial_flags(), texts(list@), 0, files@);
    assert(texts(list@).len() == list@.len());
    while i < list.len()
        invariant
            files.wf(),
            *list == args.compat_args,
            i <= list@.len(),
            texts(list@).len() == list@.len(),
            goal == read_args(initial_flags(), texts(args.compat_args@), 0, files@),
            goal == read_args(reader.flags(), texts(list@), i as int, files@),
        decreases list@.len() - i,
    {
        match reader.arg(list, i, files) {
            Ok(next) => {
                i = next;
            },
            Err(e) => {
                return Err(e);
            },
        }
    }
    finish(reader)
}

impl CompatFault {
    /// The message for arguments of a tool that cannot be read.
    pub open spec fn message(self, command: Seq<char>) -> Seq<char> {
        match self {
            CompatFault::MissingValue { option } => "missing value for "@ + option + " in "@
                + command + " compatibility parsing"@,
            CompatFault::InvalidAge { value, error } => "invalid --max-age='"@ + value + "' in "@
                + command + " compatibility parsing"@,
            CompatFault::InvalidProgress { value, attached } => if attached {
                "invalid --progress-every '"@ + value + "' in "@ + command
                    + " compatibility parsing"@
            } else {
                "invalid --progress-every '"@ + value + "'"@
            },
            CompatFault::FileNeeded { option, path } => "invalid "@ + option + " value '"@ + path
                + "'"@,
            CompatFault::MissingPaths => command + " requires <source> <destination>"@,
        }
    }
}

impl CompatError {
    /// The message for arguments of a tool that cannot be read.
    pub fn message(&self, command: &str) -> (r: String)
        ensures
            r@ == self@.message(command@),
    {
        match self {
            CompatError::MissingValue { option } => {
                let mut r = "missing value for ".to_owned();
                r.append(option.as_str());
                r.append(" in ");
                r.append(command);
                r.append(" compatibility parsing");
                r
            },
            CompatError::InvalidAge { value, error } => {
                let mut r = "invalid --max-age='".to_owned();
                r.append(value.as_str());
                r.append("' in ");
                r.append(command);
                r.append(" compatibility parsing");
                r
            },
            CompatError::InvalidProgress { value, attached } => {
                let mut r = "invalid --progress-every '".to_owned();
                r.append(value.as_str());
                if *attached {
                    r.append("' in ");
                    r.append(command);
                    r.append(" compatibility parsing");
                } else {
                    r.append("'");
                }
                r
            },
            CompatError::FileNeeded { option, path } => {
                let mut r = "invalid ".to_owned();
                r.append(option.as_str());
                r.append(" value '");
                r.append(path.as_str());
                r.append("'");
                r
            },
            CompatError::MissingPaths => {
                let mut r = command.to_owned();
                r.append(" requires <source> <destination>");
                r
            },
        }
    }
}

} // verus!
