//! What a copy in the manner of other tools does between reading its
//! arguments and copying.

use crate::compat::CompatRuntime;
use crate::copy_run::CopyRunArgs;
use crate::delete_run::{DeleteExecutionSummary, DeleteRunArgs};
use crate::filter::lemma_filter_all;
use crate::number::{decimal, decimal_chars, decimal_int, decimal_int_chars};
use crate::path::{join_path, path_join};
use crate::pattern::{any_matches, pattern_text, PatternSpec};
use crate::plan::{
    age_at, chosen, filter_plan_by_files_from, filter_plan_by_max_age, filter_plan_by_patterns,
    law_choices_commute, same_origin, total_size, CopyPlan, CopyPlanItem,
};
use crate::policy::{normal_excludes, normalize_excludes, ExcludePolicy};
use crate::progress::{format_bytes_human, short_bytes_text, CopyExecutionSummary};
use crate::text::{
    any_same, char_texts, copy_opt, extend, extend_str, from_chars, join, joined, opt_text, texts,
    to_chars,
};
use vstd::prelude::*;

verus! {

// ---------------------------------------------------------------------------
// Notes
// ---------------------------------------------------------------------------

/// What stands before every note.
pub open spec fn note_lead(command: Seq<char>) -> Seq<char> {
    "[nightindex "@ + command + "] "@
}

/// A note, where there is something to tell.
pub open spec fn note_when(tell: bool, command: Seq<char>, text: Seq<char>) -> Seq<Seq<char>> {
    if tell {
        seq![note_lead(command) + text]
    } else {
        Seq::empty()
    }
}

fn add_note(notes: &mut Vec<String>, tell: bool, command: &str, text: &Vec<char>)
    ensures
        texts(final(notes)@) == texts(old(notes)@) + note_when(tell, command@, text@),
{
    let ghost before = texts(notes@);
    if tell {
        let mut out = to_chars("[nightindex ");
        extend_str(&mut out, command);
        extend_str(&mut out, "] ");
        extend(&mut out, text);
        notes.push(from_chars(&out));
        assert(texts(notes@) =~= before + seq![out@]);
    } else {
        assert(before + Seq::<Seq<char>>::empty() =~= before);
    }
}

/// Texts with commas between them.
pub open spec fn comma_list(v: Seq<Seq<char>>) -> Seq<char> {
    joined(v, ", "@)
}

pub fn join_commas(v: &Vec<String>) -> (r: Vec<char>)
    ensures
        r@ == comma_list(texts(v@)),
{
    let mut parts: Vec<Vec<char>> = Vec::new();
    let mut i: usize = 0;
    while i < v.len()
        invariant
            i <= v@.len(),
            parts@.len() == i,
            forall|k: int| 0 <= k < i ==> (#[trigger] parts@[k])@ == v@[k]@,
        decreases v@.len() - i,
    {
        parts.push(to_chars(v[i].as_str()));
        i = i + 1;
    }
    assert(char_texts(parts@) =~= texts(v@));
    join(&parts, ", ")
}

/// Whether links are followed.
pub open spec fn follows_links(flags: Seq<Seq<char>>) -> bool {
    flags.contains("--copy-links"@) || flags.contains("--copy-unsafe-links"@)
}

fn dereferences_links(flags: &Vec<String>) -> (r: bool)
    ensures
        r == follows_links(texts(flags@)),
{
    any_same(flags, "--copy-links") || any_same(flags, "--copy-unsafe-links")
}

/// What is told of links.
pub open spec fn link_note(flags: Seq<Seq<char>>) -> Seq<char> {
    "compat symlink flags: "@ + comma_list(flags) + (if follows_links(flags) {
        " (dereference symlinks into regular files)"@
    } else {
        " (preserve symlinks)"@
    })
}

/// What is told of the output.
pub open spec fn output_notes(stats: bool, human_readable: bool, verbosity: u8) -> Seq<Seq<char>> {
    (if stats {
        seq!["stats"@]
    } else {
        Seq::<Seq<char>>::empty()
    }) + (if human_readable {
        seq!["human-readable"@]
    } else {
        Seq::<Seq<char>>::empty()
    }) + (if verbosity > 0 {
        seq!["verbose x"@ + decimal(verbosity as nat)]
    } else {
        Seq::<Seq<char>>::empty()
    })
}

/// Whether totals are told in a line of their own.
pub open spec fn tells_totals(runtime: &CompatRuntime) -> bool {
    runtime.stats || runtime.human_readable || runtime.verbosity > 0
}

/// What is told before the policy is read.
pub open spec fn opening_notes(runtime: &CompatRuntime, command: Seq<char>) -> Seq<Seq<char>> {
    note_when(
        runtime.accepted_link_flags@.len() > 0,
        command,
        link_note(texts(runtime.accepted_link_flags@)),
    ) + note_when(
        runtime.unsupported_args@.len() > 0,
        command,
        "ignored/unsupported flags: "@ + comma_list(texts(runtime.unsupported_args@)),
    ) + note_when(runtime.inplace, command, "compat flag --inplace accepted"@) + note_when(
        tells_totals(runtime),
        command,
        "compat output flags: "@ + comma_list(
            output_notes(runtime.stats, runtime.human_readable, runtime.verbosity),
        ),
    ) + note_when(
        runtime.source_trailing_slash || runtime.destination_trailing_slash,
        command,
        "positional roots are normalized; trailing slash is noted but does not change copy-root behavior"@,
    ) + note_when(
        runtime.exclude_if_present@.len() > 0,
        command,
        "exclude-if-present markers: "@ + comma_list(texts(runtime.exclude_if_present@)),
    )
}

/// A lead and texts with commas between them.
fn listing(lead: &str, v: &Vec<String>) -> (r: Vec<char>)
    ensures
        r@ == lead@ + comma_list(texts(v@)),
{
    let mut out = to_chars(lead);
    extend(&mut out, &join_commas(v));
    out
}

fn output_note(runtime: &CompatRuntime) -> (r: Vec<char>)
    ensures
        r@ == "compat output flags: "@ + comma_list(
            output_notes(runtime.stats, runtime.human_readable, runtime.verbosity),
        ),
{
    let mut notes: Vec<String> = Vec::new();
    if runtime.stats {
        notes.push(from_chars(&to_chars("stats")));
    }
    if runtime.human_readable {
        notes.push(from_chars(&to_chars("human-readable")));
    }
    if runtime.verbosity > 0 {
        let mut out = to_chars("verbose x");
        extend(&mut out, &decimal_chars(runtime.verbosity as u128));
        notes.push(from_chars(&out));
    }
    assert(texts(notes@) =~= output_notes(
        runtime.stats,
        runtime.human_readable,
        runtime.verbosity,
    ));
    listing("compat output flags: ", &notes)
}

/// What is told before the policy is read.
pub fn tell_opening(runtime: &CompatRuntime, command: &str) -> (r: Vec<String>)
    ensures
        texts(r@) == opening_notes(runtime, command@),
{
    let mut notes: Vec<String> = Vec::new();
    assert(texts(notes@) =~= Seq::empty());
    let mut text = listing("compat symlink flags: ", &runtime.accepted_link_flags);
    if dereferences_links(&runtime.accepted_link_flags) {
        extend_str(&mut text, " (dereference symlinks into regular files)");
    } else {
        extend_str(&mut text, " (preserve symlinks)");
    }
    add_note(&mut notes, runtime.accepted_link_flags.len() > 0, command, &text);
    let text = listing("ignored/unsupported flags: ", &runtime.unsupported_args);
    add_note(&mut notes, runtime.unsupported_args.len() > 0, command, &text);
    add_note(
        &mut notes,
        runtime.inplace,
        command,
        &to_chars("compat flag --inplace accepted"),
    );
    add_note(
        &mut notes,
        runtime.stats || runtime.human_readable || runtime.verbosity > 0,
        command,
        &output_note(runtime),
    );
    add_note(
        &mut notes,
        runtime.source_trailing_slash || runtime.destination_trailing_slash,
        command,
        &to_chars(
            "positional roots are normalized; trailing slash is noted but does not change copy-root behavior",
        ),
    );
    let text = listing("exclude-if-present markers: ", &runtime.exclude_if_present);
    add_note(&mut notes, runtime.exclude_if_present.len() > 0, command, &text);
    proof {
        let all = opening_notes(runtime, command@);
        assert(Seq::<Seq<char>>::empty() + all =~= all);
        assert(texts(notes@) =~= all);
    }
    notes
}

/// Patterns as they are written.
pub open spec fn pattern_texts(v: Seq<PatternSpec>) -> Seq<Seq<char>> {
    v.map_values(|p: PatternSpec| pattern_text(p.pattern@, p.dir_only))
}

fn show_patterns(v: &Vec<PatternSpec>) -> (r: Vec<String>)
    ensures
        texts(r@) == pattern_texts(v@),
{
    let mut r: Vec<String> = Vec::new();
    let mut i: usize = 0;
    while i < v.len()
        invariant
            i <= v@.len(),
            r@.len() == i,
            forall|k: int|
                0 <= k < i ==> (#[trigger] r@[k])@ == pattern_text(v@[k].pattern@, v@[k].dir_only),
        decreases v@.len() - i,
    {
        r.push(v[i].display_value());
        i = i + 1;
    }
    assert(texts(r@) =~= pattern_texts(v@));
    r
}

/// What is told once the policy is read.
pub open spec fn choice_notes(runtime: &CompatRuntime, command: Seq<char>) -> Seq<Seq<char>> {
    let excludes = normal_excludes(texts(runtime.exclude_prefixes@));
    note_when(
        excludes.len() > 0,
        command,
        "active compatibility excludes: "@ + comma_list(excludes),
    ) + note_when(
        runtime.include_patterns@.len() > 0,
        command,
        "include patterns: "@ + comma_list(pattern_texts(runtime.include_patterns@)),
    ) + note_when(
        runtime.filter_exclude_patterns@.len() > 0,
        command,
        "filter excludes: "@ + comma_list(pattern_texts(runtime.filter_exclude_patterns@)),
    ) + note_when(
        runtime.files_from_patterns@.len() > 0,
        command,
        "files-from allowlist: "@ + comma_list(pattern_texts(runtime.files_from_patterns@)),
    ) + match runtime.max_age_ns {
        Some(ns) => note_when(
            true,
            command,
            "max-age filter: "@ + decimal_int(ns as int) + " ns"@,
        ),
        None => Seq::empty(),
    }
}

/// What is told once the policy is read.
pub fn tell_choices(runtime: &CompatRuntime, command: &str) -> (r: Vec<String>)
    ensures
        texts(r@) == choice_notes(runtime, command@),
{
    let mut notes: Vec<String> = Vec::new();
    assert(texts(notes@) =~= Seq::empty());
    let excludes = normalize_excludes(&runtime.exclude_prefixes);
    assert(texts(excludes@).len() == excludes@.len());
    let text = listing("active compatibility excludes: ", &excludes);
    add_note(&mut notes, excludes.len() > 0, command, &text);
    let text = listing("include patterns: ", &show_patterns(&runtime.include_patterns));
    add_note(&mut notes, runtime.include_patterns.len() > 0, command, &text);
    let text = listing("filter excludes: ", &show_patterns(&runtime.filter_exclude_patterns));
    add_note(&mut notes, runtime.filter_exclude_patterns.len() > 0, command, &text);
    let text = listing("files-from allowlist: ", &show_patterns(&runtime.files_from_patterns));
    add_note(&mut notes, runtime.files_from_patterns.len() > 0, command, &text);
    if let Some(ns) = runtime.max_age_ns {
        let mut text = to_chars("max-age filter: ");
        extend(&mut text, &decimal_int_chars(ns as i128));
        extend_str(&mut text, " ns");
        add_note(&mut notes, true, command, &text);
    }
    proof {
        let all = choice_notes(runtime, command@);
        assert(Seq::<Seq<char>>::empty() + all =~= all);
        assert(texts(notes@) =~= all);
    }
    notes
}

// ---------------------------------------------------------------------------
// What the copy works with
// ---------------------------------------------------------------------------

/// Texts with further ones behind them, each that is not there yet.
pub open spec fn added(base: Seq<Seq<char>>, more: Seq<Seq<char>>) -> Seq<Seq<char>>
    decreases more.len(),
{
    if more.len() == 0 {
        base
    } else {
        let before = added(base, more.drop_last());
        if before.contains(more.last()) {
            before
        } else {
            before.push(more.last())
        }
    }
}

/// Adds paths to leave out to a policy, which is in force once there are any.
pub fn add_excludes(policy: &mut ExcludePolicy, prefixes: &Vec<String>)
    ensures
        texts(final(policy).directory_prefixes@) == added(
            texts(old(policy).directory_prefixes@),
            normal_excludes(texts(prefixes@)),
        ),
        final(policy).folder_name_additions == old(policy).folder_name_additions,
        final(policy).subtree_overrides == old(policy).subtree_overrides,
        final(policy).enabled == (old(policy).enabled || normal_excludes(texts(prefixes@)).len()
            > 0),
{
    let excludes = normalize_excludes(prefixes);
    let ghost all = texts(excludes@);
    let ghost base = texts(policy.directory_prefixes@);
    let mut i: usize = 0;
    assert(all.take(0) =~= Seq::empty());
    while i < excludes.len()
        invariant
            i <= excludes@.len(),
            all == texts(excludes@),
            texts(policy.directory_prefixes@) == added(base, all.take(i as int)),
            policy.folder_name_additions == old(policy).folder_name_additions,
            policy.subtree_overrides == old(policy).subtree_overrides,
            policy.enabled == old(policy).enabled,
        decreases excludes@.len() - i,
    {
        let ghost before = texts(policy.directory_prefixes@);
        assert(all.take(i as int + 1).drop_last() =~= all.take(i as int));
        if !any_same(&policy.directory_prefixes, excludes[i].as_str()) {
            policy.directory_prefixes.push(excludes[i].clone());
            assert(texts(policy.directory_prefixes@) =~= before.push(all[i as int]));
        }
        i = i + 1;
    }
    assert(all.take(i as int) =~= all);
    if excludes.len() > 0 {
        policy.enabled = true;
    }
}

/// Where backups go.
pub open spec fn backups_of(runtime: &CompatRuntime, destination_root: Seq<char>) -> Option<
    Seq<char>,
> {
    if runtime.backup_requested {
        match runtime.backup_dir {
            Some(dir) => Some(dir@),
            None => Some(path_join(destination_root, ".nightindex-backup"@)),
        }
    } else {
        None
    }
}

fn backup_dir_of(runtime: &CompatRuntime, destination_root: &str) -> (r: Option<String>)
    ensures
        opt_text(r) == backups_of(runtime, destination_root@),
{
    if runtime.backup_requested {
        match &runtime.backup_dir {
            Some(dir) => Some(dir.clone()),
            None => Some(join_path(destination_root, ".nightindex-backup")),
        }
    } else {
        None
    }
}

/// How the copy is made.
pub fn copy_args(runtime: &CompatRuntime, source_root: &str, destination_root: &str) -> (r:
    CopyRunArgs)
    ensures
        r.source_root@ == source_root@,
        r.destination_root@ == destination_root@,
        opt_text(r.backup_dir) == backups_of(runtime, destination_root@),
        r.overwrite == runtime.overwrite,
        r.dry_run == runtime.dry_run,
        r.stop_on_error == runtime.stop_on_error,
        opt_text(r.log) == opt_text(runtime.log),
        r.progress_every == runtime.progress_every,
        r.size_only == runtime.size_only,
        r.hash == runtime.hash,
        r.copy_links_as_files == follows_links(texts(runtime.accepted_link_flags@)),
{
    CopyRunArgs {
        source_root: from_chars(&to_chars(source_root)),
        destination_root: from_chars(&to_chars(destination_root)),
        backup_dir: backup_dir_of(runtime, destination_root),
        overwrite: runtime.overwrite,
        dry_run: runtime.dry_run,
        stop_on_error: runtime.stop_on_error,
        log: copy_opt(&runtime.log),
        progress_every: runtime.progress_every,
        size_only: runtime.size_only,
        hash: runtime.hash,
        copy_links_as_files: dereferences_links(&runtime.accepted_link_flags),
    }
}

/// How what is not in the source is removed.
pub fn delete_args(runtime: &CompatRuntime, destination_root: &str) -> (r: DeleteRunArgs)
    ensures
        r.destination_root@ == destination_root@,
        opt_text(r.backup_dir) == backups_of(runtime, destination_root@),
        r.dry_run == runtime.dry_run,
        r.stop_on_error == runtime.stop_on_error,
        opt_text(r.log) == opt_text(runtime.log),
        r.progress_every == runtime.progress_every,
        r.delete_excluded == runtime.delete_excluded,
{
    DeleteRunArgs {
        destination_root: from_chars(&to_chars(destination_root)),
        backup_dir: backup_dir_of(runtime, destination_root),
        dry_run: runtime.dry_run,
        stop_on_error: runtime.stop_on_error,
        log: copy_opt(&runtime.log),
        progress_every: runtime.progress_every,
        delete_excluded: runtime.delete_excluded,
    }
}

// ---------------------------------------------------------------------------
// The plan
// ---------------------------------------------------------------------------

/// Whether an entry is copied: it fits the patterns, it is listed where there
/// is a list, and it is young enough.
pub open spec fn wanted(runtime: &CompatRuntime, now_ns: i64, item: CopyPlanItem) -> bool {
    &&& chosen(item, runtime.include_patterns@, runtime.filter_exclude_patterns@)
    &&& runtime.files_from_patterns@.len() == 0 || any_matches(
        runtime.files_from_patterns@,
        item.rel_path@,
    )
    &&& match runtime.max_age_ns {
        Some(max) => max > 0 && age_at(item, now_ns) <= max,
        None => true,
    }
}

/// What a plan sums up is what it holds.
pub open spec fn sums_up(plan: CopyPlan) -> bool {
    plan.summary.files_to_copy == plan.items@.len() && plan.summary.bytes_to_copy == total_size(
        plan.items@,
    )
}

proof fn lemma_filter_size(items: Seq<CopyPlanItem>, keep: spec_fn(CopyPlanItem) -> bool)
    ensures
        total_size(items.filter(keep)) <= total_size(items),
    decreases items.len(),
{
    reveal(Seq::filter);
    if items.len() > 0 {
        let init = items.drop_last();
        lemma_filter_size(init, keep);
        if keep(items.last()) {
            assert(items.filter(keep).drop_last() =~= init.filter(keep));
        }
    }
}

/// The plan with the entries that are wanted.
pub fn choose_items(plan: &CopyPlan, runtime: &CompatRuntime, now_ns: i64) -> (r: CopyPlan)
    requires
        sums_up(*plan),
    ensures
        same_origin(r, *plan),
        sums_up(r),
        r.items@ == plan.items@.filter(|item: CopyPlanItem| wanted(runtime, now_ns, item)),
{
    let ghost items = plan.items@;
    let ghost by_pattern = |item: CopyPlanItem|
        chosen(item, runtime.include_patterns@, runtime.filter_exclude_patterns@);
    let ghost by_list = |item: CopyPlanItem|
        runtime.files_from_patterns@.len() == 0 || any_matches(
            runtime.files_from_patterns@,
            item.rel_path@,
        );
    let ghost by_age = |item: CopyPlanItem|
        match runtime.max_age_ns {
            Some(max) => max > 0 && age_at(item, now_ns) <= max,
            None => true,
        };
    proof {
        lemma_filter_size(items, by_pattern);
    }
    let first = filter_plan_by_patterns(
        plan,
        runtime.include_patterns.as_slice(),
        runtime.filter_exclude_patterns.as_slice(),
    );
    proof {
        lemma_filter_size(first.items@, by_list);
        if runtime.files_from_patterns@.len() == 0 {
            lemma_filter_all(first.items@, by_list);
        } else {
            assert(by_list =~= (|item: CopyPlanItem|
                any_matches(runtime.files_from_patterns@, item.rel_path@)));
        }
    }
    let second = filter_plan_by_files_from(&first, runtime.files_from_patterns.as_slice());
    proof {
        assert(second.items@ == first.items@.filter(by_list));
        lemma_filter_size(second.items@, by_age);
        law_choices_commute(items, by_pattern, by_list);
        let both = |item: CopyPlanItem| by_pattern(item) && by_list(item);
        assert(second.items@ == items.filter(both));
        law_choices_commute(items, both, by_age);
        assert((|item: CopyPlanItem| both(item) && by_age(item)) =~= (|item: CopyPlanItem|
            wanted(runtime, now_ns, item)));
    }
    match runtime.max_age_ns {
        Some(max) => {
            assert(by_age =~= (|item: CopyPlanItem| max > 0 && age_at(item, now_ns) <= max));
            filter_plan_by_max_age(&second, max, now_ns)
        },
        None => {
            proof {
                lemma_filter_all(second.items@, by_age);
            }
            second
        },
    }
}

// ---------------------------------------------------------------------------
// Totals
// ---------------------------------------------------------------------------

/// The totals of two removals.
pub fn add_removals(a: &DeleteExecutionSummary, b: &DeleteExecutionSummary) -> (r:
    DeleteExecutionSummary)
    requires
        a.deleted_files + b.deleted_files <= usize::MAX,
        a.deleted_bytes + b.deleted_bytes <= u64::MAX,
        a.failed_files + b.failed_files <= usize::MAX,
    ensures
        r.deleted_files == a.deleted_files + b.deleted_files,
        r.deleted_bytes == a.deleted_bytes + b.deleted_bytes,
        r.failed_files == a.failed_files + b.failed_files,
{
    DeleteExecutionSummary {
        deleted_files: a.deleted_files + b.deleted_files,
        deleted_bytes: a.deleted_bytes + b.deleted_bytes,
        failed_files: a.failed_files + b.failed_files,
    }
}

/// Counts what was removed with what was copied.
pub fn count_removals(summary: &mut CopyExecutionSummary, removed: &DeleteExecutionSummary)
    requires
        old(summary).deleted_files + removed.deleted_files <= usize::MAX,
        old(summary).deleted_bytes + removed.deleted_bytes <= u64::MAX,
        old(summary).failed_files + removed.failed_files <= usize::MAX,
    ensures
        *final(summary) == (CopyExecutionSummary {
            deleted_files: (old(summary).deleted_files + removed.deleted_files) as usize,
            deleted_bytes: (old(summary).deleted_bytes + removed.deleted_bytes) as u64,
            failed_files: (old(summary).failed_files + removed.failed_files) as usize,
            ..*old(summary)
        }),
{
    summary.deleted_files = summary.deleted_files + removed.deleted_files;
    summary.deleted_bytes = summary.deleted_bytes + removed.deleted_bytes;
    summary.failed_files = summary.failed_files + removed.failed_files;
}

/// The line of the totals.
pub open spec fn totals_line(s: CopyExecutionSummary, human_readable: bool, command: Seq<char>) -> Seq<
    char,
> {
    note_lead(command) + "summary planned="@ + decimal(s.planned_files as nat) + " copied="@
        + decimal(s.copied_files as nat) + " skipped_existing="@ + decimal(
        s.skipped_existing as nat,
    ) + " skipped_conflict="@ + decimal(s.skipped_conflict as nat) + " overwritten="@ + decimal(
        s.overwritten_files as nat,
    ) + " missing_source="@ + decimal(s.missing_source as nat) + " failed="@ + decimal(
        s.failed_files as nat,
    ) + " copied_bytes="@ + if human_readable {
        short_bytes_text(s.copied_bytes)
    } else {
        decimal(s.copied_bytes as nat)
    }
}

/// The line of the totals, where they are told.
pub fn tell_totals(summary: &CopyExecutionSummary, runtime: &CompatRuntime, command: &str) -> (r:
    Option<String>)
    ensures
        opt_text(r) == if tells_totals(runtime) {
            Some(totals_line(*summary, runtime.human_readable, command@))
        } else {
            None
        },
{
    if !(runtime.stats || runtime.human_readable || runtime.verbosity > 0) {
        return None;
    }
    let mut out = to_chars("[nightindex ");
    extend_str(&mut out, command);
    extend_str(&mut out, "] ");
    extend_str(&mut out, "summary planned=");
    extend(&mut out, &decimal_chars(summary.planned_files as u128));
    extend_str(&mut out, " copied=");
    extend(&mut out, &decimal_chars(summary.copied_files as u128));
    extend_str(&mut out, " skipped_existing=");
    extend(&mut out, &decimal_chars(summary.skipped_existing as u128));
    extend_str(&mut out, " skipped_conflict=");
    extend(&mut out, &decimal_chars(summary.skipped_conflict as u128));
    extend_str(&mut out, " overwritten=");
    extend(&mut out, &decimal_chars(summary.overwritten_files as u128));
    extend_str(&mut out, " missing_source=");
    extend(&mut out, &decimal_chars(summary.missing_source as u128));
    extend_str(&mut out, " failed=");
    extend(&mut out, &decimal_chars(summary.failed_files as u128));
    extend_str(&mut out, " copied_bytes=");
    if runtime.human_readable {
        extend_str(&mut out, format_bytes_human(summary.copied_bytes).as_str());
    } else {
        extend(&mut out, &decimal_chars(summary.copied_bytes as u128));
    }
    Some(from_chars(&out))
}

} // verus!
