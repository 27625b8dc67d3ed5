//! Laws of how a run of the copy tool is made and told.

use crate::compat::CompatRuntime;
use crate::compat_run::{
    added, backups_of, choice_notes, comma_list, follows_links, link_note, note_lead, note_when,
    opening_notes, output_notes, tells_totals, totals_line, wanted,
};
use crate::number::{decimal, decimal_int};
use crate::path::path_join;
use crate::pattern::any_matches;
use crate::plan::{chosen, CopyPlanItem};
use crate::policy::{distinct, formats_for, PolicyFormat};
use crate::progress::{short_bytes_text, CopyExecutionSummary};
use crate::telling_laws::lemma_stands_in_longer;
use crate::text::{contains_text, stands_at, texts};
use vstd::prelude::*;

verus! {

/// An entry is copied that its patterns choose, that the list names where there
/// is a list, and that is no older than is asked for: its age is the time since
/// it was changed.
pub proof fn law_what_a_run_copies(runtime: &CompatRuntime, now_ns: i64, item: CopyPlanItem)
    requires
        0 <= now_ns - item.mtime_ns <= i64::MAX,
    ensures
        wanted(runtime, now_ns, item) ==> chosen(
            item,
            runtime.include_patterns@,
            runtime.filter_exclude_patterns@,
        ),
        wanted(runtime, now_ns, item) && runtime.files_from_patterns@.len() > 0 ==> any_matches(
            runtime.files_from_patterns@,
            item.rel_path@,
        ),
        runtime.max_age_ns matches Some(max) ==> (now_ns - item.mtime_ns > max ==> !wanted(
            runtime,
            now_ns,
            item,
        )),
        (chosen(item, runtime.include_patterns@, runtime.filter_exclude_patterns@)
            && runtime.files_from_patterns@.len() == 0 && runtime.max_age_ns is None) ==> wanted(
            runtime,
            now_ns,
            item,
        ),
        (chosen(item, runtime.include_patterns@, runtime.filter_exclude_patterns@)
            && runtime.files_from_patterns@.len() == 0 && runtime.max_age_ns is Some && 0
            < runtime.max_age_ns->0 && now_ns - item.mtime_ns <= runtime.max_age_ns->0) ==> wanted(
            runtime,
            now_ns,
            item,
        ),
{
}

/// What is replaced or removed goes to the place that is given for it, else to
/// one below the destination; where no backups are asked for, nowhere.
pub proof fn law_where_backups_go(runtime: &CompatRuntime, root: Seq<char>)
    ensures
        !runtime.backup_requested ==> backups_of(runtime, root) is None,
        runtime.backup_requested ==> (runtime.backup_dir matches Some(dir) ==> backups_of(
            runtime,
            root,
        ) == Some(dir@)),
        runtime.backup_requested && runtime.backup_dir is None ==> backups_of(runtime, root)
            == Some(path_join(root, ".nightindex-backup"@)),
{
}

/// Links are followed where one of the two options for that is given, whatever
/// else is; and the note on them says so.
pub proof fn law_when_links_are_followed(flags: Seq<Seq<char>>, i: int)
    ensures
        0 <= i < flags.len() && (flags[i] == "--copy-links"@ || flags[i]
            == "--copy-unsafe-links"@) ==> follows_links(flags),
        (forall|k: int|
            0 <= k < flags.len() ==> #[trigger] flags[k] != "--copy-links"@ && flags[k]
                != "--copy-unsafe-links"@) ==> !follows_links(flags),
        follows_links(flags) ==> link_note(flags) == "compat symlink flags: "@ + comma_list(flags)
            + " (dereference symlinks into regular files)"@,
        !follows_links(flags) ==> link_note(flags) == "compat symlink flags: "@ + comma_list(flags)
            + " (preserve symlinks)"@,
{
    if 0 <= i < flags.len() {
        assert(flags.contains(flags[i]));
    }
}

/// Further texts come behind those that are there, each once, and none is lost.
pub proof fn law_further_texts_are_added(base: Seq<Seq<char>>, more: Seq<Seq<char>>)
    ensures
        base.is_prefix_of(added(base, more)),
        forall|x: Seq<char>| #[trigger]
            added(base, more).contains(x) <==> base.contains(x) || more.contains(x),
        base.no_duplicates() ==> added(base, more).no_duplicates(),
    decreases more.len(),
{
    if more.len() > 0 {
        let init = more.drop_last();
        law_further_texts_are_added(base, init);
        let before = added(base, init);
        let now = added(base, more);
        assert(more =~= init.push(more.last()));
        assert forall|x: Seq<char>| #[trigger] now.contains(x) <==> base.contains(x)
            || more.contains(x) by {
            assert(before.contains(x) <==> base.contains(x) || init.contains(x));
            vstd::seq_lib::lemma_seq_contains_after_push(init, more.last(), x);
            vstd::seq_lib::lemma_seq_contains_after_push(before, more.last(), x);
        }
        assert(base =~= now.take(base.len() as int));
    } else {
        assert(base =~= added(base, more).take(base.len() as int));
    }
}

/// A note is told under the name of the command, and only where there is
/// something to tell.
pub proof fn law_notes_name_their_command(tell: bool, command: Seq<char>, text: Seq<char>)
    ensures
        !tell ==> note_when(tell, command, text).len() == 0,
        tell ==> note_when(tell, command, text) == seq![
            "[nightindex "@ + command + "] "@ + text,
        ],
{
}

/// The totals are told where statistics, readable sizes or more words are asked
/// for, and what was asked for is named.
pub proof fn law_output_that_was_asked_for(runtime: &CompatRuntime, verbosity: u8)
    ensures
        tells_totals(runtime) <==> runtime.stats || runtime.human_readable || runtime.verbosity > 0,
        output_notes(false, false, 0).len() == 0,
        output_notes(true, false, 0) == seq!["stats"@],
        output_notes(false, true, 0) == seq!["human-readable"@],
        output_notes(true, true, 0) == seq!["stats"@, "human-readable"@],
        verbosity > 0 ==> output_notes(false, false, verbosity) == seq![
            "verbose x"@ + decimal(verbosity as nat),
        ],
        verbosity > 0 ==> output_notes(true, true, verbosity) == seq![
            "stats"@,
            "human-readable"@,
            "verbose x"@ + decimal(verbosity as nat),
        ],
{
    assert(output_notes(true, false, 0) =~= seq!["stats"@]);
    assert(output_notes(false, true, 0) =~= seq!["human-readable"@]);
    assert(output_notes(true, true, 0) =~= seq!["stats"@, "human-readable"@]);
    assert(verbosity > 0 ==> output_notes(false, false, verbosity) =~= seq![
        "verbose x"@ + decimal(verbosity as nat),
    ]);
    assert(verbosity > 0 ==> output_notes(true, true, verbosity) =~= seq![
        "stats"@,
        "human-readable"@,
        "verbose x"@ + decimal(verbosity as nat),
    ]);
}

/// What is told before a run: the links, what is not supported, writing in
/// place, the output, slashes at the ends of the roots, and markers, each where
/// it was given.
pub proof fn law_what_is_told_before_a_run(runtime: &CompatRuntime, command: Seq<char>)
    ensures
        runtime.accepted_link_flags@.len() > 0 ==> opening_notes(runtime, command).contains(
            note_lead(command) + link_note(texts(runtime.accepted_link_flags@)),
        ),
        runtime.unsupported_args@.len() > 0 ==> opening_notes(runtime, command).contains(
            note_lead(command) + ("ignored/unsupported flags: "@ + comma_list(
                texts(runtime.unsupported_args@),
            )),
        ),
        runtime.inplace ==> opening_notes(runtime, command).contains(
            note_lead(command) + "compat flag --inplace accepted"@,
        ),
        runtime.exclude_if_present@.len() > 0 ==> opening_notes(runtime, command).contains(
            note_lead(command) + ("exclude-if-present markers: "@ + comma_list(
                texts(runtime.exclude_if_present@),
            )),
        ),
        (runtime.accepted_link_flags@.len() == 0 && runtime.unsupported_args@.len() == 0
            && !runtime.inplace && !runtime.stats && !runtime.human_readable && runtime.verbosity
            == 0 && !runtime.source_trailing_slash && !runtime.destination_trailing_slash
            && runtime.exclude_if_present@.len() == 0) ==> opening_notes(runtime, command).len()
            == 0,
{
    broadcast use vstd::seq_lib::lemma_seq_concat_contains_all_elements;

    let a = link_note(texts(runtime.accepted_link_flags@));
    let b = "ignored/unsupported flags: "@ + comma_list(texts(runtime.unsupported_args@));
    let c = "compat flag --inplace accepted"@;
    let d = "exclude-if-present markers: "@ + comma_list(texts(runtime.exclude_if_present@));
    assert(seq![note_lead(command) + a][0] == note_lead(command) + a);
    assert(seq![note_lead(command) + b][0] == note_lead(command) + b);
    assert(seq![note_lead(command) + c][0] == note_lead(command) + c);
    assert(seq![note_lead(command) + d][0] == note_lead(command) + d);
}

/// The age that is asked for is told in nanoseconds, where there is one.
pub proof fn law_age_is_told(runtime: &CompatRuntime, command: Seq<char>)
    ensures
        runtime.max_age_ns matches Some(ns) ==> choice_notes(runtime, command).contains(
            note_lead(command) + ("max-age filter: "@ + decimal_int(ns as int) + " ns"@),
        ),
{
    broadcast use vstd::seq_lib::lemma_seq_concat_contains_all_elements;

    if let Some(ns) = runtime.max_age_ns {
        let a = "max-age filter: "@ + decimal_int(ns as int) + " ns"@;
        assert(seq![note_lead(command) + a][0] == note_lead(command) + a);
    }
}

proof fn lemma_last(s: Seq<char>, lead: Seq<char>, value: Seq<char>)
    ensures
        contains_text(s + lead + value, lead + value),
{
    let all = s + lead + value;
    let p = lead + value;
    let i = s.len() as int;
    assert(all.subrange(i, i + p.len()) =~= p);
    assert(stands_at(all, p, i));
}

/// The line of the totals gives each of them under its name, and the bytes in
/// units where readable sizes are asked for.
pub proof fn law_totals_are_told(s: CopyExecutionSummary, human: bool, command: Seq<char>)
    ensures
        contains_text(
            totals_line(s, human, command),
            "summary planned="@ + decimal(s.planned_files as nat),
        ),
        contains_text(
            totals_line(s, human, command),
            " copied="@ + decimal(s.copied_files as nat),
        ),
        contains_text(
            totals_line(s, human, command),
            " skipped_existing="@ + decimal(s.skipped_existing as nat),
        ),
        contains_text(
            totals_line(s, human, command),
            " skipped_conflict="@ + decimal(s.skipped_conflict as nat),
        ),
        contains_text(
            totals_line(s, human, command),
            " overwritten="@ + decimal(s.overwritten_files as nat),
        ),
        contains_text(
            totals_line(s, human, command),
            " missing_source="@ + decimal(s.missing_source as nat),
        ),
        contains_text(
            totals_line(s, human, command),
            " failed="@ + decimal(s.failed_files as nat),
        ),
        human ==> contains_text(
            totals_line(s, human, command),
            " copied_bytes="@ + short_bytes_text(s.copied_bytes),
        ),
        !human ==> contains_text(
            totals_line(s, human, command),
            " copied_bytes="@ + decimal(s.copied_bytes as nat),
        ),
{
    broadcast use lemma_stands_in_longer;

    let p0 = note_lead(command);
    let p1 = p0 + "summary planned="@ + decimal(s.planned_files as nat);
    let p2 = p1 + " copied="@ + decimal(s.copied_files as nat);
    let p3 = p2 + " skipped_existing="@ + decimal(s.skipped_existing as nat);
    let p4 = p3 + " skipped_conflict="@ + decimal(s.skipped_conflict as nat);
    let p5 = p4 + " overwritten="@ + decimal(s.overwritten_files as nat);
    let p6 = p5 + " missing_source="@ + decimal(s.missing_source as nat);
    let p7 = p6 + " failed="@ + decimal(s.failed_files as nat);
    lemma_last(p0, "summary planned="@, decimal(s.planned_files as nat));
    lemma_last(p1, " copied="@, decimal(s.copied_files as nat));
    lemma_last(p2, " skipped_existing="@, decimal(s.skipped_existing as nat));
    lemma_last(p3, " skipped_conflict="@, decimal(s.skipped_conflict as nat));
    lemma_last(p4, " overwritten="@, decimal(s.overwritten_files as nat));
    lemma_last(p5, " missing_source="@, decimal(s.missing_source as nat));
    lemma_last(p6, " failed="@, decimal(s.failed_files as nat));
    lemma_last(p7, " copied_bytes="@, short_bytes_text(s.copied_bytes));
    lemma_last(p7, " copied_bytes="@, decimal(s.copied_bytes as nat));
}

// ---------------------------------------------------------------------------
// Policy files
// ---------------------------------------------------------------------------

/// A policy file is read in the notation of its name; JSON may be the wider
/// kind, and a file of any other name is tried in each notation.
pub proof fn law_notations_of_policies(ext: Seq<char>)
    ensures
        formats_for("yml"@) == seq![PolicyFormat::Yaml],
        formats_for("yaml"@) == seq![PolicyFormat::Yaml],
        formats_for("json5"@) == seq![PolicyFormat::Json5],
        formats_for("json"@) == seq![PolicyFormat::Json, PolicyFormat::Json5],
        ext != "yml"@ && ext != "yaml"@ && ext != "json"@ && ext != "json5"@ ==> formats_for(ext)
            == seq![PolicyFormat::Yaml, PolicyFormat::Json, PolicyFormat::Json5],
{
    reveal_strlit("yml");
    reveal_strlit("yaml");
    reveal_strlit("json");
    reveal_strlit("json5");
    assert("yml"@.len() == 3 && "yaml"@.len() == 4 && "json"@.len() == 4 && "json5"@.len() == 5);
    assert("yaml"@[0] != "json"@[0]);
}

/// Each text is kept once, where it stands first, and none is lost.
pub proof fn law_distinct_keeps_each_once(v: Seq<Seq<char>>)
    ensures
        distinct(v).no_duplicates(),
        forall|x: Seq<char>| #[trigger] distinct(v).contains(x) <==> v.contains(x),
        v.no_duplicates() ==> distinct(v) == v,
    decreases v.len(),
{
    if v.len() > 0 {
        let init = v.drop_last();
        law_distinct_keeps_each_once(init);
        assert(v =~= init.push(v.last()));
        assert forall|x: Seq<char>| #[trigger] distinct(v).contains(x) <==> v.contains(x) by {
            assert(distinct(init).contains(x) <==> init.contains(x));
            vstd::seq_lib::lemma_seq_contains_after_push(init, v.last(), x);
            vstd::seq_lib::lemma_seq_contains_after_push(distinct(init), v.last(), x);
        }
        if v.no_duplicates() {
            assert(init.no_duplicates());
            if init.contains(v.last()) {
                let i = init.index_of(v.last());
                assert(v[i] == v[v.len() - 1]);
            }
        }
    } else {
        assert(distinct(v) =~= v);
    }
}

} // verus!
