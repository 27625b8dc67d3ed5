//! Laws of the lines in which runs are told: each number stands behind the
//! words that name it.

use crate::cache::CacheUsageCounters;
use crate::compare::{brief_line, BriefSummary};
use crate::delete_run::{delete_line, DeleteExecutionSummary, DeleteRunArgs};
use crate::extract_check::{check_line, ExtractCheckReport};
use crate::logs::{class_line, log_line, percent_text, ErrorClass, LogSum};
use crate::member_diff::{diff_line, ArchiveMemberDiffReport};
use crate::merge::{merge_line, policy_name, MergePolicy, MergeTotals};
use crate::number::decimal;
use crate::plan::CopyPlan;
use crate::progress::{
    bool_text, bytes_text, duration_text, eta_text, progress_line, rate_text, start_line,
    summary_line, CopyExecutionSummary, CopyProgressSnapshot,
};
use crate::report::{best_line, short_ratio, tiers_line, usage_text, Dossier};
use crate::resume::preflight_line;
use crate::scan::{counts_text, scan_line, ScanTotals};
use crate::text::{contains_text, stands_at};
use vstd::prelude::*;

verus! {

/// A text that stands in another one stands in each longer one.
pub broadcast proof fn lemma_stands_in_longer(s: Seq<char>, more: Seq<char>, p: Seq<char>)
    requires
        contains_text(s, p),
    ensures
        #[trigger] contains_text(s + more, p),
{
    let i = choose|i: int| #[trigger] stands_at(s, p, i);
    assert((s + more).subrange(i, i + p.len()) =~= s.subrange(i, i + p.len()));
    assert(stands_at(s + more, p, i));
}

/// A text stands at the end of one that ends with it.
proof fn lemma_stands_last(s: Seq<char>, lead: Seq<char>, value: Seq<char>)
    ensures
        contains_text(s + lead + value, lead + value),
{
    let all = s + lead + value;
    let p = lead + value;
    let i = s.len() as int;
    assert(all.subrange(i, i + p.len()) =~= p);
    assert(stands_at(all, p, i));
}

/// A text stands at the end of one that ends with it.
proof fn lemma_stands_between(s: Seq<char>, lead: Seq<char>, value: Seq<char>, tail: Seq<char>)
    ensures
        contains_text(s + lead + value + tail, lead + value + tail),
{
    let all = s + lead + value + tail;
    let p = lead + value + tail;
    let i = s.len() as int;
    assert(all.subrange(i, i + p.len()) =~= p);
    assert(stands_at(all, p, i));
}

/// A line on how far a copy has come gives the files that are done and planned,
/// the bytes, the rate and the time that is left, and what was skipped, met a
/// conflict, was missing and failed, each under its name.
pub proof fn law_progress_tells_its_numbers(s: CopyProgressSnapshot)
    ensures
        contains_text(progress_line(s), "[copy progress] "@ + decimal(s.completed_files as nat)),
        contains_text(progress_line(s), "/"@ + decimal(s.planned_files as nat)),
        contains_text(progress_line(s), " files | copied="@ + bytes_text(s.copied_bytes)),
        contains_text(progress_line(s), " | rate="@ + rate_text(s.copied_bytes, s.elapsed_ns)),
        contains_text(progress_line(s), "/s | eta="@ + eta_text(s)),
        contains_text(progress_line(s), " | skipped="@ + decimal(s.skipped_existing as nat)),
        contains_text(progress_line(s), " conflict="@ + decimal(s.skipped_conflict as nat)),
        contains_text(progress_line(s), " missing="@ + decimal(s.missing_source as nat)),
        contains_text(progress_line(s), " failed="@ + decimal(s.failed_files as nat)),
{
    broadcast use lemma_stands_in_longer;

    let s0 = Seq::<char>::empty();
    let p0 = "[copy progress] "@;
    assert(s0 + p0 =~= p0);
    let p1 = p0 + decimal(s.completed_files as nat);
    let p2 = p1 + "/"@;
    let p3 = p2 + decimal(s.planned_files as nat);
    let p4 = p3 + " files | copied="@;
    let p5 = p4 + bytes_text(s.copied_bytes);
    let p6 = p5 + " | rate="@;
    let p7 = p6 + rate_text(s.copied_bytes, s.elapsed_ns);
    let p8 = p7 + "/s | eta="@;
    let p9 = p8 + eta_text(s);
    let p10 = p9 + " | skipped="@;
    let p11 = p10 + decimal(s.skipped_existing as nat);
    let p12 = p11 + " conflict="@;
    let p13 = p12 + decimal(s.skipped_conflict as nat);
    let p14 = p13 + " missing="@;
    let p15 = p14 + decimal(s.missing_source as nat);
    let p16 = p15 + " failed="@;
    let p17 = p16 + decimal(s.failed_files as nat);
    lemma_stands_last(s0, "[copy progress] "@, decimal(s.completed_files as nat));
    lemma_stands_last(p1, "/"@, decimal(s.planned_files as nat));
    lemma_stands_last(p3, " files | copied="@, bytes_text(s.copied_bytes));
    lemma_stands_last(p5, " | rate="@, rate_text(s.copied_bytes, s.elapsed_ns));
    lemma_stands_last(p7, "/s | eta="@, eta_text(s));
    lemma_stands_last(p9, " | skipped="@, decimal(s.skipped_existing as nat));
    lemma_stands_last(p11, " conflict="@, decimal(s.skipped_conflict as nat));
    lemma_stands_last(p13, " missing="@, decimal(s.missing_source as nat));
    lemma_stands_last(p15, " failed="@, decimal(s.failed_files as nat));
}

/// A line on what a copy did gives what was copied, skipped, overwritten,
/// missing and failed, each under its name.
pub proof fn law_summary_tells_its_numbers(s: CopyExecutionSummary, elapsed_ns: i64)
    ensures
        contains_text(summary_line(s, elapsed_ns), "[copy summary] mode="@ + s.mode@),
        contains_text(summary_line(s, elapsed_ns), " dry_run="@ + bool_text(s.dry_run)),
        contains_text(summary_line(s, elapsed_ns), " overwrite="@ + bool_text(s.overwrite)),
        contains_text(summary_line(s, elapsed_ns), " files="@ + decimal(s.copied_files as nat)),
        contains_text(summary_line(s, elapsed_ns), "/"@ + decimal(s.planned_files as nat)),
        contains_text(summary_line(s, elapsed_ns), " copied="@ + bytes_text(s.copied_bytes)),
        contains_text(
            summary_line(s, elapsed_ns),
            " skipped="@ + decimal(s.skipped_existing as nat),
        ),
        contains_text(
            summary_line(s, elapsed_ns),
            " conflict="@ + decimal(s.skipped_conflict as nat),
        ),
        contains_text(
            summary_line(s, elapsed_ns),
            " overwritten="@ + decimal(s.overwritten_files as nat),
        ),
        contains_text(summary_line(s, elapsed_ns), " missing="@ + decimal(s.missing_source as nat)),
        contains_text(summary_line(s, elapsed_ns), " failed="@ + decimal(s.failed_files as nat)),
        contains_text(summary_line(s, elapsed_ns), " elapsed="@ + duration_text(elapsed_ns)),
        contains_text(
            summary_line(s, elapsed_ns),
            " rate="@ + rate_text(s.copied_bytes, elapsed_ns),
        ),
{
    broadcast use lemma_stands_in_longer;

    let s0 = Seq::<char>::empty();
    let p0 = "[copy summary] mode="@;
    assert(s0 + p0 =~= p0);
    let p1 = p0 + s.mode@;
    let p2 = p1 + " dry_run="@;
    let p3 = p2 + bool_text(s.dry_run);
    let p4 = p3 + " overwrite="@;
    let p5 = p4 + bool_text(s.overwrite);
    let p6 = p5 + " files="@;
    let p7 = p6 + decimal(s.copied_files as nat);
    let p8 = p7 + "/"@;
    let p9 = p8 + decimal(s.planned_files as nat);
    let p10 = p9 + " copied="@;
    let p11 = p10 + bytes_text(s.copied_bytes);
    let p12 = p11 + " skipped="@;
    let p13 = p12 + decimal(s.skipped_existing as nat);
    let p14 = p13 + " conflict="@;
    let p15 = p14 + decimal(s.skipped_conflict as nat);
    let p16 = p15 + " overwritten="@;
    let p17 = p16 + decimal(s.overwritten_files as nat);
    let p18 = p17 + " missing="@;
    let p19 = p18 + decimal(s.missing_source as nat);
    let p20 = p19 + " failed="@;
    let p21 = p20 + decimal(s.failed_files as nat);
    let p22 = p21 + " elapsed="@;
    let p23 = p22 + duration_text(elapsed_ns);
    let p24 = p23 + " rate="@;
    let p25 = p24 + rate_text(s.copied_bytes, elapsed_ns);
    let p26 = p25 + "/s"@;
    lemma_stands_last(s0, "[copy summary] mode="@, s.mode@);
    lemma_stands_last(p1, " dry_run="@, bool_text(s.dry_run));
    lemma_stands_last(p3, " overwrite="@, bool_text(s.overwrite));
    lemma_stands_last(p5, " files="@, decimal(s.copied_files as nat));
    lemma_stands_last(p7, "/"@, decimal(s.planned_files as nat));
    lemma_stands_last(p9, " copied="@, bytes_text(s.copied_bytes));
    lemma_stands_last(p11, " skipped="@, decimal(s.skipped_existing as nat));
    lemma_stands_last(p13, " conflict="@, decimal(s.skipped_conflict as nat));
    lemma_stands_last(p15, " overwritten="@, decimal(s.overwritten_files as nat));
    lemma_stands_last(p17, " missing="@, decimal(s.missing_source as nat));
    lemma_stands_last(p19, " failed="@, decimal(s.failed_files as nat));
    lemma_stands_last(p21, " elapsed="@, duration_text(elapsed_ns));
    lemma_stands_last(p23, " rate="@, rate_text(s.copied_bytes, elapsed_ns));
}

/// The line at the start of a copy gives its mode, what is planned, and whether
/// it is a dry run and may overwrite.
pub proof fn law_start_tells_its_numbers(
    mode: Seq<char>,
    planned_files: usize,
    planned_bytes: u64,
    dry_run: bool,
    overwrite: bool,
)
    ensures
        contains_text(
            start_line(mode, planned_files, planned_bytes, dry_run, overwrite),
            "[copy start] mode="@ + mode,
        ),
        contains_text(
            start_line(mode, planned_files, planned_bytes, dry_run, overwrite),
            " files="@ + decimal(planned_files as nat),
        ),
        contains_text(
            start_line(mode, planned_files, planned_bytes, dry_run, overwrite),
            " bytes="@ + bytes_text(planned_bytes),
        ),
        contains_text(
            start_line(mode, planned_files, planned_bytes, dry_run, overwrite),
            " dry_run="@ + bool_text(dry_run),
        ),
        contains_text(
            start_line(mode, planned_files, planned_bytes, dry_run, overwrite),
            " overwrite="@ + bool_text(overwrite),
        ),
{
    broadcast use lemma_stands_in_longer;

    let s0 = Seq::<char>::empty();
    let p0 = "[copy start] mode="@;
    assert(s0 + p0 =~= p0);
    let p1 = p0 + mode;
    let p2 = p1 + " files="@;
    let p3 = p2 + decimal(planned_files as nat);
    let p4 = p3 + " bytes="@;
    let p5 = p4 + bytes_text(planned_bytes);
    let p6 = p5 + " dry_run="@;
    let p7 = p6 + bool_text(dry_run);
    let p8 = p7 + " overwrite="@;
    let p9 = p8 + bool_text(overwrite);
    lemma_stands_last(s0, "[copy start] mode="@, mode);
    lemma_stands_last(p1, " files="@, decimal(planned_files as nat));
    lemma_stands_last(p3, " bytes="@, bytes_text(planned_bytes));
    lemma_stands_last(p5, " dry_run="@, bool_text(dry_run));
    lemma_stands_last(p7, " overwrite="@, bool_text(overwrite));
}

/// The line on a log gives the events, the bytes and files of what was planned,
/// and the failures.
pub proof fn law_log_tells_its_numbers(t: LogSum, file: Seq<char>)
    ensures
        contains_text(log_line(t, file), "[logs] file="@ + file),
        contains_text(log_line(t, file), " events_seen="@ + decimal(t.events_seen as nat)),
        contains_text(log_line(t, file), " copied="@ + decimal(t.copied_bytes as nat)),
        contains_text(log_line(t, file), "/"@ + decimal(t.planned_bytes as nat)),
        contains_text(
            log_line(t, file),
            " bytes ("@ + percent_text(t.copied_bytes, t.planned_bytes),
        ),
        contains_text(log_line(t, file), "%) files="@ + decimal(t.completed_files as nat)),
        contains_text(log_line(t, file), "/"@ + decimal(t.planned_files as nat)),
        contains_text(log_line(t, file), " failed="@ + decimal(t.failed_files as nat)),
        contains_text(log_line(t, file), " failure_events="@ + decimal(t.failures as nat)),
{
    broadcast use lemma_stands_in_longer;

    let s0 = Seq::<char>::empty();
    let p0 = "[logs] file="@;
    assert(s0 + p0 =~= p0);
    let p1 = p0 + file;
    let p2 = p1 + " events_seen="@;
    let p3 = p2 + decimal(t.events_seen as nat);
    let p4 = p3 + " copied="@;
    let p5 = p4 + decimal(t.copied_bytes as nat);
    let p6 = p5 + "/"@;
    let p7 = p6 + decimal(t.planned_bytes as nat);
    let p8 = p7 + " bytes ("@;
    let p9 = p8 + percent_text(t.copied_bytes, t.planned_bytes);
    let p10 = p9 + "%) files="@;
    let p11 = p10 + decimal(t.completed_files as nat);
    let p12 = p11 + "/"@;
    let p13 = p12 + decimal(t.planned_files as nat);
    let p14 = p13 + " failed="@;
    let p15 = p14 + decimal(t.failed_files as nat);
    let p16 = p15 + " failure_events="@;
    let p17 = p16 + decimal(t.failures as nat);
    lemma_stands_last(s0, "[logs] file="@, file);
    lemma_stands_last(p1, " events_seen="@, decimal(t.events_seen as nat));
    lemma_stands_last(p3, " copied="@, decimal(t.copied_bytes as nat));
    lemma_stands_last(p5, "/"@, decimal(t.planned_bytes as nat));
    lemma_stands_last(p7, " bytes ("@, percent_text(t.copied_bytes, t.planned_bytes));
    lemma_stands_last(p9, "%) files="@, decimal(t.completed_files as nat));
    lemma_stands_last(p11, "/"@, decimal(t.planned_files as nat));
    lemma_stands_last(p13, " failed="@, decimal(t.failed_files as nat));
    lemma_stands_last(p15, " failure_events="@, decimal(t.failures as nat));
}

/// The line on a class of failures gives its name and how often it came.
pub proof fn law_class_tells_its_count(c: ErrorClass)
    ensures
        contains_text(class_line(c), "[logs errors] class="@ + c.class@),
        contains_text(class_line(c), " count="@ + decimal(c.count as nat)),
{
    broadcast use lemma_stands_in_longer;

    let s0 = Seq::<char>::empty();
    let p0 = "[logs errors] class="@;
    assert(s0 + p0 =~= p0);
    let p1 = p0 + c.class@;
    let p2 = p1 + " count="@;
    let p3 = p2 + decimal(c.count as nat);
    lemma_stands_last(s0, "[logs errors] class="@, c.class@);
    lemma_stands_last(p1, " count="@, decimal(c.count as nat));
}

/// What is told of a merge gives each of its totals under its name.
pub proof fn law_merge_tells_its_numbers(
    t: MergeTotals,
    dry_run: bool,
    policy: MergePolicy,
    planned: nat,
    selected: nat,
    by_filter: nat,
    by_limit: nat,
)
    ensures
        contains_text(
            merge_line(t, dry_run, policy, planned, selected, by_filter, by_limit),
            "{\"applied\":"@ + decimal(t.applied as nat),
        ),
        contains_text(
            merge_line(t, dry_run, policy, planned, selected, by_filter, by_limit),
            ",\"manual\":"@ + decimal(t.manual as nat),
        ),
        contains_text(
            merge_line(t, dry_run, policy, planned, selected, by_filter, by_limit),
            ",\"kept_both\":"@ + decimal(t.kept_both as nat),
        ),
        contains_text(
            merge_line(t, dry_run, policy, planned, selected, by_filter, by_limit),
            ",\"skipped_existing\":"@ + decimal(t.skipped_existing as nat),
        ),
        contains_text(
            merge_line(t, dry_run, policy, planned, selected, by_filter, by_limit),
            ",\"conflicts\":"@ + decimal(t.conflicts as nat),
        ),
        contains_text(
            merge_line(t, dry_run, policy, planned, selected, by_filter, by_limit),
            ",\"failed\":"@ + decimal(t.failed as nat),
        ),
        contains_text(
            merge_line(t, dry_run, policy, planned, selected, by_filter, by_limit),
            ",\"renamed_targets\":"@ + decimal(t.renamed_targets as nat),
        ),
        contains_text(
            merge_line(t, dry_run, policy, planned, selected, by_filter, by_limit),
            ",\"dry_run\":"@ + bool_text(dry_run),
        ),
        contains_text(
            merge_line(t, dry_run, policy, planned, selected, by_filter, by_limit),
            ",\"policy\":\""@ + policy_name(policy),
        ),
        contains_text(
            merge_line(t, dry_run, policy, planned, selected, by_filter, by_limit),
            "\",\"planned_items\":"@ + decimal(planned),
        ),
        contains_text(
            merge_line(t, dry_run, policy, planned, selected, by_filter, by_limit),
            ",\"selected_items\":"@ + decimal(selected),
        ),
        contains_text(
            merge_line(t, dry_run, policy, planned, selected, by_filter, by_limit),
            ",\"skipped_by_filter\":"@ + decimal(by_filter),
        ),
        contains_text(
            merge_line(t, dry_run, policy, planned, selected, by_filter, by_limit),
            ",\"skipped_by_limit\":"@ + decimal(by_limit),
        ),
{
    broadcast use lemma_stands_in_longer;

    let s0 = Seq::<char>::empty();
    let p0 = "{\"applied\":"@;
    assert(s0 + p0 =~= p0);
    let p1 = p0 + decimal(t.applied as nat);
    let p2 = p1 + ",\"manual\":"@;
    let p3 = p2 + decimal(t.manual as nat);
    let p4 = p3 + ",\"kept_both\":"@;
    let p5 = p4 + decimal(t.kept_both as nat);
    let p6 = p5 + ",\"skipped_existing\":"@;
    let p7 = p6 + decimal(t.skipped_existing as nat);
    let p8 = p7 + ",\"conflicts\":"@;
    let p9 = p8 + decimal(t.conflicts as nat);
    let p10 = p9 + ",\"failed\":"@;
    let p11 = p10 + decimal(t.failed as nat);
    let p12 = p11 + ",\"renamed_targets\":"@;
    let p13 = p12 + decimal(t.renamed_targets as nat);
    let p14 = p13 + ",\"dry_run\":"@;
    let p15 = p14 + bool_text(dry_run);
    let p16 = p15 + ",\"policy\":\""@;
    let p17 = p16 + policy_name(policy);
    let p18 = p17 + "\",\"planned_items\":"@;
    let p19 = p18 + decimal(planned);
    let p20 = p19 + ",\"selected_items\":"@;
    let p21 = p20 + decimal(selected);
    let p22 = p21 + ",\"skipped_by_filter\":"@;
    let p23 = p22 + decimal(by_filter);
    let p24 = p23 + ",\"skipped_by_limit\":"@;
    let p25 = p24 + decimal(by_limit);
    let p26 = p25 + "}"@;
    lemma_stands_last(s0, "{\"applied\":"@, decimal(t.applied as nat));
    lemma_stands_last(p1, ",\"manual\":"@, decimal(t.manual as nat));
    lemma_stands_last(p3, ",\"kept_both\":"@, decimal(t.kept_both as nat));
    lemma_stands_last(p5, ",\"skipped_existing\":"@, decimal(t.skipped_existing as nat));
    lemma_stands_last(p7, ",\"conflicts\":"@, decimal(t.conflicts as nat));
    lemma_stands_last(p9, ",\"failed\":"@, decimal(t.failed as nat));
    lemma_stands_last(p11, ",\"renamed_targets\":"@, decimal(t.renamed_targets as nat));
    lemma_stands_last(p13, ",\"dry_run\":"@, bool_text(dry_run));
    lemma_stands_last(p15, ",\"policy\":\""@, policy_name(policy));
    lemma_stands_last(p17, "\",\"planned_items\":"@, decimal(planned));
    lemma_stands_last(p19, ",\"selected_items\":"@, decimal(selected));
    lemma_stands_last(p21, ",\"skipped_by_filter\":"@, decimal(by_filter));
    lemma_stands_last(p23, ",\"skipped_by_limit\":"@, decimal(by_limit));
}

/// The line of a brief gives what is to be copied, and how the trees differ.
pub proof fn law_brief_tells_its_numbers(s: BriefSummary)
    ensures
        contains_text(
            brief_line(&s),
            "[brief] summary: copy "@ + decimal(s.files_to_copy as nat) + " files / "@,
        ),
        contains_text(brief_line(&s), " files / "@ + decimal(s.bytes_to_copy as nat) + " bytes; "@),
        contains_text(
            brief_line(&s),
            " bytes; "@ + decimal(s.same_path_same_meta as nat) + " same, "@,
        ),
        contains_text(
            brief_line(&s),
            " same, "@ + decimal(s.same_path_changed as nat) + " changed, "@,
        ),
        contains_text(
            brief_line(&s),
            " changed, "@ + decimal(s.left_only as nat) + " left-only, "@,
        ),
        contains_text(
            brief_line(&s),
            " left-only, "@ + decimal(s.right_only as nat) + " right-only"@,
        ),
{
    broadcast use lemma_stands_in_longer;

    let s0 = Seq::<char>::empty();
    let p0 = "[brief] summary: copy "@;
    assert(s0 + p0 =~= p0);
    let p1 = p0 + decimal(s.files_to_copy as nat);
    let p2 = p1 + " files / "@;
    let p3 = p2 + decimal(s.bytes_to_copy as nat);
    let p4 = p3 + " bytes; "@;
    let p5 = p4 + decimal(s.same_path_same_meta as nat);
    let p6 = p5 + " same, "@;
    let p7 = p6 + decimal(s.same_path_changed as nat);
    let p8 = p7 + " changed, "@;
    let p9 = p8 + decimal(s.left_only as nat);
    let p10 = p9 + " left-only, "@;
    let p11 = p10 + decimal(s.right_only as nat);
    let p12 = p11 + " right-only"@;
    let p13 = p12 + (match s.estimated_seconds {
        Some(n) => ", ETA ~"@ + decimal(n as nat) + "s"@,
        None => Seq::empty(),
    });
    lemma_stands_between(
        s0,
        "[brief] summary: copy "@,
        decimal(s.files_to_copy as nat),
        " files / "@,
    );
    lemma_stands_between(p1, " files / "@, decimal(s.bytes_to_copy as nat), " bytes; "@);
    lemma_stands_between(p3, " bytes; "@, decimal(s.same_path_same_meta as nat), " same, "@);
    lemma_stands_between(p5, " same, "@, decimal(s.same_path_changed as nat), " changed, "@);
    lemma_stands_between(p7, " changed, "@, decimal(s.left_only as nat), " left-only, "@);
    lemma_stands_between(p9, " left-only, "@, decimal(s.right_only as nat), " right-only"@);
}

/// The line before a session is taken up again gives what is left to copy, and
/// what was asked for.
pub proof fn law_preflight_tells_its_numbers(
    session: Option<Seq<char>>,
    plan: &CopyPlan,
    only_failed: bool,
    max_attempts: Option<u64>,
    dry_run: bool,
    overwrite: bool,
)
    ensures
        contains_text(
            preflight_line(session, plan, only_failed, max_attempts, dry_run, overwrite),
            "[resume preflight] session="@ + (match session { Some(id) => id, None => "latest"@ }),
        ),
        contains_text(
            preflight_line(session, plan, only_failed, max_attempts, dry_run, overwrite),
            " files="@ + decimal(plan.items@.len()),
        ),
        contains_text(
            preflight_line(session, plan, only_failed, max_attempts, dry_run, overwrite),
            " bytes="@ + decimal(plan.summary.bytes_to_copy as nat),
        ),
        contains_text(
            preflight_line(session, plan, only_failed, max_attempts, dry_run, overwrite),
            " filter="@ + (if only_failed { "failed-only"@ } else { "pending+copying+failed"@ }),
        ),
        contains_text(
            preflight_line(session, plan, only_failed, max_attempts, dry_run, overwrite),
            " max_attempts="@ + (match max_attempts { Some(n) => decimal(n as nat),
                None => "none"@ }),
        ),
        contains_text(
            preflight_line(session, plan, only_failed, max_attempts, dry_run, overwrite),
            " dry_run="@ + bool_text(dry_run),
        ),
        contains_text(
            preflight_line(session, plan, only_failed, max_attempts, dry_run, overwrite),
            " overwrite="@ + bool_text(overwrite),
        ),
{
    broadcast use lemma_stands_in_longer;

    let s0 = Seq::<char>::empty();
    let p0 = "[resume preflight] session="@;
    assert(s0 + p0 =~= p0);
    let p1 = p0 + (match session { Some(id) => id, None => "latest"@ });
    let p2 = p1 + " files="@;
    let p3 = p2 + decimal(plan.items@.len());
    let p4 = p3 + " bytes="@;
    let p5 = p4 + decimal(plan.summary.bytes_to_copy as nat);
    let p6 = p5 + " filter="@;
    let p7 = p6 + (if only_failed { "failed-only"@ } else { "pending+copying+failed"@ });
    let p8 = p7 + " max_attempts="@;
    let p9 = p8 + (match max_attempts { Some(n) => decimal(n as nat), None => "none"@ });
    let p10 = p9 + " dry_run="@;
    let p11 = p10 + bool_text(dry_run);
    let p12 = p11 + " overwrite="@;
    let p13 = p12 + bool_text(overwrite);
    lemma_stands_last(
        s0,
        "[resume preflight] session="@,
        (match session { Some(id) => id, None => "latest"@ }),
    );
    lemma_stands_last(p1, " files="@, decimal(plan.items@.len()));
    lemma_stands_last(p3, " bytes="@, decimal(plan.summary.bytes_to_copy as nat));
    lemma_stands_last(
        p5,
        " filter="@,
        (if only_failed { "failed-only"@ } else { "pending+copying+failed"@ }),
    );
    lemma_stands_last(
        p7,
        " max_attempts="@,
        (match max_attempts { Some(n) => decimal(n as nat), None => "none"@ }),
    );
    lemma_stands_last(p9, " dry_run="@, bool_text(dry_run));
    lemma_stands_last(p11, " overwrite="@, bool_text(overwrite));
}

/// The line on the best match of a dossier gives how many there are, and of the
/// first its folders, its ratio, the files it shares, and how sure it is.
pub proof fn law_best_match_is_told(d: Dossier)
    requires
        d.candidates@.len() > 0,
    ensures
        contains_text(
            best_line(&d),
            "[dossier] summary: "@ + decimal(d.candidates@.len()) + " candidates across "@,
        ),
        contains_text(
            best_line(&d),
            " candidates across "@ + decimal(d.left_folder_count as nat) + " left folders and "@,
        ),
        contains_text(
            best_line(&d),
            " left folders and "@ + decimal(d.right_folder_count as nat) + " right folders; best "@,
        ),
        contains_text(
            best_line(&d),
            " right folders; best "@ + d.candidates@[0].left_folder@ + " -> "@,
        ),
        contains_text(best_line(&d), " -> "@ + d.candidates@[0].right_folder@ + " ("@),
        contains_text(best_line(&d), " ("@ + short_ratio(d.candidates@[0].overlap_ratio) + ", "@),
        contains_text(
            best_line(&d),
            ", "@ + decimal(d.candidates@[0].shared_rel_file_count as nat) + " shared files, "@,
        ),
        contains_text(
            best_line(&d),
            " shared files, "@ + d.candidates@[0].confidence_tier.name() + ")"@,
        ),
{
    broadcast use lemma_stands_in_longer;

    let s0 = Seq::<char>::empty();
    let p0 = "[dossier] summary: "@;
    assert(s0 + p0 =~= p0);
    let p1 = p0 + decimal(d.candidates@.len());
    let p2 = p1 + " candidates across "@;
    let p3 = p2 + decimal(d.left_folder_count as nat);
    let p4 = p3 + " left folders and "@;
    let p5 = p4 + decimal(d.right_folder_count as nat);
    let p6 = p5 + " right folders; best "@;
    let p7 = p6 + d.candidates@[0].left_folder@;
    let p8 = p7 + " -> "@;
    let p9 = p8 + d.candidates@[0].right_folder@;
    let p10 = p9 + " ("@;
    let p11 = p10 + short_ratio(d.candidates@[0].overlap_ratio);
    let p12 = p11 + ", "@;
    let p13 = p12 + decimal(d.candidates@[0].shared_rel_file_count as nat);
    let p14 = p13 + " shared files, "@;
    let p15 = p14 + d.candidates@[0].confidence_tier.name();
    let p16 = p15 + ")"@;
    lemma_stands_between(
        s0,
        "[dossier] summary: "@,
        decimal(d.candidates@.len()),
        " candidates across "@,
    );
    lemma_stands_between(
        p1,
        " candidates across "@,
        decimal(d.left_folder_count as nat),
        " left folders and "@,
    );
    lemma_stands_between(
        p3,
        " left folders and "@,
        decimal(d.right_folder_count as nat),
        " right folders; best "@,
    );
    lemma_stands_between(p5, " right folders; best "@, d.candidates@[0].left_folder@, " -> "@);
    lemma_stands_between(p7, " -> "@, d.candidates@[0].right_folder@, " ("@);
    lemma_stands_between(p9, " ("@, short_ratio(d.candidates@[0].overlap_ratio), ", "@);
    lemma_stands_between(
        p11,
        ", "@,
        decimal(d.candidates@[0].shared_rel_file_count as nat),
        " shared files, "@,
    );
    lemma_stands_between(p13, " shared files, "@, d.candidates@[0].confidence_tier.name(), ")"@);
}

/// The line on the tiers gives how many matches each of them has.
pub proof fn law_tiers_are_told(d: Dossier)
    ensures
        contains_text(
            tiers_line(&d),
            "[dossier] tiers: identical="@ + decimal(d.confidence_counts.identical as nat),
        ),
        contains_text(tiers_line(&d), " similar="@ + decimal(d.confidence_counts.similar as nat)),
        contains_text(tiers_line(&d), " possible="@ + decimal(d.confidence_counts.possible as nat)),
        contains_text(tiers_line(&d), " manual="@ + decimal(d.confidence_counts.manual as nat)),
{
    broadcast use lemma_stands_in_longer;

    let s0 = Seq::<char>::empty();
    let p0 = "[dossier] tiers: identical="@;
    assert(s0 + p0 =~= p0);
    let p1 = p0 + decimal(d.confidence_counts.identical as nat);
    let p2 = p1 + " similar="@;
    let p3 = p2 + decimal(d.confidence_counts.similar as nat);
    let p4 = p3 + " possible="@;
    let p5 = p4 + decimal(d.confidence_counts.possible as nat);
    let p6 = p5 + " manual="@;
    let p7 = p6 + decimal(d.confidence_counts.manual as nat);
    lemma_stands_last(
        s0,
        "[dossier] tiers: identical="@,
        decimal(d.confidence_counts.identical as nat),
    );
    lemma_stands_last(p1, " similar="@, decimal(d.confidence_counts.similar as nat));
    lemma_stands_last(p3, " possible="@, decimal(d.confidence_counts.possible as nat));
    lemma_stands_last(p5, " manual="@, decimal(d.confidence_counts.manual as nat));
}

/// The hits and misses of a cache are told under their names.
pub proof fn law_usage_is_told(usage: CacheUsageCounters)
    ensures
        contains_text(usage_text(usage), "(hits="@ + decimal(usage.hits as nat)),
        contains_text(usage_text(usage), ", misses="@ + decimal(usage.misses as nat)),
{
    broadcast use lemma_stands_in_longer;

    let s0 = Seq::<char>::empty();
    let p0 = "(hits="@;
    assert(s0 + p0 =~= p0);
    let p1 = p0 + decimal(usage.hits as nat);
    let p2 = p1 + ", misses="@;
    let p3 = p2 + decimal(usage.misses as nat);
    let p4 = p3 + ")"@;
    lemma_stands_last(s0, "(hits="@, decimal(usage.hits as nat));
    lemma_stands_last(p1, ", misses="@, decimal(usage.misses as nat));
}

/// What is true or false is told as that.
pub proof fn law_booleans_are_told()
    ensures
        bool_text(true) == "true"@,
        bool_text(false) == "false"@,
{
}

/// How far a removal has come is told by the rows that are done, of all of them,
/// and by the bytes that are gone; in a dry run by the rows alone.
pub proof fn law_removal_tells_how_far_it_is(
    args: &DeleteRunArgs,
    done: nat,
    total: nat,
    s: DeleteExecutionSummary,
)
    requires
        !args.dry_run,
    ensures
        contains_text(delete_line(args, done, total, s), "[delete] "@ + decimal(done)),
        contains_text(delete_line(args, done, total, s), " / "@ + decimal(total)),
        contains_text(
            delete_line(args, done, total, s),
            " ("@ + decimal(s.deleted_bytes as nat) + " bytes)"@,
        ),
{
    broadcast use lemma_stands_in_longer;

    let s0 = Seq::<char>::empty();
    let p0 = "[delete] "@;
    assert(s0 + p0 =~= p0);
    let p1 = p0 + decimal(done);
    let p2 = p1 + " / "@;
    let p3 = p2 + decimal(total);
    let p4 = p3 + " ("@;
    let p5 = p4 + decimal(s.deleted_bytes as nat);
    let p6 = p5 + " bytes)"@;
    lemma_stands_last(s0, "[delete] "@, decimal(done));
    lemma_stands_last(p1, " / "@, decimal(total));
    lemma_stands_between(p3, " ("@, decimal(s.deleted_bytes as nat), " bytes)"@);
}

/// In a dry run it is told by the rows that are planned and would be gone.
pub proof fn law_dry_removal_tells_how_far_it_is(
    args: &DeleteRunArgs,
    done: nat,
    total: nat,
    s: DeleteExecutionSummary,
)
    requires
        args.dry_run,
    ensures
        contains_text(
            delete_line(args, done, total, s),
            "[dry-run delete] planned="@ + decimal(done),
        ),
        contains_text(
            delete_line(args, done, total, s),
            " deleted="@ + decimal(s.deleted_files as nat),
        ),
{
    broadcast use lemma_stands_in_longer;

    let s0 = Seq::<char>::empty();
    let p0 = "[dry-run delete] planned="@;
    assert(s0 + p0 =~= p0);
    let p1 = p0 + decimal(done);
    let p2 = p1 + " deleted="@;
    let p3 = p2 + decimal(s.deleted_files as nat);
    lemma_stands_last(s0, "[dry-run delete] planned="@, decimal(done));
    lemma_stands_last(p1, " deleted="@, decimal(s.deleted_files as nat));
}

/// What is told of the archives of two trees gives the exact matches, those by
/// stem, and what each tree has alone, with its folders.
pub proof fn law_check_tells_its_numbers(report: &ExtractCheckReport)
    ensures
        contains_text(
            check_line(report),
            "[extract-check] summary: "@ + decimal(report.exact_matches as nat)
                + " exact matches, "@,
        ),
        contains_text(
            check_line(report),
            " exact matches, "@ + decimal(report.stem_matches as nat) + " stem matches, "@,
        ),
        contains_text(
            check_line(report),
            " stem matches, "@ + decimal(report.left_only_count as nat) + " left-only entries ("@,
        ),
        contains_text(
            check_line(report),
            " left-only entries ("@ + decimal(report.left_only_folders@.len()) + " folders), "@,
        ),
        contains_text(
            check_line(report),
            " folders), "@ + decimal(report.right_only_count as nat) + " right-only entries ("@,
        ),
        contains_text(
            check_line(report),
            " right-only entries ("@ + decimal(report.right_only_folders@.len()) + " folders)"@,
        ),
{
    broadcast use lemma_stands_in_longer;

    let s0 = Seq::<char>::empty();
    let p0 = "[extract-check] summary: "@;
    assert(s0 + p0 =~= p0);
    let p1 = p0 + decimal(report.exact_matches as nat);
    let p2 = p1 + " exact matches, "@;
    let p3 = p2 + decimal(report.stem_matches as nat);
    let p4 = p3 + " stem matches, "@;
    let p5 = p4 + decimal(report.left_only_count as nat);
    let p6 = p5 + " left-only entries ("@;
    let p7 = p6 + decimal(report.left_only_folders@.len());
    let p8 = p7 + " folders), "@;
    let p9 = p8 + decimal(report.right_only_count as nat);
    let p10 = p9 + " right-only entries ("@;
    let p11 = p10 + decimal(report.right_only_folders@.len());
    let p12 = p11 + " folders)"@;
    lemma_stands_between(
        s0,
        "[extract-check] summary: "@,
        decimal(report.exact_matches as nat),
        " exact matches, "@,
    );
    lemma_stands_between(
        p1,
        " exact matches, "@,
        decimal(report.stem_matches as nat),
        " stem matches, "@,
    );
    lemma_stands_between(
        p3,
        " stem matches, "@,
        decimal(report.left_only_count as nat),
        " left-only entries ("@,
    );
    lemma_stands_between(
        p5,
        " left-only entries ("@,
        decimal(report.left_only_folders@.len()),
        " folders), "@,
    );
    lemma_stands_between(
        p7,
        " folders), "@,
        decimal(report.right_only_count as nat),
        " right-only entries ("@,
    );
    lemma_stands_between(
        p9,
        " right-only entries ("@,
        decimal(report.right_only_folders@.len()),
        " folders)"@,
    );
}

/// What is told of the members of two trees gives the exact matches, those by
/// what they hold, and what each tree has alone.
pub proof fn law_member_diff_tells_its_numbers(r: &ArchiveMemberDiffReport)
    ensures
        contains_text(
            diff_line(r),
            "[archive-member-diff] summary: "@ + decimal(r.exact_member_matches as nat)
                + " exact, "@,
        ),
        contains_text(
            diff_line(r),
            " exact, "@ + decimal(r.payload_family_matches as nat) + " payload-family, "@,
        ),
        contains_text(
            diff_line(r),
            " payload-family, "@ + decimal(r.left_only_count as nat) + " left-only, "@,
        ),
        contains_text(
            diff_line(r),
            " left-only, "@ + decimal(r.right_only_count as nat) + " right-only"@,
        ),
{
    broadcast use lemma_stands_in_longer;

    let s0 = Seq::<char>::empty();
    let p0 = "[archive-member-diff] summary: "@;
    assert(s0 + p0 =~= p0);
    let p1 = p0 + decimal(r.exact_member_matches as nat);
    let p2 = p1 + " exact, "@;
    let p3 = p2 + decimal(r.payload_family_matches as nat);
    let p4 = p3 + " payload-family, "@;
    let p5 = p4 + decimal(r.left_only_count as nat);
    let p6 = p5 + " left-only, "@;
    let p7 = p6 + decimal(r.right_only_count as nat);
    let p8 = p7 + " right-only"@;
    lemma_stands_between(
        s0,
        "[archive-member-diff] summary: "@,
        decimal(r.exact_member_matches as nat),
        " exact, "@,
    );
    lemma_stands_between(
        p1,
        " exact, "@,
        decimal(r.payload_family_matches as nat),
        " payload-family, "@,
    );
    lemma_stands_between(
        p3,
        " payload-family, "@,
        decimal(r.left_only_count as nat),
        " left-only, "@,
    );
    lemma_stands_between(p5, " left-only, "@, decimal(r.right_only_count as nat), " right-only"@);
}

/// The counts of a scan are told under their names.
pub proof fn law_scan_tells_its_counts(t: ScanTotals)
    ensures
        contains_text(counts_text(t), " reused="@ + decimal(t.reused as nat)),
        contains_text(counts_text(t), " fp_reused="@ + decimal(t.profiles_reused as nat)),
        contains_text(counts_text(t), " fp_cache_hits="@ + decimal(t.cache_hits as nat)),
        contains_text(counts_text(t), " fp_cache_misses="@ + decimal(t.cache_misses as nat)),
        contains_text(counts_text(t), " fp_recomputed="@ + decimal(t.profiles_recomputed as nat)),
        contains_text(counts_text(t), " excluded="@ + decimal(t.excluded as nat)),
        contains_text(counts_text(t), " errors="@ + decimal(t.errors as nat)),
{
    broadcast use lemma_stands_in_longer;

    let s0 = Seq::<char>::empty();
    let p0 = " reused="@;
    assert(s0 + p0 =~= p0);
    let p1 = p0 + decimal(t.reused as nat);
    let p2 = p1 + " fp_reused="@;
    let p3 = p2 + decimal(t.profiles_reused as nat);
    let p4 = p3 + " fp_cache_hits="@;
    let p5 = p4 + decimal(t.cache_hits as nat);
    let p6 = p5 + " fp_cache_misses="@;
    let p7 = p6 + decimal(t.cache_misses as nat);
    let p8 = p7 + " fp_recomputed="@;
    let p9 = p8 + decimal(t.profiles_recomputed as nat);
    let p10 = p9 + " excluded="@;
    let p11 = p10 + decimal(t.excluded as nat);
    let p12 = p11 + " errors="@;
    let p13 = p12 + decimal(t.errors as nat);
    lemma_stands_last(s0, " reused="@, decimal(t.reused as nat));
    lemma_stands_last(p1, " fp_reused="@, decimal(t.profiles_reused as nat));
    lemma_stands_last(p3, " fp_cache_hits="@, decimal(t.cache_hits as nat));
    lemma_stands_last(p5, " fp_cache_misses="@, decimal(t.cache_misses as nat));
    lemma_stands_last(p7, " fp_recomputed="@, decimal(t.profiles_recomputed as nat));
    lemma_stands_last(p9, " excluded="@, decimal(t.excluded as nat));
    lemma_stands_last(p11, " errors="@, decimal(t.errors as nat));
}

/// A line on a scan gives the files that were found and hashed, and then the
/// other counts.
pub proof fn law_scan_tells_its_files(t: ScanTotals)
    ensures
        scan_line(t) == "[scan] files="@ + decimal(t.files as nat) + " hashed="@ + decimal(
            t.hashed as nat,
        ) + counts_text(t),
{
}

} // verus!
