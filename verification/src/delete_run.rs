//! The removal of what a destination holds and its source does not.

use crate::copy_run::{event_text, one_if, CopyEvent, CopyEventAction, EventText};
use crate::filter::{lemma_filter_start, lemma_filter_step};
use crate::number::{decimal, decimal_chars};
use crate::path::{join_path, path_join};
use crate::plan::left_out;
use crate::policy::{should_exclude_path, ExcludePolicy};
use crate::record::{has_path, index_rows, FileRecord};
use crate::text::{
    concat2, concat4, extend, extend_str, from_chars, opt_text, to_chars,
};
use vstd::prelude::*;

verus! {

/// How entries are removed.
#[derive(Debug)]
pub struct DeleteRunArgs {
    pub destination_root: String,
    pub backup_dir: Option<String>,
    pub dry_run: bool,
    pub stop_on_error: bool,
    pub log: Option<String>,
    pub progress_every: usize,
    pub delete_excluded: bool,
}

/// What a removal did.
#[derive(Clone, Copy, Debug, PartialEq, Eq, Structural)]
pub struct DeleteExecutionSummary {
    pub deleted_files: usize,
    pub deleted_bytes: u64,
    pub failed_files: usize,
}

// ---------------------------------------------------------------------------
// What is removed
// ---------------------------------------------------------------------------

/// Whether a row of the destination is removed: its path is not in the source
/// and not left out, or it is left out and such rows are to go.
pub open spec fn to_delete(
    source: Seq<FileRecord>,
    policy: Option<&ExcludePolicy>,
    delete_excluded: bool,
    row: FileRecord,
) -> bool {
    let out = left_out(row.rel_path@, policy);
    (!has_path(source, row.rel_path@) && !out) || (delete_excluded && out)
}

/// The rows of the destination that are removed.
pub open spec fn targets(
    source: Seq<FileRecord>,
    destination: Seq<FileRecord>,
    policy: Option<&ExcludePolicy>,
    delete_excluded: bool,
) -> Seq<FileRecord> {
    destination.filter(|row: FileRecord| to_delete(source, policy, delete_excluded, row))
}

fn is_left_out(path: &str, policy: Option<&ExcludePolicy>) -> (r: bool)
    requires
        policy matches Some(p) ==> p.wf(),
    ensures
        r == left_out(path@, policy),
{
    match policy {
        Some(p) => should_exclude_path(path, p),
        None => false,
    }
}

/// The rows of the destination that are to be removed.
pub fn delete_targets(
    source: &Vec<FileRecord>,
    destination: &Vec<FileRecord>,
    policy: Option<&ExcludePolicy>,
    delete_excluded: bool,
) -> (r: Vec<FileRecord>)
    requires
        policy matches Some(p) ==> p.wf(),
    ensures
        r@ == targets(source@, destination@, policy, delete_excluded),
{
    let ghost keep = |row: FileRecord| to_delete(source@, policy, delete_excluded, row);
    let ghost all = destination@;
    let sources = index_rows(source);
    let mut r: Vec<FileRecord> = Vec::new();
    let mut i: usize = 0;
    proof {
        lemma_filter_start(all, keep);
    }
    while i < destination.len()
        invariant
            i <= destination@.len(),
            policy matches Some(p) ==> p.wf(),
            sources.wf(),
            forall|p: Seq<char>| #[trigger] sources@.contains_key(p) <==> has_path(source@, p),
            all == destination@,
            keep == (|row: FileRecord| to_delete(source@, policy, delete_excluded, row)),
            r@ == all.take(i as int).filter(keep),
        decreases destination@.len() - i,
    {
        proof {
            lemma_filter_step(all, keep, i as int);
        }
        let row = &destination[i];
        let out = is_left_out(row.rel_path.as_str(), policy);
        let goes = if out {
            delete_excluded
        } else {
            !sources.contains_key(row.rel_path.as_str())
        };
        if goes {
            r.push(row.copy());
        }
        i = i + 1;
    }
    assert(all.take(i as int) =~= all);
    r
}

// ---------------------------------------------------------------------------
// The run
// ---------------------------------------------------------------------------

/// What is to be done with a row.
#[derive(Clone, Copy, Debug, PartialEq, Eq, Structural)]
pub enum DeleteStep {
    /// Nothing; a dry run only counts.
    CountOnly,
    /// Move it to the backups.
    MoveToBackup,
    Remove,
}

/// How it ended.
#[derive(Debug)]
pub enum DeleteOutcome {
    Gone,
    /// There was nothing to remove.
    NotFound(String),
    Failed(String),
}

/// What is to be told and noted of a row, in this order.
#[derive(Debug)]
pub struct DeleteSettlement {
    pub line: Option<String>,
    pub event: Option<CopyEvent>,
    pub note: Option<String>,
    pub stop: Option<String>,
}

/// A removal under way.
#[derive(Debug)]
pub struct DeleteRun {
    pub rows: Vec<FileRecord>,
    pub args: DeleteRunArgs,
    pub index: usize,
    pub summary: DeleteExecutionSummary,
}

pub open spec fn step_of(args: &DeleteRunArgs) -> DeleteStep {
    if args.dry_run {
        DeleteStep::CountOnly
    } else if args.backup_dir is Some {
        DeleteStep::MoveToBackup
    } else {
        DeleteStep::Remove
    }
}

/// Whether a row counts as removed.
pub open spec fn counts_as_deleted(args: &DeleteRunArgs, outcome: &DeleteOutcome) -> bool {
    args.dry_run || outcome is Gone
}

/// The line of the log for a row that was removed.
pub open spec fn delete_event(row: &FileRecord, args: &DeleteRunArgs, out: bool) -> EventText {
    EventText {
        schema_version: 2,
        rel_path: row.rel_path@,
        action: CopyEventAction::Delete,
        existing_bytes: Some(row.size),
        bytes: row.size,
        dry_run: args.dry_run,
        overwrite: false,
        reason: Some(
            if out {
                "excluded destination entry"@
            } else {
                "destination-only entry"@
            },
        ),
    }
}

/// What is told of how far a removal has come.
pub open spec fn delete_line(args: &DeleteRunArgs, done: nat, total: nat, s: DeleteExecutionSummary) -> Seq<char> {
    if args.dry_run {
        "[dry-run delete] planned="@ + decimal(done) + " deleted="@ + decimal(
            s.deleted_files as nat,
        )
    } else {
        "[delete] "@ + decimal(done) + " / "@ + decimal(total) + " ("@ + decimal(
            s.deleted_bytes as nat,
        ) + " bytes)"@
    }
}

/// What is told of a failure, where the removal goes on.
pub open spec fn delete_note(args: &DeleteRunArgs, target: Seq<char>, outcome: &DeleteOutcome) -> Option<
    Seq<char>,
> {
    if args.dry_run || args.stop_on_error {
        None
    } else {
        match (step_of(args), outcome) {
            (DeleteStep::MoveToBackup, DeleteOutcome::Failed(e)) => Some(
                "[err] backup failed: "@ + target + ": "@ + e@,
            ),
            (DeleteStep::MoveToBackup, DeleteOutcome::NotFound(e)) => Some(
                "[err] backup failed: "@ + target + ": "@ + e@,
            ),
            (_, DeleteOutcome::NotFound(_)) => Some("[err] delete target missing: "@ + target),
            (_, DeleteOutcome::Failed(e)) => Some(
                "[err] delete failed: "@ + target + ": "@ + e@,
            ),
            (_, DeleteOutcome::Gone) => None,
        }
    }
}

/// Why a removal ends with this row, where failures end it.
pub open spec fn delete_stop(args: &DeleteRunArgs, target: Seq<char>, outcome: &DeleteOutcome) -> Option<
    Seq<char>,
> {
    if args.dry_run || !args.stop_on_error || outcome is Gone {
        None
    } else if args.backup_dir is Some {
        Some("failed backing up "@ + target)
    } else if outcome is NotFound {
        Some("missing delete target: "@ + target)
    } else {
        Some("failed deleting "@ + target)
    }
}

fn note_failure(args: &DeleteRunArgs, target: &str, outcome: &DeleteOutcome) -> (r: Option<String>)
    ensures
        opt_text(r) == delete_note(args, target@, outcome),
{
    if args.dry_run || args.stop_on_error {
        return None;
    }
    match (args.backup_dir.is_some(), outcome) {
        (_, DeleteOutcome::Gone) => None,
        (true, DeleteOutcome::Failed(e)) => Some(
            concat4("[err] backup failed: ", target, ": ", e.as_str()),
        ),
        (true, DeleteOutcome::NotFound(e)) => Some(
            concat4("[err] backup failed: ", target, ": ", e.as_str()),
        ),
        (false, DeleteOutcome::NotFound(_)) => Some(concat2("[err] delete target missing: ", target)),
        (false, DeleteOutcome::Failed(e)) => Some(
            concat4("[err] delete failed: ", target, ": ", e.as_str()),
        ),
    }
}

fn stop_at_failure(args: &DeleteRunArgs, target: &str, outcome: &DeleteOutcome) -> (r: Option<String>)
    ensures
        opt_text(r) == delete_stop(args, target@, outcome),
{
    if args.dry_run || !args.stop_on_error {
        return None;
    }
    match outcome {
        DeleteOutcome::Gone => None,
        DeleteOutcome::NotFound(_) => {
            if args.backup_dir.is_some() {
                Some(concat2("failed backing up ", target))
            } else {
                Some(concat2("missing delete target: ", target))
            }
        },
        DeleteOutcome::Failed(_) => {
            if args.backup_dir.is_some() {
                Some(concat2("failed backing up ", target))
            } else {
                Some(concat2("failed deleting ", target))
            }
        },
    }
}

/// The sum of the sizes of the first `n` rows.
pub open spec fn sizes_of(rows: Seq<FileRecord>, n: int) -> nat
    decreases n,
{
    if n <= 0 {
        0
    } else {
        sizes_of(rows, n - 1) + rows[n - 1].size as nat
    }
}

impl DeleteRun {
    /// Every row that was settled counts once: as removed or as failed. In a dry
    /// run none fails, and the bytes are those of all rows that were settled.
    pub open spec fn wf(&self) -> bool {
        &&& self.index <= self.rows@.len()
        &&& self.summary.deleted_files + self.summary.failed_files == self.index
        &&& self.summary.deleted_bytes <= sizes_of(self.rows@, self.index as int)
        &&& self.args.dry_run ==> self.summary.failed_files == 0 && self.summary.deleted_bytes
            == sizes_of(self.rows@, self.index as int)
    }

    pub fn start(rows: Vec<FileRecord>, args: DeleteRunArgs) -> (r: Self)
        ensures
            r.wf(),
            r.rows == rows,
            r.args == args,
            r.index == 0,
            r.summary == (DeleteExecutionSummary {
                deleted_files: 0,
                deleted_bytes: 0,
                failed_files: 0,
            }),
    {
        DeleteRun {
            rows,
            args,
            index: 0,
            summary: DeleteExecutionSummary { deleted_files: 0, deleted_bytes: 0, failed_files: 0 },
        }
    }

    /// What to do with the row at hand; nothing where all are settled.
    pub fn step(&self) -> (r: Option<DeleteStep>)
        requires
            self.wf(),
        ensures
            r == if self.index < self.rows@.len() {
                Some(step_of(&self.args))
            } else {
                None
            },
    {
        if self.index < self.rows.len() {
            if self.args.dry_run {
                Some(DeleteStep::CountOnly)
            } else if self.args.backup_dir.is_some() {
                Some(DeleteStep::MoveToBackup)
            } else {
                Some(DeleteStep::Remove)
            }
        } else {
            None
        }
    }

    /// Whether progress is told after this row.
    pub open spec fn is_due(&self) -> bool {
        let every = if self.args.progress_every < 1 {
            1
        } else {
            self.args.progress_every as int
        };
        (self.index + 1) % every == 0
    }

    /// Settles the row at hand.
    pub fn settle(&mut self, outcome: &DeleteOutcome, policy: Option<&ExcludePolicy>) -> (r:
        DeleteSettlement)
        requires
            old(self).wf(),
            old(self).index < old(self).rows@.len(),
            policy matches Some(p) ==> p.wf(),
            counts_as_deleted(&old(self).args, outcome) ==> old(self).summary.deleted_bytes + old(
                self,
            ).rows@[old(self).index as int].size <= u64::MAX,
        ensures
            final(self).wf(),
            final(self).rows == old(self).rows,
            final(self).args == old(self).args,
            final(self).index == old(self).index + 1,
            ({
                let row = &old(self).rows@[old(self).index as int];
                let args = &old(self).args;
                let target = path_join(args.destination_root@, row.rel_path@);
                let gone = counts_as_deleted(args, outcome);
                &&& final(self).summary.deleted_files == old(self).summary.deleted_files + one_if(
                    gone,
                )
                &&& final(self).summary.deleted_bytes == old(self).summary.deleted_bytes + (if gone {
                    row.size as int
                } else {
                    0
                })
                &&& final(self).summary.failed_files == old(self).summary.failed_files + one_if(!gone)
                &&& event_text(r.event) == if gone {
                    Some(delete_event(row, args, left_out(row.rel_path@, policy)))
                } else {
                    None
                }
                &&& opt_text(r.line) == if gone && old(self).is_due() {
                    Some(
                        delete_line(
                            args,
                            final(self).index as nat,
                            old(self).rows@.len(),
                            final(self).summary,
                        ),
                    )
                } else {
                    None
                }
                &&& opt_text(r.note) == delete_note(args, target, outcome)
                &&& opt_text(r.stop) == delete_stop(args, target, outcome)
            }),
    {
        let row = &self.rows[self.index];
        let total: usize = self.rows.len();
        let every: usize = if self.args.progress_every < 1 { 1 } else { self.args.progress_every };
        let due = (self.index + 1) % every == 0;
        let target = join_path(self.args.destination_root.as_str(), row.rel_path.as_str());
        let note = note_failure(&self.args, target.as_str(), outcome);
        let stop = stop_at_failure(&self.args, target.as_str(), outcome);
        let gone = self.args.dry_run || match outcome {
            DeleteOutcome::Gone => true,
            _ => false,
        };
        self.index = self.index + 1;
        if !gone {
            self.summary.failed_files = self.summary.failed_files + 1;
            return DeleteSettlement { line: None, event: None, note, stop };
        }
        self.summary.deleted_files = self.summary.deleted_files + 1;
        self.summary.deleted_bytes = self.summary.deleted_bytes + row.size;
        let reason = if is_left_out(row.rel_path.as_str(), policy) {
            concat2("excluded destination entry", "")
        } else {
            concat2("destination-only entry", "")
        };
        proof {
            reveal_strlit("");
            assert("excluded destination entry"@ + ""@ =~= "excluded destination entry"@);
            assert("destination-only entry"@ + ""@ =~= "destination-only entry"@);
        }
        let event = CopyEvent {
            schema_version: 2,
            rel_path: row.rel_path.clone(),
            action: CopyEventAction::Delete,
            existing_bytes: Some(row.size),
            bytes: row.size,
            dry_run: self.args.dry_run,
            overwrite: false,
            reason: Some(reason),
        };
        let line = if !due {
            None
        } else if self.args.dry_run {
            let mut out = to_chars("[dry-run delete] planned=");
            extend(&mut out, &decimal_chars(self.index as u128));
            extend_str(&mut out, " deleted=");
            extend(&mut out, &decimal_chars(self.summary.deleted_files as u128));
            Some(from_chars(&out))
        } else {
            let mut out = to_chars("[delete] ");
            extend(&mut out, &decimal_chars(self.index as u128));
            extend_str(&mut out, " / ");
            extend(&mut out, &decimal_chars(total as u128));
            extend_str(&mut out, " (");
            extend(&mut out, &decimal_chars(self.summary.deleted_bytes as u128));
            extend_str(&mut out, " bytes)");
            Some(from_chars(&out))
        };
        DeleteSettlement { line, event: Some(event), note, stop }
    }
}

// ---------------------------------------------------------------------------
// Laws
// ---------------------------------------------------------------------------

/// Nothing that the source has and the policy leaves in is ever removed, and
/// nothing that is left out unless such rows are to go.
pub proof fn law_source_is_kept(
    source: Seq<FileRecord>,
    destination: Seq<FileRecord>,
    policy: Option<&ExcludePolicy>,
    delete_excluded: bool,
    i: int,
)
    requires
        0 <= i < targets(source, destination, policy, delete_excluded).len(),
    ensures
        ({
            let row = targets(source, destination, policy, delete_excluded)[i];
            &&& destination.contains(row)
            &&& has_path(source, row.rel_path@) ==> left_out(row.rel_path@, policy)
                && delete_excluded
            &&& left_out(row.rel_path@, policy) ==> delete_excluded
        }),
{
    let keep = |row: FileRecord| to_delete(source, policy, delete_excluded, row);
    destination.lemma_filter_pred(keep, i);
    destination.lemma_filter_contains_rev(keep, destination.filter(keep)[i]);
}

/// Every row of the destination that is in neither the source nor the policy
/// is removed.
pub proof fn law_extra_is_removed(
    source: Seq<FileRecord>,
    destination: Seq<FileRecord>,
    policy: Option<&ExcludePolicy>,
    delete_excluded: bool,
    i: int,
)
    requires
        0 <= i < destination.len(),
        !has_path(source, destination[i].rel_path@),
        !left_out(destination[i].rel_path@, policy),
    ensures
        targets(source, destination, policy, delete_excluded).contains(destination[i]),
{
    let keep = |row: FileRecord| to_delete(source, policy, delete_excluded, row);
    destination.lemma_filter_contains(keep, i);
}

/// A dry run touches nothing, and a removal with backups removes nothing that
/// it does not move.
pub proof fn law_removal_is_asked_for(args: &DeleteRunArgs)
    ensures
        args.dry_run ==> step_of(args) == DeleteStep::CountOnly,
        step_of(args) == DeleteStep::Remove ==> !args.dry_run && args.backup_dir is None,
{
}

/// A dry run over all rows tells of each that it would go, and of all their
/// bytes.
pub proof fn law_dry_run_counts_all(run: &DeleteRun)
    requires
        run.wf(),
        run.args.dry_run,
        run.index == run.rows@.len(),
    ensures
        run.summary.failed_files == 0,
        run.summary.deleted_files == run.rows@.len(),
        run.summary.deleted_bytes == sizes_of(run.rows@, run.rows@.len() as int),
{
}

/// No run counts more bytes than its rows have, nor more rows than there are.
pub proof fn law_removals_are_bounded(run: &DeleteRun)
    requires
        run.wf(),
    ensures
        run.summary.deleted_files + run.summary.failed_files <= run.rows@.len(),
        run.summary.deleted_bytes <= sizes_of(run.rows@, run.rows@.len() as int),
{
    lemma_sizes_grow(run.rows@, run.index as int, run.rows@.len() as int);
}

proof fn lemma_sizes_grow(rows: Seq<FileRecord>, m: int, n: int)
    requires
        m <= n,
    ensures
        sizes_of(rows, m) <= sizes_of(rows, n),
    decreases n - m,
{
    if m < n {
        lemma_sizes_grow(rows, m, n - 1);
    }
}

} // verus!
