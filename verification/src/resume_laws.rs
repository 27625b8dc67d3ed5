//! Laws of sessions that are taken up again.

use crate::copy_run::{ResumeMark, ResumeStatus};
use crate::plan::CopyPlanItem;
use crate::record::FileRecord;
use crate::resume::{
    capped, exported, in_state, is_completed, is_export_of, is_exported, is_item_of, is_marked,
    is_pending, is_pruned, is_wanted, pending, resume_action, tracking, ResumeAction, ResumeAsked,
    ResumeItem, ResumeItemExportRow, ResumeRow, ResumeSessionListItem,
};
use crate::status::{recent_minutes, tells_rate};
use crate::text::opt_text;
use vstd::prelude::*;

verus! {

/// An entry that failed is tried again, and so is one that was never settled
/// unless only failed ones are asked for; an entry that was tried more often
/// than is allowed is not.
pub proof fn law_undone_is_tried_again(
    item: ResumeItem,
    only_failed: bool,
    max_attempts: Option<u64>,
)
    ensures
        max_attempts is None && item.status@ == "failed"@ ==> is_pending(
            item,
            only_failed,
            max_attempts,
        ),
        max_attempts is None && (item.status@ == "pending"@ || item.status@ == "copying"@) ==> (
        is_pending(item, only_failed, max_attempts) <==> !only_failed),
        item.status@ != "failed"@ && item.status@ != "pending"@ && item.status@ != "copying"@
            ==> !is_pending(item, only_failed, max_attempts),
        max_attempts matches Some(most) ==> (is_pending(item, only_failed, max_attempts)
            <==> item.attempts <= most && is_pending(item, only_failed, None)),
{
    reveal_strlit("failed");
    reveal_strlit("pending");
    reveal_strlit("copying");
    assert("failed"@.len() == 6 && "pending"@.len() == 7 && "copying"@.len() == 7);
}

/// The entries that are tried again come in the order of the session, each as
/// often as it stands there.
pub proof fn law_order_of_the_undone(
    items: Seq<ResumeItem>,
    more: Seq<ResumeItem>,
    only_failed: bool,
    max_attempts: Option<u64>,
)
    ensures
        pending(items + more, only_failed, max_attempts) == pending(
            items,
            only_failed,
            max_attempts,
        ) + pending(more, only_failed, max_attempts),
        exported(items + more, only_failed, max_attempts) == exported(
            items,
            only_failed,
            max_attempts,
        ) + exported(more, only_failed, max_attempts),
{
    Seq::filter_distributes_over_add(
        items,
        more,
        |item: ResumeItem| is_pending(item, only_failed, max_attempts),
    );
    Seq::filter_distributes_over_add(
        items,
        more,
        |item: ResumeItem| is_exported(item, only_failed, max_attempts),
    );
}

/// Where neither failed entries alone nor a number of attempts are asked for,
/// every entry in one of the seven states is exported.
pub proof fn law_all_states_are_exported(item: ResumeItem, only_failed: bool)
    ensures
        item.status@ == "failed"@ ==> is_exported(item, only_failed, None),
        item.status@ == "pending"@ || item.status@ == "copying"@ || item.status@ == "done"@
            || item.status@ == "skipped_existing"@ || item.status@ == "skipped_conflict"@
            || item.status@ == "planned"@ ==> (is_exported(item, false, None)),
        only_failed && item.status@ != "failed"@ ==> !is_exported(item, only_failed, None),
        forall|most: u64| #[trigger]
            is_exported(item, only_failed, Some(most)) <==> item.attempts <= most && is_exported(
                item,
                only_failed,
                None,
            ),
{
}

/// An entry is settled for good once it was copied, or skipped for what stands
/// at its destination; and in no other state.
pub proof fn law_what_is_settled(item: ResumeItem)
    ensures
        item.status@ == "done"@ ==> is_completed(item),
        item.status@ == "skipped_existing"@ ==> is_completed(item),
        item.status@ == "skipped_conflict"@ ==> is_completed(item),
        item.status@ == "failed"@ || item.status@ == "pending"@ || item.status@ == "copying"@
            || item.status@ == "planned"@ ==> !is_completed(item),
{
    reveal_strlit("done");
    reveal_strlit("skipped_existing");
    reveal_strlit("skipped_conflict");
    reveal_strlit("failed");
    reveal_strlit("pending");
    reveal_strlit("copying");
    reveal_strlit("planned");
    assert("done"@.len() == 4 && "skipped_existing"@.len() == 16 && "skipped_conflict"@.len()
        == 16);
    assert("failed"@.len() == 6 && "pending"@.len() == 7 && "copying"@.len() == 7
        && "planned"@.len() == 7);
}

/// A mark gives an entry the state of the mark, under its name, and what was
/// done and went wrong by then; each attempt counts as one, and nothing else
/// does.
pub proof fn law_marks_are_kept(
    r: ResumeItem,
    before: Option<&ResumeItem>,
    rel_path: Seq<char>,
    mark: &ResumeMark,
    attempt: bool,
    now_ns: i64,
)
    requires
        is_marked(r, before, rel_path, mark, attempt, now_ns),
        mark.bytes_done <= i64::MAX,
    ensures
        r.rel_path@ == rel_path,
        before is None ==> r.attempts == (if attempt {
            1int
        } else {
            0
        }),
        before matches Some(item) ==> r.attempts - item.attempts == (if attempt {
            1int
        } else {
            0
        }),
        r.bytes_done == mark.bytes_done,
        opt_text(r.last_error) == opt_text(mark.error),
        r.updated_at == now_ns,
        mark.status == ResumeStatus::Pending ==> r.status@ == "pending"@,
        mark.status == ResumeStatus::Planned ==> r.status@ == "planned"@,
        mark.status == ResumeStatus::Copying ==> r.status@ == "copying"@,
        mark.status == ResumeStatus::Done ==> r.status@ == "done"@,
        mark.status == ResumeStatus::Failed ==> r.status@ == "failed"@,
        mark.status == ResumeStatus::SkippedExisting ==> r.status@ == "skipped_existing"@,
        mark.status == ResumeStatus::SkippedConflict ==> r.status@ == "skipped_conflict"@,
{
}

/// What is forgotten is settled, and where a session is asked for, of that
/// session alone.
pub proof fn law_what_is_forgotten(row: ResumeRow, session: Option<Seq<char>>)
    ensures
        is_pruned(row, None) <==> row.item.status@ == "done"@ || row.item.status@
            == "skipped_existing"@ || row.item.status@ == "skipped_conflict"@,
        session matches Some(id) ==> (is_pruned(row, session) <==> row.session_id@ == id
            && is_pruned(row, None)),
{
}

/// What is taken up again is copied as the index has it; a path of which the
/// index knows nothing counts as an empty file.
pub proof fn law_what_is_taken_up(item: CopyPlanItem, path: Seq<char>, row: Option<FileRecord>)
    requires
        is_item_of(item, path, row),
    ensures
        item.rel_path@ == path,
        row matches Some(known) ==> item.size == known.size && item.mtime_ns == known.mtime_ns
            && item.file_type@ == known.file_type@ && opt_text(item.fast_hash) == opt_text(
            known.fast_hash,
        ),
        row is None ==> item.file_type@ == "file"@ && item.size == 0 && item.mtime_ns == 0
            && item.fast_hash is None,
{
}

/// A copy is kept track of in the index of each tree that has one, and in one
/// that both share only once.
pub proof fn law_each_index_keeps_track(left: Seq<char>, right: Seq<char>)
    ensures
        tracking(None, None).len() == 0,
        tracking(Some(left), None) == seq![left],
        tracking(None, Some(right)) == seq![right],
        left != right ==> tracking(Some(left), Some(right)) == seq![left, right],
        tracking(Some(left), Some(left)) == seq![left],
{
    assert(tracking(Some(left), None) =~= seq![left]);
    assert(tracking(None, Some(right)) =~= seq![right]);
    assert(left != right ==> tracking(Some(left), Some(right)) =~= seq![left, right]);
    assert(tracking(Some(left), Some(left)) =~= seq![left]);
}

/// What is done is the first that was asked for of: to export, to forget, to
/// list, to count, and to plan or copy. To forget closes up the file only
/// where that was asked for and something was really removed.
pub proof fn law_what_was_asked_is_done(asked: ResumeAsked)
    ensures
        asked.export ==> resume_action(asked) == ResumeAction::Export,
        !asked.export && asked.prune_completed ==> resume_action(asked) is Prune,
        resume_action(asked) matches ResumeAction::Prune { vacuum } ==> (vacuum <==> asked.vacuum
            && !asked.dry_run_prune),
        !asked.export && !asked.prune_completed && asked.list_sessions ==> resume_action(asked)
            == ResumeAction::List,
        !asked.export && !asked.prune_completed && !asked.list_sessions && asked.stats
            ==> resume_action(asked) == ResumeAction::Stats,
        resume_action(asked) matches ResumeAction::Plan { write, execute } ==> write
            == asked.write_plan && execute == asked.execute && (write || execute),
        resume_action(asked) == ResumeAction::Refuse <==> !asked.export && !asked.prune_completed
            && !asked.list_sessions && !asked.stats && !asked.write_plan && !asked.execute,
{
}

/// An entry is exported with what the session has of it; counts that are stored
/// as less than nothing are exported as nothing.
pub proof fn law_exports_tell_their_entry(
    row: ResumeItemExportRow,
    item: ResumeItem,
    session: Seq<char>,
)
    requires
        is_export_of(row, item, session),
    ensures
        row.session_id@ == session,
        row.rel_path@ == item.rel_path@,
        row.status@ == item.status@,
        item.attempts >= 0 ==> row.attempts == item.attempts,
        item.attempts < 0 ==> row.attempts == 0,
        item.bytes_done >= 0 ==> row.bytes_done == item.bytes_done,
        item.bytes_done < 0 ==> row.bytes_done == 0,
        opt_text(row.last_error) == opt_text(item.last_error),
        row.updated_at == item.updated_at,
{
}

/// The entries in a state are those of that state, each counted once.
pub proof fn law_states_are_counted(items: Seq<ResumeItem>, item: ResumeItem, s: Seq<char>)
    ensures
        item.status@ == s ==> in_state(items.push(item), s) == in_state(items, s) + 1,
        item.status@ != s ==> in_state(items.push(item), s) == in_state(items, s),
        in_state(Seq::empty(), s) == 0,
{
    reveal(Seq::filter);
    assert(items.push(item).drop_last() =~= items);
    assert(items.push(item).last() == item);
}

/// The session that is taken up is the one that is named, and the latest where
/// none is.
pub proof fn law_which_session_is_wanted(
    sessions: Seq<ResumeSessionListItem>,
    id: Seq<char>,
    i: int,
)
    requires
        0 <= i < sessions.len(),
    ensures
        is_wanted(sessions, Some(id), i) <==> sessions[i].session_id@ == id,
        is_wanted(sessions, None, i) <==> i == 0,
{
}

/// What a plan takes in bytes is at most what 64 bits hold.
pub proof fn law_bytes_of_a_plan_are_capped(n: nat)
    ensures
        n <= 0xffff_ffff_ffff_ffff ==> capped(n) == n,
        n > 0xffff_ffff_ffff_ffff ==> capped(n) == 0xffff_ffff_ffff_ffff,
{
}

/// What counts as recent is at least a minute.
pub proof fn law_recent_is_a_minute_at_least(minutes: i64)
    ensures
        minutes >= 1 ==> recent_minutes(minutes) == minutes,
        minutes < 1 ==> recent_minutes(minutes) == 1,
{
}

/// A rate is told of a copy that took time and copied something.
pub proof fn law_when_a_rate_is_told(bytes: i64, ns: i64)
    ensures
        tells_rate(Some((bytes, ns))) <==> bytes > 0 && ns > 0,
        !tells_rate(None),
{
}

} // verus!
