//! Laws of what a copy run does with an entry, told by what is known of it.

use crate::copy_run::{
    action_name, action_of, counted, destination_of, event_of, items_to_copy, mark_of, note_of,
    ruling, source_of, status_name, stop_of, CopyEventAction, CopyRunArgs, CopyTotals,
    DestinationLook, EntryKind, Existing, Known, LinkLook, Question, RegularCopyOutcome,
    ResumeStatus, Ruling,
};
use crate::filter::lemma_filter_all;
use crate::number::decimal;
use crate::path::path_join;
use crate::plan::{left_out, CopyPlanItem};
use crate::policy::ExcludePolicy;
use vstd::prelude::*;

verus! {

/// Whether a file is to be copied from a regular source to a place where a
/// regular file stands.
pub open spec fn meets_file(item: &CopyPlanItem, known: &Known, there: Existing) -> bool {
    &&& item.file_type@ != "symlink"@
    &&& known.source_is_file == Some(true)
    &&& known.source_stat is None
    &&& known.source_hash is None
    &&& known.destination == Some(DestinationLook::Present(there))
    &&& there.kind == EntryKind::File
}

/// A file is taken for the one that stands at the destination exactly where
/// their sizes agree, and their times do, or sizes alone count, or there is a
/// hash of the one which the other has. Before that is ruled, its hash is asked
/// for where it could tell.
pub proof fn law_same_file_is_told_by(
    item: &CopyPlanItem,
    args: &CopyRunArgs,
    known: &Known,
    there: Existing,
)
    requires
        meets_file(item, known, there),
    ensures
        ruling(item, args, known) == Ruling::SameFile ==> there.size == item.size && (there.mtime_ns
            == Some(item.mtime_ns) || args.size_only || (item.fast_hash is Some
            && known.destination_hash is Some && known.destination_hash->0@ == item.fast_hash->0@)),
        there.size == item.size && there.mtime_ns == Some(item.mtime_ns) ==> ruling(
            item,
            args,
            known,
        ) == Ruling::SameFile,
        there.size == item.size && item.fast_hash is Some && known.destination_hash is Some
            && known.destination_hash->0@ == item.fast_hash->0@ ==> ruling(item, args, known)
            == Ruling::SameFile,
        there.size == item.size && args.size_only && (item.fast_hash is None
            || known.destination_hash is Some) ==> ruling(item, args, known) == Ruling::SameFile,
        ruling(item, args, known) == Ruling::Ask(Question::DestinationHash) <==> there.size
            == item.size && there.mtime_ns != Some(item.mtime_ns) && item.fast_hash is Some
            && known.destination_hash is None,
{
}

/// A file that differs from the one at the destination is a conflict for a run
/// that may not overwrite. A dry run that may plans to copy it, and another one
/// copies it.
pub proof fn law_changed_file_is_replaced(
    item: &CopyPlanItem,
    args: &CopyRunArgs,
    known: &Known,
    there: Existing,
)
    requires
        meets_file(item, known, there),
        there.size != item.size || (there.mtime_ns != Some(item.mtime_ns) && !args.size_only && (
        item.fast_hash is None || (known.destination_hash is Some && known.destination_hash->0@
            != item.fast_hash->0@))),
    ensures
        !args.overwrite ==> ruling(item, args, known) == Ruling::OtherFile,
        args.overwrite && args.dry_run ==> ruling(item, args, known) == Ruling::CopyPlanned,
        args.overwrite && !args.dry_run ==> (match known.outcome {
            None => ruling(item, args, known) == Ruling::Ask(Question::CopyFile),
            Some(RegularCopyOutcome::Copied(_)) => ruling(item, args, known) == Ruling::Copied,
            Some(RegularCopyOutcome::LostRace) => ruling(item, args, known) == Ruling::LostRace,
            Some(RegularCopyOutcome::Failed(_)) => ruling(item, args, known) == Ruling::CopyFailed,
        }),
{
}

/// A file is copied where nothing stands; a dry run only plans it.
pub proof fn law_absent_file_is_copied(item: &CopyPlanItem, args: &CopyRunArgs, known: &Known)
    requires
        item.file_type@ != "symlink"@,
        known.source_is_file == Some(true),
        known.destination == Some(DestinationLook::Absent),
    ensures
        args.dry_run ==> ruling(item, args, known) == Ruling::CopyPlanned,
        !args.dry_run ==> (match known.outcome {
            None => ruling(item, args, known) == Ruling::Ask(Question::CopyFile),
            Some(RegularCopyOutcome::Copied(_)) => ruling(item, args, known) == Ruling::Copied,
            Some(RegularCopyOutcome::LostRace) => ruling(item, args, known) == Ruling::LostRace,
            Some(RegularCopyOutcome::Failed(_)) => ruling(item, args, known) == Ruling::CopyFailed,
        }),
{
}

/// What a run finds out first, and what it does where that settles the entry.
pub proof fn law_first_looks(item: &CopyPlanItem, args: &CopyRunArgs, known: &Known)
    ensures
        known.source_is_file is None <==> ruling(item, args, known) == Ruling::Ask(
            Question::SourceIsFile,
        ),
        known.source_is_file == Some(false) <==> ruling(item, args, known)
            == Ruling::SourceMissing,
        known.source_is_file == Some(true) && known.destination is None <==> ruling(
            item,
            args,
            known,
        ) == Ruling::Ask(Question::Destination),
        known.source_is_file == Some(true) && (known.destination matches Some(d)
            && d is Unavailable) <==> ruling(item, args, known) == Ruling::DestinationUnavailable,
{
}

/// A file does not replace what is no file.
pub proof fn law_only_a_file_is_replaced(
    item: &CopyPlanItem,
    args: &CopyRunArgs,
    known: &Known,
    there: Existing,
)
    requires
        item.file_type@ != "symlink"@,
        known.source_is_file == Some(true),
        known.destination == Some(DestinationLook::Present(there)),
    ensures
        ruling(item, args, known) == Ruling::NotAFile <==> there.kind != EntryKind::File,
{
}

/// A link that is copied as a link is compared by its target. It is made where
/// nothing stands, and replaces another link where a run may overwrite.
pub proof fn law_links_are_told_by_their_targets(
    item: &CopyPlanItem,
    args: &CopyRunArgs,
    known: &Known,
    target: String,
)
    requires
        item.file_type@ == "symlink"@,
        !args.copy_links_as_files,
        known.source_is_file == Some(true),
        known.source_link == Some(LinkLook::Target(target)),
    ensures
        known.destination == Some(DestinationLook::Absent) ==> ruling(item, args, known) == (
        if args.dry_run {
            Ruling::LinkPlanned
        } else if known.link_made {
            Ruling::LinkMade
        } else {
            Ruling::Ask(Question::MakeLink)
        }),
        known.destination matches Some(DestinationLook::Present(there)) ==> (ruling(
            item,
            args,
            known,
        ) == Ruling::NotALink <==> there.kind != EntryKind::Link),
        known.destination matches Some(DestinationLook::Present(there)) ==> (
        known.destination_link matches Some(LinkLook::Target(other)) ==> (there.kind
            == EntryKind::Link ==> {
            &&& (ruling(item, args, known) == Ruling::SameLink <==> other@ == target@)
            &&& other@ != target@ && !args.overwrite ==> ruling(item, args, known)
                == Ruling::OtherLink
            &&& other@ != target@ && args.overwrite ==> ruling(item, args, known) == (
            if args.dry_run {
                Ruling::LinkPlanned
            } else if known.link_made {
                Ruling::LinkMade
            } else {
                Ruling::Ask(Question::MakeLink)
            })
        })),
{
}

/// A link that is copied as what it leads to is told by the size and the time of
/// that, and by its hash where hashes are wanted.
pub proof fn law_links_as_files_are_told_by_what_they_lead_to(
    item: &CopyPlanItem,
    args: &CopyRunArgs,
    known: &Known,
    there: Existing,
)
    requires
        item.file_type@ == "symlink"@,
        args.copy_links_as_files,
        known.source_is_file == Some(true),
        known.destination == Some(DestinationLook::Present(there)),
        there.kind == EntryKind::File,
    ensures
        known.source_stat is None <==> ruling(item, args, known) == Ruling::Ask(
            Question::SourceStat,
        ),
        known.source_stat is Some && args.hash && known.source_hash is None <==> ruling(
            item,
            args,
            known,
        ) == Ruling::Ask(Question::SourceHash),
        ruling(item, args, known) == Ruling::SameFile ==> known.source_stat is Some && there.size
            == known.source_stat->0.size,
        known.source_stat is Some && (args.hash ==> known.source_hash is Some) && there.size
            == known.source_stat->0.size && known.source_stat->0.mtime_ns is Some && there.mtime_ns
            == known.source_stat->0.mtime_ns ==> ruling(item, args, known) == Ruling::SameFile,
        ruling(item, args, known) == Ruling::SameFile && !args.size_only
            && known.source_stat->0.mtime_ns is Some && there.mtime_ns
            != known.source_stat->0.mtime_ns && known.source_hash is Some ==> known.destination_hash
            is Some && known.destination_hash->0@ == known.source_hash->0@,
{
}

/// Under which name an entry goes into the log.
pub proof fn law_names_in_the_log(known: &Known, there: bool)
    requires
        there == (known.destination matches Some(d) && d is Present),
    ensures
        action_name(action_of(known, Ruling::SourceMissing)) == "source_missing"@,
        action_name(action_of(known, Ruling::SameFile)) == "skip_existing"@,
        action_name(action_of(known, Ruling::SameLink)) == "skip_existing"@,
        action_name(action_of(known, Ruling::LostRace)) == "skip_existing"@,
        action_name(action_of(known, Ruling::OtherFile)) == "skip_conflict"@,
        action_name(action_of(known, Ruling::OtherLink)) == "skip_conflict"@,
        action_name(action_of(known, Ruling::NotAFile)) == "skip_conflict"@,
        action_name(action_of(known, Ruling::NotALink)) == "skip_conflict"@,
        action_name(action_of(known, Ruling::CopyFailed)) == "fail"@,
        action_name(action_of(known, Ruling::DestinationUnavailable)) == "fail"@,
        action_name(action_of(known, Ruling::SourceLinkUnreadable)) == "fail"@,
        action_name(action_of(known, Ruling::DestinationLinkUnreadable)) == "fail"@,
        there ==> action_name(action_of(known, Ruling::Copied)) == "overwrite"@ && action_name(
            action_of(known, Ruling::CopyPlanned),
        ) == "overwrite"@ && action_name(action_of(known, Ruling::LinkMade)) == "overwrite"@
            && action_name(action_of(known, Ruling::LinkPlanned)) == "overwrite"@,
        !there ==> action_name(action_of(known, Ruling::Copied)) == "copy"@ && action_name(
            action_of(known, Ruling::CopyPlanned),
        ) == "copy"@ && action_name(action_of(known, Ruling::LinkMade)) == "copy"@ && action_name(
            action_of(known, Ruling::LinkPlanned),
        ) == "copy"@,
        action_name(CopyEventAction::Delete) == "delete"@,
{
}

/// What the log tells of an entry besides its action: the path, what stood there,
/// how the run went, and the bytes, which are those written where the file was
/// copied, and those of the source where it would be, or was in conflict.
pub proof fn law_log_tells_of_the_entry(
    item: &CopyPlanItem,
    args: &CopyRunArgs,
    known: &Known,
    ruled: Ruling,
)
    ensures
        event_of(item, args, known, ruled) is None <==> ruled == Ruling::CopyFailed
            && args.stop_on_error,
        event_of(item, args, known, ruled) matches Some(e) ==> {
            &&& e.schema_version == 2
            &&& e.rel_path == item.rel_path@
            &&& e.dry_run == args.dry_run
            &&& e.overwrite == args.overwrite
            &&& known.destination == Some(DestinationLook::Absent) ==> e.existing_bytes is None
            &&& known.destination matches Some(DestinationLook::Present(there)) ==> (ruled
                != Ruling::SourceMissing ==> e.existing_bytes == Some(there.size))
            &&& known.outcome matches Some(RegularCopyOutcome::Copied(n)) ==> (ruled
                == Ruling::Copied ==> e.bytes == n)
            &&& ruled == Ruling::CopyPlanned || ruled == Ruling::OtherFile ==> e.bytes == (
            match known.source_stat {
                Some(s) => s.size,
                None => item.size,
            })
            &&& ruled != Ruling::Copied && ruled != Ruling::CopyPlanned && ruled
                != Ruling::OtherFile ==> e.bytes == 0
            &&& e.reason is None <==> ruled is Ask || ruled == Ruling::SameLink || ruled
                == Ruling::SameFile || ruled == Ruling::LinkPlanned || ruled == Ruling::LinkMade
                || ruled == Ruling::CopyPlanned || ruled == Ruling::Copied
        },
{
}

/// The reasons that the log gives.
pub proof fn law_reasons_in_the_log(item: &CopyPlanItem, args: &CopyRunArgs, known: &Known)
    requires
        !args.stop_on_error,
    ensures
        event_of(item, args, known, Ruling::SourceMissing)->0.reason == Some(
            "source file missing"@,
        ),
        known.source_stat is None ==> event_of(item, args, known, Ruling::OtherFile)->0.reason
            == Some("destination conflict: existing size "@ + decimal(item.size as nat)),
        event_of(item, args, known, Ruling::NotAFile)->0.reason == Some(
            "destination path exists and is not a regular file"@,
        ),
        event_of(item, args, known, Ruling::NotALink)->0.reason == Some(
            "destination path exists and is not a symlink"@,
        ),
        event_of(item, args, known, Ruling::LostRace)->0.reason == Some(
            "destination appeared during copy"@,
        ),
        known.outcome matches Some(RegularCopyOutcome::Failed(e)) ==> event_of(
                item,
                args,
                known,
                Ruling::CopyFailed,
            )->0.reason == Some(e@),
        known.destination matches Some(DestinationLook::Unavailable(e)) ==> event_of(
                item,
                args,
                known,
                Ruling::DestinationUnavailable,
            )->0.reason == Some("destination metadata unavailable: "@ + e@),
        known.destination_link matches Some(LinkLook::Target(t)) ==> event_of(
                item,
                args,
                known,
                Ruling::OtherLink,
            )->0.reason == Some("destination conflict: existing symlink target "@ + t@),
        known.source_link matches Some(LinkLook::Unreadable(e)) ==> event_of(
                item,
                args,
                known,
                Ruling::SourceLinkUnreadable,
            )->0.reason == Some("failed reading symlink target: "@ + e@),
        known.destination_link matches Some(LinkLook::Unreadable(e)) ==> event_of(
                item,
                args,
                known,
                Ruling::DestinationLinkUnreadable,
            )->0.reason == Some("failed reading destination symlink target: "@ + e@),
{
}

/// What a resumable run notes: what was copied is done, with its bytes; what
/// failed can be tried again; what was skipped is not.
pub proof fn law_marks_tell_what_became(item: &CopyPlanItem, args: &CopyRunArgs, known: &Known)
    ensures
        known.outcome matches Some(RegularCopyOutcome::Copied(n)) ==> mark_of(
                item,
                args,
                known,
                Ruling::Copied,
            ) is Some && mark_of(item, args, known, Ruling::Copied)->0.status == ResumeStatus::Done
                && mark_of(item, args, known, Ruling::Copied)->0.bytes_done == n && mark_of(
                item,
                args,
                known,
                Ruling::Copied,
            )->0.error is None,
        mark_of(item, args, known, Ruling::SameFile) is Some,
        mark_of(item, args, known, Ruling::SameFile)->0.status == ResumeStatus::SkippedExisting,
        mark_of(item, args, known, Ruling::SameLink) is Some,
        mark_of(item, args, known, Ruling::SameLink)->0.status == ResumeStatus::SkippedExisting,
        mark_of(item, args, known, Ruling::LostRace) is Some,
        mark_of(item, args, known, Ruling::LostRace)->0.status == ResumeStatus::SkippedExisting,
        mark_of(item, args, known, Ruling::OtherFile) is Some,
        mark_of(item, args, known, Ruling::OtherFile)->0.status == ResumeStatus::SkippedConflict,
        mark_of(item, args, known, Ruling::OtherLink) is Some,
        mark_of(item, args, known, Ruling::OtherLink)->0.status == ResumeStatus::SkippedConflict,
        mark_of(item, args, known, Ruling::CopyPlanned) is Some,
        mark_of(item, args, known, Ruling::CopyPlanned)->0.status == ResumeStatus::Planned,
        known.source_stat is None ==> mark_of(item, args, known, Ruling::CopyPlanned)->0.bytes_done
            == item.size,
        mark_of(item, args, known, Ruling::LinkPlanned) is Some,
        mark_of(item, args, known, Ruling::LinkPlanned)->0.status == ResumeStatus::Planned,
        mark_of(item, args, known, Ruling::LinkPlanned)->0.bytes_done == 0,
        mark_of(item, args, known, Ruling::SourceMissing) is Some,
        mark_of(item, args, known, Ruling::SourceMissing)->0.status == ResumeStatus::Failed,
        mark_of(item, args, known, Ruling::SourceMissing)->0.error == Some("missing source"@),
        mark_of(item, args, known, Ruling::DestinationUnavailable) is Some,
        mark_of(item, args, known, Ruling::DestinationUnavailable)->0.status
            == ResumeStatus::Failed,
        mark_of(item, args, known, Ruling::CopyFailed) is None <==> args.stop_on_error,
        !args.stop_on_error ==> mark_of(item, args, known, Ruling::CopyFailed)->0.status
            == ResumeStatus::Failed,
        known.outcome matches Some(RegularCopyOutcome::Failed(e)) ==> (!args.stop_on_error
            ==> mark_of(item, args, known, Ruling::CopyFailed)->0.error == Some(e@)),
        mark_of(item, args, known, Ruling::LinkMade) is None,
        mark_of(item, args, known, Ruling::NotAFile) is None,
        mark_of(item, args, known, Ruling::NotALink) is None,
{
}

/// The names of the states.
pub proof fn law_names_of_states()
    ensures
        status_name(ResumeStatus::Pending) == "pending"@,
        status_name(ResumeStatus::Copying) == "copying"@,
        status_name(ResumeStatus::Failed) == "failed"@,
        status_name(ResumeStatus::Done) == "done"@,
        status_name(ResumeStatus::SkippedExisting) == "skipped_existing"@,
        status_name(ResumeStatus::SkippedConflict) == "skipped_conflict"@,
        status_name(ResumeStatus::Planned) == "planned"@,
{
}

/// What each entry adds to the totals.
pub proof fn law_totals_count_each_entry(
    before: CopyTotals,
    after: CopyTotals,
    item: &CopyPlanItem,
    known: &Known,
    ruled: Ruling,
)
    requires
        counted(before, after, item, known, ruled),
        !(ruled is Ask),
    ensures
        after.copied - before.copied == (if ruled == Ruling::Copied || ruled == Ruling::CopyPlanned
            || ruled == Ruling::LinkMade || ruled == Ruling::LinkPlanned {
            1int
        } else {
            0
        }),
        after.skipped_existing - before.skipped_existing == (if ruled == Ruling::SameFile || ruled
            == Ruling::SameLink || ruled == Ruling::LostRace {
            1int
        } else {
            0
        }),
        after.skipped_conflict - before.skipped_conflict == (if ruled == Ruling::OtherFile || ruled
            == Ruling::OtherLink || ruled == Ruling::NotAFile || ruled == Ruling::NotALink {
            1int
        } else {
            0
        }),
        after.missing_source - before.missing_source == (if ruled == Ruling::SourceMissing {
            1int
        } else {
            0
        }),
        after.failed - before.failed == (if ruled == Ruling::SourceMissing || ruled
            == Ruling::CopyFailed || ruled == Ruling::DestinationUnavailable || ruled
            == Ruling::SourceLinkUnreadable || ruled == Ruling::DestinationLinkUnreadable {
            1int
        } else {
            0
        }),
        known.destination == Some(DestinationLook::Absent) ==> after.overwritten
            == before.overwritten,
        (known.destination matches Some(d) && d is Present) && (ruled == Ruling::Copied || ruled
            == Ruling::CopyPlanned || ruled == Ruling::LinkMade || ruled == Ruling::LinkPlanned)
            ==> after.overwritten == before.overwritten + 1,
        known.outcome matches Some(RegularCopyOutcome::Copied(n)) ==> (ruled == Ruling::Copied
            ==> after.copied_bytes == before.copied_bytes + n),
        ruled == Ruling::CopyPlanned && known.source_stat is None ==> after.copied_bytes
            == before.copied_bytes + item.size,
        ruled != Ruling::Copied && ruled != Ruling::CopyPlanned ==> after.copied_bytes
            == before.copied_bytes,
{
}

/// A failure ends a run that is to stop at failures, and is told of by any other;
/// nothing else is or does.
pub proof fn law_failures_stop_or_are_told(
    item: &CopyPlanItem,
    args: &CopyRunArgs,
    known: &Known,
    ruled: Ruling,
)
    ensures
        stop_of(item, args, ruled) is Some <==> args.stop_on_error && (ruled
            == Ruling::SourceMissing || ruled == Ruling::DestinationUnavailable || ruled
            == Ruling::SourceLinkUnreadable || ruled == Ruling::DestinationLinkUnreadable || ruled
            == Ruling::CopyFailed),
        note_of(item, args, known, ruled) is Some <==> !args.stop_on_error && (ruled
            == Ruling::SourceMissing || ruled == Ruling::DestinationUnavailable || ruled
            == Ruling::SourceLinkUnreadable || ruled == Ruling::DestinationLinkUnreadable || ruled
            == Ruling::CopyFailed),
        args.stop_on_error && ruled == Ruling::CopyFailed ==> stop_of(item, args, ruled) == Some(
            "failed copying "@ + path_join(args.source_root@, item.rel_path@),
        ),
        args.stop_on_error && ruled == Ruling::SourceMissing ==> stop_of(item, args, ruled) == Some(
            "missing source file: "@ + path_join(args.source_root@, item.rel_path@),
        ),
        !args.stop_on_error && ruled == Ruling::SourceMissing ==> note_of(item, args, known, ruled)
            == Some("[err] missing source file: "@ + path_join(args.source_root@, item.rel_path@)),
{
}

/// Every entry that the policy lets through is copied, in the plan's order;
/// without a policy all are.
pub proof fn law_let_through_is_copied(
    items: Seq<CopyPlanItem>,
    policy: Option<&ExcludePolicy>,
    item: CopyPlanItem,
)
    ensures
        items_to_copy(items, policy).contains(item) <==> items.contains(item) && (policy is None
            || !left_out(item.rel_path@, policy)),
        policy is None ==> items_to_copy(items, policy) == items,
        items_to_copy(items, policy).len() <= items.len(),
        items.len() > 0 ==> items_to_copy(items, policy) == if left_out(
            items.last().rel_path@,
            policy,
        ) {
            items_to_copy(items.drop_last(), policy)
        } else {
            items_to_copy(items.drop_last(), policy).push(items.last())
        },
{
    let keep = |item: CopyPlanItem| !left_out(item.rel_path@, policy);
    let kept = items_to_copy(items, policy);
    if kept.contains(item) {
        items.lemma_filter_pred(keep, kept.index_of(item));
        items.lemma_filter_contains_rev(keep, item);
    }
    if items.contains(item) && !left_out(item.rel_path@, policy) {
        items.lemma_filter_contains(keep, items.index_of(item));
    }
    if policy is None {
        lemma_filter_all(items, keep);
    }
    items.lemma_filter_len(keep);
    reveal(Seq::filter);
}

/// An entry is copied from its path below the source to the same path below the
/// destination.
pub proof fn law_entries_keep_their_paths(item: &CopyPlanItem, args: &CopyRunArgs)
    requires
        item.rel_path@.len() > 0,
        item.rel_path@[0] != '/',
    ensures
        args.source_root@.len() > 0 && args.source_root@.last() != '/' ==> source_of(item, args)
            == args.source_root@ + seq!['/'] + item.rel_path@,
        args.source_root@.len() > 0 && args.source_root@.last() == '/' ==> source_of(item, args)
            == args.source_root@ + item.rel_path@,
        args.destination_root@.len() > 0 && args.destination_root@.last() != '/'
            ==> destination_of(item, args) == args.destination_root@ + seq!['/'] + item.rel_path@,
        args.destination_root@.len() > 0 && args.destination_root@.last() == '/'
            ==> destination_of(item, args) == args.destination_root@ + item.rel_path@,
{
}

} // verus!
