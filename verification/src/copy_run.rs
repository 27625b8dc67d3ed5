//! What a copy run does with each entry of a plan.
//!
//! A run goes through its entries one by one. For each entry it asks what it
//! has to know, one question after another, until what is known settles the
//! entry.

use crate::filter::{lemma_filter_start, lemma_filter_step};
use crate::number::{decimal, decimal_chars};
use crate::path::{join_path, path_join};
use crate::plan::{left_out, CopyPlan, CopyPlanItem};
use crate::policy::{should_exclude_path, ExcludePolicy};
use crate::progress::{CopyExecutionSummary, CopyProgressSnapshot};
use crate::text::{
    concat2, concat3, concat4, extend, extend_str, from_chars, opt_text, same, to_chars,
};
use vstd::prelude::*;

verus! {

/// How a run copies.
#[derive(Debug)]
pub struct CopyRunArgs {
    pub source_root: String,
    pub destination_root: String,
    pub backup_dir: Option<String>,
    pub overwrite: bool,
    pub dry_run: bool,
    pub stop_on_error: bool,
    pub log: Option<String>,
    pub progress_every: usize,
    pub size_only: bool,
    pub hash: bool,
    pub copy_links_as_files: bool,
}

// ---------------------------------------------------------------------------
// What is known of an entry
// ---------------------------------------------------------------------------

/// What stands at a path.
#[derive(Clone, Copy, Debug, PartialEq, Eq, Structural)]
pub enum EntryKind {
    File,
    Link,
    Other,
}

/// What stands at the destination.
#[derive(Clone, Copy, Debug, PartialEq, Eq, Structural)]
pub struct Existing {
    pub kind: EntryKind,
    pub size: u64,
    pub mtime_ns: Option<i64>,
}

/// A look at the destination.
#[derive(Debug)]
pub enum DestinationLook {
    Absent,
    Present(Existing),
    Unavailable(String),
}

/// A look at a link.
#[derive(Debug)]
pub enum LinkLook {
    Target(String),
    Unreadable(String),
}

/// The size and the time of what a link leads to.
#[derive(Clone, Copy, Debug, PartialEq, Eq, Structural)]
pub struct SourceStat {
    pub size: u64,
    pub mtime_ns: Option<i64>,
}

/// How the copying of a file ended.
#[derive(Debug)]
pub enum RegularCopyOutcome {
    Copied(u64),
    LostRace,
    Failed(String),
}

/// What is known of an entry.
#[derive(Debug)]
pub struct Known {
    pub source_is_file: Option<bool>,
    pub destination: Option<DestinationLook>,
    pub source_stat: Option<SourceStat>,
    pub source_hash: Option<String>,
    pub source_link: Option<LinkLook>,
    pub destination_link: Option<LinkLook>,
    pub destination_hash: Option<String>,
    pub link_made: bool,
    pub outcome: Option<RegularCopyOutcome>,
}

impl Known {
    /// Nothing is known.
    pub fn nothing() -> (r: Self)
        ensures
            forall|q: Question| !#[trigger] answered(&r, q),
    {
        Known {
            source_is_file: None,
            destination: None,
            source_stat: None,
            source_hash: None,
            source_link: None,
            destination_link: None,
            destination_hash: None,
            link_made: false,
            outcome: None,
        }
    }
}

/// What a run has to know, or to have done, before it can go on.
#[derive(Clone, Copy, Debug, PartialEq, Eq, Structural)]
pub enum Question {
    SourceIsFile,
    Destination,
    SourceStat,
    SourceHash,
    SourceLink,
    DestinationLink,
    DestinationHash,
    MakeLink,
    CopyFile,
}

/// Whether a question has its answer.
pub open spec fn answered(known: &Known, q: Question) -> bool {
    match q {
        Question::SourceIsFile => known.source_is_file is Some,
        Question::Destination => known.destination is Some,
        Question::SourceStat => known.source_stat is Some,
        Question::SourceHash => known.source_hash is Some,
        Question::SourceLink => known.source_link is Some,
        Question::DestinationLink => known.destination_link is Some,
        Question::DestinationHash => known.destination_hash is Some,
        Question::MakeLink => known.link_made,
        Question::CopyFile => known.outcome is Some,
    }
}

/// Whether a question asks for something to be written.
pub open spec fn writes(q: Question) -> bool {
    q == Question::MakeLink || q == Question::CopyFile
}

// ---------------------------------------------------------------------------
// Rulings
// ---------------------------------------------------------------------------

/// What is known of an entry comes to one of these.
#[derive(Clone, Copy, Debug, PartialEq, Eq, Structural)]
pub enum Ruling {
    /// It is not settled yet.
    Ask(Question),
    SourceMissing,
    DestinationUnavailable,
    SourceLinkUnreadable,
    DestinationLinkUnreadable,
    /// The link is there already.
    SameLink,
    /// Another link is there.
    OtherLink,
    /// Something is there that is no link.
    NotALink,
    /// A dry run would make the link.
    LinkPlanned,
    LinkMade,
    /// The file is there already.
    SameFile,
    /// Another file is there.
    OtherFile,
    /// Something is there that is no file.
    NotAFile,
    /// A dry run would copy the file.
    CopyPlanned,
    Copied,
    /// Something appeared at the destination during the copy.
    LostRace,
    CopyFailed,
}

pub open spec fn is_symlink(item: &CopyPlanItem) -> bool {
    item.file_type@ == "symlink"@
}

/// What stands at the destination, where it could be looked at.
pub open spec fn existing(known: &Known) -> Option<Existing> {
    match known.destination {
        Some(DestinationLook::Present(e)) => Some(e),
        _ => None,
    }
}

/// The size of what is copied.
pub open spec fn source_size(item: &CopyPlanItem, known: &Known) -> u64 {
    match known.source_stat {
        Some(s) => s.size,
        None => item.size,
    }
}

/// The time of what is copied.
pub open spec fn source_mtime(item: &CopyPlanItem, known: &Known) -> i64 {
    match known.source_stat {
        Some(s) => match s.mtime_ns {
            Some(t) => t,
            None => item.mtime_ns,
        },
        None => item.mtime_ns,
    }
}

/// The hash that a copy must have, where there is one to hold it to.
pub open spec fn expected_hash(item: &CopyPlanItem, known: &Known) -> Option<Seq<char>> {
    match known.source_hash {
        Some(h) => Some(h@),
        None => opt_text(item.fast_hash),
    }
}

/// Whether a file has the size and the time of what is copied.
pub open spec fn same_time(item: &CopyPlanItem, known: &Known, e: Existing) -> bool {
    e.mtime_ns == Some(source_mtime(item, known))
}

/// Whether the file at the destination is the one to copy: it has its size,
/// and its time, or its hash, or sizes alone count.
pub open spec fn is_same_file(
    item: &CopyPlanItem,
    args: &CopyRunArgs,
    known: &Known,
    e: Existing,
) -> bool {
    e.size == source_size(item, known) && (same_time(item, known, e) || args.size_only || (
    expected_hash(item, known) is Some && opt_text(known.destination_hash) == expected_hash(
        item,
        known,
    )))
}

/// Whether the hash of the file at the destination has to be known.
pub open spec fn hash_matters(item: &CopyPlanItem, known: &Known, e: Existing) -> bool {
    e.size == source_size(item, known) && !same_time(item, known, e) && expected_hash(
        item,
        known,
    ) is Some
}

/// The ruling on a link that is copied as a link.
pub open spec fn link_ruling(args: &CopyRunArgs, known: &Known) -> Ruling {
    match known.source_link {
        None => Ruling::Ask(Question::SourceLink),
        Some(LinkLook::Unreadable(_)) => Ruling::SourceLinkUnreadable,
        Some(LinkLook::Target(target)) => match existing(known) {
            None => link_making(args, known),
            Some(e) => if e.kind != EntryKind::Link {
                Ruling::NotALink
            } else {
                match known.destination_link {
                    None => Ruling::Ask(Question::DestinationLink),
                    Some(LinkLook::Unreadable(_)) => Ruling::DestinationLinkUnreadable,
                    Some(LinkLook::Target(there)) => if there@ == target@ {
                        Ruling::SameLink
                    } else if !args.overwrite {
                        Ruling::OtherLink
                    } else {
                        link_making(args, known)
                    },
                }
            },
        },
    }
}

/// The ruling on a link that is to be made.
pub open spec fn link_making(args: &CopyRunArgs, known: &Known) -> Ruling {
    if args.dry_run {
        Ruling::LinkPlanned
    } else if known.link_made {
        Ruling::LinkMade
    } else {
        Ruling::Ask(Question::MakeLink)
    }
}

/// The ruling on a file, or on what a link leads to.
pub open spec fn file_ruling(item: &CopyPlanItem, args: &CopyRunArgs, known: &Known) -> Ruling {
    match existing(known) {
        None => copying(args, known),
        Some(e) => if e.kind != EntryKind::File {
            Ruling::NotAFile
        } else if hash_matters(item, known, e) && known.destination_hash is None {
            Ruling::Ask(Question::DestinationHash)
        } else if is_same_file(item, args, known, e) {
            Ruling::SameFile
        } else if !args.overwrite {
            Ruling::OtherFile
        } else {
            copying(args, known)
        },
    }
}

/// The ruling on a file that is to be copied.
pub open spec fn copying(args: &CopyRunArgs, known: &Known) -> Ruling {
    if args.dry_run {
        Ruling::CopyPlanned
    } else {
        match known.outcome {
            None => Ruling::Ask(Question::CopyFile),
            Some(RegularCopyOutcome::Copied(_)) => Ruling::Copied,
            Some(RegularCopyOutcome::LostRace) => Ruling::LostRace,
            Some(RegularCopyOutcome::Failed(_)) => Ruling::CopyFailed,
        }
    }
}

/// What is known of an entry comes to this.
pub open spec fn ruling(item: &CopyPlanItem, args: &CopyRunArgs, known: &Known) -> Ruling {
    match (known.source_is_file, known.destination) {
        (None, _) => Ruling::Ask(Question::SourceIsFile),
        (Some(false), _) => Ruling::SourceMissing,
        (Some(true), None) => Ruling::Ask(Question::Destination),
        (Some(true), Some(DestinationLook::Unavailable(_))) => Ruling::DestinationUnavailable,
        (Some(true), Some(_)) => if is_symlink(item) && !args.copy_links_as_files {
            link_ruling(args, known)
        } else if is_symlink(item) && known.source_stat is None {
            Ruling::Ask(Question::SourceStat)
        } else if is_symlink(item) && args.hash && known.source_hash is None {
            Ruling::Ask(Question::SourceHash)
        } else {
            file_ruling(item, args, known)
        },
    }
}

fn make_link(args: &CopyRunArgs, known: &Known) -> (r: Ruling)
    ensures
        r == link_making(args, known),
{
    if args.dry_run {
        Ruling::LinkPlanned
    } else if known.link_made {
        Ruling::LinkMade
    } else {
        Ruling::Ask(Question::MakeLink)
    }
}

fn rule_link(args: &CopyRunArgs, known: &Known) -> (r: Ruling)
    ensures
        r == link_ruling(args, known),
{
    let target = match &known.source_link {
        None => {
            return Ruling::Ask(Question::SourceLink);
        },
        Some(LinkLook::Unreadable(_)) => {
            return Ruling::SourceLinkUnreadable;
        },
        Some(LinkLook::Target(target)) => target,
    };
    if let Some(DestinationLook::Present(e)) = &known.destination {
        if e.kind != EntryKind::Link {
            return Ruling::NotALink;
        }
        match &known.destination_link {
            None => {
                return Ruling::Ask(Question::DestinationLink);
            },
            Some(LinkLook::Unreadable(_)) => {
                return Ruling::DestinationLinkUnreadable;
            },
            Some(LinkLook::Target(there)) => {
                if same(there.as_str(), target.as_str()) {
                    return Ruling::SameLink;
                }
                if !args.overwrite {
                    return Ruling::OtherLink;
                }
            },
        }
    }
    make_link(args, known)
}

fn make_copy(args: &CopyRunArgs, known: &Known) -> (r: Ruling)
    ensures
        r == copying(args, known),
{
    if args.dry_run {
        return Ruling::CopyPlanned;
    }
    match &known.outcome {
        None => Ruling::Ask(Question::CopyFile),
        Some(RegularCopyOutcome::Copied(_)) => Ruling::Copied,
        Some(RegularCopyOutcome::LostRace) => Ruling::LostRace,
        Some(RegularCopyOutcome::Failed(_)) => Ruling::CopyFailed,
    }
}

fn size_to_copy(item: &CopyPlanItem, known: &Known) -> (r: u64)
    ensures
        r == source_size(item, known),
{
    match &known.source_stat {
        Some(s) => s.size,
        None => item.size,
    }
}

fn time_to_copy(item: &CopyPlanItem, known: &Known) -> (r: i64)
    ensures
        r == source_mtime(item, known),
{
    match &known.source_stat {
        Some(s) => match s.mtime_ns {
            Some(t) => t,
            None => item.mtime_ns,
        },
        None => item.mtime_ns,
    }
}

fn hash_to_copy<'a>(item: &'a CopyPlanItem, known: &'a Known) -> (r: Option<&'a String>)
    ensures
        (match r {
            Some(h) => Some(h@),
            None => None,
        }) == expected_hash(item, known),
{
    match &known.source_hash {
        Some(h) => Some(h),
        None => match &item.fast_hash {
            Some(h) => Some(h),
            None => None,
        },
    }
}

fn rule_file(item: &CopyPlanItem, args: &CopyRunArgs, known: &Known) -> (r: Ruling)
    ensures
        r == file_ruling(item, args, known),
{
    if let Some(DestinationLook::Present(e)) = &known.destination {
        if e.kind != EntryKind::File {
            return Ruling::NotAFile;
        }
        if e.size == size_to_copy(item, known) {
            let right_time = match e.mtime_ns {
                Some(t) => t == time_to_copy(item, known),
                None => false,
            };
            let mut right = right_time;
            if !right_time {
                if let Some(wanted) = hash_to_copy(item, known) {
                    match &known.destination_hash {
                        None => {
                            return Ruling::Ask(Question::DestinationHash);
                        },
                        Some(h) => {
                            right = same(h.as_str(), wanted.as_str());
                        },
                    }
                }
            }
            if right || args.size_only {
                return Ruling::SameFile;
            }
        }
        if !args.overwrite {
            return Ruling::OtherFile;
        }
    }
    make_copy(args, known)
}

/// What to do with an entry, by what is known of it.
pub fn rule(item: &CopyPlanItem, args: &CopyRunArgs, known: &Known) -> (r: Ruling)
    ensures
        r == ruling(item, args, known),
{
    match known.source_is_file {
        None => {
            return Ruling::Ask(Question::SourceIsFile);
        },
        Some(there) => {
            if !there {
                return Ruling::SourceMissing;
            }
        },
    }
    match &known.destination {
        None => {
            return Ruling::Ask(Question::Destination);
        },
        Some(DestinationLook::Unavailable(_)) => {
            return Ruling::DestinationUnavailable;
        },
        _ => {},
    }
    if same(item.file_type.as_str(), "symlink") {
        if !args.copy_links_as_files {
            return rule_link(args, known);
        }
        if known.source_stat.is_none() {
            return Ruling::Ask(Question::SourceStat);
        }
        if args.hash && known.source_hash.is_none() {
            return Ruling::Ask(Question::SourceHash);
        }
    }
    rule_file(item, args, known)
}

// ---------------------------------------------------------------------------
// Events
// ---------------------------------------------------------------------------

/// What an event tells of.
#[derive(Clone, Copy, Debug, PartialEq, Eq, Structural)]
pub enum CopyEventAction {
    SourceMissing,
    SkipExisting,
    SkipConflict,
    Copy,
    Overwrite,
    Delete,
    Fail,
}

/// The name of an action in the log.
pub open spec fn action_name(action: CopyEventAction) -> Seq<char> {
    match action {
        CopyEventAction::SourceMissing => "source_missing"@,
        CopyEventAction::SkipExisting => "skip_existing"@,
        CopyEventAction::SkipConflict => "skip_conflict"@,
        CopyEventAction::Copy => "copy"@,
        CopyEventAction::Overwrite => "overwrite"@,
        CopyEventAction::Delete => "delete"@,
        CopyEventAction::Fail => "fail"@,
    }
}

impl CopyEventAction {
    /// The name of the action in the log.
    pub fn name(&self) -> (r: &'static str)
        ensures
            r@ == action_name(*self),
    {
        match self {
            CopyEventAction::SourceMissing => "source_missing",
            CopyEventAction::SkipExisting => "skip_existing",
            CopyEventAction::SkipConflict => "skip_conflict",
            CopyEventAction::Copy => "copy",
            CopyEventAction::Overwrite => "overwrite",
            CopyEventAction::Delete => "delete",
            CopyEventAction::Fail => "fail",
        }
    }
}

/// A line of the log.
#[derive(Debug)]
pub struct CopyEvent {
    pub schema_version: u32,
    pub rel_path: String,
    pub action: CopyEventAction,
    pub existing_bytes: Option<u64>,
    pub bytes: u64,
    pub dry_run: bool,
    pub overwrite: bool,
    pub reason: Option<String>,
}

/// A line of the log as a value of specifications.
pub struct EventText {
    pub schema_version: u32,
    pub rel_path: Seq<char>,
    pub action: CopyEventAction,
    pub existing_bytes: Option<u64>,
    pub bytes: u64,
    pub dry_run: bool,
    pub overwrite: bool,
    pub reason: Option<Seq<char>>,
}

impl CopyEvent {
    pub open spec fn view(&self) -> EventText {
        EventText {
            schema_version: self.schema_version,
            rel_path: self.rel_path@,
            action: self.action,
            existing_bytes: self.existing_bytes,
            bytes: self.bytes,
            dry_run: self.dry_run,
            overwrite: self.overwrite,
            reason: opt_text(self.reason),
        }
    }
}

/// The state of an entry in a resumable run.
#[derive(Clone, Copy, Debug, PartialEq, Eq, Structural)]
pub enum ResumeStatus {
    Pending,
    Copying,
    Failed,
    Done,
    SkippedExisting,
    SkippedConflict,
    Planned,
}

/// The name of a state.
pub open spec fn status_name(status: ResumeStatus) -> Seq<char> {
    match status {
        ResumeStatus::Pending => "pending"@,
        ResumeStatus::Copying => "copying"@,
        ResumeStatus::Failed => "failed"@,
        ResumeStatus::Done => "done"@,
        ResumeStatus::SkippedExisting => "skipped_existing"@,
        ResumeStatus::SkippedConflict => "skipped_conflict"@,
        ResumeStatus::Planned => "planned"@,
    }
}

impl ResumeStatus {
    /// The name of the state.
    pub fn name(&self) -> (r: &'static str)
        ensures
            r@ == status_name(*self),
    {
        match self {
            ResumeStatus::Pending => "pending",
            ResumeStatus::Copying => "copying",
            ResumeStatus::Failed => "failed",
            ResumeStatus::Done => "done",
            ResumeStatus::SkippedExisting => "skipped_existing",
            ResumeStatus::SkippedConflict => "skipped_conflict",
            ResumeStatus::Planned => "planned",
        }
    }
}

/// What is noted of an entry in a resumable run.
#[derive(Debug)]
pub struct ResumeMark {
    pub status: ResumeStatus,
    pub bytes_done: u64,
    pub error: Option<String>,
}

/// A note as a value of specifications.
pub struct MarkText {
    pub status: ResumeStatus,
    pub bytes_done: u64,
    pub error: Option<Seq<char>>,
}

impl ResumeMark {
    pub open spec fn view(&self) -> MarkText {
        MarkText { status: self.status, bytes_done: self.bytes_done, error: opt_text(self.error) }
    }
}

/// What an entry counts as.
pub open spec fn action_of(known: &Known, ruling: Ruling) -> CopyEventAction {
    match ruling {
        Ruling::SourceMissing => CopyEventAction::SourceMissing,
        Ruling::SameLink | Ruling::SameFile | Ruling::LostRace => CopyEventAction::SkipExisting,
        Ruling::OtherLink
        | Ruling::NotALink
        | Ruling::OtherFile
        | Ruling::NotAFile => CopyEventAction::SkipConflict,
        Ruling::LinkPlanned | Ruling::LinkMade | Ruling::CopyPlanned | Ruling::Copied => {
            if existing(known) is Some {
                CopyEventAction::Overwrite
            } else {
                CopyEventAction::Copy
            }
        },
        _ => CopyEventAction::Fail,
    }
}

fn action_for(known: &Known, ruling: Ruling) -> (r: CopyEventAction)
    ensures
        r == action_of(known, ruling),
{
    match ruling {
        Ruling::SourceMissing => CopyEventAction::SourceMissing,
        Ruling::SameLink | Ruling::SameFile | Ruling::LostRace => CopyEventAction::SkipExisting,
        Ruling::OtherLink
        | Ruling::NotALink
        | Ruling::OtherFile
        | Ruling::NotAFile => CopyEventAction::SkipConflict,
        Ruling::LinkPlanned | Ruling::LinkMade | Ruling::CopyPlanned | Ruling::Copied => {
            if existing_entry(known).is_some() {
                CopyEventAction::Overwrite
            } else {
                CopyEventAction::Copy
            }
        },
        _ => CopyEventAction::Fail,
    }
}

fn existing_entry(known: &Known) -> (r: Option<Existing>)
    ensures
        r == existing(known),
{
    match &known.destination {
        Some(DestinationLook::Present(e)) => Some(*e),
        _ => None,
    }
}

/// The bytes that an entry stands for.
pub open spec fn bytes_of(item: &CopyPlanItem, known: &Known, ruling: Ruling) -> u64 {
    match ruling {
        Ruling::OtherFile | Ruling::CopyPlanned => source_size(item, known),
        Ruling::Copied => written(known),
        _ => 0,
    }
}

/// The bytes that were written.
pub open spec fn written(known: &Known) -> u64 {
    match known.outcome {
        Some(RegularCopyOutcome::Copied(n)) => n,
        _ => 0,
    }
}

fn bytes_written(known: &Known) -> (r: u64)
    ensures
        r == written(known),
{
    match &known.outcome {
        Some(RegularCopyOutcome::Copied(n)) => *n,
        _ => 0,
    }
}

fn bytes_for(item: &CopyPlanItem, known: &Known, ruling: Ruling) -> (r: u64)
    ensures
        r == bytes_of(item, known, ruling),
{
    match ruling {
        Ruling::OtherFile | Ruling::CopyPlanned => size_to_copy(item, known),
        Ruling::Copied => bytes_written(known),
        _ => 0,
    }
}

/// What went wrong, in the words of the system.
pub open spec fn error_of(known: &Known, ruling: Ruling) -> Seq<char> {
    match ruling {
        Ruling::DestinationUnavailable => match known.destination {
            Some(DestinationLook::Unavailable(e)) => e@,
            _ => Seq::empty(),
        },
        Ruling::SourceLinkUnreadable => match known.source_link {
            Some(LinkLook::Unreadable(e)) => e@,
            _ => Seq::empty(),
        },
        Ruling::DestinationLinkUnreadable => match known.destination_link {
            Some(LinkLook::Unreadable(e)) => e@,
            _ => Seq::empty(),
        },
        Ruling::CopyFailed => match known.outcome {
            Some(RegularCopyOutcome::Failed(e)) => e@,
            _ => Seq::empty(),
        },
        _ => Seq::empty(),
    }
}

fn error_for(known: &Known, ruling: Ruling) -> (r: String)
    ensures
        r@ == error_of(known, ruling),
{
    match ruling {
        Ruling::DestinationUnavailable => if let Some(DestinationLook::Unavailable(e)) =
            &known.destination {
            return e.clone();
        },
        Ruling::SourceLinkUnreadable => if let Some(LinkLook::Unreadable(e)) = &known.source_link {
            return e.clone();
        },
        Ruling::DestinationLinkUnreadable => if let Some(LinkLook::Unreadable(e)) =
            &known.destination_link {
            return e.clone();
        },
        Ruling::CopyFailed => if let Some(RegularCopyOutcome::Failed(e)) = &known.outcome {
            return e.clone();
        },
        _ => {},
    }
    let nothing: Vec<char> = Vec::new();
    assert(nothing@ =~= Seq::empty());
    from_chars(&nothing)
}

/// Where the link at the destination leads.
pub open spec fn link_there(known: &Known) -> Seq<char> {
    match known.destination_link {
        Some(LinkLook::Target(t)) => t@,
        _ => Seq::empty(),
    }
}

/// Why an entry was not copied. The size that a conflict is told with is that of
/// the file to copy.
pub open spec fn reason_of(item: &CopyPlanItem, known: &Known, ruling: Ruling) -> Option<Seq<char>> {
    match ruling {
        Ruling::SourceMissing => Some("source file missing"@),
        Ruling::DestinationUnavailable => Some(
            "destination metadata unavailable: "@ + error_of(known, ruling),
        ),
        Ruling::SourceLinkUnreadable => Some(
            "failed reading symlink target: "@ + error_of(known, ruling),
        ),
        Ruling::DestinationLinkUnreadable => Some(
            "failed reading destination symlink target: "@ + error_of(known, ruling),
        ),
        Ruling::OtherLink => Some(
            "destination conflict: existing symlink target "@ + link_there(known),
        ),
        Ruling::NotALink => Some("destination path exists and is not a symlink"@),
        Ruling::OtherFile => Some(
            "destination conflict: existing size "@ + decimal(source_size(item, known) as nat),
        ),
        Ruling::NotAFile => Some("destination path exists and is not a regular file"@),
        Ruling::LostRace => Some("destination appeared during copy"@),
        Ruling::CopyFailed => Some(error_of(known, ruling)),
        _ => None,
    }
}

fn reason_for(item: &CopyPlanItem, known: &Known, ruling: Ruling) -> (r: Option<String>)
    ensures
        opt_text(r) == reason_of(item, known, ruling),
{
    match ruling {
        Ruling::SourceMissing => Some(plain("source file missing")),
        Ruling::DestinationUnavailable => Some(
            concat2("destination metadata unavailable: ", error_for(known, ruling).as_str()),
        ),
        Ruling::SourceLinkUnreadable => Some(
            concat2("failed reading symlink target: ", error_for(known, ruling).as_str()),
        ),
        Ruling::DestinationLinkUnreadable => Some(
            concat2("failed reading destination symlink target: ", error_for(known, ruling).as_str()),
        ),
        Ruling::OtherLink => {
            let lead = "destination conflict: existing symlink target ";
            if let Some(LinkLook::Target(t)) = &known.destination_link {
                Some(concat2(lead, t.as_str()))
            } else {
                proof {
                    reveal_strlit("");
                    assert(""@ =~= Seq::empty());
                }
                Some(concat2(lead, ""))
            }
        },
        Ruling::NotALink => Some(plain("destination path exists and is not a symlink")),
        Ruling::OtherFile => {
            let mut out = to_chars("destination conflict: existing size ");
            extend(&mut out, &decimal_chars(size_to_copy(item, known) as u128));
            Some(from_chars(&out))
        },
        Ruling::NotAFile => Some(plain("destination path exists and is not a regular file")),
        Ruling::LostRace => Some(plain("destination appeared during copy")),
        Ruling::CopyFailed => Some(error_for(known, ruling)),
        _ => None,
    }
}

fn plain(s: &str) -> (r: String)
    ensures
        r@ == s@,
{
    from_chars(&to_chars(s))
}

/// The line of the log for an entry. A failed copy that ends the run has none.
pub open spec fn event_of(
    item: &CopyPlanItem,
    args: &CopyRunArgs,
    known: &Known,
    ruling: Ruling,
) -> Option<EventText> {
    if ruling == Ruling::CopyFailed && args.stop_on_error {
        None
    } else {
        Some(
            (EventText {
                schema_version: 2,
                rel_path: item.rel_path@,
                action: action_of(known, ruling),
                existing_bytes: if ruling == Ruling::SourceMissing {
                    None
                } else {
                    match existing(known) {
                        Some(e) => Some(e.size),
                        None => None,
                    }
                },
                bytes: bytes_of(item, known, ruling),
                dry_run: args.dry_run,
                overwrite: args.overwrite,
                reason: reason_of(item, known, ruling),
            }),
        )
    }
}

pub open spec fn event_text(e: Option<CopyEvent>) -> Option<EventText> {
    match e {
        Some(e) => Some(e@),
        None => None,
    }
}

fn event_for(item: &CopyPlanItem, args: &CopyRunArgs, known: &Known, ruling: Ruling) -> (r: Option<
    CopyEvent,
>)
    ensures
        event_text(r) == event_of(item, args, known, ruling),
{
    if ruling == Ruling::CopyFailed && args.stop_on_error {
        return None;
    }
    let existing_bytes: Option<u64> = if ruling == Ruling::SourceMissing {
        None
    } else {
        match existing_entry(known) {
            Some(e) => Some(e.size),
            None => None,
        }
    };
    Some(
        CopyEvent {
            schema_version: 2,
            rel_path: item.rel_path.clone(),
            action: action_for(known, ruling),
            existing_bytes,
            bytes: bytes_for(item, known, ruling),
            dry_run: args.dry_run,
            overwrite: args.overwrite,
            reason: reason_for(item, known, ruling),
        },
    )
}

/// What is noted of an entry in a resumable run.
pub open spec fn mark_of(
    item: &CopyPlanItem,
    args: &CopyRunArgs,
    known: &Known,
    ruling: Ruling,
) -> Option<MarkText> {
    let mark = |status: ResumeStatus, bytes_done: u64, error: Option<Seq<char>>|
        Some((MarkText { status, bytes_done, error }));
    match ruling {
        Ruling::SourceMissing => mark(ResumeStatus::Failed, 0, Some("missing source"@)),
        Ruling::DestinationUnavailable => mark(
            ResumeStatus::Failed,
            0,
            Some("destination metadata unavailable"@),
        ),
        Ruling::SameLink | Ruling::SameFile => mark(ResumeStatus::SkippedExisting, 0, None),
        Ruling::OtherLink | Ruling::OtherFile => mark(ResumeStatus::SkippedConflict, 0, None),
        Ruling::LinkPlanned | Ruling::CopyPlanned => mark(
            ResumeStatus::Planned,
            bytes_of(item, known, ruling),
            None,
        ),
        Ruling::Copied => mark(ResumeStatus::Done, bytes_of(item, known, ruling), None),
        Ruling::LostRace => mark(
            ResumeStatus::SkippedExisting,
            0,
            Some("destination appeared during copy"@),
        ),
        Ruling::CopyFailed => if args.stop_on_error {
            None
        } else {
            mark(ResumeStatus::Failed, 0, Some(error_of(known, ruling)))
        },
        _ => None,
    }
}

pub open spec fn mark_text(m: Option<ResumeMark>) -> Option<MarkText> {
    match m {
        Some(m) => Some(m@),
        None => None,
    }
}

fn mark_for(item: &CopyPlanItem, args: &CopyRunArgs, known: &Known, ruling: Ruling) -> (r: Option<
    ResumeMark,
>)
    ensures
        mark_text(r) == mark_of(item, args, known, ruling),
{
    let bytes_done: u64 = bytes_for(item, known, ruling);
    let (status, bytes_done, error): (ResumeStatus, u64, Option<String>) = match ruling {
        Ruling::SourceMissing => (ResumeStatus::Failed, 0, Some(plain("missing source"))),
        Ruling::DestinationUnavailable => {
            (ResumeStatus::Failed, 0, Some(plain("destination metadata unavailable")))
        },
        Ruling::SameLink | Ruling::SameFile => (ResumeStatus::SkippedExisting, 0, None),
        Ruling::OtherLink | Ruling::OtherFile => (ResumeStatus::SkippedConflict, 0, None),
        Ruling::LinkPlanned | Ruling::CopyPlanned => (ResumeStatus::Planned, bytes_done, None),
        Ruling::Copied => (ResumeStatus::Done, bytes_done, None),
        Ruling::LostRace => {
            (ResumeStatus::SkippedExisting, 0, Some(plain("destination appeared during copy")))
        },
        Ruling::CopyFailed => {
            if args.stop_on_error {
                return None;
            }
            (ResumeStatus::Failed, 0, Some(error_for(known, ruling)))
        },
        _ => {
            return None;
        },
    };
    Some(ResumeMark { status, bytes_done, error })
}

/// Where an entry is copied from.
pub open spec fn source_of(item: &CopyPlanItem, args: &CopyRunArgs) -> Seq<char> {
    path_join(args.source_root@, item.rel_path@)
}

/// Where an entry is copied to.
pub open spec fn destination_of(item: &CopyPlanItem, args: &CopyRunArgs) -> Seq<char> {
    path_join(args.destination_root@, item.rel_path@)
}

/// What is told of a failure, where the run goes on.
pub open spec fn note_of(
    item: &CopyPlanItem,
    args: &CopyRunArgs,
    known: &Known,
    ruling: Ruling,
) -> Option<Seq<char>> {
    let from = source_of(item, args);
    let to = destination_of(item, args);
    let error = error_of(known, ruling);
    if args.stop_on_error {
        None
    } else {
        match ruling {
            Ruling::SourceMissing => Some("[err] missing source file: "@ + from),
            Ruling::DestinationUnavailable => Some(
                "[err] destination metadata unavailable: "@ + to,
            ),
            Ruling::SourceLinkUnreadable => Some(
                "[err] failed reading symlink target: "@ + from + ": "@ + error,
            ),
            Ruling::DestinationLinkUnreadable => Some(
                "[err] failed reading destination symlink target: "@ + to + ": "@ + error,
            ),
            Ruling::CopyFailed => Some(
                "[err] copy failed: "@ + from + " -> "@ + (to + ": "@ + error),
            ),
            _ => None,
        }
    }
}

fn note_for(item: &CopyPlanItem, args: &CopyRunArgs, known: &Known, ruling: Ruling) -> (r: Option<
    String,
>)
    ensures
        opt_text(r) == note_of(item, args, known, ruling),
{
    if args.stop_on_error {
        return None;
    }
    let from = join_path(args.source_root.as_str(), item.rel_path.as_str());
    let to = join_path(args.destination_root.as_str(), item.rel_path.as_str());
    let error = error_for(known, ruling);
    match ruling {
        Ruling::SourceMissing => Some(concat2("[err] missing source file: ", from.as_str())),
        Ruling::DestinationUnavailable => Some(
            concat2("[err] destination metadata unavailable: ", to.as_str()),
        ),
        Ruling::SourceLinkUnreadable => Some(
            concat4(
                "[err] failed reading symlink target: ",
                from.as_str(),
                ": ",
                error.as_str(),
            ),
        ),
        Ruling::DestinationLinkUnreadable => Some(
            concat4(
                "[err] failed reading destination symlink target: ",
                to.as_str(),
                ": ",
                error.as_str(),
            ),
        ),
        Ruling::CopyFailed => {
            let rest = concat3(to.as_str(), ": ", error.as_str());
            Some(concat4("[err] copy failed: ", from.as_str(), " -> ", rest.as_str()))
        },
        _ => None,
    }
}

/// Why the run ends with this entry, where failures end it.
pub open spec fn stop_of(
    item: &CopyPlanItem,
    args: &CopyRunArgs,
    ruling: Ruling,
) -> Option<Seq<char>> {
    if !args.stop_on_error {
        None
    } else {
        match ruling {
            Ruling::SourceMissing => Some("missing source file: "@ + source_of(item, args)),
            Ruling::DestinationUnavailable => Some(
                "failed reading destination metadata "@ + destination_of(item, args),
            ),
            Ruling::SourceLinkUnreadable => Some("failed reading "@ + source_of(item, args)),
            Ruling::DestinationLinkUnreadable => Some(
                "failed reading destination "@ + destination_of(item, args),
            ),
            Ruling::CopyFailed => Some("failed copying "@ + source_of(item, args)),
            _ => None,
        }
    }
}

fn stop_for(item: &CopyPlanItem, args: &CopyRunArgs, ruling: Ruling) -> (r: Option<String>)
    ensures
        opt_text(r) == stop_of(item, args, ruling),
{
    if !args.stop_on_error {
        return None;
    }
    let from = join_path(args.source_root.as_str(), item.rel_path.as_str());
    let to = join_path(args.destination_root.as_str(), item.rel_path.as_str());
    match ruling {
        Ruling::SourceMissing => Some(concat2("missing source file: ", from.as_str())),
        Ruling::DestinationUnavailable => Some(
            concat2("failed reading destination metadata ", to.as_str()),
        ),
        Ruling::SourceLinkUnreadable => Some(concat2("failed reading ", from.as_str())),
        Ruling::DestinationLinkUnreadable => Some(
            concat2("failed reading destination ", to.as_str()),
        ),
        Ruling::CopyFailed => Some(concat2("failed copying ", from.as_str())),
        _ => None,
    }
}

// ---------------------------------------------------------------------------
// The run
// ---------------------------------------------------------------------------

/// What a run has done so far.
#[derive(Clone, Copy, Debug, PartialEq, Eq, Structural)]
pub struct CopyTotals {
    pub copied: usize,
    pub skipped_existing: usize,
    pub skipped_conflict: usize,
    pub overwritten: usize,
    pub missing_source: usize,
    pub failed: usize,
    pub copied_bytes: u64,
}

/// Whether an entry counts as copied.
pub open spec fn counts_as_copied(ruling: Ruling) -> bool {
    ruling == Ruling::LinkPlanned || ruling == Ruling::LinkMade || ruling == Ruling::CopyPlanned
        || ruling == Ruling::Copied
}

/// Whether an entry counts as overwritten: something was there, and the run
/// set out to replace it.
pub open spec fn counts_as_overwritten(known: &Known, ruling: Ruling) -> bool {
    existing(known) is Some && (counts_as_copied(ruling) || ruling == Ruling::LostRace || ruling
        == Ruling::CopyFailed)
}

/// The bytes that an entry adds to those that were copied.
pub open spec fn copied_bytes_of(item: &CopyPlanItem, known: &Known, ruling: Ruling) -> u64 {
    if counts_as_copied(ruling) {
        bytes_of(item, known, ruling)
    } else {
        0
    }
}

pub open spec fn one_if(b: bool) -> int {
    if b {
        1
    } else {
        0
    }
}

/// The totals after an entry.
pub open spec fn counted(
    before: CopyTotals,
    after: CopyTotals,
    item: &CopyPlanItem,
    known: &Known,
    ruling: Ruling,
) -> bool {
    let action = action_of(known, ruling);
    &&& after.copied == before.copied + one_if(counts_as_copied(ruling))
    &&& after.skipped_existing == before.skipped_existing + one_if(
        action == CopyEventAction::SkipExisting,
    )
    &&& after.skipped_conflict == before.skipped_conflict + one_if(
        action == CopyEventAction::SkipConflict,
    )
    &&& after.failed == before.failed + one_if(
        action == CopyEventAction::Fail || action == CopyEventAction::SourceMissing,
    )
    &&& after.missing_source == before.missing_source + one_if(
        action == CopyEventAction::SourceMissing,
    )
    &&& after.overwritten == before.overwritten + one_if(counts_as_overwritten(known, ruling))
    &&& after.copied_bytes == before.copied_bytes + copied_bytes_of(item, known, ruling)
}

/// What is told of how far the run has come.
#[derive(Debug)]
pub enum ProgressNote {
    Nothing,
    Line(String),
    Snapshot,
}

/// What is to be told and noted of an entry, in this order.
#[derive(Debug)]
pub struct Settlement {
    pub progress: ProgressNote,
    pub event: Option<CopyEvent>,
    pub mark: Option<ResumeMark>,
    pub note: Option<String>,
    pub stop: Option<String>,
}

/// A run.
#[derive(Debug)]
pub struct CopyRun {
    pub items: Vec<CopyPlanItem>,
    pub args: CopyRunArgs,
    pub planned_bytes: u64,
    pub index: usize,
    pub totals: CopyTotals,
}

/// The entries of a plan that a policy leaves in.
pub open spec fn items_to_copy(items: Seq<CopyPlanItem>, policy: Option<&ExcludePolicy>) -> Seq<
    CopyPlanItem,
> {
    items.filter(|item: CopyPlanItem| !left_out(item.rel_path@, policy))
}

/// After how many entries progress is told.
pub open spec fn progress_step(args: &CopyRunArgs) -> int {
    if args.progress_every < 1 {
        1
    } else {
        args.progress_every as int
    }
}

impl CopyRun {
    /// Every entry that was settled counts once: as copied, skipped or failed.
    /// A run that may not overwrite has overwritten nothing.
    pub open spec fn wf(&self) -> bool {
        let t = self.totals;
        &&& self.index <= self.items@.len()
        &&& t.copied + t.skipped_existing + t.skipped_conflict + t.failed == self.index
        &&& t.missing_source <= t.failed
        &&& t.overwritten <= t.copied + t.skipped_existing + t.failed
        &&& !self.args.overwrite ==> t.overwritten == 0
    }

    /// Sets out on a plan.
    pub fn start(plan: &CopyPlan, args: CopyRunArgs, policy: Option<&ExcludePolicy>) -> (r: Self)
        requires
            policy matches Some(p) ==> p.wf(),
        ensures
            r.wf(),
            r.items@ == items_to_copy(plan.items@, policy),
            r.args == args,
            r.planned_bytes == plan.summary.bytes_to_copy,
            r.index == 0,
            r.totals == (CopyTotals {
                copied: 0,
                skipped_existing: 0,
                skipped_conflict: 0,
                overwritten: 0,
                missing_source: 0,
                failed: 0,
                copied_bytes: 0,
            }),
    {
        let ghost keep = |item: CopyPlanItem| !left_out(item.rel_path@, policy);
        let ghost all = plan.items@;
        let mut items: Vec<CopyPlanItem> = Vec::new();
        let mut i: usize = 0;
        proof {
            lemma_filter_start(all, keep);
        }
        while i < plan.items.len()
            invariant
                i <= plan.items@.len(),
                policy matches Some(p) ==> p.wf(),
                all == plan.items@,
                keep == (|item: CopyPlanItem| !left_out(item.rel_path@, policy)),
                items@ == all.take(i as int).filter(keep),
            decreases plan.items@.len() - i,
        {
            proof {
                lemma_filter_step(all, keep, i as int);
            }
            let out = match policy {
                Some(p) => should_exclude_path(plan.items[i].rel_path.as_str(), p),
                None => false,
            };
            if !out {
                items.push(plan.items[i].copy());
            }
            i = i + 1;
        }
        assert(all.take(i as int) =~= all);
        CopyRun {
            items,
            args,
            planned_bytes: plan.summary.bytes_to_copy,
            index: 0,
            totals: CopyTotals {
                copied: 0,
                skipped_existing: 0,
                skipped_conflict: 0,
                overwritten: 0,
                missing_source: 0,
                failed: 0,
                copied_bytes: 0,
            },
        }
    }

    /// What to do with the entry at hand; nothing where all are settled.
    pub fn step(&self, known: &Known) -> (r: Option<Ruling>)
        requires
            self.wf(),
        ensures
            r == if self.index < self.items@.len() {
                Some(ruling(&self.items@[self.index as int], &self.args, known))
            } else {
                None
            },
    {
        if self.index < self.items.len() {
            Some(rule(&self.items[self.index], &self.args, known))
        } else {
            None
        }
    }

    /// Where progress is told after this entry.
    pub open spec fn is_due(&self) -> bool {
        (self.index + 1) % progress_step(&self.args) == 0
    }

    /// Settles the entry at hand.
    pub fn settle(&mut self, known: &Known) -> (r: Settlement)
        requires
            old(self).wf(),
            old(self).index < old(self).items@.len(),
            !(ruling(&old(self).items@[old(self).index as int], &old(self).args, known) is Ask),
            old(self).totals.copied_bytes + copied_bytes_of(
                &old(self).items@[old(self).index as int],
                known,
                ruling(&old(self).items@[old(self).index as int], &old(self).args, known),
            ) <= u64::MAX,
        ensures
            final(self).wf(),
            final(self).items == old(self).items,
            final(self).args == old(self).args,
            final(self).planned_bytes == old(self).planned_bytes,
            final(self).index == old(self).index + 1,
            ({
                let item = &old(self).items@[old(self).index as int];
                let args = &old(self).args;
                let ruled = ruling(item, args, known);
                &&& counted(old(self).totals, final(self).totals, item, known, ruled)
                &&& event_text(r.event) == event_of(item, args, known, ruled)
                &&& mark_text(r.mark) == mark_of(item, args, known, ruled)
                &&& opt_text(r.note) == note_of(item, args, known, ruled)
                &&& opt_text(r.stop) == stop_of(item, args, ruled)
                &&& match r.progress {
                    ProgressNote::Nothing => !(old(self).is_due() && counts_as_copied(ruled)),
                    ProgressNote::Snapshot => old(self).is_due() && (ruled == Ruling::CopyPlanned
                        || ruled == Ruling::Copied),
                    ProgressNote::Line(line) => old(self).is_due() && ((ruled
                        == Ruling::LinkPlanned && line@ == "[dry-run] planned="@ + decimal(
                        final(self).index as nat,
                    ) + " copied="@ + decimal(final(self).totals.copied as nat)) || (ruled
                        == Ruling::LinkMade && line@ == "[copy] "@ + decimal(
                        final(self).index as nat,
                    ) + " / "@ + decimal(old(self).items@.len()) + " ("@ + decimal(
                        final(self).totals.copied_bytes as nat,
                    ) + " bytes)"@)),
                }
            }),
    {
        let item = &self.items[self.index];
        let ruled = rule(item, &self.args, known);
        let event = event_for(item, &self.args, known, ruled);
        let mark = mark_for(item, &self.args, known, ruled);
        let note = note_for(item, &self.args, known, ruled);
        let stop = stop_for(item, &self.args, ruled);
        let bytes: u64 = bytes_for(item, known, ruled);
        let action = action_for(known, ruled);
        let total: usize = self.items.len();
        let every: usize = if self.args.progress_every < 1 { 1 } else { self.args.progress_every };
        let due = (self.index + 1) % every == 0;
        proof {
            if !self.args.overwrite {
                law_nothing_overwritten(item, &self.args, known);
            }
        }
        let copied = match ruled {
            Ruling::LinkPlanned | Ruling::LinkMade | Ruling::CopyPlanned | Ruling::Copied => true,
            _ => false,
        };
        let replaced = existing_entry(known).is_some() && (copied || ruled == Ruling::LostRace
            || ruled == Ruling::CopyFailed);
        if copied {
            self.totals.copied = self.totals.copied + 1;
            self.totals.copied_bytes = self.totals.copied_bytes + bytes;
        }
        if replaced {
            self.totals.overwritten = self.totals.overwritten + 1;
        }
        match action {
            CopyEventAction::SkipExisting => {
                self.totals.skipped_existing = self.totals.skipped_existing + 1;
            },
            CopyEventAction::SkipConflict => {
                self.totals.skipped_conflict = self.totals.skipped_conflict + 1;
            },
            CopyEventAction::Fail => {
                self.totals.failed = self.totals.failed + 1;
            },
            CopyEventAction::SourceMissing => {
                self.totals.failed = self.totals.failed + 1;
                self.totals.missing_source = self.totals.missing_source + 1;
            },
            _ => {},
        }
        self.index = self.index + 1;
        let progress = if !due {
            ProgressNote::Nothing
        } else {
            match ruled {
                Ruling::LinkPlanned => {
                    let mut out = to_chars("[dry-run] planned=");
                    extend(&mut out, &decimal_chars(self.index as u128));
                    extend_str(&mut out, " copied=");
                    extend(&mut out, &decimal_chars(self.totals.copied as u128));
                    ProgressNote::Line(from_chars(&out))
                },
                Ruling::LinkMade => {
                    let mut out = to_chars("[copy] ");
                    extend(&mut out, &decimal_chars(self.index as u128));
                    extend_str(&mut out, " / ");
                    extend(&mut out, &decimal_chars(total as u128));
                    extend_str(&mut out, " (");
                    extend(&mut out, &decimal_chars(self.totals.copied_bytes as u128));
                    extend_str(&mut out, " bytes)");
                    ProgressNote::Line(from_chars(&out))
                },
                Ruling::CopyPlanned | Ruling::Copied => ProgressNote::Snapshot,
                _ => ProgressNote::Nothing,
            }
        };
        Settlement { progress, event, mark, note, stop }
    }

    /// How far the run has come.
    pub fn snapshot(&self, elapsed_ns: i64) -> (r: CopyProgressSnapshot)
        ensures
            r == (CopyProgressSnapshot {
                planned_files: self.items@.len() as usize,
                planned_bytes: self.planned_bytes,
                completed_files: self.index,
                copied_files: self.totals.copied,
                skipped_existing: self.totals.skipped_existing,
                skipped_conflict: self.totals.skipped_conflict,
                overwritten_files: self.totals.overwritten,
                missing_source: self.totals.missing_source,
                failed_files: self.totals.failed,
                copied_bytes: self.totals.copied_bytes,
                elapsed_ns,
            }),
    {
        CopyProgressSnapshot {
            planned_files: self.items.len(),
            planned_bytes: self.planned_bytes,
            completed_files: self.index,
            copied_files: self.totals.copied,
            skipped_existing: self.totals.skipped_existing,
            skipped_conflict: self.totals.skipped_conflict,
            overwritten_files: self.totals.overwritten,
            missing_source: self.totals.missing_source,
            failed_files: self.totals.failed,
            copied_bytes: self.totals.copied_bytes,
            elapsed_ns,
        }
    }

    /// What the run did.
    pub fn summary(&self, plan: &CopyPlan) -> (r: CopyExecutionSummary)
        ensures
            r.mode@ == plan.mode@,
            r.dry_run == self.args.dry_run,
            r.overwrite == self.args.overwrite,
            r.left_label@ == plan.left_label@,
            r.right_label@ == plan.right_label@,
            r.planned_files == self.items@.len(),
            r.copied_files == self.totals.copied,
            r.skipped_existing == self.totals.skipped_existing,
            r.skipped_conflict == self.totals.skipped_conflict,
            r.overwritten_files == self.totals.overwritten,
            r.missing_source == self.totals.missing_source,
            r.failed_files == self.totals.failed,
            r.copied_bytes == self.totals.copied_bytes,
            r.deleted_files == 0,
            r.deleted_bytes == 0,
    {
        CopyExecutionSummary {
            mode: plan.mode.clone(),
            dry_run: self.args.dry_run,
            overwrite: self.args.overwrite,
            left_label: plan.left_label.clone(),
            right_label: plan.right_label.clone(),
            planned_files: self.items.len(),
            copied_files: self.totals.copied,
            skipped_existing: self.totals.skipped_existing,
            skipped_conflict: self.totals.skipped_conflict,
            overwritten_files: self.totals.overwritten,
            missing_source: self.totals.missing_source,
            failed_files: self.totals.failed,
            copied_bytes: self.totals.copied_bytes,
            deleted_files: 0,
            deleted_bytes: 0,
        }
    }
}

// ---------------------------------------------------------------------------
// Laws
// ---------------------------------------------------------------------------

/// A dry run never asks for anything to be written.
pub proof fn law_dry_run_writes_nothing(item: &CopyPlanItem, args: &CopyRunArgs, known: &Known)
    requires
        args.dry_run,
    ensures
        ruling(item, args, known) matches Ruling::Ask(q) ==> !writes(q),
{
}

/// A run that does not overwrite asks for nothing to be written where
/// something stands already.
pub proof fn law_existing_is_kept(item: &CopyPlanItem, args: &CopyRunArgs, known: &Known)
    requires
        !args.overwrite,
        existing(known) is Some,
    ensures
        ruling(item, args, known) matches Ruling::Ask(q) ==> !writes(q),
{
}

/// Even a run that overwrites replaces only a file by a file, and a link by a
/// link.
pub proof fn law_like_replaces_like(item: &CopyPlanItem, args: &CopyRunArgs, known: &Known)
    requires
        existing(known) is Some,
    ensures
        ruling(item, args, known) == Ruling::Ask(Question::CopyFile) ==> existing(known)->0.kind
            == EntryKind::File,
        ruling(item, args, known) == Ruling::Ask(Question::MakeLink) ==> existing(known)->0.kind
            == EntryKind::Link,
{
}

/// Nothing is written before it is known that there is a source, and what
/// stands at the destination.
pub proof fn law_looks_before_writing(item: &CopyPlanItem, args: &CopyRunArgs, known: &Known)
    ensures
        ruling(item, args, known) matches Ruling::Ask(q) ==> (writes(q) ==> known.source_is_file
            == Some(true) && known.destination is Some),
{
}

/// How many questions have their answers.
pub open spec fn answers(known: &Known) -> int {
    let one = |q: Question| if answered(known, q) { 1int } else { 0 };
    one(Question::SourceIsFile) + one(Question::Destination) + one(Question::SourceStat) + one(
        Question::SourceHash,
    ) + one(Question::SourceLink) + one(Question::DestinationLink) + one(Question::DestinationHash)
        + one(Question::MakeLink) + one(Question::CopyFile)
}

/// A question is asked only while it has no answer, so that every entry is
/// settled after at most nine of them.
pub proof fn law_questions_end(item: &CopyPlanItem, args: &CopyRunArgs, known: &Known)
    ensures
        ruling(item, args, known) matches Ruling::Ask(q) ==> !answered(known, q) && answers(known)
            < 9,
        0 <= answers(known) <= 9,
{
}

/// Where times and sizes agree no hash is asked for.
pub proof fn law_same_time_needs_no_hash(item: &CopyPlanItem, args: &CopyRunArgs, known: &Known)
    requires
        existing(known) is Some,
        same_time(item, known, existing(known)->0),
    ensures
        ruling(item, args, known) != Ruling::Ask(Question::DestinationHash),
{
}

/// A run that does not overwrite counts nothing as overwritten.
pub proof fn law_nothing_overwritten(item: &CopyPlanItem, args: &CopyRunArgs, known: &Known)
    requires
        !args.overwrite,
    ensures
        !counts_as_overwritten(known, ruling(item, args, known)),
        action_of(known, ruling(item, args, known)) != CopyEventAction::Overwrite,
{
}

/// No entry that the policy leaves out is ever at hand.
pub proof fn law_left_out_is_not_copied(
    items: Seq<CopyPlanItem>,
    policy: Option<&ExcludePolicy>,
    i: int,
)
    requires
        0 <= i < items_to_copy(items, policy).len(),
    ensures
        !left_out(items_to_copy(items, policy)[i].rel_path@, policy),
        items.contains(items_to_copy(items, policy)[i]),
{
    let keep = |item: CopyPlanItem| !left_out(item.rel_path@, policy);
    items.lemma_filter_pred(keep, i);
    items.lemma_filter_contains_rev(keep, items_to_copy(items, policy)[i]);
}

} // verus!
