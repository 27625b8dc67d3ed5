//! Moving an entry out of the way to a backup directory.

use vstd::prelude::*;

verus! {

/// The number by which the system says that two paths are on different devices.
pub const OTHER_DEVICE: i32 = 18;

/// What stands at the place of the backup.
#[derive(Clone, Copy, Debug, PartialEq, Eq, Structural)]
pub enum BackupLook {
    Nothing,
    /// A directory of an earlier backup.
    Tree,
    /// A file or a link of an earlier backup.
    Single,
}

/// What became of moving the entry.
#[derive(Clone, Copy, Debug, PartialEq, Eq, Structural)]
pub enum MoveOutcome {
    Moved,
    /// The backup is on another device, to which nothing can be moved.
    OtherDevice,
    Failed,
}

/// What is known of a backup, and done for it.
#[derive(Clone, Copy, Debug, PartialEq, Eq, Structural)]
pub struct BackupFacts {
    pub parent_made: bool,
    pub at_backup: Option<BackupLook>,
    pub cleared: bool,
    pub moved: Option<MoveOutcome>,
    pub entry_is_link: Option<bool>,
    pub copied: bool,
    pub removed: bool,
}

/// What to do next.
#[derive(Clone, Copy, Debug, PartialEq, Eq, Structural)]
pub enum BackupStep {
    MakeParent,
    LookAtBackup,
    ClearTree,
    ClearFile,
    Move,
    LookAtEntry,
    CopyLink,
    CopyFile,
    RemoveEntry,
    Done,
    Failed,
}

/// What stands at a path that may be there, be a directory, be a link.
pub open spec fn look_of(exists: bool, is_dir: bool, is_link: bool) -> BackupLook {
    if !exists {
        BackupLook::Nothing
    } else if is_dir && !is_link {
        BackupLook::Tree
    } else {
        BackupLook::Single
    }
}

pub fn look_at_backup(exists: bool, is_dir: bool, is_link: bool) -> (r: BackupLook)
    ensures
        r == look_of(exists, is_dir, is_link),
{
    if !exists {
        BackupLook::Nothing
    } else if is_dir && !is_link {
        BackupLook::Tree
    } else {
        BackupLook::Single
    }
}

/// Whether the system says that two paths are on different devices.
pub fn is_cross_device_link(raw_os_error: Option<i32>) -> (r: bool)
    ensures
        r == (raw_os_error == Some(OTHER_DEVICE)),
{
    match raw_os_error {
        Some(n) => n == OTHER_DEVICE,
        None => false,
    }
}

/// What to do once an entry could not be moved to another device: it is copied,
/// and removed behind that.
pub open spec fn copying_step(f: BackupFacts) -> BackupStep {
    match f.entry_is_link {
        None => BackupStep::LookAtEntry,
        Some(is_link) => if !f.copied {
            if is_link {
                BackupStep::CopyLink
            } else {
                BackupStep::CopyFile
            }
        } else if !f.removed {
            BackupStep::RemoveEntry
        } else {
            BackupStep::Done
        },
    }
}

/// What to do once the place of the backup is free.
pub open spec fn moving_step(f: BackupFacts) -> BackupStep {
    match f.moved {
        None => BackupStep::Move,
        Some(MoveOutcome::Moved) => BackupStep::Done,
        Some(MoveOutcome::Failed) => BackupStep::Failed,
        Some(MoveOutcome::OtherDevice) => copying_step(f),
    }
}

/// What to do next, by what is known.
pub open spec fn backup_step(f: BackupFacts) -> BackupStep {
    if !f.parent_made {
        BackupStep::MakeParent
    } else {
        match f.at_backup {
            None => BackupStep::LookAtBackup,
            Some(BackupLook::Nothing) => moving_step(f),
            Some(BackupLook::Tree) => if f.cleared {
                moving_step(f)
            } else {
                BackupStep::ClearTree
            },
            Some(BackupLook::Single) => if f.cleared {
                moving_step(f)
            } else {
                BackupStep::ClearFile
            },
        }
    }
}

impl BackupFacts {
    /// Nothing is known, and nothing done.
    pub fn nothing() -> (r: Self)
        ensures
            forall|s: BackupStep| !#[trigger] taken(r, s),
    {
        BackupFacts {
            parent_made: false,
            at_backup: None,
            cleared: false,
            moved: None,
            entry_is_link: None,
            copied: false,
            removed: false,
        }
    }

    fn next_move(&self) -> (r: BackupStep)
        ensures
            r == moving_step(*self),
    {
        match self.moved {
            None => BackupStep::Move,
            Some(MoveOutcome::Moved) => BackupStep::Done,
            Some(MoveOutcome::Failed) => BackupStep::Failed,
            Some(MoveOutcome::OtherDevice) => match self.entry_is_link {
                None => BackupStep::LookAtEntry,
                Some(is_link) => if !self.copied {
                    if is_link {
                        BackupStep::CopyLink
                    } else {
                        BackupStep::CopyFile
                    }
                } else if !self.removed {
                    BackupStep::RemoveEntry
                } else {
                    BackupStep::Done
                },
            },
        }
    }

    /// What to do next.
    pub fn step(&self) -> (r: BackupStep)
        ensures
            r == backup_step(*self),
    {
        if !self.parent_made {
            return BackupStep::MakeParent;
        }
        match self.at_backup {
            None => BackupStep::LookAtBackup,
            Some(BackupLook::Nothing) => self.next_move(),
            Some(BackupLook::Tree) => if self.cleared {
                self.next_move()
            } else {
                BackupStep::ClearTree
            },
            Some(BackupLook::Single) => if self.cleared {
                self.next_move()
            } else {
                BackupStep::ClearFile
            },
        }
    }
}

/// Whether a step was taken.
pub open spec fn taken(f: BackupFacts, step: BackupStep) -> bool {
    match step {
        BackupStep::MakeParent => f.parent_made,
        BackupStep::LookAtBackup => f.at_backup is Some,
        BackupStep::ClearTree | BackupStep::ClearFile => f.cleared,
        BackupStep::Move => f.moved is Some,
        BackupStep::LookAtEntry => f.entry_is_link is Some,
        BackupStep::CopyLink | BackupStep::CopyFile => f.copied,
        BackupStep::RemoveEntry => f.removed,
        BackupStep::Done | BackupStep::Failed => false,
    }
}

/// How many kinds of steps were taken.
pub open spec fn steps_taken(f: BackupFacts) -> int {
    let one = |s: BackupStep| if taken(f, s) { 1int } else { 0 };
    one(BackupStep::MakeParent) + one(BackupStep::LookAtBackup) + one(BackupStep::ClearTree) + one(
        BackupStep::Move,
    ) + one(BackupStep::LookAtEntry) + one(BackupStep::CopyFile) + one(BackupStep::RemoveEntry)
}

// ---------------------------------------------------------------------------
// Laws
// ---------------------------------------------------------------------------

/// The entry is removed only once its copy was made, and only where it could not
/// be moved.
pub proof fn law_removed_behind_its_copy(f: BackupFacts)
    ensures
        backup_step(f) == BackupStep::RemoveEntry ==> f.copied && f.moved == Some(
            MoveOutcome::OtherDevice,
        ),
{
}

/// Nothing is put in the place of the backup before that is free.
pub proof fn law_backup_is_cleared_first(f: BackupFacts)
    ensures
        backup_step(f) == BackupStep::Move || backup_step(f) == BackupStep::CopyLink || backup_step(
            f,
        ) == BackupStep::CopyFile ==> f.parent_made && (f.cleared || f.at_backup == Some(
            BackupLook::Nothing,
        )),
{
}

/// A backup is done where the entry was moved, or copied and then removed.
pub proof fn law_backup_is_complete(f: BackupFacts)
    ensures
        backup_step(f) == BackupStep::Done ==> f.moved == Some(MoveOutcome::Moved) || (f.copied
            && f.removed),
        backup_step(f) == BackupStep::Failed ==> f.moved == Some(MoveOutcome::Failed),
{
}

/// No step is taken twice, so that a backup ends after at most seven of them.
pub proof fn law_backup_ends(f: BackupFacts)
    ensures
        !taken(f, backup_step(f)),
        backup_step(f) != BackupStep::Done && backup_step(f) != BackupStep::Failed ==> steps_taken(
            f,
        ) < 7,
        0 <= steps_taken(f) <= 7,
{
}

} // verus!
