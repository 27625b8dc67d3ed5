use nightindex::backup::{
    is_cross_device_link, look_at_backup, BackupFacts, BackupLook, BackupStep, MoveOutcome,
};
use nightindex::hash::ContentHash;

fn ready(at_backup: BackupLook) -> BackupFacts {
    let mut facts = BackupFacts::nothing();
    facts.parent_made = true;
    facts.at_backup = Some(at_backup);
    facts
}

#[test]
fn an_entry_is_moved_to_a_free_place() {
    let mut facts = BackupFacts::nothing();
    assert_eq!(facts.step(), BackupStep::MakeParent);
    facts.parent_made = true;
    assert_eq!(facts.step(), BackupStep::LookAtBackup);
    facts.at_backup = Some(BackupLook::Nothing);
    assert_eq!(facts.step(), BackupStep::Move);
    facts.moved = Some(MoveOutcome::Moved);
    assert_eq!(facts.step(), BackupStep::Done);
    facts.moved = Some(MoveOutcome::Failed);
    assert_eq!(facts.step(), BackupStep::Failed);
}

#[test]
fn an_earlier_backup_is_cleared_first() {
    let mut facts = ready(BackupLook::Tree);
    assert_eq!(facts.step(), BackupStep::ClearTree);
    facts.cleared = true;
    assert_eq!(facts.step(), BackupStep::Move);
    assert_eq!(ready(BackupLook::Single).step(), BackupStep::ClearFile);
    assert_eq!(look_at_backup(false, false, true), BackupLook::Nothing);
    assert_eq!(look_at_backup(true, true, false), BackupLook::Tree);
    assert_eq!(look_at_backup(true, true, true), BackupLook::Single);
    assert_eq!(look_at_backup(true, false, false), BackupLook::Single);
}

#[test]
fn an_entry_is_copied_to_another_device_and_then_removed() {
    assert!(is_cross_device_link(Some(18)));
    assert!(!is_cross_device_link(Some(2)));
    assert!(!is_cross_device_link(None));
    let mut facts = ready(BackupLook::Nothing);
    facts.moved = Some(MoveOutcome::OtherDevice);
    assert_eq!(facts.step(), BackupStep::LookAtEntry);
    facts.entry_is_link = Some(true);
    assert_eq!(facts.step(), BackupStep::CopyLink);
    facts.entry_is_link = Some(false);
    assert_eq!(facts.step(), BackupStep::CopyFile);
    facts.copied = true;
    assert_eq!(facts.step(), BackupStep::RemoveEntry);
    facts.removed = true;
    assert_eq!(facts.step(), BackupStep::Done);
}

#[test]
fn a_hash_does_not_depend_on_the_pieces() {
    let mut whole = ContentHash::new();
    assert_eq!(
        whole.finish(),
        "af1349b9f5f9a1a6a0404dea36dcc9499bcb25c9adc112b7cc9a93cae41f3262"
    );
    whole.update(b"abc");
    assert_eq!(
        whole.finish(),
        "6437b3ac38465133ffb63b75273a8db548c558465d79db03fd359c6cd5bd9d85"
    );
    let mut pieces = ContentHash::new();
    pieces.update(b"a");
    pieces.update(b"");
    pieces.update(b"bc");
    assert_eq!(pieces.finish(), whole.finish());
}
