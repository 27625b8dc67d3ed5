use nightindex::copy_run::{
    rule, CopyEventAction, CopyRun, CopyRunArgs, DestinationLook, EntryKind, Existing, Known,
    LinkLook, ProgressNote, Question, RegularCopyOutcome, ResumeStatus, Ruling, Settlement,
    SourceStat,
};
use nightindex::plan::{CopyPlan, CopyPlanItem, CopyPlanSummary};
use nightindex::policy::ExcludePolicy;
use nightindex::textmap::TextMap;

fn args() -> CopyRunArgs {
    CopyRunArgs {
        source_root: "/src".to_string(),
        destination_root: "/dst/".to_string(),
        backup_dir: None,
        overwrite: false,
        dry_run: false,
        stop_on_error: false,
        log: None,
        progress_every: 1,
        size_only: false,
        hash: false,
        copy_links_as_files: false,
    }
}

fn item(rel_path: &str, file_type: &str) -> CopyPlanItem {
    CopyPlanItem {
        rel_path: rel_path.to_string(),
        file_type: file_type.to_string(),
        size: 100,
        mtime_ns: 7,
        fast_hash: Some("hash".to_string()),
    }
}

fn plan(items: Vec<CopyPlanItem>) -> CopyPlan {
    CopyPlan {
        mode: "copy-missing".to_string(),
        left_label: "left".to_string(),
        right_label: "right".to_string(),
        left_db: None,
        right_db: None,
        generated_at_ns: 0,
        summary: CopyPlanSummary {
            files_to_copy: items.len(),
            bytes_to_copy: 100,
            left_files: 1,
            right_files: 0,
        },
        items,
    }
}

fn there(kind: EntryKind, size: u64, mtime_ns: Option<i64>) -> DestinationLook {
    DestinationLook::Present(Existing {
        kind,
        size,
        mtime_ns,
    })
}

fn known(destination: DestinationLook) -> Known {
    let mut known = Known::nothing();
    known.source_is_file = Some(true);
    known.destination = Some(destination);
    known
}

fn settle(args: CopyRunArgs, item: CopyPlanItem, known: &Known) -> (CopyRun, Settlement) {
    let mut run = CopyRun::start(&plan(vec![item]), args, None);
    let settlement = run.settle(known);
    (run, settlement)
}

#[test]
fn an_absent_file_is_copied() {
    let file = item("a.bin", "file");
    let mut facts = Known::nothing();
    assert_eq!(
        rule(&file, &args(), &facts),
        Ruling::Ask(Question::SourceIsFile)
    );
    facts.source_is_file = Some(true);
    assert_eq!(
        rule(&file, &args(), &facts),
        Ruling::Ask(Question::Destination)
    );
    facts.destination = Some(DestinationLook::Absent);
    assert_eq!(
        rule(&file, &args(), &facts),
        Ruling::Ask(Question::CopyFile)
    );
    facts.outcome = Some(RegularCopyOutcome::Copied(99));
    assert_eq!(rule(&file, &args(), &facts), Ruling::Copied);

    let (run, settlement) = settle(args(), file, &facts);
    assert_eq!(run.totals.copied, 1);
    assert_eq!(run.totals.copied_bytes, 99);
    assert!(run.step(&facts).is_none());
    let event = settlement.event.unwrap();
    assert_eq!(event.schema_version, 2);
    assert_eq!(event.action.name(), "copy");
    assert_eq!(event.bytes, 99);
    assert_eq!(event.existing_bytes, None);
    assert_eq!(event.reason, None);
    let mark = settlement.mark.unwrap();
    assert_eq!(mark.status, ResumeStatus::Done);
    assert_eq!(mark.status.name(), "done");
    assert_eq!(mark.bytes_done, 99);
    assert!(matches!(settlement.progress, ProgressNote::Snapshot));
}

#[test]
fn a_dry_run_only_plans() {
    let mut dry = args();
    dry.dry_run = true;
    let facts = known(DestinationLook::Absent);
    assert_eq!(rule(&item("a", "file"), &dry, &facts), Ruling::CopyPlanned);
    let (run, settlement) = settle(dry, item("a", "file"), &facts);
    assert_eq!(run.totals.copied, 1);
    assert_eq!(run.totals.copied_bytes, 100);
    assert!(settlement.event.unwrap().dry_run);
    assert_eq!(settlement.mark.unwrap().status, ResumeStatus::Planned);
}

#[test]
fn a_missing_source_fails() {
    let mut facts = Known::nothing();
    facts.source_is_file = Some(false);
    let (run, settlement) = settle(args(), item("firmware-cache/legacy.img", "file"), &facts);
    assert_eq!(run.totals.missing_source, 1);
    assert_eq!(run.totals.failed, 1);
    let event = settlement.event.unwrap();
    assert_eq!(event.action, CopyEventAction::SourceMissing);
    assert_eq!(event.action.name(), "source_missing");
    assert_eq!(event.reason, Some("source file missing".to_string()));
    assert_eq!(
        settlement.note,
        Some("[err] missing source file: /src/firmware-cache/legacy.img".to_string())
    );
    assert_eq!(settlement.stop, None);

    let mut strict = args();
    strict.stop_on_error = true;
    let (_, settlement) = settle(strict, item("a", "file"), &facts);
    assert_eq!(settlement.note, None);
    assert_eq!(
        settlement.stop,
        Some("missing source file: /src/a".to_string())
    );
}

#[test]
fn another_file_at_the_destination_is_a_conflict() {
    let facts = known(there(EntryKind::File, 4096, Some(1)));
    assert_eq!(rule(&item("a", "file"), &args(), &facts), Ruling::OtherFile);
    let (run, settlement) = settle(args(), item("archives/old.bin", "file"), &facts);
    assert_eq!(run.totals.skipped_conflict, 1);
    assert_eq!(run.totals.overwritten, 0);
    let event = settlement.event.unwrap();
    assert_eq!(event.action.name(), "skip_conflict");
    assert_eq!(event.existing_bytes, Some(4096));
    assert_eq!(event.bytes, 100);
    assert_eq!(
        event.reason,
        Some("destination conflict: existing size 100".to_string())
    );
    let mut same_size = item("archives/old.bin", "file");
    same_size.size = 4096;
    let mut facts = known(there(EntryKind::File, 4096, Some(1)));
    facts.destination_hash = Some("other".to_string());
    let (_, settlement) = settle(args(), same_size, &facts);
    let event = settlement.event.unwrap();
    assert_eq!(event.bytes, 4096);
    assert_eq!(
        event.reason,
        Some("destination conflict: existing size 4096".to_string())
    );
}

#[test]
fn leave_to_overwrite_replaces_another_file() {
    let mut over = args();
    over.overwrite = true;
    let mut facts = known(there(EntryKind::File, 4096, Some(1)));
    assert_eq!(
        rule(&item("a", "file"), &over, &facts),
        Ruling::Ask(Question::CopyFile)
    );
    facts.outcome = Some(RegularCopyOutcome::Copied(100));
    let (run, settlement) = settle(over, item("a", "file"), &facts);
    assert_eq!(run.totals.overwritten, 1);
    assert_eq!(run.totals.copied, 1);
    assert_eq!(settlement.event.unwrap().action.name(), "overwrite");
}

#[test]
fn a_file_of_the_same_time_is_there_already() {
    let facts = known(there(EntryKind::File, 100, Some(7)));
    assert_eq!(rule(&item("a", "file"), &args(), &facts), Ruling::SameFile);
    let (run, settlement) = settle(args(), item("a", "file"), &facts);
    assert_eq!(run.totals.skipped_existing, 1);
    assert_eq!(
        settlement.mark.unwrap().status,
        ResumeStatus::SkippedExisting
    );
}

#[test]
fn a_file_of_another_time_is_told_by_its_hash() {
    let mut facts = known(there(EntryKind::File, 100, Some(8)));
    assert_eq!(
        rule(&item("a", "file"), &args(), &facts),
        Ruling::Ask(Question::DestinationHash)
    );
    facts.destination_hash = Some("hash".to_string());
    assert_eq!(rule(&item("a", "file"), &args(), &facts), Ruling::SameFile);
    facts.destination_hash = Some("other".to_string());
    assert_eq!(rule(&item("a", "file"), &args(), &facts), Ruling::OtherFile);
    let mut by_size = args();
    by_size.size_only = true;
    assert_eq!(rule(&item("a", "file"), &by_size, &facts), Ruling::SameFile);
}

#[test]
fn a_folder_at_the_destination_is_no_file() {
    let mut over = args();
    over.overwrite = true;
    let facts = known(there(EntryKind::Other, 0, None));
    assert_eq!(rule(&item("a", "file"), &over, &facts), Ruling::NotAFile);
    let (_, settlement) = settle(over, item("a", "file"), &facts);
    assert_eq!(
        settlement.event.unwrap().reason,
        Some("destination path exists and is not a regular file".to_string())
    );
}

#[test]
fn copy_plan_preserves_symlinks() {
    let link = item("link", "symlink");
    let mut facts = known(DestinationLook::Absent);
    assert_eq!(
        rule(&link, &args(), &facts),
        Ruling::Ask(Question::SourceLink)
    );
    facts.source_link = Some(LinkLook::Target("target".to_string()));
    assert_eq!(
        rule(&link, &args(), &facts),
        Ruling::Ask(Question::MakeLink)
    );
    facts.link_made = true;
    assert_eq!(rule(&link, &args(), &facts), Ruling::LinkMade);
    let (run, settlement) = settle(args(), link, &facts);
    assert_eq!(run.totals.copied, 1);
    assert_eq!(run.totals.copied_bytes, 0);
    match settlement.progress {
        ProgressNote::Line(line) => assert_eq!(line, "[copy] 1 / 1 (0 bytes)"),
        other => panic!("{:?}", other),
    }
}

#[test]
fn links_are_compared_by_their_targets() {
    let link = item("link", "symlink");
    let mut facts = known(there(EntryKind::Link, 6, None));
    facts.source_link = Some(LinkLook::Target("target".to_string()));
    assert_eq!(
        rule(&link, &args(), &facts),
        Ruling::Ask(Question::DestinationLink)
    );
    facts.destination_link = Some(LinkLook::Target("target".to_string()));
    assert_eq!(rule(&link, &args(), &facts), Ruling::SameLink);
    facts.destination_link = Some(LinkLook::Target("other".to_string()));
    assert_eq!(rule(&link, &args(), &facts), Ruling::OtherLink);
    let (_, settlement) = settle(args(), item("link", "symlink"), &facts);
    assert_eq!(
        settlement.event.unwrap().reason,
        Some("destination conflict: existing symlink target other".to_string())
    );
    let mut over = args();
    over.overwrite = true;
    assert_eq!(rule(&link, &over, &facts), Ruling::Ask(Question::MakeLink));
    let blocked = known(there(EntryKind::File, 6, None));
    let mut blocked = blocked;
    blocked.source_link = Some(LinkLook::Target("target".to_string()));
    assert_eq!(rule(&link, &over, &blocked), Ruling::NotALink);
}

#[test]
fn links_that_cannot_be_read_fail() {
    let mut facts = known(DestinationLook::Absent);
    facts.source_link = Some(LinkLook::Unreadable("denied".to_string()));
    let (run, settlement) = settle(args(), item("link", "symlink"), &facts);
    assert_eq!(run.totals.failed, 1);
    assert_eq!(
        settlement.note,
        Some("[err] failed reading symlink target: /src/link: denied".to_string())
    );
    let mut facts = known(there(EntryKind::Link, 6, None));
    facts.source_link = Some(LinkLook::Target("t".to_string()));
    facts.destination_link = Some(LinkLook::Unreadable("denied".to_string()));
    let (_, settlement) = settle(args(), item("link", "symlink"), &facts);
    assert_eq!(
        settlement.event.unwrap().reason,
        Some("failed reading destination symlink target: denied".to_string())
    );
}

#[test]
fn copy_links_mode_copies_symlink_target_contents() {
    let link = item("link", "symlink");
    let mut follow = args();
    follow.copy_links_as_files = true;
    follow.hash = true;
    let mut facts = known(DestinationLook::Absent);
    assert_eq!(
        rule(&link, &follow, &facts),
        Ruling::Ask(Question::SourceStat)
    );
    facts.source_stat = Some(SourceStat {
        size: 5,
        mtime_ns: None,
    });
    assert_eq!(
        rule(&link, &follow, &facts),
        Ruling::Ask(Question::SourceHash)
    );
    facts.source_hash = Some("content".to_string());
    assert_eq!(
        rule(&link, &follow, &facts),
        Ruling::Ask(Question::CopyFile)
    );
    facts.outcome = Some(RegularCopyOutcome::Copied(5));
    let (run, _) = settle(follow, link, &facts);
    assert_eq!(run.totals.copied_bytes, 5);
}

#[test]
fn a_copy_that_fails_is_told_and_marked() {
    let mut facts = known(DestinationLook::Absent);
    facts.outcome = Some(RegularCopyOutcome::Failed("disk full".to_string()));
    let (run, settlement) = settle(args(), item("a", "file"), &facts);
    assert_eq!(run.totals.failed, 1);
    assert_eq!(
        settlement.note,
        Some("[err] copy failed: /src/a -> /dst/a: disk full".to_string())
    );
    assert_eq!(
        settlement.mark.unwrap().error,
        Some("disk full".to_string())
    );
    let mut strict = args();
    strict.stop_on_error = true;
    let (_, settlement) = settle(strict, item("a", "file"), &facts);
    assert!(settlement.event.is_none());
    assert!(settlement.mark.is_none());
    assert_eq!(settlement.stop, Some("failed copying /src/a".to_string()));
}

#[test]
fn a_lost_race_counts_as_existing() {
    let mut facts = known(DestinationLook::Absent);
    facts.outcome = Some(RegularCopyOutcome::LostRace);
    let (run, settlement) = settle(args(), item("a", "file"), &facts);
    assert_eq!(run.totals.skipped_existing, 1);
    assert_eq!(
        settlement.event.unwrap().reason,
        Some("destination appeared during copy".to_string())
    );
}

#[test]
fn a_destination_that_cannot_be_looked_at_fails() {
    let facts = known(DestinationLook::Unavailable("denied".to_string()));
    let (run, settlement) = settle(args(), item("a", "file"), &facts);
    assert_eq!(run.totals.failed, 1);
    assert_eq!(
        settlement.event.unwrap().reason,
        Some("destination metadata unavailable: denied".to_string())
    );
    assert_eq!(
        settlement.mark.unwrap().error,
        Some("destination metadata unavailable".to_string())
    );
}

#[test]
fn what_the_policy_leaves_out_is_not_copied() {
    let policy = ExcludePolicy {
        directory_prefixes: vec!["tmp".to_string()],
        folder_name_additions: Vec::new(),
        subtree_overrides: TextMap::new(),
        enabled: true,
    };
    let plan = plan(vec![item("tmp/a", "file"), item("b", "file")]);
    let mut run = CopyRun::start(&plan, args(), Some(&policy));
    assert_eq!(run.items.len(), 1);
    assert_eq!(run.items[0].rel_path, "b");
    let mut facts = known(DestinationLook::Absent);
    facts.outcome = Some(RegularCopyOutcome::Copied(3));
    run.settle(&facts);
    let snapshot = run.snapshot(5);
    assert_eq!(snapshot.completed_files, 1);
    assert_eq!(snapshot.planned_bytes, 100);
    let summary = run.summary(&plan);
    assert_eq!(summary.planned_files, 1);
    assert_eq!(summary.copied_files, 1);
    assert_eq!(summary.copied_bytes, 3);
    assert_eq!(summary.left_label, "left");
}

#[test]
fn progress_is_told_once_in_so_many_entries() {
    let mut every_two = args();
    every_two.progress_every = 2;
    every_two.dry_run = true;
    let plan = plan(vec![item("a", "symlink"), item("b", "symlink")]);
    let mut run = CopyRun::start(&plan, every_two, None);
    let mut facts = known(DestinationLook::Absent);
    facts.source_link = Some(LinkLook::Target("t".to_string()));
    assert!(matches!(
        run.settle(&facts).progress,
        ProgressNote::Nothing
    ));
    match run.settle(&facts).progress {
        ProgressNote::Line(line) => assert_eq!(line, "[dry-run] planned=2 copied=2"),
        other => panic!("{:?}", other),
    }
}
