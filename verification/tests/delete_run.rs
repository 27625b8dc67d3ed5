use nightindex::delete_run::{
    delete_targets, DeleteOutcome, DeleteRun, DeleteRunArgs, DeleteStep,
};
use nightindex::policy::ExcludePolicy;
use nightindex::record::FileRecord;
use nightindex::textmap::TextMap;

fn row(rel_path: &str, size: u64) -> FileRecord {
    FileRecord {
        rel_path: rel_path.to_string(),
        file_type: "file".to_string(),
        size,
        mtime_ns: 0,
        fast_hash: None,
    }
}

fn args() -> DeleteRunArgs {
    DeleteRunArgs {
        destination_root: "/dst".to_string(),
        backup_dir: None,
        dry_run: false,
        stop_on_error: false,
        log: None,
        progress_every: 1,
        delete_excluded: false,
    }
}

fn skip_policy() -> ExcludePolicy {
    ExcludePolicy {
        directory_prefixes: vec!["skip".to_string()],
        folder_name_additions: Vec::new(),
        subtree_overrides: TextMap::new(),
        enabled: true,
    }
}

#[test]
fn delete_pass_targets_destination_only_files() {
    let source = vec![row("keep.bin", 4)];
    let destination = vec![row("keep.bin", 4), row("orphan.bin", 6)];
    let targets = delete_targets(&source, &destination, None, false);
    let mut dry = args();
    dry.dry_run = true;
    let mut run = DeleteRun::start(targets, dry);
    while let Some(step) = run.step() {
        assert_eq!(step, DeleteStep::CountOnly);
        let settlement = run.settle(&DeleteOutcome::Gone, None);
        let event = settlement.event.unwrap();
        assert_eq!(event.rel_path, "orphan.bin");
        assert_eq!(event.action.name(), "delete");
        assert!(event.dry_run);
        assert_eq!(event.reason, Some("destination-only entry".to_string()));
        assert_eq!(
            settlement.line,
            Some("[dry-run delete] planned=1 deleted=1".to_string())
        );
    }
    assert_eq!(run.summary.deleted_files, 1);
    assert_eq!(run.summary.deleted_bytes, 6);
}

#[test]
fn delete_pass_can_remove_excluded_destination_files() {
    let policy = skip_policy();
    let source = vec![row("keep.bin", 4)];
    let destination = vec![row("keep.bin", 4), row("orphan.bin", 6), row("skip/inner.bin", 4)];
    let kept = delete_targets(&source, &destination, Some(&policy), false);
    assert_eq!(kept.len(), 1);
    let targets = delete_targets(&source, &destination, Some(&policy), true);
    let mut run = DeleteRun::start(targets, args());
    let mut reasons = Vec::new();
    while let Some(step) = run.step() {
        assert_eq!(step, DeleteStep::Remove);
        let settlement = run.settle(&DeleteOutcome::Gone, Some(&policy));
        reasons.push(settlement.event.unwrap().reason.unwrap());
    }
    assert_eq!(run.summary.deleted_files, 2);
    assert_eq!(run.summary.deleted_bytes, 10);
    assert_eq!(
        reasons,
        vec![
            "destination-only entry".to_string(),
            "excluded destination entry".to_string()
        ]
    );
}

#[test]
fn a_row_that_is_not_there_fails() {
    let mut run = DeleteRun::start(vec![row("a", 1)], args());
    let settlement = run.settle(&DeleteOutcome::NotFound("gone".to_string()), None);
    assert_eq!(
        settlement.note,
        Some("[err] delete target missing: /dst/a".to_string())
    );
    assert!(settlement.event.is_none());
    assert_eq!(run.summary.failed_files, 1);

    let mut strict = args();
    strict.stop_on_error = true;
    let mut run = DeleteRun::start(vec![row("a", 1)], strict);
    let settlement = run.settle(&DeleteOutcome::NotFound("gone".to_string()), None);
    assert_eq!(
        settlement.stop,
        Some("missing delete target: /dst/a".to_string())
    );
}

#[test]
fn backups_are_moved_and_their_failures_told() {
    let mut moved = args();
    moved.backup_dir = Some("/backup".to_string());
    let mut run = DeleteRun::start(vec![row("a", 1), row("b", 2)], moved);
    assert_eq!(run.step(), Some(DeleteStep::MoveToBackup));
    let settlement = run.settle(&DeleteOutcome::Failed("denied".to_string()), None);
    assert_eq!(
        settlement.note,
        Some("[err] backup failed: /dst/a: denied".to_string())
    );
    let settlement = run.settle(&DeleteOutcome::Gone, None);
    assert_eq!(
        settlement.line,
        Some("[delete] 2 / 2 (2 bytes)".to_string())
    );
    assert_eq!(run.summary.failed_files, 1);
    assert_eq!(run.summary.deleted_files, 1);
}

#[test]
fn a_dry_run_counts_every_row() {
    let mut dry = args();
    dry.dry_run = true;
    let mut run = DeleteRun::start(vec![row("a", 1), row("b", 20), row("c", 300)], dry);
    while run.step().is_some() {
        assert_eq!(run.step(), Some(DeleteStep::CountOnly));
        run.settle(&DeleteOutcome::Failed("denied".to_string()), None);
    }
    assert_eq!(run.summary.failed_files, 0);
    assert_eq!(run.summary.deleted_files, 3);
    assert_eq!(run.summary.deleted_bytes, 321);
}
