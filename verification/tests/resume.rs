use nightindex::copy_run::{
    CopyRun, CopyRunArgs, DestinationLook, Known, ResumeMark, ResumeStatus, Ruling,
};
use nightindex::plan::{CopyPlan, CopyPlanSummary};
use nightindex::record::FileRecord;
use nightindex::resume::{
    apply_mark, build_resume_copy_plan, choose_resume_action, find_session,
    load_resume_items_for_export, load_resume_pending_items, load_resume_session_stats,
    prune_resume_completed_rows, session_name, tell_preflight, tracking_dbs, ResumeAction,
    ResumeAsked, ResumeItem, ResumeRow, ResumeSessionListItem,
};

fn session(id: &str, started_at: i64) -> ResumeSessionListItem {
    ResumeSessionListItem {
        session_id: id.to_string(),
        mode: "copy-missing".to_string(),
        left_label: "left".to_string(),
        right_label: "right".to_string(),
        started_at,
        finished_at: None,
        planned_files: 1,
        copied_files: 0,
        failed_files: 0,
    }
}

fn mark(
    before: Option<&ResumeItem>,
    rel_path: &str,
    status: ResumeStatus,
    bytes_done: u64,
    error: Option<&str>,
    attempt: bool,
) -> ResumeItem {
    let mark = ResumeMark {
        status,
        bytes_done,
        error: error.map(|e| e.to_string()),
    };
    apply_mark(before, rel_path, &mark, attempt, 9)
}

#[test]
fn resume_recorder_persists_session_and_item_states() {
    let copying = mark(None, "a.bin", ResumeStatus::Copying, 0, None, true);
    assert_eq!(copying.attempts, 1);
    let items = vec![copying];
    assert_eq!(
        load_resume_pending_items(&items, false, None),
        vec!["a.bin".to_string()]
    );
    let done = mark(
        Some(&items[0]),
        "a.bin",
        ResumeStatus::Done,
        100,
        None,
        false,
    );
    assert_eq!(done.attempts, 1);
    assert_eq!(done.bytes_done, 100);
    assert_eq!(done.status, "done");
    assert!(load_resume_pending_items(&vec![done], false, None).is_empty());
}

#[test]
fn build_resume_copy_plan_uses_latest_session() {
    let sessions = vec![session("new", 5), session("old", 1)];
    assert_eq!(find_session(&sessions, None), Some(0));
    assert_eq!(find_session(&sessions, Some("old")), Some(1));
    assert_eq!(find_session(&sessions, Some("none")), None);
    assert_eq!(find_session(&Vec::new(), None), None);

    let rows = vec![
        Some(FileRecord {
            rel_path: "a.bin".to_string(),
            file_type: "file".to_string(),
            size: 3,
            mtime_ns: 0,
            fast_hash: None,
        }),
        None,
    ];
    let pending = vec!["a.bin".to_string(), "b.bin".to_string()];
    let plan = build_resume_copy_plan(&sessions[0], "resume.sqlite", &pending, &rows, 1);
    assert_eq!(plan.items.len(), 2);
    assert_eq!(plan.items[0].rel_path, "a.bin");
    assert_eq!(plan.items[0].size, 3);
    assert_eq!(plan.items[1].file_type, "file");
    assert_eq!(plan.items[1].size, 0);
    assert_eq!(plan.left_label, "left");
    assert_eq!(plan.right_label, "right");
    assert_eq!(plan.summary.bytes_to_copy, 3);
    assert_eq!(plan.left_db, Some("resume.sqlite".to_string()));
}

#[test]
fn the_bytes_of_a_plan_stop_at_what_fits() {
    let row = |size: u64| {
        Some(FileRecord {
            rel_path: "x".to_string(),
            file_type: "file".to_string(),
            size,
            mtime_ns: 0,
            fast_hash: None,
        })
    };
    let pending = vec!["a".to_string(), "b".to_string()];
    let plan = build_resume_copy_plan(
        &session("s", 1),
        "db",
        &pending,
        &vec![row(u64::MAX), row(1)],
        1,
    );
    assert_eq!(plan.summary.bytes_to_copy, u64::MAX);
}

#[test]
fn resume_plan_filters_failed_and_max_attempts() {
    let a = mark(None, "a.bin", ResumeStatus::Failed, 0, Some("x"), true);
    let b = mark(None, "b.bin", ResumeStatus::Failed, 0, Some("x"), true);
    let b = mark(Some(&b), "b.bin", ResumeStatus::Failed, 0, Some("x"), true);
    let c = mark(None, "c.bin", ResumeStatus::Pending, 0, None, true);
    let items = vec![a, b, c];
    let failed_only = load_resume_pending_items(&items, true, None);
    assert_eq!(failed_only.len(), 2);
    let failed_limited = load_resume_pending_items(&items, true, Some(1));
    assert_eq!(failed_limited.len(), 1);
    assert_eq!(failed_limited[0], "a.bin");
    assert_eq!(load_resume_pending_items(&items, false, None).len(), 3);
}

#[test]
fn resume_jsonl_export_writes_filtered_rows() {
    let items = vec![
        mark(None, "a.bin", ResumeStatus::Failed, 0, Some("x"), true),
        mark(None, "b.bin", ResumeStatus::Done, 2, None, true),
    ];
    let rows = load_resume_items_for_export(&items, "s", true, None);
    assert_eq!(rows.len(), 1);
    assert_eq!(rows[0].status, "failed");
    assert_eq!(rows[0].rel_path, "a.bin");
    assert_eq!(rows[0].session_id, "s");
    assert_eq!(rows[0].last_error, Some("x".to_string()));
    let all = load_resume_items_for_export(&items, "s", false, None);
    assert_eq!(all.len(), 2);
    assert_eq!(all[1].bytes_done, 2);
}

#[test]
fn resume_list_and_stats_output_paths_work() {
    let items = vec![mark(None, "a.bin", ResumeStatus::Failed, 0, Some("x"), true)];
    let stats = load_resume_session_stats(&items, "s");
    assert_eq!(stats.failed, 1);
    assert_eq!(stats.done, 0);
    assert_eq!(stats.session_id, "s");
}

fn of_session(session_id: &str, items: Vec<ResumeItem>) -> Vec<ResumeRow> {
    items
        .into_iter()
        .map(|item| ResumeRow {
            session_id: session_id.to_string(),
            item,
        })
        .collect()
}

fn without(rows: Vec<ResumeRow>, places: &[usize]) -> Vec<ResumeRow> {
    rows.into_iter()
        .enumerate()
        .filter(|(at, _)| !places.contains(at))
        .map(|(_, row)| row)
        .collect()
}

#[test]
fn only_the_session_that_is_asked_for_is_pruned() {
    let done = || mark(None, "a.bin", ResumeStatus::SkippedConflict, 0, None, true);
    let mut rows = of_session("s", vec![done()]);
    rows.extend(of_session("t", vec![done()]));
    let (one, places) = prune_resume_completed_rows(&rows, Some("t"), false);
    assert_eq!(one.deleted_rows, 1);
    assert_eq!(places, [1]);
    let (all, places) = prune_resume_completed_rows(&rows, None, false);
    assert_eq!(all.deleted_rows, 2);
    assert_eq!(all.scope, "all");
    assert_eq!(places, [0, 1]);
}

#[test]
fn an_entry_that_was_tried_too_often_can_still_be_settled() {
    let mut tried = mark(None, "a.bin", ResumeStatus::Copying, 0, None, true);
    tried.attempts = i64::MAX;
    let done = mark(Some(&tried), "a.bin", ResumeStatus::Done, 3, None, false);
    assert_eq!(done.attempts, i64::MAX);
    assert_eq!(done.status, "done");
}

#[test]
fn resume_prune_completed_removes_done_and_skipped_rows() {
    let rows = of_session(
        "s",
        vec![
            mark(None, "a.bin", ResumeStatus::Done, 1, None, true),
            mark(None, "b.bin", ResumeStatus::SkippedExisting, 0, None, true),
            mark(None, "c.bin", ResumeStatus::Failed, 0, Some("x"), true),
        ],
    );
    let (result, places) = prune_resume_completed_rows(&rows, Some("s"), false);
    assert_eq!(result.deleted_rows, 2);
    assert_eq!(result.scope, "session:s");
    assert!(!result.dry_run);
    assert_eq!(places, [0, 1]);
    let rows = without(rows, &places);
    let items: Vec<ResumeItem> = rows.into_iter().map(|row| row.item).collect();
    let stats = load_resume_session_stats(&items, "s");
    assert_eq!(stats.failed, 1);
    assert_eq!(stats.done, 0);
    assert_eq!(stats.skipped_existing, 0);
    let rows = of_session("s", items);
    let (again, places) = prune_resume_completed_rows(&rows, Some("s"), false);
    assert_eq!(again.deleted_rows, 0);
    assert!(places.is_empty());
}

#[test]
fn resume_prune_dry_run_reports_without_deleting() {
    let rows = of_session(
        "s",
        vec![
            mark(None, "a.bin", ResumeStatus::Done, 1, None, true),
            mark(None, "b.bin", ResumeStatus::Failed, 0, Some("x"), true),
        ],
    );
    let (dry, places) = prune_resume_completed_rows(&rows, Some("s"), true);
    assert!(dry.dry_run);
    assert_eq!(dry.deleted_rows, 1);
    let items: Vec<ResumeItem> = without(rows, &places)
        .into_iter()
        .map(|row| row.item)
        .collect();
    let stats = load_resume_session_stats(&items, "s");
    assert_eq!(stats.done, 1);
    assert_eq!(stats.failed, 1);
}

fn asked() -> ResumeAsked {
    ResumeAsked {
        export: false,
        prune_completed: false,
        dry_run_prune: false,
        vacuum: false,
        list_sessions: false,
        stats: false,
        write_plan: false,
        execute: false,
    }
}

#[test]
fn the_first_thing_asked_for_is_done() {
    assert_eq!(choose_resume_action(&asked()), ResumeAction::Refuse);
    let mut some = asked();
    some.execute = true;
    assert_eq!(
        choose_resume_action(&some),
        ResumeAction::Plan {
            write: false,
            execute: true
        }
    );
    some.stats = true;
    assert_eq!(choose_resume_action(&some), ResumeAction::Stats);
    some.list_sessions = true;
    assert_eq!(choose_resume_action(&some), ResumeAction::List);
    some.prune_completed = true;
    some.vacuum = true;
    assert_eq!(
        choose_resume_action(&some),
        ResumeAction::Prune { vacuum: true }
    );
    some.dry_run_prune = true;
    assert_eq!(
        choose_resume_action(&some),
        ResumeAction::Prune { vacuum: false }
    );
    some.export = true;
    assert_eq!(choose_resume_action(&some), ResumeAction::Export);
}

fn plan(left_db: Option<&str>, right_db: Option<&str>) -> CopyPlan {
    CopyPlan {
        mode: "copy-missing".to_string(),
        left_label: "left".to_string(),
        right_label: "right".to_string(),
        left_db: left_db.map(|s| s.to_string()),
        right_db: right_db.map(|s| s.to_string()),
        generated_at_ns: 0,
        summary: CopyPlanSummary {
            files_to_copy: 0,
            bytes_to_copy: 7,
            left_files: 0,
            right_files: 0,
        },
        items: Vec::new(),
    }
}

#[test]
fn each_index_keeps_track_once() {
    assert!(tracking_dbs(&plan(None, None)).is_empty());
    assert_eq!(tracking_dbs(&plan(Some("a"), Some("a"))).len(), 1);
    assert_eq!(
        tracking_dbs(&plan(Some("a"), Some("b"))),
        vec!["a".to_string(), "b".to_string()]
    );
    assert_eq!(tracking_dbs(&plan(None, Some("b"))), vec!["b".to_string()]);
    assert_eq!(session_name(12, 34), "12-34");
}

#[test]
fn a_session_is_told_before_it_is_taken_up() {
    assert_eq!(
        tell_preflight(None, &plan(None, None), false, None, true, false),
        "[resume preflight] session=latest files=0 bytes=7 filter=pending+copying+failed max_attempts=none dry_run=true overwrite=false"
    );
    assert_eq!(
        tell_preflight(Some("s"), &plan(None, None), true, Some(3), false, true),
        "[resume preflight] session=s files=0 bytes=7 filter=failed-only max_attempts=3 dry_run=false overwrite=true"
    );
}

#[test]
fn resume_plan_command_can_execute_without_out_json() {
    let mut wish = asked();
    wish.execute = true;
    assert_eq!(
        choose_resume_action(&wish),
        ResumeAction::Plan {
            write: false,
            execute: true
        }
    );
    let items = vec![mark(None, "a.bin", ResumeStatus::Failed, 0, Some("x"), true)];
    let pending = load_resume_pending_items(&items, false, None);
    let row = FileRecord {
        rel_path: "a.bin".to_string(),
        file_type: "file".to_string(),
        size: 3,
        mtime_ns: 0,
        fast_hash: None,
    };
    let plan = build_resume_copy_plan(&session("s", 0), "resume.sqlite", &pending, &vec![Some(row)], 0);
    assert_eq!(plan.items.len(), 1);
    let args = CopyRunArgs {
        source_root: "src".to_string(),
        destination_root: "dst".to_string(),
        backup_dir: None,
        overwrite: false,
        dry_run: true,
        stop_on_error: false,
        log: None,
        progress_every: 1000,
        size_only: false,
        hash: false,
        copy_links_as_files: false,
    };
    let mut run = CopyRun::start(&plan, args, None);
    let mut known = Known::nothing();
    known.source_is_file = Some(true);
    known.destination = Some(DestinationLook::Absent);
    assert_eq!(run.step(&known), Some(Ruling::CopyPlanned));
    let settlement = run.settle(&known);
    assert_eq!(settlement.mark.unwrap().status.name(), "planned");
    assert!(run.step(&Known::nothing()).is_none());
    assert_eq!(run.summary(&plan).copied_files, 1);
    assert_eq!(run.summary(&plan).copied_bytes, 3);
}
